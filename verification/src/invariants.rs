//! What every accepted API request keeps true of the configuration, and what one
//! request undoes of another.

use vstd::prelude::*;
use crate::api::{
    at, clashes, has_clash, new_iface, without_iface, add_mapping, remove_mapping, without_orig,
    create_iface_outcome, create_mapping_outcome, delete_mapping_outcome, list_mappings_outcome,
    has_orig, is_first_orig, first_orig,
};
use crate::config::{has_iface, is_first_named, first_named, lemma_first_named};
use crate::dto::{DnatMapping, InterfaceModel};
use crate::tables::{distinct_mappings, spec_load, lemma_load_holds_each_mapping};

verus! {

/// No two interfaces share a name.
pub open spec fn names_unique(s: Seq<InterfaceModel>) -> bool {
    forall|i: int, j: int| 0 <= i < j < s.len() ==> #[trigger] s[i].name != #[trigger] s[j].name
}

/// Every DNAT mapping changes its address, and no two mappings, on any interfaces,
/// share an original address or a new address.
pub open spec fn mappings_wf(s: Seq<InterfaceModel>) -> bool {
    &&& forall|i: int, k: int| at(s, i, k) ==> #[trigger] s[i].dnat[k].orig != s[i].dnat[k].new
    &&& forall|i1: int, k1: int, i2: int, k2: int|
        at(s, i1, k1) && at(s, i2, k2) && (i1 != i2 || k1 != k2) ==> #[trigger] s[i1].dnat[k1].orig
            != #[trigger] s[i2].dnat[k2].orig
    &&& forall|i1: int, k1: int, i2: int, k2: int|
        at(s, i1, k1) && at(s, i2, k2) && (i1 != i2 || k1 != k2) ==> #[trigger] s[i1].dnat[k1].new
            != #[trigger] s[i2].dnat[k2].new
}

/// The invariant that the API keeps: unique interface names and well-formed mappings.
pub open spec fn config_wf(s: Seq<InterfaceModel>) -> bool {
    names_unique(s) && mappings_wf(s)
}

proof fn lemma_wf_prefix(s: Seq<InterfaceModel>)
    requires
        config_wf(s),
        s.len() > 0,
    ensures
        config_wf(s.drop_last()),
{
    let p = s.drop_last();
    assert forall|i: int, j: int| 0 <= i < j < p.len() implies #[trigger] p[i].name != #[trigger] p[j].name by {
        assert(p[i] == s[i] && p[j] == s[j]);
    }
    assert forall|i: int, k: int| at(p, i, k) implies #[trigger] p[i].dnat[k].orig != p[i].dnat[k].new by {
        assert(p[i] == s[i]);
        assert(at(s, i, k));
    }
    assert forall|i1: int, k1: int, i2: int, k2: int|
        at(p, i1, k1) && at(p, i2, k2) && (i1 != i2 || k1 != k2) implies #[trigger] p[i1].dnat[k1].orig
            != #[trigger] p[i2].dnat[k2].orig && p[i1].dnat[k1].new != p[i2].dnat[k2].new by {
        assert(p[i1] == s[i1] && p[i2] == s[i2]);
        assert(at(s, i1, k1) && at(s, i2, k2));
        assert(s[i1].dnat[k1].orig != s[i2].dnat[k2].orig);
        assert(s[i1].dnat[k1].new != s[i2].dnat[k2].new);
    }
}

/// Every interface that [`without_iface`] keeps comes from the list it filters and is not
/// called `name`.
proof fn lemma_without_iface_sub(s: Seq<InterfaceModel>, name: Seq<char>)
    ensures
        forall|x: int| 0 <= x < without_iface(s, name).len() ==> exists|y: int| 0 <= y < s.len() && #[trigger] without_iface(s, name)[x] == s[y],
        forall|x: int| 0 <= x < without_iface(s, name).len() ==> #[trigger] without_iface(s, name)[x].name != name,
    decreases s.len(),
{
    if s.len() > 0 {
        let p = s.drop_last();
        lemma_without_iface_sub(p, name);
        let w = without_iface(s, name);
        assert forall|x: int| 0 <= x < w.len() implies exists|y: int| 0 <= y < s.len() && #[trigger] w[x] == s[y] by {
            if x < without_iface(p, name).len() {
                assert(w[x] == without_iface(p, name)[x]);
                let y = choose|y: int| 0 <= y < p.len() && without_iface(p, name)[x] == p[y];
                assert(s[y] == p[y]);
            } else {
                assert(w[x] == s[s.len() - 1]);
            }
        }
        assert forall|x: int| 0 <= x < w.len() implies #[trigger] w[x].name != name by {
            if x < without_iface(p, name).len() {
                assert(w[x] == without_iface(p, name)[x]);
            }
        }
    }
}

/// Deleting an interface keeps the invariant.
pub proof fn lemma_delete_iface_keeps_wf(s: Seq<InterfaceModel>, name: Seq<char>)
    requires
        config_wf(s),
    ensures
        config_wf(without_iface(s, name)),
    decreases s.len(),
{
    if s.len() > 0 {
        let p = s.drop_last();
        let last = s.last();
        lemma_wf_prefix(s);
        lemma_delete_iface_keeps_wf(p, name);
        lemma_without_iface_sub(p, name);
        let wp = without_iface(p, name);
        if last.name != name {
            let w = wp.push(last);
            assert(without_iface(s, name) == w);
            // Each kept interface sits at some position of the prefix, before `last`.
            assert forall|i: int, j: int| 0 <= i < j < w.len() implies #[trigger] w[i].name != #[trigger] w[j].name by {
                if j == w.len() - 1 {
                    let y = choose|y: int| 0 <= y < p.len() && wp[i] == p[y];
                    assert(s[y] == p[y]);
                    assert(s[y].name != s[s.len() - 1].name);
                } else {
                    assert(w[i] == wp[i] && w[j] == wp[j]);
                }
            }
            assert forall|i: int, k: int| at(w, i, k) implies #[trigger] w[i].dnat[k].orig != w[i].dnat[k].new by {
                if i == w.len() - 1 {
                    assert(at(s, s.len() - 1, k));
                } else {
                    assert(w[i] == wp[i]);
                    assert(at(wp, i, k));
                }
            }
            assert forall|i1: int, k1: int, i2: int, k2: int|
                at(w, i1, k1) && at(w, i2, k2) && (i1 != i2 || k1 != k2) implies #[trigger] w[i1].dnat[k1].orig
                    != #[trigger] w[i2].dnat[k2].orig && w[i1].dnat[k1].new != w[i2].dnat[k2].new by {
                let n = s.len() - 1;
                if i1 == w.len() - 1 && i2 == w.len() - 1 {
                    assert(at(s, n, k1) && at(s, n, k2));
                    assert(s[n].dnat[k1].orig != s[n].dnat[k2].orig);
                    assert(s[n].dnat[k1].new != s[n].dnat[k2].new);
                } else if i1 == w.len() - 1 {
                    let y = choose|y: int| 0 <= y < p.len() && wp[i2] == p[y];
                    assert(w[i2] == s[y]);
                    assert(at(s, n, k1) && at(s, y, k2));
                    assert(s[n].dnat[k1].orig != s[y].dnat[k2].orig);
                    assert(s[n].dnat[k1].new != s[y].dnat[k2].new);
                } else if i2 == w.len() - 1 {
                    let y = choose|y: int| 0 <= y < p.len() && wp[i1] == p[y];
                    assert(w[i1] == s[y]);
                    assert(at(s, n, k2) && at(s, y, k1));
                    assert(s[y].dnat[k1].orig != s[n].dnat[k2].orig);
                    assert(s[y].dnat[k1].new != s[n].dnat[k2].new);
                } else {
                    assert(w[i1] == wp[i1] && w[i2] == wp[i2]);
                    assert(at(wp, i1, k1) && at(wp, i2, k2));
                    assert(wp[i1].dnat[k1].orig != wp[i2].dnat[k2].orig);
                    assert(wp[i1].dnat[k1].new != wp[i2].dnat[k2].new);
                }
            }
        }
    }
}

/// Creating an interface that the check accepted keeps the invariant.
pub proof fn lemma_create_iface_keeps_wf(s: Seq<InterfaceModel>, name: Seq<char>)
    requires
        config_wf(s),
        create_iface_outcome(s, name) is Ok,
    ensures
        config_wf(s.push(new_iface(name))),
{
    let w = s.push(new_iface(name));
    assert forall|i: int, j: int| 0 <= i < j < w.len() implies #[trigger] w[i].name != #[trigger] w[j].name by {
        if j == w.len() - 1 {
            assert(w[i] == s[i]);
            if s[i].name == name {
                assert(has_iface(s, name));
            }
        } else {
            assert(w[i] == s[i] && w[j] == s[j]);
        }
    }
    assert forall|i: int, k: int| at(w, i, k) implies #[trigger] w[i].dnat[k].orig != w[i].dnat[k].new by {
        assert(w[i] == s[i]);
        assert(at(s, i, k));
    }
    assert forall|i1: int, k1: int, i2: int, k2: int|
        at(w, i1, k1) && at(w, i2, k2) && (i1 != i2 || k1 != k2) implies #[trigger] w[i1].dnat[k1].orig
            != #[trigger] w[i2].dnat[k2].orig && w[i1].dnat[k1].new != w[i2].dnat[k2].new by {
        assert(w[i1] == s[i1] && w[i2] == s[i2]);
        assert(at(s, i1, k1) && at(s, i2, k2));
        assert(s[i1].dnat[k1].orig != s[i2].dnat[k2].orig);
        assert(s[i1].dnat[k1].new != s[i2].dnat[k2].new);
    }
}

/// Adding a mapping that the check accepted keeps the invariant.
pub proof fn lemma_create_mapping_keeps_wf(s: Seq<InterfaceModel>, name: Seq<char>, m: DnatMapping, attached: bool)
    requires
        config_wf(s),
        create_mapping_outcome(s, name, m, attached) is Ok,
    ensures
        config_wf(add_mapping(s, name, m)),
{
    let idx = first_named(s, name);
    lemma_has_first(s, name);
    let w = add_mapping(s, name, m);
    let old_len = s[idx].dnat.len();
    assert(forall|i: int| 0 <= i < s.len() ==> #[trigger] w[i].name == s[i].name);
    assert forall|i: int, j: int| 0 <= i < j < w.len() implies #[trigger] w[i].name != #[trigger] w[j].name by {
        assert(s[i].name != s[j].name);
    }
    // An entry of `w` is the new mapping or an entry of `s` at the same place.
    assert forall|i: int, k: int| at(w, i, k) && !(i == idx && k == old_len) implies at(s, i, k) && #[trigger] w[i].dnat[k] == s[i].dnat[k] by {
    }
    assert(w[idx].dnat[old_len as int] == m);
    assert forall|i: int, k: int| at(w, i, k) implies #[trigger] w[i].dnat[k].orig != w[i].dnat[k].new by {
        if !(i == idx && k == old_len) {
            assert(at(s, i, k));
        }
    }
    assert forall|i1: int, k1: int, i2: int, k2: int|
        at(w, i1, k1) && at(w, i2, k2) && (i1 != i2 || k1 != k2) implies #[trigger] w[i1].dnat[k1].orig
            != #[trigger] w[i2].dnat[k2].orig && w[i1].dnat[k1].new != w[i2].dnat[k2].new by {
        let new1 = i1 == idx && k1 == old_len;
        let new2 = i2 == idx && k2 == old_len;
        if new1 {
            assert(at(s, i2, k2));
            if clashes(s[i2].dnat[k2], m) {
                assert(has_clash(s, m));
            }
        } else if new2 {
            assert(at(s, i1, k1));
            if clashes(s[i1].dnat[k1], m) {
                assert(has_clash(s, m));
            }
        } else {
            assert(at(s, i1, k1) && at(s, i2, k2));
            assert(s[i1].dnat[k1].orig != s[i2].dnat[k2].orig);
            assert(s[i1].dnat[k1].new != s[i2].dnat[k2].new);
        }
    }
}

/// Every mapping that [`without_orig`] keeps comes from the list it filters and does not
/// have original address `orig`; when the list's original and new addresses are each
/// distinct, so are those that are kept.
proof fn lemma_without_orig_sub(d: Seq<DnatMapping>, orig: u32)
    ensures
        forall|x: int| 0 <= x < without_orig(d, orig).len() ==> exists|y: int| 0 <= y < d.len() && #[trigger] without_orig(d, orig)[x] == d[y],
        forall|x: int| 0 <= x < without_orig(d, orig).len() ==> #[trigger] without_orig(d, orig)[x].orig != orig,
        without_orig(d, orig).len() <= d.len(),
        distinct_mappings(d) ==> distinct_mappings(without_orig(d, orig)),
    decreases d.len(),
{
    if d.len() > 0 {
        let p = d.drop_last();
        lemma_without_orig_sub(p, orig);
        let wp = without_orig(p, orig);
        let w = without_orig(d, orig);
        assert forall|x: int| 0 <= x < w.len() implies exists|y: int| 0 <= y < d.len() && #[trigger] w[x] == d[y] by {
            if x < wp.len() {
                assert(w[x] == wp[x]);
                let y = choose|y: int| 0 <= y < p.len() && wp[x] == p[y];
                assert(d[y] == p[y]);
            } else {
                assert(w[x] == d[d.len() - 1]);
            }
        }
        assert forall|x: int| 0 <= x < w.len() implies #[trigger] w[x].orig != orig by {
            if x < wp.len() {
                assert(w[x] == wp[x]);
            }
        }
        if distinct_mappings(d) {
            assert(distinct_mappings(p)) by {
                assert forall|i: int, j: int| 0 <= i < j < p.len() implies #[trigger] p[i].orig != #[trigger] p[j].orig by {
                    assert(p[i] == d[i] && p[j] == d[j]);
                }
                assert forall|i: int, j: int| 0 <= i < j < p.len() implies #[trigger] p[i].new != #[trigger] p[j].new by {
                    assert(p[i] == d[i] && p[j] == d[j]);
                }
            }
            if d.last().orig != orig {
                let n = d.len() - 1;
                assert forall|i: int, j: int| 0 <= i < j < w.len() implies #[trigger] w[i].orig != #[trigger] w[j].orig && w[i].new != w[j].new by {
                    if j == w.len() - 1 {
                        assert(w[i] == wp[i]);
                        let y = choose|y: int| 0 <= y < p.len() && wp[i] == p[y];
                        assert(d[y] == p[y]);
                        assert(d[y].orig != d[n].orig);
                        assert(d[y].new != d[n].new);
                    } else {
                        assert(w[i] == wp[i] && w[j] == wp[j]);
                    }
                }
            }
        }
    }
}

/// The mappings of one interface of a well-formed configuration have distinct original
/// and distinct new addresses.
pub proof fn lemma_wf_iface_distinct(s: Seq<InterfaceModel>, i: int)
    requires
        config_wf(s),
        0 <= i < s.len(),
    ensures
        distinct_mappings(s[i].dnat),
{
    let d = s[i].dnat;
    assert forall|a: int, b: int| 0 <= a < b < d.len() implies #[trigger] d[a].orig != #[trigger] d[b].orig by {
        assert(at(s, i, a) && at(s, i, b));
    }
    assert forall|a: int, b: int| 0 <= a < b < d.len() implies #[trigger] d[a].new != #[trigger] d[b].new by {
        assert(at(s, i, a) && at(s, i, b));
    }
}

/// Deleting a mapping keeps the invariant.
pub proof fn lemma_delete_mapping_keeps_wf(s: Seq<InterfaceModel>, name: Seq<char>, orig: u32)
    requires
        config_wf(s),
        has_iface(s, name),
    ensures
        config_wf(remove_mapping(s, name, orig)),
{
    let idx = first_named(s, name);
    lemma_has_first(s, name);
    let d = s[idx].dnat;
    lemma_wf_iface_distinct(s, idx);
    lemma_without_orig_sub(d, orig);
    let nd = without_orig(d, orig);
    let w = remove_mapping(s, name, orig);
    assert(w[idx].dnat == nd);
    assert(forall|i: int| 0 <= i < s.len() ==> #[trigger] w[i].name == s[i].name);
    assert forall|i: int, j: int| 0 <= i < j < w.len() implies #[trigger] w[i].name != #[trigger] w[j].name by {
        assert(s[i].name != s[j].name);
    }
    // Each entry of `w` sits at some place of `s`, on the same interface.
    assert forall|i: int, k: int| at(w, i, k) implies exists|k0: int| at(s, i, k0) && #[trigger] w[i].dnat[k] == s[i].dnat[k0] by {
        if i == idx {
            let y = choose|y: int| 0 <= y < d.len() && nd[k] == d[y];
            assert(at(s, i, y));
        } else {
            assert(at(s, i, k));
        }
    }
    assert forall|i: int, k: int| at(w, i, k) implies #[trigger] w[i].dnat[k].orig != w[i].dnat[k].new by {
        let k0 = choose|k0: int| at(s, i, k0) && w[i].dnat[k] == s[i].dnat[k0];
        assert(s[i].dnat[k0].orig != s[i].dnat[k0].new);
    }
    assert forall|i1: int, k1: int, i2: int, k2: int|
        at(w, i1, k1) && at(w, i2, k2) && (i1 != i2 || k1 != k2) implies #[trigger] w[i1].dnat[k1].orig
            != #[trigger] w[i2].dnat[k2].orig && w[i1].dnat[k1].new != w[i2].dnat[k2].new by {
        let a = choose|k0: int| at(s, i1, k0) && w[i1].dnat[k1] == s[i1].dnat[k0];
        let b = choose|k0: int| at(s, i2, k0) && w[i2].dnat[k2] == s[i2].dnat[k0];
        if i1 == i2 {
            if i1 == idx {
                if k1 < k2 {
                    assert(nd[k1].orig != nd[k2].orig && nd[k1].new != nd[k2].new);
                } else {
                    assert(nd[k2].orig != nd[k1].orig && nd[k2].new != nd[k1].new);
                }
            } else {
                assert(s[i1].dnat[k1].orig != s[i2].dnat[k2].orig);
                assert(s[i1].dnat[k1].new != s[i2].dnat[k2].new);
            }
        } else {
            assert(s[i1].dnat[a].orig != s[i2].dnat[b].orig);
            assert(s[i1].dnat[a].new != s[i2].dnat[b].new);
        }
    }
}

/// A list without any interface called `name` is left as it is.
proof fn lemma_without_absent_iface(s: Seq<InterfaceModel>, name: Seq<char>)
    requires
        !has_iface(s, name),
    ensures
        without_iface(s, name) == s,
    decreases s.len(),
{
    if s.len() > 0 {
        let p = s.drop_last();
        assert(!has_iface(p, name)) by {
            if has_iface(p, name) {
                let i = choose|i: int| 0 <= i < p.len() && #[trigger] p[i].name == name;
                assert(s[i] == p[i]);
            }
        }
        lemma_without_absent_iface(p, name);
        assert(s.last().name != name) by {
            assert(s[s.len() - 1].name == s.last().name);
        }
        assert(p.push(s.last()) =~= s);
    }
}

/// Deleting an interface right after creating it gives back the interfaces as they were.
pub proof fn lemma_delete_iface_undoes_create(s: Seq<InterfaceModel>, name: Seq<char>)
    requires
        create_iface_outcome(s, name) is Ok,
    ensures
        without_iface(s.push(new_iface(name)), name) == s,
{
    let w = s.push(new_iface(name));
    assert(w.drop_last() =~= s);
    lemma_without_absent_iface(s, name);
}

/// A list without any mapping of `orig` is left as it is.
proof fn lemma_without_absent_orig(d: Seq<DnatMapping>, orig: u32)
    requires
        !has_orig(d, orig),
    ensures
        without_orig(d, orig) == d,
    decreases d.len(),
{
    if d.len() > 0 {
        let p = d.drop_last();
        assert(!has_orig(p, orig)) by {
            if has_orig(p, orig) {
                let k = choose|k: int| 0 <= k < p.len() && #[trigger] p[k].orig == orig;
                assert(d[k] == p[k]);
            }
        }
        lemma_without_absent_orig(p, orig);
        assert(d.last().orig != orig) by {
            assert(d[d.len() - 1] == d.last());
        }
        assert(p.push(d.last()) =~= d);
    }
}

/// Adding a mapping keeps the position of every interface's first occurrence.
proof fn lemma_add_keeps_first_named(s: Seq<InterfaceModel>, name: Seq<char>, m: DnatMapping)
    requires
        has_iface(s, name),
    ensures
        first_named(add_mapping(s, name, m), name) == first_named(s, name),
        has_iface(add_mapping(s, name, m), name),
{
    let idx = first_named(s, name);
    let i = choose|i: int| 0 <= i < s.len() && #[trigger] s[i].name == name;
    // The first occurrence exists: take the least position with that name.
    lemma_least_named(s, name, i);
    assert(is_first_named(s, name, idx));
    let w = add_mapping(s, name, m);
    assert(forall|j: int| 0 <= j < s.len() ==> #[trigger] w[j].name == s[j].name);
    assert(is_first_named(w, name, idx));
    lemma_first_named(w, name, idx);
}

/// Where some interface is called `name`, [`first_named`] is the first one.
pub proof fn lemma_has_first(s: Seq<InterfaceModel>, name: Seq<char>)
    requires
        has_iface(s, name),
    ensures
        is_first_named(s, name, first_named(s, name)),
{
    let i = choose|i: int| 0 <= i < s.len() && #[trigger] s[i].name == name;
    lemma_least_named(s, name, i);
}

/// Where some interface is called `name`, a first one is.
pub proof fn lemma_least_named(s: Seq<InterfaceModel>, name: Seq<char>, i: int)
    requires
        0 <= i < s.len(),
        s[i].name == name,
    ensures
        is_first_named(s, name, first_named(s, name)),
    decreases i,
{
    if exists|j: int| 0 <= j < i && #[trigger] s[j].name == name {
        let j = choose|j: int| 0 <= j < i && #[trigger] s[j].name == name;
        lemma_least_named(s, name, j);
    } else {
        assert(is_first_named(s, name, i));
    }
}

/// Deleting a mapping right after adding it gives back the interfaces as they were.
pub proof fn lemma_delete_mapping_undoes_create(s: Seq<InterfaceModel>, name: Seq<char>, m: DnatMapping, attached: bool)
    requires
        create_mapping_outcome(s, name, m, attached) is Ok,
    ensures
        remove_mapping(add_mapping(s, name, m), name, m.orig) == s,
{
    let idx = first_named(s, name);
    lemma_add_keeps_first_named(s, name, m);
    lemma_has_first(s, name);
    let d = s[idx].dnat;
    assert(!has_orig(d, m.orig)) by {
        if has_orig(d, m.orig) {
            let k = choose|k: int| 0 <= k < d.len() && #[trigger] d[k].orig == m.orig;
            assert(at(s, idx, k) && clashes(s[idx].dnat[k], m));
            assert(has_clash(s, m));
        }
    }
    lemma_without_absent_orig(d, m.orig);
    assert(d.push(m).drop_last() =~= d);
    assert(without_orig(d.push(m), m.orig) == d);
    let w = add_mapping(s, name, m);
    assert(remove_mapping(w, name, m.orig) =~= s);
}

/// Right after a mapping is added, listing the interface's mappings shows it last,
/// after the mappings that were there.
pub proof fn lemma_list_after_create(s: Seq<InterfaceModel>, name: Seq<char>, m: DnatMapping)
    requires
        has_iface(s, name),
    ensures
        list_mappings_outcome(add_mapping(s, name, m), name) == Ok::<Seq<DnatMapping>, crate::api::ApiErrorModel>(
            s[first_named(s, name)].dnat.push(m),
        ),
{
    lemma_add_keeps_first_named(s, name, m);
    lemma_has_first(s, name);
}

/// Right after a mapping is added, a request to delete its original address on that
/// interface finds exactly that mapping (while the interface is attached).
pub proof fn lemma_delete_finds_created(s: Seq<InterfaceModel>, name: Seq<char>, m: DnatMapping, attached: bool)
    requires
        create_mapping_outcome(s, name, m, attached) is Ok,
    ensures
        delete_mapping_outcome(add_mapping(s, name, m), name, m.orig, true) == Ok::<DnatMapping, crate::api::ApiErrorModel>(m),
{
    let idx = first_named(s, name);
    lemma_add_keeps_first_named(s, name, m);
    lemma_has_first(s, name);
    let d = s[idx].dnat;
    let nd = d.push(m);
    assert forall|k: int| 0 <= k < d.len() implies #[trigger] nd[k].orig != m.orig by {
        assert(nd[k] == d[k]);
        if d[k].orig == m.orig {
            assert(at(s, idx, k) && clashes(s[idx].dnat[k], m));
            assert(has_clash(s, m));
        }
    }
    assert(is_first_orig(nd, m.orig, d.len() as int));
    assert(has_orig(nd, m.orig));
    crate::api::lemma_first_orig(nd, m.orig, d.len() as int);
}


/// The empty configuration is well-formed.
pub proof fn lemma_empty_wf()
    ensures
        config_wf(Seq::<InterfaceModel>::empty()),
{
}

/// In a well-formed configuration, the tables loaded for an interface send each of its
/// mappings' original addresses to the new one and each new address back, and hold
/// nothing else.
pub proof fn lemma_wf_tables(s: Seq<InterfaceModel>, i: int)
    requires
        config_wf(s),
        0 <= i < s.len(),
    ensures
        forall|k: int| 0 <= k < s[i].dnat.len() ==> {
            &&& #[trigger] spec_load(s[i].dnat).dnat.contains_key(s[i].dnat[k].orig)
            &&& spec_load(s[i].dnat).dnat[s[i].dnat[k].orig] == s[i].dnat[k].new
            &&& spec_load(s[i].dnat).reverse.contains_key(s[i].dnat[k].new)
            &&& spec_load(s[i].dnat).reverse[s[i].dnat[k].new] == s[i].dnat[k].orig
        },
        forall|a: u32| #[trigger] spec_load(s[i].dnat).dnat.contains_key(a) ==> exists|k: int| 0 <= k < s[i].dnat.len() && s[i].dnat[k].orig == a,
        forall|a: u32| #[trigger] spec_load(s[i].dnat).reverse.contains_key(a) ==> exists|k: int| 0 <= k < s[i].dnat.len() && s[i].dnat[k].new == a,
{
    lemma_wf_iface_distinct(s, i);
    lemma_load_holds_each_mapping(s[i].dnat);
}


/// Leaving out the mappings of `orig` keeps every other mapping, in order: the result is
/// the list filtered by a differing original address, and it is shorter than the list
/// by exactly the number of mappings of `orig`.
pub proof fn lemma_without_orig_filters(d: Seq<DnatMapping>, orig: u32)
    ensures
        without_orig(d, orig) == d.filter(|m: DnatMapping| m.orig != orig),
        without_orig(d, orig).len() + d.filter(|m: DnatMapping| m.orig == orig).len() == d.len(),
    decreases d.len(),
{
    reveal(Seq::filter);
    if d.len() > 0 {
        lemma_without_orig_filters(d.drop_last(), orig);
    }
}

/// Deleting the mappings of `orig` from interface `name` filters the mappings of the
/// first interface of that name by a differing original address, in order, and changes
/// nothing else: not its name, SNAT mappings or masquerade settings, nor any other
/// interface.
pub proof fn lemma_delete_mapping_filters(s: Seq<InterfaceModel>, name: Seq<char>, orig: u32)
    requires
        has_iface(s, name),
    ensures
        ({
            let w = remove_mapping(s, name, orig);
            let i = first_named(s, name);
            &&& is_first_named(s, name, i)
            &&& w.len() == s.len()
            &&& w[i].dnat == s[i].dnat.filter(|m: DnatMapping| m.orig != orig)
            &&& w[i].dnat.len() + s[i].dnat.filter(|m: DnatMapping| m.orig == orig).len() == s[i].dnat.len()
            &&& w[i].name == s[i].name
            &&& w[i].snat == s[i].snat
            &&& w[i].masquerade == s[i].masquerade
            &&& forall|j: int| 0 <= j < s.len() && j != i ==> #[trigger] w[j] == s[j]
        }),
{
    lemma_has_first(s, name);
    lemma_without_orig_filters(s[first_named(s, name)].dnat, orig);
}

} // verus!
