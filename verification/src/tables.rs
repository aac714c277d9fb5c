//! The NAT tables that the daemon keeps in the classifiers, and how a DNAT mapping is
//! written into them: the ingress table maps the original destination to the new one,
//! and its mirror on egress maps the new address back to the original, so that replies
//! leave with the address their peer spoke to.

use vstd::prelude::*;
use std::collections::HashMap;
use crate::dto::{DnatMapping, InterfaceCfg};
use crate::packet::{Ipv4Fields, Rewrite, AddrField, spec_rewrite, ingress_plan, egress_plan};

verus! {

broadcast use vstd::std_specs::hash::group_hash_axioms;

/// The two tables that a DNAT mapping occupies.
#[derive(Clone, Copy, Debug, PartialEq, Eq, Structural)]
pub enum NatTable {
    /// Ingress: original destination to new destination.
    Dnat,
    /// Egress mirror: new source back to the original address.
    Reverse,
}

/// One change of a table: `key` is set to `value`, or removed where `value` is `None`.
#[derive(Clone, Copy, Debug, PartialEq, Eq, Structural)]
pub struct TableWrite {
    pub table: NatTable,
    pub key: u32,
    pub value: Option<u32>,
}

/// The writes that install the mapping `orig -> new`, in order.
pub open spec fn spec_mapping_writes(orig: u32, new: u32) -> Seq<TableWrite> {
    seq![
        TableWrite { table: NatTable::Dnat, key: orig, value: Some(new) },
        TableWrite { table: NatTable::Reverse, key: new, value: Some(orig) },
    ]
}

/// The writes that remove the mapping `orig -> new`, in order.
pub open spec fn spec_unmapping_writes(orig: u32, new: u32) -> Seq<TableWrite> {
    seq![
        TableWrite { table: NatTable::Dnat, key: orig, value: None },
        TableWrite { table: NatTable::Reverse, key: new, value: None },
    ]
}

/// The writes that install the mapping `orig -> new`.
pub fn mapping_writes(orig: u32, new: u32) -> (w: Vec<TableWrite>)
    ensures
        w@ == spec_mapping_writes(orig, new),
{
    let mut w: Vec<TableWrite> = Vec::new();
    w.push(TableWrite { table: NatTable::Dnat, key: orig, value: Some(new) });
    w.push(TableWrite { table: NatTable::Reverse, key: new, value: Some(orig) });
    assert(w@ =~= spec_mapping_writes(orig, new));
    w
}

/// The writes that remove the mapping `orig -> new`.
pub fn unmapping_writes(orig: u32, new: u32) -> (w: Vec<TableWrite>)
    ensures
        w@ == spec_unmapping_writes(orig, new),
{
    let mut w: Vec<TableWrite> = Vec::new();
    w.push(TableWrite { table: NatTable::Dnat, key: orig, value: None });
    w.push(TableWrite { table: NatTable::Reverse, key: new, value: None });
    assert(w@ =~= spec_unmapping_writes(orig, new));
    w
}

/// The contents of the two tables of one interface.
#[derive(Debug)]
pub struct NatTables {
    pub dnat: HashMap<u32, u32>,
    pub reverse: HashMap<u32, u32>,
}

/// Mathematical value of [`NatTables`].
pub struct NatTablesModel {
    pub dnat: Map<u32, u32>,
    pub reverse: Map<u32, u32>,
}

impl View for NatTables {
    type V = NatTablesModel;

    open spec fn view(&self) -> NatTablesModel {
        NatTablesModel { dnat: self.dnat@, reverse: self.reverse@ }
    }
}

/// A map after one write.
pub open spec fn write_map(m: Map<u32, u32>, key: u32, value: Option<u32>) -> Map<u32, u32> {
    match value {
        Some(v) => m.insert(key, v),
        None => m.remove(key),
    }
}

/// Tables after one write.
pub open spec fn spec_apply(t: NatTablesModel, w: TableWrite) -> NatTablesModel {
    match w.table {
        NatTable::Dnat => NatTablesModel { dnat: write_map(t.dnat, w.key, w.value), reverse: t.reverse },
        NatTable::Reverse => NatTablesModel { dnat: t.dnat, reverse: write_map(t.reverse, w.key, w.value) },
    }
}

/// Tables after a list of writes, in order.
pub open spec fn spec_apply_all(t: NatTablesModel, ws: Seq<TableWrite>) -> NatTablesModel
    decreases ws.len(),
{
    if ws.len() == 0 {
        t
    } else {
        spec_apply(spec_apply_all(t, ws.drop_last()), ws.last())
    }
}

/// Tables after installing the mapping `orig -> new`.
pub open spec fn spec_insert_mapping(t: NatTablesModel, orig: u32, new: u32) -> NatTablesModel {
    NatTablesModel { dnat: t.dnat.insert(orig, new), reverse: t.reverse.insert(new, orig) }
}

/// Tables after removing the mapping `orig -> new`.
pub open spec fn spec_remove_mapping(t: NatTablesModel, orig: u32, new: u32) -> NatTablesModel {
    NatTablesModel { dnat: t.dnat.remove(orig), reverse: t.reverse.remove(new) }
}

/// The tables that the mappings `ms` leave when installed in order into empty tables.
pub open spec fn spec_load(ms: Seq<DnatMapping>) -> NatTablesModel
    decreases ms.len(),
{
    if ms.len() == 0 {
        NatTablesModel { dnat: Map::empty(), reverse: Map::empty() }
    } else {
        spec_insert_mapping(spec_load(ms.drop_last()), ms.last().orig, ms.last().new)
    }
}

impl NatTables {
    /// Empty tables.
    pub fn new() -> (t: NatTables)
        ensures
            t@.dnat == Map::<u32, u32>::empty(),
            t@.reverse == Map::<u32, u32>::empty(),
    {
        NatTables { dnat: HashMap::new(), reverse: HashMap::new() }
    }

    /// Performs one write.
    pub fn apply(&mut self, w: TableWrite)
        ensures
            final(self)@ == spec_apply(old(self)@, w),
    {
        match w.table {
            NatTable::Dnat => match w.value {
                Some(v) => {
                    let _ = self.dnat.insert(w.key, v);
                },
                None => {
                    let _ = self.dnat.remove(&w.key);
                },
            },
            NatTable::Reverse => match w.value {
                Some(v) => {
                    let _ = self.reverse.insert(w.key, v);
                },
                None => {
                    let _ = self.reverse.remove(&w.key);
                },
            },
        }
    }

    /// Performs a list of writes in order.
    pub fn apply_all(&mut self, ws: &Vec<TableWrite>)
        ensures
            final(self)@ == spec_apply_all(old(self)@, ws@),
    {
        let mut i: usize = 0;
        while i < ws.len()
            invariant
                i <= ws@.len(),
                self@ == spec_apply_all(old(self)@, ws@.take(i as int)),
            decreases ws@.len() - i,
        {
            self.apply(ws[i]);
            proof {
                assert(ws@.take(i + 1).drop_last() =~= ws@.take(i as int));
            }
            i = i + 1;
        }
        proof {
            assert(ws@.take(ws@.len() as int) =~= ws@);
        }
    }

    /// Installs the mapping `orig -> new`: the ingress table sends `orig` to `new` and
    /// the egress mirror sends `new` back to `orig`; earlier entries under these keys
    /// are replaced.
    pub fn insert_mapping(&mut self, orig: u32, new: u32)
        ensures
            final(self)@ == spec_insert_mapping(old(self)@, orig, new),
    {
        let w = mapping_writes(orig, new);
        self.apply_all(&w);
        proof {
            reveal_with_fuel(spec_apply_all, 3);
            assert(spec_apply_all(old(self)@, w@).dnat =~= old(self)@.dnat.insert(orig, new));
            assert(spec_apply_all(old(self)@, w@).reverse =~= old(self)@.reverse.insert(new, orig));
        }
    }

    /// Removes the mapping `orig -> new` from both tables, whether or not it was there.
    pub fn remove_mapping(&mut self, orig: u32, new: u32)
        ensures
            final(self)@ == spec_remove_mapping(old(self)@, orig, new),
    {
        let w = unmapping_writes(orig, new);
        self.apply_all(&w);
        proof {
            reveal_with_fuel(spec_apply_all, 3);
            assert(spec_apply_all(old(self)@, w@).dnat =~= old(self)@.dnat.remove(orig));
            assert(spec_apply_all(old(self)@, w@).reverse =~= old(self)@.reverse.remove(new));
        }
    }
}

/// The tables of an interface as the daemon fills them after attaching it: each DNAT
/// mapping of its configuration installed in order.
pub fn load_interface(iface: &InterfaceCfg) -> (t: NatTables)
    ensures
        t@ == spec_load(iface.dnat@),
{
    let mut t = NatTables::new();
    let mut i: usize = 0;
    while i < iface.dnat.len()
        invariant
            i <= iface.dnat@.len(),
            t@ == spec_load(iface.dnat@.take(i as int)),
        decreases iface.dnat@.len() - i,
    {
        let m = iface.dnat[i];
        t.insert_mapping(m.orig, m.new);
        proof {
            assert(iface.dnat@.take(i + 1).drop_last() =~= iface.dnat@.take(i as int));
        }
        i = i + 1;
    }
    proof {
        assert(iface.dnat@.take(iface.dnat@.len() as int) =~= iface.dnat@);
    }
    t
}

/// No two mappings share an original address, and no two share a new one.
pub open spec fn distinct_mappings(ms: Seq<DnatMapping>) -> bool {
    &&& forall|i: int, j: int| 0 <= i < j < ms.len() ==> #[trigger] ms[i].orig != #[trigger] ms[j].orig
    &&& forall|i: int, j: int| 0 <= i < j < ms.len() ==> #[trigger] ms[i].new != #[trigger] ms[j].new
}

/// Loading mappings whose original addresses are distinct and whose new addresses are
/// distinct gives tables that hold exactly these mappings: the ingress table sends each
/// original address to its new one and nothing else, and the mirror sends each new
/// address back to its original one and nothing else.
pub proof fn lemma_load_holds_each_mapping(ms: Seq<DnatMapping>)
    requires
        distinct_mappings(ms),
    ensures
        forall|i: int| 0 <= i < ms.len() ==> {
            &&& #[trigger] spec_load(ms).dnat.contains_key(ms[i].orig)
            &&& spec_load(ms).dnat[ms[i].orig] == ms[i].new
            &&& spec_load(ms).reverse.contains_key(ms[i].new)
            &&& spec_load(ms).reverse[ms[i].new] == ms[i].orig
        },
        forall|a: u32| #[trigger] spec_load(ms).dnat.contains_key(a) ==> exists|i: int| 0 <= i < ms.len() && ms[i].orig == a,
        forall|a: u32| #[trigger] spec_load(ms).reverse.contains_key(a) ==> exists|i: int| 0 <= i < ms.len() && ms[i].new == a,
    decreases ms.len(),
{
    if ms.len() > 0 {
        let prefix = ms.drop_last();
        assert(distinct_mappings(prefix)) by {
            assert forall|i: int, j: int| 0 <= i < j < prefix.len() implies #[trigger] prefix[i].orig != #[trigger] prefix[j].orig by {
                assert(prefix[i] == ms[i] && prefix[j] == ms[j]);
            }
            assert forall|i: int, j: int| 0 <= i < j < prefix.len() implies #[trigger] prefix[i].new != #[trigger] prefix[j].new by {
                assert(prefix[i] == ms[i] && prefix[j] == ms[j]);
            }
        }
        lemma_load_holds_each_mapping(prefix);
        let last = ms.last();
        assert(spec_load(ms) == spec_insert_mapping(spec_load(prefix), last.orig, last.new));
        assert forall|i: int| 0 <= i < ms.len() implies {
            &&& #[trigger] spec_load(ms).dnat.contains_key(ms[i].orig)
            &&& spec_load(ms).dnat[ms[i].orig] == ms[i].new
            &&& spec_load(ms).reverse.contains_key(ms[i].new)
            &&& spec_load(ms).reverse[ms[i].new] == ms[i].orig
        } by {
            if i < ms.len() - 1 {
                assert(prefix[i] == ms[i]);
                assert(spec_load(prefix).dnat.contains_key(prefix[i].orig));
                assert(ms[i].orig != ms[ms.len() - 1].orig);
                assert(ms[i].new != ms[ms.len() - 1].new);
            }
        }
        assert forall|a: u32| #[trigger] spec_load(ms).dnat.contains_key(a) implies exists|i: int| 0 <= i < ms.len() && ms[i].orig == a by {
            if a != last.orig {
                assert(spec_load(prefix).dnat.contains_key(a));
                let i = choose|i: int| 0 <= i < prefix.len() && prefix[i].orig == a;
                assert(ms[i] == prefix[i]);
            } else {
                assert(ms[ms.len() - 1].orig == a);
            }
        }
        assert forall|a: u32| #[trigger] spec_load(ms).reverse.contains_key(a) implies exists|i: int| 0 <= i < ms.len() && ms[i].new == a by {
            if a != last.new {
                assert(spec_load(prefix).reverse.contains_key(a));
                let i = choose|i: int| 0 <= i < prefix.len() && prefix[i].new == a;
                assert(ms[i] == prefix[i]);
            } else {
                assert(ms[ms.len() - 1].new == a);
            }
        }
    }
}

/// Once the mapping `orig -> new` is installed, a packet that arrives for `orig` has its
/// destination rewritten to `new`, and a reply that leaves from `new` has its source
/// rewritten back to `orig`, whatever else the tables hold.
pub proof fn lemma_mapping_round_trip(
    t: NatTablesModel,
    orig: u32,
    new: u32,
    ip_off: int,
    request: Ipv4Fields,
    reply: Ipv4Fields,
    ingress_snat: Map<u32, u32>,
    egress_snat: Map<u32, u32>,
    masq_cidrs: Seq<crate::dto::Cidr>,
    iface_ip: u32,
    masq_enabled: u32,
)
    requires
        request.dst == orig,
        reply.src == new,
    ensures
        ({
            let u = spec_insert_mapping(t, orig, new);
            &&& ingress_plan(ip_off, request, u.dnat, ingress_snat)[0]
                == spec_rewrite(ip_off, orig, new, request.proto, AddrField::Dst)
            &&& egress_plan(ip_off, reply, u.reverse, egress_snat, masq_cidrs, iface_ip, masq_enabled)
                == Some(spec_rewrite(ip_off, new, orig, reply.proto, AddrField::Src))
        }),
{
}

/// Installing a mapping whose addresses the tables did not hold and then removing it
/// gives back the tables as they were.
pub proof fn lemma_remove_undoes_insert(t: NatTablesModel, orig: u32, new: u32)
    requires
        !t.dnat.contains_key(orig),
        !t.reverse.contains_key(new),
    ensures
        spec_remove_mapping(spec_insert_mapping(t, orig, new), orig, new) == t,
{
    assert(t.dnat.insert(orig, new).remove(orig) =~= t.dnat);
    assert(t.reverse.insert(new, orig).remove(new) =~= t.reverse);
}

/// After a mapping is removed, packets for its original address are no longer
/// redirected, and its new address is no longer translated back on egress.
pub proof fn lemma_removed_mapping_is_inert(t: NatTablesModel, orig: u32, new: u32)
    ensures
        !spec_remove_mapping(t, orig, new).dnat.contains_key(orig),
        !spec_remove_mapping(t, orig, new).reverse.contains_key(new),
{
}

} // verus!
