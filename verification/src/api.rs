//! The decisions of the daemon's REST API: when a request is refused and with which
//! answer, and how an accepted request changes the configuration.
//!
//! Each handler is split in two. The check (`create_iface`, `create_mapping`, ...)
//! decides on the configuration as it stands whether the request goes ahead; it also
//! takes what the daemon knows of the kernel side (whether the interface's classifiers
//! are attached). The commit (`commit_create_iface`, ...) changes the configuration
//! once the kernel side has been updated. Kernel updates, saving and HTTP stay with
//! the daemon's runtime.

use vstd::prelude::*;
use vstd::string::*;
use crate::addr::{dotted, push_dotted};
use crate::config::{Config, has_iface, is_first_named, first_named, lemma_first_named, ifaces_view, opt_view};
use crate::dto::{DnatMapping, Health, IfaceView, InterfaceCfg, InterfaceModel, MasqueradeCfg, MasqueradeModel};

verus! {

/// HTTP status of an accepted deletion.
pub const STATUS_NO_CONTENT: u16 = 204;
/// HTTP status of a request without valid credentials.
pub const STATUS_UNAUTHORIZED: u16 = 401;
/// HTTP status of a request for something that does not exist.
pub const STATUS_NOT_FOUND: u16 = 404;
/// HTTP status of a request that clashes with the configuration.
pub const STATUS_CONFLICT: u16 = 409;
/// HTTP status of a failure on the daemon's side.
pub const STATUS_INTERNAL_SERVER_ERROR: u16 = 500;

/// A refused request: the HTTP status and the message of the `{"error": ...}` body.
#[derive(Debug)]
pub struct ApiError {
    pub status: u16,
    pub message: String,
}

/// Mathematical value of an [`ApiError`].
pub struct ApiErrorModel {
    pub status: u16,
    pub message: Seq<char>,
}

impl View for ApiError {
    type V = ApiErrorModel;

    open spec fn view(&self) -> ApiErrorModel {
        ApiErrorModel { status: self.status, message: self.message@ }
    }
}

/// The error with this status and message.
pub open spec fn err(status: u16, message: Seq<char>) -> ApiErrorModel {
    ApiErrorModel { status, message }
}

impl ApiError {
    /// An error with the given status and message.
    pub fn new(status: u16, message: String) -> (e: ApiError)
        ensures
            e@ == err(status, message@),
    {
        ApiError { status, message }
    }

    /// A 404 error.
    pub fn not_found(message: String) -> (e: ApiError)
        ensures
            e@ == err(STATUS_NOT_FOUND, message@),
    {
        Self::new(STATUS_NOT_FOUND, message)
    }

    /// A 409 error.
    pub fn conflict(message: String) -> (e: ApiError)
        ensures
            e@ == err(STATUS_CONFLICT, message@),
    {
        Self::new(STATUS_CONFLICT, message)
    }

    /// A 500 error.
    pub fn internal(message: String) -> (e: ApiError)
        ensures
            e@ == err(STATUS_INTERNAL_SERVER_ERROR, message@),
    {
        Self::new(STATUS_INTERNAL_SERVER_ERROR, message)
    }

    /// A 401 error.
    pub fn unauthorized(message: String) -> (e: ApiError)
        ensures
            e@ == err(STATUS_UNAUTHORIZED, message@),
    {
        Self::new(STATUS_UNAUTHORIZED, message)
    }
}

/// Whether an answer matches its specification: both succeed, or both fail with the same error.
pub open spec fn same_outcome(r: Result<(), ApiError>, s: Result<(), ApiErrorModel>) -> bool {
    match (r, s) {
        (Ok(()), Ok(())) => true,
        (Err(e), Err(m)) => e@ == m,
        _ => false,
    }
}

fn msg_interface(name: &str) -> (m: String)
    ensures
        m@ == "interface "@ + name@,
{
    let mut m = "interface ".to_owned();
    m.append(name);
    m
}

/// The answer of the health endpoint.
pub fn health() -> (h: Health)
    ensures
        h.ok,
{
    Health { ok: true }
}

/// What the API shows of an interface: its configuration; its address is not known here.
pub fn iface_view(c: &InterfaceCfg) -> (v: IfaceView)
    ensures
        v.name@ == c.name@,
        v.dnat@ == c.dnat@,
        v.snat@ == c.snat@,
        v.masquerade@ == c.masquerade@,
        v.iface_ip.is_none(),
{
    let dnat = c.dnat.clone();
    let snat = c.snat.clone();
    assert(dnat@ =~= c.dnat@);
    assert(snat@ =~= c.snat@);
    IfaceView { name: c.name.clone(), dnat, snat, masquerade: c.masquerade.clone(), iface_ip: None }
}

/// The views of all interfaces, in configuration order.
pub fn list_ifaces(config: &Config) -> (v: Vec<IfaceView>)
    ensures
        v@.len() == config.interfaces@.len(),
        forall|i: int| 0 <= i < v@.len() ==> {
            &&& #[trigger] v@[i].name@ == config.interfaces@[i].name@
            &&& v@[i].dnat@ == config.interfaces@[i].dnat@
            &&& v@[i].snat@ == config.interfaces@[i].snat@
            &&& v@[i].masquerade@ == config.interfaces@[i].masquerade@
            &&& v@[i].iface_ip.is_none()
        },
{
    let mut v: Vec<IfaceView> = Vec::new();
    let mut i: usize = 0;
    while i < config.interfaces.len()
        invariant
            i <= config.interfaces@.len(),
            v@.len() == i,
            forall|j: int| 0 <= j < i ==> {
                &&& #[trigger] v@[j].name@ == config.interfaces@[j].name@
                &&& v@[j].dnat@ == config.interfaces@[j].dnat@
                &&& v@[j].snat@ == config.interfaces@[j].snat@
                &&& v@[j].masquerade@ == config.interfaces@[j].masquerade@
                &&& v@[j].iface_ip.is_none()
            },
        decreases config.interfaces@.len() - i,
    {
        v.push(iface_view(&config.interfaces[i]));
        i = i + 1;
    }
    v
}

/// Listing the DNAT mappings of `name`: those of the first interface so called, or 404.
pub open spec fn list_mappings_outcome(s: Seq<InterfaceModel>, name: Seq<char>) -> Result<Seq<DnatMapping>, ApiErrorModel> {
    if has_iface(s, name) {
        Ok(s[first_named(s, name)].dnat)
    } else {
        Err(err(STATUS_NOT_FOUND, "interface "@ + name))
    }
}

/// Lists the DNAT mappings of an interface, as [`list_mappings_outcome`] says.
pub fn list_mappings(config: &Config, name: &str) -> (r: Result<Vec<DnatMapping>, ApiError>)
    ensures
        match (r, list_mappings_outcome(config@.interfaces, name@)) {
            (Ok(v), Ok(s)) => v@ == s,
            (Err(e), Err(m)) => e@ == m,
            _ => false,
        },
{
    match config.find_iface_index(name) {
        Some(i) => {
            proof {
                lemma_first_named(config@.interfaces, name@, i as int);
            }
            let v = config.interfaces[i].dnat.clone();
            assert(v@ =~= config.interfaces@[i as int].dnat@);
            Ok(v)
        },
        None => Err(ApiError::not_found(msg_interface(name))),
    }
}

/// A new interface with nothing configured.
pub open spec fn new_iface(name: Seq<char>) -> InterfaceModel {
    InterfaceModel {
        name,
        dnat: Seq::empty(),
        snat: Seq::empty(),
        masquerade: MasqueradeModel { enabled: false, src_cidrs: Seq::empty() },
    }
}

/// Creating an interface is refused with 409 when one of that name exists.
pub open spec fn create_iface_outcome(s: Seq<InterfaceModel>, name: Seq<char>) -> Result<(), ApiErrorModel> {
    if has_iface(s, name) {
        Err(err(STATUS_CONFLICT, "interface "@ + name + " already exists"@))
    } else {
        Ok(())
    }
}

/// Checks a request to create an interface, as [`create_iface_outcome`] says.
pub fn create_iface(config: &Config, name: &str) -> (r: Result<(), ApiError>)
    ensures
        same_outcome(r, create_iface_outcome(config@.interfaces, name@)),
{
    if config.find_iface_index(name).is_some() {
        let mut m = msg_interface(name);
        m.append(" already exists");
        return Err(ApiError::conflict(m));
    }
    Ok(())
}

/// Adds an interface with nothing configured at the end of the list and returns its view.
pub fn commit_create_iface(config: &mut Config, name: &str) -> (v: IfaceView)
    ensures
        final(config)@.interfaces == old(config)@.interfaces.push(new_iface(name@)),
        final(config)@.auth_token == old(config)@.auth_token,
        final(config)@.bind_addr == old(config)@.bind_addr,
        v.name@ == name@,
        v.dnat@.len() == 0,
        v.snat@.len() == 0,
        !v.masquerade.enabled,
        v.masquerade.src_cidrs@.len() == 0,
        v.iface_ip.is_none(),
{
    let cfg = InterfaceCfg {
        name: name.to_owned(),
        dnat: Vec::new(),
        snat: Vec::new(),
        masquerade: MasqueradeCfg::default(),
    };
    let v = iface_view(&cfg);
    let ghost old_v = config.interfaces@;
    config.interfaces.push(cfg);
    proof {
        assert(cfg@ == new_iface(name@)) by {
            assert(cfg@.dnat =~= Seq::<DnatMapping>::empty());
            assert(cfg@.snat =~= Seq::<crate::dto::SnatMapping>::empty());
            assert(cfg@.masquerade.src_cidrs =~= Seq::<crate::dto::Cidr>::empty());
        }
        assert(ifaces_view(config.interfaces@) =~= ifaces_view(old_v).push(new_iface(name@)));
    }
    v
}

/// Deleting an interface is refused with 404 when none of that name exists.
pub open spec fn delete_iface_outcome(s: Seq<InterfaceModel>, name: Seq<char>) -> Result<(), ApiErrorModel> {
    if has_iface(s, name) {
        Ok(())
    } else {
        Err(err(STATUS_NOT_FOUND, "interface "@ + name))
    }
}

/// Checks a request to delete an interface, as [`delete_iface_outcome`] says.
pub fn delete_iface(config: &Config, name: &str) -> (r: Result<(), ApiError>)
    ensures
        same_outcome(r, delete_iface_outcome(config@.interfaces, name@)),
{
    if config.find_iface_index(name).is_none() {
        return Err(ApiError::not_found(msg_interface(name)));
    }
    Ok(())
}

/// The interfaces of `s` that are not called `name`, in order.
pub open spec fn without_iface(s: Seq<InterfaceModel>, name: Seq<char>) -> Seq<InterfaceModel>
    decreases s.len(),
{
    if s.len() == 0 {
        s
    } else if s.last().name == name {
        without_iface(s.drop_last(), name)
    } else {
        without_iface(s.drop_last(), name).push(s.last())
    }
}

/// Removes every interface called `name`.
pub fn commit_delete_iface(config: &mut Config, name: &str)
    ensures
        final(config)@.interfaces == without_iface(old(config)@.interfaces, name@),
        final(config)@.auth_token == old(config)@.auth_token,
        final(config)@.bind_addr == old(config)@.bind_addr,
{
    let ghost old_v = config.interfaces@;
    let ghost old_s = ifaces_view(old_v);
    let key: String = name.to_owned();
    let mut i: usize = 0;
    let ghost mut j: int = 0;
    while i < config.interfaces.len()
        invariant
            0 <= j <= old_v.len(),
            i <= config.interfaces@.len(),
            key@ == name@,
            old_s == ifaces_view(old_v),
            ifaces_view(config.interfaces@.take(i as int)) == without_iface(old_s.take(j), name@),
            config.interfaces@.skip(i as int) == old_v.skip(j),
            opt_view(config.auth_token) == opt_view(old(config).auth_token),
            opt_view(config.bind_addr) == opt_view(old(config).bind_addr),
        decreases config.interfaces@.len() - i,
    {
        let ghost cur = config.interfaces@;
        assert(cur.skip(i as int).len() == old_v.skip(j).len());
        assert(j < old_v.len());
        assert(cur[i as int] == old_v[j]) by {
            assert(cur.skip(i as int)[0] == old_v.skip(j)[0]);
        }
        assert(old_s.take(j + 1).drop_last() =~= old_s.take(j));
        assert(old_s[j] == old_v[j]@);
        if config.interfaces[i].name == key {
            let _ = config.interfaces.remove(i);
            proof {
                assert(config.interfaces@.take(i as int) =~= cur.take(i as int));
                assert forall|x: int| 0 <= x < config.interfaces@.skip(i as int).len() implies
                    #[trigger] config.interfaces@.skip(i as int)[x] == old_v.skip(j + 1)[x] by {
                    assert(cur.skip(i as int)[x + 1] == old_v.skip(j)[x + 1]);
                }
                assert(config.interfaces@.skip(i as int) =~= old_v.skip(j + 1));
            }
        } else {
            proof {
                assert(cur.take(i + 1) =~= cur.take(i as int).push(cur[i as int]));
                assert(ifaces_view(cur.take(i + 1)) =~= ifaces_view(cur.take(i as int)).push(cur[i as int]@));
                assert forall|x: int| 0 <= x < cur.skip(i + 1).len() implies
                    #[trigger] cur.skip(i + 1)[x] == old_v.skip(j + 1)[x] by {
                    assert(cur.skip(i as int)[x + 1] == old_v.skip(j)[x + 1]);
                }
                assert(cur.skip(i + 1) =~= old_v.skip(j + 1));
            }
            i = i + 1;
        }
        proof {
            j = j + 1;
        }
    }
    proof {
        assert(old_v.skip(j).len() == 0);
        assert(old_s.take(j) =~= old_s);
        assert(config.interfaces@.take(i as int) =~= config.interfaces@);
    }
}


/// Whether an existing mapping `d` clashes with a requested one: same original address
/// or same new address.
pub open spec fn clashes(d: DnatMapping, m: DnatMapping) -> bool {
    d.orig == m.orig || d.new == m.new
}

/// Whether `(i, k)` names mapping `k` of interface `i` of `s`.
pub open spec fn at(s: Seq<InterfaceModel>, i: int, k: int) -> bool {
    0 <= i < s.len() && 0 <= k < s[i].dnat.len()
}

/// Whether `(i1, k1)` comes before `(i2, k2)` in configuration order.
pub open spec fn before(i1: int, k1: int, i2: int, k2: int) -> bool {
    i1 < i2 || (i1 == i2 && k1 < k2)
}

/// Whether some mapping of `s` clashes with `m`.
pub open spec fn has_clash(s: Seq<InterfaceModel>, m: DnatMapping) -> bool {
    exists|i: int, k: int| at(s, i, k) && clashes(#[trigger] s[i].dnat[k], m)
}

/// Whether `(i, k)` is the first mapping of `s`, in configuration order, that clashes with `m`.
pub open spec fn is_first_clash(s: Seq<InterfaceModel>, m: DnatMapping, i: int, k: int) -> bool {
    &&& at(s, i, k)
    &&& clashes(s[i].dnat[k], m)
    &&& forall|i2: int, k2: int| at(s, i2, k2) && before(i2, k2, i, k) ==> !clashes(#[trigger] s[i2].dnat[k2], m)
}

/// The first mapping of `s` that clashes with `m`, where there is one.
pub open spec fn first_clash(s: Seq<InterfaceModel>, m: DnatMapping) -> (int, int) {
    choose|i: int, k: int| is_first_clash(s, m, i, k)
}

/// [`first_clash`] is the first clashing position.
proof fn lemma_first_clash(s: Seq<InterfaceModel>, m: DnatMapping, i: int, k: int)
    requires
        is_first_clash(s, m, i, k),
    ensures
        first_clash(s, m) == (i, k),
{
    let (a, b) = first_clash(s, m);
    assert(is_first_clash(s, m, a, b));
    if before(a, b, i, k) {
        assert(!clashes(s[a].dnat[b], m));
    }
    if before(i, k, a, b) {
        assert(!clashes(s[i].dnat[k], m));
    }
}

/// Adding the DNAT mapping `m` to interface `name`: 404 when there is no such interface;
/// 409 when its addresses are equal; 409 naming the first mapping (in configuration
/// order, over all interfaces) that already uses its original address or its new address;
/// 500 when the interface's classifiers are not attached; accepted otherwise.
pub open spec fn create_mapping_outcome(
    s: Seq<InterfaceModel>,
    name: Seq<char>,
    m: DnatMapping,
    attached: bool,
) -> Result<(), ApiErrorModel> {
    if !has_iface(s, name) {
        Err(err(STATUS_NOT_FOUND, "interface "@ + name))
    } else if m.orig == m.new {
        Err(err(STATUS_CONFLICT, "orig and new must differ ("@ + dotted(m.orig) + ")"@))
    } else if has_clash(s, m) {
        let (i, k) = first_clash(s, m);
        let d = s[i].dnat[k];
        if d.orig == m.orig {
            Err(err(STATUS_CONFLICT, "orig "@ + dotted(m.orig) + " already mapped on interface "@ + s[i].name))
        } else {
            Err(
                err(
                    STATUS_CONFLICT,
                    "target "@ + dotted(m.new) + " already used by orig "@ + dotted(d.orig)
                        + " on interface "@ + s[i].name,
                ),
            )
        }
    } else if !attached {
        Err(err(STATUS_INTERNAL_SERVER_ERROR, "interface "@ + name + " not attached"@))
    } else {
        Ok(())
    }
}

fn msg_not_attached(name: &str) -> (m: String)
    ensures
        m@ == "interface "@ + name@ + " not attached"@,
{
    let mut m = msg_interface(name);
    m.append(" not attached");
    m
}

/// Checks a request to add a DNAT mapping, as [`create_mapping_outcome`] says.
pub fn create_mapping(config: &Config, name: &str, mapping: DnatMapping, attached: bool) -> (r: Result<(), ApiError>)
    ensures
        same_outcome(r, create_mapping_outcome(config@.interfaces, name@, mapping, attached)),
{
    let ghost s = config@.interfaces;
    if config.find_iface_index(name).is_none() {
        return Err(ApiError::not_found(msg_interface(name)));
    }
    if mapping.orig == mapping.new {
        let mut msg = "orig and new must differ (".to_owned();
        push_dotted(&mut msg, mapping.orig);
        msg.append(")");
        return Err(ApiError::conflict(msg));
    }
    let mut i: usize = 0;
    while i < config.interfaces.len()
        invariant
            i <= s.len(),
            s == ifaces_view(config.interfaces@),
            has_iface(s, name@),
            mapping.orig != mapping.new,
            forall|i2: int, k2: int| at(s, i2, k2) && i2 < i ==> !clashes(#[trigger] s[i2].dnat[k2], mapping),
        decreases s.len() - i,
    {
        let iface = &config.interfaces[i];
        assert(s[i as int] == iface@);
        let mut k: usize = 0;
        while k < iface.dnat.len()
            invariant
                i < s.len(),
                k <= s[i as int].dnat.len(),
                s == ifaces_view(config.interfaces@),
                s[i as int] == iface@,
                has_iface(s, name@),
                mapping.orig != mapping.new,
                forall|i2: int, k2: int| at(s, i2, k2) && before(i2, k2, i as int, k as int) ==> !clashes(#[trigger] s[i2].dnat[k2], mapping),
            decreases s[i as int].dnat.len() - k,
        {
            let d = iface.dnat[k];
            if d.orig == mapping.orig || d.new == mapping.new {
                proof {
                    assert(at(s, i as int, k as int));
                    assert(clashes(s[i as int].dnat[k as int], mapping));
                    assert(has_clash(s, mapping));
                    assert(is_first_clash(s, mapping, i as int, k as int));
                    lemma_first_clash(s, mapping, i as int, k as int);
                }
                if d.orig == mapping.orig {
                    let mut msg = "orig ".to_owned();
                    push_dotted(&mut msg, mapping.orig);
                    msg.append(" already mapped on interface ");
                    msg.append(iface.name.as_str());
                    return Err(ApiError::conflict(msg));
                } else {
                    let mut msg = "target ".to_owned();
                    push_dotted(&mut msg, mapping.new);
                    msg.append(" already used by orig ");
                    push_dotted(&mut msg, d.orig);
                    msg.append(" on interface ");
                    msg.append(iface.name.as_str());
                    return Err(ApiError::conflict(msg));
                }
            }
            k = k + 1;
        }
        i = i + 1;
    }
    proof {
        assert(!has_clash(s, mapping));
    }
    if !attached {
        return Err(ApiError::internal(msg_not_attached(name)));
    }
    Ok(())
}

/// `s` after appending `m` to the mappings of the first interface called `name`.
pub open spec fn add_mapping(s: Seq<InterfaceModel>, name: Seq<char>, m: DnatMapping) -> Seq<InterfaceModel> {
    let i = first_named(s, name);
    s.update(i, InterfaceModel { dnat: s[i].dnat.push(m), ..s[i] })
}

/// Appends a DNAT mapping to the first interface called `name`.
pub fn commit_create_mapping(config: &mut Config, name: &str, mapping: DnatMapping)
    requires
        has_iface(old(config)@.interfaces, name@),
    ensures
        final(config)@.interfaces == add_mapping(old(config)@.interfaces, name@, mapping),
        final(config)@.auth_token == old(config)@.auth_token,
        final(config)@.bind_addr == old(config)@.bind_addr,
{
    let ghost old_v = config.interfaces@;
    match config.find_iface_index(name) {
        Some(i) => {
            proof {
                lemma_first_named(ifaces_view(old_v), name@, i as int);
            }
            let mut c = config.interfaces.remove(i);
            c.dnat.push(mapping);
            config.interfaces.insert(i, c);
            proof {
                assert(config.interfaces@ =~= old_v.update(i as int, c));
                assert(ifaces_view(config.interfaces@) =~= add_mapping(ifaces_view(old_v), name@, mapping));
            }
        },
        None => {},
    }
}

/// Whether `k` is the position of the first mapping of `d` whose original address is `orig`.
pub open spec fn is_first_orig(d: Seq<DnatMapping>, orig: u32, k: int) -> bool {
    &&& 0 <= k < d.len()
    &&& d[k].orig == orig
    &&& forall|k2: int| 0 <= k2 < k ==> #[trigger] d[k2].orig != orig
}

/// Whether some mapping of `d` has original address `orig`.
pub open spec fn has_orig(d: Seq<DnatMapping>, orig: u32) -> bool {
    exists|k: int| 0 <= k < d.len() && #[trigger] d[k].orig == orig
}

/// The first mapping of `d` whose original address is `orig`, where there is one.
pub open spec fn first_orig(d: Seq<DnatMapping>, orig: u32) -> int {
    choose|k: int| is_first_orig(d, orig, k)
}

/// [`first_orig`] is the first position whose original address is `orig`.
pub proof fn lemma_first_orig(d: Seq<DnatMapping>, orig: u32, k: int)
    requires
        is_first_orig(d, orig, k),
    ensures
        first_orig(d, orig) == k,
{
    let c = first_orig(d, orig);
    assert(is_first_orig(d, orig, c));
    if c < k {
        assert(d[c].orig != orig);
    }
    if k < c {
        assert(d[k].orig != orig);
    }
}

/// Deleting the DNAT mapping of `orig` from interface `name`: 404 when there is no such
/// interface; 404 when its first interface of that name has no mapping of `orig`; 500
/// when its classifiers are not attached; otherwise the first such mapping, whose
/// addresses are to be removed from the kernel tables.
pub open spec fn delete_mapping_outcome(s: Seq<InterfaceModel>, name: Seq<char>, orig: u32, attached: bool) -> Result<DnatMapping, ApiErrorModel> {
    if !has_iface(s, name) {
        Err(err(STATUS_NOT_FOUND, "interface "@ + name))
    } else if !has_orig(s[first_named(s, name)].dnat, orig) {
        Err(err(STATUS_NOT_FOUND, "mapping "@ + dotted(orig)))
    } else if !attached {
        Err(err(STATUS_INTERNAL_SERVER_ERROR, "interface "@ + name + " not attached"@))
    } else {
        let d = s[first_named(s, name)].dnat;
        Ok(d[first_orig(d, orig)])
    }
}

/// Checks a request to delete a DNAT mapping, as [`delete_mapping_outcome`] says.
pub fn delete_mapping(config: &Config, name: &str, orig: u32, attached: bool) -> (r: Result<DnatMapping, ApiError>)
    ensures
        match (r, delete_mapping_outcome(config@.interfaces, name@, orig, attached)) {
            (Ok(m), Ok(s)) => m == s,
            (Err(e), Err(em)) => e@ == em,
            _ => false,
        },
{
    let ghost s = config@.interfaces;
    let i = match config.find_iface_index(name) {
        Some(i) => i,
        None => return Err(ApiError::not_found(msg_interface(name))),
    };
    proof {
        lemma_first_named(s, name@, i as int);
    }
    let d = &config.interfaces[i].dnat;
    assert(d@ == s[i as int].dnat);
    let mut k: usize = 0;
    while k < d.len() && d[k].orig != orig
        invariant
            k <= d@.len(),
            forall|k2: int| 0 <= k2 < k ==> #[trigger] d@[k2].orig != orig,
        decreases d@.len() - k,
    {
        k = k + 1;
    }
    if k == d.len() {
        let mut msg = "mapping ".to_owned();
        push_dotted(&mut msg, orig);
        return Err(ApiError::not_found(msg));
    }
    proof {
        assert(is_first_orig(d@, orig, k as int));
        lemma_first_orig(d@, orig, k as int);
    }
    if !attached {
        return Err(ApiError::internal(msg_not_attached(name)));
    }
    Ok(d[k])
}

/// The mappings of `d` whose original address is not `orig`, in order.
pub open spec fn without_orig(d: Seq<DnatMapping>, orig: u32) -> Seq<DnatMapping>
    decreases d.len(),
{
    if d.len() == 0 {
        d
    } else if d.last().orig == orig {
        without_orig(d.drop_last(), orig)
    } else {
        without_orig(d.drop_last(), orig).push(d.last())
    }
}

/// `s` after removing the mappings of `orig` from the first interface called `name`.
pub open spec fn remove_mapping(s: Seq<InterfaceModel>, name: Seq<char>, orig: u32) -> Seq<InterfaceModel> {
    let i = first_named(s, name);
    s.update(i, InterfaceModel { dnat: without_orig(s[i].dnat, orig), ..s[i] })
}

/// The mappings of `d` without those of `orig`.
fn filter_orig(d: &Vec<DnatMapping>, orig: u32) -> (r: Vec<DnatMapping>)
    ensures
        r@ == without_orig(d@, orig),
{
    let mut r: Vec<DnatMapping> = Vec::new();
    let mut k: usize = 0;
    while k < d.len()
        invariant
            k <= d@.len(),
            r@ == without_orig(d@.take(k as int), orig),
        decreases d@.len() - k,
    {
        assert(d@.take(k + 1).drop_last() =~= d@.take(k as int));
        if d[k].orig != orig {
            r.push(d[k]);
        }
        k = k + 1;
    }
    assert(d@.take(d@.len() as int) =~= d@);
    r
}

/// Removes the mappings of `orig` from the first interface called `name`.
pub fn commit_delete_mapping(config: &mut Config, name: &str, orig: u32)
    requires
        has_iface(old(config)@.interfaces, name@),
    ensures
        final(config)@.interfaces == remove_mapping(old(config)@.interfaces, name@, orig),
        final(config)@.auth_token == old(config)@.auth_token,
        final(config)@.bind_addr == old(config)@.bind_addr,
{
    let ghost old_v = config.interfaces@;
    match config.find_iface_index(name) {
        Some(i) => {
            proof {
                lemma_first_named(ifaces_view(old_v), name@, i as int);
            }
            let mut c = config.interfaces.remove(i);
            c.dnat = filter_orig(&c.dnat, orig);
            config.interfaces.insert(i, c);
            proof {
                assert(config.interfaces@ =~= old_v.update(i as int, c));
                assert(ifaces_view(config.interfaces@) =~= remove_mapping(ifaces_view(old_v), name@, orig));
            }
        },
        None => {},
    }
}

/// The characters of the `Bearer ` prefix of an Authorization header.
pub open spec fn bearer_prefix() -> Seq<char> {
    seq!['B', 'e', 'a', 'r', 'e', 'r', ' ']
}

/// The token that an Authorization header value supplies: what follows `Bearer `, or
/// nothing where the header is missing, unreadable or without that prefix.
pub open spec fn supplied_token(authorization: Option<Seq<char>>) -> Seq<char> {
    match authorization {
        Some(h) => if h.len() >= 7 && h.take(7) == bearer_prefix() {
            h.skip(7)
        } else {
            Seq::empty()
        },
        None => Seq::empty(),
    }
}

/// Authorising a request that changes the configuration: 401 when no non-empty token is
/// configured; 401 when the supplied token differs from it; accepted otherwise.
pub open spec fn require_auth_outcome(configured: Option<Seq<char>>, authorization: Option<Seq<char>>) -> Result<(), ApiErrorModel> {
    match configured {
        Some(t) => if t.len() == 0 {
            Err(err(STATUS_UNAUTHORIZED, "auth_token not configured"@))
        } else if supplied_token(authorization) == t {
            Ok(())
        } else {
            Err(err(STATUS_UNAUTHORIZED, "invalid token"@))
        },
        None => Err(err(STATUS_UNAUTHORIZED, "auth_token not configured"@)),
    }
}

/// The supplied token of an Authorization header value, as [`supplied_token`] says.
fn strip_bearer(authorization: &Option<String>) -> (t: String)
    ensures
        t@ == supplied_token(opt_view(*authorization)),
{
    match authorization {
        Some(h) => {
            let s = h.as_str();
            let n: usize = s.unicode_len();
            if n >= 7 && s.get_char(0) == 'B' && s.get_char(1) == 'e' && s.get_char(2) == 'a'
                && s.get_char(3) == 'r' && s.get_char(4) == 'e' && s.get_char(5) == 'r'
                && s.get_char(6) == ' ' {
                assert(s@.take(7) =~= bearer_prefix());
                s.substring_char(7, n).to_owned()
            } else {
                proof {
                    if s@.len() >= 7 && s@.take(7) == bearer_prefix() {
                        assert(s@.take(7)[0] == 'B' && s@.take(7)[1] == 'e' && s@.take(7)[2] == 'a');
                        assert(s@.take(7)[3] == 'r' && s@.take(7)[4] == 'e' && s@.take(7)[5] == 'r');
                        assert(s@.take(7)[6] == ' ');
                    }
                }
                String::new()
            }
        },
        None => String::new(),
    }
}

/// Authorises a request that changes the configuration, as [`require_auth_outcome`] says;
/// `authorization` is the Authorization header's value where it is readable text.
pub fn require_auth(configured: &Option<String>, authorization: &Option<String>) -> (r: Result<(), ApiError>)
    ensures
        same_outcome(r, require_auth_outcome(opt_view(*configured), opt_view(*authorization))),
{
    let expected = match configured {
        Some(t) => {
            if t.as_str().unicode_len() == 0 {
                return Err(ApiError::unauthorized("auth_token not configured".to_owned()));
            }
            t
        },
        None => return Err(ApiError::unauthorized("auth_token not configured".to_owned())),
    };
    let supplied = strip_bearer(authorization);
    if supplied != *expected {
        return Err(ApiError::unauthorized("invalid token".to_owned()));
    }
    Ok(())
}

} // verus!
