//! The NAT classifiers' decisions on one packet.
//!
//! A packet is its bytes from the start of the frame. An Ethernet frame carries its
//! IPv4 header after the 14-byte link header; on link-less devices (wg, tun, ipip) the
//! IPv4 header comes first. Addresses are read in network byte order into host-order
//! values. A decision is a list of [`Rewrite`]s: which address field to overwrite,
//! and where and how the IPv4 and transport checksums are to be updated for it.

use vstd::prelude::*;
use std::collections::HashMap;
use crate::addr::{addr_from_octets, from_octets, cidr_holds, cidr_contains};
use crate::dto::Cidr;

verus! {

broadcast use vstd::std_specs::hash::group_hash_axioms;

/// Length of an Ethernet header.
pub const ETH_HDR_LEN: usize = 14;
/// Offset of the EtherType in an Ethernet header.
pub const ETHER_TYPE_OFF: usize = 12;
/// Length of an IPv4 header without options.
pub const IPV4_HDR_LEN: usize = 20;
/// Offset of the protocol number in an IPv4 header.
pub const IPV4_PROTO_OFF: usize = 9;
/// Offset of the header checksum in an IPv4 header.
pub const IPV4_CHECK_OFF: usize = 10;
/// Offset of the source address in an IPv4 header.
pub const IPV4_SRC_OFF: usize = 12;
/// Offset of the destination address in an IPv4 header.
pub const IPV4_DST_OFF: usize = 16;
/// Offset of the checksum in a TCP header.
pub const TCP_CHECK_OFF: usize = 16;
/// Offset of the checksum in a UDP header.
pub const UDP_CHECK_OFF: usize = 6;
/// IP protocol number of TCP.
pub const IPPROTO_TCP: u8 = 6;
/// IP protocol number of UDP.
pub const IPPROTO_UDP: u8 = 17;
/// Traffic-control verdict that lets the packet through.
pub const TC_ACT_OK: i32 = 0;
/// Checksum-helper flag: the changed field is part of the pseudo header.
pub const BPF_F_PSEUDO_HDR: u64 = 0x10;
/// Checksum-helper flag: a zero UDP checksum stays zero (checksum disabled).
pub const BPF_F_MARK_MANGLED_0: u64 = 0x20;
/// Size in bytes of a rewritten address, as the checksum helpers take it.
pub const ADDR_SIZE: u64 = 4;

/// The fields of an IPv4 header that the classifiers read.
#[derive(Clone, Copy, Debug, PartialEq, Eq, Structural)]
pub struct Ipv4Fields {
    pub src: u32,
    pub dst: u32,
    pub proto: u8,
}

/// Which address of the IPv4 header a rewrite overwrites.
#[derive(Clone, Copy, Debug, PartialEq, Eq, Structural)]
pub enum AddrField {
    Src,
    Dst,
}

/// A transport checksum update: where the checksum lies and the helper's flags.
#[derive(Clone, Copy, Debug, PartialEq, Eq, Structural)]
pub struct L4Update {
    pub offset: usize,
    pub flags: u64,
}

/// One address rewrite: replace `old` by `new` at `addr_offset`, after updating the
/// IPv4 checksum at `l3_csum_offset` (over 4 bytes) and, for TCP and UDP, the
/// transport checksum that `l4` names.
#[derive(Clone, Copy, Debug, PartialEq, Eq, Structural)]
pub struct Rewrite {
    pub l3_csum_offset: usize,
    pub l4: Option<L4Update>,
    pub addr_offset: usize,
    pub old: u32,
    pub new: u32,
}

/// What a classifier decides for a packet: its verdict and the rewrites, in order.
#[derive(Debug)]
pub struct Verdict {
    pub action: i32,
    pub rewrites: Vec<Rewrite>,
}

/// Whether `len` bytes at `offset` lie inside a packet of `packet_len` bytes.
pub open spec fn fits(packet_len: int, offset: int, len: int) -> bool {
    offset + len <= packet_len
}

/// Bounds check before a header is read: the offset, or `Err` where the header would
/// run past the end of the packet.
pub fn ptr_at(packet_len: usize, offset: usize, len: usize) -> (r: Result<usize, ()>)
    ensures
        r == (if fits(packet_len as int, offset as int, len as int) { Ok::<usize, ()>(offset) } else { Err(()) }),
{
    if offset > packet_len || len > packet_len - offset {
        Err(())
    } else {
        Ok(offset)
    }
}

/// Where the IPv4 header starts: `Err` when the packet is shorter than an Ethernet
/// header; after an Ethernet header whose EtherType is IPv4 (0x0800); at the start when
/// the first byte carries IP version 4; otherwise the packet is not IPv4.
pub open spec fn spec_ipv4_offset(p: Seq<u8>) -> Result<Option<usize>, ()> {
    if p.len() < ETH_HDR_LEN {
        Err(())
    } else if p[12] == 0x08 && p[13] == 0x00 {
        Ok(Some(ETH_HDR_LEN))
    } else if p[0] / 16 == 4 {
        Ok(Some(0))
    } else {
        Ok(None)
    }
}

/// Finds where the IPv4 header starts, as [`spec_ipv4_offset`] says.
pub fn ipv4_offset(p: &[u8]) -> (r: Result<Option<usize>, ()>)
    ensures
        r == spec_ipv4_offset(p@),
{
    let _ = ptr_at(p.len(), 0, ETH_HDR_LEN)?;
    if p[ETHER_TYPE_OFF] == 0x08 && p[ETHER_TYPE_OFF + 1] == 0x00 {
        return Ok(Some(ETH_HDR_LEN));
    }
    let first_byte = p[0];
    if first_byte >> 4u8 == 4 {
        assert(first_byte >> 4u8 == first_byte / 16) by (bit_vector);
        Ok(Some(0))
    } else {
        assert(first_byte >> 4u8 == first_byte / 16) by (bit_vector);
        Ok(None)
    }
}

/// The address stored in network byte order at `off`.
pub open spec fn addr_at(p: Seq<u8>, off: int) -> u32 {
    from_octets(p[off], p[off + 1], p[off + 2], p[off + 3])
}

/// The fields of the IPv4 header at `ip_off`.
pub open spec fn spec_ipv4_fields(p: Seq<u8>, ip_off: int) -> Ipv4Fields {
    Ipv4Fields {
        src: addr_at(p, ip_off + IPV4_SRC_OFF),
        dst: addr_at(p, ip_off + IPV4_DST_OFF),
        proto: p[ip_off + IPV4_PROTO_OFF],
    }
}

/// Reads the fields of the IPv4 header at `ip_off`.
pub fn read_ipv4(p: &[u8], ip_off: usize) -> (f: Ipv4Fields)
    requires
        ip_off + IPV4_HDR_LEN <= p@.len(),
    ensures
        f == spec_ipv4_fields(p@, ip_off as int),
{
    let n: usize = p.len();
    assert(ip_off + IPV4_HDR_LEN <= n);
    let s: usize = ip_off + IPV4_SRC_OFF;
    let d: usize = ip_off + IPV4_DST_OFF;
    let src = addr_from_octets(p[s], p[s + 1], p[s + 2], p[s + 3]);
    let dst = addr_from_octets(p[d], p[d + 1], p[d + 2], p[d + 3]);
    Ipv4Fields { src, dst, proto: p[ip_off + IPV4_PROTO_OFF] }
}

/// The rewrite of one address of the IPv4 header at `ip_off`: the IPv4 checksum is
/// updated over the 4 address bytes; for TCP the transport checksum is updated as part
/// of the pseudo header; for UDP as well, and a zero UDP checksum stays zero; other
/// protocols have no transport checksum to update.
pub open spec fn spec_rewrite(ip_off: int, old: u32, new: u32, proto: u8, field: AddrField) -> Rewrite {
    Rewrite {
        l3_csum_offset: (ip_off + IPV4_CHECK_OFF) as usize,
        l4: if proto == IPPROTO_TCP {
            Some(L4Update { offset: (ip_off + IPV4_HDR_LEN + TCP_CHECK_OFF) as usize, flags: BPF_F_PSEUDO_HDR | ADDR_SIZE })
        } else if proto == IPPROTO_UDP {
            Some(L4Update {
                offset: (ip_off + IPV4_HDR_LEN + UDP_CHECK_OFF) as usize,
                flags: BPF_F_PSEUDO_HDR | BPF_F_MARK_MANGLED_0 | ADDR_SIZE,
            })
        } else {
            None
        },
        addr_offset: (ip_off + match field {
            AddrField::Src => IPV4_SRC_OFF,
            AddrField::Dst => IPV4_DST_OFF,
        }) as usize,
        old,
        new,
    }
}

/// Plans the rewrite of one address, as [`spec_rewrite`] says.
pub fn rewrite_addr(ip_off: usize, old: u32, new: u32, proto: u8, field: AddrField) -> (r: Rewrite)
    requires
        ip_off + IPV4_HDR_LEN + TCP_CHECK_OFF <= usize::MAX,
    ensures
        r == spec_rewrite(ip_off as int, old, new, proto, field),
{
    let l4 = if proto == IPPROTO_TCP {
        Some(L4Update { offset: ip_off + IPV4_HDR_LEN + TCP_CHECK_OFF, flags: BPF_F_PSEUDO_HDR | ADDR_SIZE })
    } else if proto == IPPROTO_UDP {
        Some(L4Update {
            offset: ip_off + IPV4_HDR_LEN + UDP_CHECK_OFF,
            flags: BPF_F_PSEUDO_HDR | BPF_F_MARK_MANGLED_0 | ADDR_SIZE,
        })
    } else {
        None
    };
    let addr_off = match field {
        AddrField::Src => IPV4_SRC_OFF,
        AddrField::Dst => IPV4_DST_OFF,
    };
    Rewrite { l3_csum_offset: ip_off + IPV4_CHECK_OFF, l4, addr_offset: ip_off + addr_off, old, new }
}

/// The ingress decision for an IPv4 header at `ip_off` with fields `f`: the destination
/// is rewritten where the DNAT table maps it, then the source where the SNAT table maps
/// it; each table is looked up with the packet's original address.
pub open spec fn ingress_plan(ip_off: int, f: Ipv4Fields, dnat: Map<u32, u32>, snat: Map<u32, u32>) -> Seq<Rewrite> {
    (if dnat.contains_key(f.dst) {
        seq![spec_rewrite(ip_off, f.dst, dnat[f.dst], f.proto, AddrField::Dst)]
    } else {
        Seq::empty()
    }) + (if snat.contains_key(f.src) {
        seq![spec_rewrite(ip_off, f.src, snat[f.src], f.proto, AddrField::Src)]
    } else {
        Seq::empty()
    })
}

/// The ingress classifier on a packet: `Err` where a header runs past the end; no
/// rewrite for a packet that is not IPv4; otherwise [`ingress_plan`].
pub open spec fn spec_try_ingress(p: Seq<u8>, dnat: Map<u32, u32>, snat: Map<u32, u32>) -> Result<Seq<Rewrite>, ()> {
    match spec_ipv4_offset(p) {
        Err(()) => Err(()),
        Ok(None) => Ok(Seq::empty()),
        Ok(Some(ip_off)) => if !fits(p.len() as int, ip_off as int, IPV4_HDR_LEN as int) {
            Err(())
        } else {
            Ok(ingress_plan(ip_off as int, spec_ipv4_fields(p, ip_off as int), dnat, snat))
        },
    }
}

/// Decides the ingress rewrites of a packet, as [`spec_try_ingress`] says.
pub fn try_ingress(p: &[u8], dnat: &HashMap<u32, u32>, snat: &HashMap<u32, u32>) -> (r: Result<Vec<Rewrite>, ()>)
    ensures
        match (r, spec_try_ingress(p@, dnat@, snat@)) {
            (Ok(v), Ok(s)) => v@ == s,
            (Err(()), Err(())) => true,
            _ => false,
        },
{
    let ip_off = match ipv4_offset(p)? {
        Some(off) => off,
        None => return Ok(Vec::new()),
    };
    let _ = ptr_at(p.len(), ip_off, IPV4_HDR_LEN)?;
    let f = read_ipv4(p, ip_off);
    let mut out: Vec<Rewrite> = Vec::new();
    if let Some(new_dst) = dnat.get(&f.dst) {
        out.push(rewrite_addr(ip_off, f.dst, *new_dst, f.proto, AddrField::Dst));
    }
    let ghost mid = out@;
    if let Some(new_src) = snat.get(&f.src) {
        out.push(rewrite_addr(ip_off, f.src, *new_src, f.proto, AddrField::Src));
    }
    proof {
        assert(out@ =~= ingress_plan(ip_off as int, f, dnat@, snat@));
    }
    Ok(out)
}

/// Whether some block of `cidrs` holds `a`: what a longest-prefix-match lookup of the
/// full 32-bit address finds in a trie loaded with these blocks.
pub open spec fn cidrs_hold(cidrs: Seq<Cidr>, a: u32) -> bool {
    exists|i: int| 0 <= i < cidrs.len() && cidr_holds(cidrs[i].addr, cidrs[i].prefix_len, a)
}

/// Decides [`cidrs_hold`].
pub fn cidrs_match(cidrs: &Vec<Cidr>, a: u32) -> (r: bool)
    ensures
        r == cidrs_hold(cidrs@, a),
{
    let mut i: usize = 0;
    while i < cidrs.len()
        invariant
            i <= cidrs@.len(),
            forall|j: int| 0 <= j < i ==> !cidr_holds(#[trigger] cidrs@[j].addr, cidrs@[j].prefix_len, a),
        decreases cidrs@.len() - i,
    {
        if cidr_contains(cidrs[i].addr, cidrs[i].prefix_len, a) {
            return true;
        }
        i = i + 1;
    }
    false
}

/// The tables the egress classifier reads.
#[derive(Debug)]
pub struct EgressMaps {
    /// Mirror of each DNAT mapping: private source address to the original public one.
    pub un_dnat: HashMap<u32, u32>,
    /// One-to-one source rewrites.
    pub snat: HashMap<u32, u32>,
    /// Source blocks to masquerade.
    pub masq_cidrs: Vec<Cidr>,
    /// The interface's own address; 0 while unknown.
    pub iface_ip: u32,
    /// 0 when masquerading is off, anything else when it is on.
    pub masq_enabled: u32,
}

/// The egress decision for an IPv4 header at `ip_off` with fields `f`; the source
/// rewrites exclude each other and the first that applies wins: the un-DNAT mirror,
/// then SNAT, then masquerading (when it is on, a block holds the source and the
/// interface address is known).
pub open spec fn egress_plan(
    ip_off: int,
    f: Ipv4Fields,
    un_dnat: Map<u32, u32>,
    snat: Map<u32, u32>,
    masq_cidrs: Seq<Cidr>,
    iface_ip: u32,
    masq_enabled: u32,
) -> Option<Rewrite> {
    if un_dnat.contains_key(f.src) {
        Some(spec_rewrite(ip_off, f.src, un_dnat[f.src], f.proto, AddrField::Src))
    } else if snat.contains_key(f.src) {
        Some(spec_rewrite(ip_off, f.src, snat[f.src], f.proto, AddrField::Src))
    } else if masq_enabled != 0 && cidrs_hold(masq_cidrs, f.src) && iface_ip != 0 {
        Some(spec_rewrite(ip_off, f.src, iface_ip, f.proto, AddrField::Src))
    } else {
        None
    }
}

/// The egress classifier on a packet, as [`spec_try_ingress`] frames it, with [`egress_plan`].
pub open spec fn spec_try_egress(p: Seq<u8>, m: EgressMaps) -> Result<Option<Rewrite>, ()> {
    match spec_ipv4_offset(p) {
        Err(()) => Err(()),
        Ok(None) => Ok(None),
        Ok(Some(ip_off)) => if !fits(p.len() as int, ip_off as int, IPV4_HDR_LEN as int) {
            Err(())
        } else {
            Ok(
                egress_plan(
                    ip_off as int,
                    spec_ipv4_fields(p, ip_off as int),
                    m.un_dnat@,
                    m.snat@,
                    m.masq_cidrs@,
                    m.iface_ip,
                    m.masq_enabled,
                ),
            )
        },
    }
}

/// Decides the egress rewrite of a packet, as [`spec_try_egress`] says.
pub fn try_egress(p: &[u8], m: &EgressMaps) -> (r: Result<Option<Rewrite>, ()>)
    ensures
        r == spec_try_egress(p@, *m),
{
    let ip_off = match ipv4_offset(p)? {
        Some(off) => off,
        None => return Ok(None),
    };
    let _ = ptr_at(p.len(), ip_off, IPV4_HDR_LEN)?;
    let f = read_ipv4(p, ip_off);
    if let Some(new_src) = m.un_dnat.get(&f.src) {
        return Ok(Some(rewrite_addr(ip_off, f.src, *new_src, f.proto, AddrField::Src)));
    }
    if let Some(new_src) = m.snat.get(&f.src) {
        return Ok(Some(rewrite_addr(ip_off, f.src, *new_src, f.proto, AddrField::Src)));
    }
    if m.masq_enabled != 0 {
        if cidrs_match(&m.masq_cidrs, f.src) {
            if m.iface_ip != 0 {
                return Ok(Some(rewrite_addr(ip_off, f.src, m.iface_ip, f.proto, AddrField::Src)));
            }
        }
    }
    Ok(None)
}

/// The stand-alone SNAT classifier on an Ethernet frame: `Err` where a header runs past
/// the end; no rewrite unless the EtherType is IPv4; otherwise the source is rewritten
/// where the table maps it.
pub open spec fn spec_try_snat(p: Seq<u8>, table: Map<u32, u32>) -> Result<Option<Rewrite>, ()> {
    if !fits(p.len() as int, 0, ETH_HDR_LEN as int) {
        Err(())
    } else if !(p[12] == 0x08 && p[13] == 0x00) {
        Ok(None)
    } else if !fits(p.len() as int, ETH_HDR_LEN as int, IPV4_HDR_LEN as int) {
        Err(())
    } else {
        let f = spec_ipv4_fields(p, ETH_HDR_LEN as int);
        if table.contains_key(f.src) {
            Ok(Some(spec_rewrite(ETH_HDR_LEN as int, f.src, table[f.src], f.proto, AddrField::Src)))
        } else {
            Ok(None)
        }
    }
}

/// Decides the rewrite of the stand-alone SNAT classifier, as [`spec_try_snat`] says.
pub fn try_snat(p: &[u8], table: &HashMap<u32, u32>) -> (r: Result<Option<Rewrite>, ()>)
    ensures
        r == spec_try_snat(p@, table@),
{
    let _ = ptr_at(p.len(), 0, ETH_HDR_LEN)?;
    if !(p[ETHER_TYPE_OFF] == 0x08 && p[ETHER_TYPE_OFF + 1] == 0x00) {
        return Ok(None);
    }
    let _ = ptr_at(p.len(), ETH_HDR_LEN, IPV4_HDR_LEN)?;
    let f = read_ipv4(p, ETH_HDR_LEN);
    match table.get(&f.src) {
        Some(new_src) => Ok(Some(rewrite_addr(ETH_HDR_LEN, f.src, *new_src, f.proto, AddrField::Src))),
        None => Ok(None),
    }
}

/// The ingress classifier: the packet always passes; it carries the rewrites of
/// [`spec_try_ingress`], or none where that is `Err`.
pub fn ingress(p: &[u8], dnat: &HashMap<u32, u32>, snat: &HashMap<u32, u32>) -> (v: Verdict)
    ensures
        v.action == TC_ACT_OK,
        v.rewrites@ == match spec_try_ingress(p@, dnat@, snat@) {
            Ok(s) => s,
            Err(()) => Seq::empty(),
        },
{
    match try_ingress(p, dnat, snat) {
        Ok(rewrites) => Verdict { action: TC_ACT_OK, rewrites },
        Err(()) => Verdict { action: TC_ACT_OK, rewrites: Vec::new() },
    }
}

/// The rewrites of an optional single rewrite, or none where the decision is `Err`.
pub open spec fn single_rewrite(r: Result<Option<Rewrite>, ()>) -> Seq<Rewrite> {
    match r {
        Ok(Some(w)) => seq![w],
        _ => Seq::empty(),
    }
}

/// Turns a decision that is at most one rewrite into a verdict that lets the packet pass.
fn verdict_of(r: Result<Option<Rewrite>, ()>) -> (v: Verdict)
    ensures
        v.action == TC_ACT_OK,
        v.rewrites@ == single_rewrite(r),
{
    let mut rewrites: Vec<Rewrite> = Vec::new();
    if let Ok(Some(w)) = r {
        rewrites.push(w);
    }
    proof {
        assert(rewrites@ =~= single_rewrite(r));
    }
    Verdict { action: TC_ACT_OK, rewrites }
}

/// The egress classifier: the packet always passes, with the rewrite of [`spec_try_egress`].
pub fn egress(p: &[u8], m: &EgressMaps) -> (v: Verdict)
    ensures
        v.action == TC_ACT_OK,
        v.rewrites@ == single_rewrite(spec_try_egress(p@, *m)),
{
    verdict_of(try_egress(p, m))
}

/// The stand-alone SNAT classifier: the packet always passes, with the rewrite of [`spec_try_snat`].
pub fn snat(p: &[u8], table: &HashMap<u32, u32>) -> (v: Verdict)
    ensures
        v.action == TC_ACT_OK,
        v.rewrites@ == single_rewrite(spec_try_snat(p@, table@)),
{
    verdict_of(try_snat(p, table))
}


/// The address stored in network byte order in the four bytes at `off`.
pub open spec fn be_addr(p: Seq<u8>, off: int) -> u32 {
    from_octets(p[off], p[off + 1], p[off + 2], p[off + 3])
}

/// Whether `l4` is the transport checksum update that a rewrite in the IPv4 header at
/// `ip_off` calls for, by protocol number: TCP's checksum 16 bytes into its header,
/// updated as part of the pseudo header over 4 bytes; UDP's 6 bytes in, likewise, with
/// a zero checksum left zero; none for other protocols.
pub open spec fn transport_update(l4: Option<L4Update>, proto: u8, ip_off: int) -> bool {
    if proto == 6 {
        l4 == Some(L4Update { offset: (ip_off + 36) as usize, flags: 0x14 })
    } else if proto == 17 {
        l4 == Some(L4Update { offset: (ip_off + 26) as usize, flags: 0x34 })
    } else {
        l4 is None
    }
}

/// The checksum helpers' flags for TCP and for UDP, as numbers.
proof fn lemma_checksum_flags()
    ensures
        BPF_F_PSEUDO_HDR | ADDR_SIZE == 0x14,
        BPF_F_PSEUDO_HDR | BPF_F_MARK_MANGLED_0 | ADDR_SIZE == 0x34,
{
    assert(0x10u64 | 4u64 == 0x14u64) by (bit_vector);
    assert(0x10u64 | 0x20u64 | 4u64 == 0x34u64) by (bit_vector);
}

/// Whether `r` overwrites the address stored at `ip_off + field` of `p`, an address
/// field of the IPv4 header at `ip_off`, with `new`, updating the IPv4 header checksum
/// and the transport checksum of the packet's protocol.
pub open spec fn rewrites_field(r: Rewrite, p: Seq<u8>, ip_off: int, field: int, new: u32) -> bool {
    &&& r.addr_offset == ip_off + field
    &&& r.old == be_addr(p, ip_off + field)
    &&& r.new == new
    &&& r.l3_csum_offset == ip_off + 10
    &&& transport_update(r.l4, p[ip_off + 9], ip_off)
}

/// The egress decision on an IPv4 packet rewrites at most its source: to the original
/// public address where the un-DNAT mirror maps the source; else to the SNAT target
/// where the SNAT table maps it; else, when masquerading is on and the interface address
/// is known, to that address exactly when some configured block, at any position of
/// the list, holds the source; otherwise it leaves the packet alone.
pub proof fn lemma_egress_masquerades_any_block(p: Seq<u8>, m: EgressMaps, ip_off: usize)
    requires
        spec_ipv4_offset(p) == Ok::<Option<usize>, ()>(Some(ip_off)),
        ip_off + IPV4_HDR_LEN <= p.len(),
    ensures
        ({
            let src = be_addr(p, ip_off + 12);
            let held = exists|i: int|
                0 <= i < m.masq_cidrs@.len() && cidr_holds(#[trigger] m.masq_cidrs@[i].addr, m.masq_cidrs@[i].prefix_len, src);
            let to = if m.un_dnat@.contains_key(src) {
                Some(m.un_dnat@[src])
            } else if m.snat@.contains_key(src) {
                Some(m.snat@[src])
            } else if m.masq_enabled != 0 && m.iface_ip != 0 && held {
                Some(m.iface_ip)
            } else {
                None
            };
            &&& spec_try_egress(p, m) matches Ok(d)
            &&& d is Some <==> to is Some
            &&& d matches Some(r) ==> rewrites_field(r, p, ip_off as int, 12, to->0)
        }),
{
    lemma_checksum_flags();
    let f = spec_ipv4_fields(p, ip_off as int);
    assert(f.src == be_addr(p, ip_off + 12));
}

/// The ingress decision on an IPv4 packet whose header starts at `ip_off` rewrites the
/// destination where the DNAT table maps it and then the source where the SNAT table
/// maps it, each looked up with the packet's own address, and nothing else.
pub proof fn lemma_ingress_rewrites(p: Seq<u8>, dnat: Map<u32, u32>, snat: Map<u32, u32>, ip_off: usize)
    requires
        spec_ipv4_offset(p) == Ok::<Option<usize>, ()>(Some(ip_off)),
        ip_off + IPV4_HDR_LEN <= p.len(),
    ensures
        ({
            let src = be_addr(p, ip_off + 12);
            let dst = be_addr(p, ip_off + 16);
            &&& spec_try_ingress(p, dnat, snat) matches Ok(s)
            &&& s.len() == (if dnat.contains_key(dst) { 1int } else { 0int }) + (if snat.contains_key(src) { 1int } else { 0int })
            &&& dnat.contains_key(dst) ==> rewrites_field(s[0], p, ip_off as int, 16, dnat[dst])
            &&& snat.contains_key(src) ==> rewrites_field(s[s.len() - 1], p, ip_off as int, 12, snat[src])
        }),
{
    lemma_checksum_flags();
    assert(spec_ipv4_fields(p, ip_off as int).src == be_addr(p, ip_off + 12));
    assert(spec_ipv4_fields(p, ip_off as int).dst == be_addr(p, ip_off + 16));
}

/// On a link-less interface (wg, tun, ipip) a packet starts with its IPv4 header: where
/// it is not an Ethernet IPv4 frame but its first byte carries IP version 4 and it holds
/// a full IPv4 header, the ingress decision rewrites the destination where the DNAT
/// table maps it and then the source where the SNAT table maps it, at offsets counted
/// from the packet's start, and nothing else.
pub proof fn lemma_ingress_link_less(p: Seq<u8>, dnat: Map<u32, u32>, snat: Map<u32, u32>)
    requires
        p.len() >= IPV4_HDR_LEN,
        !(p[12] == 0x08 && p[13] == 0x00),
        p[0] / 16 == 4,
    ensures
        ({
            let src = be_addr(p, 12);
            let dst = be_addr(p, 16);
            &&& spec_try_ingress(p, dnat, snat) matches Ok(s)
            &&& s.len() == (if dnat.contains_key(dst) { 1int } else { 0int }) + (if snat.contains_key(src) { 1int } else { 0int })
            &&& dnat.contains_key(dst) ==> rewrites_field(s[0], p, 0, 16, dnat[dst])
            &&& snat.contains_key(src) ==> rewrites_field(s[s.len() - 1], p, 0, 12, snat[src])
        }),
{
    lemma_ingress_rewrites(p, dnat, snat, 0);
}

/// Whether `b` is the rewrite `a` moved `by` bytes further into the packet.
pub open spec fn shifted(a: Rewrite, b: Rewrite, by: int) -> bool {
    &&& b.l3_csum_offset == a.l3_csum_offset + by
    &&& b.addr_offset == a.addr_offset + by
    &&& b.old == a.old
    &&& b.new == a.new
    &&& match (a.l4, b.l4) {
        (Some(x), Some(y)) => y.offset == x.offset + by && y.flags == x.flags,
        (None, None) => true,
        _ => false,
    }
}

/// A link-less IPv4 packet and the same packet behind an Ethernet header get the same
/// ingress decision, with every offset moved by the 14 bytes of that header.
pub proof fn lemma_ingress_same_behind_ethernet(p: Seq<u8>, q: Seq<u8>, dnat: Map<u32, u32>, snat: Map<u32, u32>)
    requires
        p.len() >= IPV4_HDR_LEN,
        !(p[12] == 0x08 && p[13] == 0x00),
        p[0] / 16 == 4,
        q.len() == p.len() + 14,
        q[12] == 0x08,
        q[13] == 0x00,
        q.skip(14) == p,
    ensures
        spec_try_ingress(p, dnat, snat) matches Ok(a) && spec_try_ingress(q, dnat, snat) matches Ok(b) && a.len()
            == b.len() && forall|i: int| 0 <= i < a.len() ==> shifted(#[trigger] a[i], b[i], 14),
{
    assert forall|k: int| 0 <= k < p.len() implies q[k + 14] == #[trigger] p[k] by {
        assert(q.skip(14)[k] == q[k + 14]);
    }
    let fp = spec_ipv4_fields(p, 0);
    let fq = spec_ipv4_fields(q, 14);
    assert(q[9int + 14] == p[9int]);
    assert(q[12int + 14] == p[12int] && q[13int + 14] == p[13int] && q[14int + 14] == p[14int] && q[15int + 14] == p[15int]);
    assert(q[16int + 14] == p[16int] && q[17int + 14] == p[17int] && q[18int + 14] == p[18int] && q[19int + 14] == p[19int]);
    assert(fp == fq);
}


/// Where the IPv4 header lies: a packet shorter than an Ethernet header is refused; an
/// Ethernet frame with EtherType 0x0800 carries it after its 14 header bytes; any other
/// packet whose first byte carries IP version 4 starts with it; nothing else is IPv4.
pub proof fn lemma_ipv4_header_place(p: Seq<u8>)
    ensures
        p.len() < 14 ==> spec_ipv4_offset(p) is Err,
        p.len() >= 14 && p[12] == 0x08 && p[13] == 0x00 ==> spec_ipv4_offset(p) == Ok::<Option<usize>, ()>(Some(14)),
        p.len() >= 14 && !(p[12] == 0x08 && p[13] == 0x00) && p[0] >> 4 == 4 ==> spec_ipv4_offset(p)
            == Ok::<Option<usize>, ()>(Some(0)),
        p.len() >= 14 && !(p[12] == 0x08 && p[13] == 0x00) && p[0] >> 4 != 4 ==> spec_ipv4_offset(p)
            == Ok::<Option<usize>, ()>(None),
{
    if p.len() >= 14 {
        let b = p[0];
        assert(b >> 4 == b / 16) by (bit_vector);
    }
}

/// The stand-alone SNAT classifier rewrites the source of an Ethernet IPv4 frame to its
/// SNAT target where the table maps it, and leaves every other packet alone; a frame
/// too short for its headers is refused.
pub proof fn lemma_snat_rewrites_source(p: Seq<u8>, table: Map<u32, u32>)
    ensures
        p.len() < 14 ==> spec_try_snat(p, table) is Err,
        p.len() >= 14 && !(p[12] == 0x08 && p[13] == 0x00) ==> spec_try_snat(p, table) == Ok::<Option<Rewrite>, ()>(None),
        p.len() >= 14 && p[12] == 0x08 && p[13] == 0x00 && p.len() < 34 ==> spec_try_snat(p, table) is Err,
        p.len() >= 34 && p[12] == 0x08 && p[13] == 0x00 ==> {
            let src = be_addr(p, 26);
            &&& spec_try_snat(p, table) matches Ok(d)
            &&& d is Some <==> table.contains_key(src)
            &&& d matches Some(r) ==> rewrites_field(r, p, 14, 12, table[src])
        },
{
    lemma_checksum_flags();
    if p.len() >= 34 {
        assert(spec_ipv4_fields(p, 14).src == be_addr(p, 26));
    }
}

} // verus!
