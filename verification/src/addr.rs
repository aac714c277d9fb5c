//! IPv4 addresses held as 32-bit values in host order (first octet most significant),
//! their dotted-decimal text and CIDR prefix matching.

use vstd::prelude::*;
use vstd::string::*;
use crate::text::{decimal, push_decimal, push_char};

verus! {

/// Octet `i` (0 is the first, most significant one) of an address.
pub open spec fn octet(a: u32, i: int) -> nat {
    if i == 0 {
        (a as nat / 0x100_0000) % 256
    } else if i == 1 {
        (a as nat / 0x1_0000) % 256
    } else if i == 2 {
        (a as nat / 0x100) % 256
    } else {
        a as nat % 256
    }
}

/// The address whose octets are `b0.b1.b2.b3`.
pub open spec fn from_octets(b0: u8, b1: u8, b2: u8, b3: u8) -> u32 {
    (b0 as nat * 0x100_0000 + b1 as nat * 0x1_0000 + b2 as nat * 0x100 + b3 as nat) as u32
}

/// Dotted-decimal text of an address, as `Ipv4Addr` displays it: `a.b.c.d`.
pub open spec fn dotted(a: u32) -> Seq<char> {
    decimal(octet(a, 0)).push('.') + decimal(octet(a, 1)).push('.') + decimal(octet(a, 2)).push('.')
        + decimal(octet(a, 3))
}

/// Builds an address from its four octets, first octet most significant.
pub fn addr_from_octets(b0: u8, b1: u8, b2: u8, b3: u8) -> (a: u32)
    ensures
        a == from_octets(b0, b1, b2, b3),
        octet(a, 0) == b0,
        octet(a, 1) == b1,
        octet(a, 2) == b2,
        octet(a, 3) == b3,
{
    let a: u32 = (b0 as u32) * 0x100_0000 + (b1 as u32) * 0x1_0000 + (b2 as u32) * 0x100 + (b3 as u32);
    assert(a as nat / 0x100_0000 == b0) by (nonlinear_arith)
        requires a == b0 * 0x100_0000 + b1 * 0x1_0000 + b2 * 0x100 + b3, b0 < 256, b1 < 256, b2 < 256, b3 < 256;
    assert((a as nat / 0x1_0000) % 256 == b1) by (nonlinear_arith)
        requires a == b0 * 0x100_0000 + b1 * 0x1_0000 + b2 * 0x100 + b3, b0 < 256, b1 < 256, b2 < 256, b3 < 256;
    assert((a as nat / 0x100) % 256 == b2) by (nonlinear_arith)
        requires a == b0 * 0x100_0000 + b1 * 0x1_0000 + b2 * 0x100 + b3, b0 < 256, b1 < 256, b2 < 256, b3 < 256;
    assert(a as nat % 256 == b3) by (nonlinear_arith)
        requires a == b0 * 0x100_0000 + b1 * 0x1_0000 + b2 * 0x100 + b3, b0 < 256, b1 < 256, b2 < 256, b3 < 256;
    a
}

/// Appends the dotted-decimal text of `a` to `s`.
pub fn push_dotted(s: &mut String, a: u32)
    ensures
        final(s)@ == old(s)@ + dotted(a),
{
    let ghost s0 = s@;
    push_decimal(s, (a / 0x100_0000) as u64);
    push_char(s, '.');
    push_decimal(s, ((a / 0x1_0000) % 256) as u64);
    push_char(s, '.');
    push_decimal(s, ((a / 0x100) % 256) as u64);
    push_char(s, '.');
    push_decimal(s, (a % 256) as u64);
    proof {
        assert(a as nat / 0x100_0000 < 256);
        assert(((a as nat / 0x100_0000) % 256) == a as nat / 0x100_0000);
        assert(s@ =~= s0 + dotted(a));
    }
}

/// Dotted-decimal text of an address, as a new string.
pub fn ipv4_to_string(a: u32) -> (r: String)
    ensures
        r@ == dotted(a),
{
    let mut s = String::new();
    push_dotted(&mut s, a);
    proof {
        assert(s@ =~= dotted(a));
    }
    s
}

/// Whether the CIDR block `base/prefix_len` holds `a`: the prefix length is at most 32
/// and the first `prefix_len` bits of `a` and `base` agree.
pub open spec fn cidr_holds(base: u32, prefix_len: u8, a: u32) -> bool {
    &&& prefix_len <= 32
    &&& (prefix_len == 0 || (a >> ((32 - prefix_len) as u32)) == (base >> ((32 - prefix_len) as u32)))
}

/// Decides `cidr_holds(base, prefix_len, a)`.
pub fn cidr_contains(base: u32, prefix_len: u8, a: u32) -> (r: bool)
    ensures
        r == cidr_holds(base, prefix_len, a),
{
    if prefix_len > 32 {
        false
    } else if prefix_len == 0 {
        true
    } else {
        let shift: u32 = (32 - prefix_len) as u32;
        (a >> shift) == (base >> shift)
    }
}

} // verus!
