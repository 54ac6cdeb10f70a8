//! IPv4 addresses as 32-bit numbers, most significant octet first, so that
//! the order of the numbers is the order of the addresses.

use vstd::prelude::*;
use crate::text::{decimal, push_decimal};

verus! {

/// The number of the address `a.b.c.d`.
pub open spec fn ipv4_value(a: u8, b: u8, c: u8, d: u8) -> u32 {
    (a * 16777216 + b * 65536 + c * 256 + d) as u32
}

/// Octet `k` of `ip`, counted from the most significant one (`k` from 0 to 3).
pub open spec fn octet(ip: u32, k: int) -> nat {
    if k == 0 {
        (ip / 16777216) as nat
    } else if k == 1 {
        ((ip / 65536) % 256) as nat
    } else if k == 2 {
        ((ip / 256) % 256) as nat
    } else {
        (ip % 256) as nat
    }
}

/// The dotted-decimal text of `ip`, as in `192.168.1.0`.
pub open spec fn dotted(ip: u32) -> Seq<char> {
    decimal(octet(ip, 0)) + seq!['.'] + decimal(octet(ip, 1)) + seq!['.'] + decimal(octet(ip, 2))
        + seq!['.'] + decimal(octet(ip, 3))
}

/// The unspecified address `0.0.0.0`.
pub const UNSPECIFIED: u32 = 0;

/// The address `a.b.c.d` as a number.
pub fn ipv4(a: u8, b: u8, c: u8, d: u8) -> (ip: u32)
    ensures
        ip == ipv4_value(a, b, c, d),
        octet(ip, 0) == a,
        octet(ip, 1) == b,
        octet(ip, 2) == c,
        octet(ip, 3) == d,
{
    (a as u32) * 16777216 + (b as u32) * 65536 + (c as u32) * 256 + (d as u32)
}

/// The four octets of `ip`, most significant first.
pub fn octets(ip: u32) -> (o: [u8; 4])
    ensures
        forall|k: int| 0 <= k < 4 ==> o[k] == octet(ip, k),
        ipv4_value(o[0], o[1], o[2], o[3]) == ip,
{
    [
        (ip / 16777216) as u8,
        ((ip / 65536) % 256) as u8,
        ((ip / 256) % 256) as u8,
        (ip % 256) as u8,
    ]
}

/// Appends the dotted-decimal text of `ip` to `out`.
pub fn push_dotted(out: &mut String, ip: u32)
    ensures
        final(out)@ == old(out)@ + dotted(ip),
{
    proof {
        reveal_strlit(".");
    }
    push_decimal(out, ip / 16777216);
    out.append(".");
    push_decimal(out, (ip / 65536) % 256);
    out.append(".");
    push_decimal(out, (ip / 256) % 256);
    out.append(".");
    push_decimal(out, ip % 256);
    assert(out@ =~= old(out)@ + dotted(ip));
}

/// The dotted-decimal text of `ip`.
pub fn dotted_text(ip: u32) -> (s: String)
    ensures
        s@ == dotted(ip),
{
    let mut s = String::new();
    push_dotted(&mut s, ip);
    assert(s@ =~= dotted(ip));
    s
}

} // verus!
