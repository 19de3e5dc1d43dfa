//! IPv4 addresses and ports as bytes.
//!
//! An address is a `u32` whose lowest byte is the first octet of the dotted form.

use vstd::prelude::*;

use crate::text::{decimal, push_decimal};

verus! {

/// The four octets of an address, in the order of the dotted form.
pub open spec fn octets(ip: u32) -> Seq<u8> {
    seq![
        (ip % 256) as u8,
        (ip / 256 % 256) as u8,
        (ip / 65536 % 256) as u8,
        (ip / 16777216) as u8,
    ]
}

/// The address with the given octets.
pub open spec fn ip_of(a: u8, b: u8, c: u8, d: u8) -> u32 {
    (a + b * 256 + c * 65536 + d * 16777216) as u32
}

/// A 16-bit number in network byte order.
pub open spec fn be16(n: u16) -> Seq<u8> {
    seq![(n / 256) as u8, (n % 256) as u8]
}

/// The 16-bit number that two bytes denote in network byte order.
pub open spec fn from_be16(hi: u8, lo: u8) -> u16 {
    (hi * 256 + lo) as u16
}

/// The dotted decimal form of an address.
pub open spec fn dotted(ip: u32) -> Seq<char> {
    decimal(octets(ip)[0] as nat) + seq!['.'] + decimal(octets(ip)[1] as nat) + seq!['.']
        + decimal(octets(ip)[2] as nat) + seq!['.'] + decimal(octets(ip)[3] as nat)
}

/// Whether an address is loopback, link-local, multicast, or a broadcast address.
pub open spec fn is_local_or_group(ip: u32) -> bool {
    let o = octets(ip);
    ||| o[0] == 127
    ||| o[0] == 169 && o[1] == 254
    ||| o[3] == 255
    ||| 224 <= o[0] <= 239
}

/// Splits an address into its octets.
pub fn octets_of(ip: u32) -> (r: [u8; 4])
    ensures
        r@ == octets(ip),
{
    let r: [u8; 4] = [
        (ip % 256) as u8,
        (ip / 256 % 256) as u8,
        (ip / 65536 % 256) as u8,
        (ip / 16777216) as u8,
    ];
    assert(r@ == octets(ip));
    r
}

/// Joins four octets into an address.
pub fn ip_from_octets(a: u8, b: u8, c: u8, d: u8) -> (r: u32)
    ensures
        r == ip_of(a, b, c, d),
{
    a as u32 + b as u32 * 256 + c as u32 * 65536 + d as u32 * 16777216
}

/// Joins two bytes in network byte order into a number.
pub fn u16_from_be(hi: u8, lo: u8) -> (r: u16)
    ensures
        r == from_be16(hi, lo),
{
    hi as u16 * 256 + lo as u16
}

/// Joining the octets of an address gives the address.
pub proof fn law_octets_round_trip(ip: u32)
    ensures
        ip_of(octets(ip)[0], octets(ip)[1], octets(ip)[2], octets(ip)[3]) == ip,
{
}

/// Splitting a joined address gives the octets.
pub proof fn law_ip_of_round_trip(a: u8, b: u8, c: u8, d: u8)
    ensures
        octets(ip_of(a, b, c, d)) == seq![a, b, c, d],
{
}

/// A port survives its network byte order form.
pub proof fn law_be16_round_trip(n: u16)
    ensures
        from_be16(be16(n)[0], be16(n)[1]) == n,
{
}

/// Two bytes survive the number that they denote.
pub proof fn law_from_be16_round_trip(hi: u8, lo: u8)
    ensures
        be16(from_be16(hi, lo)) == seq![hi, lo],
{
}

/// Whether an address is loopback, link-local, multicast, or a broadcast address.
pub fn is_broadcast_or_multicast(ip: u32) -> (r: bool)
    ensures
        r == is_local_or_group(ip),
{
    let o: [u8; 4] = octets_of(ip);
    // Loopback 127.x.x.x
    if o[0] == 127 {
        return true;
    }
    // Link-local 169.254.x.x
    if o[0] == 169 && o[1] == 254 {
        return true;
    }
    // Broadcast, also within a subnet
    if o[3] == 255 {
        return true;
    }
    // Multicast 224-239.x.x.x
    224 <= o[0] && o[0] <= 239
}

/// Writes an address in dotted decimal form.
pub fn format_ip(ip: u32) -> (r: String)
    ensures
        r@ == dotted(ip),
{
    let o: [u8; 4] = octets_of(ip);
    let mut s = String::new();
    push_decimal(&mut s, o[0] as u64);
    s.push('.');
    push_decimal(&mut s, o[1] as u64);
    s.push('.');
    push_decimal(&mut s, o[2] as u64);
    s.push('.');
    push_decimal(&mut s, o[3] as u64);
    assert(s@ == dotted(ip));
    s
}

/// The octets of an address are its bytes, the lowest one first.
pub proof fn law_octets_are_bytes(ip: u32)
    ensures
        octets(ip).len() == 4,
        octets(ip)[0] == ip & 0xff,
        octets(ip)[1] == (ip >> 8) & 0xff,
        octets(ip)[2] == (ip >> 16) & 0xff,
        octets(ip)[3] == (ip >> 24) & 0xff,
{
    assert(ip & 0xff == ip % 256) by (bit_vector);
    assert((ip >> 8) & 0xff == ip / 256 % 256) by (bit_vector);
    assert((ip >> 16) & 0xff == ip / 65536 % 256) by (bit_vector);
    assert((ip >> 24) & 0xff == ip / 16777216) by (bit_vector);
}

/// An address is the sum of its octets, each times 256 as often as its place says, and a
/// number in network byte order is its first byte times 256 and its second.
pub proof fn law_joined_bytes(a: u8, b: u8, c: u8, d: u8, n: u16)
    ensures
        ip_of(a, b, c, d) == a + 256 * (b + 256 * (c + 256 * d)),
        from_be16(a, b) == 256 * a + b,
        be16(n).len() == 2,
        256 * be16(n)[0] + be16(n)[1] == n,
{
}

/// The dotted form has the octets in decimal, the lowest byte first, with dots between.
pub proof fn law_dotted_form(a: u8, b: u8, c: u8, d: u8)
    ensures
        dotted((a + 256 * (b + 256 * (c + 256 * d))) as u32) == decimal(a as nat) + seq!['.']
            + decimal(b as nat) + seq!['.'] + decimal(c as nat) + seq!['.'] + decimal(d as nat),
{
    law_ip_of_round_trip(a, b, c, d);
}

} // verus!
