//! IPv4 addresses and CIDR networks: parsing, network and broadcast
//! addresses, membership, and which addresses a host may use.

use vstd::arithmetic::div_mod::{lemma_fundamental_div_mod, lemma_mod_pos_bound};
use vstd::arithmetic::power2::{lemma_pow2_pos, pow2, lemma2_to64};
use vstd::bits::lemma_u64_shl_is_mul;
use vstd::prelude::*;

verus! {

/// `c` is one of the ASCII digits `0` to `9`.
pub open spec fn is_ascii_digit(c: char) -> bool {
    '0' <= c && c <= '9'
}

/// Every character of `s` is an ASCII digit.
pub open spec fn all_digits(s: Seq<char>) -> bool {
    forall|i: int| 0 <= i < s.len() ==> is_ascii_digit(#[trigger] s[i])
}

/// The value of a string of decimal digits.
pub open spec fn decimal_value(s: Seq<char>) -> nat
    decreases s.len(),
{
    if s.len() == 0 {
        0
    } else {
        decimal_value(s.drop_last()) * 10 + ((s.last() as nat) - ('0' as nat)) as nat
    }
}

/// An octet written with one to three decimal digits, value at most 255;
/// leading zeros are allowed (the CIDR notation that `ipnet` reads).
pub open spec fn cidr_octet(s: Seq<char>) -> bool {
    1 <= s.len() <= 3 && all_digits(s) && decimal_value(s) <= 255
}

/// An octet in dot-decimal notation as the standard library reads it:
/// decimal, at most 255, and no leading zero unless the octet is `0` itself.
pub open spec fn plain_octet(s: Seq<char>) -> bool {
    cidr_octet(s) && (s.len() > 1 ==> s[0] != '0')
}

/// The 32-bit address whose octets have the values of `a`, `b`, `c`, `d`.
pub open spec fn octets_value(a: Seq<char>, b: Seq<char>, c: Seq<char>, d: Seq<char>) -> nat {
    decimal_value(a) * 16777216 + decimal_value(b) * 65536 + decimal_value(c) * 256
        + decimal_value(d)
}

/// `s` is the four octets `a.b.c.d`.
pub open spec fn is_quad(s: Seq<char>, a: Seq<char>, b: Seq<char>, c: Seq<char>, d: Seq<char>, plain: bool) -> bool {
    &&& s == a + seq!['.'] + b + seq!['.'] + c + seq!['.'] + d
    &&& if plain {
        plain_octet(a) && plain_octet(b) && plain_octet(c) && plain_octet(d)
    } else {
        cidr_octet(a) && cidr_octet(b) && cidr_octet(c) && cidr_octet(d)
    }
}

/// The address written in dot-decimal notation by `s`, if `s` is one;
/// `plain` selects the standard library's octets, otherwise those of CIDR text.
#[verifier::opaque]
pub open spec fn dotted_quad(s: Seq<char>, plain: bool) -> Option<nat> {
    if exists|a: Seq<char>, b: Seq<char>, c: Seq<char>, d: Seq<char>| is_quad(s, a, b, c, d, plain) {
        let (a, b, c, d) = choose|a: Seq<char>, b: Seq<char>, c: Seq<char>, d: Seq<char>|
            is_quad(s, a, b, c, d, plain);
        Some(octets_value(a, b, c, d))
    } else {
        None
    }
}

/// `s` is `q/p`: an address `q` and a prefix length `p` of one or two digits, at most 32.
pub open spec fn is_cidr_text(s: Seq<char>, q: Seq<char>, p: Seq<char>) -> bool {
    &&& s == q + seq!['/'] + p
    &&& dotted_quad(q, false) is Some
    &&& 1 <= p.len() <= 2 && all_digits(p) && decimal_value(p) <= 32
}

/// The address and prefix length written by `s` in CIDR notation, if it is one.
#[verifier::opaque]
pub open spec fn cidr_text(s: Seq<char>) -> Option<(nat, nat)> {
    if exists|q: Seq<char>, p: Seq<char>| is_cidr_text(s, q, p) {
        let (q, p) = choose|q: Seq<char>, p: Seq<char>| is_cidr_text(s, q, p);
        Some((dotted_quad(q, false)->0, decimal_value(p)))
    } else {
        None
    }
}

/// Number of addresses in a network with the given prefix length.
pub open spec fn block_size(prefix: nat) -> nat {
    pow2((32 - prefix) as nat)
}

/// The network address: `addr` with its host bits cleared.
pub open spec fn network_of(addr: nat, prefix: nat) -> nat {
    (addr - addr % block_size(prefix)) as nat
}

/// The broadcast address: the last address of the network.
pub open spec fn broadcast_of(addr: nat, prefix: nat) -> nat {
    (network_of(addr, prefix) + block_size(prefix) - 1) as nat
}

/// `ip` lies in the network of `addr` with the given prefix length.
pub open spec fn in_network(addr: nat, prefix: nat, ip: nat) -> bool {
    network_of(addr, prefix) <= ip <= broadcast_of(addr, prefix)
}

/// `ip` may be given to a host of the network: it lies in the network and,
/// unless the prefix is 31 or 32, is neither the network nor the broadcast address.
pub open spec fn usable_in(addr: nat, prefix: nat, ip: nat) -> bool {
    &&& in_network(addr, prefix, ip)
    &&& (prefix >= 31 || (ip != network_of(addr, prefix) && ip != broadcast_of(addr, prefix)))
}

/// Two networks overlap when either holds the other's network address.
pub open spec fn networks_overlap(a: (nat, nat), b: (nat, nat)) -> bool {
    in_network(a.0, a.1, network_of(b.0, b.1)) || in_network(b.0, b.1, network_of(a.0, a.1))
}

/// An IPv4 network in CIDR notation: an address and a prefix length of at most 32.
/// The address need not be the network address.
#[derive(Clone, Copy, Debug, PartialEq, Eq)]
pub struct Ipv4Cidr {
    addr: u32,
    prefix: u8,
}

impl View for Ipv4Cidr {
    type V = (nat, nat);

    closed spec fn view(&self) -> (nat, nat) {
        (self.addr as nat, self.prefix as nat)
    }
}

impl Ipv4Cidr {
    #[verifier::type_invariant]
    spec fn prefix_fits(self) -> bool {
        self.prefix <= 32
    }

    /// The network of `addr` with `prefix`, when `prefix` is at most 32.
    pub fn new(addr: u32, prefix: u8) -> (r: Option<Ipv4Cidr>)
        ensures
            prefix <= 32 <==> r is Some,
            r matches Some(n) ==> n@ == (addr as nat, prefix as nat),
    {
        if prefix <= 32 {
            Some(Ipv4Cidr { addr, prefix })
        } else {
            None
        }
    }

    /// The address as written.
    pub fn addr(&self) -> (r: u32)
        ensures
            r as nat == self@.0,
    {
        self.addr
    }

    /// The prefix length.
    pub fn prefix_len(&self) -> (r: u8)
        ensures
            r as nat == self@.1,
            r <= 32,
    {
        proof {
            use_type_invariant(self);
        }
        self.prefix
    }

    fn block(&self) -> (r: u64)
        ensures
            r as nat == block_size(self@.1),
            1 <= r <= 0x1_0000_0000,
            r * pow2(self@.1) == 0x1_0000_0000,
            self@.1 <= 32,
    {
        proof {
            use_type_invariant(self);
        }
        let shift: u64 = 32 - self.prefix as u64;
        proof {
            lemma2_to64();
            lemma_pow2_pos(shift as nat);
            assert(pow2(shift as nat) <= 0x1_0000_0000) by {
                if shift < 32 {
                    vstd::arithmetic::power2::lemma_pow2_strictly_increases(shift as nat, 32);
                }
            }
            lemma_u64_shl_is_mul(1, shift);
            vstd::arithmetic::power2::lemma_pow2_adds(shift as nat, self.prefix as nat);
        }
        1u64 << shift
    }

    /// The network address: the address with its host bits cleared.
    pub fn network(&self) -> (r: u32)
        ensures
            r as nat == network_of(self@.0, self@.1),
    {
        let b = self.block();
        let a = self.addr as u64;
        proof {
            lemma_mod_pos_bound(a as int, b as int);
            vstd::arithmetic::div_mod::lemma_mod_decreases(a as nat, b as nat);
        }
        let n = a - a % b;
        n as u32
    }

    /// The broadcast address: the last address of the network.
    pub fn broadcast(&self) -> (r: u32)
        ensures
            r as nat == broadcast_of(self@.0, self@.1),
    {
        let b = self.block();
        let a = self.addr as u64;
        proof {
            let m = pow2(self@.1);
            lemma_mod_pos_bound(a as int, b as int);
            lemma_fundamental_div_mod(a as int, b as int);
            assert(a - a % b + b - 1 <= 0xffff_ffff) by (nonlinear_arith)
                requires
                    a == b * (a / b) + a % b,
                    0 <= a % b < b,
                    a <= 0xffff_ffff,
                    1 <= b <= 0x1_0000_0000,
                    b * m == 0x1_0000_0000,
            {
            }
        }
        let n = a - a % b + b - 1;
        n as u32
    }

    /// `ip` lies in this network.
    pub fn contains(&self, ip: u32) -> (r: bool)
        ensures
            r == in_network(self@.0, self@.1, ip as nat),
    {
        let lo = self.network();
        let hi = self.broadcast();
        lo <= ip && ip <= hi
    }
}

/// Reads `s` with the standard library's `Ipv4Addr::from_str` and returns the
/// address as a 32-bit number. Claimed: the text is accepted exactly when it is
/// dot-decimal notation (four decimal octets, each at most 255, no leading zero
/// but in `0` itself), as the `Ipv4Addr` documentation describes, and the value
/// is that of the octets.
#[verifier::external_body]
fn std_parse_ipv4(s: &str) -> (r: Option<u32>)
    ensures
        r is Some <==> dotted_quad(s@, true) is Some,
        r matches Some(v) ==> v as nat == dotted_quad(s@, true)->0,
{
    match s.parse::<core::net::Ipv4Addr>() {
        Ok(a) => Some(u32::from(a)),
        Err(_) => None,
    }
}

/// Reads `s` with `ipnet`'s `Ipv4Net::from_str` and returns the address as
/// written and the prefix length. Claimed, as `ipnet`'s parser reads: the text is
/// four octets of one to three decimal digits (value at most 255) separated by
/// dots, a slash, and a prefix length of one or two digits at most 32, nothing else.
#[verifier::external_body]
fn ipnet_parse_v4(s: &str) -> (r: Option<(u32, u8)>)
    ensures
        r is Some <==> cidr_text(s@) is Some,
        r matches Some(v) ==> v.0 as nat == (cidr_text(s@)->0).0 && v.1 as nat == (cidr_text(s@)->0).1,
{
    match s.parse::<ipnet::Ipv4Net>() {
        Ok(n) => Some((u32::from(n.addr()), n.prefix_len())),
        Err(_) => None,
    }
}

/// The address written by `s` in dot-decimal notation, or `None`.
pub fn parse_ipv4(s: &str) -> (r: Option<u32>)
    ensures
        r is Some <==> dotted_quad(s@, true) is Some,
        r matches Some(v) ==> v as nat == dotted_quad(s@, true)->0,
{
    std_parse_ipv4(s)
}

/// The network written by `s` in CIDR notation (`a.b.c.d/p`), or `None`.
pub fn parse_cidr(s: &str) -> (r: Option<Ipv4Cidr>)
    ensures
        r is Some <==> cidr_text(s@) is Some,
        r matches Some(n) ==> n@ == cidr_text(s@)->0,
{
    match ipnet_parse_v4(s) {
        Some((addr, prefix)) => {
            proof {
                reveal(cidr_text);
                let (q, p) = choose|q: Seq<char>, p: Seq<char>| is_cidr_text(s@, q, p);
                assert(decimal_value(p) <= 32);
            }
            Ipv4Cidr::new(addr, prefix)
        },
        None => None,
    }
}

/// Whether `ip` may be given to a host of `net`: it lies in the network and,
/// unless the prefix is /31 or /32, is neither the network nor the broadcast address.
pub fn usable(net: Ipv4Cidr, ip: u32) -> (r: bool)
    ensures
        r == usable_in(net@.0, net@.1, ip as nat),
{
    net.contains(ip) && (net.prefix_len() >= 31 || (ip != net.network() && ip != net.broadcast()))
}

/// Whether two networks overlap: either holds the other's network address.
pub fn overlaps(a: Ipv4Cidr, b: Ipv4Cidr) -> (r: bool)
    ensures
        r == networks_overlap(a@, b@),
{
    a.contains(b.network()) || b.contains(a.network())
}

} // verus!
