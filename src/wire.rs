use vstd::prelude::*;
use vstd::arithmetic::div_mod::lemma_mod_breakdown;
use crate::ip::{IpAddr, SocketAddr};
use crate::transport::Family;

verus! {

/// 256 to the power `n`.
pub open spec fn pow256(n: nat) -> nat
    decreases n,
{
    if n == 0 {
        1
    } else {
        256 * pow256((n - 1) as nat)
    }
}

/// The number that bytes denote in network (big-endian) order.
pub open spec fn be_value(s: Seq<u8>) -> nat
    decreases s.len(),
{
    if s.len() == 0 {
        0
    } else {
        be_value(s.drop_last()) * 256 + s.last() as nat
    }
}

proof fn lemma_pow256_positive(n: nat)
    ensures
        pow256(n) > 0,
    decreases n,
{
    if n > 0 {
        lemma_pow256_positive((n - 1) as nat);
    }
}

proof fn lemma_be_value_bound(s: Seq<u8>)
    ensures
        be_value(s) < pow256(s.len()),
    decreases s.len(),
{
    if s.len() > 0 {
        let t = s.drop_last();
        lemma_be_value_bound(t);
        let v = be_value(t);
        let p = pow256(t.len());
        let b = s.last() as nat;
        assert(v * 256 + b < p * 256) by (nonlinear_arith)
            requires
                v < p,
                b < 256,
        ;
    }
}

proof fn lemma_pow256_facts()
    ensures
        pow256(2) == 0x1_0000,
        pow256(4) == 0x1_0000_0000,
        pow256(16) == 0x1_0000_0000_0000_0000_0000_0000_0000_0000,
{
    reveal_with_fuel(pow256, 17);
}

/// The low `n` bytes of `x`, most significant first.
pub fn be_bytes(x: u128, n: usize) -> (r: Vec<u8>)
    requires
        n <= 16,
    ensures
        r@.len() == n,
        be_value(r@) == x as nat % pow256(n as nat),
    decreases n,
{
    if n == 0 {
        Vec::new()
    } else {
        let mut r = be_bytes(x / 256, n - 1);
        let b: u8 = (x % 256) as u8;
        let ghost prev = r@;
        r.push(b);
        proof {
            let p = pow256((n - 1) as nat);
            lemma_pow256_positive((n - 1) as nat);
            assert(r@.drop_last() =~= prev);
            assert(b as nat == x as nat % 256);
            lemma_mod_breakdown(x as int, 256, p as int);
            assert(256 * p == pow256(n as nat));
            assert(be_value(r@) == ((x as nat / 256) % p) * 256 + x as nat % 256);
        }
        r
    }
}

/// Reads up to 16 bytes in network order.
pub fn from_be_bytes(b: &[u8]) -> (r: u128)
    requires
        b@.len() <= 16,
    ensures
        r as nat == be_value(b@),
{
    let mut acc: u128 = 0;
    let mut i: usize = 0;
    while i < b.len()
        invariant
            i <= b@.len() <= 16,
            acc as nat == be_value(b@.subrange(0, i as int)),
        decreases b@.len() - i,
    {
        let ghost pre = b@.subrange(0, i as int);
        proof {
            assert(b@.subrange(0, i + 1).drop_last() =~= pre);
            lemma_be_value_bound(b@.subrange(0, i + 1));
            lemma_pow256_facts();
            assert(pow256((i + 1) as nat) <= pow256(16)) by {
                lemma_pow256_mono((i + 1) as nat, 16);
            }
        }
        acc = acc * 256 + b[i] as u128;
        i = i + 1;
    }
    assert(b@.subrange(0, i as int) =~= b@);
    acc
}

proof fn lemma_pow256_mono(m: nat, n: nat)
    requires
        m <= n,
    ensures
        pow256(m) <= pow256(n),
    decreases n - m,
{
    if m < n {
        lemma_pow256_mono(m, (n - 1) as nat);
        lemma_pow256_positive((n - 1) as nat);
    }
}

/// A socket address as the platform's address structures hold it: the
/// family, the port and the address bytes, in network order.
pub struct WireAddr {
    pub family: Family,
    pub port: Vec<u8>,
    pub ip: Vec<u8>,
}

/// The bits of an address.
pub open spec fn ip_bits(ip: IpAddr) -> nat {
    match ip {
        IpAddr::V4(a) => a as nat,
        IpAddr::V6(a) => a as nat,
    }
}

/// Lays out `addr` for the platform: 4 address bytes for IPv4, 16 for
/// IPv6, the port in 2 bytes, all most significant first.
pub fn encode(addr: &SocketAddr) -> (r: WireAddr)
    ensures
        r.port@.len() == 2,
        be_value(r.port@) == addr.port as nat,
        r.family == crate::transport::spec_family_of(*addr),
        r.ip@.len() == (if addr.ip is V4 { 4nat } else { 16nat }),
        be_value(r.ip@) == ip_bits(addr.ip),
{
    proof {
        lemma_pow256_facts();
    }
    let port = be_bytes(addr.port as u128, 2);
    match addr.ip {
        IpAddr::V4(a) => WireAddr { family: Family::V4, port, ip: be_bytes(a as u128, 4) },
        IpAddr::V6(a) => WireAddr { family: Family::V6, port, ip: be_bytes(a, 16) },
    }
}

/// Reads back the address that the platform reported: `ip` holds 4 bytes
/// for an IPv4 socket and 16 for an IPv6 one, `port` 2, all most
/// significant first.
pub fn decode(family: Family, ip: &[u8], port: &[u8]) -> (r: SocketAddr)
    requires
        port@.len() == 2,
        ip@.len() == (if family == Family::V4 { 4nat } else { 16nat }),
    ensures
        r.port as nat == be_value(port@),
        crate::transport::spec_family_of(r) == family,
        ip_bits(r.ip) == be_value(ip@),
{
    proof {
        lemma_pow256_facts();
        lemma_be_value_bound(port@);
        lemma_be_value_bound(ip@);
    }
    let p = from_be_bytes(port) as u16;
    match family {
        Family::V4 => SocketAddr { ip: IpAddr::V4(from_be_bytes(ip) as u32), port: p },
        Family::V6 => SocketAddr { ip: IpAddr::V6(from_be_bytes(ip)), port: p },
    }
}

/// Decoding what was encoded gives the address back.
pub proof fn lemma_decode_encode(addr: SocketAddr, w: WireAddr, back: SocketAddr)
    requires
        w.port@.len() == 2,
        be_value(w.port@) == addr.port as nat,
        w.family == crate::transport::spec_family_of(addr),
        be_value(w.ip@) == ip_bits(addr.ip),
        back.port as nat == be_value(w.port@),
        crate::transport::spec_family_of(back) == w.family,
        ip_bits(back.ip) == be_value(w.ip@),
    ensures
        back == addr,
{
}

} // verus!
