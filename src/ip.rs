use vstd::prelude::*;

verus! {

/// An IP address held as its bits: 32 for IPv4, 128 for IPv6.
#[derive(Clone, Copy, Debug, PartialEq, Eq, Structural)]
pub enum IpAddr {
    V4(u32),
    V6(u128),
}

/// A remote UDP address: an IP address and a port.
#[derive(Clone, Copy, Debug, PartialEq, Eq, Structural)]
pub struct SocketAddr {
    pub ip: IpAddr,
    pub port: u16,
}

impl IpAddr {
    /// The number of bits of an address of this family.
    pub open spec fn width(self) -> nat {
        match self {
            IpAddr::V4(_) => 32,
            IpAddr::V6(_) => 128,
        }
    }

    /// The largest prefix length of this family.
    pub fn max_prefix(&self) -> (r: u8)
        ensures
            r as nat == self.width(),
    {
        match self {
            IpAddr::V4(_) => 32,
            IpAddr::V6(_) => 128,
        }
    }
}

/// Whether the range `net/cidr` holds `addr`: both are of one family and
/// their first `cidr` bits agree. A prefix of zero holds every address of
/// the family.
pub open spec fn range_contains(net: IpAddr, cidr: u8, addr: IpAddr) -> bool {
    match (net, addr) {
        (IpAddr::V4(n), IpAddr::V4(a)) => cidr <= 32 && (cidr == 0 || (n >> (32 - cidr) as u32)
            == (a >> (32 - cidr) as u32)),
        (IpAddr::V6(n), IpAddr::V6(a)) => cidr <= 128 && (cidr == 0 || (n >> (128 - cidr) as u128)
            == (a >> (128 - cidr) as u128)),
        _ => false,
    }
}

/// Decides `range_contains(net, cidr, addr)`.
pub fn contains(net: IpAddr, cidr: u8, addr: IpAddr) -> (r: bool)
    ensures
        r == range_contains(net, cidr, addr),
{
    match (net, addr) {
        (IpAddr::V4(n), IpAddr::V4(a)) => {
            if cidr > 32 {
                false
            } else if cidr == 0 {
                true
            } else {
                let s: u32 = (32 - cidr) as u32;
                (n >> s) == (a >> s)
            }
        },
        (IpAddr::V6(n), IpAddr::V6(a)) => {
            if cidr > 128 {
                false
            } else if cidr == 0 {
                true
            } else {
                let s: u128 = (128 - cidr) as u128;
                (n >> s) == (a >> s)
            }
        },
        _ => false,
    }
}

/// The first address of the range `addr/cidr`: `addr` with every bit after
/// the first `cidr` cleared.
pub open spec fn net_addr(addr: IpAddr, cidr: u8) -> IpAddr {
    match addr {
        IpAddr::V4(a) => IpAddr::V4(
            if cidr == 0 {
                0
            } else if cidr > 32 {
                a
            } else {
                (a >> (32 - cidr) as u32) << (32 - cidr) as u32
            },
        ),
        IpAddr::V6(a) => IpAddr::V6(
            if cidr == 0 {
                0
            } else if cidr > 128 {
                a
            } else {
                (a >> (128 - cidr) as u128) << (128 - cidr) as u128
            },
        ),
    }
}

/// Computes `net_addr(addr, cidr)`.
pub fn network(addr: IpAddr, cidr: u8) -> (r: IpAddr)
    ensures
        r == net_addr(addr, cidr),
{
    match addr {
        IpAddr::V4(a) => IpAddr::V4(
            if cidr == 0 {
                0
            } else if cidr > 32 {
                a
            } else {
                let s: u32 = (32 - cidr) as u32;
                (a >> s) << s
            },
        ),
        IpAddr::V6(a) => IpAddr::V6(
            if cidr == 0 {
                0
            } else if cidr > 128 {
                a
            } else {
                let s: u128 = (128 - cidr) as u128;
                (a >> s) << s
            },
        ),
    }
}

proof fn lemma_shift_back_u32(a: u32, s: u32)
    requires
        s < 32,
    ensures
        ((a >> s) << s) >> s == a >> s,
{
    assert(((a >> s) << s) >> s == a >> s) by (bit_vector)
        requires
            s < 32,
    ;
}

proof fn lemma_shift_back_u128(a: u128, s: u128)
    requires
        s < 128,
    ensures
        ((a >> s) << s) >> s == a >> s,
{
    assert(((a >> s) << s) >> s == a >> s) by (bit_vector)
        requires
            s < 128,
    ;
}

/// The range that starts at `net_addr(addr, cidr)` is the range of `addr`:
/// it holds the same addresses, and clearing its host bits again changes
/// nothing.
pub proof fn lemma_net_addr(addr: IpAddr, cidr: u8)
    requires
        cidr as nat <= addr.width(),
    ensures
        net_addr(addr, cidr).width() == addr.width(),
        range_contains(addr, cidr, addr),
        range_contains(net_addr(addr, cidr), cidr, addr),
        net_addr(net_addr(addr, cidr), cidr) == net_addr(addr, cidr),
        forall|x: IpAddr|
            range_contains(net_addr(addr, cidr), cidr, x) == #[trigger] range_contains(addr, cidr, x),
{
    if cidr > 0 {
        match addr {
            IpAddr::V4(a) => lemma_shift_back_u32(a, (32 - cidr) as u32),
            IpAddr::V6(a) => lemma_shift_back_u128(a, (128 - cidr) as u128),
        }
    }
}

/// Two addresses whose first `cidr` bits agree have one network address.
pub proof fn lemma_same_prefix_net_addr(a: IpAddr, b: IpAddr, cidr: u8)
    requires
        range_contains(a, cidr, b),
    ensures
        net_addr(a, cidr) == net_addr(b, cidr),
{
}

} // verus!
