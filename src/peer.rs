use vstd::prelude::*;
use crate::ip::{IpAddr, SocketAddr};
use crate::allowed_ip::AllowedIP;
use crate::table::{AllowedIps, all_wf, allows, insert_ranges, table_wf, canon_of_some, lemma_insert_ranges};
use crate::endpoint::{Endpoint, ConnectError, after_set, connect_outcome};

verus! {

/// The state that a tunnel keeps for one remote peer: its index, its
/// endpoint, the ranges it may carry and its pre-shared key. The transport
/// type `T` is the caller's shared socket handle.
pub struct Peer<T> {
    index: u32,
    endpoint: Endpoint<T>,
    allowed_ips: AllowedIps,
    preshared_key: Option<[u8; 32]>,
}

impl<T> Peer<T> {
    pub closed spec fn spec_index(&self) -> u32 {
        self.index
    }

    pub closed spec fn spec_endpoint(&self) -> Endpoint<T> {
        self.endpoint
    }

    pub closed spec fn spec_allowed_ips(&self) -> Seq<AllowedIP> {
        self.allowed_ips@
    }

    pub closed spec fn spec_preshared_key(&self) -> Option<[u8; 32]> {
        self.preshared_key
    }

    /// The allowed ranges are canonical and distinct, and a transport is
    /// present only together with an address.
    pub open spec fn wf(&self) -> bool {
        table_wf(self.spec_allowed_ips()) && self.spec_endpoint().wf()
    }

    /// A peer with the given index, remote address, ranges and key, and no
    /// transport yet.
    pub fn new(
        index: u32,
        endpoint: Option<SocketAddr>,
        allowed_ips: &[AllowedIP],
        preshared_key: Option<[u8; 32]>,
    ) -> (r: Peer<T>)
        requires
            all_wf(allowed_ips@),
        ensures
            r.wf(),
            r.spec_index() == index,
            r.spec_endpoint().addr == endpoint,
            r.spec_endpoint().conn is None,
            r.spec_allowed_ips() == insert_ranges(Seq::empty(), allowed_ips@),
            forall|x: AllowedIP| r.spec_allowed_ips().contains(x) <==> canon_of_some(allowed_ips@, x),
            r.spec_preshared_key() == preshared_key,
    {
        proof {
            lemma_insert_ranges(Seq::empty(), allowed_ips@);
        }
        Peer {
            index,
            endpoint: Endpoint::new(endpoint),
            allowed_ips: AllowedIps::from_list(allowed_ips),
            preshared_key,
        }
    }

    /// The endpoint, for reading.
    pub fn endpoint(&self) -> (r: &Endpoint<T>)
        ensures
            *r == self.spec_endpoint(),
    {
        &self.endpoint
    }

    /// Removes the transport, if any, and hands it back to be shut down.
    pub fn shutdown_endpoint(&mut self) -> (r: Option<T>)
        ensures
            r == old(self).spec_endpoint().conn,
            final(self).spec_endpoint().conn is None,
            final(self).spec_endpoint().addr == old(self).spec_endpoint().addr,
            final(self).spec_index() == old(self).spec_index(),
            final(self).spec_allowed_ips() == old(self).spec_allowed_ips(),
            final(self).spec_preshared_key() == old(self).spec_preshared_key(),
            old(self).wf() ==> final(self).wf(),
    {
        self.endpoint.shutdown()
    }

    /// Moves the endpoint to `addr`; hands back the transport to shut down
    /// where the address changed.
    pub fn set_endpoint(&mut self, addr: SocketAddr) -> (r: Option<T>)
        ensures
            (final(self).spec_endpoint(), r) == after_set(old(self).spec_endpoint(), addr),
            final(self).spec_index() == old(self).spec_index(),
            final(self).spec_allowed_ips() == old(self).spec_allowed_ips(),
            final(self).spec_preshared_key() == old(self).spec_preshared_key(),
            old(self).wf() ==> final(self).wf(),
    {
        self.endpoint.set(addr)
    }

    /// The first step of connecting the endpoint: the address to connect a
    /// new transport to, or why none may be made.
    pub fn connect_endpoint(&self) -> (r: Result<SocketAddr, ConnectError>)
        ensures
            r == connect_outcome(self.spec_endpoint()),
    {
        self.endpoint.connect_target()
    }

    /// The last step of connecting the endpoint: stores the transport that
    /// was connected to the address that `connect_endpoint` gave.
    pub fn attach_endpoint(&mut self, conn: T)
        requires
            connect_outcome(old(self).spec_endpoint()) is Ok,
        ensures
            final(self).spec_endpoint().addr == old(self).spec_endpoint().addr,
            final(self).spec_endpoint().conn == Some(conn),
            final(self).spec_index() == old(self).spec_index(),
            final(self).spec_allowed_ips() == old(self).spec_allowed_ips(),
            final(self).spec_preshared_key() == old(self).spec_preshared_key(),
            old(self).wf() ==> final(self).wf(),
    {
        self.endpoint.attach(conn);
    }

    /// Whether some allowed range holds `addr`, decided by the range with
    /// the longest prefix that holds it.
    pub fn is_allowed_ip(&self, addr: IpAddr) -> (r: bool)
        ensures
            r == allows(self.spec_allowed_ips(), addr),
    {
        self.allowed_ips.contains_addr(addr)
    }

    /// The allowed ranges.
    pub fn allowed_ips(&self) -> (r: Vec<AllowedIP>)
        ensures
            r@ == self.spec_allowed_ips(),
            self.wf() ==> table_wf(r@),
    {
        self.allowed_ips.entries()
    }

    /// Adds each range of `list`; a range already present is overwritten,
    /// the others stay.
    pub fn add_allowed_ips(&mut self, list: &[AllowedIP])
        requires
            old(self).wf(),
            all_wf(list@),
        ensures
            final(self).wf(),
            final(self).spec_allowed_ips() == insert_ranges(old(self).spec_allowed_ips(), list@),
            forall|x: AllowedIP|
                final(self).spec_allowed_ips().contains(x) <==> (old(self).spec_allowed_ips().contains(x)
                    || canon_of_some(list@, x)),
            forall|a: IpAddr|
                allows(final(self).spec_allowed_ips(), a) <==> (allows(old(self).spec_allowed_ips(), a)
                    || allows(list@, a)),
            final(self).spec_endpoint() == old(self).spec_endpoint(),
            final(self).spec_index() == old(self).spec_index(),
            final(self).spec_preshared_key() == old(self).spec_preshared_key(),
    {
        proof {
            lemma_insert_ranges(self.spec_allowed_ips(), list@);
        }
        self.allowed_ips.insert_all(list);
    }

    /// Replaces all allowed ranges by those of `list`.
    pub fn set_allowed_ips(&mut self, list: &[AllowedIP])
        requires
            all_wf(list@),
        ensures
            table_wf(final(self).spec_allowed_ips()),
            old(self).wf() ==> final(self).wf(),
            final(self).spec_allowed_ips() == insert_ranges(Seq::empty(), list@),
            forall|x: AllowedIP| final(self).spec_allowed_ips().contains(x) <==> canon_of_some(list@, x),
            forall|a: IpAddr| allows(final(self).spec_allowed_ips(), a) <==> allows(list@, a),
            final(self).spec_endpoint() == old(self).spec_endpoint(),
            final(self).spec_index() == old(self).spec_index(),
            final(self).spec_preshared_key() == old(self).spec_preshared_key(),
    {
        proof {
            lemma_insert_ranges(Seq::empty(), list@);
        }
        self.allowed_ips.set_all(list);
    }

    pub fn preshared_key(&self) -> (r: Option<[u8; 32]>)
        ensures
            r == self.spec_preshared_key(),
    {
        self.preshared_key
    }

    /// Replaces the pre-shared key.
    pub fn set_preshared_key(&mut self, key: [u8; 32])
        ensures
            final(self).spec_preshared_key() == Some(key),
            final(self).spec_endpoint() == old(self).spec_endpoint(),
            final(self).spec_index() == old(self).spec_index(),
            final(self).spec_allowed_ips() == old(self).spec_allowed_ips(),
            old(self).wf() ==> final(self).wf(),
    {
        self.preshared_key = Some(key);
    }

    pub fn index(&self) -> (r: u32)
        ensures
            r == self.spec_index(),
    {
        self.index
    }
}

} // verus!
