use vstd::prelude::*;
use crate::ip::SocketAddr;

verus! {

/// Why a peer's endpoint cannot be connected.
#[derive(Clone, Copy, Debug, PartialEq, Eq, Structural)]
pub enum ConnectError {
    /// A transport is present already: another caller won the race.
    AlreadyConnected,
    /// No remote address is known yet.
    NoAddress,
}

/// A peer's remote address and the transport connected to it, if any. The
/// transport type `T` is a shared handle held by the caller's I/O layer.
pub struct Endpoint<T> {
    pub addr: Option<SocketAddr>,
    pub conn: Option<T>,
}

/// The endpoint after `set_endpoint(addr)`, and the transport that the call
/// hands back to be shut down.
pub open spec fn after_set<T>(e: Endpoint<T>, addr: SocketAddr) -> (Endpoint<T>, Option<T>) {
    if e.addr == Some(addr) {
        (e, None)
    } else {
        (Endpoint { addr: Some(addr), conn: None }, e.conn)
    }
}

/// What `connect_endpoint` decides on `e`: the address to connect to, or
/// why there is none.
pub open spec fn connect_outcome<T>(e: Endpoint<T>) -> Result<SocketAddr, ConnectError> {
    if e.conn is Some {
        Err(ConnectError::AlreadyConnected)
    } else {
        match e.addr {
            Some(a) => Ok(a),
            None => Err(ConnectError::NoAddress),
        }
    }
}

impl<T> Endpoint<T> {
    /// A transport is only ever present together with the address it was
    /// connected to.
    pub open spec fn wf(self) -> bool {
        self.conn is Some ==> self.addr is Some
    }

    /// An endpoint at `addr` without a transport.
    pub fn new(addr: Option<SocketAddr>) -> (r: Endpoint<T>)
        ensures
            r.addr == addr,
            r.conn is None,
    {
        Endpoint { addr, conn: None }
    }

    /// Removes the transport, if any, and hands it back to be shut down. The
    /// address stays, so that a later connection can reuse it.
    pub fn shutdown(&mut self) -> (r: Option<T>)
        ensures
            r == old(self).conn,
            final(self).conn is None,
            final(self).addr == old(self).addr,
    {
        self.conn.take()
    }

    /// Moves the endpoint to `addr`. Where `addr` is the current address
    /// nothing changes; otherwise the transport, if any, is removed and
    /// handed back to be shut down.
    pub fn set(&mut self, addr: SocketAddr) -> (r: Option<T>)
        ensures
            (*final(self), r) == after_set(*old(self), addr),
    {
        let same = match self.addr {
            Some(a) => a == addr,
            None => false,
        };
        if same {
            None
        } else {
            let old_conn = self.conn.take();
            self.addr = Some(addr);
            old_conn
        }
    }

    /// The address to connect to, or why no connection may be made now.
    pub fn connect_target(&self) -> (r: Result<SocketAddr, ConnectError>)
        ensures
            r == connect_outcome(*self),
    {
        if self.conn.is_some() {
            return Err(ConnectError::AlreadyConnected);
        }
        match self.addr {
            Some(a) => Ok(a),
            None => Err(ConnectError::NoAddress),
        }
    }

    /// Stores the transport just connected to the current address.
    pub fn attach(&mut self, conn: T)
        requires
            old(self).conn is None,
            old(self).addr is Some,
        ensures
            final(self).addr == old(self).addr,
            final(self).conn == Some(conn),
    {
        self.conn = Some(conn);
    }
}

/// Setting the same address twice: the second call changes nothing and
/// hands back no transport, so a live transport is never shut down by it.
pub proof fn lemma_set_same_twice<T>(e: Endpoint<T>, addr: SocketAddr)
    ensures
        after_set(after_set(e, addr).0, addr) == (after_set(e, addr).0, None::<T>),
{
}

/// Setting a new address always removes the transport and hands it back.
pub proof fn lemma_set_new_clears<T>(e: Endpoint<T>, addr: SocketAddr)
    requires
        e.addr != Some(addr),
    ensures
        after_set(e, addr).0.conn is None,
        after_set(e, addr).1 == e.conn,
        after_set(e, addr).0.addr == Some(addr),
{
}

/// Once a transport is attached, connecting again is refused as already
/// connected, and the endpoint keeps its transport.
pub proof fn lemma_connect_twice<T>(e: Endpoint<T>, conn: T)
    requires
        connect_outcome(e) is Ok,
    ensures
        connect_outcome(Endpoint { addr: e.addr, conn: Some(conn) }) == Err::<SocketAddr, ConnectError>(
            ConnectError::AlreadyConnected,
        ),
{
}

} // verus!
