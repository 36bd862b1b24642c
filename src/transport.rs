use vstd::prelude::*;
use crate::ip::{IpAddr, SocketAddr};

verus! {

/// The address family of a UDP socket.
#[derive(Clone, Copy, Debug, PartialEq, Eq, Structural)]
pub enum Family {
    V4,
    V6,
}

pub open spec fn spec_family_of(addr: SocketAddr) -> Family {
    match addr.ip {
        IpAddr::V4(_) => Family::V4,
        IpAddr::V6(_) => Family::V6,
    }
}

/// The failures of the transport layer. Each platform failure carries the
/// error number that the platform reported.
#[derive(Clone, Copy, Debug, PartialEq, Eq, Structural)]
pub enum TransportError {
    Socket(i32),
    Bind(i32),
    Connect(i32),
    FCntl(i32),
    SetSockOpt(i32),
    GetSockName(i32),
    UDPRead(i32),
    /// An address of one family was handed to a socket of the other.
    FamilyMismatch,
    /// The local port was asked of a socket that is not IPv4.
    NotIpv4,
}

/// The family of socket that can reach `addr`.
pub fn family_of(addr: &SocketAddr) -> (r: Family)
    ensures
        r == spec_family_of(*addr),
{
    match addr.ip {
        IpAddr::V4(_) => Family::V4,
        IpAddr::V6(_) => Family::V6,
    }
}

/// Whether a socket of family `family` may connect or send to `dst`.
pub fn check_family(family: Family, dst: &SocketAddr) -> (r: Result<(), TransportError>)
    ensures
        r is Ok <==> family == spec_family_of(*dst),
        r is Err ==> r == Err::<(), TransportError>(TransportError::FamilyMismatch),
{
    if family == family_of(dst) {
        Ok(())
    } else {
        Err(TransportError::FamilyMismatch)
    }
}

/// Whether the local port may be asked of a socket of family `family`:
/// only of an IPv4 one.
pub fn check_port_query(family: Family) -> (r: Result<(), TransportError>)
    ensures
        r is Ok <==> family == Family::V4,
        r is Err ==> r == Err::<(), TransportError>(TransportError::NotIpv4),
{
    match family {
        Family::V4 => Ok(()),
        Family::V6 => Err(TransportError::NotIpv4),
    }
}

/// The number of bytes sent, from what a send call returned: a failure
/// (a negative return) counts as nothing sent.
pub fn sent_len(ret: isize) -> (r: usize)
    ensures
        ret < 0 ==> r == 0,
        ret >= 0 ==> r as int == ret as int,
{
    if ret < 0 {
        0
    } else {
        ret as usize
    }
}

/// The outcome of a receive call into a buffer of `cap` bytes: the number
/// of bytes received, or a read error with the platform's error number.
pub fn received_len(ret: isize, errno: i32, cap: usize) -> (r: Result<usize, TransportError>)
    requires
        ret < 0 || ret as int <= cap as int,
    ensures
        ret < 0 ==> r == Err::<usize, TransportError>(TransportError::UDPRead(errno)),
        ret >= 0 ==> r == Ok::<usize, TransportError>(ret as usize),
{
    if ret < 0 {
        Err(TransportError::UDPRead(errno))
    } else {
        Ok(ret as usize)
    }
}

/// The outcome of a platform call that returns -1 on failure: `Ok` on any
/// other return, else `err`, which carries the error number.
pub fn check_call(ret: i32, err: TransportError) -> (r: Result<(), TransportError>)
    ensures
        ret == -1 ==> r == Err::<(), TransportError>(err),
        ret != -1 ==> r is Ok,
{
    if ret == -1 {
        Err(err)
    } else {
        Ok(())
    }
}

} // verus!
