use boringtun::allowed_ip::{cidr_separator, parse_prefix, prefix_text, AllowedIP};
use boringtun::endpoint::{ConnectError, Endpoint};
use boringtun::ip::{contains, IpAddr, SocketAddr};
use boringtun::peer::Peer;
use boringtun::table::AllowedIps;
use boringtun::transport::{
    check_call, check_family, check_port_query, family_of, received_len, sent_len, Family,
    TransportError,
};

fn v4(a: u8, b: u8, c: u8, d: u8) -> IpAddr {
    IpAddr::V4(u32::from_be_bytes([a, b, c, d]))
}

fn range(addr: IpAddr, cidr: u8) -> AllowedIP {
    AllowedIP { addr, cidr }
}

fn sock(ip: IpAddr, port: u16) -> SocketAddr {
    SocketAddr { ip, port }
}

#[test]
fn parse_v4_range() {
    let r = AllowedIP::parse("10.0.0.0/24", Some(v4(10, 0, 0, 0))).unwrap();
    assert_eq!(r, range(v4(10, 0, 0, 0), 24));
}

#[test]
fn parse_v6_range() {
    let r = AllowedIP::parse("::1/128", Some(IpAddr::V6(1))).unwrap();
    assert_eq!(r, range(IpAddr::V6(1), 128));
}

#[test]
fn parse_rejects_prefix_too_long() {
    assert!(AllowedIP::parse("10.0.0.0/33", Some(v4(10, 0, 0, 0))).is_err());
    assert!(AllowedIP::parse("::1/129", Some(IpAddr::V6(1))).is_err());
}

#[test]
fn parse_rejects_missing_slash() {
    assert!(AllowedIP::parse("10.0.0.0", Some(v4(10, 0, 0, 0))).is_err());
}

#[test]
fn parse_rejects_two_slashes() {
    assert!(AllowedIP::parse("10.0.0.0/24/5", Some(v4(10, 0, 0, 0))).is_err());
}

#[test]
fn parse_rejects_bad_address() {
    assert!(AllowedIP::parse("not-an-ip/24", None).is_err());
}

#[test]
fn parse_error_text() {
    assert_eq!(
        AllowedIP::parse("10.0.0.0", None).unwrap_err(),
        "Invalid IP format".to_string()
    );
}

#[test]
fn separator_position() {
    assert_eq!(cidr_separator(b"10.0.0.0/24"), Some(8));
    assert_eq!(cidr_separator(b"10.0.0.0"), None);
    assert_eq!(cidr_separator(b"a/b/c"), None);
    assert_eq!(cidr_separator(b"/"), Some(0));
}

#[test]
fn prefix_forms() {
    assert_eq!(parse_prefix("24"), Some(24));
    assert_eq!(parse_prefix("+24"), Some(24));
    assert_eq!(parse_prefix("024"), Some(24));
    assert_eq!(parse_prefix("0"), Some(0));
    assert_eq!(parse_prefix("255"), Some(255));
    assert_eq!(parse_prefix("256"), None);
    assert_eq!(parse_prefix("99999999999999999999"), None);
    assert_eq!(parse_prefix(""), None);
    assert_eq!(parse_prefix("+"), None);
    assert_eq!(parse_prefix("-1"), None);
    assert_eq!(parse_prefix("2a"), None);
}

#[test]
fn prefix_rendering() {
    assert_eq!(prefix_text(0), b"0".to_vec());
    assert_eq!(prefix_text(7), b"7".to_vec());
    assert_eq!(prefix_text(24), b"24".to_vec());
    assert_eq!(prefix_text(128), b"128".to_vec());
    assert_eq!(prefix_text(255), b"255".to_vec());
}

#[test]
fn text_round_trip_both_families() {
    for (text, addr, cidr) in [
        ("10.0.0.0", v4(10, 0, 0, 0), 24u8),
        ("::1", IpAddr::V6(1), 128u8),
        ("0.0.0.0", v4(0, 0, 0, 0), 0u8),
    ] {
        let prefix = String::from_utf8(prefix_text(cidr)).unwrap();
        let full = format!("{}/{}", text, prefix);
        let r = AllowedIP::parse(&full, Some(addr)).unwrap();
        assert_eq!(r, range(addr, cidr));
        let back = format!("{}/{}", text, String::from_utf8(prefix_text(r.cidr)).unwrap());
        assert_eq!(back, full);
    }
}

#[test]
fn range_membership() {
    assert!(contains(v4(10, 0, 0, 0), 24, v4(10, 0, 0, 5)));
    assert!(!contains(v4(10, 0, 0, 0), 24, v4(10, 0, 1, 5)));
    assert!(contains(v4(10, 0, 0, 0), 8, v4(10, 200, 1, 5)));
    assert!(contains(v4(1, 2, 3, 4), 0, v4(200, 0, 0, 1)));
    assert!(contains(v4(1, 2, 3, 4), 32, v4(1, 2, 3, 4)));
    assert!(!contains(v4(1, 2, 3, 4), 32, v4(1, 2, 3, 5)));
    assert!(!contains(v4(0, 0, 0, 0), 0, IpAddr::V6(0)));
    assert!(contains(IpAddr::V6(0), 0, IpAddr::V6(u128::MAX)));
    assert!(contains(IpAddr::V6(1), 128, IpAddr::V6(1)));
    assert!(!contains(IpAddr::V6(1), 128, IpAddr::V6(2)));
    assert!(contains(IpAddr::V6(0xfd00u128 << 112), 16, IpAddr::V6((0xfd00u128 << 112) | 7)));
}

#[test]
fn longest_prefix_wins() {
    let t = AllowedIps::from_list(&[range(v4(10, 0, 0, 0), 8), range(v4(10, 0, 0, 0), 24)]);
    assert_eq!(t.find(v4(10, 0, 0, 5)), Some(1));
    assert_eq!(t.find(v4(10, 9, 0, 5)), Some(0));
    assert_eq!(t.find(v4(11, 0, 0, 5)), None);
    let t = AllowedIps::from_list(&[range(v4(10, 0, 0, 0), 24), range(v4(10, 0, 0, 0), 8)]);
    assert_eq!(t.find(v4(10, 0, 0, 5)), Some(0));
}

#[test]
fn insert_keeps_one_entry_per_range() {
    let mut t = AllowedIps::new();
    t.insert(range(v4(10, 0, 0, 0), 24));
    t.insert(range(v4(10, 0, 0, 9), 24));
    t.insert(range(v4(10, 0, 0, 0), 16));
    assert_eq!(
        t.entries(),
        vec![range(v4(10, 0, 0, 0), 24), range(v4(10, 0, 0, 0), 16)]
    );
}

#[test]
fn ranges_are_stored_as_network_addresses() {
    let t = AllowedIps::from_list(&[
        range(v4(10, 0, 0, 5), 24),
        range(v4(192, 168, 7, 9), 0),
        range(v4(1, 2, 3, 4), 32),
        range(IpAddr::V6(0xfd00_0000_0000_0000_0000_0000_0000_1234), 16),
    ]);
    assert_eq!(
        t.entries(),
        vec![
            range(v4(10, 0, 0, 0), 24),
            range(v4(0, 0, 0, 0), 0),
            range(v4(1, 2, 3, 4), 32),
            range(IpAddr::V6(0xfd00u128 << 112), 16),
        ]
    );
}

#[test]
fn add_order_does_not_matter() {
    let mut p = new_peer(&[]);
    let mut q = new_peer(&[]);
    p.add_allowed_ips(&[range(v4(10, 0, 0, 5), 24)]);
    p.add_allowed_ips(&[range(v4(10, 0, 0, 7), 24)]);
    q.add_allowed_ips(&[range(v4(10, 0, 0, 7), 24)]);
    q.add_allowed_ips(&[range(v4(10, 0, 0, 5), 24)]);
    assert_eq!(p.allowed_ips(), vec![range(v4(10, 0, 0, 0), 24)]);
    assert_eq!(q.allowed_ips(), vec![range(v4(10, 0, 0, 0), 24)]);
}

#[test]
fn adding_twice_is_adding_once() {
    let list = [range(v4(10, 1, 0, 0), 16), range(IpAddr::V6(5), 120)];
    let mut p = new_peer(&list);
    let once = p.allowed_ips();
    p.add_allowed_ips(&list);
    assert_eq!(p.allowed_ips(), once);
    assert_eq!(once.len(), 2);
}

fn new_peer(allowed: &[AllowedIP]) -> Peer<u32> {
    Peer::new(7, None, allowed, None)
}

#[test]
fn peer_allowed_ips() {
    let mut p = new_peer(&[range(v4(10, 0, 0, 0), 24)]);
    assert!(p.is_allowed_ip(v4(10, 0, 0, 5)));
    assert!(!p.is_allowed_ip(v4(10, 0, 1, 5)));
    p.add_allowed_ips(&[range(IpAddr::V6(0), 0)]);
    assert!(p.is_allowed_ip(IpAddr::V6(12345)));
    assert!(p.is_allowed_ip(v4(10, 0, 0, 5)));
    assert_eq!(p.allowed_ips().len(), 2);
}

#[test]
fn set_allowed_ips_replaces() {
    let mut p = new_peer(&[]);
    p.set_allowed_ips(&[range(v4(10, 0, 0, 0), 24)]);
    assert!(p.is_allowed_ip(v4(10, 0, 0, 5)));
    p.set_allowed_ips(&[range(v4(192, 168, 0, 0), 16)]);
    assert!(!p.is_allowed_ip(v4(10, 0, 0, 5)));
    assert!(p.is_allowed_ip(v4(192, 168, 3, 4)));
    assert_eq!(p.allowed_ips(), vec![range(v4(192, 168, 0, 0), 16)]);
}

#[test]
fn set_endpoint_same_address_keeps_transport() {
    let a = sock(v4(1, 2, 3, 4), 51820);
    let mut p: Peer<u32> = Peer::new(1, Some(a), &[], None);
    assert_eq!(p.connect_endpoint(), Ok(a));
    p.attach_endpoint(99);
    assert_eq!(p.set_endpoint(a), None);
    assert_eq!(p.set_endpoint(a), None);
    assert_eq!(p.endpoint().conn, Some(99));
    assert_eq!(p.endpoint().addr, Some(a));
}

#[test]
fn set_endpoint_new_address_clears_transport() {
    let a = sock(v4(1, 2, 3, 4), 51820);
    let b = sock(v4(1, 2, 3, 4), 51821);
    let mut p: Peer<u32> = Peer::new(1, Some(a), &[], None);
    p.attach_endpoint(99);
    assert_eq!(p.set_endpoint(b), Some(99));
    assert_eq!(p.endpoint().conn, None);
    assert_eq!(p.endpoint().addr, Some(b));
    assert_eq!(p.set_endpoint(a), None);
}

#[test]
fn connect_twice_is_refused() {
    let a = sock(IpAddr::V6(1), 443);
    let mut p: Peer<u32> = Peer::new(1, Some(a), &[], None);
    assert_eq!(p.connect_endpoint(), Ok(a));
    p.attach_endpoint(5);
    assert_eq!(p.connect_endpoint(), Err(ConnectError::AlreadyConnected));
    assert_eq!(p.endpoint().conn, Some(5));
}

#[test]
fn connect_without_address() {
    let p: Peer<u32> = new_peer(&[]);
    assert_eq!(p.connect_endpoint(), Err(ConnectError::NoAddress));
}

#[test]
fn shutdown_keeps_address() {
    let a = sock(v4(8, 8, 8, 8), 53);
    let mut p: Peer<u32> = Peer::new(1, Some(a), &[], None);
    assert_eq!(p.shutdown_endpoint(), None);
    p.attach_endpoint(3);
    assert_eq!(p.shutdown_endpoint(), Some(3));
    assert_eq!(p.endpoint().addr, Some(a));
    assert_eq!(p.connect_endpoint(), Ok(a));
}

#[test]
fn endpoint_default_state() {
    let e: Endpoint<u32> = Endpoint::new(None);
    assert_eq!(e.addr, None);
    assert_eq!(e.conn, None);
}

#[test]
fn preshared_key_and_index() {
    let mut p = new_peer(&[]);
    assert_eq!(p.index(), 7);
    assert_eq!(p.preshared_key(), None);
    p.set_preshared_key([1u8; 32]);
    assert_eq!(p.preshared_key(), Some([1u8; 32]));
    p.set_preshared_key([2u8; 32]);
    assert_eq!(p.preshared_key(), Some([2u8; 32]));
    assert_eq!(p.index(), 7);
}

#[test]
fn transport_family_checks() {
    let a4 = sock(v4(1, 1, 1, 1), 1);
    let a6 = sock(IpAddr::V6(1), 1);
    assert_eq!(family_of(&a4), Family::V4);
    assert_eq!(family_of(&a6), Family::V6);
    assert_eq!(check_family(Family::V4, &a4), Ok(()));
    assert_eq!(check_family(Family::V4, &a6), Err(TransportError::FamilyMismatch));
    assert_eq!(check_family(Family::V6, &a4), Err(TransportError::FamilyMismatch));
    assert_eq!(check_port_query(Family::V4), Ok(()));
    assert_eq!(check_port_query(Family::V6), Err(TransportError::NotIpv4));
}

#[test]
fn transport_results() {
    assert_eq!(sent_len(-1), 0);
    assert_eq!(sent_len(42), 42);
    assert_eq!(received_len(-1, 11, 100), Err(TransportError::UDPRead(11)));
    assert_eq!(received_len(17, 11, 100), Ok(17));
    assert_eq!(received_len(0, 0, 0), Ok(0));
    assert_eq!(check_call(-1, TransportError::Bind(98)), Err(TransportError::Bind(98)));
    assert_eq!(check_call(0, TransportError::Bind(98)), Ok(()));
    assert_eq!(check_call(5, TransportError::Socket(1)), Ok(()));
}
