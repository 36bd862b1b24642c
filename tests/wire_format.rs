use boringtun::ip::{IpAddr, SocketAddr};
use boringtun::transport::Family;
use boringtun::wire::{be_bytes, decode, encode, from_be_bytes};

#[test]
fn encode_v4_address() {
    let a = SocketAddr { ip: IpAddr::V4(0x0102_0304), port: 51820 };
    let w = encode(&a);
    assert_eq!(w.family, Family::V4);
    assert_eq!(w.ip, vec![1, 2, 3, 4]);
    assert_eq!(w.port, vec![0xca, 0x6c]);
}

#[test]
fn encode_v6_address() {
    let a = SocketAddr { ip: IpAddr::V6(1), port: 443 };
    let w = encode(&a);
    assert_eq!(w.family, Family::V6);
    let mut ip = vec![0u8; 15];
    ip.push(1);
    assert_eq!(w.ip, ip);
    assert_eq!(w.port, vec![0x01, 0xbb]);
}

#[test]
fn decode_reported_addresses() {
    let a = decode(Family::V4, &[10, 0, 0, 5], &[0x00, 0x35]);
    assert_eq!(a, SocketAddr { ip: IpAddr::V4(0x0a00_0005), port: 53 });
    let mut ip = [0u8; 16];
    ip[0] = 0xfd;
    ip[15] = 0x01;
    let b = decode(Family::V6, &ip, &[0xff, 0xff]);
    assert_eq!(b, SocketAddr { ip: IpAddr::V6((0xfdu128 << 120) | 1), port: 65535 });
}

#[test]
fn wire_round_trip() {
    for a in [
        SocketAddr { ip: IpAddr::V4(0), port: 0 },
        SocketAddr { ip: IpAddr::V4(u32::MAX), port: u16::MAX },
        SocketAddr { ip: IpAddr::V6(u128::MAX), port: 1 },
        SocketAddr { ip: IpAddr::V6(0x2001_0db8 << 96), port: 8080 },
    ] {
        let w = encode(&a);
        assert_eq!(decode(w.family, &w.ip, &w.port), a);
    }
}

#[test]
fn big_endian_bytes() {
    assert_eq!(be_bytes(0x0102, 2), vec![1, 2]);
    assert_eq!(be_bytes(0x0102, 1), vec![2]);
    assert_eq!(be_bytes(0x1234_5678, 0), Vec::<u8>::new());
    assert_eq!(from_be_bytes(&[1, 2, 3, 4]), 0x0102_0304);
    assert_eq!(from_be_bytes(&[]), 0);
    assert_eq!(from_be_bytes(&[0xff; 16]), u128::MAX);
}
