use peerchat::address::{parse_address, render_address, Address, HostAddr};
use peerchat::dec::{encode_decimal, parse_decimal};

fn addr(o0: u8, o1: u8, o2: u8, o3: u8, port: u16) -> Address {
    Address { host: HostAddr { o0, o1, o2, o3 }, port }
}

#[test]
fn decimal_encodes_canonically() {
    assert_eq!(encode_decimal(0), b"0".to_vec());
    assert_eq!(encode_decimal(7), b"7".to_vec());
    assert_eq!(encode_decimal(5000), b"5000".to_vec());
    assert_eq!(encode_decimal(65535), b"65535".to_vec());
}

#[test]
fn decimal_parses_exact_values() {
    assert_eq!(parse_decimal(b"0", 65535), Some(0));
    assert_eq!(parse_decimal(b"5000", 65535), Some(5000));
    assert_eq!(parse_decimal(b"65535", 65535), Some(65535));
    assert_eq!(parse_decimal(b"255", 255), Some(255));
}

#[test]
fn decimal_rejects_noncanonical_and_out_of_range() {
    assert_eq!(parse_decimal(b"", 65535), None);
    assert_eq!(parse_decimal(b"007", 65535), None);
    assert_eq!(parse_decimal(b"0x1", 65535), None);
    assert_eq!(parse_decimal(b"12 ", 65535), None);
    assert_eq!(parse_decimal(b"-1", 65535), None);
    assert_eq!(parse_decimal(b"256", 255), None);
    assert_eq!(parse_decimal(b"65536", 65535), None);
    assert_eq!(parse_decimal(b"99999", 65535), None);
    assert_eq!(parse_decimal(b"123456", 65535), None);
}

#[test]
fn address_renders_as_typed_text() {
    let a = addr(127, 0, 0, 1, 5000);
    assert_eq!(render_address(&a), b"127.0.0.1:5000".to_vec());
    let b = addr(255, 255, 255, 255, 65535);
    assert_eq!(render_address(&b), b"255.255.255.255:65535".to_vec());
    let c = addr(0, 0, 0, 0, 0);
    assert_eq!(render_address(&c), b"0.0.0.0:0".to_vec());
}

#[test]
fn address_parses_the_rendered_text() {
    let a = addr(127, 0, 0, 1, 5000);
    assert_eq!(parse_address(&render_address(&a)), Some(a));
    let b = addr(10, 20, 30, 40, 9999);
    assert_eq!(parse_address(&render_address(&b)), Some(b));
    assert_eq!(parse_address(b"192.168.1.2:8080"), Some(addr(192, 168, 1, 2, 8080)));
}

#[test]
fn address_rejects_malformed_text() {
    assert_eq!(parse_address(b""), None);
    assert_eq!(parse_address(b"127.0.0.1"), None);
    assert_eq!(parse_address(b"127.0.0.1:"), None);
    assert_eq!(parse_address(b":5000"), None);
    assert_eq!(parse_address(b"1.2.3:4"), None);
    assert_eq!(parse_address(b"1.2.3.4.5:6"), None);
    assert_eq!(parse_address(b"256.0.0.1:80"), None);
    assert_eq!(parse_address(b"01.2.3.4:5"), None);
    assert_eq!(parse_address(b"1.2.3.4:070"), None);
    assert_eq!(parse_address(b"1.2.3.4:65536"), None);
    assert_eq!(parse_address(b"1.2.3.4:80x"), None);
    assert_eq!(parse_address(b" 1.2.3.4:80"), None);
    assert_eq!(parse_address(b"1.2.3.4:80 "), None);
    assert_eq!(parse_address(b"localhost:80"), None);
}
