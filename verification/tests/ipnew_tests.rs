use libs_tools::ipnew::{mc_scope_reserved, mc_scope_unassigned, to_ipv4_new};

fn octets(s: &str) -> [u8; 16] {
    let mut o = [0u8; 16];
    match s {
        "::ffff:1.2.3.4" => o[10..].copy_from_slice(&[0xff, 0xff, 1, 2, 3, 4]),
        "::1.2.3.4" => o[12..].copy_from_slice(&[1, 2, 3, 4]),
        "::1" => o[15] = 1,
        "1::ffff:1.2.3.4" => {
            o[1] = 1;
            o[10..].copy_from_slice(&[0xff, 0xff, 1, 2, 3, 4]);
        }
        "2001:db8::" => o[..4].copy_from_slice(&[0x20, 0x01, 0x0d, 0xb8]),
        "fe80::" => o[..2].copy_from_slice(&[0xfe, 0x80]),
        m => {
            let first = u16::from_str_radix(m.split(':').next().unwrap(), 16).unwrap();
            o[0] = (first >> 8) as u8;
            o[1] = (first & 0xff) as u8;
            o[15] = 1;
        }
    }
    o
}

#[test]
fn only_mapped_addresses_convert() {
    assert_eq!(to_ipv4_new(octets("::ffff:1.2.3.4")), Some([1, 2, 3, 4]));
    assert_eq!(to_ipv4_new(octets("::1.2.3.4")), None);
    assert_eq!(to_ipv4_new(octets("::1")), None);
    assert_eq!(to_ipv4_new(octets("1::ffff:1.2.3.4")), None);
}

#[test]
fn reserved_scopes_are_zero_and_fifteen() {
    assert!(mc_scope_reserved(octets("ff00::1")));
    assert!(mc_scope_reserved(octets("ff1f::1")));
    assert!(!mc_scope_reserved(octets("ff02::1")));
    assert!(!mc_scope_reserved(octets("fe80::")));
}

#[test]
fn unassigned_scopes() {
    assert!(mc_scope_unassigned(octets("ff06::1")));
    assert!(mc_scope_unassigned(octets("ff0d::1")));
    assert!(!mc_scope_unassigned(octets("ff05::1")));
    assert!(!mc_scope_unassigned(octets("ff08::1")));
    assert!(!mc_scope_unassigned(octets("ff0e::1")));
    assert!(!mc_scope_unassigned(octets("ff00::1")));
    assert!(!mc_scope_unassigned(octets("2001:db8::")));
}
