use cerberus_flex_gateway::hash::{hash_pii, normalize_ip};

#[test]
fn hash_pii_is_deterministic() {
    let a = hash_pii("192.168.1.1", "secret");
    let b = hash_pii("192.168.1.1", "secret");
    assert_eq!(a, b);
    assert_eq!(a.len(), 64);
}

#[test]
fn hash_pii_changes_with_secret() {
    let a = hash_pii("192.168.1.1", "secret-1");
    let b = hash_pii("192.168.1.1", "secret-2");
    assert_ne!(a, b);
}

#[test]
fn normalize_strips_ipv6_zone() {
    assert_eq!(normalize_ip("fe80::1%eth0"), "fe80::1");
    assert_eq!(normalize_ip("fe80::1%25en0"), "fe80::1");
}

#[test]
fn normalize_passes_invalid_through() {
    assert_eq!(normalize_ip("not-an-ip"), "not-an-ip");
    assert_eq!(normalize_ip(""), "");
}

#[test]
fn normalize_ipv4_mapped_uses_hex_segments() {
    assert_eq!(normalize_ip("::ffff:192.168.1.1"), "::ffff:c0a8:101");
}

#[test]
fn normalize_compresses_long_form() {
    assert_eq!(
        normalize_ip("0000:0000:0000:0000:0000:0000:0000:0001"),
        "::1"
    );
}
