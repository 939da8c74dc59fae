use cerberus_flex_gateway::source_ip::strip_port;

#[test]
fn strips_ipv4_port() {
    assert_eq!(strip_port("1.2.3.4:5678"), "1.2.3.4");
}

#[test]
fn strips_ipv6_bracketed_port() {
    assert_eq!(strip_port("[::1]:5678"), "::1");
    assert_eq!(strip_port("[fe80::1]:443"), "fe80::1");
}

#[test]
fn passes_through_no_port() {
    assert_eq!(strip_port("1.2.3.4"), "1.2.3.4");
    assert_eq!(strip_port("fe80::1"), "fe80::1");
}
