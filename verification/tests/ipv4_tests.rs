use vpn_router::ipv4::is_ipv4;

#[test]
fn accepts_plain_addresses() {
    assert!(is_ipv4("1.2.3.4"));
    assert!(is_ipv4("0.0.0.0"));
    assert!(is_ipv4("255.255.255.255"));
    assert!(is_ipv4("93.184.216.34"));
    assert!(is_ipv4("11.2.3.4"));
    assert!(is_ipv4("10.0.0.1"));
}

#[test]
fn rejects_out_of_range_octets() {
    assert!(!is_ipv4("256.1.1.1"));
    assert!(!is_ipv4("1.2.3.999"));
    assert!(!is_ipv4("300.300.300.300"));
}

#[test]
fn rejects_leading_zeros() {
    assert!(!is_ipv4("01.2.3.4"));
    assert!(!is_ipv4("1.2.3.04"));
    assert!(!is_ipv4("00.0.0.0"));
}

#[test]
fn rejects_wrong_group_counts() {
    assert!(!is_ipv4("1.2.3"));
    assert!(!is_ipv4("1.2.3.4.5"));
    assert!(!is_ipv4("1.2"));
    assert!(!is_ipv4(""));
    assert!(!is_ipv4("1.2.3."));
    assert!(!is_ipv4(".1.2.3.4"));
    assert!(!is_ipv4("1..2.3"));
}

#[test]
fn rejects_non_digit_text() {
    assert!(!is_ipv4("a.b.c.d"));
    assert!(!is_ipv4("example.com"));
    assert!(!is_ipv4("2606:4700::1"));
    assert!(!is_ipv4("1.2.3.4 "));
    assert!(!is_ipv4(" 1.2.3.4"));
    assert!(!is_ipv4("1.2.3.4x"));
    assert!(!is_ipv4("-1.2.3.4"));
}
