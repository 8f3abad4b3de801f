use nimbus_rendezvous::socket_client::{
    check_port, increase_port, ipv4_to_ipv6, is_ip_str, is_ipv4_str, is_ipv6_str,
};

#[test]
fn test_check_port() {
    assert_eq!(check_port("[1:2]:12", 32), "[1:2]:12");
    assert_eq!(check_port("1:2", 32), "[1:2]:32");
    assert_eq!(check_port("z1:2", 32), "z1:2");
    assert_eq!(check_port("1.1.1.1", 32), "1.1.1.1:32");
    assert_eq!(check_port("1.1.1.1:32", 32), "1.1.1.1:32");
    assert_eq!(check_port("test.com:32", 0), "test.com:32");
    assert_eq!(increase_port("[1:2]:12", 1), "[1:2]:13");
    assert_eq!(increase_port("1.2.2.4:12", 1), "1.2.2.4:13");
    assert_eq!(increase_port("1.2.2.4", 1), "1.2.2.4");
    assert_eq!(increase_port("test.com", 1), "test.com");
    assert_eq!(increase_port("test.com:13", 4), "test.com:17");
    assert_eq!(increase_port("1:13", 4), "1:13");
    assert_eq!(increase_port("22:1:13", 4), "22:1:13");
    assert_eq!(increase_port("z1:2", 1), "z1:3");
}

#[test]
fn test_nat64() {
    assert_eq!(ipv4_to_ipv6("1.1.1.1".to_owned(), true), "1.1.1.1");
    assert_eq!(ipv4_to_ipv6("1.1.1.1".to_owned(), false), "1.1.1.1.nip.io");
    assert_eq!(
        ipv4_to_ipv6("1.1.1.1:8080".to_owned(), false),
        "1.1.1.1.nip.io:8080"
    );
    assert_eq!(
        ipv4_to_ipv6("rustdesk.com".to_owned(), false),
        "rustdesk.com"
    );
}

#[test]
fn ipv4_recognizer() {
    assert!(is_ipv4_str("0.0.0.0"));
    assert!(is_ipv4_str("255.255.255.255"));
    assert!(is_ipv4_str("192.168.0.1:8080"));
    assert!(is_ipv4_str("019.001.2.3"));
    assert!(!is_ipv4_str("256.1.1.1"));
    assert!(!is_ipv4_str("1.1.1"));
    assert!(!is_ipv4_str("1.1.1.1.1"));
    assert!(!is_ipv4_str("1.1.1.1:"));
    assert!(!is_ipv4_str("1.1.1.1234"));
    assert!(!is_ipv4_str(""));
    assert!(!is_ipv4_str("a.b.c.d"));
}

#[test]
fn ipv6_recognizer() {
    assert!(is_ipv6_str("1:2"));
    assert!(is_ipv6_str("fe80::1"));
    assert!(is_ipv6_str("2001:db8:0:1:1:1:1:1"));
    assert!(is_ipv6_str("[1:2]:12"));
    assert!(is_ipv6_str("[fe80::1]:443"));
    assert!(!is_ipv6_str("1"));
    assert!(!is_ipv6_str("1:::2"));
    assert!(!is_ipv6_str("12345:1"));
    assert!(!is_ipv6_str("[1:2]"));
    assert!(!is_ipv6_str("[1:2]:"));
    assert!(!is_ipv6_str("z1:2"));
    assert!(!is_ipv6_str(""));
}

#[test]
fn ip_str_either_family() {
    assert!(is_ip_str("10.0.0.1"));
    assert!(is_ip_str("fe80::1"));
    assert!(!is_ip_str("example.org"));
}
