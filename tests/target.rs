use racedial::target::{has_port_separator, with_default_port};

#[test]
fn host_without_port_gets_the_default() {
    assert_eq!(with_default_port("example.org"), "example.org:22");
}

#[test]
fn host_with_port_is_kept() {
    assert_eq!(with_default_port("10.0.0.1:2222"), "10.0.0.1:2222");
    assert!(has_port_separator("a:1"));
    assert!(!has_port_separator("a"));
}
