use chat_lib::address::{host_from_match, validate_host, validate_port};
use chat_lib::ChatError;

#[test]
fn empty_port_becomes_the_default() {
    assert_eq!(validate_port(""), Ok("11111".to_string()));
}

#[test]
fn port_numbers_are_kept_as_typed() {
    for port in ["0", "1", "80", "8080", "11111", "65535", "00080", "+443", "0000065535"] {
        assert_eq!(validate_port(port), Ok(port.to_string()));
    }
}

#[test]
fn other_ports_are_refused() {
    for port in ["65536", "70000", "99999999999999999999", "-1", "+", "8o8o", " 80", "80 ", "1.5", "++1", "٣"] {
        assert_eq!(validate_port(port), Err(ChatError::InvalidPort));
    }
}

#[test]
fn validate_port_agrees_with_the_parser_of_u16() {
    let samples = [
        "", "0", "7", "65535", "65536", "065535", "+0", "+65535", "+65536", "+", "-0", "12a", "a12",
        "1 2", "４２", "000000000000000000000000001", "4294967296", "655350",
    ];
    for port in samples {
        let expected = port.is_empty() || port.parse::<u16>().is_ok();
        assert_eq!(validate_port(port).is_ok(), expected);
    }
}

#[test]
fn dotted_addresses_are_kept_as_typed() {
    for host in ["127.0.0.1", "0.0.0.0", "255.255.255.255", "192.168.1.20", "1.2.3.4", "01.02.03.004", "249.199.99.9"] {
        assert_eq!(validate_host(host), Ok(host.to_string()));
    }
}

#[test]
fn empty_host_becomes_the_default() {
    assert_eq!(validate_host(""), Ok("127.0.0.1".to_string()));
}

#[test]
fn other_hosts_are_refused() {
    let hosts = [
        "256.1.1.1", "1.2.3", "1.2.3.4.5", "localhost", " 1.2.3.4", "1.2.3.4 ", "1.2.3.4\n", "1..2.3",
        "1.2.3.", ".1.2.3", "300.0.0.1", "1.2.3.4a", "1234.1.1.1", "::1", "1,2,3,4", "١.٢.٣.٤",
    ];
    for host in hosts {
        assert_eq!(validate_host(host), Err(ChatError::InvalidHost));
    }
}

#[test]
fn host_follows_what_the_pattern_said() {
    assert_eq!(host_from_match("anything", Some(true)), Ok("anything".to_string()));
    assert_eq!(host_from_match("", Some(true)), Ok(String::new()));
    assert_eq!(host_from_match("", Some(false)), Ok("127.0.0.1".to_string()));
    assert_eq!(host_from_match("1.2.3.4", Some(false)), Err(ChatError::InvalidHost));
    assert_eq!(host_from_match("1.2.3.4", None), Err(ChatError::InvalidPattern));
    assert_eq!(host_from_match("", None), Err(ChatError::InvalidPattern));
}
