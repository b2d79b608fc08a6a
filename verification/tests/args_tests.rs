use replance::args::{parse_port, resolve, Launch};

fn arg(s: &str) -> Vec<u8> {
    s.as_bytes().to_vec()
}

#[test]
fn no_arguments_prints_usage() {
    assert!(matches!(resolve(vec![]), Launch::Usage));
}

#[test]
fn one_argument_prints_usage() {
    assert!(matches!(resolve(vec![arg("localhost")]), Launch::Usage));
}

#[test]
fn unparsable_port_prints_usage() {
    assert!(matches!(resolve(vec![arg("localhost"), arg("notaport")]), Launch::Usage));
}

#[test]
fn oversized_port_prints_usage() {
    assert!(matches!(resolve(vec![arg("localhost"), arg("70000")]), Launch::Usage));
}

#[test]
fn host_and_port_connect() {
    match resolve(vec![arg("example.com"), arg("8080")]) {
        Launch::Connect { host, port, json } => {
            assert_eq!(host, arg("example.com"));
            assert_eq!(port, 8080);
            assert!(!json);
        }
        Launch::Usage => panic!("expected a connection"),
    }
}

#[test]
fn long_json_flag_is_seen() {
    match resolve(vec![arg("h"), arg("1"), arg("--json")]) {
        Launch::Connect { json, .. } => assert!(json),
        Launch::Usage => panic!("expected a connection"),
    }
}

#[test]
fn short_json_flag_is_seen() {
    match resolve(vec![arg("h"), arg("1"), arg("-j")]) {
        Launch::Connect { json, .. } => assert!(json),
        Launch::Usage => panic!("expected a connection"),
    }
}

#[test]
fn unknown_flags_are_ignored() {
    match resolve(vec![arg("h"), arg("1"), arg("--verbose"), arg("-j"), arg("-x")]) {
        Launch::Connect { json, .. } => assert!(json),
        Launch::Usage => panic!("expected a connection"),
    }
}

#[test]
fn no_flag_means_raw_mode() {
    match resolve(vec![arg("h"), arg("1"), arg("--verbose")]) {
        Launch::Connect { json, .. } => assert!(!json),
        Launch::Usage => panic!("expected a connection"),
    }
}

#[test]
fn port_bounds() {
    assert_eq!(parse_port(&arg("0")), Some(0));
    assert_eq!(parse_port(&arg("65535")), Some(65535));
    assert_eq!(parse_port(&arg("65536")), None);
    assert_eq!(parse_port(&arg("99999999999999999999")), None);
}

#[test]
fn port_leading_zeros_and_plus() {
    assert_eq!(parse_port(&arg("007")), Some(7));
    assert_eq!(parse_port(&arg("+80")), Some(80));
    assert_eq!(parse_port(&arg("000000000000065535")), Some(65535));
}

#[test]
fn port_rejects_non_digits() {
    assert_eq!(parse_port(&arg("")), None);
    assert_eq!(parse_port(&arg("+")), None);
    assert_eq!(parse_port(&arg("8a")), None);
    assert_eq!(parse_port(&arg("-1")), None);
    assert_eq!(parse_port(&arg(" 80")), None);
}

#[test]
fn port_agrees_with_std_parsing() {
    for case in ["0", "65535", "65536", "007", "+80", "", "+", "8a", "-1", " 80", "12 "] {
        assert_eq!(parse_port(&arg(case)), case.parse::<u16>().ok(), "case {case:?}");
    }
}
