use webwatcher::errors::{exit_code, ErrorKind};
use webwatcher::notify::{
    compose_body, email_subject, parse_server, sender_mailbox, should_notify,
};

#[test]
fn server_with_port_is_split_at_colon() {
    let server = parse_server("smtp.example.com:2525").expect("must parse");
    assert_eq!(server.host, "smtp.example.com");
    assert_eq!(server.port, 2525);
}

#[test]
fn server_without_port_gets_default_implicit_tls_port() {
    let server = parse_server("smtp.example.com").expect("must parse");
    assert_eq!(server.host, "smtp.example.com");
    assert_eq!(server.port, 465);
}

#[test]
fn server_is_split_at_last_colon() {
    let server = parse_server("a:b:25").expect("must parse");
    assert_eq!(server.host, "a:b");
    assert_eq!(server.port, 25);
}

#[test]
fn empty_port_is_a_configuration_error() {
    assert_eq!(parse_server("smtp.example.com:").unwrap_err(), ErrorKind::Config);
}

#[test]
fn non_numeric_port_is_a_configuration_error() {
    assert_eq!(parse_server("smtp.example.com:abc").unwrap_err(), ErrorKind::Config);
    assert_eq!(parse_server("smtp.example.com:25a").unwrap_err(), ErrorKind::Config);
    assert_eq!(parse_server("smtp.example.com:-25").unwrap_err(), ErrorKind::Config);
}

#[test]
fn oversized_port_is_a_configuration_error() {
    assert_eq!(parse_server("smtp.example.com:65536").unwrap_err(), ErrorKind::Config);
    assert_eq!(parse_server("smtp.example.com:999999999").unwrap_err(), ErrorKind::Config);
    let server = parse_server("smtp.example.com:65535").expect("must parse");
    assert_eq!(server.port, 65535);
}

#[test]
fn body_lists_urls_joined_by_line_breaks() {
    let urls = vec!["http://a.test".to_string(), "http://b.test".to_string()];
    assert_eq!(compose_body(&urls), "网站地址: http://a.test<br>http://b.test");
}

#[test]
fn body_with_one_url_has_no_line_break() {
    let urls = vec!["http://a.test".to_string()];
    assert_eq!(compose_body(&urls), "网站地址: http://a.test");
}

#[test]
fn subject_is_fixed() {
    assert_eq!(email_subject(), "网站更新提醒");
}

#[test]
fn sender_carries_fixed_display_name() {
    assert_eq!(sender_mailbox("user@example.com"), "web watcher <user@example.com>");
}

#[test]
fn notifier_runs_only_with_changes() {
    assert!(!should_notify(&Vec::new()));
    assert!(should_notify(&vec!["http://a.test".to_string()]));
}

#[test]
fn fetch_failure_exits_with_one() {
    assert_eq!(exit_code(&ErrorKind::Fetch), 1);
}

#[test]
fn fatal_kinds_exit_nonzero_and_delivery_failure_does_not() {
    assert_ne!(exit_code(&ErrorKind::Config), 0);
    assert_ne!(exit_code(&ErrorKind::Store), 0);
    assert_eq!(exit_code(&ErrorKind::Notify), 0);
}
