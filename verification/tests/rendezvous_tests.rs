use hamesh::rendezvous::request_target;

#[test]
fn request_target_defaults_to_port_443() {
    assert_eq!(
        request_target("https://hamesh-stun.blackmidori.com/subscription"),
        Ok(("hamesh-stun.blackmidori.com".to_string(), 443))
    );
    assert_eq!(request_target("HTTPS://example.org:8443/a?b=c"), Ok(("example.org".to_string(), 8443)));
}

#[test]
fn request_target_refuses_other_schemes_and_bad_urls() {
    assert_eq!(request_target("http://example.org/"), Err("uri scheme must be 'https'".to_string()));
    assert_eq!(request_target("/subscription"), Err("uri scheme must be 'https'".to_string()));
    assert!(request_target("https://exa mple.org/").is_err());
    assert!(request_target("").is_err());
}
