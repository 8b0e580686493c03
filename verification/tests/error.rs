use releasible::ansible::AnsibleError;

fn request_error() -> reqwest::Error {
    reqwest::Client::new().get("not a url").build().unwrap_err()
}

#[test]
fn parse_error_carries_the_input() {
    let e = AnsibleError::parse_error("2.10.3foo1".to_string());
    assert!(e.is_parse_error());
    assert!(!e.is_no_version_found());
    assert!(!e.is_reqwest_error());
    assert_eq!(e.get_parse_error(), Some("2.10.3foo1".to_string()));
    assert_eq!(e.to_string(), "Failed to parse: 2.10.3foo1");
    assert_eq!(AnsibleError::parse_error("".to_string()).to_string(), "Failed to parse: ");
}

#[test]
fn no_version_found() {
    let e = AnsibleError::NoVersionFound;
    assert!(e.is_no_version_found());
    assert!(!e.is_parse_error());
    assert!(!e.is_reqwest_error());
    assert_eq!(e.get_parse_error(), None);
    assert_eq!(e.to_string(), "No such version(s) found");
}

#[test]
fn reqwest_error_is_carried() {
    let text = request_error().to_string();
    let e = AnsibleError::from(request_error());
    assert!(e.is_reqwest_error());
    assert!(!e.is_parse_error());
    assert!(!e.is_no_version_found());
    assert_eq!(e.get_parse_error(), None);
    assert_eq!(e.to_string(), format!("HTTP (Reqwest) error: {}", text));
    match e {
        AnsibleError::ReqwestError(inner) => assert!(inner.is_builder()),
        _ => panic!("the error of the request is gone"),
    }
}

#[test]
fn errors_compare() {
    let parse = |text: &str| AnsibleError::parse_error(text.to_string());
    assert_eq!(parse("a"), parse("a"));
    assert_ne!(parse("a"), parse("b"));
    assert_ne!(parse("a"), parse(""));
    assert_eq!(AnsibleError::NoVersionFound, AnsibleError::NoVersionFound);
    assert_ne!(parse("a"), AnsibleError::NoVersionFound);
    assert_ne!(AnsibleError::NoVersionFound, parse("No such version(s) found"));
    assert_ne!(AnsibleError::from(request_error()), AnsibleError::NoVersionFound);
    assert_ne!(AnsibleError::from(request_error()), parse("a"));
    // Nothing is known of two failed requests: they do not compare equal.
    assert_ne!(AnsibleError::from(request_error()), AnsibleError::from(request_error()));
}
