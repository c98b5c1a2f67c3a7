use cosmox::sdk::{
    build_page_query, check_status, classify_transport_error, default_page_size, hostname_is_valid,
    http_base_url, QueryValue, SdkError, request_url, DirectApi, HttpApi, IpcApi,
};

#[test]
fn page_size_defaults_to_forty() {
    assert_eq!(default_page_size(), 40);
}

#[test]
fn statuses() {
    assert!(check_status(200).is_ok());
    assert!(check_status(399).is_ok());
    assert!(matches!(check_status(401), Err(SdkError::Unauthenticated)));
    match check_status(404) {
        Err(SdkError::HttpError { status, message }) => {
            assert_eq!(status, 404);
            assert_eq!(message, "HTTP 404");
        }
        other => panic!("unexpected {other:?}"),
    }
}

#[test]
fn transport_errors() {
    assert!(matches!(
        classify_transport_error(true, Some(500), "down".into()),
        SdkError::ConnectionFailed(m) if m == "down"
    ));
    assert!(matches!(
        classify_transport_error(false, Some(401), "no".into()),
        SdkError::Unauthenticated
    ));
    assert!(matches!(
        classify_transport_error(false, Some(502), "bad".into()),
        SdkError::HttpError { status: 502, .. }
    ));
    assert!(matches!(
        classify_transport_error(false, None, "odd".into()),
        SdkError::Internal(m) if m == "odd"
    ));
}

#[test]
fn error_texts() {
    assert_eq!(SdkError::Unauthenticated.to_string(), "Not authenticated");
    assert_eq!(
        SdkError::HttpError { status: 503, message: "HTTP 503".into() }.to_string(),
        "HTTP error (503): HTTP 503"
    );
    assert_eq!(
        SdkError::HttpError { status: -2, message: "x".into() }.to_string(),
        "HTTP error (-2): x"
    );
    assert_eq!(SdkError::ConnectionFailed("refused".into()).to_string(), "Connection failed: refused");
    assert_eq!(SdkError::SerdeError("eof".into()).to_string(), "Serialization error: eof");
    assert_eq!(SdkError::Internal("boom".into()).to_string(), "boom");
}

#[test]
fn page_queries() {
    let params = vec![
        ("page".to_string(), QueryValue::Number("2".to_string())),
        ("page_size".to_string(), QueryValue::Number("40".to_string())),
        ("search".to_string(), QueryValue::Str(String::new())),
        ("sort_by".to_string(), QueryValue::Str("name".to_string())),
        ("status".to_string(), QueryValue::Other),
        ("full".to_string(), QueryValue::Bool(false)),
    ];
    assert_eq!(build_page_query(&params), "?page=2&page_size=40&sort_by=name&full=false");
    assert_eq!(build_page_query(&vec![("x".to_string(), QueryValue::Other)]), "");
    assert_eq!(build_page_query(&vec![]), "");
}

#[test]
fn base_url_and_hostnames() {
    assert_eq!(http_base_url("localhost", 8080), "http://localhost:8080/api");
    assert!(hostname_is_valid("example.org"));
    assert!(hostname_is_valid("127.0.0.1"));
    assert!(hostname_is_valid("[::1]"));
    assert!(!hostname_is_valid(""));
    assert!(!hostname_is_valid("bad host"));
}

#[test]
fn request_urls() {
    assert_eq!(request_url("http://h:1/api", "/tag", ""), "http://h:1/api/tag");
    assert_eq!(request_url("http://h:1/api", "/tag", "page=2"), "http://h:1/api/tag?page=2");
}

#[test]
fn stub_transports_answer_unavailable() {
    let mut d = DirectApi::new("localhost", 1);
    d.set_token("t".to_string());
    assert_eq!(d.get_token(), None);
    assert_eq!(d.unavailable().to_string(), SdkError::Internal("Direct transport not implemented yet".into()).to_string());
    let i = IpcApi::new("localhost", 1);
    assert!(matches!(i.unavailable(), SdkError::Internal(m) if m == "IPC transport not implemented yet"));
}

#[test]
fn http_session_token_follows_login_and_logout() {
    let mut api = HttpApi::new("localhost", 8080);
    assert_eq!(api.base_url, "http://localhost:8080/api");
    assert_eq!(api.get_token(), None);
    assert!(api.login_answered(Ok("t1".to_string())).is_ok());
    assert_eq!(api.get_token(), Some("t1".to_string()));
    let failed = api.login_answered(Err(cosmox::sdk::SdkError::Internal("no".to_string())));
    assert!(failed.is_err());
    assert_eq!(api.get_token(), Some("t1".to_string()));
    api.set_token("t2".to_string());
    assert_eq!(api.get_token(), Some("t2".to_string()));
    api.logout();
    assert_eq!(api.get_token(), None);
}
