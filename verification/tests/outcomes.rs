use heel_gun::outcome::{failure_body_path, OutcomeKind, ServerOutcome};
use heel_gun::target::Method;

fn uri() -> http::Uri {
    "http://h/cool-endpoint/x?id=0".parse().unwrap()
}

#[test]
fn server_errors_are_failures() {
    for status in [500u16, 501, 503, 599] {
        let o = ServerOutcome::with_status(Method::Get, uri(), status);
        assert!(matches!(o.kind, OutcomeKind::BadError { status: s } if s == status));
        assert!(o.kind.is_failure());
        assert_eq!(o.method, Method::Get);
        assert_eq!(o.uri, uri());
    }
}

#[test]
fn other_statuses_are_good() {
    for status in [100u16, 200, 302, 404, 499, 600, 999] {
        let o = ServerOutcome::with_status(Method::Post, uri(), status);
        assert!(matches!(o.kind, OutcomeKind::Good { status: s } if s == status));
        assert!(!o.kind.is_failure());
    }
}

#[test]
fn body_path_layout() {
    assert_eq!(failure_body_path(Method::Get, "/cool-endpoint/x?id=0"), "GET//cool-endpoint/x?id=0");
    assert_eq!(failure_body_path(Method::Post, "/user/a"), "POST//user/a");
}
