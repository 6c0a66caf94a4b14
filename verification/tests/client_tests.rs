use spc_mqtt::client::{extract_session_token, FetchAction, FetchEvent, FetchPhase, SpcSession};
use spc_mqtt::config::Credentials;

#[test]
fn session_token_extraction() {
    assert_eq!(
        extract_session_token(r#"<a href="secure.htm?session=0x1A2B&page=x">"#),
        Some("0x1A2B".to_string())
    );
    assert_eq!(extract_session_token("session=abc"), Some("abc".to_string()));
    assert_eq!(extract_session_token("session=abc def"), Some("abc".to_string()));
    assert_eq!(extract_session_token("session=<b>"), None);
    assert_eq!(extract_session_token("no token"), None);
}

fn session() -> SpcSession {
    let creds = Credentials { login: "user".into(), password: "pw".into() };
    SpcSession::new("https://panel.local//", &creds)
}

#[test]
fn urls_and_bodies() {
    let mut s = session();
    assert_eq!(s.base_url, "https://panel.local");
    assert!(s.needs_login());
    assert_eq!(s.login_url(), "https://panel.local/login.htm?action=login&language=0");
    assert_eq!(s.login_body(), "userid=user&password=pw");
    assert_eq!(s.page_url("status_zones"), None);
    assert_eq!(
        s.accept_login("<html>no token</html>"),
        Err("no session token found in login response".to_string())
    );
    assert!(s.needs_login());
    assert_eq!(s.accept_login(r#"<a href="x?session=0xFF">"#), Ok(()));
    assert!(!s.needs_login());
    assert_eq!(
        s.page_url("status_zones").unwrap(),
        "https://panel.local/secure.htm?session=0xFF&page=status_zones"
    );
    assert_eq!(
        s.command_url("system_summary").unwrap(),
        "https://panel.local/secure.htm?session=0xFF&page=system_summary&action=update"
    );
    assert_eq!(SpcSession::command_body("fullset_area1"), "fullset_area1=");
    s.invalidate();
    assert!(s.needs_login());
}

#[test]
fn response_classification() {
    assert!(SpcSession::response_needs_login(403, "session=1"));
    assert!(SpcSession::response_needs_login(200, "<html>login</html>"));
    assert!(!SpcSession::response_needs_login(200, "a?session=1"));
    assert!(SpcSession::command_accepted(200));
    assert!(SpcSession::command_accepted(302));
    assert!(!SpcSession::command_accepted(404));
    assert!(!SpcSession::command_accepted(500));
}

#[test]
fn fetch_steps_with_expired_session() {
    let mut s = session();
    // no session: log in first
    let (p, a) = s.fetch_step(FetchPhase::Start, "status_zones", FetchEvent::Begin);
    assert_eq!(p, FetchPhase::Start);
    assert!(matches!(a, FetchAction::Login));
    s.accept_login("session=0x1&").unwrap();
    let (p, a) = s.fetch_step(p, "status_zones", FetchEvent::LoggedIn);
    assert_eq!(p, FetchPhase::Requested);
    match a {
        FetchAction::Get(url) => assert_eq!(url, "https://panel.local/secure.htm?session=0x1&page=status_zones"),
        other => panic!("{other:?}"),
    }
    // the login page comes back: forget the session and log in again
    let (p, a) = s.fetch_step(p, "status_zones", FetchEvent::Response { status: 200, html: "login".into() });
    assert_eq!(p, FetchPhase::Relogin);
    assert!(matches!(a, FetchAction::Login));
    assert!(s.needs_login());
    s.accept_login("session=0x2\"").unwrap();
    let (p, a) = s.fetch_step(p, "status_zones", FetchEvent::LoggedIn);
    assert_eq!(p, FetchPhase::Retried);
    match a {
        FetchAction::Get(url) => assert_eq!(url, "https://panel.local/secure.htm?session=0x2&page=status_zones"),
        other => panic!("{other:?}"),
    }
    // the retry's page is the result, whatever it holds
    let (p, a) = s.fetch_step(p, "status_zones", FetchEvent::Response { status: 200, html: "still login".into() });
    assert_eq!(p, FetchPhase::Done);
    assert!(matches!(a, FetchAction::Finish));
}

#[test]
fn fetch_steps_with_valid_session() {
    let mut s = session();
    s.accept_login("session=0x9&").unwrap();
    let (p, a) = s.fetch_step(FetchPhase::Start, "x", FetchEvent::Begin);
    assert_eq!(p, FetchPhase::Requested);
    assert!(matches!(a, FetchAction::Get(_)));
    let (p, a) = s.fetch_step(p, "x", FetchEvent::Response { status: 200, html: "a?session=0x9".into() });
    assert_eq!(p, FetchPhase::Done);
    assert!(matches!(a, FetchAction::Finish));
    assert!(!s.needs_login());
    let (_, a) = s.fetch_step(FetchPhase::Done, "x", FetchEvent::Begin);
    assert!(matches!(a, FetchAction::Invalid));
}
