use homelab_manager::api::{
    asset_method, asset_path, check_credentials, confirm_password, content_type, login_gate,
    NewPasswordError,
};
use homelab_manager::auth::{digest, hash_password, token, verify, AuthError};
use homelab_manager::model::Credentials;
use homelab_manager::session::{
    csrf_check, safe_method, same_origin, session_cookie, session_token, HeaderText,
    LoginThrottle, SessionStore, CLEARED_SESSION_COOKIE, SESSION_LIFETIME_MS,
};
use homelab_manager::text::{is_blank, trimmed};

fn text(x: &str) -> HeaderText {
    HeaderText::Text(x.to_string())
}

#[test]
fn password_salts_and_database_lock() {
    let first = hash_password("another-test-password").unwrap();
    let second = hash_password("another-test-password").unwrap();
    assert_ne!(first, second);
    assert!(verify("another-test-password", &first));
    assert!(!verify("wrong", &first));
    assert!(hash_password("12345").is_err());
}

#[test]
fn password_length_bounds() {
    assert_eq!(hash_password("12345"), Err(AuthError::PasswordLength));
    assert_eq!(hash_password(&"p".repeat(257)), Err(AuthError::PasswordLength));
    let h = hash_password("123456").unwrap();
    assert!(h.starts_with("$argon2id$v=19$m=19456,t=2,p=1$"));
    assert!(verify("123456", &h));
    assert!(!verify(&"p".repeat(257), &h));
    assert!(!verify("123456", "not a hash"));
    assert_eq!(confirm_password("abcdef", "abcdeg"), Err(NewPasswordError::Mismatch));
    assert_eq!(confirm_password("abc", "abc"), Err(NewPasswordError::Rejected(AuthError::PasswordLength)));
    assert!(verify("abcdefg", &confirm_password("abcdefg", "abcdefg").unwrap()));
}

#[test]
fn tokens_and_digests() {
    let t = token();
    assert_eq!(t.len(), 64);
    assert!(t.chars().all(|c| c.is_ascii_hexdigit() && !c.is_ascii_uppercase()));
    assert_ne!(token(), t);
    assert_eq!(digest(""), "e3b0c44298fc1c149afbf4c8996fb92427ae41e4649b934ca495991b7852b855");
    assert_eq!(digest("abc"), "ba7816bf8f01cfea414140de5dae2223b00361a396177a9cb410ff61f20015ad");
}

#[test]
fn rejects_cross_origin_and_throttles_password_attempts() {
    let evil = same_origin(&HeaderText::Absent, &text("https://evil.example"), &text("localhost:8080"));
    assert!(!evil);
    let mut throttle = LoginThrottle::new();
    let e = login_gate(evil, "admin", "wrong", &mut throttle, 0).unwrap_err();
    assert_eq!(e.status, 403);
    let stored = Credentials {
        username: "admin".to_string(),
        password_hash: hash_password("test-only-password-123").unwrap(),
    };
    for i in 0..5u64 {
        assert!(login_gate(true, "admin", "wrong", &mut throttle, 1000 + i).is_ok());
        assert!(check_credentials(&stored, "admin", "wrong").is_none());
    }
    let e = login_gate(true, "admin", "wrong", &mut throttle, 2000).unwrap_err();
    assert_eq!(e.status, 429);
    assert_eq!(e.message, "Too many login attempts. Wait a minute.");
    assert!(login_gate(true, "admin", "test-only-password-123", &mut throttle, 61_000).is_ok());
    assert_eq!(
        check_credentials(&stored, "admin", "test-only-password-123").as_deref(),
        Some("admin")
    );
    assert!(check_credentials(&stored, "root", "test-only-password-123").is_none());
}

#[test]
fn same_origin_rules() {
    let host = text("localhost:8080");
    assert!(same_origin(&HeaderText::Absent, &HeaderText::Absent, &HeaderText::Absent));
    assert!(same_origin(&HeaderText::Absent, &text("http://localhost:8080"), &host));
    assert!(same_origin(&text("same-origin"), &text("https://localhost:8080"), &host));
    assert!(!same_origin(&text("cross-site"), &HeaderText::Absent, &host));
    assert!(!same_origin(&HeaderText::Absent, &HeaderText::Invalid, &host));
    assert!(!same_origin(&HeaderText::Absent, &text("http://localhost:8080"), &HeaderText::Absent));
}

#[test]
fn session_cookie_and_lookup() {
    let mut store = SessionStore::new();
    let (t, csrf) = store.open_session(5);
    let cookie = session_cookie(&t, false);
    assert_eq!(cookie, format!("homelab_session={t}; Path=/; HttpOnly; SameSite=Strict; Max-Age=28800"));
    assert!(session_cookie(&t, true).ends_with("; Secure"));
    let header = text(&format!("theme=dark; homelab_session={t}"));
    assert_eq!(session_token(&format!("theme=dark; homelab_session={t}")), Some(t.clone()));
    assert_eq!(store.session_csrf(&header, 10).as_deref(), Some(csrf.as_str()));
    assert_eq!(store.session_csrf(&header, 5 + SESSION_LIFETIME_MS), None);
    assert_eq!(store.len(), 0);
    let (t2, _) = store.open_session(100);
    let header2 = text(&format!("homelab_session={t2}"));
    store.close_session(&header2);
    assert_eq!(store.session_csrf(&header2, 101), None);
    assert_eq!(session_token("other=1"), None);
    assert_eq!(session_token(""), None);
    assert!(CLEARED_SESSION_COOKIE.contains("Max-Age=0"));
}

#[test]
fn at_most_thirty_two_sessions() {
    let mut store = SessionStore::new();
    let mut first = None;
    for i in 0..32u64 {
        let (t, _) = store.open_session(i);
        if first.is_none() {
            first = Some(t);
        }
    }
    assert_eq!(store.len(), 32);
    let header = text(&format!("homelab_session={}", first.unwrap()));
    assert!(store.session_csrf(&header, 40).is_some());
    store.open_session(41);
    assert_eq!(store.len(), 1);
    assert!(store.session_csrf(&header, 42).is_none());
}

#[test]
fn csrf_rules() {
    assert!(safe_method("GET") && safe_method("HEAD") && safe_method("OPTIONS"));
    assert!(!safe_method("POST"));
    assert!(csrf_check(true, false, "tok", &HeaderText::Absent));
    assert!(!csrf_check(false, true, "tok", &HeaderText::Absent));
    assert!(!csrf_check(false, false, "tok", &text("tok")));
    assert!(csrf_check(false, true, "tok", &text("tok")));
    assert!(!csrf_check(false, true, "tok", &text("other")));
}

#[test]
fn embedded_ui_paths() {
    assert_eq!(asset_path("/"), "index.html");
    assert_eq!(asset_path("//assets/app.js"), "assets/app.js");
    assert_eq!(content_type("index.html"), "text/html; charset=utf-8");
    assert_eq!(content_type("assets/app.js"), "text/javascript; charset=utf-8");
    assert_eq!(content_type("a.css"), "text/css; charset=utf-8");
    assert_eq!(content_type("icon.svg"), "image/svg+xml");
    assert_eq!(content_type("f.woff2"), "font/woff2");
    assert_eq!(content_type("missing"), "application/octet-stream");
    assert!(asset_method("GET") && asset_method("HEAD") && !asset_method("POST"));
}

#[test]
fn text_helpers() {
    assert_eq!(trimmed("\u{3000} a b \u{85}"), "a b");
    assert!(is_blank(" \t\n"));
    assert!(!is_blank(" x "));
}

#[test]
fn login_throttle_rolling_minute() {
    let mut throttle = LoginThrottle::new();
    for t in [0u64, 10_000, 20_000, 30_000, 40_000] {
        assert!(throttle.try_attempt(t));
    }
    assert!(!throttle.try_attempt(50_000));
    assert_eq!(throttle.len(), 5);
    assert!(throttle.try_attempt(60_000));
    assert!(!throttle.try_attempt(60_001));
    assert!(throttle.try_attempt(70_000));
    assert_eq!(throttle.len(), 5);
}

#[test]
fn issued_cookie_authenticates_until_expiry() {
    let mut store = SessionStore::new();
    let (t, csrf) = store.open_session(1_000);
    assert!(t.len() == 64 && t.chars().all(|c| c.is_ascii_digit() || ('a'..='f').contains(&c)));
    assert!(csrf.len() == 64 && csrf.chars().all(|c| c.is_ascii_digit() || ('a'..='f').contains(&c)));
    let cookie = session_cookie(&t, true);
    let sent = cookie.split(';').next().unwrap().to_string();
    assert_eq!(session_token(&sent), Some(t.clone()));
    let header = text(&sent);
    let last = 1_000 + SESSION_LIFETIME_MS - 1;
    assert_eq!(store.session_csrf(&header, last).as_deref(), Some(csrf.as_str()));
    assert_eq!(store.session_csrf(&header, last + 1), None);
}

#[test]
fn every_password_of_six_to_256_bytes_is_hashed() {
    let h = hash_password("ééé").unwrap();
    assert!(h.starts_with("$argon2id$v=19$m=19456,t=2,p=1$"));
    assert!(verify("ééé", &h));
    assert!(hash_password(&"p".repeat(256)).is_ok());
    assert_eq!(hash_password("éé"), Err(AuthError::PasswordLength));
}
