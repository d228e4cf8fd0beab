use ragit::team::{
    bearer_token, caller_from_session, chat_library, login_decision, logout_token,
    may_use_library, register_account, register_decision, require_admin, secret_from_file,
    sign_token, signed_bearer_token, start_answer, stop_answer, team_port, verify_token, visible_libraries, RegisterError, Role, TeamError, SESSION_SECONDS,
};

#[test]
fn roles_read_without_regard_to_case() {
    assert_eq!(Role::from_str("ADMIN"), Role::Admin);
    assert_eq!(Role::from_str("Editor"), Role::Editor);
    assert_eq!(Role::from_str("viewer"), Role::Viewer);
    assert_eq!(Role::from_str("superuser"), Role::Viewer);
}

#[test]
fn role_names_round_trip() {
    for r in [Role::Admin, Role::Editor, Role::Viewer] {
        assert_eq!(Role::from_str(r.as_str()), r);
    }
    assert_eq!(Role::Editor.as_str(), "editor");
}

#[test]
fn role_permissions_are_ordered() {
    assert!(Role::Admin.can(&Role::Editor));
    assert!(Role::Editor.can(&Role::Editor));
    assert!(Role::Editor.can(&Role::Viewer));
    assert!(!Role::Viewer.can(&Role::Editor));
    assert!(!Role::Editor.can(&Role::Admin));
}

#[test]
fn token_has_known_form() {
    let t = sign_token("u1", "secret", 100);
    assert_eq!(
        t,
        "dTEuMTAw.c9cbd65e3d408f79c77b090bffc23ba5df69b7d800ed5ca0938850c7031ec7e5"
    );
}

#[test]
fn signed_token_verifies_to_its_user() {
    let t = sign_token("user-42", "s3cret", 1_700_000_000);
    assert_eq!(verify_token(&t, "s3cret"), Some("user-42".to_string()));
    let t = sign_token("neg", "k", -5);
    assert_eq!(verify_token(&t, "k"), Some("neg".to_string()));
}

#[test]
fn token_refused_under_other_secret_or_tampered() {
    let t = sign_token("u1", "secret", 100);
    assert_eq!(verify_token(&t, "other"), None);
    let mut bad = t.clone();
    bad.insert(0, 'x');
    assert_eq!(verify_token(&bad, "secret"), None);
    assert_eq!(verify_token("no-dot-here", "secret"), None);
    assert_eq!(verify_token("", "secret"), None);
}

#[test]
fn bearer_headers() {
    assert_eq!(bearer_token(Some("Bearer abc")), Some("abc".to_string()));
    assert_eq!(bearer_token(Some("Basic abc")), None);
    assert_eq!(bearer_token(None), None);
    assert_eq!(logout_token(Some("Bearer abc")), Some("abc".to_string()));
    assert_eq!(logout_token(Some("raw-token")), Some("raw-token".to_string()));
    assert_eq!(logout_token(None), None);
}

#[test]
fn bearer_token_must_carry_a_valid_signature() {
    let t = sign_token("u1", "secret", 100);
    let header = format!("Bearer {t}");
    assert_eq!(signed_bearer_token(Some(&header), "secret"), Some(t));
    assert_eq!(signed_bearer_token(Some(&header), "wrong"), None);
    assert_eq!(signed_bearer_token(Some("Bearer junk"), "secret"), None);
}

#[test]
fn first_account_is_admin_whatever_it_asks() {
    assert_eq!(register_decision(0, None, Some("viewer"), "root", "pass1"), Ok(Role::Admin));
    assert_eq!(register_decision(0, Some(Role::Viewer), None, "root", "pass1"), Ok(Role::Admin));
}

#[test]
fn later_accounts_need_an_admin() {
    assert_eq!(register_decision(1, None, None, "bob", "pass1"), Err(TeamError::Unauthorized));
    assert_eq!(
        register_decision(1, Some(Role::Editor), Some("admin"), "bob", "pass1"),
        Err(TeamError::AdminRequired)
    );
    assert_eq!(register_decision(1, Some(Role::Admin), Some("EDITOR"), "bob", "pass1"), Ok(Role::Editor));
    assert_eq!(register_decision(3, Some(Role::Admin), None, "bob", "pass1"), Ok(Role::Viewer));
}

#[test]
fn registration_input_is_checked() {
    assert_eq!(register_decision(0, None, None, "   ", "pass1"), Err(TeamError::InvalidInput));
    assert_eq!(register_decision(0, None, None, "bob", "abc"), Err(TeamError::InvalidInput));
    assert_eq!(register_decision(0, None, None, "bob", "\u{e9}\u{e9}"), Ok(Role::Admin));
}

#[test]
fn registered_account_hash_accepts_its_password() {
    let acct = register_account(0, None, None, "root", "correct horse").unwrap();
    assert_eq!(acct.role, Role::Admin);
    assert!(acct.password_hash.starts_with("$argon2"));
    let user = |hash: &str| Some(("u".to_string(), hash.to_string(), "admin".to_string()));
    assert!(login_decision(user(&acct.password_hash), "correct horse", "s", 0).is_ok());
    assert!(matches!(login_decision(user(&acct.password_hash), "wrong horse", "s", 0), Err(TeamError::InvalidCredentials)));
    assert!(matches!(login_decision(user("not a hash"), "correct horse", "s", 0), Err(TeamError::InvalidCredentials)));
}

#[test]
fn registration_refusals_come_before_hashing() {
    match register_account(2, Some(Role::Viewer), None, "bob", "pass1") {
        Err(RegisterError::Refused(e)) => assert_eq!(e, TeamError::AdminRequired),
        _ => panic!("expected a refusal"),
    }
}

#[test]
fn login_grants_a_week_long_token() {
    let acct = register_account(0, None, None, "root", "pw12345").unwrap();
    let user = Some(("uid-1".to_string(), acct.password_hash.clone(), "admin".to_string()));
    let g = login_decision(user, "pw12345", "srv", 1000).ok().unwrap();
    assert_eq!(g.expires_at, 1000 + SESSION_SECONDS);
    assert_eq!(g.user_id, "uid-1");
    assert_eq!(g.role, "admin");
    assert_eq!(g.token, sign_token("uid-1", "srv", 1000 + 604800));
    assert_eq!(verify_token(&g.token, "srv"), Some("uid-1".to_string()));
}

#[test]
fn login_refuses_unknown_user_and_wrong_password() {
    let acct = register_account(0, None, None, "root", "pw12345").unwrap();
    let user = Some(("uid-1".to_string(), acct.password_hash, "admin".to_string()));
    assert!(matches!(login_decision(user, "nope", "srv", 0), Err(TeamError::InvalidCredentials)));
    assert!(matches!(login_decision(None, "pw12345", "srv", 0), Err(TeamError::InvalidCredentials)));
}

#[test]
fn errors_map_to_status_and_message() {
    assert_eq!(TeamError::Unauthorized.status_code(), 401);
    assert_eq!(TeamError::Unauthorized.message(), "unauthorized");
    assert_eq!(TeamError::AdminRequired.status_code(), 403);
    assert_eq!(TeamError::AdminRequired.message(), "admin required");
    assert_eq!(TeamError::NoLibraryAccess.status_code(), 403);
    assert_eq!(TeamError::NoLibraryAccess.message(), "no access to library");
    assert_eq!(TeamError::InvalidInput.status_code(), 400);
    assert_eq!(TeamError::InvalidInput.message(), "invalid input");
    assert_eq!(TeamError::InvalidCredentials.status_code(), 401);
    assert_eq!(TeamError::InvalidCredentials.message(), "invalid credentials");
}

#[test]
fn admin_checks() {
    assert_eq!(require_admin(Role::Admin), Ok(()));
    assert_eq!(require_admin(Role::Editor), Err(TeamError::AdminRequired));
    assert_eq!(require_admin(Role::Viewer), Err(TeamError::AdminRequired));
}

#[test]
fn library_access() {
    assert_eq!(chat_library(None), "default");
    assert_eq!(chat_library(Some("docs".to_string())), "docs");
    assert!(may_use_library(Role::Admin, &None));
    assert!(may_use_library(Role::Viewer, &Some("viewer".to_string())));
    assert!(!may_use_library(Role::Editor, &None));
}

#[test]
fn visible_libraries_follow_membership() {
    let libs = vec!["a".to_string(), "b".to_string(), "c".to_string()];
    assert_eq!(visible_libraries(Role::Admin, libs.clone(), &vec![]), libs);
    assert_eq!(
        visible_libraries(Role::Viewer, libs.clone(), &vec![true, false, true]),
        vec!["a".to_string(), "c".to_string()]
    );
    assert_eq!(visible_libraries(Role::Editor, libs, &vec![false]), Vec::<String>::new());
}

#[test]
fn server_answers() {
    assert_eq!(team_port(None), 11436);
    assert_eq!(team_port(Some(9000)), 9000);
    assert_eq!(start_answer(false, 11436), "Team server listening on http://0.0.0.0:11436");
    assert_eq!(start_answer(true, 80), "Team server already running on port 80");
    assert_eq!(stop_answer(true), "Team server stopped");
    assert_eq!(stop_answer(false), "Team server was not running");
}

#[test]
fn secret_file_content() {
    assert_eq!(secret_from_file(Some("  abc-123 \n".to_string())), Some("abc-123".to_string()));
    assert_eq!(secret_from_file(Some(" \n ".to_string())), None);
    assert_eq!(secret_from_file(None), None);
}

#[test]
fn session_callers() {
    assert_eq!(
        caller_from_session(Some(("u".to_string(), "Editor".to_string()))),
        Some(("u".to_string(), Role::Editor))
    );
    assert_eq!(caller_from_session(None), None);
}
