use boardsync::access::{
    can_delete_board, can_manage_board, parse_role, role_name, share_grants_access,
    share_token_bytes, validate_registration, RegistrationError, Role,
};
use boardsync::auth::{create_token, verify_token};
use boardsync::config::Config;
use boardsync::session::{authorize_upgrade, UpgradeAuth};
use uuid::Uuid;

fn uid() -> u128 {
    Uuid::new_v4().as_u128()
}

#[test]
fn test_create_and_verify_token() {
    let user_id = uid();
    let username = "testuser";
    let secret = "test-secret-key";

    let token = create_token(user_id, username, secret).expect("should create token");
    assert!(!token.is_empty());

    let claims = verify_token(&token, secret).expect("should verify token");
    assert_eq!(claims.sub, user_id);
    assert_eq!(claims.username, username);
    assert!(claims.exp > claims.iat);
}

#[test]
fn test_verify_with_wrong_secret() {
    let user_id = uid();
    let token = create_token(user_id, "user", "secret1").unwrap();
    let result = verify_token(&token, "secret2");
    assert!(result.is_err());
}

#[test]
fn test_verify_invalid_token() {
    let result = verify_token("not.a.valid.token", "secret");
    assert!(result.is_err());
}

#[test]
fn test_invalid_token_error_kind() {
    let result = verify_token("...", "secret");
    assert_eq!(result.unwrap_err(), boardsync::auth::AuthError::InvalidToken);
}

#[test]
fn test_token_contains_correct_username() {
    let user_id = uid();
    let token = create_token(user_id, "alice", "secret").unwrap();
    let claims = verify_token(&token, "secret").unwrap();
    assert_eq!(claims.username, "alice");
}

#[test]
fn test_token_expiry_is_24h() {
    let user_id = uid();
    let token = create_token(user_id, "user", "secret").unwrap();
    let claims = verify_token(&token, "secret").unwrap();
    let duration = claims.exp - claims.iat;
    assert_eq!(duration, 86400); // 24 hours in seconds
}

#[test]
fn test_authorized_upgrade_with_token() {
    let user_id = uid();
    let secret = "gate-secret";
    let token = create_token(user_id, "member", secret).unwrap();
    let claims = verify_token(&token, secret).ok();
    let verdict = authorize_upgrade(true, claims, None, uid(), 1_700_000_000, uid());
    match verdict {
        UpgradeAuth::Granted { user_id: granted, username } => {
            assert_eq!(granted, user_id);
            assert_eq!(username, "member");
        },
        UpgradeAuth::Refused => panic!("verified bearer must be admitted"),
    }
}

#[test]
fn test_upgrade_refused_without_credentials() {
    let verdict = authorize_upgrade(false, None, None, uid(), 0, uid());
    assert!(matches!(verdict, UpgradeAuth::Refused));
}

#[test]
fn test_upgrade_refused_with_bad_token() {
    let verdict = authorize_upgrade(true, None, None, uid(), 0, uid());
    assert!(matches!(verdict, UpgradeAuth::Refused));
}

#[test]
fn test_guest_share_token_upgrade() {
    // A viewer share link bound to the requested board admits a guest.
    let board = uid();
    let guest = uid();
    let verdict = authorize_upgrade(false, None, Some((board, None)), board, 100, guest);
    match verdict {
        UpgradeAuth::Granted { user_id, username } => {
            assert_eq!(user_id, guest);
            assert_eq!(username, "Guest");
        },
        UpgradeAuth::Refused => panic!("valid share link must admit a guest"),
    }
}

#[test]
fn test_share_link_for_other_board_is_refused() {
    let verdict = authorize_upgrade(false, None, Some((uid(), None)), uid(), 100, uid());
    assert!(matches!(verdict, UpgradeAuth::Refused));
}

#[test]
fn test_expired_share_link_is_refused() {
    let board = uid();
    let verdict = authorize_upgrade(false, None, Some((board, Some(50))), board, 100, uid());
    assert!(matches!(verdict, UpgradeAuth::Refused));
}

#[test]
fn test_share_grants_access_rules() {
    let b = uid();
    assert!(share_grants_access(b, b, None, 10));
    assert!(share_grants_access(b, b, Some(11), 10));
    assert!(!share_grants_access(b, b, Some(10), 10));
    assert!(!share_grants_access(b, uid(), None, 10));
}

#[test]
fn test_role_parsing_and_names() {
    assert_eq!(parse_role("owner"), Some(Role::Owner));
    assert_eq!(parse_role("admin"), Some(Role::Admin));
    assert_eq!(parse_role("editor"), Some(Role::Editor));
    assert_eq!(parse_role("viewer"), Some(Role::Viewer));
    assert_eq!(parse_role("janitor"), None);
    assert_eq!(role_name(Role::Viewer), "viewer");
}

#[test]
fn test_role_permissions() {
    assert!(can_manage_board(Role::Owner));
    assert!(can_manage_board(Role::Admin));
    assert!(!can_manage_board(Role::Editor));
    assert!(!can_manage_board(Role::Viewer));
    assert!(can_delete_board(Role::Owner));
    assert!(!can_delete_board(Role::Admin));
}

#[test]
fn test_validate_registration_rules() {
    assert_eq!(
        validate_registration("ab", "a@b.c", "longenough"),
        Some(RegistrationError::UsernameLength)
    );
    assert_eq!(
        validate_registration("alice", "nowhere", "longenough"),
        Some(RegistrationError::InvalidEmail)
    );
    assert_eq!(
        validate_registration("alice", "a@b.c", "short"),
        Some(RegistrationError::PasswordTooShort)
    );
    assert_eq!(validate_registration("alice", "a@b.c", "longenough"), None);
}

#[test]
fn test_share_token_alphabet() {
    let bytes = share_token_bytes(&vec![0, 9, 10, 35]);
    assert_eq!(bytes, b"09az".to_vec());
}

#[test]
fn test_google_oauth_enabled() {
    let mut config = Config {
        database_url: "postgres://localhost/test".to_string(),
        jwt_secret: "secret".to_string(),
        host: "0.0.0.0".to_string(),
        port: 3000,
        google_client_id: Some("id".to_string()),
        google_client_secret: Some("cs".to_string()),
        google_redirect_uri: Some("uri".to_string()),
    };
    assert!(config.google_oauth_enabled());
    config.google_redirect_uri = None;
    assert!(!config.google_oauth_enabled());
}
