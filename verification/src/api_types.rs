//! Request and response shapes of the HTTP collaborator, as plain data.
//!
//! The transport wrapping — serialization, extraction, status codes —
//! lives with the HTTP layer; these are the values the core logic sees.

use vstd::prelude::*;

verus! {

/// Body of a board-creation request.
pub struct CreateBoardRequest {
    pub name: String,
}

/// Body of a board-rename request.
pub struct UpdateBoardRequest {
    pub name: String,
}

/// Body of a collaborator-invite request.
pub struct AddCollaboratorRequest {
    pub username: String,
    pub role: Option<String>,
}

/// Body of a share-link-creation request.
pub struct CreateShareLinkRequest {
    pub role: Option<String>,
    pub expires_in_hours: Option<i64>,
}

/// Body of an account-registration request.
pub struct RegisterRequest {
    pub username: String,
    pub email: String,
    pub password: String,
}

/// Body of a login request.
pub struct LoginRequest {
    pub username: String,
    pub password: String,
}

/// A user as shown to clients.
pub struct UserPublic {
    pub id: u128,
    pub username: String,
    pub email: String,
}

/// What a successful registration or login returns.
pub struct AuthResponse {
    pub token: String,
    pub user: UserPublic,
}

/// Query parameters of the socket-upgrade request: exactly one of a
/// bearer token or a share token.
pub struct WsQuery {
    pub token: Option<String>,
    pub share_token: Option<String>,
}

/// Query parameters of the federated-login callback.
pub struct CallbackQuery {
    pub code: Option<String>,
    pub state: Option<String>,
    pub error: Option<String>,
}

} // verus!
