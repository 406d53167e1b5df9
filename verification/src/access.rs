//! The access oracle's decision rules.
//!
//! Who may edit, manage or delete a board, how a share token grants a
//! guest entry, what a registration must look like, and the character set
//! of freshly minted share tokens.  Storage lookups happen elsewhere; the
//! decisions on the looked-up values are made — and proved — here.

use vstd::prelude::*;
use vstd::string::StringSliceAdditionalSpecFns;

verus! {

/// What a principal may do on a board.
#[derive(Clone, Copy, Debug, PartialEq, Eq, Structural)]
pub enum Role {
    Owner,
    Admin,
    Editor,
    Viewer,
}

/// The storage keyword of each role.
pub open spec fn role_keyword(r: Role) -> Seq<u8> {
    match r {
        Role::Owner => "owner".spec_bytes(),
        Role::Admin => "admin".spec_bytes(),
        Role::Editor => "editor".spec_bytes(),
        Role::Viewer => "viewer".spec_bytes(),
    }
}

/// Byte-for-byte slice equality.
fn bytes_eq(a: &[u8], b: &[u8]) -> (r: bool)
    ensures
        r <==> a@ == b@,
{
    if a.len() != b.len() {
        return false;
    }
    let mut i: usize = 0;
    while i < a.len()
        invariant
            i <= a@.len(),
            a@.len() == b@.len(),
            forall|j: int| 0 <= j < i ==> a@[j] == b@[j],
        decreases a@.len() - i,
    {
        if a[i] != b[i] {
            return false;
        }
        i = i + 1;
    }
    proof {
        assert(a@ =~= b@);
    }
    true
}

/// Byte-for-byte string equality.
pub fn str_eq(a: &str, b: &str) -> (r: bool)
    ensures
        r <==> a.spec_bytes() == b.spec_bytes(),
{
    bytes_eq(a.as_bytes(), b.as_bytes())
}

/// String equality at the character level: strings hold the same
/// characters exactly when they hold the same bytes.
pub fn str_eq_chars(a: &str, b: &str) -> (r: bool)
    ensures
        r <==> a@ == b@,
{
    let r = str_eq(a, b);
    proof {
        if a.spec_bytes() == b.spec_bytes() {
            vstd::utf8::encode_utf8_decode_utf8(a@);
            vstd::utf8::encode_utf8_decode_utf8(b@);
        }
    }
    r
}

/// The role a storage keyword denotes, if any.
pub fn parse_role(s: &str) -> (r: Option<Role>)
    ensures
        r matches Some(role) ==> s.spec_bytes() == role_keyword(role),
        r is None ==> forall|role: Role| s.spec_bytes() != role_keyword(role),
{
    if str_eq(s, "owner") {
        Some(Role::Owner)
    } else if str_eq(s, "admin") {
        Some(Role::Admin)
    } else if str_eq(s, "editor") {
        Some(Role::Editor)
    } else if str_eq(s, "viewer") {
        Some(Role::Viewer)
    } else {
        proof {
            assert forall|role: Role| s.spec_bytes() != role_keyword(role) by {
                match role {
                    Role::Owner => {},
                    Role::Admin => {},
                    Role::Editor => {},
                    Role::Viewer => {},
                }
            };
        }
        None
    }
}

/// The storage keyword of each role, as text.
pub open spec fn role_keyword_chars(r: Role) -> Seq<char> {
    match r {
        Role::Owner => "owner"@,
        Role::Admin => "admin"@,
        Role::Editor => "editor"@,
        Role::Viewer => "viewer"@,
    }
}

/// The storage keyword of a role.
pub fn role_name(r: Role) -> (s: String)
    ensures
        s@.len() > 0,
        s@ == role_keyword_chars(r),
{
    let out = match r {
        Role::Owner => "owner".to_owned(),
        Role::Admin => "admin".to_owned(),
        Role::Editor => "editor".to_owned(),
        Role::Viewer => "viewer".to_owned(),
    };
    proof {
        match r {
            Role::Owner => {
                reveal_strlit("owner");
            },
            Role::Admin => {
                reveal_strlit("admin");
            },
            Role::Editor => {
                reveal_strlit("editor");
            },
            Role::Viewer => {
                reveal_strlit("viewer");
            },
        }
    }
    out
}

/// Combine the access oracle's two storage lookups: an owner row wins,
/// else the collaborator role — if any — stands.
pub fn access_role(is_owner: bool, collaborator: Option<Role>) -> (r: Option<Role>)
    ensures
        is_owner ==> r == Some(Role::Owner),
        !is_owner ==> r == collaborator,
{
    if is_owner {
        Some(Role::Owner)
    } else {
        collaborator
    }
}

/// Owners and admins manage a board: rename it, handle collaborators and
/// share links.
pub fn can_manage_board(r: Role) -> (b: bool)
    ensures
        b <==> r == Role::Owner || r == Role::Admin,
{
    matches!(r, Role::Owner | Role::Admin)
}

/// Only the owner deletes a board.
pub fn can_delete_board(r: Role) -> (b: bool)
    ensures
        b <==> r == Role::Owner,
{
    matches!(r, Role::Owner)
}

/// Whether a share link found in storage admits an upgrade for a board:
/// it must bind to the requested board and must not have expired.
pub fn share_grants_access(
    link_board_id: u128,
    requested_board_id: u128,
    expires_at: Option<i64>,
    now: i64,
) -> (b: bool)
    ensures
        b <==> link_board_id == requested_board_id && match expires_at {
            None => true,
            Some(t) => t > now,
        },
{
    link_board_id == requested_board_id && match expires_at {
        None => true,
        Some(t) => t > now,
    }
}

/// Why a registration is refused.
#[derive(Clone, Copy, Debug, PartialEq, Eq, Structural)]
pub enum RegistrationError {
    /// The username must be 3 to 100 bytes.
    UsernameLength,
    /// The email must contain an at sign.
    InvalidEmail,
    /// The password must be at least 6 bytes.
    PasswordTooShort,
}

/// The first rule a registration breaks, if any: username length, then
/// email shape, then password length.
pub open spec fn registration_problem(u: Seq<u8>, e: Seq<u8>, p: Seq<u8>) -> Option<
    RegistrationError,
> {
    if u.len() < 3 || u.len() > 100 {
        Some(RegistrationError::UsernameLength)
    } else if !e.contains(64) {
        Some(RegistrationError::InvalidEmail)
    } else if p.len() < 6 {
        Some(RegistrationError::PasswordTooShort)
    } else {
        None
    }
}

/// Check a registration request, reporting the first broken rule.
pub fn validate_registration(username: &str, email: &str, password: &str) -> (r: Option<
    RegistrationError,
>)
    ensures
        r == registration_problem(
            username.spec_bytes(),
            email.spec_bytes(),
            password.spec_bytes(),
        ),
{
    let u = username.as_bytes();
    if u.len() < 3 || u.len() > 100 {
        return Some(RegistrationError::UsernameLength);
    }
    let e = email.as_bytes();
    let mut has_at = false;
    let mut i: usize = 0;
    while i < e.len()
        invariant
            i <= e@.len(),
            has_at <==> exists|j: int| 0 <= j < i && e@[j] == 64,
        decreases e@.len() - i,
    {
        if e[i] == 64 {
            has_at = true;
        }
        i = i + 1;
    }
    proof {
        assert(e@ == email.spec_bytes());
        assert(i == e@.len());
        assert(has_at <==> email.spec_bytes().contains(64)) by {
            if has_at {
                let j = choose|j: int| 0 <= j < i && e@[j] == 64;
                assert(email.spec_bytes()[j] == 64);
            }
            if email.spec_bytes().contains(64) {
                let j = choose|j: int|
                    0 <= j < email.spec_bytes().len() && email.spec_bytes()[j] == 64;
                assert(e@[j] == 64);
            }
        };
    }
    if !has_at {
        proof {
            if email.spec_bytes().contains(64) {
                let j = choose|j: int|
                    0 <= j < email.spec_bytes().len() && email.spec_bytes()[j] == 64;
                assert(e@[j] == 64);
                assert(false);
            }
        }
        return Some(RegistrationError::InvalidEmail);
    }
    if password.as_bytes().len() < 6 {
        return Some(RegistrationError::PasswordTooShort);
    }
    proof {
        let j = choose|j: int| 0 <= j < e@.len() && e@[j] == 64;
        assert(email.spec_bytes()[j] == 64);
        assert(email.spec_bytes().contains(64));
    }
    None
}

/// The share-token alphabet: digits first, then lowercase letters.
pub open spec fn token_alphabet_byte(d: u8) -> u8 {
    if d < 10 {
        (48 + d) as u8
    } else {
        (87 + d) as u8
    }
}

/// Turn uniformly drawn indices below 36 into share-token text bytes,
/// one character per index.
pub fn share_token_bytes(indices: &Vec<u8>) -> (r: Vec<u8>)
    requires
        forall|i: int| 0 <= i < indices@.len() ==> indices@[i] < 36,
    ensures
        r@.len() == indices@.len(),
        forall|i: int| 0 <= i < r@.len() ==> r@[i] == token_alphabet_byte(indices@[i]),
{
    let mut out: Vec<u8> = Vec::new();
    let mut i: usize = 0;
    while i < indices.len()
        invariant
            i <= indices@.len(),
            out@.len() == i,
            forall|j: int| 0 <= j < indices@.len() ==> indices@[j] < 36,
            forall|j: int| 0 <= j < i ==> out@[j] == token_alphabet_byte(indices@[j]),
        decreases indices@.len() - i,
    {
        let d = indices[i];
        if d < 10 {
            out.push(48 + d);
        } else {
            out.push(87 + d);
        }
        i = i + 1;
    }
    out
}

} // verus!
