//! Team mode: roles, session tokens and the access decisions of the LAN server.
use vstd::prelude::*;
use vstd::utf8::{decode_utf8, encode_utf8, valid_utf8};
use vstd::utf8::{encode_utf8_decode_utf8, encode_utf8_valid_utf8};

use argon2::password_hash::rand_core::OsRng;
use argon2::password_hash::{PasswordHash, PasswordHasher, PasswordVerifier, SaltString};
use argon2::Argon2;
use base64::engine::general_purpose::STANDARD as B64;
use base64::Engine;
use hmac::{Hmac, Mac};
use sha2::Sha256;

use crate::text::{
    ascii_lower, chars_of, int_decimal, nat_decimal, push_decimal, push_char, push_signed_decimal, push_str,
    spec_to_lowercase, str_eq, string_views, to_lowercase, trim,
};
use crate::text::{
    lemma_split_once_concat, seq_starts_with, spec_hex_lower, spec_split_once, split_once, to_hex_lower, trim_bounds,
};

verus! {

broadcast use {encode_utf8_decode_utf8, encode_utf8_valid_utf8};

// ---------------------------------------------------------------------------
// Roles
// ---------------------------------------------------------------------------

/// The role of a team member.
#[derive(Debug, Clone, Copy, PartialEq, Eq)]
pub enum Role {
    /// Everything, including user and model management.
    Admin,
    /// Upload to and query the libraries they may use.
    Editor,
    /// Query only.
    Viewer,
}

/// The rank of a role: a role may do what any role of lower or equal rank may do.
pub open spec fn role_rank(r: Role) -> int {
    match r {
        Role::Viewer => 1,
        Role::Editor => 2,
        Role::Admin => 3,
    }
}

/// The role named by a lowercase string; any unknown name gives the viewer role.
pub open spec fn spec_role_from_lower(s: Seq<char>) -> Role {
    if s == "admin"@ {
        Role::Admin
    } else if s == "editor"@ {
        Role::Editor
    } else {
        Role::Viewer
    }
}

/// The stored name of a role.
pub open spec fn role_name(r: Role) -> Seq<char> {
    match r {
        Role::Admin => "admin"@,
        Role::Editor => "editor"@,
        Role::Viewer => "viewer"@,
    }
}

impl Role {
    /// The role named by `s`, compared without regard to case; unknown names
    /// give the viewer role.
    pub fn from_str(s: &str) -> (r: Role)
        ensures
            r == spec_role_from_lower(spec_to_lowercase(s@)),
            vstd::utf8::is_ascii_chars(s@) ==> r == spec_role_from_lower(
                s@.map_values(|c: char| ascii_lower(c)),
            ),
    {
        let l = to_lowercase(s);
        if str_eq(l.as_str(), "admin") {
            Role::Admin
        } else if str_eq(l.as_str(), "editor") {
            Role::Editor
        } else {
            Role::Viewer
        }
    }

    /// The stored name of this role.
    pub fn as_str(&self) -> (s: &'static str)
        ensures
            s@ == role_name(*self),
    {
        match self {
            Role::Admin => "admin",
            Role::Editor => "editor",
            Role::Viewer => "viewer",
        }
    }

    /// Whether this role may do what `required` may do.
    pub fn can(&self, required: &Role) -> (b: bool)
        ensures
            b == (role_rank(*self) >= role_rank(*required)),
    {
        let mine: u8 = match self {
            Role::Viewer => 1,
            Role::Editor => 2,
            Role::Admin => 3,
        };
        let needed: u8 = match required {
            Role::Viewer => 1,
            Role::Editor => 2,
            Role::Admin => 3,
        };
        mine >= needed
    }
}

/// A role's stored name is ASCII and lowercase, so reading it back gives the
/// same role.
pub proof fn lemma_role_name_roundtrip(r: Role)
    ensures
        vstd::utf8::is_ascii_chars(role_name(r)),
        role_name(r).map_values(|c: char| ascii_lower(c)) == role_name(r),
        spec_role_from_lower(role_name(r)) == r,
{
    reveal_strlit("admin");
    reveal_strlit("editor");
    reveal_strlit("viewer");
    assert(role_name(r).map_values(|c: char| ascii_lower(c)) =~= role_name(r));
    assert("editor"@.len() != "admin"@.len());
    assert("viewer"@.len() != "admin"@.len());
    assert("viewer"@[0] != "editor"@[0]);
}

/// Permission is a total order: every role may do what it itself may do;
/// permission passes along; of two roles one may always do what the other may.
pub proof fn lemma_role_order(a: Role, b: Role, c: Role)
    ensures
        role_rank(a) >= role_rank(a),
        role_rank(a) >= role_rank(b) && role_rank(b) >= role_rank(c) ==> role_rank(a) >= role_rank(
            c,
        ),
        role_rank(a) >= role_rank(b) || role_rank(b) >= role_rank(a),
        role_rank(a) >= role_rank(b) && role_rank(b) >= role_rank(a) ==> a == b,
{
}

/// An admin may do everything, and everyone may do what a viewer may do.
pub proof fn lemma_role_extremes(r: Role)
    ensures
        role_rank(Role::Admin) >= role_rank(r),
        role_rank(r) >= role_rank(Role::Viewer),
{
}

} // verus!

verus! {

// ---------------------------------------------------------------------------
// Outside primitives: Base64, HMAC-SHA256, hexadecimal, UTF-8, Argon2
// ---------------------------------------------------------------------------

/// The standard Base64 encoding (RFC 4648 alphabet, with padding) of `bytes`.
pub uninterp spec fn spec_b64_encode(bytes: Seq<u8>) -> Seq<char>;

/// What standard Base64 decoding gives for the text `bytes`: the decoded
/// bytes, or the text of the error when it is not canonical padded Base64.
pub uninterp spec fn spec_b64_decode(bytes: Seq<u8>) -> Result<Seq<u8>, Seq<char>>;

/// HMAC-SHA256 of `data` under `key`.
pub uninterp spec fn spec_hmac_sha256(key: Seq<u8>, data: Seq<u8>) -> Seq<u8>;

/// Whether Argon2 accepts `password` for the PHC-format hash string `hash`.
pub uninterp spec fn spec_argon2_verify(password: Seq<char>, hash: Seq<char>) -> bool;

/// A successful decoding to `bytes`.
pub open spec fn decoded(bytes: Seq<u8>) -> Result<Seq<u8>, Seq<char>> {
    Ok(bytes)
}

/// The bytes of a decoding, or the text of its error.
pub open spec fn bytes_result_view(r: Result<Vec<u8>, String>) -> Result<Seq<u8>, Seq<char>> {
    match r {
        Ok(v) => Ok(v@),
        Err(e) => Err(e@),
    }
}

/// The characters of the standard Base64 alphabet and its padding.
pub open spec fn is_b64_char(c: char) -> bool {
    ('A' <= c && c <= 'Z') || ('a' <= c && c <= 'z') || ('0' <= c && c <= '9') || c == '+' || c
        == '/' || c == '='
}

/// Calls `base64::engine::general_purpose::STANDARD.encode`. The text is named
/// `spec_b64_encode`; as the crate documents, it uses only the standard
/// alphabet and `=`, and the same engine decodes it back to `bytes`.
#[verifier::external_body]
pub(crate) fn b64_encode(bytes: &[u8]) -> (r: String)
    ensures
        r@ == spec_b64_encode(bytes@),
        forall|i: int| 0 <= i < r@.len() ==> is_b64_char(#[trigger] r@[i]),
        spec_b64_decode(encode_utf8(r@)) == decoded(bytes@),
{
    B64.encode(bytes)
}

/// Calls `base64::engine::general_purpose::STANDARD.decode`; the outcome is
/// named `spec_b64_decode`, an error by the text its `Display` writes.
#[verifier::external_body]
pub(crate) fn b64_decode(text: &str) -> (r: Result<Vec<u8>, String>)
    ensures
        bytes_result_view(r) == spec_b64_decode(encode_utf8(text@)),
{
    match B64.decode(text) {
        Ok(v) => Ok(v),
        Err(e) => Err(e.to_string()),
    }
}

/// Calls `Hmac::<Sha256>::new_from_slice(key)` (which accepts keys of any
/// length), `update(data)` and `finalize`. The tag is named
/// `spec_hmac_sha256`; it is 32 bytes long.
#[verifier::external_body]
fn hmac_sha256(key: &[u8], data: &[u8]) -> (r: Vec<u8>)
    ensures
        r@ == spec_hmac_sha256(key@, data@),
        r@.len() == 32,
{
    let mut mac = <Hmac<Sha256> as Mac>::new_from_slice(key).expect("hmac accepts any key length");
    mac.update(data);
    mac.finalize().into_bytes().to_vec()
}

/// Calls `String::from_utf8`, which succeeds exactly on valid UTF-8 and then
/// holds the characters that the bytes encode.
#[verifier::external_body]
fn utf8_to_string(bytes: Vec<u8>) -> (r: Option<String>)
    ensures
        r is Some <==> valid_utf8(bytes@),
        r matches Some(s) ==> s@ == decode_utf8(bytes@),
{
    String::from_utf8(bytes).ok()
}

/// Calls `PasswordHash::new(hash)` and `Argon2::default().verify_password`;
/// the answer is named `spec_argon2_verify` (false when the hash string does
/// not parse).
#[verifier::external_body]
pub(crate) fn verify_password(pw: &str, hash: &str) -> (ok: bool)
    ensures
        ok == spec_argon2_verify(pw@, hash@),
{
    let Ok(parsed) = PasswordHash::new(hash) else { return false };
    Argon2::default().verify_password(pw.as_bytes(), &parsed).is_ok()
}

/// Calls `SaltString::generate(&mut OsRng)` and `Argon2::default().hash_password`,
/// giving the PHC string of the hash or the error's text. The salt is random,
/// so nothing is said of the hash itself beyond what the crate documents:
/// `Argon2::default().verify_password` accepts the same password for it.
#[verifier::external_body]
fn hash_password(pw: &str) -> (r: Result<String, String>)
    ensures
        r matches Ok(h) ==> spec_argon2_verify(pw@, h@),
{
    let salt = SaltString::generate(&mut OsRng);
    match Argon2::default().hash_password(pw.as_bytes(), &salt) {
        Ok(h) => Ok(h.to_string()),
        Err(e) => Err(e.to_string()),
    }
}

// ---------------------------------------------------------------------------
// Session tokens
// ---------------------------------------------------------------------------

/// The payload of a token: the user id, a dot, and the expiry time.
pub open spec fn token_payload(user_id: Seq<char>, expires_at: int) -> Seq<char> {
    user_id + seq!['.'] + int_decimal(expires_at)
}

/// The signature of the encoded payload `b` under `secret`.
pub open spec fn token_signature(b: Seq<char>, secret: Seq<char>) -> Seq<char> {
    spec_hex_lower(spec_hmac_sha256(encode_utf8(secret), encode_utf8(b)))
}

/// A session token: the Base64 of the payload, a dot, and the hex HMAC-SHA256
/// of that Base64 text under the server secret.
pub open spec fn spec_sign_token(user_id: Seq<char>, secret: Seq<char>, expires_at: int) -> Seq<
    char,
> {
    let b = spec_b64_encode(encode_utf8(token_payload(user_id, expires_at)));
    b + seq!['.'] + token_signature(b, secret)
}

/// The user id a token carries, if its signature matches under `secret`
/// and its payload decodes.
pub open spec fn spec_verify_token(token: Seq<char>, secret: Seq<char>) -> Option<Seq<char>> {
    match spec_split_once(token, '.') {
        None => None,
        Some((b, sig)) => if token_signature(b, secret) != sig {
            None
        } else {
            match spec_b64_decode(encode_utf8(b)) {
                Err(_) => None,
                Ok(bytes) => if !valid_utf8(bytes) {
                    None
                } else {
                    match spec_split_once(decode_utf8(bytes), '.') {
                        None => None,
                        Some((user_id, _)) => Some(user_id),
                    }
                },
            }
        },
    }
}

/// `s` holds no dot.
pub open spec fn no_dot(s: Seq<char>) -> bool {
    forall|k: int| 0 <= k < s.len() ==> s[k] != '.'
}

/// Sign a session token for `user_id` that expires at `expires_at`.
/// A token signed for a user id without a dot verifies, under the same
/// secret, to that user id.
pub fn sign_token(user_id: &str, secret: &str, expires_at: i64) -> (t: String)
    ensures
        t@ == spec_sign_token(user_id@, secret@, expires_at as int),
        no_dot(user_id@) ==> spec_verify_token(t@, secret@) == Some(user_id@),
{
    let mut payload = String::new();
    push_str(&mut payload, user_id);
    push_char(&mut payload, '.');
    push_signed_decimal(&mut payload, expires_at);
    assert(payload@ =~= token_payload(user_id@, expires_at as int));
    let b = b64_encode(payload.as_str().as_bytes());
    let sig = to_hex_lower(hmac_sha256(secret.as_bytes(), b.as_str().as_bytes()).as_slice());
    let mut t = String::new();
    push_str(&mut t, b.as_str());
    push_char(&mut t, '.');
    push_str(&mut t, sig.as_str());
    proof {
        assert(t@ =~= b@ + seq!['.'] + sig@);
        assert(no_dot(b@)) by {
            assert forall|k: int| 0 <= k < b@.len() implies b@[k] != '.' by {
                assert(is_b64_char(b@[k]));
            }
        }
        lemma_split_once_concat(b@, '.', sig@);
        if no_dot(user_id@) {
            let p = token_payload(user_id@, expires_at as int);
            assert(p =~= user_id@ + seq!['.'] + int_decimal(expires_at as int));
            lemma_split_once_concat(user_id@, '.', int_decimal(expires_at as int));
            assert(decode_utf8(encode_utf8(p)) == p);
        }
    }
    t
}

/// The user id of a token whose signature matches under `secret`.
pub fn verify_token(token: &str, secret: &str) -> (r: Option<String>)
    ensures
        match r {
            Some(u) => spec_verify_token(token@, secret@) == Some(u@),
            None => spec_verify_token(token@, secret@) is None,
        },
{
    let (b, sig) = match split_once(token, '.') {
        Some(p) => p,
        None => return None,
    };
    let expected = to_hex_lower(hmac_sha256(secret.as_bytes(), b.as_str().as_bytes()).as_slice());
    if !str_eq(expected.as_str(), sig.as_str()) {
        return None;
    }
    let payload = match b64_decode(b.as_str()) {
        Ok(p) => p,
        Err(_) => return None,
    };
    let payload = match utf8_to_string(payload) {
        Some(p) => p,
        None => return None,
    };
    match split_once(payload.as_str(), '.') {
        Some((user_id, _)) => Some(user_id),
        None => None,
    }
}

} // verus!

verus! {

// ---------------------------------------------------------------------------
// Requests
// ---------------------------------------------------------------------------

/// Why the team server refuses a request.
#[derive(Debug, Clone, Copy, PartialEq, Eq)]
pub enum TeamError {
    /// No valid session token.
    Unauthorized,
    /// The caller is not an admin.
    AdminRequired,
    /// The caller is not a member of the requested library.
    NoLibraryAccess,
    /// An empty user name or a password shorter than four bytes.
    InvalidInput,
    /// Unknown user or wrong password.
    InvalidCredentials,
}

impl TeamError {
    /// The HTTP status the server answers with.
    pub fn status_code(&self) -> (c: u16)
        ensures
            c == match *self {
                TeamError::Unauthorized => 401u16,
                TeamError::AdminRequired => 403u16,
                TeamError::NoLibraryAccess => 403u16,
                TeamError::InvalidInput => 400u16,
                TeamError::InvalidCredentials => 401u16,
            },
    {
        match self {
            TeamError::Unauthorized => 401,
            TeamError::AdminRequired => 403,
            TeamError::NoLibraryAccess => 403,
            TeamError::InvalidInput => 400,
            TeamError::InvalidCredentials => 401,
        }
    }

    /// The error message sent back.
    pub fn message(&self) -> (m: &'static str)
        ensures
            m@ == match *self {
                TeamError::Unauthorized => "unauthorized"@,
                TeamError::AdminRequired => "admin required"@,
                TeamError::NoLibraryAccess => "no access to library"@,
                TeamError::InvalidInput => "invalid input"@,
                TeamError::InvalidCredentials => "invalid credentials"@,
            },
    {
        match self {
            TeamError::Unauthorized => "unauthorized",
            TeamError::AdminRequired => "admin required",
            TeamError::NoLibraryAccess => "no access to library",
            TeamError::InvalidInput => "invalid input",
            TeamError::InvalidCredentials => "invalid credentials",
        }
    }
}

/// `s` without the prefix `p`, if it has it.
pub open spec fn strip_prefix(s: Seq<char>, p: Seq<char>) -> Option<Seq<char>> {
    if seq_starts_with(s, p) {
        Some(s.subrange(p.len() as int, s.len() as int))
    } else {
        None
    }
}

/// `s` without the prefix `p`, if it has it.
fn strip_prefix_str(s: &str, p: &str) -> (r: Option<String>)
    ensures
        match r {
            Some(x) => strip_prefix(s@, p@) == Some(x@),
            None => strip_prefix(s@, p@) is None,
        },
{
    let sv = chars_of(s);
    let pv = chars_of(p);
    if crate::text::starts_with_vec(&sv, &pv) {
        Some(crate::text::string_of_range(&sv, pv.len(), sv.len()))
    } else {
        None
    }
}

/// The token of an `Authorization: Bearer <token>` header.
pub open spec fn spec_bearer_token(header: Option<Seq<char>>) -> Option<Seq<char>> {
    match header {
        Some(h) => strip_prefix(h, "Bearer "@),
        None => None,
    }
}

/// The token of an `Authorization: Bearer <token>` header value.
pub fn bearer_token(header: Option<&str>) -> (r: Option<String>)
    ensures
        match r {
            Some(t) => spec_bearer_token(opt_view(header)) == Some(t@),
            None => spec_bearer_token(opt_view(header)) is None,
        },
{
    match header {
        Some(h) => strip_prefix_str(h, "Bearer "),
        None => None,
    }
}

/// The contents of an optional string.
pub open spec fn opt_view(s: Option<&str>) -> Option<Seq<char>> {
    match s {
        Some(x) => Some(x@),
        None => None,
    }
}

/// The session to end on logout: the bearer token, or the whole header value
/// when it does not start with `Bearer `.
pub fn logout_token(header: Option<&str>) -> (r: Option<String>)
    ensures
        match header {
            Some(h) => r matches Some(t) && t@ == (match strip_prefix(h@, "Bearer "@) {
                Some(x) => x,
                None => h@,
            }),
            None => r is None,
        },
{
    match header {
        Some(h) => match strip_prefix_str(h, "Bearer ") {
            Some(t) => Some(t),
            None => Some(h.to_owned()),
        },
        None => None,
    }
}

/// The bearer token of a request whose signature verifies under `secret`;
/// the session behind it is then looked up.
pub fn signed_bearer_token(header: Option<&str>, secret: &str) -> (r: Option<String>)
    ensures
        match r {
            Some(t) => spec_bearer_token(opt_view(header)) == Some(t@) && spec_verify_token(
                t@,
                secret@,
            ) is Some,
            None => match spec_bearer_token(opt_view(header)) {
                Some(t) => spec_verify_token(t, secret@) is None,
                None => true,
            },
        },
{
    let t = match bearer_token(header) {
        Some(t) => t,
        None => return None,
    };
    match verify_token(t.as_str(), secret) {
        Some(_) => Some(t),
        None => None,
    }
}

/// Only admins pass.
pub fn require_admin(role: Role) -> (r: Result<(), TeamError>)
    ensures
        r is Ok <==> role == Role::Admin,
        r matches Err(e) ==> e == TeamError::AdminRequired,
{
    if role.can(&Role::Admin) {
        Ok(())
    } else {
        Err(TeamError::AdminRequired)
    }
}

/// The shortest accepted password, in bytes.
pub const MIN_PASSWORD_BYTES: usize = 4;

/// The role a registration gets, or why it is refused: the very first
/// account becomes admin whatever it asks for; later accounts need an admin
/// caller and get the role they ask for (viewer by default); the user name
/// must not be blank and the password must have at least four bytes.
pub open spec fn spec_register(
    existing_users: nat,
    caller: Option<Role>,
    requested: Option<Seq<char>>,
    username: Seq<char>,
    password: Seq<char>,
) -> Result<Role, TeamError> {
    let role: Result<Role, TeamError> = if existing_users == 0 {
        Ok(Role::Admin)
    } else {
        match caller {
            None => Err(TeamError::Unauthorized),
            Some(c) => if role_rank(c) < role_rank(Role::Admin) {
                Err(TeamError::AdminRequired)
            } else {
                Ok(
                    spec_role_from_lower(
                        spec_to_lowercase(
                            match requested {
                                Some(r) => r,
                                None => "viewer"@,
                            },
                        ),
                    ),
                )
            },
        }
    };
    match role {
        Err(e) => Err(e),
        Ok(r) => if trim(username).len() == 0 || encode_utf8(password).len() < MIN_PASSWORD_BYTES {
            Err(TeamError::InvalidInput)
        } else {
            Ok(r)
        },
    }
}

/// Decide a registration request.
pub fn register_decision(
    existing_users: usize,
    caller: Option<Role>,
    requested: Option<&str>,
    username: &str,
    password: &str,
) -> (r: Result<Role, TeamError>)
    ensures
        r == spec_register(existing_users as nat, caller, opt_view(requested), username@, password@),
{
    let role = if existing_users == 0 {
        Role::Admin
    } else {
        match caller {
            None => return Err(TeamError::Unauthorized),
            Some(c) => {
                if !c.can(&Role::Admin) {
                    return Err(TeamError::AdminRequired);
                }
                match requested {
                    Some(r) => Role::from_str(r),
                    None => Role::from_str("viewer"),
                }
            },
        }
    };
    let uv = chars_of(username);
    let (a, e) = trim_bounds(&uv);
    if a == e || password.as_bytes().len() < MIN_PASSWORD_BYTES {
        return Err(TeamError::InvalidInput);
    }
    Ok(role)
}

/// The very first account becomes admin, whoever asks and whatever role is
/// asked for, as long as its user name and password are acceptable.
pub proof fn lemma_first_account_admin(
    caller: Option<Role>,
    requested: Option<Seq<char>>,
    username: Seq<char>,
    password: Seq<char>,
)
    requires
        trim(username).len() > 0,
        encode_utf8(password).len() >= MIN_PASSWORD_BYTES,
    ensures
        spec_register(0, caller, requested, username, password) == Ok::<Role, TeamError>(
            Role::Admin,
        ),
{
}

/// Once accounts exist, only an admin can add one, and no refusal depends on
/// the password hash: a caller without a session is unauthorized and a
/// non-admin caller is refused before the input is looked at.
pub proof fn lemma_later_accounts_need_admin(
    existing: nat,
    caller: Option<Role>,
    requested: Option<Seq<char>>,
    username: Seq<char>,
    password: Seq<char>,
)
    requires
        existing > 0,
    ensures
        caller is None ==> spec_register(existing, caller, requested, username, password) == Err::<
            Role,
            TeamError,
        >(TeamError::Unauthorized),
        caller matches Some(c) && c != Role::Admin ==> spec_register(
            existing,
            caller,
            requested,
            username,
            password,
        ) == Err::<Role, TeamError>(TeamError::AdminRequired),
{
}

/// Why a registration did not create an account.
#[derive(Debug, Clone, PartialEq, Eq)]
pub enum RegisterError {
    /// The request was refused.
    Refused(TeamError),
    /// Hashing the password failed, with the hasher's message.
    Hashing(String),
}

/// An account that registration accepted: its role and the Argon2 hash of
/// its password.
pub struct NewAccount {
    pub role: Role,
    pub password_hash: String,
}

/// Decide a registration and hash the password of an accepted one. The
/// stored hash accepts the password it was made from.
pub fn register_account(
    existing_users: usize,
    caller: Option<Role>,
    requested: Option<&str>,
    username: &str,
    password: &str,
) -> (r: Result<NewAccount, RegisterError>)
    ensures
        match spec_register(existing_users as nat, caller, opt_view(requested), username@, password@) {
            Err(e) => r matches Err(RegisterError::Refused(x)) && x == e,
            Ok(role) => match r {
                Ok(a) => a.role == role && spec_argon2_verify(password@, a.password_hash@),
                Err(x) => x is Hashing,
            },
        },
{
    match register_decision(existing_users, caller, requested, username, password) {
        Err(e) => Err(RegisterError::Refused(e)),
        Ok(role) => match hash_password(password) {
            Ok(h) => Ok(NewAccount { role, password_hash: h }),
            Err(m) => Err(RegisterError::Hashing(m)),
        },
    }
}

/// A token lives for a week.
pub const SESSION_SECONDS: i64 = 604800;

/// The outcome of a successful login.
pub struct LoginGrant {
    pub token: String,
    pub role: String,
    pub user_id: String,
    pub expires_at: i64,
}

/// Decide a login: the stored user `(id, password hash, role)`, if the name
/// is known, must accept the password; the session token then lasts a week
/// from `now`.
pub fn login_decision(
    user: Option<(String, String, String)>,
    password: &str,
    secret: &str,
    now: i64,
) -> (r: Result<LoginGrant, TeamError>)
    requires
        now <= i64::MAX - SESSION_SECONDS,
    ensures
        match user {
            None => r == Err::<LoginGrant, TeamError>(TeamError::InvalidCredentials),
            Some((uid, hash, role)) => if spec_argon2_verify(password@, hash@) {
                r matches Ok(g) && g.expires_at == now + SESSION_SECONDS && g.user_id@ == uid@
                    && g.role@ == role@ && g.token@ == spec_sign_token(
                    uid@,
                    secret@,
                    now + SESSION_SECONDS,
                )
            } else {
                r == Err::<LoginGrant, TeamError>(TeamError::InvalidCredentials)
            },
        },
{
    let (uid, hash, role) = match user {
        Some(u) => u,
        None => return Err(TeamError::InvalidCredentials),
    };
    if !verify_password(password, hash.as_str()) {
        return Err(TeamError::InvalidCredentials);
    }
    let expires = now + SESSION_SECONDS;
    let token = sign_token(uid.as_str(), secret, expires);
    Ok(LoginGrant { token, role, user_id: uid, expires_at: expires })
}

/// The library a chat request targets.
pub fn chat_library(requested: Option<String>) -> (lib: String)
    ensures
        lib@ == match requested {
            Some(r) => r@,
            None => "default"@,
        },
{
    match requested {
        Some(r) => r,
        None => "default".to_owned(),
    }
}

/// Whether a caller may chat with a library: admins always, others when they
/// hold a membership role in it.
pub fn may_use_library(role: Role, membership: &Option<String>) -> (b: bool)
    ensures
        b == (role == Role::Admin || membership is Some),
{
    role.can(&Role::Admin) || membership.is_some()
}

/// The libraries a caller may see: all of them for an admin, otherwise those
/// in which the caller is a member (`member[i]` tells for `libs[i]`).
pub open spec fn spec_visible_libraries(
    role: Role,
    libs: Seq<Seq<char>>,
    member: Seq<bool>,
) -> Seq<Seq<char>>
    decreases libs.len(),
{
    if role == Role::Admin || libs.len() == 0 {
        libs
    } else {
        let rest = spec_visible_libraries(role, libs.drop_last(), member);
        if libs.len() - 1 < member.len() && member[libs.len() - 1] {
            rest.push(libs.last())
        } else {
            rest
        }
    }
}

/// The libraries a caller may see.
pub fn visible_libraries(role: Role, libs: Vec<String>, member: &Vec<bool>) -> (r: Vec<String>)
    ensures
        string_views(r@) == spec_visible_libraries(role, string_views(libs@), member@),
{
    if role.can(&Role::Admin) {
        return libs;
    }
    let ghost lv = string_views(libs@);
    let mut out: Vec<String> = Vec::new();
    let mut i: usize = 0;
    assert(lv.take(0) =~= Seq::<Seq<char>>::empty());
    assert(string_views(out@) =~= Seq::<Seq<char>>::empty());
    while i < libs.len()
        invariant
            i <= libs.len(),
            role != Role::Admin,
            lv == string_views(libs@),
            string_views(out@) == spec_visible_libraries(role, lv.take(i as int), member@),
        decreases libs.len() - i,
    {
        assert(lv.take(i + 1).drop_last() =~= lv.take(i as int));
        if i < member.len() && member[i] {
            let ghost old_out = string_views(out@);
            out.push(libs[i].clone());
            assert(string_views(out@) =~= old_out.push(lv[i as int]));
        }
        i = i + 1;
    }
    assert(lv.take(libs@.len() as int) =~= lv);
    out
}

// ---------------------------------------------------------------------------
// Starting and stopping the server
// ---------------------------------------------------------------------------

/// The port the team server listens on: the requested one, 11436 by default.
pub fn team_port(port: Option<u16>) -> (p: u16)
    ensures
        p == match port {
            Some(q) => q,
            None => 11436u16,
        },
{
    match port {
        Some(q) => q,
        None => 11436,
    }
}

/// The answer to a start request on `port`, given whether a server runs.
pub open spec fn spec_start_answer(running: bool, port: u16) -> Seq<char> {
    if running {
        "Team server already running on port "@ + nat_decimal(port as nat)
    } else {
        "Team server listening on http://0.0.0.0:"@ + nat_decimal(port as nat)
    }
}

/// The answer to a start request on `port`: a running server is left as it
/// is; otherwise one is started.
pub fn start_answer(running: bool, port: u16) -> (m: String)
    ensures
        m@ == spec_start_answer(running, port),
{
    let mut m = if running {
        "Team server already running on port ".to_owned()
    } else {
        "Team server listening on http://0.0.0.0:".to_owned()
    };
    push_decimal(&mut m, port as u64);
    m
}

/// The answer to a stop request, given whether a server ran.
pub fn stop_answer(was_running: bool) -> (m: String)
    ensures
        m@ == if was_running {
            "Team server stopped"@
        } else {
            "Team server was not running"@
        },
{
    if was_running {
        "Team server stopped".to_owned()
    } else {
        "Team server was not running".to_owned()
    }
}

/// The server secret kept in the secret file: its content trimmed, unless
/// that is empty (then a new secret is made and written).
pub fn secret_from_file(content: Option<String>) -> (r: Option<String>)
    ensures
        match content {
            Some(c) if trim(c@).len() > 0 => r matches Some(x) && x@ == trim(c@),
            _ => r is None,
        },
{
    match content {
        Some(c) => {
            let cs = chars_of(c.as_str());
            let (a, e) = trim_bounds(&cs);
            if a == e {
                None
            } else {
                Some(crate::text::string_of_range(&cs, a, e))
            }
        },
        None => None,
    }
}

/// The caller of a request, from the session its token opened: the user id
/// and the role stored with it.
pub fn caller_from_session(session: Option<(String, String)>) -> (r: Option<(String, Role)>)
    ensures
        match session {
            Some((uid, role)) => r matches Some((u, x)) && u@ == uid@ && x
                == spec_role_from_lower(spec_to_lowercase(role@)),
            None => r is None,
        },
{
    match session {
        Some((uid, role)) => Some((uid, Role::from_str(role.as_str()))),
        None => None,
    }
}

} // verus!
