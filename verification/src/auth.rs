//! The rules of authorization: which roles a holder of claims has, when a
//! token expires, what a header must hold, and whom a route lets pass.
//! Signing and verifying tokens is not done here.

use vstd::prelude::*;
use vstd::slice::slice_index_get;
use crate::text::{chars_of, same_text};

verus! {

/// Why a request is not authorized.
#[derive(Debug, Clone, Copy, PartialEq, Eq)]
pub enum AuthError {
    InvalidToken,
    MissingToken,
    InsufficientPermissions,
    TokenExpired,
}

impl AuthError {
    /// The sentence that reports the error.
    pub open spec fn message_text(self) -> Seq<char> {
        match self {
            AuthError::InvalidToken => "Invalid token"@,
            AuthError::MissingToken => "Missing authorization header"@,
            AuthError::InsufficientPermissions => "Insufficient permissions"@,
            AuthError::TokenExpired => "Token expired"@,
        }
    }

    /// The sentence that reports the error.
    pub fn message(&self) -> (text: String)
        ensures
            text@ == self.message_text(),
    {
        match self {
            AuthError::InvalidToken => "Invalid token".to_owned(),
            AuthError::MissingToken => "Missing authorization header".to_owned(),
            AuthError::InsufficientPermissions => "Insufficient permissions".to_owned(),
            AuthError::TokenExpired => "Token expired".to_owned(),
        }
    }
}

/// Whom a token stands for: a user, or another service.
#[derive(Debug, Clone, Copy, PartialEq, Eq)]
pub enum TokenType {
    User,
    System,
}

/// What a token claims.
#[derive(Debug, Clone, PartialEq, Eq)]
pub struct Claims {
    /// Whom the token stands for.
    pub sub: String,
    pub roles: Vec<String>,
    /// The second, counted from 1970, at which the token expires.
    pub exp: usize,
    pub token_type: TokenType,
}

/// `Claims` as a mathematical value.
pub struct ClaimsView {
    pub sub: Seq<char>,
    pub roles: Seq<Seq<char>>,
    pub exp: nat,
    pub token_type: TokenType,
}

impl DeepView for Claims {
    type V = ClaimsView;

    open spec fn deep_view(&self) -> ClaimsView {
        ClaimsView {
            sub: self.sub@,
            roles: self.roles.deep_view(),
            exp: self.exp as nat,
            token_type: self.token_type,
        }
    }
}

impl View for Claims {
    type V = ClaimsView;

    open spec fn view(&self) -> ClaimsView {
        self.deep_view()
    }
}

impl ClaimsView {
    /// Whether the claims hold one of `roles`.
    pub open spec fn has_any_role(self, roles: Seq<Seq<char>>) -> bool {
        exists|i: int| 0 <= i < roles.len() && self.roles.contains(#[trigger] roles[i])
    }
}

/// The claims of a request that was let in.
#[derive(Debug, Clone, PartialEq, Eq)]
pub struct AuthUser(pub Claims);

/// What a route answers to a request.
#[derive(Debug, Clone, Copy, PartialEq, Eq)]
pub enum Verdict {
    /// The request goes on.
    Pass,
    /// The request is not authenticated.
    Unauthorized,
    /// The request is authenticated and lacks a role.
    Forbidden,
}

/// The service that issues and checks tokens. It holds the secret from which
/// the keys are made.
#[derive(Clone)]
pub struct AuthService {
    secret: Vec<u8>,
}

/// The seconds of an hour.
pub const SECONDS_PER_HOUR: i64 = 3600;

/// The word before the token in an `Authorization` header, with its space.
pub open spec fn scheme() -> Seq<char> {
    "Bearer "@
}

/// Whether `text` begins with `prefix`.
pub open spec fn begins_with(text: Seq<char>, prefix: Seq<char>) -> bool {
    prefix.len() <= text.len() && text.take(prefix.len() as int) == prefix
}

/// `text` without `prefix` at its start, as often as it stands there.
pub open spec fn without_leading(text: Seq<char>, prefix: Seq<char>) -> Seq<char>
    decreases text.len(),
{
    if prefix.len() > 0 && begins_with(text, prefix) {
        without_leading(text.skip(prefix.len() as int), prefix)
    } else {
        text
    }
}

/// The token that a header holds: what follows `Bearer `, where the header
/// begins with it.
pub open spec fn bearer_of(header: Seq<char>) -> Option<Seq<char>> {
    if begins_with(header, scheme()) {
        Some(without_leading(header, scheme()))
    } else {
        None
    }
}

/// The second at which a token expires that is issued at the second `now`
/// for `hours` hours, where that second is not before 1970 and can be held.
pub open spec fn expiration_of(now: i64, hours: i64) -> Option<usize> {
    let at = now + hours * SECONDS_PER_HOUR;
    if i64::MIN <= hours * SECONDS_PER_HOUR <= i64::MAX && 0 <= at <= i64::MAX && at
        <= usize::MAX {
        Some(at as usize)
    } else {
        None
    }
}

/// What a route that asks for one of `required` answers to a request with
/// the given claims.
pub open spec fn verdict_of(claims: Option<ClaimsView>, required: Seq<Seq<char>>) -> Verdict {
    match claims {
        None => Verdict::Unauthorized,
        Some(held) => if held.has_any_role(required) {
            Verdict::Pass
        } else {
            Verdict::Forbidden
        },
    }
}

/// Whether `text` holds `prefix` at the position `at`.
fn holds_at(text: &Vec<char>, prefix: &Vec<char>, at: usize) -> (yes: bool)
    requires
        at <= text.len(),
    ensures
        yes == begins_with(text@.skip(at as int), prefix@),
{
    if prefix.len() > text.len() - at {
        return false;
    }
    let ghost rest = text@.skip(at as int);
    let mut i: usize = 0;
    while i < prefix.len()
        invariant
            i <= prefix.len(),
            at + prefix.len() <= text.len(),
            rest == text@.skip(at as int),
            rest.take(i as int) == prefix@.take(i as int),
        decreases prefix.len() - i,
    {
        if text[at + i] != prefix[i] {
            assert(rest.take(prefix.len() as int)[i as int] != prefix@[i as int]);
            return false;
        }
        assert(rest[i as int] == prefix@[i as int]);
        assert(rest.take(i + 1) == rest.take(i as int).push(rest[i as int]));
        assert(prefix@.take(i + 1) == prefix@.take(i as int).push(prefix@[i as int]));
        i += 1;
    }
    assert(prefix@.take(prefix.len() as int) == prefix@);
    true
}

impl Claims {
    /// Whether the claims are of the wanted kind.
    pub fn is_of(&self, wanted: TokenType) -> (yes: bool)
        ensures
            yes == (self.token_type == wanted),
    {
        match (self.token_type, wanted) {
            (TokenType::User, TokenType::User) => true,
            (TokenType::System, TokenType::System) => true,
            _ => false,
        }
    }
}

impl AuthService {
    /// The service for the given secret.
    pub fn new(secret: &[u8]) -> (service: Self)
        ensures
            service.secret() == secret@,
    {
        let mut copy: Vec<u8> = Vec::new();
        let mut i: usize = 0;
        while i < secret.len()
            invariant
                i <= secret.len(),
                copy@ == secret@.take(i as int),
            decreases secret.len() - i,
        {
            copy.push(*slice_index_get(secret, i));
            assert(secret@.take(i + 1) == secret@.take(i as int).push(secret@[i as int]));
            i += 1;
        }
        assert(secret@.take(secret.len() as int) == secret@);
        AuthService { secret: copy }
    }

    /// The secret of the service.
    pub closed spec fn secret(self) -> Seq<u8> {
        self.secret@
    }

    /// The secret from which the keys are made.
    pub fn secret_bytes(&self) -> (bytes: &Vec<u8>)
        ensures
            bytes@ == self.secret(),
    {
        &self.secret
    }

    /// Whether the claims hold the role.
    pub fn has_role(&self, claims: &Claims, required_role: &str) -> (yes: bool)
        ensures
            yes == claims@.roles.contains(required_role@),
    {
        let ghost roles = claims.roles.deep_view();
        let mut i: usize = 0;
        while i < claims.roles.len()
            invariant
                i <= claims.roles.len(),
                roles == claims.roles.deep_view(),
                forall|k: int| 0 <= k < i ==> roles[k] != required_role@,
            decreases claims.roles.len() - i,
        {
            assert(roles[i as int] == claims.roles[i as int]@);
            if same_text(claims.roles[i].as_str(), required_role) {
                assert(roles.contains(roles[i as int]));
                return true;
            }
            i += 1;
        }
        false
    }

    /// Whether the claims hold one of the roles.
    pub fn has_any_role(&self, claims: &Claims, required_roles: &[String]) -> (yes: bool)
        ensures
            yes == claims@.has_any_role(required_roles.deep_view()),
    {
        let ghost wanted = required_roles.deep_view();
        let mut i: usize = 0;
        while i < required_roles.len()
            invariant
                i <= required_roles.len(),
                wanted == required_roles.deep_view(),
                forall|k: int| 0 <= k < i ==> !claims@.roles.contains(#[trigger] wanted[k]),
            decreases required_roles.len() - i,
        {
            let role = slice_index_get(required_roles, i);
            assert(wanted[i as int] == role@);
            if self.has_role(claims, role.as_str()) {
                return true;
            }
            i += 1;
        }
        false
    }

    /// The second at which a token expires that is issued at the second
    /// `now` for `expires_in_hours` hours.
    pub fn expiration(now: i64, expires_in_hours: i64) -> (at: Option<usize>)
        ensures
            at == expiration_of(now, expires_in_hours),
    {
        let seconds = match expires_in_hours.checked_mul(SECONDS_PER_HOUR) {
            Some(s) => s,
            None => return None,
        };
        let at = match now.checked_add(seconds) {
            Some(a) => a,
            None => return None,
        };
        if at < 0 {
            return None;
        }
        let wide = at as u64;
        if wide > usize::MAX as u64 {
            return None;
        }
        Some(wide as usize)
    }

    /// The claims of a token for `user_id` that expires at the second
    /// `expiration`.
    pub fn claims_for(user_id: &str, roles: Vec<String>, token_type: TokenType, expiration: usize)
        -> (claims: Claims)
        ensures
            claims@ == (ClaimsView {
                sub: user_id@,
                roles: roles.deep_view(),
                exp: expiration as nat,
                token_type,
            }),
    {
        Claims { sub: user_id.to_owned(), roles, exp: expiration, token_type }
    }

    /// The token that an `Authorization` header holds.
    pub fn bearer_token(header: &str) -> (token: Option<String>)
        ensures
            token.deep_view() == bearer_of(header@),
    {
        let text = chars_of(header);
        let word = chars_of("Bearer ");
        proof {
            reveal_strlit("Bearer ");
            assert(text@.skip(0) == text@);
        }
        if !holds_at(&text, &word, 0) {
            return None;
        }
        let mut at: usize = 0;
        while holds_at(&text, &word, at)
            invariant
                at <= text.len(),
                word@ == scheme(),
                word@.len() == 7,
                without_leading(text@, scheme()) == without_leading(text@.skip(at as int), scheme()),
            decreases text.len() - at,
        {
            assert(text@.skip(at as int).skip(7) == text@.skip(at + 7));
            at += 7;
        }
        let mut token = String::new();
        let mut i: usize = at;
        while i < text.len()
            invariant
                at <= i <= text.len(),
                token@ == text@.subrange(at as int, i as int),
            decreases text.len() - i,
        {
            token.push(text[i]);
            assert(text@.subrange(at as int, i + 1) == text@.subrange(at as int, i as int).push(
                text@[i as int],
            ));
            i += 1;
        }
        assert(text@.subrange(at as int, text.len() as int) == text@.skip(at as int));
        Some(token)
    }

    /// What a route that lets only one kind of token pass answers to a
    /// request with the given claims.
    pub fn check_kind(claims: &Claims, wanted: TokenType) -> (verdict: Verdict)
        ensures
            verdict == if claims.token_type == wanted {
                Verdict::Pass
            } else {
                Verdict::Unauthorized
            },
    {
        if claims.is_of(wanted) {
            Verdict::Pass
        } else {
            Verdict::Unauthorized
        }
    }

    /// What a route that asks for one of `required_roles` answers to a
    /// request with the given claims.
    pub fn check_roles(&self, claims: Option<&Claims>, required_roles: &[String]) -> (verdict:
        Verdict)
        ensures
            verdict == verdict_of(claims.deep_view(), required_roles.deep_view()),
    {
        match claims {
            None => Verdict::Unauthorized,
            Some(held) => if self.has_any_role(held, required_roles) {
                Verdict::Pass
            } else {
                Verdict::Forbidden
            },
        }
    }
}

} // verus!
