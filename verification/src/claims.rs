//! Token claims consumed by the session authentication flow.
//!
//! Tokens are issued and cryptographically verified by an external
//! collaborator; this crate receives the decoded claims as plain values and
//! decides what they entitle the session to.

use vstd::prelude::*;

use crate::models::UserRole;

verus! {

/// The kind of token a set of claims belongs to. Only access tokens may
/// authenticate a live connection.
#[derive(Debug, Clone, PartialEq, Eq)]
pub enum TypeClaims {
    RefreshToken,
    AccessToken,
}

/// Decoded token claims: the subject user, issue and expiry moments
/// (seconds since the epoch; expiry is enforced by the verifier), an
/// optional token id, the subject's role and the token kind.
#[derive(Debug, Clone, PartialEq, Eq)]
pub struct Claims {
    pub sub: u128,
    pub iat: u64,
    pub exp: u64,
    pub jti: Option<u128>,
    pub role: UserRole,
    pub _type: Option<TypeClaims>,
}

impl Claims {
    /// Fresh claims for `sub`, issued at `now` and expiring `exp` seconds
    /// later, with no token id and no kind yet.
    pub fn new(sub: u128, role: UserRole, now: u64, exp: u64) -> (r: Claims)
        requires
            now + exp <= u64::MAX,
        ensures
            r.sub == sub,
            r.iat == now,
            r.exp == now + exp,
            r.jti == Option::<u128>::None,
            r.role == role,
            r._type == Option::<TypeClaims>::None,
    {
        Claims { sub, iat: now, exp: now + exp, jti: Option::None, role, _type: Option::None }
    }

    /// The same claims carrying a token id.
    pub fn with_jti(self, jti: u128) -> (r: Claims)
        ensures
            r.sub == self.sub,
            r.iat == self.iat,
            r.exp == self.exp,
            r.jti == Option::Some(jti),
            r.role == self.role,
            r._type == self._type,
    {
        Claims {
            sub: self.sub,
            iat: self.iat,
            exp: self.exp,
            jti: Option::Some(jti),
            role: self.role,
            _type: self._type,
        }
    }

    /// The same claims carrying a token kind.
    pub fn with_type(self, _type: TypeClaims) -> (r: Claims)
        ensures
            r.sub == self.sub,
            r.iat == self.iat,
            r.exp == self.exp,
            r.jti == self.jti,
            r.role == self.role,
            r._type == Option::Some(_type),
    {
        Claims {
            sub: self.sub,
            iat: self.iat,
            exp: self.exp,
            jti: self.jti,
            role: self.role,
            _type: Option::Some(_type),
        }
    }

    /// Whether these claims may authenticate a live connection.
    pub fn is_access_token(&self) -> (r: bool)
        ensures
            r == (self._type == Option::Some(TypeClaims::AccessToken)),
    {
        match &self._type {
            Option::Some(t) => match t {
                TypeClaims::AccessToken => true,
                TypeClaims::RefreshToken => false,
            },
            Option::None => false,
        }
    }
}

} // verus!
