//! Authentication and authorization core of a club storeroom service:
//! the OIDC login challenge and callback checks, the signed session token
//! carried in a cookie, club-scoped permission resolution, and the
//! per-request authorization decision.

pub mod clubs;
pub mod codec;
pub mod error;
pub mod login;
pub mod middleware;
pub mod outside;
pub mod perm;
pub mod resolver;
pub mod token;
