//! Claim shapes of the authentication collaborator.
//!
//! Authentication itself (token verification, key fetching) is outside the
//! core; these are the plain values it hands over.

use vstd::prelude::*;

verus! {

/// Claims as they arrive in a token, with linked accounts still encoded.
pub struct RawClaims {
    pub sub: String,
    pub iss: String,
    pub aud: String,
    pub exp: usize,
    pub iat: usize,
    pub linked_accounts: Option<String>,
    pub custom_metadata: Option<String>,
}

/// One account linked to an identity.
pub struct LinkedAccount {
    pub id: Option<String>,
    pub account_type: String,
    pub address: Option<String>,
    pub chain_type: Option<String>,
    pub wallet_client_type: Option<String>,
    pub subject: Option<String>,
    pub email: Option<String>,
    pub name: Option<String>,
    pub lv: Option<u64>,
}

/// Claims with the linked accounts decoded.
pub struct PrivyClaims {
    pub sub: String,
    pub iss: String,
    pub aud: String,
    pub exp: usize,
    pub iat: usize,
    pub linked_accounts: Vec<LinkedAccount>,
    pub custom_metadata: Option<String>,
}

/// The authenticated caller as the handlers see it.
pub struct AuthUser {
    pub wallet_id: String,
    pub email: String,
    pub name: String,
    pub solana_address: String,
    pub is_admin: bool,
}

} // verus!
