//! What an account signs in with.

use vstd::prelude::*;

verus! {

/// How an account signs in.
#[derive(Clone, Copy, PartialEq, Eq, Structural, Debug)]
pub enum AuthMethod {
    OAuth2,
    Password,
}

/// What an account signs in with.
#[derive(Debug)]
pub enum Credential {
    OAuth2AccessToken(String),
    Password(String),
}

/// What to ask the desktop for, once it has checked its credentials.
#[derive(Clone, Copy, PartialEq, Eq, Structural, Debug)]
pub enum SecretRequest {
    AccessToken,
    Password,
}

/// What to ask the desktop for.
pub fn secret_request(auth: AuthMethod) -> (r: SecretRequest)
    ensures
        r == (match auth {
            AuthMethod::OAuth2 => SecretRequest::AccessToken,
            AuthMethod::Password => SecretRequest::Password,
        }),
{
    match auth {
        AuthMethod::OAuth2 => SecretRequest::AccessToken,
        AuthMethod::Password => SecretRequest::Password,
    }
}

/// What an account signs in with, given whether the desktop could check its credentials and what it
/// gave out.
pub fn credential(
    auth: AuthMethod,
    checked: Result<(), String>,
    secret: Result<String, String>,
) -> (r: Result<Credential, String>)
    ensures
        match (checked, secret) {
            (Err(e), _) => r == Err::<Credential, String>(e),
            (Ok(_), Err(e)) => r == Err::<Credential, String>(e),
            (Ok(_), Ok(s)) => match auth {
                AuthMethod::OAuth2 => r == Ok::<Credential, String>(Credential::OAuth2AccessToken(s)),
                AuthMethod::Password => r == Ok::<Credential, String>(Credential::Password(s)),
            },
        },
{
    if let Err(e) = checked {
        return Err(e);
    }
    match secret {
        Ok(s) => match auth {
            AuthMethod::OAuth2 => Ok(Credential::OAuth2AccessToken(s)),
            AuthMethod::Password => Ok(Credential::Password(s)),
        },
        Err(e) => Err(e),
    }
}

} // verus!
