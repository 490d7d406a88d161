//! The remote connection configuration carried in session state.

use vstd::prelude::*;

verus! {

/// The remote endpoint and credentials.
#[derive(Debug)]
pub struct JiraConfig {
    pub base_url: String,
    pub email: String,
    pub api_token: String,
}

impl Clone for JiraConfig {
    /// An exact copy of the configuration.
    fn clone(&self) -> (r: Self)
        ensures
            r == *self,
    {
        JiraConfig {
            base_url: self.base_url.clone(),
            email: self.email.clone(),
            api_token: self.api_token.clone(),
        }
    }
}

/// Assemble a configuration from stored settings values: complete
/// exactly when all three values are present.
pub fn config_from_settings(
    base_url: Option<String>,
    email: Option<String>,
    api_token: Option<String>,
) -> (r: Option<JiraConfig>)
    ensures
        r is Some <==> (base_url is Some && email is Some && api_token is Some),
        r matches Some(c) ==> c.base_url == base_url->0 && c.email == email->0 && c.api_token
            == api_token->0,
{
    match (base_url, email, api_token) {
        (Some(b), Some(e), Some(t)) => Some(JiraConfig { base_url: b, email: e, api_token: t }),
        _ => None,
    }
}

/// The placeholder shown in place of the stored API token.
pub fn masked_token() -> (r: String)
    ensures
        r@ == "***"@,
{
    String::from_str("***")
}

} // verus!
