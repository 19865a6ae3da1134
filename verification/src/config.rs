use vstd::prelude::*;
use crate::extract::effective_archive_pattern;

verus! {

/// The run configuration the tool reads from its per-user config file, as
/// plain values: where downloads and extractions live, the tracker to talk
/// to, how to authenticate, and the two file-name patterns extraction uses.
pub struct Config {
    pub default_path: String,
    pub jira_url: String,
    pub proxy: Option<String>,
    pub bearer_token: Option<String>,
    pub user_email: Option<String>,
    pub api_token: Option<String>,
    pub logfile_regex: String,
    pub archive_regex: Option<String>,
}

/// How a request to the tracker is to be authenticated: a bearer token, or
/// basic authentication with a user email and an API token.
pub enum AuthMethod {
    Bearer { token: String },
    Basic { email: String, token: String },
}

/// The view of an optional owned pattern text.
pub open spec fn opt_string_view(s: Option<String>) -> Option<Seq<char>> {
    match s {
        Option::Some(x) => Option::Some(x@),
        Option::None => Option::None,
    }
}

impl Config {
    /// The authentication the configuration calls for: the bearer token where
    /// one is set (it takes precedence), else basic authentication where both
    /// the user email and the API token are set, and nothing otherwise.
    pub fn auth_method(&self) -> (r: Option<AuthMethod>)
        ensures
            match r {
                Option::Some(AuthMethod::Bearer { token }) => {
                    &&& self.bearer_token == Option::Some(token)
                },
                Option::Some(AuthMethod::Basic { email, token }) => {
                    &&& self.bearer_token is None
                    &&& self.user_email == Option::Some(email)
                    &&& self.api_token == Option::Some(token)
                },
                Option::None => {
                    &&& self.bearer_token is None
                    &&& (self.user_email is None || self.api_token is None)
                },
            },
    {
        match &self.bearer_token {
            Option::Some(token) => Option::Some(AuthMethod::Bearer { token: token.clone() }),
            Option::None => match (&self.user_email, &self.api_token) {
                (Option::Some(email), Option::Some(token)) => Option::Some(
                    AuthMethod::Basic { email: email.clone(), token: token.clone() },
                ),
                _ => Option::None,
            },
        }
    }

    /// The archive-entry pattern the configuration puts in force: the
    /// configured archive pattern, or the log pattern where none is set.
    pub fn effective_archive_regex(&self) -> (r: &str)
        ensures
            r@ == effective_archive_pattern(
                self.logfile_regex@,
                opt_string_view(self.archive_regex),
            ),
    {
        match &self.archive_regex {
            Option::Some(a) => a.as_str(),
            Option::None => self.logfile_regex.as_str(),
        }
    }
}

} // verus!
