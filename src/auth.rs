use vstd::prelude::*;

use crate::error::QuizError;

verus! {

/// The host's login form.
pub struct LoginForm {
    pub password: String,
}

/// Configuration read once at startup: the host's shared secret.
pub struct HostConfig {
    pub host_password: String,
}

/// Whether a request comes from the authenticated host.
#[derive(Clone, Copy, Debug, PartialEq, Eq, Structural)]
pub enum SessionState {
    Unauthenticated,
    Authenticated,
}

/// A cookie to set on the response; the transport signs and encrypts it.
pub struct SessionCookie {
    pub name: String,
    pub value: String,
}

pub open spec fn host_cookie_name() -> Seq<char> {
    seq!['h', 'o', 's', 't', '_', 'a', 'u', 't', 'h', 'e', 'n', 't', 'i', 'c', 'a', 't', 'e', 'd']
}

pub open spec fn true_text() -> Seq<char> {
    seq!['t', 'r', 'u', 'e']
}

/// The session state that the host cookie's value, if any, stands for.
pub open spec fn host_state_of(value: Option<Seq<char>>) -> SessionState {
    match value {
        Some(v) => if v == true_text() {
            SessionState::Authenticated
        } else {
            SessionState::Unauthenticated
        },
        None => SessionState::Unauthenticated,
    }
}

impl HostConfig {
    /// The configuration from the secret found at startup; without one the
    /// service cannot start.
    pub fn new(host_password: Option<String>) -> (r: Result<HostConfig, QuizError>)
        ensures
            match host_password {
                Some(p) => r matches Ok(c) && c.host_password@ == p@,
                None => r == Err::<HostConfig, QuizError>(QuizError::ConfigurationError),
            },
    {
        match host_password {
            Some(p) => Ok(HostConfig { host_password: p }),
            None => Err(QuizError::ConfigurationError),
        }
    }
}

/// Checks the submitted password against the configured secret, character
/// for character. On a match it issues the host cookie with the value
/// `true`; otherwise it issues nothing.
pub fn authenticate(form: &LoginForm, config: &HostConfig) -> (r: Option<SessionCookie>)
    ensures
        r is Some <==> form.password@ == config.host_password@,
        r matches Some(c) ==> c.name@ == host_cookie_name() && c.value@ == true_text(),
{
    if form.password == config.host_password {
        proof {
            reveal_strlit("host_authenticated");
            reveal_strlit("true");
            assert(host_cookie_name() =~= "host_authenticated"@);
            assert(true_text() =~= "true"@);
        }
        Some(
            SessionCookie {
                name: String::from_str("host_authenticated"),
                value: String::from_str("true"),
            },
        )
    } else {
        None
    }
}

impl SessionState {
    /// The state of a request from the value of its host cookie, `None` when
    /// the cookie is absent or failed its integrity check.
    pub fn from_host_cookie(value: Option<&str>) -> (r: SessionState)
        ensures
            r == host_state_of(
                match value {
                    Some(v) => Some(v@),
                    None => None,
                },
            ),
    {
        match value {
            Some(v) => {
                proof {
                    reveal_strlit("true");
                    assert(true_text() =~= "true"@);
                }
                if v.to_owned() == String::from_str("true") {
                    SessionState::Authenticated
                } else {
                    SessionState::Unauthenticated
                }
            },
            None => SessionState::Unauthenticated,
        }
    }
}

/// The host cookie issued on a correct password makes later requests
/// authenticated; with no cookie a request stays unauthenticated.
pub proof fn lemma_login_session(password: Seq<char>, secret: Seq<char>)
    ensures
        host_state_of(if password == secret { Some(true_text()) } else { None }) == (if password
            == secret {
            SessionState::Authenticated
        } else {
            SessionState::Unauthenticated
        }),
{
}

} // verus!
