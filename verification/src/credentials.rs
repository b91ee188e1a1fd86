//! Login credentials: a username, an app password, and the server URL.
//!
//! Server text may omit its scheme; `https` is the default, and the
//! scheme of the parsed URL is forced to `https` either way.  Whether
//! the text is a well-formed absolute URL is decided by the `url`
//! crate; everything around that call is verified.

use vstd::prelude::*;
use vstd::string::*;

use crate::text::starts_with_str;

verus! {

/// A failure while building credentials.
#[derive(Clone, Copy, Debug, PartialEq, Eq, Structural)]
pub enum CredentialsError {
    /// The server text does not parse as an absolute URL, even with the
    /// scheme defaulted.
    InvalidUrl,
}

/// An account name, kept verbatim.
pub struct Username {
    name: String,
}

impl View for Username {
    type V = Seq<char>;

    closed spec fn view(&self) -> Seq<char> {
        self.name@
    }
}

impl Username {
    pub fn new(s: String) -> (r: Self)
        ensures
            r@ == s@,
    {
        Username { name: s }
    }

    pub fn as_str(&self) -> (r: &str)
        ensures
            r@ == self@,
    {
        self.name.as_str()
    }
}

/// An app password, kept verbatim.
pub struct Password {
    secret: String,
}

impl View for Password {
    type V = Seq<char>;

    closed spec fn view(&self) -> Seq<char> {
        self.secret@
    }
}

impl Password {
    pub fn new(s: String) -> (r: Self)
        ensures
            r@ == s@,
    {
        Password { secret: s }
    }

    pub fn as_str(&self) -> (r: &str)
        ensures
            r@ == self@,
    {
        self.secret.as_str()
    }
}

pub open spec fn http_prefix() -> Seq<char> {
    seq!['h', 't', 't', 'p', ':', '/', '/']
}

pub open spec fn https_prefix() -> Seq<char> {
    seq!['h', 't', 't', 'p', 's', ':', '/', '/']
}

/// Server text with the scheme defaulted: kept as given when it already
/// starts with `http://` or `https://`, prefixed with `https://`
/// otherwise.
pub open spec fn defaulted_server_text(s: Seq<char>) -> Seq<char> {
    if (s.len() >= 7 && s.take(7) == http_prefix()) || (s.len() >= 8 && s.take(8)
        == https_prefix()) {
        s
    } else {
        https_prefix() + s
    }
}

/// What parsing server text and forcing its scheme to `https` yields:
/// `Some` of the URL's serialized form when the text is an absolute URL
/// that accepts the scheme, `None` otherwise.  The outcome depends on
/// the text alone.
pub uninterp spec fn https_url_of(s: Seq<char>) -> Option<Seq<char>>;

/// Relies on url::Url::parse, url::Url::set_scheme and url::Url's
/// serialization: parses the text, forces the scheme to `https`, and
/// prints the result; all three steps depend on the text alone.
#[verifier::external_body]
fn parse_https_url(s: &str) -> (r: Option<String>)
    ensures
        r is Some <==> https_url_of(s@) is Some,
        r is Some ==> r.unwrap()@ == https_url_of(s@).unwrap(),
{
    match url::Url::parse(s) {
        Ok(mut u) => match u.set_scheme("https") {
            Ok(()) => Some(u.to_string()),
            Err(()) => None,
        },
        Err(_) => None,
    }
}

/// A validated server URL, kept in serialized form with an `https`
/// scheme.
pub struct Server {
    url: String,
}

impl View for Server {
    type V = Seq<char>;

    closed spec fn view(&self) -> Seq<char> {
        self.url@
    }
}

impl Server {
    /// Parse server text, defaulting and forcing the `https` scheme.
    pub fn parse(s: &str) -> (r: Result<Self, CredentialsError>)
        ensures
            r is Ok <==> https_url_of(defaulted_server_text(s@)) is Some,
            r is Ok ==> r.unwrap()@ == https_url_of(defaulted_server_text(s@)).unwrap(),
            r is Err ==> r == Err::<Server, CredentialsError>(CredentialsError::InvalidUrl),
    {
        proof {
            reveal_strlit("http://");
            reveal_strlit("https://");
            assert("http://"@ =~= http_prefix());
            assert("https://"@ =~= https_prefix());
        }
        let has_scheme = starts_with_str(s, "http://") || starts_with_str(s, "https://");
        let parsed = if has_scheme {
            parse_https_url(s)
        } else {
            let mut t = String::from_str("https://");
            t.append(s);
            proof {
                assert(t@ =~= https_prefix() + s@);
            }
            parse_https_url(t.as_str())
        };
        match parsed {
            Some(url) => Ok(Server { url }),
            None => Err(CredentialsError::InvalidUrl),
        }
    }

    /// The serialized URL text.
    pub fn as_str(&self) -> (r: &str)
        ensures
            r@ == self@,
    {
        self.url.as_str()
    }
}

/// One account's credentials.
pub struct Credentials {
    pub username: Username,
    pub password: Password,
    pub server: Server,
}

impl Credentials {
    /// Bundle already-validated parts.
    pub fn new(username: Username, password: Password, server: Server) -> (r: Self)
        ensures
            r.username@ == username@,
            r.password@ == password@,
            r.server@ == server@,
    {
        Credentials { username, password, server }
    }

    /// Build credentials from raw text.  The username and password are
    /// kept verbatim; the server text must parse as an absolute URL
    /// once its scheme is defaulted to `https`.
    pub fn parse(username: &str, password: &str, server: &str) -> (r: Result<
        Self,
        CredentialsError,
    >)
        ensures
            r is Ok <==> https_url_of(defaulted_server_text(server@)) is Some,
            r is Ok ==> {
                &&& r.unwrap().username@ == username@
                &&& r.unwrap().password@ == password@
                &&& r.unwrap().server@ == https_url_of(defaulted_server_text(server@)).unwrap()
            },
            r is Err ==> r == Err::<Credentials, CredentialsError>(CredentialsError::InvalidUrl),
    {
        let server = match Server::parse(server) {
            Ok(s) => s,
            Err(e) => {
                return Err(e);
            },
        };
        Ok(
            Credentials {
                username: Username::new(username.to_owned()),
                password: Password::new(password.to_owned()),
                server,
            },
        )
    }
}

} // verus!
