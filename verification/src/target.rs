//! Where an LDAP URL leads.
use crate::ascii::COLON;
use crate::text::same_text;
use percent_encoding::percent_decode;
use url::Url;
use vstd::prelude::*;
use vstd::string::StringExecFns;
use vstd::utf8::encode_utf8;

verus! {

/// `url::ParseError`, which the URL parser gives where text is no URL.
#[verifier::external_type_specification]
#[verifier::external_body]
pub struct ExParseError(url::ParseError);

/// The parts of a URL that lead to a server.
#[derive(Debug)]
pub struct LdapUrl {
    pub scheme: String,
    pub host: Option<String>,
    pub port: Option<u16>,
}

/// What an [`LdapUrl`] says.
#[verifier::ext_equal]
pub struct UrlParts {
    pub scheme: Seq<char>,
    pub host: Option<Seq<char>>,
    pub port: Option<u16>,
}

impl View for LdapUrl {
    type V = UrlParts;

    open spec fn view(&self) -> UrlParts {
        UrlParts {
            scheme: self.scheme@,
            host: match self.host {
                Some(host) => Some(host@),
                None => None,
            },
            port: self.port,
        }
    }
}

/// Scheme, host and port of the URL that a text is, if it is one.
pub uninterp spec fn url_parts(text: Seq<char>) -> Option<
    (Seq<char>, Option<Seq<char>>, Option<u16>),
>;

/// What percent-encoded text stands for, with replacement characters for what is not UTF-8.
pub uninterp spec fn percent_decoded(text: Seq<u8>) -> Seq<char>;

/// `Url::parse`, with `scheme`, `host_str` and `port` of the URL: a function of the text.
#[verifier::external_body]
fn parse_url(text: &str) -> (r: Result<LdapUrl, url::ParseError>)
    ensures
        match url_parts(text@) {
            Some((scheme, host, port)) => r is Ok && r->Ok_0@ == (UrlParts { scheme, host, port }),
            None => r is Err,
        },
{
    Url::parse(text).map(|url| LdapUrl {
        scheme: url.scheme().to_owned(),
        host: url.host_str().map(str::to_owned),
        port: url.port(),
    })
}

/// `percent_decode` and `decode_utf8_lossy` of its result: a function of the bytes.
#[verifier::external_body]
fn decode_path(path: &[u8]) -> (r: String)
    ensures
        r@ == percent_decoded(path@),
{
    percent_decode(path).decode_utf8_lossy().into_owned()
}

/// Decimal digits of a number.
pub open spec fn decimal(n: nat) -> Seq<char>
    decreases n,
{
    if n < 10 {
        seq![(n + 48) as u8 as char]
    } else {
        decimal(n / 10).push((n % 10 + 48) as u8 as char)
    }
}

fn digit_text(n: u16) -> (r: &'static str)
    requires
        n < 10,
    ensures
        r@ == decimal(n as nat),
{
    proof {
        reveal_strlit("0");
        reveal_strlit("1");
        reveal_strlit("2");
        reveal_strlit("3");
        reveal_strlit("4");
        reveal_strlit("5");
        reveal_strlit("6");
        reveal_strlit("7");
        reveal_strlit("8");
        reveal_strlit("9");
    }
    match n {
        0 => "0",
        1 => "1",
        2 => "2",
        3 => "3",
        4 => "4",
        5 => "5",
        6 => "6",
        7 => "7",
        8 => "8",
        _ => "9",
    }
}

/// The number in decimal.
fn decimal_text(n: u16) -> (r: String)
    ensures
        r@ == decimal(n as nat),
    decreases n,
{
    if n < 10 {
        digit_text(n).to_owned()
    } else {
        let mut text = decimal_text(n / 10);
        text.append(digit_text(n % 10));
        assert(text@ =~= decimal(n as nat));
        text
    }
}

/// The host, a colon and the port in decimal.
fn host_port(host: &str, port: u16) -> (r: String)
    ensures
        r@ == host@ + seq![':'] + decimal(port as nat),
{
    let mut address = host.to_owned();
    address.append(":");
    address.append(decimal_text(port).as_str());
    proof {
        reveal_strlit(":");
    }
    assert(address@ =~= host@ + seq![':'] + decimal(port as nat));
    address
}

/// Why a URL leads nowhere.
#[derive(Debug)]
pub enum TargetError {
    /// The text is no URL.
    UrlParsing,
    UnknownScheme(String),
    EmptyUnixPath,
    PortInUnixPath,
    /// The stream that was supplied is not of the kind that the URL asks for.
    MismatchedStreamType,
    /// The URL has no place for a host.
    MissingHost,
}

/// How a TCP connection is secured.
#[derive(Clone, Copy, Debug, PartialEq, Eq, Structural)]
pub enum Security {
    Plain,
    StartTls,
    Tls,
}

/// The kind of a stream that was supplied.
#[derive(Clone, Copy, Debug, PartialEq, Eq, Structural)]
pub enum StreamKind {
    Tcp,
    Unix,
    Invalid,
}

/// What to connect to. Where a stream was supplied, that is used in place of a new one.
#[derive(Debug)]
pub enum Target {
    UnixStream,
    UnixPath(String),
    Tcp { security: Security, host: String, address: String, supplied: bool },
}

/// What a URL leads to.
pub enum Destination {
    UnixStream,
    UnixPath(Seq<char>),
    Tcp { security: Security, host: Seq<char>, address: Seq<char>, supplied: bool },
    UrlParsing,
    UnknownScheme(Seq<char>),
    EmptyUnixPath,
    PortInUnixPath,
    MismatchedStreamType,
    MissingHost,
}

/// What a result says.
pub open spec fn destination_of(r: Result<Target, TargetError>) -> Destination {
    match r {
        Ok(Target::UnixStream) => Destination::UnixStream,
        Ok(Target::UnixPath(path)) => Destination::UnixPath(path@),
        Ok(Target::Tcp { security, host, address, supplied }) => Destination::Tcp {
            security,
            host: host@,
            address: address@,
            supplied,
        },
        Err(TargetError::UrlParsing) => Destination::UrlParsing,
        Err(TargetError::UnknownScheme(scheme)) => Destination::UnknownScheme(scheme@),
        Err(TargetError::EmptyUnixPath) => Destination::EmptyUnixPath,
        Err(TargetError::PortInUnixPath) => Destination::PortInUnixPath,
        Err(TargetError::MismatchedStreamType) => Destination::MismatchedStreamType,
        Err(TargetError::MissingHost) => Destination::MissingHost,
    }
}

/// Security and default port of a scheme.
pub open spec fn scheme_of(scheme: Seq<char>, starttls: bool) -> Option<(Security, u16)> {
    if scheme == "ldap"@ {
        Some(
            (
                if starttls {
                    Security::StartTls
                } else {
                    Security::Plain
                },
                389,
            ),
        )
    } else if scheme == "ldaps"@ {
        Some((Security::Tls, 636))
    } else {
        None
    }
}

/// Where a URL for TCP leads.
pub open spec fn tcp_destination(
    url: UrlParts,
    starttls: bool,
    stream: Option<StreamKind>,
) -> Destination {
    match scheme_of(url.scheme, starttls) {
        None => Destination::UnknownScheme(url.scheme),
        Some((security, default_port)) => match url.host {
            None => Destination::MissingHost,
            Some(given) => {
                let host = if given.len() == 0 {
                    "localhost"@
                } else {
                    given
                };
                let port = match url.port {
                    Some(port) => port,
                    None => default_port,
                };
                if stream is None || stream == Some(StreamKind::Tcp) {
                    Destination::Tcp {
                        security,
                        host,
                        address: host + seq![':'] + decimal(port as nat),
                        supplied: stream is Some,
                    }
                } else {
                    Destination::MismatchedStreamType
                }
            },
        },
    }
}

/// Where a URL for a Unix domain socket leads. Its host is the path of the socket.
pub open spec fn unix_destination(url: UrlParts, stream: Option<StreamKind>) -> Destination {
    match stream {
        Some(StreamKind::Unix) => Destination::UnixStream,
        Some(_) => Destination::MismatchedStreamType,
        None => {
            let path = match url.host {
                Some(host) => encode_utf8(host),
                None => Seq::empty(),
            };
            if path.len() == 0 {
                Destination::EmptyUnixPath
            } else if path.contains(COLON) {
                Destination::PortInUnixPath
            } else {
                Destination::UnixPath(percent_decoded(path))
            }
        },
    }
}

/// Where a URL leads.
pub open spec fn destination(
    url: UrlParts,
    starttls: bool,
    stream: Option<StreamKind>,
) -> Destination {
    if url.scheme == "ldapi"@ {
        unix_destination(url, stream)
    } else {
        tcp_destination(url, starttls, stream)
    }
}

fn has_colon(bytes: &[u8]) -> (r: bool)
    ensures
        r == bytes@.contains(COLON),
{
    let n: usize = bytes.len();
    for k in 0..n
        invariant
            n == bytes@.len(),
            forall|i: int| 0 <= i < k ==> bytes@[i] != COLON,
    {
        if bytes[k] == COLON {
            return true;
        }
    }
    false
}

fn unix_target(url: &LdapUrl, stream: Option<StreamKind>) -> (r: Result<Target, TargetError>)
    ensures
        destination_of(r) == unix_destination(url@, stream),
{
    match stream {
        Some(StreamKind::Unix) => Ok(Target::UnixStream),
        Some(_) => Err(TargetError::MismatchedStreamType),
        None => match &url.host {
            None => Err(TargetError::EmptyUnixPath),
            Some(host) => {
                let path = host.as_str().as_bytes();
                if path.len() == 0 {
                    return Err(TargetError::EmptyUnixPath);
                }
                if has_colon(path) {
                    return Err(TargetError::PortInUnixPath);
                }
                Ok(Target::UnixPath(decode_path(path)))
            },
        },
    }
}

fn tcp_target(url: &LdapUrl, starttls: bool, stream: Option<StreamKind>) -> (r: Result<
    Target,
    TargetError,
>)
    ensures
        destination_of(r) == tcp_destination(url@, starttls, stream),
{
    let (security, default_port): (Security, u16) = if same_text(url.scheme.as_str(), "ldap") {
        (
            if starttls {
                Security::StartTls
            } else {
                Security::Plain
            },
            389,
        )
    } else if same_text(url.scheme.as_str(), "ldaps") {
        (Security::Tls, 636)
    } else {
        return Err(TargetError::UnknownScheme(url.scheme.clone()));
    };
    let host = match &url.host {
        None => return Err(TargetError::MissingHost),
        Some(given) => if given.as_str().is_empty() {
            "localhost".to_owned()
        } else {
            given.clone()
        },
    };
    let port: u16 = match url.port {
        Some(port) => port,
        None => default_port,
    };
    let supplied = match stream {
        None => false,
        Some(StreamKind::Tcp) => true,
        Some(_) => return Err(TargetError::MismatchedStreamType),
    };
    let address = host_port(host.as_str(), port);
    Ok(Target::Tcp { security, host, address, supplied })
}

/// Where the URL leads.
pub fn target(url: &LdapUrl, starttls: bool, stream: Option<StreamKind>) -> (r: Result<
    Target,
    TargetError,
>)
    ensures
        destination_of(r) == destination(url@, starttls, stream),
{
    if same_text(url.scheme.as_str(), "ldapi") {
        unix_target(url, stream)
    } else {
        tcp_target(url, starttls, stream)
    }
}

/// Where the URL that a text is leads.
pub fn target_of(text: &str, starttls: bool, stream: Option<StreamKind>) -> (r: Result<
    Target,
    TargetError,
>)
    ensures
        destination_of(r) == match url_parts(text@) {
            Some((scheme, host, port)) => destination(
                UrlParts { scheme, host, port },
                starttls,
                stream,
            ),
            None => Destination::UrlParsing,
        },
{
    match parse_url(text) {
        Ok(url) => target(&url, starttls, stream),
        Err(_) => Err(TargetError::UrlParsing),
    }
}

} // verus!
