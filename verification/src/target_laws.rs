//! What holds of URLs and the servers that they lead to.
use crate::target::{
    decimal, destination_of, percent_decoded, target, target_of, url_parts, LdapUrl, Security,
    StreamKind, Target, TargetError,
};
use vstd::prelude::*;
use vstd::utf8::encode_utf8;

verus! {

/// The number that decimal digits stand for.
pub open spec fn decimal_value(s: Seq<char>) -> int
    decreases s.len(),
{
    if s.len() == 0 {
        0
    } else {
        decimal_value(s.drop_last()) * 10 + (s.last() as int - '0' as int)
    }
}

/// Decimal digits without a zero in front of others, which stand for the number.
pub open spec fn is_decimal(s: Seq<char>, n: nat) -> bool {
    &&& s.len() >= 1
    &&& forall|k: int| 0 <= k < s.len() ==> '0' <= #[trigger] s[k] <= '9'
    &&& s.len() > 1 ==> s[0] != '0'
    &&& decimal_value(s) == n
}

proof fn lemma_decimal(n: nat)
    ensures
        is_decimal(decimal(n), n),
        n > 0 ==> decimal(n)[0] != '0',
    decreases n,
{
    reveal_with_fuel(decimal_value, 2);
    let s = decimal(n);
    if n < 10 {
        assert(s.drop_last() =~= Seq::<char>::empty());
    } else {
        lemma_decimal(n / 10);
        let front = decimal(n / 10);
        assert(s.drop_last() =~= front);
        assert forall|k: int| 0 <= k < s.len() implies '0' <= #[trigger] s[k] <= '9' by {
            if k < front.len() {
                assert(s[k] == front[k]);
            }
        }
        assert(s[0] == front[0]);
    }
}

/// The address, without what stands before the port.
pub open spec fn names_port(address: Seq<char>, host: Seq<char>, port: u16) -> bool {
    &&& address.len() > host.len() + 1
    &&& address.take(host.len() as int) == host
    &&& address[host.len() as int] == ':'
    &&& is_decimal(address.skip(1 + host.len() as int), port as nat)
}

/// A TCP connection goes to the host and port of the URL: to this machine without a host, and to
/// the port of the scheme without one. It is secured as the scheme says, and upgraded only if that
/// was asked for. A stream that was supplied is used exactly if it is one.
pub proof fn tcp_urls_lead_to_their_host(
    url: LdapUrl,
    starttls: bool,
    stream: Option<StreamKind>,
    security: Security,
    host: String,
    address: String,
    supplied: bool,
)
    requires
        call_ensures(
            target,
            (&url, starttls, stream),
            Ok(Target::Tcp { security, host, address, supplied }),
        ),
    ensures
        url.scheme@ == "ldap"@ || url.scheme@ == "ldaps"@,
        url.host matches Some(given) && host@ == if given@.len() > 0 {
            given@
        } else {
            "localhost"@
        },
        names_port(
            address@,
            host@,
            match url.port {
                Some(port) => port,
                None => if url.scheme@ == "ldap"@ {
                    389
                } else {
                    636
                },
            },
        ),
        security == Security::Tls <==> url.scheme@ == "ldaps"@,
        security == Security::StartTls <==> url.scheme@ == "ldap"@ && starttls,
        supplied <==> stream is Some,
        stream is None || stream == Some(StreamKind::Tcp),
{
    reveal_strlit("ldap");
    reveal_strlit("ldaps");
    reveal_strlit("ldapi");
    assert("ldap"@.len() != "ldaps"@.len());
    assert("ldap"@.len() != "ldapi"@.len());
    assert("ldaps"@[4] != "ldapi"@[4]);
    let port: u16 = match url.port {
        Some(port) => port,
        None => if url.scheme@ == "ldap"@ {
            389
        } else {
            636
        },
    };
    lemma_decimal(port as nat);
    assert(address@.take(host@.len() as int) =~= host@);
    assert(address@.skip(1 + host@.len() as int) =~= decimal(port as nat));
}

/// A URL for a Unix domain socket leads to a path that is not empty, or to the stream that was
/// supplied.
pub proof fn unix_urls_lead_to_a_path(
    url: LdapUrl,
    starttls: bool,
    stream: Option<StreamKind>,
    r: Result<Target, TargetError>,
)
    requires
        call_ensures(target, (&url, starttls, stream), r),
    ensures
        (r matches Ok(Target::UnixStream)) <==> url.scheme@ == "ldapi"@ && stream == Some(
            StreamKind::Unix,
        ),
        (r matches Ok(Target::UnixPath(_))) <==> url.scheme@ == "ldapi"@ && stream is None && (
        url.host matches Some(path) && encode_utf8(path@).len() > 0 && !encode_utf8(
            path@,
        ).contains(58)),
        r matches Ok(Target::UnixPath(path)) ==> path@ == percent_decoded(
            encode_utf8(url.host->0@),
        ),
{
    reveal_strlit("ldap");
    reveal_strlit("ldaps");
    reveal_strlit("ldapi");
    assert("ldap"@.len() != "ldapi"@.len());
    assert("ldaps"@[4] != "ldapi"@[4]);
}

/// When a URL leads nowhere, and why.
pub proof fn urls_are_refused(
    url: LdapUrl,
    starttls: bool,
    stream: Option<StreamKind>,
    r: Result<Target, TargetError>,
)
    requires
        call_ensures(target, (&url, starttls, stream), r),
    ensures
        (r matches Err(TargetError::UnknownScheme(_))) <==> url.scheme@ != "ldap"@ && url.scheme@
            != "ldaps"@ && url.scheme@ != "ldapi"@,
        r matches Err(TargetError::UnknownScheme(scheme)) ==> scheme@ == url.scheme@,
        (r matches Err(TargetError::MissingHost)) <==> url.host is None && (url.scheme@ == "ldap"@
            || url.scheme@ == "ldaps"@),
        (r matches Err(TargetError::EmptyUnixPath)) <==> url.scheme@ == "ldapi"@ && stream is None
            && !(url.host matches Some(path) && encode_utf8(path@).len() > 0),
        (r matches Err(TargetError::PortInUnixPath)) <==> url.scheme@ == "ldapi"@ && stream is None
            && (url.host matches Some(path) && encode_utf8(path@).contains(58)),
        (r matches Err(TargetError::MismatchedStreamType)) <==> (stream matches Some(kind)
            && if url.scheme@ == "ldapi"@ {
            kind != StreamKind::Unix
        } else {
            kind != StreamKind::Tcp && url.host is Some && (url.scheme@ == "ldap"@ || url.scheme@
                == "ldaps"@)
        }),
        !(r matches Err(TargetError::UrlParsing)),
{
    reveal_strlit("ldap");
    reveal_strlit("ldaps");
    reveal_strlit("ldapi");
    assert("ldap"@.len() != "ldapi"@.len());
    assert("ldaps"@[4] != "ldapi"@[4]);
}

/// A text leads where the URL that it is leads, and nowhere if it is none.
pub proof fn texts_lead_where_their_url_leads(
    text: &str,
    url: LdapUrl,
    starttls: bool,
    stream: Option<StreamKind>,
    led: Result<Target, TargetError>,
    r: Result<Target, TargetError>,
)
    requires
        call_ensures(target_of, (text, starttls, stream), r),
        call_ensures(target, (&url, starttls, stream), led),
    ensures
        (r matches Err(TargetError::UrlParsing)) <==> url_parts(text@) is None,
        url_parts(text@) matches Some((scheme, host, port)) ==> scheme == url.scheme@ && port
            == url.port && host == (match url.host {
            Some(host) => Some(host@),
            None => None,
        }) ==> destination_of(r) == destination_of(led),
{
    reveal_strlit("ldap");
    reveal_strlit("ldaps");
    reveal_strlit("ldapi");
}

} // verus!
