use bytes::BytesMut;
use ldap3::asn1::{StructureTag, TagClass, PL};
use ldap3::conn::check_tls_boundary;
use ldap3::error::Error;
use ldap3::protocol::{CodecLimits, LdapCodec};
use ldap3::sasl::{write_token, Received, Sealing, SecurityLayer};
use ldap3::target::{target, target_of, LdapUrl, Security, StreamKind, Target, TargetError};
use ldap3::tls::{
    endpoint_algorithm, endpoint_token, endpoint_token_for, leaf_certificate, name_choice,
    server_name, trusted, DigestAlgorithm, NameChoice,
};
use ldap3::write::encode_into;
use ring::digest::{digest, SHA256, SHA384, SHA512};

const WIRE: [u8; 14] = [0x30, 12, 2, 1, 1, 0x61, 7, 10, 1, 0, 4, 0, 4, 0];

fn codec() -> LdapCodec {
    LdapCodec::new(CodecLimits::default()).unwrap()
}

fn wrapping() -> SecurityLayer {
    SecurityLayer { wrap: true, ..SecurityLayer::default() }
}

#[test]
fn without_a_security_layer_messages_come_as_they_are() {
    let mut buf = BytesMut::from(&WIRE[..]);
    let mut layer = SecurityLayer::new();
    match layer.received(&mut codec(), &mut buf) {
        Received::Decoded(Ok(Some(response))) => assert_eq!(response.id, 1),
        _ => panic!("no message"),
    }
    assert!(buf.is_empty());
    assert_eq!(layer.sealing(usize::MAX), Ok(Sealing::Plain));
}

#[test]
fn tokens_are_framed_by_their_length() {
    let mut buf = BytesMut::new();
    write_token(b"token", &mut buf).unwrap();
    assert_eq!(buf.as_ref(), b"\0\0\0\x05token");
    buf.extend_from_slice(b"more");
    let mut layer = wrapping();
    assert!(matches!(layer.received(&mut codec(), &mut buf), Received::Token(5)));
    assert_eq!(buf.as_ref(), b"tokenmore");
    for start in [&b"\0\0\0"[..], b"\0\0\0\x05toke"] {
        let mut buf = BytesMut::from(start);
        assert!(matches!(layer.received(&mut codec(), &mut buf), Received::Decoded(Ok(None))));
        assert_eq!(buf.as_ref(), start);
    }
    let mut long = BytesMut::from(&[0xff, 0xff, 0xff, 0xff, 0][..]);
    assert!(matches!(
        layer.received(&mut codec(), &mut long),
        Received::Decoded(Err(Error::InvalidEnvelope))
    ));
    assert_eq!(long.len(), 5);
}

#[test]
fn several_messages_in_one_token_are_decoded_in_turn() {
    let mut layer = wrapping();
    let mut plain = BytesMut::from(&WIRE[..]);
    plain.extend_from_slice(&WIRE);
    let mut buf = BytesMut::new();
    let first = layer.unwrapped(&mut codec(), plain, &mut buf).unwrap().unwrap();
    assert_eq!(first.raw.as_ref(), WIRE);
    assert_eq!(buf.as_ref(), WIRE);
    assert!(layer.has_decoded_data);
    assert!(matches!(
        layer.received(&mut codec(), &mut buf),
        Received::Decoded(Ok(Some(_)))
    ));
    assert!(buf.is_empty());
    assert!(!layer.has_decoded_data);
    // One message leaves nothing behind.
    let mut buf = BytesMut::from(&b"next"[..]);
    let plain = BytesMut::from(&WIRE[..]);
    assert!(layer.unwrapped(&mut codec(), plain, &mut buf).unwrap().is_some());
    assert_eq!(buf.as_ref(), b"next");
    assert!(!layer.has_decoded_data);
    let bad = BytesMut::from(&[0x31, 0][..]);
    assert_eq!(layer.unwrapped(&mut codec(), bad, &mut buf).err(), Some(Error::InvalidEnvelope));
}

#[test]
fn messages_beyond_the_negotiated_size_are_not_wrapped() {
    let layer = SecurityLayer { max_send: 10, ..wrapping() };
    assert_eq!(layer.sealing(10), Ok(Sealing::Wrap));
    assert_eq!(layer.sealing(11), Err(Error::SecurityLayerOverflow));
    assert_eq!(wrapping().sealing(1 << 20), Ok(Sealing::Wrap));
}

#[test]
fn nothing_may_be_buffered_at_the_tls_boundary() {
    assert_eq!(check_tls_boundary(true, true), Ok(()));
    assert_eq!(check_tls_boundary(false, true), Err(Error::PlaintextAtTlsBoundary));
    assert_eq!(check_tls_boundary(true, false), Err(Error::PlaintextAtTlsBoundary));
}

fn tcp(text: &str, starttls: bool, stream: Option<StreamKind>) -> (Security, String, String, bool) {
    match target_of(text, starttls, stream).unwrap() {
        Target::Tcp { security, host, address, supplied } => (security, host, address, supplied),
        other => panic!("{other:?}"),
    }
}

#[test]
fn urls_lead_to_hosts_and_ports() {
    let plain = |host: &str, address: &str| {
        (Security::Plain, host.to_owned(), address.to_owned(), false)
    };
    assert_eq!(tcp("ldap://example.org", false, None), plain("example.org", "example.org:389"));
    assert_eq!(tcp("ldap://example.org:2389/", false, None).2, "example.org:2389");
    let local = LdapUrl { scheme: "ldap".to_owned(), host: Some(String::new()), port: Some(2389) };
    match target(&local, false, None).unwrap() {
        Target::Tcp { host, address, .. } => {
            assert_eq!((host.as_str(), address.as_str()), ("localhost", "localhost:2389"));
        }
        other => panic!("{other:?}"),
    }
    assert_eq!(tcp("ldap://[::1]", false, None), plain("[::1]", "[::1]:389"));
    assert_eq!(tcp("ldap://h:0", false, None).2, "h:0");
    assert_eq!(tcp("ldap://h:65535", false, None).2, "h:65535");
    assert_eq!(tcp("ldap://h", true, None).0, Security::StartTls);
    assert_eq!(
        tcp("ldaps://h", true, None),
        (Security::Tls, "h".to_owned(), "h:636".to_owned(), false)
    );
    assert!(tcp("ldap://h", false, Some(StreamKind::Tcp)).3);
}

#[test]
fn urls_that_lead_nowhere_are_told_apart() {
    let error = |text, stream| target_of(text, false, stream).unwrap_err();
    assert!(matches!(error("no url", None), TargetError::UrlParsing));
    assert!(matches!(error("ldap://:389", None), TargetError::UrlParsing));
    assert!(matches!(error("http://h", None), TargetError::UnknownScheme(s) if s == "http"));
    assert!(matches!(error("ldapi://", None), TargetError::EmptyUnixPath));
    assert!(matches!(error("ldap:host", None), TargetError::MissingHost));
    assert!(matches!(error("ldap:///", None), TargetError::MissingHost));
    for kind in [StreamKind::Unix, StreamKind::Invalid] {
        assert!(matches!(error("ldap://h", Some(kind)), TargetError::MismatchedStreamType));
    }
    for kind in [StreamKind::Tcp, StreamKind::Invalid] {
        assert!(matches!(error("ldapi:///", Some(kind)), TargetError::MismatchedStreamType));
    }
}

#[test]
fn unix_paths_are_percent_encoded_hosts() {
    match target_of("ldapi://%2ftmp%2fldap%20x", false, None).unwrap() {
        Target::UnixPath(path) => assert_eq!(path, "/tmp/ldap x"),
        other => panic!("{other:?}"),
    }
    let supplied = target_of("ldapi:///", false, Some(StreamKind::Unix)).unwrap();
    assert!(matches!(supplied, Target::UnixStream));
    assert!(matches!(
        target_of("ldapi://[::1]", false, None).unwrap_err(),
        TargetError::PortInUnixPath
    ));
}

#[test]
fn servers_are_called_by_names_and_addresses() {
    assert_eq!(server_name("example.org", true, false), NameChoice::Host);
    assert_eq!(server_name("192.0.2.1", true, true), NameChoice::Host);
    assert_eq!(server_name("not a name", true, false), NameChoice::Refused);
    assert_eq!(server_name("not a name", false, false), NameChoice::Refused);
    assert_eq!(server_name("[::1]", true, true), NameChoice::Refused);
    assert_eq!(name_choice(false, false, true), NameChoice::Irrelevant);
    assert_eq!(name_choice(true, false, true), NameChoice::Host);
}

#[test]
fn certificates_of_a_peer_and_of_the_system() {
    assert_eq!(leaf_certificate(None), None);
    assert_eq!(leaf_certificate(Some(vec![])), None);
    assert_eq!(leaf_certificate(Some(vec![vec![1], vec![2]])), Some(vec![1]));
    assert_eq!(trusted(vec![1, 2], true), vec![1, 2]);
    assert_eq!(trusted(vec![1, 2], false), Vec::<i32>::new());
}

#[test]
fn weak_signatures_go_with_the_shortest_digest() {
    for (oid, algorithm) in [
        ("1.2.840.113549.1.1.4", DigestAlgorithm::Sha256),
        ("1.2.840.113549.1.1.5", DigestAlgorithm::Sha256),
        ("1.2.840.113549.1.1.11", DigestAlgorithm::Sha256),
        ("1.2.840.113549.1.1.12", DigestAlgorithm::Sha384),
        ("1.2.840.113549.1.1.13", DigestAlgorithm::Sha512),
        ("1.2.840.10045.4.3.2", DigestAlgorithm::Sha256),
        ("1.2.840.10045.4.3.3", DigestAlgorithm::Sha384),
        ("1.2.840.10045.4.3.4", DigestAlgorithm::Sha512),
    ] {
        assert_eq!(endpoint_algorithm(oid), Some(algorithm));
    }
    assert_eq!(endpoint_algorithm("1.3.101.112"), None);
    assert_eq!(endpoint_token_for(None, b"x"), None);
}

fn tag(id: u64, payload: PL) -> StructureTag {
    StructureTag { class: TagClass::Universal, id, payload }
}

/// A certificate without names, signed with nothing by the given algorithm.
fn certificate(oid: &[u8]) -> Vec<u8> {
    let algorithm = || tag(16, PL::C(vec![tag(6, PL::P(oid.to_vec()))]));
    let time = || tag(23, PL::P(b"250101000000Z".to_vec()));
    let bits = || tag(3, PL::P(vec![0, 1]));
    let body = tag(
        16,
        PL::C(vec![
            tag(2, PL::P(vec![1])),
            algorithm(),
            tag(16, PL::C(vec![])),
            tag(16, PL::C(vec![time(), time()])),
            tag(16, PL::C(vec![])),
            tag(16, PL::C(vec![algorithm(), bits()])),
        ]),
    );
    let mut buf = BytesMut::new();
    encode_into(&mut buf, tag(16, PL::C(vec![body, algorithm(), bits()]))).unwrap();
    buf.to_vec()
}

#[test]
fn end_point_tokens_are_digests_of_the_certificate() {
    let ecdsa = |n| certificate(&[0x2a, 0x86, 0x48, 0xce, 0x3d, 4, 3, n]);
    let der = ecdsa(2);
    assert_eq!(endpoint_token(&der).unwrap(), digest(&SHA256, &der).as_ref());
    let der = ecdsa(3);
    assert_eq!(endpoint_token(&der).unwrap(), digest(&SHA384, &der).as_ref());
    let der = ecdsa(4);
    assert_eq!(endpoint_token(&der).unwrap(), digest(&SHA512, &der).as_ref());
    assert_eq!(endpoint_token(&certificate(&[0x2b, 0x65, 0x70])), None);
    assert_eq!(endpoint_token(b"no certificate"), None);
}
