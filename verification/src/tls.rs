//! What a TLS connection is bound to.
use crate::text::same_text;
use ring::digest::{digest, SHA256, SHA384, SHA512};
use rustls::pki_types::ServerName;
use vstd::prelude::*;
use x509_parser::prelude::{FromDer, X509Certificate};

verus! {

/// Digest algorithms of end point tokens.
#[derive(Clone, Copy, Debug, PartialEq, Eq, Structural)]
pub enum DigestAlgorithm {
    Sha256,
    Sha384,
    Sha512,
}

impl DigestAlgorithm {
    /// Size of a digest in bits.
    pub open spec fn bits(self) -> int {
        match self {
            DigestAlgorithm::Sha256 => 256,
            DigestAlgorithm::Sha384 => 384,
            DigestAlgorithm::Sha512 => 512,
        }
    }
}

/// The object identifier, in dotted decimal, of the algorithm that an X.509 certificate in DER
/// was signed with; none if the bytes are no certificate.
pub uninterp spec fn signature_algorithm_of(der: Seq<u8>) -> Option<Seq<char>>;

/// The SHA-2 digest of that many bits.
pub uninterp spec fn sha2(bits: int, data: Seq<u8>) -> Seq<u8>;

/// Whether text is a DNS name or an IP address that a TLS client can name a server by.
pub uninterp spec fn names_a_server(host: Seq<char>) -> bool;

/// `X509Certificate::from_der`, and `to_id_string` of its signature algorithm: a function of the
/// bytes.
#[verifier::external_body]
fn signature_algorithm(der: &[u8]) -> (r: Option<String>)
    ensures
        match signature_algorithm_of(der@) {
            Some(oid) => r is Some && r->0@ == oid,
            None => r is None,
        },
{
    match X509Certificate::from_der(der) {
        Ok((_, cert)) => Some(cert.signature_algorithm.algorithm.to_id_string()),
        Err(_) => None,
    }
}

/// `ring::digest::digest`: a function of the algorithm and the data, as long as the algorithm
/// says. It panics on data that has more bits than a `u64` can count.
#[verifier::external_body]
fn digest_with(algorithm: DigestAlgorithm, data: &[u8]) -> (r: Vec<u8>)
    requires
        data@.len() < 0x2000_0000_0000_0000,
    ensures
        r@ == sha2(algorithm.bits(), data@),
        r@.len() * 8 == algorithm.bits(),
{
    let algorithm = match algorithm {
        DigestAlgorithm::Sha256 => &SHA256,
        DigestAlgorithm::Sha384 => &SHA384,
        DigestAlgorithm::Sha512 => &SHA512,
    };
    digest(algorithm, data).as_ref().to_vec()
}

/// `<ServerName as TryFrom<&str>>::try_from`: whether it succeeds is a function of the text.
#[verifier::external_body]
fn is_server_name(host: &str) -> (r: bool)
    ensures
        r == names_a_server(host@),
{
    ServerName::try_from(host).is_ok()
}

/// The digest that goes with a signature algorithm: its own, or SHA-256 in place of a weaker one.
pub open spec fn endpoint_algorithm_of(oid: Seq<char>) -> Option<DigestAlgorithm> {
    if oid == "1.2.840.113549.1.1.4"@ || oid == "1.2.840.113549.1.1.5"@ || oid
        == "1.2.840.113549.1.1.11"@ || oid == "1.2.840.10045.4.3.2"@ {
        Some(DigestAlgorithm::Sha256)
    } else if oid == "1.2.840.113549.1.1.12"@ || oid == "1.2.840.10045.4.3.3"@ {
        Some(DigestAlgorithm::Sha384)
    } else if oid == "1.2.840.113549.1.1.13"@ || oid == "1.2.840.10045.4.3.4"@ {
        Some(DigestAlgorithm::Sha512)
    } else {
        None
    }
}

/// The digest that goes with a signature algorithm.
pub fn endpoint_algorithm(oid: &str) -> (r: Option<DigestAlgorithm>)
    ensures
        r == endpoint_algorithm_of(oid@),
{
    if same_text(oid, "1.2.840.113549.1.1.4") || same_text(oid, "1.2.840.113549.1.1.5")
        || same_text(oid, "1.2.840.113549.1.1.11") || same_text(oid, "1.2.840.10045.4.3.2") {
        Some(DigestAlgorithm::Sha256)
    } else if same_text(oid, "1.2.840.113549.1.1.12") || same_text(oid, "1.2.840.10045.4.3.3") {
        Some(DigestAlgorithm::Sha384)
    } else if same_text(oid, "1.2.840.113549.1.1.13") || same_text(oid, "1.2.840.10045.4.3.4") {
        Some(DigestAlgorithm::Sha512)
    } else {
        None
    }
}

/// The end point token for a certificate that was signed with this algorithm.
pub open spec fn token_of(oid: Option<Seq<char>>, der: Seq<u8>) -> Option<Seq<u8>> {
    match oid {
        Some(oid) => match endpoint_algorithm_of(oid) {
            Some(algorithm) => Some(sha2(algorithm.bits(), der)),
            None => None,
        },
        None => None,
    }
}

/// The digest of the certificate by the algorithm that goes with its signature, if both are
/// known.
pub fn endpoint_token_for(algorithm: Option<DigestAlgorithm>, der: &[u8]) -> (r: Option<Vec<u8>>)
    requires
        der@.len() < 0x2000_0000_0000_0000,
    ensures
        match algorithm {
            Some(algorithm) => r is Some && r->0@ == sha2(algorithm.bits(), der@) && r->0@.len() * 8
                == algorithm.bits(),
            None => r is None,
        },
{
    match algorithm {
        Some(algorithm) => Some(digest_with(algorithm, der)),
        None => None,
    }
}

/// The token that binds an authentication to the TLS connection with this server certificate.
pub fn endpoint_token(der: &[u8]) -> (r: Option<Vec<u8>>)
    requires
        der@.len() < 0x2000_0000_0000_0000,
    ensures
        match token_of(signature_algorithm_of(der@), der@) {
            Some(token) => r is Some && r->0@ == token,
            None => r is None,
        },
{
    match signature_algorithm(der) {
        Some(oid) => endpoint_token_for(endpoint_algorithm(oid.as_str()), der),
        None => None,
    }
}

/// The first certificate of a peer, if it presented any.
pub fn leaf_certificate(certificates: Option<Vec<Vec<u8>>>) -> (r: Option<Vec<u8>>)
    ensures
        match certificates {
            Some(all) if all@.len() > 0 => r is Some && r->0@ == all@[0]@,
            _ => r is None,
        },
{
    match certificates {
        Some(all) => {
            if all.len() == 0 {
                None
            } else {
                let mut all = all;
                Some(all.swap_remove(0))
            }
        },
        None => None,
    }
}

/// The certificates to trust: those of the system, unless some could not be loaded.
pub fn trusted<T>(certificates: Vec<T>, complete: bool) -> (r: Vec<T>)
    ensures
        r@ == if complete {
            certificates@
        } else {
            Seq::empty()
        },
{
    if complete {
        certificates
    } else {
        Vec::new()
    }
}

/// The name that a server is verified by.
#[derive(Clone, Copy, Debug, PartialEq, Eq, Structural)]
pub enum NameChoice {
    /// The host itself.
    Host,
    /// Any name: the server is not verified.
    Irrelevant,
    /// The host cannot be verified.
    Refused,
}

/// What a server is called in the handshake: by its host if that is a name or an address. An
/// address in another form does where nothing is verified.
pub fn name_choice(valid: bool, verify: bool, is_address: bool) -> (r: NameChoice)
    ensures
        r == if valid {
            NameChoice::Host
        } else if !verify && is_address {
            NameChoice::Irrelevant
        } else {
            NameChoice::Refused
        },
{
    if valid {
        NameChoice::Host
    } else if !verify && is_address {
        NameChoice::Irrelevant
    } else {
        NameChoice::Refused
    }
}

/// What this host is called in the handshake. `is_address` says whether it is an IP address in
/// textual form.
pub fn server_name(host: &str, verify: bool, is_address: bool) -> (r: NameChoice)
    ensures
        r == if names_a_server(host@) {
            NameChoice::Host
        } else if !verify && is_address {
            NameChoice::Irrelevant
        } else {
            NameChoice::Refused
        },
{
    name_choice(is_server_name(host), verify, is_address)
}

} // verus!
