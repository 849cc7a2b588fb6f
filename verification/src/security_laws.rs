//! What holds of security layers, of TLS and of results.
use crate::asn1::{be_value, Body, Element, StructureTag, TagClass};
use crate::buffer::{buffered, frozen};
use crate::controls::control_values;
use crate::error::Error;
use crate::message_laws::{lemma_message_frames, says_message};
use crate::operation_laws::child;
use crate::parse::lemma_be_value_bound;
use crate::protocol::{decode_inner, decoded, Envelope, LdapCodec, RawResponse};
use crate::result::result_code;
use crate::roundtrip::{height, memory_cost, node_count};
use crate::sasl::{be4, write_token, Received, Sealing, SecurityLayer};
use crate::spelling::{leading_zeros_change_nothing, padded, spells};
use crate::tls::{
    endpoint_algorithm, endpoint_token, endpoint_token_for, leaf_certificate, name_choice,
    names_a_server, server_name, sha2, signature_algorithm_of, trusted, DigestAlgorithm, NameChoice,
};
use bytes::BytesMut;
use vstd::arithmetic::power::pow;
use vstd::prelude::*;

verus! {

proof fn lemma_be4(n: nat)
    requires
        n <= u32::MAX,
    ensures
        n < pow(256, 4),
        be4(n) == padded(n, 4),
{
    reveal_with_fuel(pow, 5);
    assert(pow(256, 0) == 1 && pow(256, 1) == 256 && pow(256, 2) == 0x1_0000 && pow(256, 3)
        == 0x100_0000 && pow(256, 4) == 0x1_0000_0000);
    assert(be4(n) =~= padded(n, 4));
}

/// A token is written behind its length in four bytes, and what the buffer held comes first.
pub proof fn tokens_are_written(token: &[u8], into: &mut BytesMut, r: Result<(), Error>)
    requires
        call_ensures(write_token, (token, into), r),
        token@.len() <= u32::MAX,
    ensures
        r is Ok ==> buffered(final(into)) == buffered(old(into)) + padded(token@.len(), 4) + token@,
        r is Ok <==> buffered(old(into)).len() + 4 + token@.len() <= isize::MAX,
        r matches Err(e) ==> e == Error::LimitExceeded && *final(into) == *old(into),
{
    lemma_be4(token@.len());
}

/// A token behind its length is found whole, and its length is taken off; as long as a byte of it
/// is missing it is waited for; one beyond the frame limit is refused.
pub proof fn tokens_are_found(
    layer: &mut SecurityLayer,
    codec: &mut LdapCodec,
    buf: &mut BytesMut,
    r: Received,
    token: Seq<u8>,
    rest: Seq<u8>,
    k: int,
)
    requires
        call_ensures(SecurityLayer::received, (layer, codec, buf), r),
        old(layer).wrap,
        !old(layer).has_decoded_data,
        token.len() <= u32::MAX,
        0 < k <= 4 + token.len() + rest.len(),
        buffered(old(buf)) == (padded(token.len(), 4) + token + rest).take(k),
    ensures
        *final(layer) == *old(layer),
        *final(codec) == *old(codec),
        k < 4 ==> r == Received::Decoded(Ok(None)),
        k >= 4 && token.len() > old(codec).limits().maximum_frame ==> r == Received::Decoded(
            Err(Error::InvalidEnvelope),
        ),
        token.len() <= old(codec).limits().maximum_frame && k < 4 + token.len() ==> r
            == Received::Decoded(Ok(None)),
        token.len() <= old(codec).limits().maximum_frame && k >= 4 + token.len() ==> (
        r matches Received::Token(n) && n == token.len()) && buffered(final(buf)) == (token
            + rest).take(k - 4),
        !(r is Token) ==> *final(buf) == *old(buf),
{
    let n = token.len();
    lemma_be4(n);
    leading_zeros_change_nothing(n, 4);
    let whole = padded(n, 4) + token + rest;
    let i = whole.take(k);
    if k >= 4 {
        assert(i.take(4) =~= padded(n, 4));
        assert(i.skip(4) =~= (token + rest).take(k - 4));
    }
}

/// Without a security layer, and while what a token held is not used up, messages are read as they
/// are. With the last of them the layer goes on to the next token.
pub proof fn plain_messages_are_read(
    layer: &mut SecurityLayer,
    codec: &mut LdapCodec,
    buf: &mut BytesMut,
    r: Received,
)
    requires
        call_ensures(SecurityLayer::received, (layer, codec, buf), r),
        !old(layer).wrap || old(layer).has_decoded_data,
    ensures
        r matches Received::Decoded(res) && decoded(
            old(buf),
            final(buf),
            old(codec).limits(),
            res,
        ) && (old(layer).wrap && buffered(old(buf)).len() > 0 && res is Ok
            ==> final(layer).has_decoded_data == (buffered(final(buf)).len() > 0)),
        final(layer).wrap == old(layer).wrap,
        final(layer).max_send == old(layer).max_send,
{
}

/// Of what a token held, the first message is read, and what follows it is kept for the next
/// reads, if nothing else waits in the buffer.
pub proof fn unwrapped_messages_are_read(
    layer: &mut SecurityLayer,
    codec: &mut LdapCodec,
    plain: BytesMut,
    buf: &mut BytesMut,
    r: Result<Option<RawResponse>, Error>,
    wire: Seq<u8>,
    e: Element,
    said: Envelope,
    rest: Seq<u8>,
)
    requires
        call_ensures(SecurityLayer::unwrapped, (layer, codec, plain, buf), r),
        buffered(&plain) == wire + rest,
        spells(wire, e),
        says_message(e, said),
        wire[1] <= 128 + usize::BITS / 8,
        wire.len() <= old(codec).limits().maximum_frame,
        height(e) <= old(codec).limits().maximum_depth,
        node_count(e) <= old(codec).limits().maximum_nodes,
        memory_cost(e) <= old(codec).limits().maximum_allocation,
    ensures
        r matches Ok(Some(response)) && {
            &&& response.id == said.id
            &&& response.operation@ == said.operation
            &&& control_values(response.controls@) == said.controls
            &&& frozen(&response.raw) == wire
        },
        rest.len() > 0 && buffered(old(buf)).len() == 0 ==> buffered(final(buf)) == rest
            && final(layer).has_decoded_data,
        rest.len() == 0 || buffered(old(buf)).len() > 0 ==> *final(buf) == *old(buf)
            && *final(layer) == *old(layer),
        final(layer).wrap == old(layer).wrap,
        final(layer).max_send == old(layer).max_send,
{
    lemma_message_frames(wire, e, said, rest, old(codec).limits());
    assert((wire + rest).take(wire.len() as int) =~= wire);
    assert((wire + rest).skip(wire.len() as int) =~= rest);
}

/// What a token held is read as any bytes are, and what reading leaves of it is kept for the next
/// reads, if there is anything and nothing else waits in the buffer.
pub proof fn unwrapped_bytes_are_kept(
    layer: &mut SecurityLayer,
    codec: &mut LdapCodec,
    plain: BytesMut,
    buf: &mut BytesMut,
    r: Result<Option<RawResponse>, Error>,
    same: &mut BytesMut,
    read: Result<Option<RawResponse>, Error>,
)
    requires
        call_ensures(SecurityLayer::unwrapped, (layer, codec, plain, buf), r),
        *old(same) == plain,
        call_ensures(decode_inner, (same, old(codec).limits()), read),
    ensures
        r is Err <==> read is Err,
        r == Ok::<Option<RawResponse>, Error>(None) <==> read == Ok::<Option<RawResponse>, Error>(
            None,
        ),
        r matches Ok(Some(response)) ==> read is Ok && read->Ok_0 is Some && response@
            == read->Ok_0->0@,
        if r is Ok && buffered(final(same)).len() > 0 && buffered(old(buf)).len() == 0 {
            buffered(final(buf)) == buffered(final(same)) && final(layer).has_decoded_data
        } else {
            *final(buf) == *old(buf) && *final(layer) == *old(layer)
        },
{
}

/// Messages are wrapped exactly under a security layer, and refused exactly beyond its size.
pub proof fn messages_are_sealed(layer: &SecurityLayer, size: usize, r: Result<Sealing, Error>)
    requires
        call_ensures(SecurityLayer::sealing, (layer, size), r),
    ensures
        r == Ok::<Sealing, Error>(Sealing::Plain) <==> !layer.wrap,
        r is Err <==> layer.wrap && 0 < layer.max_send < size,
        r matches Err(e) ==> e == Error::SecurityLayerOverflow,
{
}

/// The certificate that a connection is bound to is the first one.
pub proof fn bound_to_the_first_certificate(
    certificates: Option<Vec<Vec<u8>>>,
    r: Option<Vec<u8>>,
)
    requires
        call_ensures(leaf_certificate, (certificates,), r),
    ensures
        r is Some <==> (certificates matches Some(all) && all@.len() > 0),
        r matches Some(first) ==> first@ == certificates->0@[0]@,
{
}

/// The digest of a token has the bits of the signature's own, but never fewer than 256.
pub proof fn tokens_have_strong_digests(oid: &str, r: Option<DigestAlgorithm>)
    requires
        call_ensures(endpoint_algorithm, (oid,), r),
    ensures
        r == Some(DigestAlgorithm::Sha384) <==> oid@ == "1.2.840.113549.1.1.12"@ || oid@
            == "1.2.840.10045.4.3.3"@,
        r == Some(DigestAlgorithm::Sha512) <==> oid@ == "1.2.840.113549.1.1.13"@ || oid@
            == "1.2.840.10045.4.3.4"@,
        r == Some(DigestAlgorithm::Sha256) <==> oid@ == "1.2.840.113549.1.1.11"@ || oid@
            == "1.2.840.10045.4.3.2"@ || oid@ == "1.2.840.113549.1.1.4"@ || oid@
            == "1.2.840.113549.1.1.5"@,
{
    reveal_strlit("1.2.840.113549.1.1.4");
    reveal_strlit("1.2.840.113549.1.1.5");
    reveal_strlit("1.2.840.113549.1.1.11");
    reveal_strlit("1.2.840.113549.1.1.12");
    reveal_strlit("1.2.840.113549.1.1.13");
    reveal_strlit("1.2.840.10045.4.3.2");
    reveal_strlit("1.2.840.10045.4.3.3");
    reveal_strlit("1.2.840.10045.4.3.4");
    let a = "1.2.840.113549.1.1.12"@;
    let b = "1.2.840.113549.1.1.13"@;
    let c = "1.2.840.113549.1.1.11"@;
    let d = "1.2.840.10045.4.3.2"@;
    let e = "1.2.840.10045.4.3.3"@;
    let f = "1.2.840.10045.4.3.4"@;
    assert(a.len() == 21 && b.len() == 21 && c.len() == 21);
    assert(d.len() == 19 && e.len() == 19 && f.len() == 19);
    assert("1.2.840.113549.1.1.4"@.len() == 20 && "1.2.840.113549.1.1.5"@.len() == 20);
    assert(a[20] != b[20] && a[20] != c[20] && b[20] != c[20]);
    assert(d[18] != e[18] && d[18] != f[18] && e[18] != f[18]);
}

/// A token is a digest of the whole certificate, as long as its algorithm says, and there is one
/// exactly where an algorithm is known.
pub proof fn tokens_digest_the_certificate(
    algorithm: Option<DigestAlgorithm>,
    der: &[u8],
    r: Option<Vec<u8>>,
)
    requires
        call_ensures(endpoint_token_for, (algorithm, der), r),
    ensures
        r is Some == algorithm is Some,
        r matches Some(token) ==> {
            let bits: int = match algorithm->0 {
                DigestAlgorithm::Sha256 => 256,
                DigestAlgorithm::Sha384 => 384,
                DigestAlgorithm::Sha512 => 512,
            };
            token@ == sha2(bits, der@) && token@.len() * 8 == bits
        },
{
}

/// The token of a certificate is made with the digest that goes with its own signature, and there
/// is none where the signature is not known.
pub proof fn tokens_follow_the_signature(
    der: &[u8],
    oid: &str,
    algorithm: Option<DigestAlgorithm>,
    token: Option<Vec<u8>>,
    r: Option<Vec<u8>>,
)
    requires
        call_ensures(endpoint_token, (der,), r),
        call_ensures(endpoint_algorithm, (oid,), algorithm),
        call_ensures(endpoint_token_for, (algorithm, der), token),
    ensures
        signature_algorithm_of(der@) is None ==> r is None,
        signature_algorithm_of(der@) == Some(oid@) ==> r is Some == token is Some && (r is Some
            ==> r->0@ == token->0@),
{
}

/// A host that a TLS client can name a server by is what the server is called.
pub proof fn hosts_name_their_servers(
    host: &str,
    verify: bool,
    is_address: bool,
    choice: NameChoice,
    r: NameChoice,
)
    requires
        call_ensures(server_name, (host, verify, is_address), r),
        call_ensures(name_choice, (names_a_server(host@), verify, is_address), choice),
    ensures
        r == choice,
        r == NameChoice::Host <==> names_a_server(host@),
{
}

/// A server is never verified by another name than its host: with verification, a host that is no
/// name is refused.
pub proof fn servers_are_verified_by_their_host(
    valid: bool,
    verify: bool,
    is_address: bool,
    r: NameChoice,
)
    requires
        call_ensures(name_choice, (valid, verify, is_address), r),
    ensures
        r == NameChoice::Host <==> valid,
        r == NameChoice::Irrelevant ==> !verify && is_address,
        !valid && (verify || !is_address) ==> r == NameChoice::Refused,
        !valid && !verify && is_address ==> r == NameChoice::Irrelevant,
{
}

/// Certificates that were not loaded completely are not trusted at all.
pub proof fn partly_loaded_certificates_are_not_trusted<T>(
    certificates: Vec<T>,
    complete: bool,
    r: Vec<T>,
)
    requires
        call_ensures(trusted::<T>, (certificates, complete), r),
    ensures
        complete ==> r@ == certificates@,
        !complete ==> r@.len() == 0,
{
}

/// The result of a response is the number in its first part, in however many octets up to eight it
/// is written, and no result is read from anything else.
pub proof fn results_are_read(operation: StructureTag, r: Option<u64>, n: nat, k: nat)
    requires
        call_ensures(result_code, (&operation,), r),
    ensures
        ({
            let e = operation@;
            let first = child(e, 0);
            &&& e.body is Children && e.body->Children_0.len() > 0 && first.class
                == TagClass::Universal && first.id == 10 && 1 <= k <= 8 && n < pow(256, k)
                && first.body == Body::Bytes(padded(n, k)) ==> (r matches Some(code) && code == n)
            &&& r matches Some(code) ==> e.body is Children && e.body->Children_0.len() > 0
                && first.class == TagClass::Universal && first.id == 10 && (
            first.body matches Body::Bytes(bytes) && 1 <= bytes.len() <= 8 && be_value(bytes)
                == code)
        }),
{
    let first = child(operation@, 0);
    if 1 <= k <= 8 && n < pow(256, k) {
        leading_zeros_change_nothing(n, k);
    }
    if let Body::Bytes(bytes) = first.body {
        if 1 <= bytes.len() <= 8 {
            lemma_be_value_bound(bytes);
            assert(pow(256, bytes.len()) <= 0x1_0000_0000_0000_0000) by {
                reveal_with_fuel(pow, 9);
            }
        }
    }
}

} // verus!
