//! Messages inside the tokens of a SASL security layer.
use crate::asn1::be_value;
use crate::buffer::{advance, append, buffered, contents, frozen};
use crate::error::Error;
use crate::parse::parse_uint;
use crate::protocol::{decoded, frame, CodecLimits, Frame, LdapCodec, RawResponse};
use bytes::BytesMut;
use vstd::prelude::*;
use vstd::slice::slice_subrange;

verus! {

/// State of the security layer of a connection.
#[derive(Clone, Copy, Debug)]
pub struct SecurityLayer {
    /// The read buffer holds the rest of a token that was unwrapped.
    pub has_decoded_data: bool,
    /// Messages are wrapped into tokens.
    pub wrap: bool,
    /// Largest message that may be wrapped, if not zero.
    pub max_send: u32,
}

/// What to do with the bytes that were received.
pub enum Received {
    /// They were decoded.
    Decoded(Result<Option<RawResponse>, Error>),
    /// A token of that many bytes at the start of the buffer is to be unwrapped.
    Token(usize),
}

/// What to do with a message that is to be sent.
#[derive(Clone, Copy, Debug, PartialEq, Eq, Structural)]
pub enum Sealing {
    Plain,
    Wrap,
}

/// What is in a read buffer under a security layer.
pub enum Layered {
    /// Messages as they are.
    Messages,
    /// The start of a token.
    Partial,
    /// The length of a token is beyond the limit.
    Malformed,
    /// A token of that many bytes, behind its length.
    Token(nat),
}

/// What is in the buffer.
pub open spec fn layered(layer: SecurityLayer, i: Seq<u8>, limits: CodecLimits) -> Layered {
    if !layer.wrap || i.len() == 0 || layer.has_decoded_data {
        Layered::Messages
    } else if i.len() < 4 {
        Layered::Partial
    } else {
        let length = be_value(i.take(4));
        if length > limits.maximum_frame {
            Layered::Malformed
        } else if i.len() - 4 < length {
            Layered::Partial
        } else {
            Layered::Token(length)
        }
    }
}

/// What a decoder leaves of its input.
pub open spec fn left_over(i: Seq<u8>, limits: CodecLimits) -> Seq<u8> {
    match frame(i, limits) {
        Frame::Complete { length, envelope } => i.skip(length as int),
        _ => i,
    }
}

/// Four bytes, most significant first, of a number without its higher bits.
pub open spec fn be4(n: nat) -> Seq<u8> {
    seq![
        (n / 0x100_0000 % 256) as u8,
        (n / 0x1_0000 % 256) as u8,
        (n / 0x100 % 256) as u8,
        (n % 256) as u8,
    ]
}

impl SecurityLayer {
    pub fn new() -> (r: Self)
        ensures
            r == (SecurityLayer { has_decoded_data: false, wrap: false, max_send: 0 }),
    {
        SecurityLayer { has_decoded_data: false, wrap: false, max_send: 0 }
    }

    /// Bytes were received.
    pub fn received(&mut self, codec: &mut LdapCodec, buf: &mut BytesMut) -> (r: Received)
        ensures
            *final(codec) == *old(codec),
            final(self).wrap == old(self).wrap,
            final(self).max_send == old(self).max_send,
            match layered(*old(self), buffered(old(buf)), old(codec).limits()) {
                Layered::Messages => {
                    &&& r matches Received::Decoded(res) && decoded(
                        old(buf),
                        final(buf),
                        old(codec).limits(),
                        res,
                    ) && final(self).has_decoded_data == (old(self).has_decoded_data && !(
                    old(self).wrap && buffered(old(buf)).len() > 0 && res is Ok && buffered(
                        final(buf),
                    ).len() == 0))
                },
                Layered::Partial => {
                    &&& r == Received::Decoded(Ok(None))
                    &&& *final(buf) == *old(buf)
                    &&& *final(self) == *old(self)
                },
                Layered::Malformed => {
                    &&& r == Received::Decoded(Err(Error::InvalidEnvelope))
                    &&& *final(buf) == *old(buf)
                    &&& *final(self) == *old(self)
                },
                Layered::Token(length) => {
                    &&& r == Received::Token(length as usize)
                    &&& buffered(final(buf)) == buffered(old(buf)).skip(4)
                    &&& *final(self) == *old(self)
                },
            },
    {
        let held: usize = contents(buf).len();
        if !self.wrap || held == 0 {
            return Received::Decoded(codec.decode(buf));
        }
        if self.has_decoded_data {
            let res = codec.decode(buf);
            if res.is_ok() && contents(buf).len() == 0 {
                self.has_decoded_data = false;
            }
            return Received::Decoded(res);
        }
        if held < 4 {
            return Received::Decoded(Ok(None));
        }
        let header = slice_subrange(contents(buf), 0, 4);
        assert(header@ =~= buffered(buf).take(4));
        let length: u64 = match parse_uint(header) {
            Ok((_, length)) => length,
            Err(_) => 0,
        };
        if length > codec.get_limits().maximum_frame as u64 {
            return Received::Decoded(Err(Error::InvalidEnvelope));
        }
        if ((held - 4) as u64) < length {
            return Received::Decoded(Ok(None));
        }
        advance(buf, 4);
        Received::Token(length as usize)
    }

    /// A token was unwrapped: what it held, and what follows it in the buffer. Where nothing
    /// follows, what is left of the token goes back into the buffer.
    pub fn unwrapped(&mut self, codec: &mut LdapCodec, plain: BytesMut, buf: &mut BytesMut) -> (r:
        Result<Option<RawResponse>, Error>)
        ensures
            *final(codec) == *old(codec),
            final(self).wrap == old(self).wrap,
            final(self).max_send == old(self).max_send,
            match frame(buffered(&plain), old(codec).limits()) {
                Frame::Partial => r == Ok::<Option<RawResponse>, Error>(None),
                Frame::Malformed => r == Err::<Option<RawResponse>, Error>(Error::InvalidEnvelope),
                Frame::Complete { length, envelope } => r matches Ok(Some(response)) && response@
                    == envelope && frozen(&response.raw) == buffered(&plain).take(length as int),
            },
            ({
                let left = left_over(buffered(&plain), old(codec).limits());
                if r is Ok && left.len() > 0 && buffered(old(buf)).len() == 0 {
                    buffered(final(buf)) == left && final(self).has_decoded_data
                } else {
                    *final(buf) == *old(buf) && *final(self) == *old(self)
                }
            }),
    {
        let mut plain = plain;
        let r = codec.decode(&mut plain);
        if r.is_ok() && contents(&plain).len() > 0 && contents(buf).len() == 0 {
            *buf = plain;
            self.has_decoded_data = true;
        }
        r
    }

    /// Whether a message of that size is wrapped, or too large for that.
    pub fn sealing(&self, size: usize) -> (r: Result<Sealing, Error>)
        ensures
            r == if !self.wrap {
                Ok::<Sealing, Error>(Sealing::Plain)
            } else if self.max_send > 0 && size > self.max_send {
                Err(Error::SecurityLayerOverflow)
            } else {
                Ok(Sealing::Wrap)
            },
    {
        if !self.wrap {
            return Ok(Sealing::Plain);
        }
        if self.max_send > 0 && size as u64 > self.max_send as u64 {
            return Err(Error::SecurityLayerOverflow);
        }
        Ok(Sealing::Wrap)
    }
}

impl Default for SecurityLayer {
    fn default() -> (r: Self)
        ensures
            r == (SecurityLayer { has_decoded_data: false, wrap: false, max_send: 0 }),
    {
        SecurityLayer::new()
    }
}

/// Appends a token behind its length.
pub fn write_token(token: &[u8], into: &mut BytesMut) -> (r: Result<(), Error>)
    ensures
        if buffered(old(into)).len() + 4 + token@.len() <= isize::MAX {
            r is Ok && buffered(final(into)) == buffered(old(into)) + be4(token@.len()) + token@
        } else {
            r == Err::<(), Error>(Error::LimitExceeded) && *final(into) == *old(into)
        },
{
    let n: usize = token.len();
    let held: usize = contents(into).len();
    let limit: usize = isize::MAX as usize;
    if n > limit - 4 || held > limit - 4 - n {
        return Err(Error::LimitExceeded);
    }
    let mut header: Vec<u8> = Vec::new();
    header.push((n / 0x100_0000 % 256) as u8);
    header.push((n / 0x1_0000 % 256) as u8);
    header.push((n / 0x100 % 256) as u8);
    header.push((n % 256) as u8);
    assert(header@ =~= be4(n as nat));
    append(into, header.as_slice());
    append(into, token);
    Ok(())
}

/// A token that was written behind its length is found again, if the length has four bytes and is
/// within the limit.
pub proof fn written_token_is_found(
    layer: SecurityLayer,
    token: Seq<u8>,
    rest: Seq<u8>,
    limits: CodecLimits,
)
    requires
        layer.wrap,
        !layer.has_decoded_data,
        token.len() <= u32::MAX,
        token.len() <= limits.maximum_frame,
    ensures
        layered(layer, be4(token.len()) + token + rest, limits) == Layered::Token(token.len()),
        (be4(token.len()) + token + rest).skip(4).take(token.len() as int) == token,
{
    let i = be4(token.len()) + token + rest;
    assert(i.take(4) =~= be4(token.len()));
    reveal_with_fuel(be_value, 5);
    assert(be_value(be4(token.len())) == token.len());
    assert(i.skip(4).take(token.len() as int) =~= token);
}

} // verus!
