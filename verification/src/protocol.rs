//! LDAP messages: framing, envelopes and their controls.
use crate::asn1::{
    be_value, constructed, elements, int_octets, primitive, tag_elements, Body, Element, Integer,
    Sequence, StructureTag, Tag, TagClass, INTEGER, SEQUENCE,
};
use crate::buffer::{advance, buffered, contents, freeze_copy, frozen};
use crate::controls::{
    build_controls, control_values, controls_element, controls_of, try_parse_controls, ControlValue,
    RawControl,
};
use crate::error::Error;
use crate::parse::{element_at, parse_tag_limited, parse_uint};
use crate::raw::{lemma_small_value, RawOperation};
use crate::write::{encodable, encode, encode_into, erased};
use bytes::{Bytes, BytesMut};
use tokio::sync::{mpsc, oneshot};
use vstd::prelude::*;
use vstd::slice::slice_subrange;

verus! {

/// Number that ties a response to its request.
pub type RequestId = i32;

/// Limits used by the single library BER decoder before allocation.
#[derive(Clone, Copy, Debug)]
pub struct CodecLimits {
    pub maximum_frame: usize,
    pub maximum_allocation: usize,
    pub maximum_nodes: usize,
    pub maximum_depth: usize,
}

impl CodecLimits {
    /// Limits that a codec can work under.
    pub open spec fn valid(self) -> bool {
        &&& 2 <= self.maximum_frame
        &&& 1 <= self.maximum_allocation
        &&& 1 <= self.maximum_nodes
        &&& 1 <= self.maximum_depth <= 128
    }
}

impl Default for CodecLimits {
    fn default() -> (r: Self)
        ensures
            r == (CodecLimits {
                maximum_frame: 0x100_0000,
                maximum_allocation: 0x400_0000,
                maximum_nodes: 65536,
                maximum_depth: 64,
            }),
            r.valid(),
    {
        Self {
            maximum_frame: 16 * 1024 * 1024,
            maximum_allocation: 64 * 1024 * 1024,
            maximum_nodes: 65536,
            maximum_depth: 64,
        }
    }
}

/// Exact envelope evidence and the parsed operation. No numeric result code is
/// converted to a closed enum or interpreted as business success here.
pub struct RawResponse {
    pub id: RequestId,
    pub operation: StructureTag,
    pub controls: Vec<RawControl>,
    pub raw: Bytes,
}

/// What a message says.
#[verifier::ext_equal]
pub struct Envelope {
    pub id: int,
    pub operation: Element,
    pub controls: Seq<ControlValue>,
}

impl View for RawResponse {
    type V = Envelope;

    open spec fn view(&self) -> Envelope {
        Envelope {
            id: self.id as int,
            operation: self.operation@,
            controls: control_values(self.controls@),
        }
    }
}

/// The message identifier that an element holds: a non-negative INTEGER of at most four bytes.
pub open spec fn identifier_of(e: Element) -> Option<int> {
    match e.body {
        Body::Bytes(bytes) if e.class == TagClass::Universal && e.id == INTEGER && 1 <= bytes.len()
            <= 4 && bytes[0] < 128 => Some(be_value(bytes) as int),
        _ => None,
    }
}

/// The message that an element stands for: an identifier, an operation of the application class,
/// then controls or none, and nothing else.
pub open spec fn envelope_of(e: Element) -> Option<Envelope> {
    match e.body {
        Body::Children(parts) if 2 <= parts.len() <= 3 => {
            let id = identifier_of(parts[0]);
            let controls = if parts.len() == 3 {
                controls_of(parts[2])
            } else {
                Some(Seq::empty())
            };
            if id is Some && parts[1].class == TagClass::Application && controls is Some {
                Some(Envelope { id: id->0, operation: parts[1], controls: controls->0 })
            } else {
                None
            }
        },
        _ => None,
    }
}

/// What the bytes received so far amount to.
pub enum Frame {
    /// The start of a message that is not complete yet.
    Partial,
    /// Nothing that a message can start with.
    Malformed,
    /// A message in the first `length` bytes.
    Complete { length: nat, envelope: Envelope },
}

/// Length of the message at the start of the input, once its header is there.
pub open spec fn frame_length(i: Seq<u8>) -> Result<Option<nat>, Error> {
    if i.len() < 2 {
        Ok(None)
    } else if i[0] != 0x30 {
        Err(Error::InvalidEnvelope)
    } else if i[1] < 128 {
        Ok(Some((2 + i[1]) as nat))
    } else {
        let n = i[1] - 128;
        if n == 0 || n > usize::BITS / 8 {
            Err(Error::InvalidEnvelope)
        } else if i.len() < 2 + n {
            Ok(None)
        } else {
            let length = (2 + n + be_value(i.subrange(2, 2 + n))) as nat;
            if length > usize::MAX {
                Err(Error::InvalidEnvelope)
            } else {
                Ok(Some(length))
            }
        }
    }
}

/// The message at the start of the input.
pub open spec fn frame(i: Seq<u8>, limits: CodecLimits) -> Frame {
    match frame_length(i) {
        Err(_) => Frame::Malformed,
        Ok(None) => Frame::Partial,
        Ok(Some(length)) => if length > limits.maximum_frame {
            Frame::Malformed
        } else if i.len() < length {
            Frame::Partial
        } else {
            match element_at(
                i.take(length as int),
                limits.maximum_depth as nat,
                (limits.maximum_nodes as nat, limits.maximum_allocation as nat),
            ) {
                Err(_) => Frame::Malformed,
                Ok((used, e, _)) => match envelope_of(e) {
                    Some(envelope) if used == length => Frame::Complete { length, envelope },
                    _ => Frame::Malformed,
                },
            }
        },
    }
}

fn header_length(i: &[u8]) -> (r: Result<Option<usize>, Error>)
    ensures
        match frame_length(i@) {
            Err(e) => r == Err::<Option<usize>, Error>(e),
            Ok(None) => r == Ok::<Option<usize>, Error>(None),
            Ok(Some(length)) => r == Ok::<Option<usize>, Error>(Some(length as usize)) && length
                <= usize::MAX,
        },
{
    if i.len() < 2 {
        return Ok(None);
    }
    if i[0] != 0x30 {
        return Err(Error::InvalidEnvelope);
    }
    if i[1] < 128 {
        return Ok(Some(2 + i[1] as usize));
    }
    let n: usize = (i[1] - 128) as usize;
    if n == 0 || n > (usize::BITS / 8) as usize {
        return Err(Error::InvalidEnvelope);
    }
    if i.len() < 2 + n {
        return Ok(None);
    }
    match parse_uint(slice_subrange(i, 2, 2 + n)) {
        Ok((_, payload)) => {
            if payload > usize::MAX as u64 {
                return Err(Error::InvalidEnvelope);
            }
            match (2 + n).checked_add(payload as usize) {
                Some(length) => Ok(Some(length)),
                None => Err(Error::InvalidEnvelope),
            }
        },
        Err(_) => Err(Error::InvalidEnvelope),
    }
}

fn read_identifier(tag: StructureTag) -> (r: Option<RequestId>)
    ensures
        match identifier_of(tag@) {
            Some(id) => r is Some && r->0 == id,
            None => r is None,
        },
{
    if tag.class != TagClass::Universal || tag.id != INTEGER {
        return None;
    }
    match tag.expect_primitive() {
        None => None,
        Some(bytes) => {
            if bytes.len() == 0 || bytes.len() > 4 || bytes[0] >= 128 {
                return None;
            }
            proof {
                lemma_small_value(bytes@);
            }
            match parse_uint(bytes.as_slice()) {
                Ok((_, id)) => Some(id as i32),
                Err(_) => None,
            }
        },
    }
}

fn read_message(tag: StructureTag) -> (r: Option<(RequestId, StructureTag, Vec<RawControl>)>)
    ensures
        match envelope_of(tag@) {
            Some(envelope) => r matches Some((id, operation, controls)) && envelope == (Envelope {
                id: id as int,
                operation: operation@,
                controls: control_values(controls@),
            }),
            None => r is None,
        },
{
    let mut parts = match tag.expect_constructed() {
        Some(parts) => parts,
        None => return None,
    };
    let n: usize = parts.len();
    if n < 2 || n > 3 {
        return None;
    }
    let ghost es = elements(parts@);
    let controls = if n == 3 {
        match parts.pop() {
            Some(last) => {
                assert(last@ == es[2]);
                match try_parse_controls(last) {
                    Ok(controls) => controls,
                    Err(_) => return None,
                }
            },
            None => return None,
        }
    } else {
        Vec::new()
    };
    assert(n == 2 ==> control_values(controls@) =~= Seq::empty());
    let operation = match parts.pop() {
        Some(operation) => operation,
        None => return None,
    };
    assert(operation@ == es[1]);
    if operation.class != TagClass::Application {
        return None;
    }
    match parts.pop() {
        Some(id) => {
            assert(id@ == es[0]);
            match read_identifier(id) {
                Some(id) => Some((id, operation, controls)),
                None => None,
            }
        },
        None => None,
    }
}

/// Whether a result, and what was left in the buffer, is what the model says of the input.
pub open spec fn decoded(
    before: &BytesMut,
    after: &BytesMut,
    limits: CodecLimits,
    r: Result<Option<RawResponse>, Error>,
) -> bool {
    match frame(buffered(before), limits) {
        Frame::Partial => r == Ok::<Option<RawResponse>, Error>(None) && after == before,
        Frame::Malformed => r == Err::<Option<RawResponse>, Error>(Error::InvalidEnvelope)
            && after == before,
        Frame::Complete { length, envelope } => {
            &&& r matches Ok(Some(response)) && response@ == envelope && frozen(&response.raw)
                == buffered(before).take(length as int)
            &&& buffered(after) == buffered(before).skip(length as int)
        },
    }
}

/// The message at the start of the buffer, once it is complete and within the limits.
pub fn decode_inner(buf: &mut BytesMut, limits: CodecLimits) -> (r: Result<
    Option<RawResponse>,
    Error,
>)
    ensures
        decoded(old(buf), final(buf), limits, r),
{
    let held = contents(buf);
    let length: usize = match header_length(held) {
        Err(e) => return Err(e),
        Ok(None) => return Ok(None),
        Ok(Some(length)) => length,
    };
    if length > limits.maximum_frame {
        return Err(Error::InvalidEnvelope);
    }
    if held.len() < length {
        return Ok(None);
    }
    let whole = slice_subrange(held, 0, length);
    assert(whole@ =~= buffered(buf).take(length as int));
    let tag = match parse_tag_limited(
        whole,
        limits.maximum_depth,
        limits.maximum_nodes,
        limits.maximum_allocation,
    ) {
        Ok((tail, tag)) => {
            if tail.len() > 0 {
                return Err(Error::InvalidEnvelope);
            }
            tag
        },
        Err(_) => return Err(Error::InvalidEnvelope),
    };
    let (id, operation, controls) = match read_message(tag) {
        Some(message) => message,
        None => return Err(Error::InvalidEnvelope),
    };
    let raw = freeze_copy(whole);
    advance(buf, length);
    Ok(Some(RawResponse { id, operation, controls, raw }))
}

/// The element that a message is written as.
pub open spec fn message_element(
    id: int,
    operation: Element,
    controls: Option<Seq<ControlValue>>,
) -> Element {
    constructed(
        TagClass::Universal,
        SEQUENCE,
        seq![primitive(TagClass::Universal, INTEGER, int_octets(id)), operation] + (match controls {
            Some(cs) => seq![controls_element(cs)],
            None => seq![],
        }),
    )
}

pub open spec fn maybe_control_values(controls: Option<Vec<RawControl>>) -> Option<
    Seq<ControlValue>,
> {
    match controls {
        Some(cs) => Some(control_values(cs@)),
        None => None,
    }
}

/// The element that the message is written as.
pub fn message(id: RequestId, operation: Tag, controls: Option<Vec<RawControl>>) -> (r:
    StructureTag)
    ensures
        r@ == message_element(id as int, operation@, maybe_control_values(controls)),
{
    let mut parts: Vec<Tag> = Vec::new();
    parts.push(
        Tag::Integer(Integer { class: TagClass::Universal, id: INTEGER, inner: id as i64 }),
    );
    parts.push(operation);
    if let Some(controls) = controls {
        parts.push(Tag::StructureTag(build_controls(controls)));
    }
    let ghost expected = message_element(id as int, operation@, maybe_control_values(controls));
    assert(tag_elements(parts@) =~= expected.body->Children_0);
    Tag::Sequence(
        Sequence { class: TagClass::Universal, id: SEQUENCE, inner: parts },
    ).into_structure()
}

/// A response to a search.
#[derive(Debug)]
pub enum SearchItem {
    Entry(StructureTag),
    Referral(StructureTag),
    Done(StructureTag),
}

/// Where the responses to a search go.
pub type ItemSender = mpsc::UnboundedSender<(SearchItem, Vec<RawControl>)>;

/// Where the response to another request goes.
pub type ResultSender = oneshot::Sender<(Tag, Vec<RawControl>)>;

/// A request as the connection treats it.
pub enum LdapOp<L> {
    Raw(RawOperation<L>),
    Single,
    Search(ItemSender),
    Abandon(RequestId),
    Unbind,
}

/// A request in the queue of the connection.
pub type Request<L> = (RequestId, LdapOp<L>, Tag, Option<Vec<RawControl>>, ResultSender);

/// Reads and writes messages.
#[derive(Clone, Copy, Debug)]
pub struct LdapCodec {
    limits: CodecLimits,
}

impl LdapCodec {
    pub closed spec fn limits(self) -> CodecLimits {
        self.limits
    }

    pub fn new(limits: CodecLimits) -> (r: Result<Self, Error>)
        ensures
            match r {
                Ok(codec) => limits.valid() && codec.limits() == limits,
                Err(e) => !limits.valid() && e == Error::InvalidCodecLimits,
            },
    {
        if limits.maximum_frame < 2 || limits.maximum_allocation == 0 || limits.maximum_nodes == 0
            || limits.maximum_depth == 0 || limits.maximum_depth > 128 {
            return Err(Error::InvalidCodecLimits);
        }
        Ok(Self { limits })
    }

    pub(crate) fn get_limits(&self) -> (r: CodecLimits)
        ensures
            r == self.limits(),
    {
        self.limits
    }

    /// The message at the start of the buffer, once it is complete.
    pub fn decode(&mut self, buf: &mut BytesMut) -> (r: Result<Option<RawResponse>, Error>)
        ensures
            *final(self) == *old(self),
            decoded(old(buf), final(buf), old(self).limits(), r),
    {
        decode_inner(buf, self.limits)
    }

    /// Appends the message to the buffer.
    pub fn encode(
        &mut self,
        msg: (RequestId, Tag, Option<Vec<RawControl>>),
        into: &mut BytesMut,
    ) -> (r: Result<(), Error>)
        ensures
            *final(self) == *old(self),
            ({
                let e = message_element(msg.0 as int, msg.1@, maybe_control_values(msg.2));
                if encodable(e) && buffered(old(into)).len() + encode(e).len() <= isize::MAX {
                    r is Ok && buffered(final(into)) == buffered(old(into)) + encode(e) && erased(e)
                } else {
                    r == Err::<(), Error>(Error::LimitExceeded) && *final(into) == *old(into)
                }
            }),
    {
        let (id, tag, controls) = msg;
        encode_into(into, message(id, tag, controls))
    }
}

} // verus!
