//! What a message says, and what is read and written of it.
use crate::asn1::{
    be_value, constructed, elements, int_value, integer_octets, tag_elements, Body, Element,
    StructureTag, Tag, TagClass, PL,
};
use crate::buffer::{buffered, frozen, wiped_buffer};
use crate::conn::encode_message;
use crate::controls::{
    build_controls, build_tag, control_of, control_reads_back, control_values, controls_of,
    controls_read_back, try_parse_controls, ControlValue, RawControl,
};
use crate::error::Error;
use crate::framing::{malformed_input_stays_malformed, written_message_reads_back};
use crate::operation_laws::{
    child, is_bytes, is_list, is_number, is_octets, is_shortest, lemma_shortest,
};
use crate::parse::{
    element_at, node_cost, parse_tag, parse_tag_limited, parse_uint, BerError, FailureKind, Needed,
};
use crate::protocol::{
    decode_inner, decoded, envelope_of, frame, identifier_of, maybe_control_values, message,
    message_element, CodecLimits, Envelope, Frame, LdapCodec, RawResponse, RequestId,
};
use crate::roundtrip::{height, memory_cost, node_count, read_element_is_within_limits};
use crate::spelling::{
    any_header_gives_the_length, encoded_element_is_spelled, is_length,
    leading_zeros_change_nothing, lemma_length, padded, read_element_is_spelled,
    spelled_element_reads_back, spells, written_form_is_the_shortest,
};
use crate::write::{all_encodable, encodable, encode, encode_into, erased};
use bytes::BytesMut;
use vstd::arithmetic::power::pow;
use vstd::prelude::*;
use vstd::utf8::{decode_utf8, encode_utf8, valid_utf8};

verus! {

/// A sequence of a type, perhaps a criticality, and perhaps a value. Any byte but zero makes the
/// control critical; without a criticality it is not.
pub open spec fn says_control(e: Element, c: ControlValue) -> bool {
    let second = child(e, 1);
    let flagged = e.body->Children_0.len() >= 2 && second.class == TagClass::Universal && second.id
        == 1;
    let n: nat = if flagged {
        2
    } else {
        1
    };
    &&& e.body is Children
    &&& is_octets(child(e, 0), encode_utf8(c.ctype))
    &&& flagged ==> (second.body matches Body::Bytes(bytes) && bytes.len() == 1 && c.crit == (
    bytes[0] != 0))
    &&& !flagged ==> !c.crit
    &&& match c.val {
        Some(bytes) => is_list(e, TagClass::Universal, 16, n + 1) && is_octets(
            child(e, n as int),
            bytes,
        ),
        None => is_list(e, TagClass::Universal, 16, n),
    }
}

/// A list of controls, in order.
pub open spec fn says_controls(e: Element, cs: Seq<ControlValue>) -> bool {
    is_list(e, TagClass::Context, 0, cs.len()) && forall|i: int|
        0 <= i < cs.len() ==> says_control(#[trigger] child(e, i), cs[i])
}

/// A non-negative number in at most four bytes.
pub open spec fn says_identifier(e: Element, id: int) -> bool {
    e.class == TagClass::Universal && e.id == 2 && (e.body matches Body::Bytes(bytes) && 1
        <= bytes.len() <= 4 && bytes[0] < 128 && be_value(bytes) == id)
}

/// A sequence of an identifier, an operation, and perhaps controls.
pub open spec fn says_message(e: Element, said: Envelope) -> bool {
    &&& e.body is Children
    &&& says_identifier(child(e, 0), said.id)
    &&& child(e, 1) == said.operation && said.operation.class == TagClass::Application
    &&& is_list(e, TagClass::Universal, 16, 2) && said.controls.len() == 0 || is_list(
        e,
        TagClass::Universal,
        16,
        3,
    ) && says_controls(child(e, 2), said.controls)
}

proof fn lemma_control(e: Element, c: ControlValue)
    ensures
        control_of(e) == Some(c) <==> says_control(e, c),
{
    broadcast use vstd::utf8::encode_utf8_valid_utf8, vstd::utf8::encode_utf8_decode_utf8;
    broadcast use vstd::utf8::decode_utf8_encode_utf8;

    if let Some(found) = control_of(e) {
        let bytes = child(e, 0).body->Bytes_0;
        assert(encode_utf8(decode_utf8(bytes)) == bytes);
        assert(says_control(e, found));
    }
    if says_control(e, c) {
        let bytes = child(e, 0).body->Bytes_0;
        assert(valid_utf8(bytes));
        assert(decode_utf8(bytes) == c.ctype);
        assert(control_of(e) is Some);
        assert(control_of(e)->0.val == c.val);
    }
}

proof fn lemma_controls(e: Element, cs: Seq<ControlValue>)
    ensures
        controls_of(e) == Some(cs) <==> says_controls(e, cs),
{
    if let Some(found) = controls_of(e) {
        assert forall|i: int| 0 <= i < found.len() implies says_control(
            #[trigger] child(e, i),
            found[i],
        ) by {
            lemma_control(child(e, i), found[i]);
        }
        assert(says_controls(e, found));
    }
    if says_controls(e, cs) {
        let parts = e.body->Children_0;
        assert forall|i: int| 0 <= i < parts.len() implies control_of(#[trigger] parts[i]) == Some(
            cs[i],
        ) by {
            assert(says_control(child(e, i), cs[i]));
            lemma_control(parts[i], cs[i]);
        }
        assert(controls_of(e)->0 =~= cs);
    }
}

proof fn lemma_message(e: Element, said: Envelope)
    requires
        e.class == TagClass::Universal,
        e.id == 16,
    ensures
        envelope_of(e) == Some(said) <==> says_message(e, said),
{
    if e.body is Children && e.body->Children_0.len() == 3 {
        lemma_controls(child(e, 2), said.controls);
    }
    if envelope_of(e) == Some(said) {
        assert(says_identifier(child(e, 0), said.id));
    }
    if says_message(e, said) {
        assert(identifier_of(child(e, 0)) == Some(said.id));
        assert(said.controls.len() == 0 ==> said.controls =~= Seq::empty());
        assert(envelope_of(e)->0 =~= said);
    }
}

/// What a list of controls says is what each of them holds, in order, and a copy says the same.
pub proof fn controls_say_what_they_hold(controls: Seq<RawControl>, i: int, copy: RawControl)
    requires
        0 <= i < controls.len(),
        call_ensures(RawControl::clone, (&controls[i],), copy),
    ensures
        control_values(controls).len() == controls.len(),
        ({
            let said = control_values(controls)[i];
            let held = controls[i];
            &&& said.ctype == held.ctype@ && said.ctype == copy.ctype@
            &&& said.crit == held.crit && said.crit == copy.crit
            &&& said.val is Some == held.val is Some && said.val is Some == copy.val is Some
            &&& said.val matches Some(bytes) ==> bytes == held.val->0@ && bytes == copy.val->0@
        }),
{
}

/// A control that was read says what it says, and one that says something is read so.
pub proof fn controls_are_read(tag: StructureTag, r: Result<Vec<RawControl>, Error>)
    requires
        call_ensures(try_parse_controls, (tag,), r),
    ensures
        r matches Ok(controls) ==> says_controls(tag@, control_values(controls@)),
        r is Err ==> forall|cs: Seq<ControlValue>| !says_controls(tag@, cs),
{
    if let Ok(controls) = r {
        lemma_controls(tag@, control_values(controls@));
    } else {
        assert forall|cs: Seq<ControlValue>| !says_controls(tag@, cs) by {
            lemma_controls(tag@, cs);
        }
    }
}

/// A control is written with its type, with all bits set where it is critical and nothing where
/// it is not, and with its value if it has one.
pub proof fn controls_are_written(control: RawControl, r: StructureTag)
    requires
        call_ensures(build_tag, (control,), r),
    ensures
        says_control(r@, control@),
        control.crit ==> is_bytes(child(r@, 1), TagClass::Universal, 1, seq![255u8]),
        !control.crit ==> is_list(
            r@,
            TagClass::Universal,
            16,
            if control.val is Some {
                2
            } else {
                1
            },
        ),
{
    control_reads_back(control@);
    lemma_control(r@, control@);
}

/// The controls of a message are written in order.
pub proof fn lists_of_controls_are_written(controls: Vec<RawControl>, r: StructureTag)
    requires
        call_ensures(build_controls, (controls,), r),
    ensures
        says_controls(r@, control_values(controls@)),
{
    controls_read_back(control_values(controls@));
    lemma_controls(r@, control_values(controls@));
}

/// A message is written with its identifier, its operation, and its controls in order if it has
/// a list of them.
pub proof fn messages_hold_their_parts(
    id: RequestId,
    operation: Tag,
    controls: Option<Vec<RawControl>>,
    r: StructureTag,
)
    requires
        call_ensures(message, (id, operation, controls), r),
    ensures
        is_list(
            r@,
            TagClass::Universal,
            16,
            if controls is Some {
                3
            } else {
                2
            },
        ),
        is_number(child(r@, 0), TagClass::Universal, 2, id as int),
        child(r@, 1) == operation@,
        controls matches Some(cs) ==> says_controls(child(r@, 2), control_values(cs@)),
{
    lemma_shortest(id as int);
    if let Some(cs) = controls {
        controls_read_back(control_values(cs@));
        lemma_controls(child(r@, 2), control_values(cs@));
    }
}

/// What a message is written as: some element that holds its parts, in its shortest form, behind
/// what the buffer held before.
pub proof fn messages_are_written(
    codec: &mut LdapCodec,
    id: RequestId,
    operation: Tag,
    controls: Option<Vec<RawControl>>,
    into: &mut BytesMut,
    r: Result<(), Error>,
)
    requires
        call_ensures(LdapCodec::encode, (codec, (id, operation, controls), into), r),
        r is Ok,
        buffered(old(into)).len() <= buffered(final(into)).len() <= u64::MAX,
    ensures
        exists|e: Element, wire: Seq<u8>|
            {
                &&& #[trigger] spells(wire, e)
                &&& buffered(final(into)) == buffered(old(into)) + wire
                &&& forall|other: Seq<u8>| #[trigger] spells(other, e) ==> wire.len() <= other.len()
                &&& is_number(child(e, 0), TagClass::Universal, 2, id as int)
                &&& child(e, 1) == operation@
                &&& match controls {
                    Some(cs) => is_list(e, TagClass::Universal, 16, 3) && says_controls(
                        child(e, 2),
                        control_values(cs@),
                    ),
                    None => is_list(e, TagClass::Universal, 16, 2),
                }
            },
{
    let e = message_element(
        id as int,
        operation@,
        maybe_control_values(controls),
    );
    let wire = encode(e);
    encoded_element_is_spelled(e);
    assert forall|other: Seq<u8>| #[trigger] spells(other, e) implies wire.len()
        <= other.len() by {
        written_form_is_the_shortest(other, e);
    }
    lemma_shortest(id as int);
    if let Some(cs) = controls {
        controls_read_back(control_values(cs@));
        lemma_controls(child(e, 2), control_values(cs@));
    }
    assert(spells(wire, e));
}

/// A message is refused exactly when every form of it is too long for the buffer, which then stays
/// as it was.
pub proof fn unwritable_messages_are_refused(
    codec: &mut LdapCodec,
    id: RequestId,
    operation: Tag,
    controls: Option<Vec<RawControl>>,
    into: &mut BytesMut,
    made: StructureTag,
    r: Result<(), Error>,
)
    requires
        call_ensures(LdapCodec::encode, (codec, (id, operation, controls), into), r),
        call_ensures(message, (id, operation, controls), made),
    ensures
        *final(codec) == *old(codec),
        r is Err <==> forall|wire: Seq<u8>| #[trigger]
            spells(wire, made@) ==> buffered(old(into)).len() + wire.len() > isize::MAX,
        r matches Err(e) ==> e == Error::LimitExceeded && *final(into) == *old(into),
{
    let e = made@;
    assert forall|wire: Seq<u8>| #[trigger] spells(wire, e) implies encodable(e) && encode(e).len()
        <= wire.len() by {
        written_form_is_the_shortest(wire, e);
    }
    if r is Ok {
        encoded_element_is_spelled(e);
        assert(spells(encode(e), e));
    }
}

/// The bytes of a message are its shortest form, and no other copy of them is kept: the buffer that
/// they were built in is erased, and so are the parts of the message.
pub proof fn encoded_messages_are_written(
    codec: &mut LdapCodec,
    id: RequestId,
    operation: Tag,
    controls: Option<Vec<RawControl>>,
    made: StructureTag,
    r: Result<Vec<u8>, Error>,
)
    requires
        call_ensures(encode_message, (codec, id, operation, controls), r),
        call_ensures(message, (id, operation, controls), made),
    ensures
        r matches Ok(bytes) ==> spells(bytes@, made@) && wiped_buffer(bytes@) && erased(made@)
            && forall|other: Seq<u8>| #[trigger]
            spells(other, made@) ==> bytes@.len() <= other.len(),
        r matches Err(e) ==> e == Error::LimitExceeded && forall|other: Seq<u8>| #[trigger]
            spells(other, made@) ==> other.len() > isize::MAX,
{
    let e = made@;
    assert forall|other: Seq<u8>| #[trigger] spells(other, e) implies encode(e).len()
        <= other.len() && encodable(e) by {
        written_form_is_the_shortest(other, e);
    }
    if r is Ok {
        encoded_element_is_spelled(e);
    }
}

pub proof fn lemma_message_frames(
    wire: Seq<u8>,
    e: Element,
    said: Envelope,
    rest: Seq<u8>,
    limits: CodecLimits,
)
    requires
        spells(wire, e),
        says_message(e, said),
        wire[1] <= 128 + usize::BITS / 8,
        wire.len() <= limits.maximum_frame,
        height(e) <= limits.maximum_depth,
        node_count(e) <= limits.maximum_nodes,
        memory_cost(e) <= limits.maximum_allocation,
    ensures
        frame(wire + rest, limits) == (Frame::Complete { length: wire.len(), envelope: said }),
{
    let i = wire + rest;
    let start = choose|start: int|
        {
            &&& 2 <= start <= wire.len()
            &&& #[trigger] is_length(wire.subrange(1, start), (wire.len() - start) as nat)
        };
    let head = wire.subrange(1, start);
    let content = wire.skip(start);
    assert(head[0] == wire[1]);
    any_header_gives_the_length(head, content.len(), content + rest);
    assert(i =~= seq![0x30u8] + head + (content + rest));
    assert(i.take(wire.len() as int) =~= wire);
    assert(wire + Seq::<u8>::empty() =~= wire);
    spelled_element_reads_back(
        wire,
        e,
        Seq::empty(),
        limits.maximum_depth as nat,
        (limits.maximum_nodes as nat, limits.maximum_allocation as nat),
    );
    lemma_message(e, said);
}

/// A message in any form that is within the limits is read whole, whatever follows it.
pub proof fn messages_in_any_form_are_read(
    buf: &mut BytesMut,
    limits: CodecLimits,
    r: Result<Option<RawResponse>, Error>,
    wire: Seq<u8>,
    e: Element,
    said: Envelope,
    rest: Seq<u8>,
)
    requires
        call_ensures(decode_inner, (buf, limits), r),
        buffered(old(buf)) == wire + rest,
        spells(wire, e),
        says_message(e, said),
        // The length of the message fills no more bytes than a machine word has.
        wire[1] <= 128 + usize::BITS / 8,
        wire.len() <= limits.maximum_frame,
        height(e) <= limits.maximum_depth,
        node_count(e) <= limits.maximum_nodes,
        memory_cost(e) <= limits.maximum_allocation,
    ensures
        r matches Ok(Some(response)) && {
            &&& response.id == said.id
            &&& response.operation@ == said.operation
            &&& control_values(response.controls@) == said.controls
            &&& frozen(&response.raw) == wire
        },
        buffered(final(buf)) == rest,
{
    lemma_message_frames(wire, e, said, rest, limits);
    assert((wire + rest).take(wire.len() as int) =~= wire);
    assert((wire + rest).skip(wire.len() as int) =~= rest);
}

/// A message that was read is one: its bytes, which the response keeps and which leave the
/// buffer, are an element that says what the response says.
pub proof fn read_messages_are_messages(
    buf: &mut BytesMut,
    limits: CodecLimits,
    response: RawResponse,
)
    requires
        call_ensures(decode_inner, (buf, limits), Ok(Some(response))),
    ensures
        buffered(old(buf)) == frozen(&response.raw) + buffered(final(buf)),
        exists|e: Element| #[trigger]
            spells(frozen(&response.raw), e) && says_message(e, response@) && height(e)
                <= limits.maximum_depth && node_count(e) <= limits.maximum_nodes && memory_cost(e)
                <= limits.maximum_allocation,
        frozen(&response.raw).len() <= limits.maximum_frame,
{
    let i = buffered(old(buf));
    let wire = frozen(&response.raw);
    let depth = limits.maximum_depth as nat;
    let budget = (limits.maximum_nodes as nat, limits.maximum_allocation as nat);
    read_element_is_spelled(wire, depth, budget);
    read_element_is_within_limits(wire, depth, budget);
    let (used, e, left) = element_at(wire, depth, budget)->Ok_0;
    assert(wire.take(used as int) =~= wire);
    assert(wire[0] == i[0]);
    lemma_message(e, response@);
    assert(i =~= wire + buffered(final(buf)));
    assert(spells(wire, e));
}

/// What was written is read: the same identifier, operation and controls, whatever follows.
pub proof fn written_messages_are_read(
    codec: &mut LdapCodec,
    id: RequestId,
    operation: Tag,
    controls: Option<Vec<RawControl>>,
    into: &mut BytesMut,
    written: Result<(), Error>,
    buf: &mut BytesMut,
    limits: CodecLimits,
    rest: Seq<u8>,
    r: Result<Option<RawResponse>, Error>,
    e: Element,
)
    requires
        call_ensures(LdapCodec::encode, (codec, (id, operation, controls), into), written),
        written is Ok,
        0 <= id,
        operation@.class == TagClass::Application,
        buffered(old(buf)) == buffered(final(into)).skip(buffered(old(into)).len() as int) + rest,
        call_ensures(decode_inner, (buf, limits), r),
        spells(buffered(final(into)).skip(buffered(old(into)).len() as int), e),
        buffered(final(into)).len() - buffered(old(into)).len() <= limits.maximum_frame,
        height(e) <= limits.maximum_depth,
        node_count(e) <= limits.maximum_nodes,
        memory_cost(e) <= limits.maximum_allocation,
    ensures
        r matches Ok(Some(response)) && {
            &&& response.id == id
            &&& response.operation@ == operation@
            &&& control_values(response.controls@) == match controls {
                Some(cs) => control_values(cs@),
                None => Seq::empty(),
            }
        },
        buffered(final(buf)) == rest,
{
    let values = maybe_control_values(controls);
    let made = message_element(id as int, operation@, values);
    let wire = encode(made);
    assert(buffered(final(into)).skip(buffered(old(into)).len() as int) =~= wire);
    encoded_element_is_spelled(made);
    let budget = (node_count(e) + node_count(made), memory_cost(e) + memory_cost(made));
    let none = Seq::<u8>::empty();
    spelled_element_reads_back(wire, e, none, height(e) + height(made), budget);
    spelled_element_reads_back(wire, made, none, height(e) + height(made), budget);
    assert(e == made);
    let parts = made.body->Children_0;
    assert(all_encodable(parts));
    assert(encodable(parts[1]));
    written_message_reads_back(id as int, operation@, values, rest, limits);
    assert((wire + rest).skip(wire.len() as int) =~= rest);
}

/// Where bytes are refused, no message within the limits starts with them, whatever follows. The
/// buffer stays as it was.
pub proof fn refused_bytes_start_no_message(
    buf: &mut BytesMut,
    limits: CodecLimits,
    r: Result<Option<RawResponse>, Error>,
    more: Seq<u8>,
    wire: Seq<u8>,
    e: Element,
    said: Envelope,
    rest: Seq<u8>,
)
    requires
        call_ensures(decode_inner, (buf, limits), r),
        r is Err,
        spells(wire, e),
        says_message(e, said),
        wire[1] <= 128 + usize::BITS / 8,
        wire.len() <= limits.maximum_frame,
        height(e) <= limits.maximum_depth,
        node_count(e) <= limits.maximum_nodes,
        memory_cost(e) <= limits.maximum_allocation,
    ensures
        r == Err::<Option<RawResponse>, Error>(Error::InvalidEnvelope),
        buffered(old(buf)) + more != wire + rest,
        *final(buf) == *old(buf),
{
    malformed_input_stays_malformed(buffered(old(buf)), more, limits);
    lemma_message_frames(wire, e, said, rest, limits);
}

/// A message beyond the limits is refused, whatever follows it.
pub proof fn oversized_messages_are_refused(
    buf: &mut BytesMut,
    limits: CodecLimits,
    r: Result<Option<RawResponse>, Error>,
    wire: Seq<u8>,
    e: Element,
    rest: Seq<u8>,
)
    requires
        call_ensures(decode_inner, (buf, limits), r),
        buffered(old(buf)) == wire + rest,
        spells(wire, e),
        e.class == TagClass::Universal,
        e.id == 16,
        e.body is Children,
        wire.len() <= usize::MAX,
        wire.len() > limits.maximum_frame || height(e) > limits.maximum_depth || node_count(e)
            > limits.maximum_nodes || memory_cost(e) > limits.maximum_allocation || forall|
            said: Envelope,
        | !says_message(e, said),
    ensures
        r == Err::<Option<RawResponse>, Error>(Error::InvalidEnvelope),
        *final(buf) == *old(buf),
{
    let i = wire + rest;
    let start = choose|start: int|
        {
            &&& 2 <= start <= wire.len()
            &&& #[trigger] is_length(wire.subrange(1, start), (wire.len() - start) as nat)
        };
    let head = wire.subrange(1, start);
    let content = wire.skip(start);
    assert(head[0] == wire[1]);
    assert(i =~= seq![0x30u8] + head + (content + rest));
    assert(i[0] == 0x30 && i[1] == head[0]);
    if head.len() <= 1 + usize::BITS / 8 {
        any_header_gives_the_length(head, content.len(), content + rest);
        assert(i.take(wire.len() as int) =~= wire);
        assert(wire + Seq::<u8>::empty() =~= wire);
        spelled_element_reads_back(
            wire,
            e,
            Seq::empty(),
            limits.maximum_depth as nat,
            (limits.maximum_nodes as nat, limits.maximum_allocation as nat),
        );
        if let Some(said) = envelope_of(e) {
            lemma_message(e, said);
        }
    }
}

/// Bytes are waited for as long as the header of a message, or what it announces within the
/// limit, is not there; a longer message is refused at once. The buffer stays as it was.
pub proof fn announced_bytes_are_waited_for(
    buf: &mut BytesMut,
    limits: CodecLimits,
    r: Result<Option<RawResponse>, Error>,
    head: Seq<u8>,
    n: nat,
    content: Seq<u8>,
    k: int,
)
    requires
        call_ensures(decode_inner, (buf, limits), r),
        is_length(head, n),
        head.len() <= 1 + usize::BITS / 8,
        1 + head.len() + n <= usize::MAX,
        0 <= k <= (seq![0x30u8] + head + content).len(),
        buffered(old(buf)) == (seq![0x30u8] + head + content).take(k),
    ensures
        k < 1 + head.len() ==> r == Ok::<Option<RawResponse>, Error>(None),
        k >= 1 + head.len() && 1 + head.len() + n > limits.maximum_frame ==> r == Err::<
            Option<RawResponse>,
            Error,
        >(Error::InvalidEnvelope),
        1 + head.len() + n <= limits.maximum_frame && k < 1 + head.len() + n ==> r == Ok::<
            Option<RawResponse>,
            Error,
        >(None),
        !(r matches Ok(Some(_))) ==> *final(buf) == *old(buf),
{
    let whole = seq![0x30u8] + head + content;
    let i = whole.take(k);
    if k >= 2 {
        assert(i[0] == 0x30 && i[1] == head[0]);
        if head.len() > 1 && k >= 1 + head.len() {
            assert(i.subrange(2, 1 + head.len() as int) =~= head.skip(1));
        }
    }
}

/// A message starts with the first byte of a SEQUENCE, and its length is neither left open nor
/// longer than a machine word.
pub proof fn other_starts_are_refused(
    buf: &mut BytesMut,
    limits: CodecLimits,
    r: Result<Option<RawResponse>, Error>,
)
    requires
        call_ensures(decode_inner, (buf, limits), r),
        buffered(old(buf)).len() >= 2,
        buffered(old(buf))[0] != 0x30 || buffered(old(buf))[1] == 128 || buffered(old(buf))[1] > 128
            + usize::BITS / 8,
    ensures
        r == Err::<Option<RawResponse>, Error>(Error::InvalidEnvelope),
        *final(buf) == *old(buf),
{
}

/// The codec reads as it was made to: under its limits, which reading does not change.
pub proof fn codecs_keep_their_limits(
    limits: CodecLimits,
    made: Result<LdapCodec, Error>,
    codec: &mut LdapCodec,
    buf: &mut BytesMut,
    r: Result<Option<RawResponse>, Error>,
)
    requires
        call_ensures(LdapCodec::new, (limits,), made),
        made == Ok::<LdapCodec, Error>(*old(codec)),
        call_ensures(LdapCodec::decode, (codec, buf), r),
    ensures
        *final(codec) == *old(codec),
        decoded(old(buf), final(buf), limits, r),
{
}

/// An element in any form is read whole, whatever follows it, exactly if it is within the limits:
/// beyond them it is too large.
pub proof fn elements_in_any_form_are_read(
    i: &[u8],
    depth: usize,
    nodes: usize,
    memory: usize,
    r: Result<(&[u8], StructureTag), BerError>,
    wire: Seq<u8>,
    e: Element,
    rest: Seq<u8>,
)
    requires
        call_ensures(parse_tag_limited, (i, depth, nodes, memory), r),
        i@ == wire + rest,
        wire.len() <= usize::MAX,
        spells(wire, e),
    ensures
        if height(e) <= depth && node_count(e) <= nodes && memory_cost(e) <= memory {
            r matches Ok((left, tag)) && left@ == rest && tag@ == e
        } else {
            r == Err::<(&[u8], StructureTag), BerError>(BerError::Failure(FailureKind::TooLarge))
        },
{
    spelled_element_reads_back(wire, e, rest, depth as nat, (nodes as nat, memory as nat));
    assert((wire + rest).skip(wire.len() as int) =~= rest);
}

/// Without limits of one's own, an element may have 64 levels, 65536 nodes, and take 64 MiB.
pub proof fn elements_are_read_under_common_limits(
    i: &[u8],
    r: Result<(&[u8], StructureTag), BerError>,
    limited: Result<(&[u8], StructureTag), BerError>,
)
    requires
        call_ensures(parse_tag, (i,), r),
        call_ensures(parse_tag_limited, (i, 64, 65536, 0x400_0000), limited),
    ensures
        match limited {
            Ok((rest, tag)) => r matches Ok((left, same)) && left@ == rest@ && same@ == tag@,
            Err(e) => r == Err::<(&[u8], StructureTag), BerError>(e),
        },
{
}

/// A header that is not all there needs as many bytes as are missing; a length that is left open,
/// or of more than eight bytes, has no supported form; a number that takes more than the first
/// byte is too large.
pub proof fn headers_are_told_apart(
    i: &[u8],
    depth: usize,
    nodes: usize,
    memory: usize,
    r: Result<(&[u8], StructureTag), BerError>,
)
    requires
        call_ensures(parse_tag_limited, (i, depth, nodes, memory), r),
        depth > 0,
        nodes > 0,
        memory >= node_cost(),
    ensures
        i@.len() <= 1 ==> (r matches Err(BerError::Incomplete(Needed::Size(1)))),
        i@.len() >= 2 && (i@[1] == 128 || i@[1] > 136) ==> (r matches Err(
            BerError::Failure(FailureKind::LengthValue),
        )),
        i@.len() >= 2 && 128 < i@[1] <= 136 && i@.len() < 2 + (i@[1] - 128) ==> (r matches Err(
            BerError::Incomplete(Needed::Size(missing)),
        ) && missing + i@.len() == 2 + (i@[1] - 128)),
        i@.len() >= 2 && i@[1] < 128 && i@[0] % 32 == 31 ==> (r matches Err(
            BerError::Failure(FailureKind::TooLarge),
        )),
{
    if i@.len() >= 1 {
        let j = i@.skip(1);
        assert(i@.len() >= 2 ==> j[0] == i@[1]);
    }
}

/// What was read is an element within the limits, and what is left follows it.
pub proof fn read_elements_are_elements(
    i: &[u8],
    depth: usize,
    nodes: usize,
    memory: usize,
    left: &[u8],
    tag: StructureTag,
)
    requires
        call_ensures(parse_tag_limited, (i, depth, nodes, memory), Ok((left, tag))),
    ensures
        left@.len() <= i@.len(),
        left@ == i@.skip(i@.len() - left@.len()),
        spells(i@.take(i@.len() - left@.len()), tag@),
        height(tag@) <= depth,
        node_count(tag@) <= nodes,
        memory_cost(tag@) <= memory,
{
    read_element_is_spelled(i@, depth as nat, (nodes as nat, memory as nat));
    read_element_is_within_limits(i@, depth as nat, (nodes as nat, memory as nat));
}

/// An element whose content is not all there needs as many bytes as are missing.
pub proof fn missing_bytes_are_counted(
    i: &[u8],
    depth: usize,
    nodes: usize,
    memory: usize,
    r: Result<(&[u8], StructureTag), BerError>,
    first: u8,
    head: Seq<u8>,
    n: nat,
    content: Seq<u8>,
)
    requires
        call_ensures(parse_tag_limited, (i, depth, nodes, memory), r),
        i@ == seq![first] + head + content,
        is_length(head, n),
        n <= usize::MAX,
        content.len() < n,
        first % 32 != 31,
        depth > 0,
        nodes > 0,
        memory >= node_cost(),
    ensures
        r matches Err(BerError::Incomplete(Needed::Size(missing))) && missing + content.len() == n,
{
    assert(i@[0] == first);
    assert(i@.skip(1) =~= head + content);
    lemma_length(head, n, content);
}

/// Without levels, nodes or memory left, nothing is read, nor with a number that takes more than
/// the first byte.
pub proof fn nothing_is_read_beyond_the_limits(
    i: &[u8],
    depth: usize,
    nodes: usize,
    memory: usize,
    r: Result<(&[u8], StructureTag), BerError>,
)
    requires
        call_ensures(parse_tag_limited, (i, depth, nodes, memory), r),
        depth == 0 || nodes == 0 || memory < node_cost() || i@.len() > 0 && i@[0] % 32 == 31,
    ensures
        r is Err,
        depth == 0 || nodes == 0 || memory < node_cost() ==> r == Err::<
            (&[u8], StructureTag),
            BerError,
        >(BerError::Failure(FailureKind::TooLarge)),
{
}

/// A number in any number of octets up to eight is read, with leading zeros or without.
pub proof fn numbers_are_read(i: &[u8], r: Result<(&[u8], u64), BerError>, n: nat, k: nat)
    requires
        call_ensures(parse_uint, (i,), r),
        1 <= k <= 8,
        n < pow(256, k),
        i@ == padded(n, k),
    ensures
        r matches Ok((rest, v)) && rest@ == i@ && v == n,
{
    leading_zeros_change_nothing(n, k);
}

/// An element is written in its shortest form behind what the buffer held. It is refused, and the
/// buffer stays as it was, exactly when every form of it is too long.
pub proof fn elements_are_written(buf: &mut BytesMut, tag: StructureTag, r: Result<(), Error>)
    requires
        call_ensures(encode_into, (buf, tag), r),
    ensures
        r is Ok ==> exists|wire: Seq<u8>|
            {
                &&& #[trigger] spells(wire, tag@)
                &&& buffered(final(buf)) == buffered(old(buf)) + wire
                &&& buffered(final(buf)).len() <= isize::MAX
                &&& forall|other: Seq<u8>| #[trigger]
                    spells(other, tag@) ==> wire.len() <= other.len()
            },
        r matches Err(e) ==> e == Error::LimitExceeded && *final(buf) == *old(buf) && forall|
            wire: Seq<u8>,
        | #[trigger]
            spells(wire, tag@) ==> buffered(old(buf)).len() + wire.len() > isize::MAX,
{
    let e = tag@;
    if r is Ok {
        let wire = encode(e);
        encoded_element_is_spelled(e);
        assert forall|other: Seq<u8>| #[trigger] spells(other, e) implies wire.len()
            <= other.len() by {
            written_form_is_the_shortest(other, e);
        }
        assert(spells(wire, e));
    } else {
        assert forall|wire: Seq<u8>| #[trigger] spells(wire, e) implies buffered(old(buf)).len()
            + wire.len() > isize::MAX by {
            written_form_is_the_shortest(wire, e);
        }
    }
}

/// Numbers are written in the shortest two's complement form.
pub proof fn numbers_are_written(v: i64, r: Vec<u8>)
    requires
        call_ensures(integer_octets, (v,), r),
    ensures
        is_shortest(r@),
        int_value(r@) == v,
{
    lemma_shortest(v as int);
}

/// What each kind of value is written as.
pub proof fn values_are_written(tag: Tag, r: StructureTag)
    requires
        call_ensures(Tag::into_structure, (tag,), r),
    ensures
        tag matches Tag::Integer(t) ==> is_number(r@, t.class, t.id, t.inner as int),
        tag matches Tag::Enumerated(t) ==> is_number(r@, t.class, t.id, t.inner as int),
        tag matches Tag::Boolean(t) ==> is_bytes(
            r@,
            t.class,
            t.id,
            if t.inner {
                seq![255u8]
            } else {
                seq![0u8]
            },
        ),
        tag matches Tag::Null(t) ==> is_bytes(r@, t.class, t.id, seq![]),
        tag matches Tag::OctetString(t) ==> is_bytes(r@, t.class, t.id, t.inner@),
        tag matches Tag::Sequence(t) ==> is_list(r@, t.class, t.id, t.inner@.len()) && forall|
            i: int,
        |
            0 <= i < t.inner@.len() ==> #[trigger] child(r@, i) == t.inner@[i]@,
        tag matches Tag::SetOf(t) ==> is_list(r@, t.class, t.id, t.inner@.len()) && forall|i: int|
            0 <= i < t.inner@.len() ==> #[trigger] child(r@, i) == t.inner@[i]@,
        tag matches Tag::ExplicitTag(t) ==> is_list(r@, t.class, t.id, 1) && child(r@, 0) == (
        *t.inner)@,
        tag matches Tag::StructureTag(t) ==> r@ == t@,
{
    match tag {
        Tag::Integer(t) => {
            lemma_shortest(t.inner as int);
        },
        Tag::Enumerated(t) => {
            lemma_shortest(t.inner as int);
        },
        Tag::Sequence(t) => {
            assert(r@ == constructed(t.class, t.id, tag_elements(t.inner@)));
        },
        Tag::SetOf(t) => {
            assert(r@ == constructed(t.class, t.id, tag_elements(t.inner@)));
        },
        _ => {},
    }
}

/// The content of an element is what its bytes, or its children in order, say.
pub proof fn elements_hold_their_payload(
    tag: StructureTag,
    children: Option<Vec<StructureTag>>,
    bytes: Option<Vec<u8>>,
)
    requires
        call_ensures(StructureTag::expect_constructed, (tag,), children),
        call_ensures(StructureTag::expect_primitive, (tag,), bytes),
    ensures
        tag@.class == tag.class,
        tag@.id == tag.id,
        match tag.payload {
            PL::P(held) => children is None && (bytes matches Some(found) && found@ == held@)
                && tag@.body == Body::Bytes(held@),
            PL::C(held) => bytes is None && (children matches Some(found) && found@.len()
                == held@.len() && is_list(tag@, tag.class, tag.id, held@.len()) && forall|i: int|
                0 <= i < held@.len() ==> #[trigger] child(tag@, i) == held@[i]@ && found@[i]@
                    == held@[i]@),
        },
{
    if let PL::C(held) = tag.payload {
        let found = children->0@;
        assert(elements(found).len() == elements(held@).len());
        assert forall|i: int| 0 <= i < held@.len() implies #[trigger] child(tag@, i) == held@[i]@
            && found[i]@ == held@[i]@ by {
            assert(elements(found)[i] == elements(held@)[i]);
        }
    }
}

} // verus!
