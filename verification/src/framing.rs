//! What framing keeps: messages read back as they were written, and no frame depends on the
//! bytes around it.
use crate::asn1::{be_value, int_octets, Element, TagClass, SEQUENCE};
use crate::controls::{controls_element, controls_read_back, ControlValue};
use crate::error::Error;
use crate::parse::{element_at, node_cost};
use crate::protocol::{
    frame, frame_length, identifier_of, message_element, CodecLimits, Envelope, Frame,
};
use crate::roundtrip::{
    big_endian_reads_back, encoded_element_reads_back, height, height_all, memory_cost,
    memory_cost_all, node_count, node_count_all, read_element_is_within_limits,
};
use crate::raw::lemma_small_value;
use crate::write::{
    all_encodable, be_octets, content_octets, encodable, encode, lemma_be_octets_len,
};
use vstd::prelude::*;

verus! {

/// A number that is not negative has the same value in both readings of its bytes.
pub proof fn lemma_natural_octets(v: int)
    requires
        0 <= v,
    ensures
        int_octets(v).len() >= 1,
        int_octets(v)[0] < 128,
        be_value(int_octets(v)) == v,
    decreases v,
{
    reveal_with_fuel(be_value, 2);
    if v < 128 {
        assert(int_octets(v).drop_last() =~= Seq::<u8>::empty());
    } else {
        lemma_natural_octets(v / 256);
        assert(int_octets(v).drop_last() =~= int_octets(v / 256));
    }
}

proof fn lemma_identifier_len(v: int)
    requires
        0 <= v <= i32::MAX,
    ensures
        int_octets(v).len() <= 4,
{
    reveal_with_fuel(int_octets, 4);
}

/// The controls of a message can be written.
pub proof fn controls_are_encodable(cs: Seq<ControlValue>)
    ensures
        encodable(controls_element(cs)),
{
    reveal_with_fuel(encodable, 3);
    let parts = controls_element(cs).body->Children_0;
    assert forall|i: int| 0 <= i < parts.len() implies encodable(#[trigger] parts[i]) by {
        let inner = parts[i].body->Children_0;
        assert forall|j: int| 0 <= j < inner.len() implies encodable(#[trigger] inner[j]) by {
            assert(inner[j].body is Bytes);
        }
        assert(all_encodable(inner));
    }
    assert(all_encodable(parts));
}

/// A message can be written if its operation can.
pub proof fn message_is_encodable(id: int, op: Element, controls: Option<Seq<ControlValue>>)
    requires
        encodable(op),
    ensures
        encodable(message_element(id, op, controls)),
{
    let parts = message_element(id, op, controls).body->Children_0;
    if controls is Some {
        controls_are_encodable(controls->0);
    }
    assert forall|i: int| 0 <= i < parts.len() implies encodable(#[trigger] parts[i]) by {
        if i == 0 {
            assert(parts[0].body is Bytes);
        }
    }
    assert(all_encodable(parts));
}

proof fn lemma_frame_length(e: Element, rest: Seq<u8>)
    requires
        encode(e).len() <= usize::MAX,
        e.class == TagClass::Universal,
        e.id == SEQUENCE,
        e.body is Children,
    ensures
        frame_length(encode(e) + rest) == Ok::<Option<nat>, Error>(
            Some(encode(e).len()),
        ),
{
    let i = encode(e) + rest;
    let n = content_octets(e.body).len();
    assert(i[0] == 0x30);
    if n < 128 {
        assert(i[1] == n);
    } else {
        lemma_be_octets_len(n);
        big_endian_reads_back(n);
        let k = be_octets(n).len() as int;
        assert(k <= usize::BITS / 8) by {
            reveal_with_fuel(be_octets, 5);
        }
        assert(i[1] == 128 + k);
        assert(i.subrange(2, 2 + k) =~= be_octets(n));
    }
}

/// Whatever follows it, a message that was written within the limits is read back whole: the
/// same identifier, operation and controls, from exactly the bytes that were written.
pub proof fn written_message_reads_back(
    id: int,
    op: Element,
    controls: Option<Seq<ControlValue>>,
    rest: Seq<u8>,
    limits: CodecLimits,
)
    requires
        0 <= id <= i32::MAX,
        op.class == TagClass::Application,
        encodable(op),
        ({
            let e = message_element(id, op, controls);
            &&& encode(e).len() <= limits.maximum_frame
            &&& height(e) <= limits.maximum_depth
            &&& node_count(e) <= limits.maximum_nodes
            &&& memory_cost(e) <= limits.maximum_allocation
        }),
    ensures
        ({
            let wire = encode(message_element(id, op, controls));
            frame(wire + rest, limits) == (Frame::Complete {
                length: wire.len(),
                envelope: Envelope {
                    id,
                    operation: op,
                    controls: match controls {
                        Some(cs) => cs,
                        None => Seq::empty(),
                    },
                },
            })
        }),
{
    let e = message_element(id, op, controls);
    let wire = encode(e);
    message_is_encodable(id, op, controls);
    lemma_frame_length(e, rest);
    assert((wire + rest).take(wire.len() as int) =~= wire);
    assert(wire + Seq::<u8>::empty() =~= wire);
    encoded_element_reads_back(
        e,
        Seq::empty(),
        limits.maximum_depth as nat,
        (limits.maximum_nodes as nat, limits.maximum_allocation as nat),
    );
    lemma_natural_octets(id);
    lemma_identifier_len(id);
    let parts = e.body->Children_0;
    assert(identifier_of(parts[0]) == Some(id));
    assert(parts[1] == op);
    match controls {
        Some(cs) => {
            controls_read_back(cs);
            assert(parts[2] == controls_element(cs));
        },
        None => {},
    }
}

/// A message is the same whatever follows it.
pub proof fn frame_ignores_what_follows(i: Seq<u8>, other: Seq<u8>, limits: CodecLimits)
    ensures
        frame(i, limits) matches Frame::Complete { length, envelope } ==> {
            &&& 2 <= length <= i.len()
            &&& length <= limits.maximum_frame
            &&& frame(i.take(length as int) + other, limits) == frame(i, limits)
        },
{
    if let Frame::Complete { length, envelope } = frame(i, limits) {
        let j = i.take(length as int) + other;
        assert(j[0] == i[0] && j[1] == i[1]);
        if i[1] >= 128 {
            let n = (i[1] - 128) as int;
            assert(j.subrange(2, 2 + n) =~= i.subrange(2, 2 + n));
        }
        assert(j.take(length as int) =~= i.take(length as int));
    }
}

/// Until its last byte is there, the start of a message is neither taken for a message nor
/// refused.
pub proof fn start_of_a_message_is_partial(i: Seq<u8>, k: int, limits: CodecLimits)
    requires
        frame(i, limits) matches Frame::Complete { length, envelope } && 0 <= k < length,
    ensures
        frame(i.take(k), limits) == Frame::Partial,
{
    let j = i.take(k);
    if k >= 2 {
        assert(j[0] == i[0] && j[1] == i[1]);
        if i[1] >= 128 {
            let n = (i[1] - 128) as int;
            if k >= 2 + n {
                assert(j.subrange(2, 2 + n) =~= i.subrange(2, 2 + n));
            }
        }
    }
}

/// Once all bytes of a message are there it is decided: what is incomplete inside it is refused,
/// and not waited for.
pub proof fn complete_frame_is_decided(i: Seq<u8>, length: nat, limits: CodecLimits)
    requires
        frame_length(i) == Ok::<Option<nat>, Error>(Some(length)),
        length <= i.len(),
    ensures
        frame(i, limits) != Frame::Partial,
        length > limits.maximum_frame ==> frame(i, limits) == Frame::Malformed,
{
}

/// A message that was read is within the limits: its bytes within the frame, and its operation,
/// with the elements around it, within the levels, nodes and memory.
pub proof fn decoded_message_is_within_limits(i: Seq<u8>, limits: CodecLimits)
    ensures
        frame(i, limits) matches Frame::Complete { length, envelope } ==> {
            &&& length <= limits.maximum_frame
            &&& 0 <= envelope.id <= i32::MAX
            &&& envelope.operation.class == TagClass::Application
            &&& encodable(envelope.operation)
            &&& height(envelope.operation) < limits.maximum_depth
            &&& node_count(envelope.operation) + 2 <= limits.maximum_nodes
            &&& memory_cost(envelope.operation) + 2 * node_cost() <= limits.maximum_allocation
        },
{
    if let Frame::Complete { length, envelope } = frame(i, limits) {
        let whole = i.take(length as int);
        let depth = limits.maximum_depth as nat;
        let budget = (limits.maximum_nodes as nat, limits.maximum_allocation as nat);
        read_element_is_within_limits(whole, depth, budget);
        let (used, e, left) = element_at(whole, depth, budget)->Ok_0;
        let parts = e.body->Children_0;
        let op = parts[1];
        let others = parts.drop_first();
        assert(others[0] == op);
        assert(height(e) == 1 + height_all(parts));
        assert(height_all(parts) >= height_all(others));
        assert(height_all(others) >= height(op));
        assert(node_count(e) == 1 + node_count_all(parts));
        assert(node_count_all(parts) == node_count(parts[0]) + node_count_all(others));
        assert(node_count_all(others) >= node_count(op));
        assert(memory_cost(e) == node_cost() + memory_cost_all(parts));
        assert(memory_cost_all(parts) == memory_cost(parts[0]) + memory_cost_all(others));
        assert(memory_cost_all(others) >= memory_cost(op));
        assert(memory_cost(parts[0]) >= node_cost());
        assert(encodable(op));
        lemma_small_value(parts[0].body->Bytes_0);
    }
}

/// What was refused stays refused: more input does not mend it.
pub proof fn malformed_input_stays_malformed(i: Seq<u8>, more: Seq<u8>, limits: CodecLimits)
    requires
        frame(i, limits) == Frame::Malformed,
    ensures
        frame(i + more, limits) == Frame::Malformed,
{
    let j = i + more;
    assert(j[0] == i[0] && j[1] == i[1]);
    if i[1] >= 128 {
        let n = (i[1] - 128) as int;
        if i.len() >= 2 + n {
            assert(j.subrange(2, 2 + n) =~= i.subrange(2, 2 + n));
        }
    }
    if let Ok(Some(length)) = frame_length(i) {
        if length <= i.len() {
            assert(j.take(length as int) =~= i.take(length as int));
        }
    }
}

/// How the bytes are cut into reads never changes the outcome: of a message and of what is
/// refused, every start that is too short is waited for, and more input changes nothing.
pub proof fn reads_can_be_cut_anywhere(
    message: Seq<u8>,
    refused: Seq<u8>,
    more: Seq<u8>,
    limits: CodecLimits,
)
    requires
        frame(message, limits) matches Frame::Complete { length, envelope } && length
            == message.len(),
        frame(refused, limits) == Frame::Malformed,
    ensures
        forall|k: int|
            0 <= k < message.len() ==> frame(#[trigger] message.take(k), limits) == Frame::Partial,
        frame(message + more, limits) == frame(message, limits),
        frame(refused + more, limits) == Frame::Malformed,
{
    assert forall|k: int| 0 <= k < message.len() implies frame(#[trigger] message.take(k), limits)
        == Frame::Partial by {
        start_of_a_message_is_partial(message, k, limits);
    }
    frame_ignores_what_follows(message, more, limits);
    assert(message.take(message.len() as int) =~= message);
    malformed_input_stays_malformed(refused, more, limits);
}

} // verus!
