//! What is counted of requests and responses.
use crate::allocation::{
    capacities, control_payload, controls_memory, controls_payload, extends, footprint, found_sizes,
    has_room, heap, heap_all, request_fits_what_was_set_aside, request_outcome, request_size,
    request_total, request_wire, response_outcome, response_reckoned, response_total, sized_all,
    spans, tlv_len, ControlSize, Extent,
};
use crate::asn1::{constructed, primitive, Element, StructureTag, TagClass};
use crate::buffer::frozen;
use crate::controls::{control_values, RawControl};
use crate::error::Error;
use crate::framing::message_is_encodable;
use crate::protocol::{message_element, CodecLimits, LdapCodec, RawResponse, RequestId};
use crate::roundtrip::{
    height, height_all, memory_cost, memory_cost_all, node_count, node_count_all,
};
use crate::spelling::{
    encoded_element_is_spelled, is_length, lemma_length_is_shortest, lemma_length_octets, spells,
    written_form_is_the_shortest,
};
use crate::write::{
    be_octets, element_size, encodable, encode, encoded_len, length_octets, length_size,
};
use vstd::layout::size_of;
use vstd::prelude::*;

verus! {

/// A length takes as many octets as its shortest form, and an element as many as its shortest form
/// has around such a content.
pub proof fn sizes_are_those_of_the_shortest_form(
    n: usize,
    octets: usize,
    size: Option<usize>,
    head: Seq<u8>,
)
    requires
        call_ensures(length_size, (n,), octets),
        call_ensures(element_size, (n,), size),
        is_length(head, n as nat),
    ensures
        octets <= head.len(),
        exists|shortest: Seq<u8>| #[trigger] is_length(shortest, n as nat) && shortest.len()
            == octets,
        size == if 1 + octets + n <= usize::MAX {
            Some((1 + octets + n) as usize)
        } else {
            None
        },
{
    lemma_length_octets(n as nat);
    lemma_length_is_shortest(head, n as nat, n as nat);
    assert(is_length(length_octets(n as nat), n as nat));
}

/// The counted length of an element is that of its shortest form. It is refused exactly when no
/// form of it can be counted.
pub proof fn counted_lengths_are_the_shortest(tag: StructureTag, r: Result<usize, Error>)
    requires
        call_ensures(encoded_len, (&tag,), r),
    ensures
        r matches Ok(n) ==> (exists|wire: Seq<u8>| #[trigger] spells(wire, tag@) && wire.len() == n)
            && forall|other: Seq<u8>| #[trigger] spells(other, tag@) ==> n <= other.len(),
        r matches Err(e) ==> e == Error::LimitExceeded && forall|other: Seq<u8>| #[trigger]
            spells(other, tag@) ==> other.len() > usize::MAX,
{
    let e = tag@;
    assert forall|other: Seq<u8>| #[trigger] spells(other, e) implies encode(e).len()
        <= other.len() && encodable(e) by {
        written_form_is_the_shortest(other, e);
    }
    if r is Ok {
        encoded_element_is_spelled(e);
        assert(spells(encode(e), e));
    }
}

/// An element without others is one node on one level, and costs its node and its bytes. One with
/// others has one node and one level more than they have together, and costs a node more.
pub proof fn counts_add_up(
    class: TagClass,
    id: u64,
    bytes: Seq<u8>,
    front: Seq<Element>,
    last: Element,
)
    ensures
        ({
            let leaf = primitive(class, id, bytes);
            let empty = constructed(class, id, seq![]);
            let shorter = constructed(class, id, front);
            let longer = constructed(class, id, front.push(last));
            &&& node_count(leaf) == 1 && height(leaf) == 1 && memory_cost(leaf) == 2 * size_of::<
                StructureTag,
            >() + bytes.len()
            &&& node_count(empty) == 1 && height(empty) == 1 && memory_cost(empty) == 2 * size_of::<
                StructureTag,
            >()
            &&& node_count(longer) == node_count(shorter) + node_count(last)
            &&& memory_cost(longer) == memory_cost(shorter) + memory_cost(last)
            &&& height(longer) >= height(shorter) && height(longer) >= 1 + height(last)
            &&& height(longer) == height(shorter) || height(longer) == 1 + height(last)
        }),
    decreases front.len(),
{
    reveal_with_fuel(node_count_all, 2);
    reveal_with_fuel(height_all, 2);
    reveal_with_fuel(memory_cost_all, 2);
    lemma_counts_push(front, last);
}

proof fn lemma_counts_push(front: Seq<Element>, last: Element)
    ensures
        node_count_all(front.push(last)) == node_count_all(front) + node_count(last),
        memory_cost_all(front.push(last)) == memory_cost_all(front) + memory_cost(last),
        height_all(front.push(last)) == if height_all(front) < height(last) {
            height(last)
        } else {
            height_all(front)
        },
    decreases front.len(),
{
    reveal_with_fuel(node_count_all, 2);
    reveal_with_fuel(height_all, 2);
    reveal_with_fuel(memory_cost_all, 2);
    if front.len() == 0 {
        assert(front.push(last).drop_first() =~= front);
    } else {
        assert(front.push(last).drop_first() =~= front.drop_first().push(last));
        lemma_counts_push(front.drop_first(), last);
    }
}

/// Every vector is counted with its capacity: bytes one by one, and children by the size of each,
/// besides what they hold themselves.
pub proof fn heaps_add_up(
    bytes: usize,
    places: usize,
    front: Vec<Extent>,
    last: Extent,
    longer: Vec<Extent>,
)
    requires
        longer@ == front@.push(last),
    ensures
        heap(Extent::Leaf(bytes)) == bytes,
        front@.len() == 0 ==> heap(Extent::Node(places, front)) == places * size_of::<
            StructureTag,
        >(),
        heap(Extent::Node(places, longer)) == heap(Extent::Node(places, front)) + heap(last),
{
    assert(longer@.drop_last() =~= front@);
    reveal_with_fuel(heap_all, 2);
}

/// An element within the limits is counted with the bytes of its shortest form, the capacities of
/// its vectors, and each of its nodes; beyond a limit it is refused.
pub proof fn footprints_are_counted(
    tag: StructureTag,
    extent: Extent,
    depth: usize,
    nodes: &mut usize,
    memory: usize,
    r: Result<(usize, usize), Error>,
)
    requires
        call_ensures(footprint, (&tag, &extent, depth, nodes, memory), r),
        extends(extent, tag@),
    ensures
        r matches Ok((wire, bytes)) ==> {
            &&& exists|form: Seq<u8>| #[trigger] spells(form, tag@) && form.len() == wire
            &&& forall|other: Seq<u8>| #[trigger] spells(other, tag@) ==> wire <= other.len()
            &&& bytes == heap(extent) && bytes <= memory
            &&& height(tag@) <= depth
            &&& *final(nodes) == *old(nodes) - node_count(tag@)
        },
        r matches Err(e) ==> e == Error::LimitExceeded && (height(tag@) > depth || node_count(tag@)
            > *old(nodes) || heap(extent) > memory || forall|other: Seq<u8>| #[trigger]
            spells(other, tag@) ==> other.len() > usize::MAX),
{
    let e = tag@;
    assert forall|other: Seq<u8>| #[trigger] spells(other, e) implies encode(e).len()
        <= other.len() && encodable(e) by {
        written_form_is_the_shortest(other, e);
    }
    if r is Ok {
        encoded_element_is_spelled(e);
        assert(spells(encode(e), e));
    }
}

/// Number of bytes of an element around so many: one for its type, and one for its length up to
/// 127, or else one more than the length has bytes.
pub open spec fn around(n: int) -> int {
    n + 2 + (if n < 0x80 {
        0int
    } else if n < 0x100 {
        1
    } else if n < 0x1_0000 {
        2
    } else if n < 0x100_0000 {
        3
    } else if n < 0x1_0000_0000 {
        4
    } else if n < 0x100_0000_0000 {
        5
    } else if n < 0x1_0000_0000_0000 {
        6
    } else if n < 0x100_0000_0000_0000 {
        7
    } else {
        8
    })
}

proof fn lemma_around(n: nat)
    requires
        n <= u64::MAX,
    ensures
        tlv_len(n) == around(n as int),
{
    reveal_with_fuel(be_octets, 9);
}

/// Bytes set aside on the wire for the controls from one on: a type and perhaps a value, and a
/// criticality whether it is written or not.
pub open spec fn wire_from(cs: Seq<ControlSize>, k: int) -> int
    decreases cs.len() - k,
{
    if k >= cs.len() {
        0
    } else {
        around(
            around(cs[k].ctype as int) + 3 + (match cs[k].value {
                Some(n) => around(n as int),
                None => 0,
            }),
        ) + wire_from(cs, k + 1)
    }
}

/// Bytes that the controls from one on have room for.
pub open spec fn room_from(cs: Seq<ControlSize>, k: int) -> int
    decreases cs.len() - k,
{
    if k >= cs.len() {
        0
    } else {
        cs[k].ctype_capacity + cs[k].value_capacity + room_from(cs, k + 1)
    }
}

proof fn lemma_room(cs: Seq<ControlSize>, k: int)
    requires
        0 <= k <= cs.len(),
    ensures
        capacities(cs) == capacities(cs.take(k)) + room_from(cs, k),
        controls_memory(cs) == controls_memory(cs.take(k)) + room_from(cs, k) + 512 * (cs.len()
            - k),
    decreases cs.len() - k,
{
    if k == cs.len() {
        assert(cs.take(k) =~= cs);
    } else {
        lemma_room(cs, k + 1);
        assert(cs.take(k + 1).drop_last() =~= cs.take(k));
    }
}

proof fn lemma_wire(cs: Seq<ControlSize>, k: int)
    requires
        0 <= k <= cs.len(),
        controls_payload(cs) <= usize::MAX,
    ensures
        controls_payload(cs) == controls_payload(cs.take(k)) + wire_from(cs, k),
    decreases cs.len() - k,
{
    if k == cs.len() {
        assert(cs.take(k) =~= cs);
    } else {
        lemma_wire(cs, k + 1);
        let now = cs.take(k + 1);
        assert(now.drop_last() =~= cs.take(k));
        assert(now.last() == cs[k]);
        lemma_wire_is_positive(cs, k + 1);
        let c = cs[k];
        let inner = control_payload(c);
        assert(inner <= tlv_len(inner) <= controls_payload(cs));
        lemma_around(c.ctype as nat);
        if let Some(n) = c.value {
            lemma_around(n as nat);
        }
        lemma_around(inner);
    }
}

proof fn lemma_wire_is_positive(cs: Seq<ControlSize>, k: int)
    requires
        0 <= k <= cs.len(),
    ensures
        wire_from(cs, k) >= 0,
    decreases cs.len() - k,
{
    if k < cs.len() {
        lemma_wire_is_positive(cs, k + 1);
    }
}

/// A request is charged with the heap of its operation and of each control, with bookkeeping for
/// itself and for each control, and with four times its bytes on the wire: an identifier, the
/// operation, and the controls if there are any. It is refused exactly beyond the limits.
pub proof fn requests_are_charged(
    operation_wire: usize,
    operation_heap: usize,
    controls: Vec<ControlSize>,
    limits: CodecLimits,
    r: Result<usize, Error>,
)
    requires
        call_ensures(
            request_total,
            (operation_wire, operation_heap, &controls, limits),
            r,
        ),
    ensures
        ({
            let cs = controls@;
            let inner = 6 + operation_wire + (if cs.len() == 0 {
                0
            } else {
                around(wire_from(cs, 0))
            });
            let wire = around(inner);
            let memory = operation_heap + 1024 + 512 * cs.len() + room_from(cs, 0) + 4 * wire;
            &&& r matches Ok(n) ==> n == memory && wire <= limits.maximum_frame && memory
                <= limits.maximum_allocation
            &&& r matches Err(e) ==> e == Error::LimitExceeded && (controls_payload(cs) > usize::MAX
                || inner > usize::MAX || wire > limits.maximum_frame || memory
                > limits.maximum_allocation)
        }),
{
    let cs = controls@;
    let wire = request_wire(operation_wire as nat, cs);
    lemma_room(cs, 0);
    assert(cs.take(0) =~= Seq::<ControlSize>::empty());
    if cs.len() > 0 {
        assert(controls_payload(cs) <= tlv_len(controls_payload(cs)) <= wire);
    } else {
        assert(cs =~= Seq::<ControlSize>::empty());
    }
    if controls_payload(cs) <= usize::MAX {
        lemma_wire(cs, 0);
        lemma_around(controls_payload(cs));
        let inner = (6 + operation_wire + (if cs.len() == 0 {
            0nat
        } else {
            tlv_len(controls_payload(cs))
        })) as nat;
        if inner <= usize::MAX {
            lemma_around(inner);
        } else {
            assert(wire > usize::MAX);
        }
    } else {
        assert(r is Err);
    }
}

/// A response keeps its operation, its bytes, itself, and its controls with all that they have room
/// for.
pub proof fn responses_are_charged(
    operation_heap: usize,
    raw: usize,
    places: usize,
    controls: Vec<ControlSize>,
    r: Result<usize, Error>,
)
    requires
        call_ensures(response_total, (operation_heap, raw, places, &controls), r),
    ensures
        ({
            let memory = operation_heap + raw + size_of::<RawResponse>() + places * size_of::<
                RawControl,
            >() + room_from(controls@, 0);
            &&& r matches Ok(n) ==> n == memory
            &&& r matches Err(e) ==> e == Error::LimitExceeded && memory > usize::MAX
        }),
{
    lemma_room(controls@, 0);
    assert(controls@.take(0) =~= Seq::<ControlSize>::empty());
}

/// A request is measured by its footprint under the limits, and charged with that.
pub proof fn requests_are_measured(
    operation: StructureTag,
    extent: Extent,
    controls: Vec<ControlSize>,
    limits: CodecLimits,
    nodes: &mut usize,
    measured: Result<(usize, usize), Error>,
    total: Result<usize, Error>,
    r: Result<usize, Error>,
)
    requires
        extends(extent, operation@),
        call_ensures(
            footprint,
            (&operation, &extent, limits.maximum_depth, nodes, limits.maximum_allocation),
            measured,
        ),
        *old(nodes) == limits.maximum_nodes,
        measured matches Ok((wire, bytes)) ==> call_ensures(
            request_total,
            (wire, bytes, &controls, limits),
            total,
        ),
        call_ensures(request_size, (&operation, &extent, &controls, limits), r),
    ensures
        r == match measured {
            Ok(_) => total,
            Err(e) => Err(e),
        },
{
}

/// A response is measured without limits but the levels, and charged with that.
pub proof fn responses_are_measured(
    response: RawResponse,
    extent: Extent,
    places: usize,
    controls: Vec<ControlSize>,
    nodes: &mut usize,
    measured: Result<(usize, usize), Error>,
    raw: usize,
    total: Result<usize, Error>,
    r: Result<usize, Error>,
)
    requires
        extends(extent, response.operation@),
        call_ensures(
            footprint,
            (&response.operation, &extent, 128, nodes, usize::MAX),
            measured,
        ),
        *old(nodes) == usize::MAX,
        raw == frozen(&response.raw).len(),
        measured matches Ok((wire, bytes)) ==> call_ensures(
            response_total,
            (bytes, raw, places, &controls),
            total,
        ),
        call_ensures(RawResponse::size, (&response, &extent, places, &controls), r),
    ensures
        r == match measured {
            Ok(_) => total,
            Err(e) => Err(e),
        },
{
}

/// A request that was found valid can be written under every identifier that needs no more than
/// the four bytes set aside, within the frame, and is charged with four times its bytes at least.
/// The exception is an empty list of controls under an identifier of more than two bytes.
pub proof fn valid_requests_can_be_written(
    codec: &LdapCodec,
    operation: StructureTag,
    controls: &[RawControl],
    charge: usize,
    id: RequestId,
    listed: bool,
    wire: Seq<u8>,
)
    requires
        call_ensures(LdapCodec::validate_request, (codec, &operation, controls), Ok(charge)),
        0 <= id,
        listed || controls@.len() == 0,
        listed && controls@.len() == 0 ==> id <= i16::MAX,
        wire == encode(
            message_element(
                id as int,
                operation@,
                if listed {
                    Some(control_values(controls@))
                } else {
                    None
                },
            ),
        ),
    ensures
        spells(
            wire,
            message_element(
                id as int,
                operation@,
                if listed {
                    Some(control_values(controls@))
                } else {
                    None
                },
            ),
        ),
        wire.len() <= codec.limits().maximum_frame,
        4 * wire.len() + 1024 <= charge <= codec.limits().maximum_allocation,
        height(operation@) <= codec.limits().maximum_depth,
        node_count(operation@) <= codec.limits().maximum_nodes,
{
    let values = control_values(controls@);
    let given = if listed {
        Some(values)
    } else {
        None
    };
    let e = message_element(id as int, operation@, given);
    let (x, sizes) = choose|x: Extent, sizes: Seq<ControlSize>|
        #[trigger] extends(x, operation@) && #[trigger] sized_all(sizes, values) && Ok::<
            usize,
            Error,
        >(charge) == request_outcome(operation@, x, sizes, codec.limits());
    assert(!listed ==> values =~= Seq::empty());
    request_fits_what_was_set_aside(id as int, operation@, given, sizes);
    message_is_encodable(id as int, operation@, given);
    encoded_element_is_spelled(e);
}

/// A request within the levels and nodes is accepted exactly if what is counted of it, with the
/// capacities that it was found to have, is within the limits, and charged with that.
pub proof fn valid_requests_are_charged(
    codec: &LdapCodec,
    operation: StructureTag,
    controls: &[RawControl],
    r: Result<usize, Error>,
)
    requires
        call_ensures(LdapCodec::validate_request, (codec, &operation, controls), r),
    ensures
        ({
            let limits = codec.limits();
            if height(operation@) > limits.maximum_depth || node_count(operation@)
                > limits.maximum_nodes || !encodable(operation@) {
                r == Err::<usize, Error>(Error::LimitExceeded)
            } else {
                exists|x: Extent, sizes: Seq<ControlSize>|
                    {
                        let wire = request_wire(encode(operation@).len(), sizes);
                        let memory = heap(x) + 1024 + 512 * sizes.len() + room_from(sizes, 0) + 4
                            * wire;
                        &&& #[trigger] spans(x, operation) && extends(x, operation@)
                        &&& #[trigger] found_sizes(sizes, controls@)
                        &&& sized_all(sizes, control_values(controls@))
                        &&& r == if wire <= limits.maximum_frame && memory
                            <= limits.maximum_allocation {
                            Ok::<usize, Error>(memory as usize)
                        } else {
                            Err(Error::LimitExceeded)
                        }
                    }
            }
        }),
{
    let limits = codec.limits();
    if height(operation@) <= limits.maximum_depth && node_count(operation@)
        <= limits.maximum_nodes {
        let (x, sizes) = choose|x: Extent, sizes: Seq<ControlSize>|
            {
                &&& #[trigger] extends(x, operation@)
                &&& spans(x, operation)
                &&& #[trigger] sized_all(sizes, control_values(controls@))
                &&& found_sizes(sizes, controls@)
                &&& r == request_outcome(operation@, x, sizes, limits)
            };
        lemma_room(sizes, 0);
        assert(sizes.take(0) =~= Seq::<ControlSize>::empty());
        assert(spans(x, operation) && found_sizes(sizes, controls@));
    }
}

/// What is reckoned of a response is what it keeps, with the capacities that it was found to have.
/// It is refused exactly when it has too many levels or cannot be counted.
pub proof fn responses_are_reckoned(response: RawResponse, r: Result<usize, Error>)
    requires
        response_reckoned(response, r),
        height(response.operation@) <= 128,
        node_count(response.operation@) <= usize::MAX,
        encodable(response.operation@),
        encode(response.operation@).len() <= usize::MAX,
    ensures
        exists|x: Extent, places: usize, sizes: Seq<ControlSize>|
            {
                let memory = heap(x) + frozen(&response.raw).len() + size_of::<RawResponse>()
                    + places * size_of::<RawControl>() + room_from(sizes, 0);
                &&& #[trigger] spans(x, response.operation) && extends(x, response.operation@)
                &&& #[trigger] found_sizes(sizes, response.controls@)
                &&& #[trigger] has_room(response.controls, places)
                &&& r == if memory <= usize::MAX {
                    Ok::<usize, Error>(memory as usize)
                } else {
                    Err(Error::LimitExceeded)
                }
            },
{
    let (x, held, sizes) = choose|x: Extent, held: nat, sizes: Seq<ControlSize>|
        #[trigger] extends(x, response@.operation) && spans(x, response.operation)
            && #[trigger] sized_all(sizes, response@.controls) && found_sizes(
            sizes,
            response.controls@,
        ) && held >= response@.controls.len() && held <= usize::MAX && has_room(
            response.controls,
            held as usize,
        ) && r == #[trigger] response_outcome(
            response@.operation,
            x,
            frozen(&response.raw).len(),
            held,
            sizes,
        );
    lemma_room(sizes, 0);
    assert(sizes.take(0) =~= Seq::<ControlSize>::empty());
    let places = held as usize;
    assert(spans(x, response.operation) && found_sizes(sizes, response.controls@) && has_room(
        response.controls,
        places,
    ));
}

} // verus!
