//! Memory and wire bytes of requests and responses, reckoned before they are admitted.
use crate::asn1::{
    bool_octets, elements, int_octets, primitive, Body, Element, StructureTag, TagClass, BOOLEAN,
    INTEGER, OCTET_STRING, PL,
};
use crate::buffer::{frozen, frozen_contents};
use crate::controls::{control_element, control_values, controls_element, ControlValue, RawControl};
use crate::error::Error;
use crate::framing::message_is_encodable;
use crate::protocol::{message_element, CodecLimits, LdapCodec, RawResponse};
use crate::roundtrip::{height, height_all, node_count, node_count_all};
use crate::write::{
    all_encodable, be_octets, element_size, encodable, encode, encode_all, length_octets,
    lemma_encode_all_append, lemma_encode_all_push,
};
use vstd::prelude::*;
use vstd::utf8::encode_utf8;

verus! {

/// `Vec::capacity`: at least the number of elements that the vector holds. How much more there
/// is depends on the allocator.
#[verifier::external_body]
fn capacity<T>(items: &Vec<T>) -> (r: usize)
    ensures
        r >= items@.len(),
{
    items.capacity()
}

/// `String::capacity`: at least the number of bytes that the text takes. How much more there is
/// depends on the allocator.
#[verifier::external_body]
fn text_capacity(text: &String) -> (r: usize)
    ensures
        r >= encode_utf8(text@).len(),
{
    text.capacity()
}

/// Capacities of the vectors of an element.
#[derive(Debug)]
pub enum Extent {
    Leaf(usize),
    Node(usize, Vec<Extent>),
}

/// Whether the capacities can be those of the element.
pub open spec fn extends(x: Extent, e: Element) -> bool
    decreases e,
{
    match (x, e.body) {
        (Extent::Leaf(capacity), Body::Bytes(bytes)) => capacity >= bytes.len(),
        (Extent::Node(capacity, xs), Body::Children(es)) => capacity >= es.len() && extends_all(
            xs@,
            es,
        ),
        _ => false,
    }
}

pub open spec fn extends_all(xs: Seq<Extent>, es: Seq<Element>) -> bool
    decreases es,
{
    xs.len() == es.len() && forall|i: int| 0 <= i < es.len() ==> extends(#[trigger] xs[i], es[i])
}

/// Whether the vector was found to have room for so many elements.
pub closed spec fn has_room<T>(items: Vec<T>, places: usize) -> bool {
    call_ensures(capacity::<T>, (&items,), places)
}

/// Whether the text was found to have room for so many bytes.
pub closed spec fn has_text_room(text: String, bytes: usize) -> bool {
    call_ensures(text_capacity, (&text,), bytes)
}

/// Whether the capacities are those that the vectors of the element were found to have.
pub open spec fn spans(x: Extent, tag: StructureTag) -> bool
    decreases tag,
{
    match (x, tag.payload) {
        (Extent::Leaf(capacity), PL::P(bytes)) => has_room(bytes, capacity),
        (Extent::Node(capacity, xs), PL::C(children)) => has_room(children, capacity) && spans_all(
            xs@,
            children@,
        ),
        _ => false,
    }
}

pub open spec fn spans_all(xs: Seq<Extent>, tags: Seq<StructureTag>) -> bool
    decreases tags,
{
    xs.len() == tags.len() && forall|i: int|
        0 <= i < tags.len() ==> spans(#[trigger] xs[i], tags[i])
}

/// Bytes on the heap.
pub open spec fn heap(x: Extent) -> nat
    decreases x,
{
    match x {
        Extent::Leaf(capacity) => capacity as nat,
        Extent::Node(capacity, xs) => capacity as nat * vstd::layout::size_of::<StructureTag>()
            + heap_all(xs@),
    }
}

pub open spec fn heap_all(xs: Seq<Extent>) -> nat
    decreases xs,
{
    if xs.len() == 0 {
        0
    } else {
        heap_all(xs.drop_last()) + heap(xs.last())
    }
}

proof fn lemma_node_count_append(a: Seq<Element>, b: Seq<Element>)
    ensures
        node_count_all(a + b) == node_count_all(a) + node_count_all(b),
    decreases a.len(),
{
    if a.len() == 0 {
        assert(a + b =~= b);
    } else {
        lemma_node_count_append(a.drop_first(), b);
        assert((a + b).drop_first() =~= a.drop_first() + b);
    }
}

proof fn lemma_height_append(a: Seq<Element>, b: Seq<Element>)
    ensures
        height_all(a + b) == if height_all(a) < height_all(b) {
            height_all(b)
        } else {
            height_all(a)
        },
    decreases a.len(),
{
    if a.len() == 0 {
        assert(a + b =~= b);
    } else {
        lemma_height_append(a.drop_first(), b);
        assert((a + b).drop_first() =~= a.drop_first() + b);
    }
}

proof fn lemma_heap_append(a: Seq<Extent>, b: Seq<Extent>)
    ensures
        heap_all(a + b) == heap_all(a) + heap_all(b),
    decreases b.len(),
{
    if b.len() == 0 {
        assert(a + b =~= a);
    } else {
        lemma_heap_append(a, b.drop_last());
        assert((a + b).drop_last() =~= a + b.drop_last());
    }
}

/// The counts of a list, split at one of its elements.
proof fn lemma_split(es: Seq<Element>, k: int)
    requires
        0 <= k < es.len(),
    ensures
        node_count_all(es.take(k + 1)) == node_count_all(es.take(k)) + node_count(es[k]),
        node_count_all(es.take(k + 1)) <= node_count_all(es),
        height_all(es.take(k + 1)) == if height_all(es.take(k)) < height(es[k]) {
            height(es[k])
        } else {
            height_all(es.take(k))
        },
        height_all(es.take(k + 1)) <= height_all(es),
        encode_all(es.take(k + 1)).len() == encode_all(es.take(k)).len() + encode(es[k]).len(),
        encode_all(es.take(k + 1)).len() <= encode_all(es).len(),
{
    let one = seq![es[k]];
    assert(es.take(k + 1) =~= es.take(k) + one);
    assert(es =~= es.take(k + 1) + es.skip(k + 1));
    assert(one.drop_first() =~= Seq::<Element>::empty());
    reveal_with_fuel(node_count_all, 2);
    reveal_with_fuel(height_all, 2);
    reveal_with_fuel(encode_all, 2);
    assert(encode_all(one) =~= encode(es[k]));
    lemma_node_count_append(es.take(k), one);
    lemma_node_count_append(es.take(k + 1), es.skip(k + 1));
    lemma_height_append(es.take(k), one);
    lemma_height_append(es.take(k + 1), es.skip(k + 1));
    lemma_encode_all_append(es.take(k), one);
    lemma_encode_all_append(es.take(k + 1), es.skip(k + 1));
}

/// Whether an element with these capacities is within what is left of the limits.
pub open spec fn admissible(
    e: Element,
    x: Extent,
    depth: nat,
    nodes: nat,
    memory: nat,
) -> bool {
    &&& encodable(e)
    &&& height(e) <= depth
    &&& node_count(e) <= nodes
    &&& heap(x) <= memory
    &&& encode(e).len() <= usize::MAX
}

/// Whether a result is the number of bytes on the wire and on the heap, or the refusal that the
/// limits call for.
pub open spec fn measured(
    e: Element,
    x: Extent,
    depth: nat,
    before: nat,
    after: nat,
    memory: nat,
    r: Result<(usize, usize), Error>,
) -> bool {
    match r {
        Ok((wire, heap_bytes)) => {
            &&& admissible(e, x, depth, before, memory)
            &&& wire == encode(e).len()
            &&& heap_bytes == heap(x)
            &&& after == before - node_count(e)
        },
        Err(err) => !admissible(e, x, depth, before, memory) && err == Error::LimitExceeded,
    }
}

pub(crate) fn tlv(payload: usize) -> (r: Result<usize, Error>)
    ensures
        ({
            let size = 1 + length_octets(payload as nat).len() + payload;
            r == if size <= usize::MAX {
                Ok::<usize, Error>(size as usize)
            } else {
                Err(Error::LimitExceeded)
            }
        }),
{
    match element_size(payload) {
        Some(size) => Ok(size),
        None => Err(Error::LimitExceeded),
    }
}

/// The capacities of the element, if it has no more than so many levels and nodes.
#[verifier::rlimit(30)]
fn extent_of(tag: &StructureTag, depth: usize, nodes: &mut usize) -> (r: Option<Extent>)
    ensures
        match r {
            Some(x) => {
                &&& extends(x, tag@)
                &&& spans(x, *tag)
                &&& height(tag@) <= depth
                &&& *final(nodes) == *old(nodes) - node_count(tag@)
            },
            None => height(tag@) > depth || node_count(tag@) > *old(nodes),
        },
    decreases depth,
{
    if depth == 0 || *nodes == 0 {
        return None;
    }
    *nodes = *nodes - 1;
    match &tag.payload {
        PL::P(bytes) => {
            let held: usize = capacity(bytes);
            assert(has_room(*bytes, held));
            Some(Extent::Leaf(held))
        },
        PL::C(children) => {
            let ghost es = elements(children@);
            let ghost before = *nodes as nat;
            let mut xs: Vec<Extent> = Vec::new();
            let n: usize = children.len();
            assert(es.take(0) =~= Seq::<Element>::empty());
            for k in 0..n
                invariant
                    0 < depth,
                    before == *old(nodes) - 1,
                    n == children@.len() == es.len(),
                    es == elements(children@),
                    tag@.body == Body::Children(es),
                    extends_all(xs@, es.take(k as int)),
                    spans_all(xs@, children@.take(k as int)),
                    height_all(es.take(k as int)) <= depth - 1,
                    *nodes == before - node_count_all(es.take(k as int)),
            {
                proof {
                    lemma_split(es, k as int);
                }
                match extent_of(&children[k], depth - 1, nodes) {
                    Some(x) => {
                        xs.push(x);
                        assert(spans_all(xs@, children@.take(k + 1)));
                    },
                    None => return None,
                }
            }
            assert(es.take(n as int) =~= es);
            assert(children@.take(n as int) =~= children@);
            let held: usize = capacity(children);
            assert(has_room(*children, held));
            Some(Extent::Node(held, xs))
        },
    }
}

/// Bytes of the element on the wire and on the heap, with these capacities, within so many
/// levels, nodes and bytes of memory.
#[verifier::rlimit(30)]
pub fn footprint(
    tag: &StructureTag,
    extent: &Extent,
    depth: usize,
    nodes: &mut usize,
    memory: usize,
) -> (r: Result<(usize, usize), Error>)
    requires
        extends(*extent, tag@),
    ensures
        measured(
            tag@,
            *extent,
            depth as nat,
            *old(nodes) as nat,
            *final(nodes) as nat,
            memory as nat,
            r,
        ),
    decreases depth,
{
    if depth == 0 || tag.id >= 31 || *nodes == 0 {
        return Err(Error::LimitExceeded);
    }
    *nodes = *nodes - 1;
    vstd::layout::layout_for_type_is_valid::<StructureTag>();
    let (payload, heap_bytes): (usize, usize) = match (&tag.payload, extent) {
        (PL::P(bytes), Extent::Leaf(held)) => (bytes.len(), *held),
        (PL::C(children), Extent::Node(held, extents)) => {
            let ghost es = elements(children@);
            let ghost xs = extents@;
            let ghost own = *held * vstd::layout::size_of::<StructureTag>();
            let mut payload: usize = 0;
            let mut heap_bytes: usize = match (*held).checked_mul(
                core::mem::size_of::<StructureTag>(),
            ) {
                Some(product) => product,
                None => return Err(Error::LimitExceeded),
            };
            let n: usize = children.len();
            let ghost before = *nodes as nat;
            assert(es.take(0) =~= Seq::<Element>::empty());
            for k in 0..n
                invariant
                    0 < depth,
                    before == *old(nodes) - 1,
                    n == children@.len() == es.len(),
                    es == elements(children@),
                    xs == extents@,
                    extends_all(xs, es),
                    tag@.body == Body::Children(es),
                    tag@.id < 31,
                    heap(*extent) == own + heap_all(xs),
                    all_encodable(es.take(k as int)),
                    height_all(es.take(k as int)) <= depth - 1,
                    *nodes == before - node_count_all(es.take(k as int)),
                    payload == encode_all(es.take(k as int)).len(),
                    heap_bytes == own + heap_all(xs.take(k as int)),
            {
                proof {
                    lemma_split(es, k as int);
                    lemma_heap_split(xs, k as int);
                }
                match footprint(&children[k], &extents[k], depth - 1, nodes, memory) {
                    Ok((wire, bytes)) => {
                        match (payload.checked_add(wire), heap_bytes.checked_add(bytes)) {
                            (Some(p), Some(h)) => {
                                payload = p;
                                heap_bytes = h;
                            },
                            _ => return Err(Error::LimitExceeded),
                        }
                    },
                    Err(e) => return Err(e),
                }
            }
            proof {
                assert(es.take(n as int) =~= es);
                assert(xs.take(n as int) =~= xs);
            }
            (payload, heap_bytes)
        },
        _ => return Err(Error::LimitExceeded),
    };
    if heap_bytes > memory {
        return Err(Error::LimitExceeded);
    }
    match tlv(payload) {
        Ok(wire) => Ok((wire, heap_bytes)),
        Err(e) => Err(e),
    }
}

proof fn lemma_heap_split(xs: Seq<Extent>, k: int)
    requires
        0 <= k < xs.len(),
    ensures
        heap_all(xs.take(k + 1)) == heap_all(xs.take(k)) + heap(xs[k]),
        heap_all(xs.take(k + 1)) <= heap_all(xs),
{
    assert(xs.take(k + 1).drop_last() =~= xs.take(k));
    assert(xs =~= xs.take(k + 1) + xs.skip(k + 1));
    lemma_heap_append(xs.take(k + 1), xs.skip(k + 1));
}

/// Lengths and capacities of a control.
#[derive(Clone, Copy, Debug)]
pub struct ControlSize {
    pub ctype: usize,
    pub ctype_capacity: usize,
    pub value: Option<usize>,
    pub value_capacity: usize,
}

/// Number of bytes that an element with so many content octets takes.
pub open spec fn tlv_len(payload: nat) -> nat {
    1 + length_octets(payload).len() + payload
}

/// Bytes set aside on the wire for the parts of a control, its criticality counted always.
pub open spec fn control_payload(c: ControlSize) -> nat {
    tlv_len(c.ctype as nat) + 3 + match c.value {
        Some(length) => tlv_len(length as nat),
        None => 0,
    }
}

pub open spec fn controls_payload(cs: Seq<ControlSize>) -> nat
    decreases cs.len(),
{
    if cs.len() == 0 {
        0
    } else {
        controls_payload(cs.drop_last()) + tlv_len(control_payload(cs.last()))
    }
}

/// Bytes set aside on the wire for a request.
pub open spec fn request_wire(operation_wire: nat, cs: Seq<ControlSize>) -> nat {
    tlv_len(
        6 + operation_wire + (if cs.len() == 0 {
            0
        } else {
            tlv_len(controls_payload(cs))
        }),
    )
}

pub open spec fn controls_memory(cs: Seq<ControlSize>) -> nat
    decreases cs.len(),
{
    if cs.len() == 0 {
        0
    } else {
        controls_memory(cs.drop_last()) + 512 + cs.last().ctype_capacity as nat
            + cs.last().value_capacity as nat
    }
}

/// Bytes set aside in memory for a request: its operation and controls, bookkeeping, and room for
/// the growth of the buffer that it is written to.
pub open spec fn request_memory(
    operation_heap: nat,
    operation_wire: nat,
    cs: Seq<ControlSize>,
) -> nat {
    operation_heap + 1024 + controls_memory(cs) + 4 * request_wire(operation_wire, cs)
}

fn sum(a: usize, b: usize) -> (r: Result<usize, Error>)
    ensures
        r == if a + b <= usize::MAX {
            Ok::<usize, Error>((a + b) as usize)
        } else {
            Err(Error::LimitExceeded)
        },
{
    match a.checked_add(b) {
        Some(c) => Ok(c),
        None => Err(Error::LimitExceeded),
    }
}

fn control_wire(control: ControlSize) -> (r: Result<usize, Error>)
    ensures
        ({
            let size = tlv_len(control_payload(control));
            r == if size <= usize::MAX {
                Ok::<usize, Error>(size as usize)
            } else {
                Err(Error::LimitExceeded)
            }
        }),
{
    let wire: usize = match tlv(control.ctype) {
        Ok(wire) => match sum(wire, 3) {
            Ok(wire) => wire,
            Err(e) => return Err(e),
        },
        Err(e) => return Err(e),
    };
    let value: usize = match control.value {
        Some(length) => match tlv(length) {
            Ok(value) => value,
            Err(e) => return Err(e),
        },
        None => 0,
    };
    match sum(wire, value) {
        Ok(payload) => tlv(payload),
        Err(e) => Err(e),
    }
}

proof fn lemma_controls_monotone(cs: Seq<ControlSize>, k: int)
    requires
        0 <= k <= cs.len(),
    ensures
        controls_payload(cs.take(k)) <= controls_payload(cs),
        controls_memory(cs.take(k)) <= controls_memory(cs),
    decreases cs.len() - k,
{
    if k == cs.len() {
        assert(cs.take(k) =~= cs);
    } else {
        lemma_controls_monotone(cs, k + 1);
        assert(cs.take(k + 1).drop_last() =~= cs.take(k));
    }
}

/// Bytes set aside for controls on the wire, without the header around them, and in memory, if
/// both can be counted.
fn controls_total(controls: &Vec<ControlSize>) -> (r: Result<(usize, usize), Error>)
    ensures
        match r {
            Ok((payload, memory)) => payload == controls_payload(controls@) && memory
                == controls_memory(controls@),
            Err(e) => e == Error::LimitExceeded && (controls_payload(controls@) > usize::MAX
                || controls_memory(controls@) > usize::MAX),
        },
{
    let mut memory: usize = 0;
    let mut payload: usize = 0;
    let n: usize = controls.len();
    for k in 0..n
        invariant
            n == controls@.len(),
            memory == controls_memory(controls@.take(k as int)),
            payload == controls_payload(controls@.take(k as int)),
    {
        let control = controls[k];
        proof {
            lemma_controls_monotone(controls@, k + 1);
            assert(controls@.take(k + 1).drop_last() =~= controls@.take(k as int));
        }
        payload = match control_wire(control) {
            Ok(wire) => match sum(payload, wire) {
                Ok(payload) => payload,
                Err(e) => return Err(e),
            },
            Err(e) => return Err(e),
        };
        memory = match sum(control.ctype_capacity, control.value_capacity) {
            Ok(held) => match sum(512, held) {
                Ok(held) => match sum(memory, held) {
                    Ok(memory) => memory,
                    Err(e) => return Err(e),
                },
                Err(e) => return Err(e),
            },
            Err(e) => return Err(e),
        };
    }
    assert(controls@.take(n as int) =~= controls@);
    Ok((payload, memory))
}

/// Bytes set aside on the wire for a request, if they can be counted.
fn wire_total(operation_wire: usize, payload: usize, controlled: bool) -> (r: Result<usize, Error>)
    ensures
        ({
            let wire = tlv_len(
                6 + operation_wire as nat + (if controlled {
                    tlv_len(payload as nat)
                } else {
                    0
                }),
            );
            r == if wire <= usize::MAX {
                Ok::<usize, Error>(wire as usize)
            } else {
                Err(Error::LimitExceeded)
            }
        }),
{
    let controls_wire: usize = if controlled {
        match tlv(payload) {
            Ok(wire) => wire,
            Err(e) => return Err(e),
        }
    } else {
        0
    };
    match sum(6, operation_wire) {
        Ok(inner) => match sum(inner, controls_wire) {
            Ok(inner) => tlv(inner),
            Err(e) => Err(e),
        },
        Err(e) => Err(e),
    }
}

/// Memory to set aside for a request whose operation and controls have these sizes, if it is
/// within the limits.
#[verifier::rlimit(30)]
pub fn request_total(
    operation_wire: usize,
    operation_heap: usize,
    controls: &Vec<ControlSize>,
    limits: CodecLimits,
) -> (r: Result<usize, Error>)
    ensures
        ({
            let wire = request_wire(operation_wire as nat, controls@);
            let memory = request_memory(operation_heap as nat, operation_wire as nat, controls@);
            r == if wire <= limits.maximum_frame && memory <= limits.maximum_allocation {
                Ok::<usize, Error>(memory as usize)
            } else {
                Err(Error::LimitExceeded)
            }
        }),
{
    let (payload, held) = match controls_total(controls) {
        Ok(totals) => totals,
        Err(e) => return Err(e),
    };
    // Include the operation, envelope, request bookkeeping and temporary encoder nodes.
    let memory: usize = match sum(operation_heap, 1024) {
        Ok(memory) => match sum(memory, held) {
            Ok(memory) => memory,
            Err(e) => return Err(e),
        },
        Err(e) => return Err(e),
    };
    let wire: usize = match wire_total(operation_wire, payload, controls.len() > 0) {
        Ok(wire) => wire,
        Err(e) => return Err(e),
    };
    if wire > limits.maximum_frame {
        return Err(Error::LimitExceeded);
    }
    // The output buffer may grow geometrically, and framing and tree conversion coexist.
    let room: usize = match wire.checked_mul(4) {
        Some(room) => room,
        None => return Err(Error::LimitExceeded),
    };
    let memory: usize = match sum(memory, room) {
        Ok(memory) => memory,
        Err(e) => return Err(e),
    };
    if memory > limits.maximum_allocation {
        return Err(Error::LimitExceeded);
    }
    Ok(memory)
}

/// Whether the lengths and capacities can be those of the control.
pub open spec fn sized(size: ControlSize, c: ControlValue) -> bool {
    &&& size.ctype == encode_utf8(c.ctype).len()
    &&& size.ctype_capacity >= size.ctype
    &&& match c.val {
        Some(val) => size.value == Some(val.len() as usize) && val.len() <= usize::MAX
            && size.value_capacity >= val.len(),
        None => size.value is None && size.value_capacity == 0,
    }
}

pub open spec fn sized_all(sizes: Seq<ControlSize>, cs: Seq<ControlValue>) -> bool {
    &&& sizes.len() == cs.len()
    &&& forall|i: int| 0 <= i < cs.len() ==> sized(#[trigger] sizes[i], cs[i])
}

/// Whether the capacities are those that a control was found to have.
pub open spec fn found_size(size: ControlSize, control: RawControl) -> bool {
    &&& has_text_room(control.ctype, size.ctype_capacity)
    &&& control.val matches Some(val) ==> has_room(val, size.value_capacity)
}

pub open spec fn found_sizes(sizes: Seq<ControlSize>, controls: Seq<RawControl>) -> bool {
    &&& sizes.len() == controls.len()
    &&& forall|i: int| 0 <= i < controls.len() ==> found_size(#[trigger] sizes[i], controls[i])
}

fn control_size(control: &RawControl) -> (r: ControlSize)
    ensures
        sized(r, control@),
        found_size(r, *control),
{
    let ctype: usize = control.ctype.as_str().as_bytes().len();
    let ctype_capacity: usize = text_capacity(&control.ctype);
    let (value, value_capacity): (Option<usize>, usize) = match &control.val {
        Some(val) => (Some(val.len()), capacity(val)),
        None => (None, 0),
    };
    ControlSize { ctype, ctype_capacity, value, value_capacity }
}

fn control_sizes(controls: &[RawControl]) -> (r: Vec<ControlSize>)
    ensures
        sized_all(r@, control_values(controls@)),
        found_sizes(r@, controls@),
{
    let mut sizes: Vec<ControlSize> = Vec::new();
    let n: usize = controls.len();
    for k in 0..n
        invariant
            n == controls@.len(),
            sizes@.len() == k,
            forall|i: int|
                0 <= i < k ==> sized(#[trigger] sizes@[i], controls@[i]@) && found_size(
                    sizes@[i],
                    controls@[i],
                ),
    {
        sizes.push(control_size(&controls[k]));
    }
    sizes
}

/// What is set aside for a request with these capacities: memory, or a refusal.
pub open spec fn request_outcome(
    operation: Element,
    x: Extent,
    controls: Seq<ControlSize>,
    limits: CodecLimits,
) -> Result<usize, Error> {
    let memory = request_memory(heap(x), encode(operation).len(), controls);
    if encodable(operation) && height(operation) <= limits.maximum_depth && node_count(operation)
        <= limits.maximum_nodes && request_wire(encode(operation).len(), controls)
        <= limits.maximum_frame && memory <= limits.maximum_allocation {
        Ok(memory as usize)
    } else {
        Err(Error::LimitExceeded)
    }
}

/// Memory to set aside for a request with these capacities, if it is within the limits.
pub fn request_size(
    operation: &StructureTag,
    extent: &Extent,
    controls: &Vec<ControlSize>,
    limits: CodecLimits,
) -> (r: Result<usize, Error>)
    requires
        extends(*extent, operation@),
    ensures
        r == request_outcome(operation@, *extent, controls@, limits),
{
    let mut nodes: usize = limits.maximum_nodes;
    match footprint(
        operation,
        extent,
        limits.maximum_depth,
        &mut nodes,
        limits.maximum_allocation,
    ) {
        Ok((wire, heap_bytes)) => request_total(wire, heap_bytes, controls, limits),
        Err(e) => Err(e),
    }
}

/// Memory to set aside for a request, if it is within the limits. The capacities that it holds
/// are the allocator's; a request with more levels or nodes than admitted is refused whatever
/// they are.
pub(crate) fn request_allocation(
    operation: &StructureTag,
    controls: &[RawControl],
    limits: CodecLimits,
) -> (r: Result<usize, Error>)
    ensures
        reckoned(*operation, controls@, limits, r),
{
    let mut nodes: usize = limits.maximum_nodes;
    match extent_of(operation, limits.maximum_depth, &mut nodes) {
        Some(extent) => {
            let sizes = control_sizes(controls);
            assert(extends(extent, operation@));
            assert(sized_all(sizes@, control_values(controls@)));
            request_size(operation, &extent, &sizes, limits)
        },
        None => Err(Error::LimitExceeded),
    }
}

/// Whether a result is what has to be set aside for a request, with the capacities that it was
/// found to have.
pub open spec fn reckoned(
    operation: StructureTag,
    controls: Seq<RawControl>,
    limits: CodecLimits,
    r: Result<usize, Error>,
) -> bool {
    if height(operation@) > limits.maximum_depth || node_count(operation@) > limits.maximum_nodes {
        r == Err::<usize, Error>(Error::LimitExceeded)
    } else {
        exists|x: Extent, sizes: Seq<ControlSize>|
            {
                &&& #[trigger] extends(x, operation@)
                &&& spans(x, operation)
                &&& #[trigger] sized_all(sizes, control_values(controls))
                &&& found_sizes(sizes, controls)
                &&& r == request_outcome(operation@, x, sizes, limits)
            }
    }
}

pub open spec fn capacities(cs: Seq<ControlSize>) -> nat
    decreases cs.len(),
{
    if cs.len() == 0 {
        0
    } else {
        capacities(cs.drop_last()) + cs.last().ctype_capacity as nat
            + cs.last().value_capacity as nat
    }
}

/// Bytes that a response keeps in memory.
pub open spec fn response_memory(
    operation_heap: nat,
    raw: nat,
    controls_capacity: nat,
    cs: Seq<ControlSize>,
) -> nat {
    operation_heap + raw + vstd::layout::size_of::<RawResponse>() + controls_capacity
        * vstd::layout::size_of::<RawControl>() + capacities(cs)
}

proof fn lemma_capacities_monotone(cs: Seq<ControlSize>, k: int)
    requires
        0 <= k <= cs.len(),
    ensures
        capacities(cs.take(k)) <= capacities(cs),
    decreases cs.len() - k,
{
    if k == cs.len() {
        assert(cs.take(k) =~= cs);
    } else {
        lemma_capacities_monotone(cs, k + 1);
        assert(cs.take(k + 1).drop_last() =~= cs.take(k));
    }
}

/// Bytes that a response keeps in memory, whose parts have these sizes, if they can be counted.
pub fn response_total(
    operation_heap: usize,
    raw: usize,
    controls_capacity: usize,
    controls: &Vec<ControlSize>,
) -> (r: Result<usize, Error>)
    ensures
        ({
            let memory = response_memory(
                operation_heap as nat,
                raw as nat,
                controls_capacity as nat,
                controls@,
            );
            r == if memory <= usize::MAX {
                Ok::<usize, Error>(memory as usize)
            } else {
                Err(Error::LimitExceeded)
            }
        }),
{
    vstd::layout::layout_for_type_is_valid::<RawResponse>();
    vstd::layout::layout_for_type_is_valid::<RawControl>();
    let size: usize = match sum(operation_heap, raw) {
        Ok(size) => match sum(size, core::mem::size_of::<RawResponse>()) {
            Ok(size) => size,
            Err(e) => return Err(e),
        },
        Err(e) => return Err(e),
    };
    let mut size: usize = match controls_capacity.checked_mul(core::mem::size_of::<RawControl>()) {
        Some(held) => match sum(size, held) {
            Ok(size) => size,
            Err(e) => return Err(e),
        },
        None => return Err(Error::LimitExceeded),
    };
    let ghost fixed = size;
    let n: usize = controls.len();
    for k in 0..n
        invariant
            n == controls@.len(),
            fixed + capacities(controls@) == response_memory(
                operation_heap as nat,
                raw as nat,
                controls_capacity as nat,
                controls@,
            ),
            size == fixed + capacities(controls@.take(k as int)),
    {
        let control = controls[k];
        proof {
            lemma_capacities_monotone(controls@, k + 1);
            assert(controls@.take(k + 1).drop_last() =~= controls@.take(k as int));
        }
        size = match sum(control.ctype_capacity, control.value_capacity) {
            Ok(held) => match sum(size, held) {
                Ok(size) => size,
                Err(e) => return Err(e),
            },
            Err(e) => return Err(e),
        };
    }
    assert(controls@.take(n as int) =~= controls@);
    Ok(size)
}

/// What a response with these capacities keeps in memory, or a refusal where it cannot be
/// counted.
pub open spec fn response_outcome(
    operation: Element,
    x: Extent,
    raw: nat,
    controls_capacity: nat,
    controls: Seq<ControlSize>,
) -> Result<usize, Error> {
    let memory = response_memory(heap(x), raw, controls_capacity, controls);
    if encodable(operation) && height(operation) <= 128 && node_count(operation) <= usize::MAX
        && encode(operation).len() <= usize::MAX && memory <= usize::MAX {
        Ok(memory as usize)
    } else {
        Err(Error::LimitExceeded)
    }
}

/// Whether a result is what a response keeps in memory, with the capacities that it was found to
/// have.
pub open spec fn response_reckoned(response: RawResponse, r: Result<usize, Error>) -> bool {
    if !countable(response@.operation) {
        r == Err::<usize, Error>(Error::LimitExceeded)
    } else {
        exists|x: Extent, held: nat, sizes: Seq<ControlSize>|
            #[trigger] extends(x, response@.operation) && spans(x, response.operation)
                && #[trigger] sized_all(sizes, response@.controls) && found_sizes(
                sizes,
                response.controls@,
            ) && held >= response@.controls.len() && held <= usize::MAX && has_room(
                response.controls,
                held as usize,
            ) && r == #[trigger] response_outcome(
                response@.operation,
                x,
                frozen(&response.raw).len(),
                held,
                sizes,
            )
    }
}

/// Levels and nodes beyond which a response is not counted.
pub open spec fn countable(operation: Element) -> bool {
    height(operation) <= 128 && node_count(operation) <= usize::MAX
}

impl RawResponse {
    /// Bytes that the response keeps in memory with these capacities.
    pub fn size(&self, extent: &Extent, held: usize, controls: &Vec<ControlSize>) -> (r: Result<
        usize,
        Error,
    >)
        requires
            extends(*extent, self@.operation),
        ensures
            r == response_outcome(
                self@.operation,
                *extent,
                frozen(&self.raw).len(),
                held as nat,
                controls@,
            ),
    {
        let mut nodes: usize = usize::MAX;
        match footprint(&self.operation, extent, 128, &mut nodes, usize::MAX) {
            Ok((_, heap_bytes)) => response_total(
                heap_bytes,
                frozen_contents(&self.raw).len(),
                held,
                controls,
            ),
            Err(e) => Err(e),
        }
    }

    /// Bytes that the response keeps in memory. The capacities that it holds are the
    /// allocator's.
    pub(crate) fn allocation_bytes(&self) -> (r: Result<usize, Error>)
        ensures
            response_reckoned(*self, r),
    {
        let mut nodes: usize = usize::MAX;
        match extent_of(&self.operation, 128, &mut nodes) {
            Some(extent) => {
                let sizes = control_sizes(self.controls.as_slice());
                let held: usize = capacity(&self.controls);
                let r = self.size(&extent, held, &sizes);
                assert(extends(extent, self@.operation));
                assert(sized_all(sizes@, self@.controls));
                assert(r == response_outcome(
                    self@.operation,
                    extent,
                    frozen(&self.raw).len(),
                    held as nat,
                    sizes@,
                ));
                r
            },
            None => Err(Error::LimitExceeded),
        }
    }
}

impl LdapCodec {
    /// Memory that the request takes, if it is within the limits of the codec.
    pub fn validate_request(&self, operation: &StructureTag, controls: &[RawControl]) -> (r: Result<
        usize,
        Error,
    >)
        ensures
            reckoned(*operation, controls@, self.limits(), r),
    {
        request_allocation(operation, controls, self.get_limits())
    }
}

proof fn lemma_tlv_len_monotone(a: nat, b: nat)
    requires
        a <= b,
    ensures
        tlv_len(a) <= tlv_len(b),
{
    lemma_be_octets_monotone(a, b);
}

proof fn lemma_be_octets_monotone(a: nat, b: nat)
    requires
        a <= b,
    ensures
        1 <= be_octets(a).len() <= be_octets(b).len(),
    decreases b,
{
    if b >= 256 && a >= 256 {
        lemma_be_octets_monotone(a / 256, b / 256);
    } else if b >= 256 {
        lemma_be_octets_monotone(0, b / 256);
    }
}

proof fn lemma_control_fits(c: ControlValue, size: ControlSize)
    requires
        sized(size, c),
    ensures
        encode(control_element(c)).len() <= tlv_len(control_payload(size)),
{
    let parts = control_element(c).body->Children_0;
    let ctype = primitive(TagClass::Universal, OCTET_STRING, encode_utf8(c.ctype));
    let crit = primitive(TagClass::Universal, BOOLEAN, bool_octets(true));
    assert(encode(ctype).len() == tlv_len(size.ctype as nat));
    assert(encode(crit).len() == 3);
    let one = seq![ctype];
    let two = if c.crit {
        one.push(crit)
    } else {
        one
    };
    assert(one =~= Seq::<Element>::empty().push(ctype));
    lemma_encode_all_push(Seq::empty(), ctype);
    lemma_encode_all_push(one, crit);
    match c.val {
        Some(val) => {
            let value = primitive(TagClass::Universal, OCTET_STRING, val);
            assert(parts =~= two.push(value));
            assert(encode(value).len() == tlv_len(val.len()));
            lemma_encode_all_push(two, value);
        },
        None => {
            assert(parts =~= two);
        },
    }
    assert(encode_all(parts).len() <= control_payload(size));
    lemma_tlv_len_monotone(encode_all(parts).len(), control_payload(size));
}

proof fn lemma_controls_fit(cs: Seq<ControlValue>, sizes: Seq<ControlSize>)
    requires
        sized_all(sizes, cs),
    ensures
        encode_all(controls_element(cs).body->Children_0).len() <= controls_payload(sizes),
    decreases cs.len(),
{
    let parts = controls_element(cs).body->Children_0;
    if cs.len() == 0 {
        assert(parts =~= Seq::<Element>::empty());
    } else {
        let front = cs.drop_last();
        assert(sized(sizes[sizes.len() - 1], cs[cs.len() - 1]));
        assert forall|i: int| 0 <= i < front.len() implies sized(
            #[trigger] sizes.drop_last()[i],
            front[i],
        ) by {
            assert(sized(sizes[i], cs[i]));
        }
        lemma_controls_fit(front, sizes.drop_last());
        lemma_control_fits(cs.last(), sizes.last());
        let shorter = controls_element(front).body->Children_0;
        assert(parts =~= shorter.push(control_element(cs.last())));
        lemma_encode_all_push(shorter, control_element(cs.last()));
    }
}

/// A message takes no more bytes than were set aside for it when its request was admitted. An
/// empty list of controls, which is written as an element of its own, is set aside for only under
/// identifiers of at most two bytes.
pub proof fn request_fits_what_was_set_aside(
    id: int,
    operation: Element,
    controls: Option<Seq<ControlValue>>,
    sizes: Seq<ControlSize>,
)
    requires
        0 <= id <= i32::MAX,
        sized_all(
            sizes,
            match controls {
                Some(cs) => cs,
                None => Seq::empty(),
            },
        ),
        controls == Some(Seq::<ControlValue>::empty()) ==> id <= i16::MAX,
    ensures
        encode(message_element(id, operation, controls)).len() <= request_wire(
            encode(operation).len(),
            sizes,
        ),
{
    let e = message_element(id, operation, controls);
    let parts = e.body->Children_0;
    let number = primitive(TagClass::Universal, INTEGER, int_octets(id));
    assert(int_octets(id).len() <= 4 && (id <= i16::MAX ==> int_octets(id).len() <= 2)) by {
        reveal_with_fuel(int_octets, 4);
    }
    assert(encode(number).len() <= 2 + int_octets(id).len());
    let one = seq![number];
    let two = one.push(operation);
    assert(one =~= Seq::<Element>::empty().push(number));
    lemma_encode_all_push(Seq::empty(), number);
    lemma_encode_all_push(one, operation);
    match controls {
        Some(cs) => {
            let list = controls_element(cs);
            assert(parts =~= two.push(list));
            lemma_encode_all_push(two, list);
            lemma_controls_fit(cs, sizes);
            let inner = encode_all(list.body->Children_0).len();
            lemma_tlv_len_monotone(inner, controls_payload(sizes));
            assert(encode(list).len() == tlv_len(inner));
            if cs.len() == 0 {
                assert(cs =~= Seq::<ControlValue>::empty());
            }
        },
        None => {
            assert(parts =~= two);
        },
    }
    let room = (6 + encode(operation).len() + (if sizes.len() == 0 {
        0
    } else {
        tlv_len(controls_payload(sizes))
    })) as nat;
    assert(encode_all(parts).len() <= room);
    lemma_tlv_len_monotone(encode_all(parts).len(), room);
}

/// A request that was admitted can be written, and its message is within the frame limit. The
/// exception is an empty list of controls under an identifier of more than two bytes.
pub proof fn admitted_request_fits_the_frame(
    id: int,
    operation: Element,
    controls: Option<Seq<ControlValue>>,
    x: Extent,
    sizes: Seq<ControlSize>,
    limits: CodecLimits,
)
    requires
        0 <= id <= i32::MAX,
        sized_all(
            sizes,
            match controls {
                Some(cs) => cs,
                None => Seq::empty(),
            },
        ),
        controls == Some(Seq::<ControlValue>::empty()) ==> id <= i16::MAX,
        request_outcome(operation, x, sizes, limits) is Ok,
    ensures
        encodable(message_element(id, operation, controls)),
        encode(message_element(id, operation, controls)).len() <= limits.maximum_frame,
{
    message_is_encodable(id, operation, controls);
    request_fits_what_was_set_aside(id, operation, controls, sizes);
}

} // verus!
