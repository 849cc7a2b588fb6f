//! What reading and writing of BER elements have to do with each other.
use crate::asn1::{be_value, int_octets, int_value, Body, Element, TagClass};
use crate::parse::{
    after, element_at, elements_of, length_header, node_cost, type_header, Budget, BerError,
};
use crate::write::{
    all_encodable, be_octets, content_octets, encodable, encode, encode_all, length_octets,
    lemma_be_octets_len, type_octet,
};
use vstd::prelude::*;

verus! {

/// Number of elements in an element, itself counted.
pub open spec fn node_count(e: Element) -> nat
    decreases e,
{
    1 + match e.body {
        Body::Bytes(_) => 0,
        Body::Children(children) => node_count_all(children),
    }
}

pub open spec fn node_count_all(es: Seq<Element>) -> nat
    decreases es,
{
    if es.len() == 0 {
        0
    } else {
        node_count(es[0]) + node_count_all(es.drop_first())
    }
}

/// Memory that is charged for an element when it is read.
pub open spec fn memory_cost(e: Element) -> nat
    decreases e,
{
    node_cost() + match e.body {
        Body::Bytes(bytes) => bytes.len(),
        Body::Children(children) => memory_cost_all(children),
    }
}

pub open spec fn memory_cost_all(es: Seq<Element>) -> nat
    decreases es,
{
    if es.len() == 0 {
        0
    } else {
        memory_cost(es[0]) + memory_cost_all(es.drop_first())
    }
}

/// Number of levels in an element.
pub open spec fn height(e: Element) -> nat
    decreases e,
{
    1 + match e.body {
        Body::Bytes(_) => 0,
        Body::Children(children) => height_all(children),
    }
}

pub open spec fn height_all(es: Seq<Element>) -> nat
    decreases es,
{
    if es.len() == 0 {
        0
    } else if height(es[0]) < height_all(es.drop_first()) {
        height_all(es.drop_first())
    } else {
        height(es[0])
    }
}

/// What is left of a budget after an element.
pub open spec fn left_after(budget: Budget, e: Element) -> Budget {
    ((budget.0 - node_count(e)) as nat, (budget.1 - memory_cost(e)) as nat)
}

pub open spec fn left_after_all(budget: Budget, es: Seq<Element>) -> Budget {
    ((budget.0 - node_count_all(es)) as nat, (budget.1 - memory_cost_all(es)) as nat)
}

/// The shortest big-endian form of a number stands for that number.
pub proof fn big_endian_reads_back(n: nat)
    ensures
        be_value(be_octets(n)) == n,
    decreases n,
{
    reveal_with_fuel(be_value, 2);
    if n < 256 {
        assert(be_octets(n).drop_last() =~= Seq::<u8>::empty());
    } else {
        big_endian_reads_back(n / 256);
        assert(be_octets(n).drop_last() =~= be_octets(n / 256));
    }
}

/// The shortest two's complement form of a number stands for that number.
pub proof fn integer_reads_back(v: int)
    ensures
        int_octets(v).len() >= 1,
        int_value(int_octets(v)) == v,
    decreases (if v < 0 { -v } else { v }),
{
    if !(-128 <= v < 128) {
        integer_reads_back(v / 256);
        assert(int_octets(v).drop_last() =~= int_octets(v / 256));
    }
}

proof fn lemma_length_reads_back(n: nat, rest: Seq<u8>)
    requires
        n <= usize::MAX,
    ensures
        length_header(length_octets(n) + rest) == Ok::<(nat, nat), BerError>(
            (length_octets(n).len(), n),
        ),
{
    if n >= 128 {
        lemma_be_octets_len(n);
        big_endian_reads_back(n);
        let i = length_octets(n) + rest;
        let k = be_octets(n).len() as int;
        assert(i[0] == 128 + k);
        assert(i.subrange(1, 1 + k) =~= be_octets(n));
    }
}

proof fn lemma_type_reads_back(class: TagClass, constructed: bool, id: u64, rest: Seq<u8>)
    requires
        id < 31,
    ensures
        type_header(seq![type_octet(class, constructed, id)] + rest) matches Ok((c, s, n)) && c
            == class && (s is Constructed <==> constructed) && n == id,
{
}

/// Whatever follows it, an encoded element reads back as that element, takes exactly its own
/// bytes and costs exactly its own nodes and memory.
pub proof fn encoded_element_reads_back(e: Element, rest: Seq<u8>, depth: nat, budget: Budget)
    requires
        encodable(e),
        encode(e).len() <= usize::MAX,
        height(e) <= depth,
        node_count(e) <= budget.0,
        memory_cost(e) <= budget.1,
    ensures
        element_at(encode(e) + rest, depth, budget) == Ok::<(nat, Element, Budget), BerError>(
            (encode(e).len(), e, left_after(budget, e)),
        ),
    decreases e,
{
    let i = encode(e) + rest;
    let content = content_octets(e.body);
    let head = length_octets(content.len());
    let constructed = e.body is Children;
    lemma_type_reads_back(e.class, constructed, e.id, head + content + rest);
    assert(i =~= seq![type_octet(e.class, constructed, e.id)] + (head + content + rest));
    assert(i.skip(1) =~= head + (content + rest));
    lemma_length_reads_back(content.len(), content + rest);
    let start = (1 + head.len()) as int;
    assert(i.subrange(start, start + content.len()) =~= content);
    match e.body {
        Body::Bytes(_) => {},
        Body::Children(children) => {
            let left = ((budget.0 - 1) as nat, (budget.1 - node_cost()) as nat);
            encoded_elements_read_back(children, (depth - 1) as nat, left);
        },
    }
}

/// Encoded elements, one after the other, read back as the list of them.
pub proof fn encoded_elements_read_back(es: Seq<Element>, depth: nat, budget: Budget)
    requires
        all_encodable(es),
        encode_all(es).len() <= usize::MAX,
        height_all(es) <= depth,
        node_count_all(es) <= budget.0,
        memory_cost_all(es) <= budget.1,
    ensures
        elements_of(encode_all(es), depth, budget) == Ok::<(Seq<Element>, Budget), BerError>(
            (es, left_after_all(budget, es)),
        ),
    decreases es,
{
    if es.len() > 0 {
        let first = es[0];
        let others = es.drop_first();
        assert(encode(first).len() >= 1);
        assert forall|k: int| 0 <= k < others.len() implies encodable(#[trigger] others[k]) by {
            assert(others[k] == es[k + 1]);
        }
        encoded_element_reads_back(first, encode_all(others), depth, budget);
        encoded_elements_read_back(others, depth, left_after(budget, first));
        assert(encode_all(es).skip(encode(first).len() as int) =~= encode_all(others));
        assert(seq![first] + others =~= es);
    } else {
        assert(es =~= Seq::<Element>::empty());
    }
}

/// An element that was read has low tag numbers, keeps within the limits it was read under, and
/// is charged with exactly its nodes and memory. Reading takes at least two bytes, and none that
/// are not there.
pub proof fn read_element_is_within_limits(i: Seq<u8>, depth: nat, budget: Budget)
    ensures
        element_at(i, depth, budget) matches Ok((used, e, left)) ==> {
            &&& 2 <= used <= i.len()
            &&& encodable(e)
            &&& height(e) <= depth
            &&& node_count(e) <= budget.0
            &&& memory_cost(e) <= budget.1
            &&& left == left_after(budget, e)
        },
    decreases depth, i.len(), 0nat,
{
    if let Ok((used, e, left)) = element_at(i, depth, budget) {
        let (head, length) = length_header(i.skip(1))->Ok_0;
        let start = (1 + head) as int;
        if e.body is Children {
            let content = i.subrange(start, start + length);
            let rest = ((budget.0 - 1) as nat, (budget.1 - node_cost()) as nat);
            read_elements_are_within_limits(content, (depth - 1) as nat, rest);
        }
    }
}

/// Elements that were read together keep within the limits they were read under.
pub proof fn read_elements_are_within_limits(content: Seq<u8>, depth: nat, budget: Budget)
    ensures
        elements_of(content, depth, budget) matches Ok((es, left)) ==> {
            &&& all_encodable(es)
            &&& height_all(es) <= depth
            &&& node_count_all(es) <= budget.0
            &&& memory_cost_all(es) <= budget.1
            &&& left == left_after_all(budget, es)
        },
    decreases depth, content.len(), 1nat,
{
    if let Ok((es, left)) = elements_of(content, depth, budget) {
        if content.len() > 0 {
            read_element_is_within_limits(content, depth, budget);
            let (used, first, between) = element_at(content, depth, budget)->Ok_0;
            read_elements_are_within_limits(content.skip(used as int), depth, between);
            let (others, end) = elements_of(content.skip(used as int), depth, between)->Ok_0;
            assert(es[0] == first);
            assert(es.drop_first() =~= others);
            assert forall|k: int| 0 <= k < es.len() implies encodable(#[trigger] es[k]) by {
                if k > 0 {
                    assert(es[k] == others[k - 1]);
                }
            }
        } else {
            assert(es =~= Seq::<Element>::empty());
        }
    }
}

/// What is read of an input does not depend on what follows the element.
pub proof fn reading_ignores_what_follows(
    i: Seq<u8>,
    other: Seq<u8>,
    depth: nat,
    budget: Budget,
)
    ensures
        element_at(i, depth, budget) matches Ok((used, e, left)) ==> element_at(
            i.take(used as int) + other,
            depth,
            budget,
        ) == element_at(i, depth, budget),
{
    read_element_is_within_limits(i, depth, budget);
    if let Ok((used, e, left)) = element_at(i, depth, budget) {
        let j = i.take(used as int) + other;
        let (head, length) = length_header(i.skip(1))->Ok_0;
        let start = (1 + head) as int;
        assert(j[0] == i[0]);
        assert(j.skip(1)[0] == i.skip(1)[0]);
        if i.skip(1)[0] >= 128 {
            let n = (i.skip(1)[0] - 128) as int;
            assert(j.skip(1).subrange(1, 1 + n) =~= i.skip(1).subrange(1, 1 + n));
        }
        assert(j.subrange(start, start + length) =~= i.subrange(start, start + length));
    }
}

} // verus!
