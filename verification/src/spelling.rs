//! All the ways to write an element: a length may have any number of leading zeros.
use crate::asn1::{be_value, Body, Element, TagClass};
use crate::error::Error;
use crate::parse::{
    element_at, elements_of, lemma_be_value_bound, length_header, node_cost, too_large, type_header,
    BerError, Budget,
};
use crate::protocol::frame_length;
use crate::roundtrip::{
    big_endian_reads_back, height, height_all, left_after, left_after_all, memory_cost,
    memory_cost_all, node_count, node_count_all, read_element_is_within_limits,
};
use crate::write::{
    all_encodable, be_octets, content_octets, encodable, encode, encode_all, lemma_be_octets_len,
    length_octets,
};
use vstd::arithmetic::power::pow;
use vstd::prelude::*;

verus! {

/// The number in so many digits of eight bits each, the most significant first.
pub open spec fn padded(n: nat, k: nat) -> Seq<u8> {
    Seq::new(k, |j: int| (n as int / pow(256, (k - 1 - j) as nat) % 256) as u8)
}

/// A length of at most 127 in one octet, or 128 and the number of the octets that follow, which
/// are at most eight and give the length.
pub open spec fn is_length(head: Seq<u8>, n: nat) -> bool {
    if head.len() == 1 {
        head[0] < 128 && n == head[0]
    } else {
        2 <= head.len() <= 9 && head[0] == 127 + head.len() && be_value(head.skip(1)) == n
    }
}

/// Whether the bytes are one element: its class, structure and number in the first byte, a length
/// in any form, and so many bytes of content.
pub open spec fn spells(i: Seq<u8>, e: Element) -> bool
    decreases e,
{
    exists|start: int|
        {
            &&& 2 <= start <= i.len()
            &&& e.id < 31
            &&& i[0] == e.id + (match e.class {
                TagClass::Universal => 0int,
                TagClass::Application => 64,
                TagClass::Context => 128,
                TagClass::Private => 192,
            }) + (if e.body is Children {
                32int
            } else {
                0
            })
            &&& #[trigger] is_length(i.subrange(1, start), (i.len() - start) as nat)
            &&& match e.body {
                Body::Bytes(bytes) => i.skip(start) == bytes,
                Body::Children(children) => spells_all(i.skip(start), children),
            }
        }
}

/// Whether the bytes are the elements, one after the other.
pub open spec fn spells_all(i: Seq<u8>, es: Seq<Element>) -> bool
    decreases es,
{
    if es.len() == 0 {
        i.len() == 0
    } else {
        exists|k: int|
            0 <= k <= i.len() && spells(#[trigger] i.take(k), es[0]) && spells_all(
                i.skip(k),
                es.drop_first(),
            )
    }
}

proof fn lemma_padded(n: nat, k: nat)
    requires
        k >= 1,
    ensures
        padded(n, k) == padded(n / 256, (k - 1) as nat).push((n % 256) as u8),
{
    let front = padded(n / 256, (k - 1) as nat);
    let all = padded(n, k);
    assert forall|j: int| 0 <= j < k implies all[j] == front.push((n % 256) as u8)[j] by {
        reveal(pow);
        if j == k - 1 {
            assert(pow(256, 0) == 1);
            assert(n as int / 1 == n);
        } else {
            let m = (k - 2 - j) as nat;
            let p = pow(256, m);
            vstd::arithmetic::power::lemma_pow_positive(256, m);
            assert(pow(256, (k - 1 - j) as nat) == 256 * p);
            vstd::arithmetic::div_mod::lemma_div_denominator(n as int, 256, p);
        }
    }
    assert(all =~= front.push((n % 256) as u8));
}

/// Big-endian bytes stand for the number that they are the digits of, with as many leading zeros
/// as there may be.
pub proof fn leading_zeros_change_nothing(n: nat, k: nat)
    requires
        n < pow(256, k),
    ensures
        padded(n, k).len() == k,
        be_value(padded(n, k)) == n,
    decreases k,
{
    reveal(pow);
    if k > 0 {
        let m = (k - 1) as nat;
        lemma_padded(n, k);
        assert(n / 256 < pow(256, m)) by (nonlinear_arith)
            requires
                n < 256 * pow(256, m),
        ;
        leading_zeros_change_nothing(n / 256, m);
        assert(padded(n, k).drop_last() =~= padded(n / 256, m));
    }
}

/// Every form of a length that fits gives the length of the message: for each number of octets
/// that can hold it, with leading zeros or without.
pub proof fn every_form_of_a_length_is_read(n: nat, k: nat, rest: Seq<u8>)
    requires
        1 <= k <= 8,
        k <= usize::BITS / 8,
        n < pow(256, k),
        2 + k + n <= usize::MAX,
    ensures
        is_length(seq![(128 + k) as u8] + padded(n, k), n),
        frame_length(seq![0x30u8, (128 + k) as u8] + padded(n, k) + rest) == Ok::<
            Option<nat>,
            Error,
        >(Some(2 + k + n)),
        n < 128 ==> frame_length(seq![0x30u8, n as u8] + rest) == Ok::<Option<nat>, Error>(
            Some(2 + n),
        ),
{
    leading_zeros_change_nothing(n, k);
    let i = seq![0x30u8, (128 + k) as u8] + padded(n, k) + rest;
    assert(i[0] == 0x30 && i[1] == 128 + k);
    assert(i.subrange(2, 2 + k as int) =~= padded(n, k));
    let head = seq![(128 + k) as u8] + padded(n, k);
    assert(head.skip(1) =~= padded(n, k));
    let short = seq![0x30u8, n as u8] + rest;
    assert(short[0] == 0x30 && short[1] == n as u8);
}

pub proof fn lemma_length(head: Seq<u8>, n: nat, rest: Seq<u8>)
    requires
        is_length(head, n),
        n <= usize::MAX,
    ensures
        length_header(head + rest) == Ok::<(nat, nat), BerError>((head.len(), n)),
{
    let i = head + rest;
    assert(i[0] == head[0]);
    if head.len() > 1 {
        assert(i.subrange(1, head.len() as int) =~= head.skip(1));
    }
}

/// The header of a message in any form.
pub proof fn any_header_gives_the_length(head: Seq<u8>, n: nat, rest: Seq<u8>)
    requires
        is_length(head, n),
        head.len() <= 1 + usize::BITS / 8,
        1 + head.len() + n <= usize::MAX,
    ensures
        frame_length(seq![0x30u8] + head + rest) == Ok::<Option<nat>, Error>(
            Some(1 + head.len() + n),
        ),
{
    let i = seq![0x30u8] + head + rest;
    assert(i[0] == 0x30 && i[1] == head[0]);
    if head.len() > 1 {
        assert(i.subrange(2, 1 + head.len() as int) =~= head.skip(1));
    }
}

/// Where the content of an element starts.
spec fn start_of(i: Seq<u8>, e: Element) -> int {
    choose|start: int|
        {
            &&& 2 <= start <= i.len()
            &&& #[trigger] is_length(i.subrange(1, start), (i.len() - start) as nat)
            &&& match e.body {
                Body::Bytes(bytes) => i.skip(start) == bytes,
                Body::Children(children) => spells_all(i.skip(start), children),
            }
        }
}

/// Whatever follows it, an element in any form reads back as that element, takes exactly its own
/// bytes and costs exactly its own nodes and memory. Beyond the limits it is refused as too large.
pub proof fn spelled_element_reads_back(
    i: Seq<u8>,
    e: Element,
    rest: Seq<u8>,
    depth: nat,
    budget: Budget,
)
    requires
        spells(i, e),
        i.len() <= usize::MAX,
    ensures
        element_at(i + rest, depth, budget) == if height(e) <= depth && node_count(e) <= budget.0
            && memory_cost(e) <= budget.1 {
            Ok::<(nat, Element, Budget), BerError>((i.len(), e, left_after(budget, e)))
        } else {
            too_large()
        },
    decreases e,
{
    let start = start_of(i, e);
    let all = i + rest;
    let head = i.subrange(1, start);
    let content = i.skip(start);
    assert(all[0] == i[0]);
    assert(type_header(all) matches Ok((c, s, n)) && c == e.class && (s is Constructed <==> e.body
        is Children) && n == e.id);
    assert(all.skip(1) =~= head + (content + rest));
    lemma_length(head, content.len(), content + rest);
    assert(all.subrange(start, start + content.len()) =~= content);
    match e.body {
        Body::Bytes(_) => {},
        Body::Children(children) => {
            if depth > 0 && budget.0 >= 1 && budget.1 >= node_cost() {
                let left = ((budget.0 - 1) as nat, (budget.1 - node_cost()) as nat);
                spelled_elements_read_back(content, children, (depth - 1) as nat, left);
            }
        },
    }
}

/// Elements in any form, one after the other, read back as the list of them. Beyond the limits they
/// are refused as too large.
pub proof fn spelled_elements_read_back(i: Seq<u8>, es: Seq<Element>, depth: nat, budget: Budget)
    requires
        spells_all(i, es),
        i.len() <= usize::MAX,
    ensures
        elements_of(i, depth, budget) == if height_all(es) <= depth && node_count_all(es)
            <= budget.0 && memory_cost_all(es) <= budget.1 {
            Ok::<(Seq<Element>, Budget), BerError>((es, left_after_all(budget, es)))
        } else {
            too_large()
        },
    decreases es,
{
    if es.len() > 0 {
        let first = es[0];
        let others = es.drop_first();
        let k = choose|k: int|
            0 <= k <= i.len() && spells(#[trigger] i.take(k), es[0]) && spells_all(
                i.skip(k),
                es.drop_first(),
            );
        assert(i.take(k).len() >= 2);
        spelled_element_reads_back(i.take(k), first, i.skip(k), depth, budget);
        spelled_elements_read_back(i.skip(k), others, depth, left_after(budget, first));
        assert(i.take(k) + i.skip(k) =~= i);
        assert(seq![first] + others =~= es);
    } else {
        assert(es =~= Seq::<Element>::empty());
    }
}

/// What was read is an element in one of its forms, and nothing else is read.
pub proof fn read_element_is_spelled(i: Seq<u8>, depth: nat, budget: Budget)
    ensures
        element_at(i, depth, budget) matches Ok((used, e, left)) ==> used <= i.len() && spells(
            i.take(used as int),
            e,
        ),
    decreases depth, i.len(), 0nat,
{
    if let Ok((used, e, left)) = element_at(i, depth, budget) {
        read_element_is_within_limits(i, depth, budget);
        let (head, length) = length_header(i.skip(1))->Ok_0;
        let start = (1 + head) as int;
        let whole = i.take(used as int);
        let content = i.subrange(start, start + length);
        assert(whole.skip(start) =~= content);
        let octets = whole.subrange(1, start);
        assert(octets[0] == i.skip(1)[0]);
        if octets.len() > 1 {
            assert(octets.skip(1) =~= i.skip(1).subrange(1, head as int));
        }
        assert(is_length(octets, length));
        if e.body is Children {
            let rest = ((budget.0 - 1) as nat, (budget.1 - node_cost()) as nat);
            read_elements_are_spelled(content, (depth - 1) as nat, rest);
        }
        assert(is_length(whole.subrange(1, start), (whole.len() - start) as nat));
    }
}

/// What was read as a list is its elements, one after the other, each in one of its forms.
pub proof fn read_elements_are_spelled(content: Seq<u8>, depth: nat, budget: Budget)
    ensures
        elements_of(content, depth, budget) matches Ok((es, left)) ==> spells_all(content, es),
    decreases depth, content.len(), 1nat,
{
    if let Ok((es, left)) = elements_of(content, depth, budget) {
        if content.len() > 0 {
            read_element_is_spelled(content, depth, budget);
            let (used, first, between) = element_at(content, depth, budget)->Ok_0;
            read_elements_are_spelled(content.skip(used as int), depth, between);
            let (others, end) = elements_of(content.skip(used as int), depth, between)->Ok_0;
            assert(es[0] == first);
            assert(es.drop_first() =~= others);
            assert(spells(content.take(used as int), es[0]));
        }
    }
}

/// An element that is written has one of its forms.
pub proof fn encoded_element_is_spelled(e: Element)
    requires
        encodable(e),
        encode(e).len() <= u64::MAX,
    ensures
        spells(encode(e), e),
    decreases e,
{
    let i = encode(e);
    let content = content_octets(e.body);
    let head = length_octets(content.len());
    let start = (1 + head.len()) as int;
    assert(i.skip(start) =~= content);
    assert(i.subrange(1, start) =~= head);
    lemma_be_octets_len(content.len());
    big_endian_reads_back(content.len());
    if content.len() >= 128 {
        assert(head.skip(1) =~= be_octets(content.len()));
    }
    if let Body::Children(children) = e.body {
        encoded_elements_are_spelled(children);
    }
    assert(is_length(i.subrange(1, start), (i.len() - start) as nat));
}

pub proof fn encoded_elements_are_spelled(es: Seq<Element>)
    requires
        all_encodable(es),
        encode_all(es).len() <= u64::MAX,
    ensures
        spells_all(encode_all(es), es),
    decreases es,
{
    if es.len() > 0 {
        let first = es[0];
        let others = es.drop_first();
        let i = encode_all(es);
        assert forall|k: int| 0 <= k < others.len() implies encodable(#[trigger] others[k]) by {
            assert(others[k] == es[k + 1]);
        }
        encoded_element_is_spelled(first);
        encoded_elements_are_spelled(others);
        let k = encode(first).len() as int;
        assert(i.take(k) =~= encode(first));
        assert(i.skip(k) =~= encode_all(others));
        assert(spells(i.take(k), es[0]));
    }
}

/// The form of a length that is written is one of its forms.
pub proof fn lemma_length_octets(n: nat)
    requires
        n <= u64::MAX,
    ensures
        is_length(length_octets(n), n),
{
    lemma_be_octets_len(n);
    big_endian_reads_back(n);
    if n >= 128 {
        assert(length_octets(n).skip(1) =~= be_octets(n));
    }
}

proof fn lemma_octets_are_few(n: nat, k: nat)
    requires
        n < pow(256, k),
        k >= 1,
    ensures
        be_octets(n).len() <= k,
    decreases k,
{
    reveal(pow);
    if n >= 256 {
        let m = (k - 1) as nat;
        assert(n / 256 < pow(256, m)) by (nonlinear_arith)
            requires
                n < 256 * pow(256, m),
        ;
        if m == 0 {
            assert(pow(256, 0) == 1);
        }
        lemma_octets_are_few(n / 256, m);
    }
}

/// No form of a length is shorter than the one that is written, also of a larger length.
pub proof fn lemma_length_is_shortest(head: Seq<u8>, n: nat, m: nat)
    requires
        is_length(head, n),
        m <= n,
    ensures
        length_octets(m).len() <= head.len(),
{
    if head.len() > 1 && m >= 128 {
        lemma_be_value_bound(head.skip(1));
        lemma_octets_are_few(m, (head.len() - 1) as nat);
    }
}

/// No form of an element is shorter than the one that is written.
pub proof fn written_form_is_the_shortest(i: Seq<u8>, e: Element)
    requires
        spells(i, e),
    ensures
        encodable(e),
        encode(e).len() <= i.len(),
    decreases e,
{
    let start = start_of(i, e);
    let content = content_octets(e.body);
    if let Body::Children(children) = e.body {
        written_forms_are_the_shortest(i.skip(start), children);
    }
    lemma_length_is_shortest(i.subrange(1, start), (i.len() - start) as nat, content.len());
}

pub proof fn written_forms_are_the_shortest(i: Seq<u8>, es: Seq<Element>)
    requires
        spells_all(i, es),
    ensures
        all_encodable(es),
        encode_all(es).len() <= i.len(),
    decreases es,
{
    if es.len() > 0 {
        let k = choose|k: int|
            0 <= k <= i.len() && spells(#[trigger] i.take(k), es[0]) && spells_all(
                i.skip(k),
                es.drop_first(),
            );
        written_form_is_the_shortest(i.take(k), es[0]);
        written_forms_are_the_shortest(i.skip(k), es.drop_first());
        assert forall|j: int| 0 <= j < es.len() implies encodable(#[trigger] es[j]) by {
            if j > 0 {
                assert(es[j] == es.drop_first()[j - 1]);
            }
        }
    }
}

} // verus!
