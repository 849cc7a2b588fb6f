//! Writing BER elements.
use crate::asn1::{elements, Body, Element, StructureTag, TagClass, PL};
use crate::buffer::{append, buffered, contents, wipe, wiped};
use crate::error::Error;
use bytes::BytesMut;
use vstd::prelude::*;

verus! {

/// The shortest big-endian form of a number.
pub open spec fn be_octets(n: nat) -> Seq<u8>
    decreases n,
{
    if n < 256 {
        seq![n as u8]
    } else {
        be_octets(n / 256).push((n % 256) as u8)
    }
}

/// The shortest definite form of a length.
pub open spec fn length_octets(n: nat) -> Seq<u8> {
    if n < 128 {
        seq![n as u8]
    } else {
        seq![(128 + be_octets(n).len()) as u8] + be_octets(n)
    }
}

/// First byte of an element with a low tag number.
pub open spec fn type_octet(class: TagClass, constructed: bool, id: u64) -> u8 {
    (class.bits() * 64 + (if constructed {
        32nat
    } else {
        0
    }) + id as nat) as u8
}

/// The content octets of an element.
pub open spec fn content_octets(body: Body) -> Seq<u8>
    decreases body,
{
    match body {
        Body::Bytes(bytes) => bytes,
        Body::Children(children) => encode_all(children),
    }
}

/// The bytes of an element.
pub open spec fn encode(e: Element) -> Seq<u8>
    decreases e,
{
    seq![type_octet(e.class, e.body is Children, e.id)] + length_octets(
        content_octets(e.body).len(),
    ) + content_octets(e.body)
}

/// The bytes of several elements, one after the other.
pub open spec fn encode_all(es: Seq<Element>) -> Seq<u8>
    decreases es,
{
    if es.len() == 0 {
        Seq::empty()
    } else {
        encode(es[0]) + encode_all(es.drop_first())
    }
}

/// Every tag number in the element has the low form.
pub open spec fn encodable(e: Element) -> bool
    decreases e,
{
    e.id < 31 && match e.body {
        Body::Bytes(_) => true,
        Body::Children(children) => all_encodable(children),
    }
}

pub open spec fn all_encodable(es: Seq<Element>) -> bool
    decreases es,
{
    forall|i: int| 0 <= i < es.len() ==> encodable(#[trigger] es[i])
}

/// Whether the bytes of every primitive part of the element were erased where they had been held.
pub open spec fn erased(e: Element) -> bool
    decreases e,
{
    match e.body {
        Body::Bytes(bytes) => wiped(bytes),
        Body::Children(children) => all_erased(children),
    }
}

pub open spec fn all_erased(es: Seq<Element>) -> bool
    decreases es,
{
    forall|i: int| 0 <= i < es.len() ==> erased(#[trigger] es[i])
}

pub proof fn lemma_encode_all_push(es: Seq<Element>, e: Element)
    ensures
        encode_all(es.push(e)) == encode_all(es) + encode(e),
    decreases es.len(),
{
    reveal_with_fuel(encode_all, 2);
    if es.len() == 0 {
        assert(es.push(e).drop_first() =~= Seq::<Element>::empty());
        assert(encode_all(es.push(e)) =~= encode(e));
        assert(encode_all(es) + encode(e) =~= encode(e));
    } else {
        lemma_encode_all_push(es.drop_first(), e);
        assert(es.push(e).drop_first() =~= es.drop_first().push(e));
        assert(encode_all(es.push(e)) =~= encode_all(es) + encode(e));
    }
}

pub proof fn lemma_encode_all_append(a: Seq<Element>, b: Seq<Element>)
    ensures
        encode_all(a + b) == encode_all(a) + encode_all(b),
    decreases b.len(),
{
    if b.len() == 0 {
        assert(a + b =~= a);
        assert(encode_all(a) + encode_all(b) =~= encode_all(a));
    } else {
        let front = b.drop_last();
        lemma_encode_all_append(a, front);
        assert(a + b =~= (a + front).push(b.last()));
        assert(b =~= front.push(b.last()));
        lemma_encode_all_push(a + front, b.last());
        lemma_encode_all_push(front, b.last());
        assert((encode_all(a) + encode_all(front)) + encode(b.last()) =~= encode_all(a) + (
        encode_all(front) + encode(b.last())));
    }
}

/// Number of bytes in the shortest big-endian form.
pub proof fn lemma_be_octets_len(n: nat)
    requires
        n <= u64::MAX,
    ensures
        1 <= be_octets(n).len() <= 8,
{
    reveal_with_fuel(be_octets, 9);
}

fn big_endian(n: usize) -> (r: Vec<u8>)
    ensures
        r@ == be_octets(n as nat),
    decreases n,
{
    if n < 256 {
        let mut octets: Vec<u8> = Vec::new();
        octets.push(n as u8);
        assert(octets@ =~= be_octets(n as nat));
        octets
    } else {
        let mut octets = big_endian(n / 256);
        octets.push((n % 256) as u8);
        octets
    }
}

/// Number of octets in the shortest definite form of a length.
pub fn length_size(n: usize) -> (r: usize)
    ensures
        r == length_octets(n as nat).len(),
        1 <= r <= 9,
{
    proof {
        lemma_be_octets_len(n as nat);
    }
    if n < 128 {
        1
    } else {
        let octets = big_endian(n);
        1 + octets.len()
    }
}

/// Number of bytes that an element with so many content octets takes, if that can be counted.
pub fn element_size(content: usize) -> (r: Option<usize>)
    ensures
        ({
            let size = 1 + length_octets(content as nat).len() + content;
            r == if size <= usize::MAX {
                Some(size as usize)
            } else {
                None
            }
        }),
{
    let header: usize = 1 + length_size(content);
    header.checked_add(content)
}

/// Number of bytes that the element takes.
pub fn encoded_len(tag: &StructureTag) -> (r: Result<usize, Error>)
    ensures
        match r {
            Ok(n) => encodable(tag@) && n == encode(tag@).len(),
            Err(e) => e == Error::LimitExceeded && !(encodable(tag@) && encode(tag@).len()
                <= usize::MAX),
        },
    decreases tag,
{
    if tag.id >= 31 {
        return Err(Error::LimitExceeded);
    }
    let content: usize = match &tag.payload {
        PL::P(bytes) => bytes.len(),
        PL::C(children) => {
            assert(decreases_to!(tag.payload => tag.payload->C_0));
            match encoded_len_all(children) {
                Ok(n) => n,
                Err(e) => return Err(e),
            }
        },
    };
    match element_size(content) {
        Some(size) => Ok(size),
        None => Err(Error::LimitExceeded),
    }
}

/// Number of bytes that the elements take together.
pub fn encoded_len_all(tags: &Vec<StructureTag>) -> (r: Result<usize, Error>)
    ensures
        match r {
            Ok(n) => all_encodable(elements(tags@)) && n == encode_all(elements(tags@)).len(),
            Err(e) => e == Error::LimitExceeded && !(all_encodable(elements(tags@))
                && encode_all(elements(tags@)).len() <= usize::MAX),
        },
    decreases tags,
{
    let mut total: usize = 0;
    let n: usize = tags.len();
    let ghost es = elements(tags@);
    assert(es.take(0) =~= Seq::<Element>::empty());
    for k in 0..n
        invariant
            n == tags@.len(),
            es == elements(tags@),
            all_encodable(es.take(k as int)),
            total == encode_all(es.take(k as int)).len(),
    {
        assert(decreases_to!(tags => tags@));
        assert(decreases_to!(tags@ => tags@[k as int]));
        let size = encoded_len(&tags[k]);
        proof {
            assert(es.take(k + 1) =~= es.take(k as int).push(es[k as int]));
            lemma_encode_all_push(es.take(k as int), es[k as int]);
            lemma_encode_all_append(es.take(k + 1), es.skip(k + 1));
            assert(es.take(k + 1) + es.skip(k + 1) =~= es);
        }
        match size {
            Ok(size) => match total.checked_add(size) {
                Some(sum) => total = sum,
                None => return Err(Error::LimitExceeded),
            },
            Err(e) => return Err(e),
        }
    }
    assert(es.take(n as int) =~= es);
    Ok(total)
}

fn write_header(buf: &mut BytesMut, class: TagClass, constructed: bool, id: u64, length: usize)
    requires
        id < 31,
        buffered(old(buf)).len() + 1 + length_octets(length as nat).len() <= isize::MAX,
    ensures
        buffered(final(buf)) == buffered(old(buf)) + (seq![type_octet(class, constructed, id)]
            + length_octets(length as nat)),
{
    let first: u8 = class.to_u8() * 64 + (if constructed {
        32u8
    } else {
        0
    }) + id as u8;
    let mut header: Vec<u8> = Vec::new();
    header.push(first);
    proof {
        lemma_be_octets_len(length as nat);
    }
    if length < 128 {
        header.push(length as u8);
    } else {
        let mut octets = big_endian(length);
        header.push(128 + octets.len() as u8);
        header.append(&mut octets);
    }
    assert(header@ =~= seq![type_octet(class, constructed, id)] + length_octets(length as nat));
    append(buf, header.as_slice());
}

/// Writes one element, and erases the bytes of its primitive parts.
fn write_element(buf: &mut BytesMut, tag: StructureTag)
    requires
        encodable(tag@),
        buffered(old(buf)).len() + encode(tag@).len() <= isize::MAX,
    ensures
        buffered(final(buf)) == buffered(old(buf)) + encode(tag@),
        erased(tag@),
    decreases tag,
{
    let ghost before = buffered(buf);
    match tag.payload {
        PL::P(bytes) => {
            write_header(buf, tag.class, false, tag.id, bytes.len());
            append(buf, bytes.as_slice());
            wipe(bytes);
        },
        PL::C(children) => {
            assert(decreases_to!(tag.payload => tag.payload->C_0));
            if let Ok(length) = encoded_len_all(&children) {
                write_header(buf, tag.class, true, tag.id, length);
                write_elements(buf, children);
            }
        },
    }
    assert(buffered(buf) =~= before + encode(tag@));
}

fn write_elements(buf: &mut BytesMut, tags: Vec<StructureTag>)
    requires
        all_encodable(elements(tags@)),
        buffered(old(buf)).len() + encode_all(elements(tags@)).len() <= isize::MAX,
    ensures
        buffered(final(buf)) == buffered(old(buf)) + encode_all(elements(tags@)),
        all_erased(elements(tags@)),
    decreases tags,
{
    let ghost before = buffered(buf);
    let ghost es = elements(tags@);
    assert(es.take(0) =~= Seq::<Element>::empty());
    assert(before + encode_all(es.take(0)) =~= before);
    for tag in it: tags.into_iter()
        invariant
            it.seq() == tags@,
            es == elements(tags@),
            all_encodable(es),
            before.len() + encode_all(es).len() <= isize::MAX,
            buffered(buf) == before + encode_all(es.take(it.index() as int)),
            forall|i: int| 0 <= i < it.index() ==> erased(#[trigger] es[i]),
    {
        let ghost k = it.index() as int;
        proof {
            assert(decreases_to!(tags => tags@));
            assert(decreases_to!(tags@ => tags@[k]));
            assert(tag@ == es[k]);
            assert(es.take(k + 1) =~= es.take(k).push(es[k]));
            lemma_encode_all_push(es.take(k), es[k]);
            lemma_encode_all_append(es.take(k + 1), es.skip(k + 1));
            assert(es.take(k + 1) + es.skip(k + 1) =~= es);
        }
        write_element(buf, tag);
        assert(buffered(buf) =~= before + encode_all(es.take(k + 1)));
    }
    assert(es.take(es.len() as int) =~= es);
}

/// Appends the element to the buffer.
pub fn encode_into(buf: &mut BytesMut, tag: StructureTag) -> (r: Result<(), Error>)
    ensures
        if encodable(tag@) && buffered(old(buf)).len() + encode(tag@).len() <= isize::MAX {
            r is Ok && buffered(final(buf)) == buffered(old(buf)) + encode(tag@) && erased(tag@)
        } else {
            r == Err::<(), Error>(Error::LimitExceeded) && *final(buf) == *old(buf)
        },
{
    let held: usize = contents(buf).len();
    match encoded_len(&tag) {
        Ok(size) => match held.checked_add(size) {
            Some(total) => {
                if total > isize::MAX as usize {
                    return Err(Error::LimitExceeded);
                }
                write_element(buf, tag);
                Ok(())
            },
            None => Err(Error::LimitExceeded),
        },
        Err(e) => Err(e),
    }
}

} // verus!
