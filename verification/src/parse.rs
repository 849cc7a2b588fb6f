//! Reading BER elements under limits on depth, number of nodes and memory.
use crate::asn1::{
    be_value, constructed, elements, lemma_elements_push, primitive, Element, StructureTag,
    TagClass, TagStructure, PL,
};
use vstd::arithmetic::power::pow;
use vstd::prelude::*;
use vstd::slice::{slice_subrange, slice_to_vec};

verus! {

/// How many more bytes an element needs.
#[derive(Clone, Copy, Debug, PartialEq, Eq, Structural)]
pub enum Needed {
    Unknown,
    Size(usize),
}

/// What is wrong with bytes that no continuation can mend.
#[derive(Clone, Copy, Debug, PartialEq, Eq, Structural)]
pub enum FailureKind {
    /// A length has no supported form.
    LengthValue,
    /// A number, or the element as a whole, is beyond what is admitted.
    TooLarge,
}

/// Why no element was read.
#[derive(Clone, Copy, Debug, PartialEq, Eq, Structural)]
pub enum BerError {
    Incomplete(Needed),
    Failure(FailureKind),
}

pub open spec fn too_large<T>() -> Result<T, BerError> {
    Err(BerError::Failure(FailureKind::TooLarge))
}

pub open spec fn short_of<T>(missing: int) -> Result<T, BerError> {
    Err(BerError::Incomplete(Needed::Size(missing as usize)))
}

/// Class, structure and number that the first byte of an element gives.
pub open spec fn type_header(i: Seq<u8>) -> Result<(TagClass, TagStructure, u64), BerError> {
    if i.len() == 0 {
        short_of(1)
    } else {
        Ok(
            (
                TagClass::of_bits((i[0] / 64) as nat)->0,
                if i[0] / 32 % 2 == 0 {
                    TagStructure::Primitive
                } else {
                    TagStructure::Constructed
                },
                (i[0] % 32) as u64,
            ),
        )
    }
}

/// Number of length octets and the length that they give.
pub open spec fn length_header(i: Seq<u8>) -> Result<(nat, nat), BerError> {
    if i.len() == 0 {
        short_of(1)
    } else if i[0] < 128 {
        Ok((1, i[0] as nat))
    } else {
        let n = i[0] - 128;
        if n == 0 || n > 8 {
            Err(BerError::Failure(FailureKind::LengthValue))
        } else if i.len() < 1 + n {
            short_of(1 + n - i.len())
        } else {
            let length = be_value(i.subrange(1, 1 + n));
            if length > usize::MAX {
                too_large()
            } else {
                Ok(((1 + n) as nat, length))
            }
        }
    }
}

/// What may still be spent: nodes, and bytes of memory.
pub type Budget = (nat, nat);

/// Memory that is charged for each node, besides the bytes in it.
pub open spec fn node_cost() -> nat {
    2 * vstd::layout::size_of::<StructureTag>()
}

/// The element at the start of the input, the number of bytes it takes and what is left of the
/// budget.
pub open spec fn element_at(i: Seq<u8>, depth: nat, budget: Budget) -> Result<
    (nat, Element, Budget),
    BerError,
>
    decreases depth, i.len(), 0nat,
{
    if depth == 0 || budget.0 < 1 || budget.1 < node_cost() {
        too_large()
    } else {
        match type_header(i) {
            Err(e) => Err(e),
            Ok((class, structure, id)) => match length_header(i.skip(1)) {
                Err(e) => Err(e),
                Ok((used, length)) => {
                    let start = (1 + used) as int;
                    let left = ((budget.0 - 1) as nat, (budget.1 - node_cost()) as nat);
                    if id == 31 {
                        too_large()
                    } else if i.len() - start < length {
                        short_of(length - (i.len() - start))
                    } else {
                        let content = i.subrange(start, start + length);
                        match structure {
                            TagStructure::Primitive => if left.1 < length {
                                too_large()
                            } else {
                                Ok(
                                    (
                                        (start + length) as nat,
                                        primitive(class, id, content),
                                        (left.0, (left.1 - length) as nat),
                                    ),
                                )
                            },
                            TagStructure::Constructed => match elements_of(
                                content,
                                (depth - 1) as nat,
                                left,
                            ) {
                                Err(e) => Err(e),
                                Ok((children, rest)) => Ok(
                                    (
                                        (start + length) as nat,
                                        constructed(class, id, children),
                                        rest,
                                    ),
                                ),
                            },
                        }
                    }
                },
            },
        }
    }
}

/// The elements that make up the whole input, and what is left of the budget.
pub open spec fn elements_of(content: Seq<u8>, depth: nat, budget: Budget) -> Result<
    (Seq<Element>, Budget),
    BerError,
>
    decreases depth, content.len(), 1nat,
{
    if content.len() == 0 {
        Ok((Seq::empty(), budget))
    } else {
        match element_at(content, depth, budget) {
            Err(e) => Err(e),
            Ok((used, first, left)) => if used == 0 || used > content.len() {
                too_large()
            } else {
                after(seq![first], elements_of(content.skip(used as int), depth, left))
            },
        }
    }
}

/// The outcome of a list, with more elements in front.
pub open spec fn after(
    front: Seq<Element>,
    list: Result<(Seq<Element>, Budget), BerError>,
) -> Result<(Seq<Element>, Budget), BerError> {
    match list {
        Err(e) => Err(e),
        Ok((children, left)) => Ok((front + children, left)),
    }
}

/// Big-endian bytes stand for less than the power of their number.
pub proof fn lemma_be_value_bound(bytes: Seq<u8>)
    ensures
        be_value(bytes) < pow(256, bytes.len()),
    decreases bytes.len(),
{
    reveal(pow);
    if bytes.len() > 0 {
        lemma_be_value_bound(bytes.drop_last());
    }
}

proof fn lemma_pow_small(n: nat)
    requires
        n <= 8,
    ensures
        pow(256, n) <= 0x1_0000_0000_0000_0000,
        n <= 7 ==> pow(256, n) <= 0x100_0000_0000_0000,
        n <= 4 ==> pow(256, n) <= 0x1_0000_0000,
{
    reveal_with_fuel(pow, 9);
}

/// Extract an unsigned integer value from BER data.
pub fn parse_uint(i: &[u8]) -> (r: Result<(&[u8], u64), BerError>)
    ensures
        if 1 <= i@.len() <= 8 {
            r matches Ok((rest, v)) && rest@ == i@ && v == be_value(i@)
        } else {
            r == too_large::<(&[u8], u64)>()
        },
{
    if i.len() == 0 || i.len() > 8 {
        return Err(BerError::Failure(FailureKind::TooLarge));
    }
    let mut value: u64 = 0;
    let n: usize = i.len();
    for k in 0..n
        invariant
            n == i@.len(),
            n <= 8,
            value == be_value(i@.take(k as int)),
    {
        proof {
            lemma_be_value_bound(i@.take(k as int));
            lemma_pow_small(k as nat);
            assert(i@.take(k + 1).drop_last() =~= i@.take(k as int));
        }
        value = value * 256 + i[k] as u64;
    }
    assert(i@.take(n as int) =~= i@);
    Ok((i, value))
}

fn parse_type_header(i: &[u8]) -> (r: Result<
    (&[u8], (TagClass, TagStructure, u64)),
    BerError,
>)
    ensures
        match type_header(i@) {
            Err(e) => r == Err::<(&[u8], (TagClass, TagStructure, u64)), BerError>(e),
            Ok(h) => r matches Ok((rest, header)) && rest@ == i@.skip(1) && header == h,
        },
{
    if i.len() == 0 {
        return Err(BerError::Incomplete(Needed::Size(1)));
    }
    let byte: u8 = i[0];
    let class = TagClass::from_u8(byte / 64);
    let structure = if byte / 32 % 2 == 0 {
        TagStructure::Primitive
    } else {
        TagStructure::Constructed
    };
    let rest = slice_subrange(i, 1, i.len());
    assert(i@.subrange(1, i@.len() as int) =~= i@.skip(1));
    match class {
        Some(class) => Ok((rest, (class, structure, (byte % 32) as u64))),
        None => Err(BerError::Failure(FailureKind::TooLarge)),
    }
}

fn parse_length(i: &[u8]) -> (r: Result<(&[u8], usize), BerError>)
    ensures
        match length_header(i@) {
            Err(e) => r == Err::<(&[u8], usize), BerError>(e),
            Ok((used, length)) => r matches Ok((rest, len)) && rest@ == i@.skip(used as int)
                && len == length && used <= i@.len(),
        },
{
    if i.len() == 0 {
        return Err(BerError::Incomplete(Needed::Size(1)));
    }
    let first: u8 = i[0];
    if first < 128 {
        let rest = slice_subrange(i, 1, i.len());
        assert(i@.subrange(1, i@.len() as int) =~= i@.skip(1));
        return Ok((rest, first as usize));
    }
    let n: usize = (first - 128) as usize;
    if n == 0 || n > 8 {
        return Err(BerError::Failure(FailureKind::LengthValue));
    }
    if i.len() < 1 + n {
        return Err(BerError::Incomplete(Needed::Size(1 + n - i.len())));
    }
    let octets = slice_subrange(i, 1, 1 + n);
    let rest = slice_subrange(i, 1 + n, i.len());
    assert(i@.subrange(1 + n, i@.len() as int) =~= i@.skip(1 + n));
    match parse_uint(octets) {
        Err(e) => Err(e),
        Ok((_, length)) => if length > usize::MAX as u64 {
            Err(BerError::Failure(FailureKind::TooLarge))
        } else {
            Ok((rest, length as usize))
        },
    }
}

/// Parse raw BER data into a serializable structure.
pub fn parse_tag(i: &[u8]) -> (r: Result<(&[u8], StructureTag), BerError>)
    ensures
        outcome(i@, r, element_at(i@, 64, (65536, 67108864))),
{
    parse_tag_limited(i, 64, 65536, 64 * 1024 * 1024)
}

/// Whether a result says what the model says of the same input.
pub open spec fn outcome(
    i: Seq<u8>,
    r: Result<(&[u8], StructureTag), BerError>,
    model: Result<(nat, Element, Budget), BerError>,
) -> bool {
    match model {
        Err(e) => r == Err::<(&[u8], StructureTag), BerError>(e),
        Ok((used, element, _)) => r matches Ok((rest, tag)) && used <= i.len() && rest@ == i.skip(
            used as int,
        ) && tag@ == element,
    }
}

/// The same BER parser with explicit recursion, node and allocation admission.
/// Collection growth is conservatively charged before creating each node.
pub fn parse_tag_limited(i: &[u8], depth: usize, nodes: usize, memory: usize) -> (r: Result<
    (&[u8], StructureTag),
    BerError,
>)
    ensures
        outcome(i@, r, element_at(i@, depth as nat, (nodes as nat, memory as nat))),
{
    let mut budget: (usize, usize) = (nodes, memory);
    parse_bounded(i, depth, &mut budget)
}

pub open spec fn budget_of(b: (usize, usize)) -> Budget {
    (b.0 as nat, b.1 as nat)
}

#[verifier::rlimit(30)]
fn parse_bounded<'a>(i: &'a [u8], depth: usize, budget: &mut (usize, usize)) -> (r: Result<
    (&'a [u8], StructureTag),
    BerError,
>)
    ensures
        outcome(i@, r, element_at(i@, depth as nat, budget_of(*old(budget)))),
        r is Ok ==> element_at(i@, depth as nat, budget_of(*old(budget)))->Ok_0.2 == budget_of(
            *final(budget),
        ),
        r is Ok ==> r->Ok_0.0@.len() < i@.len(),
    decreases depth,
{
    vstd::layout::layout_for_type_is_valid::<StructureTag>();
    if depth == 0 {
        return Err(BerError::Failure(FailureKind::TooLarge));
    }
    if budget.0 < 1 {
        return Err(BerError::Failure(FailureKind::TooLarge));
    }
    let cost: usize = 2 * core::mem::size_of::<StructureTag>();
    if budget.1 < cost {
        return Err(BerError::Failure(FailureKind::TooLarge));
    }
    budget.0 = budget.0 - 1;
    budget.1 = budget.1 - cost;
    let (j, (class, structure, id)) = match parse_type_header(i) {
        Ok(header) => header,
        Err(e) => return Err(e),
    };
    let (k, len) = match parse_length(j) {
        Ok(length) => length,
        Err(e) => return Err(e),
    };
    // This LDAP BER implementation supports low-tag-number forms only.
    if id == 31 {
        return Err(BerError::Failure(FailureKind::TooLarge));
    }
    if k.len() < len {
        return Err(BerError::Incomplete(Needed::Size(len - k.len())));
    }
    let content = slice_subrange(k, 0, len);
    let rest = slice_subrange(k, len, k.len());
    let ghost used = length_header(i@.skip(1))->Ok_0.0;
    proof {
        assert(content@ =~= i@.subrange(1 + used as int, 1 + used + len));
        assert(rest@ =~= i@.skip((1 + used + len) as int));
    }
    match structure {
        TagStructure::Primitive => {
            if budget.1 < content.len() {
                return Err(BerError::Failure(FailureKind::TooLarge));
            }
            budget.1 = budget.1 - content.len();
            Ok((rest, StructureTag { class, id, payload: PL::P(slice_to_vec(content)) }))
        },
        TagStructure::Constructed => {
            let ghost whole = content@;
            let ghost start = budget_of(*budget);
            let ghost inner = (depth - 1) as nat;
            let mut content = content;
            let mut tags: Vec<StructureTag> = Vec::new();
            assert(after(Seq::empty(), elements_of(whole, inner, start)) == elements_of(
                whole,
                inner,
                start,
            )) by {
                match elements_of(whole, inner, start) {
                    Ok((s, b)) => {
                        assert(Seq::<Element>::empty() + s =~= s);
                    },
                    Err(_) => {},
                }
            }
            assert(elements(tags@) =~= Seq::empty());
            while content.len() > 0
                invariant
                    depth > 0,
                    inner == depth - 1,
                    elements_of(whole, inner, start) matches Err(e) ==> element_at(
                        i@,
                        depth as nat,
                        budget_of(*old(budget)),
                    ) == Err::<(nat, Element, Budget), BerError>(e),
                    elements_of(whole, inner, start) == after(
                        elements(tags@),
                        elements_of(content@, inner, budget_of(*budget)),
                    ),
                decreases content@.len(),
            {
                let ghost before = budget_of(*budget);
                let ghost front = elements(tags@);
                let (tail, tag) = match parse_bounded(content, depth - 1, budget) {
                    Ok(parsed) => parsed,
                    Err(e) => {
                        return Err(e);
                    },
                };
                proof {
                    lemma_elements_push(tags@, tag);
                    let more = elements_of(tail@, inner, budget_of(*budget));
                    match more {
                        Ok((s, b)) => {
                            assert(front + (seq![tag@] + s) =~= front.push(tag@) + s);
                        },
                        Err(_) => {},
                    }
                }
                content = tail;
                tags.push(tag);
            }
            assert(elements(tags@) + Seq::<Element>::empty() =~= elements(tags@));
            Ok((rest, StructureTag { class, id, payload: PL::C(tags) }))
        },
    }
}

/// Reader for input that may still be empty.
pub struct Parser;

impl Parser {
    pub fn new() -> Self {
        Self
    }

    pub fn parse<'a>(&mut self, input: &'a [u8]) -> (r: Result<
        (&'a [u8], StructureTag),
        BerError,
    >)
        ensures
            if input@.len() == 0 {
                r == Err::<(&'a [u8], StructureTag), BerError>(
                    BerError::Incomplete(Needed::Unknown),
                )
            } else {
                outcome(input@, r, element_at(input@, 64, (65536, 67108864)))
            },
    {
        if input.len() == 0 {
            return Err(BerError::Incomplete(Needed::Unknown));
        }
        parse_tag(input)
    }
}

impl Default for Parser {
    fn default() -> Self {
        Self::new()
    }
}

} // verus!
