//! Search filters in their textual form.
use crate::ascii::{
    AMPERSAND, ASTERISK, BACKSLASH, BAR, COLON, DIGIT_0, DIGIT_9, DOT, EQUALS, EXCLAMATION, GREATER,
    HYPHEN, LESS, LOWER_A, LOWER_D, LOWER_F, LOWER_N, LOWER_Z, PAREN_CLOSE, PAREN_OPEN, SEMICOLON,
    TILDE, UPPER_A, UPPER_F, UPPER_Z,
};
use crate::asn1::{
    bool_octets, constructed, each_bytes, lemma_tag_elements_push, maybe_bytes, octets_element,
    optional_part, primitive, tag_elements, Boolean, Element, ExplicitTag, OctetString, Sequence,
    Tag, TagClass, OCTET_STRING, SEQUENCE,
};
use crate::filter_grammar::{
    alphabetic, assertion_element, attr_dn_mrule_at, closed_by_parenthesis, component_at,
    conjunction_element, descr_len, description_len, digit, disjunction_element, dn_at, dn_mrule_at,
    dotted_len, eq_at, extensible_element, filter_at, filters_at, filtexpr_at, hex, item_at,
    lemma_filter_consumes, lemma_item_consumes, maybe_slice, mv_filtexpr_at, mv_item_at,
    mv_items_at, negation_element, non_eq_at, number_len, oid_len, options_len, prefixed,
    presence_element, rule_at, separated, sign_at, span, star_parts, strip, substring_element,
    type_len, unescape, value_at, CharClass, Parsed,
};
use vstd::prelude::*;
use vstd::slice::{slice_subrange, slice_to_vec};

verus! {

const AND_FILT: u64 = 0;

const OR_FILT: u64 = 1;

const NOT_FILT: u64 = 2;

const SUBSTR_MATCH: u64 = 4;

const PRES_MATCH: u64 = 7;

const EXT_MATCH: u64 = 9;

const SUB_INITIAL: u64 = 0;

const SUB_ANY: u64 = 1;

const SUB_FINAL: u64 = 2;

fn is_value_char(c: u8) -> (r: bool)
    ensures
        r == CharClass::Value.has(c),
{
    c != 0 && c != PAREN_OPEN && c != PAREN_CLOSE && c != ASTERISK
}

fn is_alphabetic(c: u8) -> (r: bool)
    ensures
        r == alphabetic(c),
{
    (UPPER_A <= c && c <= UPPER_Z) || (LOWER_A <= c && c <= LOWER_Z)
}

fn is_digit(c: u8) -> (r: bool)
    ensures
        r == digit(c),
{
    DIGIT_0 <= c && c <= DIGIT_9
}

fn is_alnum_hyphen(c: u8) -> (r: bool)
    ensures
        r == CharClass::Keyword.has(c),
{
    is_alphabetic(c) || is_digit(c) || c == HYPHEN
}

fn in_class(class: CharClass, c: u8) -> (r: bool)
    ensures
        r == class.has(c),
{
    match class {
        CharClass::Digit => is_digit(c),
        CharClass::Keyword => is_alnum_hyphen(c),
        CharClass::Value => is_value_char(c),
    }
}

fn run(i: &[u8], class: CharClass) -> (r: usize)
    ensures
        r == span(i@, class),
        r <= i@.len(),
{
    let mut n: usize = 0;
    assert(i@.skip(0) =~= i@);
    while n < i.len() && in_class(class, i[n])
        invariant
            n <= i@.len(),
            span(i@, class) == n + span(i@.skip(n as int), class),
        decreases i@.len() - n,
    {
        assert(i@.skip(n as int).skip(1) =~= i@.skip(n + 1));
        n = n + 1;
    }
    n
}

fn rest(i: &[u8], n: usize) -> (r: &[u8])
    requires
        n <= i@.len(),
    ensures
        r@ == i@.skip(n as int),
{
    let r = slice_subrange(i, n, i.len());
    assert(r@ =~= i@.skip(n as int));
    r
}

// A number may be zero, but must not have superfluous leading zeroes
fn number(i: &[u8]) -> (r: usize)
    ensures
        r == number_len(i@),
        r <= i@.len(),
{
    let n: usize = run(i, CharClass::Digit);
    if n > 1 && i[0] == DIGIT_0 {
        0
    } else {
        n
    }
}

fn numericoid(i: &[u8]) -> (r: usize)
    ensures
        r == oid_len(i@),
        r <= i@.len(),
{
    let first: usize = number(i);
    if first == 0 {
        return 0;
    }
    let mut n: usize = first;
    loop
        invariant
            0 < n <= i@.len(),
            oid_len(i@) == n + dotted_len(i@.skip(n as int)),
        ensures
            n == oid_len(i@),
            n <= i@.len(),
        decreases i@.len() - n,
    {
        if n == i.len() || i[n] != DOT {
            break;
        }
        let more: usize = number(rest(i, n + 1));
        assert(i@.skip(n as int).skip(1) =~= i@.skip(n + 1));
        if more == 0 {
            break;
        }
        assert(i@.skip(n as int).skip(1 + more as int) =~= i@.skip(n + 1 + more));
        n = n + 1 + more;
    }
    n
}

fn descr(i: &[u8]) -> (r: usize)
    ensures
        r == descr_len(i@),
        r <= i@.len(),
{
    if i.len() == 0 || !is_alphabetic(i[0]) {
        return 0;
    }
    1 + run(rest(i, 1), CharClass::Keyword)
}

fn attributetype(i: &[u8]) -> (r: usize)
    ensures
        r == type_len(i@),
        r <= i@.len(),
{
    let oid: usize = numericoid(i);
    if oid > 0 {
        oid
    } else {
        descr(i)
    }
}

fn attributedescription(i: &[u8]) -> (r: usize)
    ensures
        r == description_len(i@),
        r <= i@.len(),
{
    let name: usize = attributetype(i);
    if name == 0 {
        return 0;
    }
    let mut n: usize = name;
    loop
        invariant
            0 < n <= i@.len(),
            description_len(i@) == n + options_len(i@.skip(n as int)),
        ensures
            n == description_len(i@),
            n <= i@.len(),
        decreases i@.len() - n,
    {
        if n == i.len() || i[n] != SEMICOLON {
            break;
        }
        let more: usize = run(rest(i, n + 1), CharClass::Keyword);
        assert(i@.skip(n as int).skip(1) =~= i@.skip(n + 1));
        if more == 0 {
            break;
        }
        assert(i@.skip(n as int).skip(1 + more as int) =~= i@.skip(n + 1 + more));
        n = n + 1 + more;
    }
    n
}

/// Reads a value character by character.
#[derive(Clone, Copy, Debug, PartialEq, Eq, Structural)]
pub(crate) enum Unescaper {
    WantFirst,
    WantSecond(u8),
    Value(u8),
    Error,
}

fn hex_digit(c: u8) -> (r: Option<u8>)
    ensures
        match hex(c) {
            Some(v) => r == Some(v as u8) && 0 <= v < 16,
            None => r is None,
        },
{
    if DIGIT_0 <= c && c <= DIGIT_9 {
        Some(c - DIGIT_0)
    } else if UPPER_A <= c && c <= UPPER_F {
        Some(c - UPPER_A + 10)
    } else if LOWER_A <= c && c <= LOWER_F {
        Some(c - LOWER_A + 10)
    } else {
        None
    }
}

impl Unescaper {
    /// The state after one more character.
    pub(crate) open spec fn fed(self, c: u8) -> Unescaper {
        match self {
            Unescaper::Error => Unescaper::Error,
            Unescaper::WantFirst => match hex(c) {
                Some(v) => Unescaper::WantSecond(v as u8),
                None => Unescaper::Error,
            },
            Unescaper::WantSecond(partial) => match hex(c) {
                Some(v) => Unescaper::Value((partial % 16 * 16 + v) as u8),
                None => Unescaper::Error,
            },
            Unescaper::Value(_) => if c == BACKSLASH {
                Unescaper::WantFirst
            } else {
                Unescaper::Value(c)
            },
        }
    }

    /// What the rest of the text adds to the value.
    pub(crate) open spec fn completes(self, s: Seq<u8>) -> Option<Seq<u8>> {
        match self {
            Unescaper::Error => None,
            Unescaper::Value(_) => unescape(s),
            Unescaper::WantFirst => if s.len() >= 2 && hex(s[0]) is Some && hex(s[1]) is Some {
                prefixed((hex(s[0])->0 * 16 + hex(s[1])->0) as u8, unescape(s.skip(2)))
            } else {
                None
            },
            Unescaper::WantSecond(partial) => if s.len() >= 1 && hex(s[0]) is Some {
                prefixed((partial % 16 * 16 + hex(s[0])->0) as u8, unescape(s.skip(1)))
            } else {
                None
            },
        }
    }

    pub(crate) fn feed(&self, c: u8) -> (r: Unescaper)
        ensures
            r == self.fed(c),
    {
        match *self {
            Unescaper::Error => Unescaper::Error,
            Unescaper::WantFirst => match hex_digit(c) {
                Some(v) => Unescaper::WantSecond(v),
                None => Unescaper::Error,
            },
            Unescaper::WantSecond(partial) => match hex_digit(c) {
                Some(v) => Unescaper::Value(partial % 16 * 16 + v),
                None => Unescaper::Error,
            },
            Unescaper::Value(_) => if c != BACKSLASH {
                Unescaper::Value(c)
            } else {
                Unescaper::WantFirst
            },
        }
    }
}

// Any byte in the assertion value may be represented by \NN, where N is a hex digit.
// Some characters must be represented in this way: parentheses, asterisk and backslash
// itself.
fn unescaped(i: &[u8]) -> (r: Option<(&[u8], Vec<u8>)>)
    ensures
        match value_at(i@) {
            Some((value, after)) => r matches Some((left, v)) && left@ == after && v@ == value
                && after.len() <= i@.len(),
            None => r is None,
        },
{
    let n: usize = run(i, CharClass::Value);
    let text = slice_subrange(i, 0, n);
    assert(text@ =~= i@.take(n as int));
    let mut state = Unescaper::Value(0);
    let mut value: Vec<u8> = Vec::new();
    assert(text@.skip(0) =~= text@);
    assert(prepended(value@, unescape(text@)) == unescape(text@)) by {
        if let Some(s) = unescape(text@) {
            assert(value@ + s =~= s);
        }
    }
    for k in 0..n
        invariant
            n == text@.len(),
            unescape(text@) == prepended(value@, state.completes(text@.skip(k as int))),
    {
        let ghost left = text@.skip(k as int);
        let ghost next = text@.skip(k + 1);
        let ghost before = value@;
        let ghost from = state;
        let c: u8 = text[k];
        assert(left[0] == c);
        assert(left.skip(1) =~= next);
        state = state.feed(c);
        if let Unescaper::Value(c) = state {
            value.push(c);
        }
        proof {
            lemma_prepended(before, from, state, left, value@);
        }
    }
    assert(text@.skip(n as int) =~= Seq::<u8>::empty());
    assert(value@ + Seq::<u8>::empty() =~= value@);
    match state {
        Unescaper::Value(_) => Some((rest(i, n), value)),
        _ => None,
    }
}

pub open spec fn prepended(front: Seq<u8>, s: Option<Seq<u8>>) -> Option<Seq<u8>> {
    match s {
        Some(s) => Some(front + s),
        None => None,
    }
}

proof fn lemma_prepended(
    before: Seq<u8>,
    from: Unescaper,
    to: Unescaper,
    left: Seq<u8>,
    after: Seq<u8>,
)
    requires
        left.len() > 0,
        to == from.fed(left[0]),
        after == (match to {
            Unescaper::Value(c) => before.push(c),
            _ => before,
        }),
    ensures
        prepended(before, from.completes(left)) == prepended(after, to.completes(left.skip(1))),
{
    let next = left.skip(1);
    if left.len() >= 2 {
        assert(left[1] == next[0]);
        assert(left.skip(2) =~= next.skip(1));
    }
    if left.len() >= 3 {
        assert(left[2] == next[1]);
        assert(left.skip(3) =~= next.skip(2));
    }
    match to {
        Unescaper::Value(c) => {
            assert(from.completes(left) == prefixed(c, unescape(next)));
            if let Some(s) = unescape(next) {
                assert(before + (seq![c] + s) =~= before.push(c) + s);
            }
        },
        _ => {},
    }
}

/// Ways of comparing an attribute with a value.
#[derive(Clone, Copy, Debug, PartialEq, Eq, Structural)]
pub enum Comparison {
    Equal,
    GreaterOrEqual,
    LessOrEqual,
    Approximate,
}

impl Comparison {
    pub open spec fn number(self) -> u64 {
        match self {
            Comparison::Equal => 3,
            Comparison::GreaterOrEqual => 5,
            Comparison::LessOrEqual => 6,
            Comparison::Approximate => 8,
        }
    }

    /// Tag number of the filter.
    pub fn id(self) -> (r: u64)
        ensures
            r == self.number(),
    {
        match self {
            Comparison::Equal => 3,
            Comparison::GreaterOrEqual => 5,
            Comparison::LessOrEqual => 6,
            Comparison::Approximate => 8,
        }
    }
}

pub fn conjunction(tags: Vec<Tag>) -> (r: Tag)
    ensures
        r@ == conjunction_element(tag_elements(tags@)),
{
    Tag::Sequence(Sequence { class: TagClass::Context, id: AND_FILT, inner: tags })
}

pub fn disjunction(tags: Vec<Tag>) -> (r: Tag)
    ensures
        r@ == disjunction_element(tag_elements(tags@)),
{
    Tag::Sequence(Sequence { class: TagClass::Context, id: OR_FILT, inner: tags })
}

pub fn negation(tag: Tag) -> (r: Tag)
    ensures
        r@ == negation_element(tag@),
{
    Tag::ExplicitTag(
        ExplicitTag { class: TagClass::Context, id: NOT_FILT, inner: Box::new(tag) },
    )
}

fn octet_string(bytes: Vec<u8>) -> (r: Tag)
    ensures
        r@ == octets_element(bytes@),
{
    Tag::OctetString(OctetString { class: TagClass::Universal, id: OCTET_STRING, inner: bytes })
}

fn part(id: u64, bytes: Vec<u8>) -> (r: Tag)
    ensures
        r@ == primitive(TagClass::Context, id, bytes@),
{
    Tag::OctetString(OctetString { class: TagClass::Context, id, inner: bytes })
}

pub fn assertion(kind: Comparison, attribute: Vec<u8>, value: Vec<u8>) -> (r: Tag)
    ensures
        r@ == assertion_element(kind, attribute@, value@),
{
    let mut inner: Vec<Tag> = Vec::new();
    inner.push(octet_string(attribute));
    inner.push(octet_string(value));
    assert(tag_elements(inner@) =~= seq![octets_element(attribute@), octets_element(value@)]);
    Tag::Sequence(Sequence { class: TagClass::Context, id: kind.id(), inner })
}

pub fn presence(attribute: Vec<u8>) -> (r: Tag)
    ensures
        r@ == presence_element(attribute@),
{
    part(PRES_MATCH, attribute)
}

pub fn substring(
    attribute: Vec<u8>,
    initial: Option<Vec<u8>>,
    any: Vec<Vec<u8>>,
    final_value: Option<Vec<u8>>,
) -> (r: Tag)
    ensures
        r@ == substring_element(
            attribute@,
            maybe_bytes(initial),
            each_bytes(any@),
            maybe_bytes(final_value),
        ),
{
    let ghost front = optional_part(0, maybe_bytes(initial));
    let ghost inner = Seq::new(
        any@.len(),
        |i: int| primitive(TagClass::Context, 1, each_bytes(any@)[i]),
    );
    let ghost last = optional_part(2, maybe_bytes(final_value));
    let mut parts: Vec<Tag> = Vec::new();
    if let Some(value) = initial {
        parts.push(part(SUB_INITIAL, value));
    }
    assert(tag_elements(parts@) =~= front + inner.take(0));
    for value in it: any.into_iter()
        invariant
            it.seq() == any@,
            inner == Seq::new(
                any@.len(),
                |i: int| primitive(TagClass::Context, 1, each_bytes(any@)[i]),
            ),
            tag_elements(parts@) == front + inner.take(it.index() as int),
    {
        let ghost before = parts@;
        let ghost k = it.index() as int;
        let next = part(SUB_ANY, value);
        parts.push(next);
        proof {
            lemma_tag_elements_push(before, next);
            assert(tag_elements(parts@) =~= front + inner.take(k + 1));
        }
    }
    assert(inner.take(any@.len() as int) =~= inner);
    if let Some(value) = final_value {
        let next = part(SUB_FINAL, value);
        proof {
            lemma_tag_elements_push(parts@, next);
        }
        parts.push(next);
    }
    assert(tag_elements(parts@) =~= front + inner + last);
    let mut outer: Vec<Tag> = Vec::new();
    outer.push(octet_string(attribute));
    let list = Tag::Sequence(
        Sequence { class: TagClass::Universal, id: SEQUENCE, inner: parts },
    );
    assert(list@ == constructed(TagClass::Universal, SEQUENCE, front + inner + last));
    outer.push(list);
    assert(tag_elements(outer@) =~= seq![octets_element(attribute@), list@]);
    Tag::Sequence(Sequence { class: TagClass::Context, id: SUBSTR_MATCH, inner: outer })
}

pub fn extensible_tag(
    mrule: Option<&[u8]>,
    attr: Option<&[u8]>,
    value: Vec<u8>,
    dn: bool,
) -> (r: Tag)
    ensures
        r@ == extensible_element(maybe_slice(mrule), maybe_slice(attr), value@, dn),
{
    let ghost expected = extensible_element(
        maybe_slice(mrule),
        maybe_slice(attr),
        value@,
        dn,
    ).body->Children_0;
    let mut inner: Vec<Tag> = Vec::new();
    if let Some(mrule) = mrule {
        inner.push(part(1, slice_to_vec(mrule)));
    }
    if let Some(attr) = attr {
        inner.push(part(2, slice_to_vec(attr)));
    }
    inner.push(part(3, value));
    if dn {
        let flag = Tag::Boolean(Boolean { class: TagClass::Context, id: 4, inner: dn });
        assert(flag@ == primitive(TagClass::Context, 4, bool_octets(true)));
        inner.push(flag);
    }
    assert(tag_elements(inner@) =~= expected);
    Tag::Sequence(Sequence { class: TagClass::Context, id: EXT_MATCH, inner })
}

/// Whether a result is what the model says.
pub open spec fn agrees(r: Option<(&[u8], Tag)>, model: Parsed) -> bool {
    match model {
        Some((e, end)) => r matches Some((left, tag)) && left@ == end && tag@ == e,
        None => r is None,
    }
}

fn literal(i: &[u8], c: u8) -> (r: Option<&[u8]>)
    ensures
        match strip(i@, seq![c]) {
            Some(j) => r is Some && r->0@ == j,
            None => r is None,
        },
        r is Some ==> i@.len() > 0 && i@[0] == c && r->0@ == i@.skip(1),
        r is None ==> i@.len() == 0 || i@[0] != c,
{
    if i.len() > 0 && i[0] == c {
        assert(i@.take(1) =~= seq![c]);
        Some(rest(i, 1))
    } else {
        assert(i@.len() > 0 ==> i@.take(1)[0] == i@[0]);
        None
    }
}

fn assign_sign(i: &[u8]) -> (r: Option<&[u8]>)
    ensures
        match strip(i@, seq![COLON, EQUALS]) {
            Some(j) => r is Some && r->0@ == j,
            None => r is None,
        },
{
    if i.len() >= 2 && i[0] == COLON && i[1] == EQUALS {
        assert(i@.take(2) =~= seq![COLON, EQUALS]);
        Some(rest(i, 2))
    } else {
        assert(i@.len() >= 2 ==> i@.take(2)[0] == i@[0] && i@.take(2)[1] == i@[1]);
        None
    }
}

fn dn_flag(i: &[u8]) -> (r: (bool, &[u8]))
    ensures
        r.0 == dn_at(i@).0,
        r.1@ == dn_at(i@).1,
{
    if i.len() >= 3 && i[0] == COLON && i[1] == LOWER_D && i[2] == LOWER_N {
        assert(i@.take(3) =~= seq![COLON, LOWER_D, LOWER_N]);
        (true, rest(i, 3))
    } else {
        assert(i@.len() >= 3 ==> i@.take(3)[0] == i@[0] && i@.take(3)[1] == i@[1] && i@.take(3)[2]
            == i@[2]);
        (false, i)
    }
}

fn matching_rule(i: &[u8]) -> (r: (Option<&[u8]>, &[u8]))
    ensures
        maybe_slice(r.0) == rule_at(i@).0,
        r.1@ == rule_at(i@).1,
{
    if let Some(j) = literal(i, COLON) {
        let n: usize = attributetype(j);
        if n > 0 {
            let name = slice_subrange(j, 0, n);
            assert(name@ =~= j@.take(n as int));
            return (Some(name), rest(j, n));
        }
    }
    (None, i)
}

fn starred(i: &[u8]) -> (r: (Vec<Vec<u8>>, &[u8]))
    ensures
        each_bytes(r.0@) == star_parts(i@).0,
        r.1@ == star_parts(i@).1,
{
    let mut parts: Vec<Vec<u8>> = Vec::new();
    let mut left = i;
    let ghost whole = star_parts(i@);
    assert(each_bytes(parts@) + star_parts(left@).0 =~= whole.0);
    loop
        invariant
            each_bytes(parts@) + star_parts(left@).0 == whole.0,
            star_parts(left@).1 == whole.1,
        ensures
            each_bytes(parts@) == whole.0,
            left@ == whole.1,
        decreases left@.len(),
    {
        let ghost here = left@;
        let ghost before = parts@;
        match literal(left, ASTERISK) {
            Some(j) => match unescaped(j) {
                Some((after, value)) => {
                    left = after;
                    parts.push(value);
                    assert(each_bytes(parts@) =~= each_bytes(before).push(value@));
                    assert(each_bytes(before) + (seq![value@] + star_parts(left@).0)
                        =~= each_bytes(before).push(value@) + star_parts(left@).0);
                },
                None => {
                    assert(each_bytes(parts@) + Seq::<Seq<u8>>::empty() =~= each_bytes(parts@));
                    break;
                },
            },
            None => {
                assert(each_bytes(parts@) + Seq::<Seq<u8>>::empty() =~= each_bytes(parts@));
                break;
            },
        }
    }
    (parts, left)
}

fn are_separated(parts: &Vec<Vec<u8>>) -> (r: bool)
    ensures
        r == separated(each_bytes(parts@)),
{
    let n: usize = parts.len();
    if n == 0 {
        return true;
    }
    let mut k: usize = 0;
    while k < n - 1
        invariant
            1 <= n == parts@.len(),
            k < n,
            forall|m: int| 0 <= m < k ==> (#[trigger] each_bytes(parts@)[m]).len() > 0,
        decreases n - k,
    {
        if parts[k].len() == 0 {
            assert(each_bytes(parts@)[k as int].len() == 0);
            return false;
        }
        k = k + 1;
    }
    true
}

#[verifier::rlimit(30)]
fn eq(i: &[u8]) -> (r: Option<(&[u8], Tag)>)
    ensures
        agrees(r, eq_at(i@)),
{
    let n: usize = attributedescription(i);
    if n == 0 {
        return None;
    }
    let j = match literal(rest(i, n), EQUALS) {
        Some(j) => j,
        None => return None,
    };
    let (k, initial) = match unescaped(j) {
        Some(value) => value,
        None => return None,
    };
    let (parts, end) = starred(k);
    if !are_separated(&parts) {
        return None;
    }
    let name = slice_subrange(i, 0, n);
    assert(name@ =~= i@.take(n as int));
    let attribute = slice_to_vec(name);
    let ghost all = each_bytes(parts@);
    let tag = if parts.len() == 0 {
        assertion(Comparison::Equal, attribute, initial)
    } else if initial.len() == 0 && parts.len() == 1 && parts[0].len() == 0 {
        assert(all[0].len() == 0);
        presence(attribute)
    } else {
        assert(all[0] == parts@[0]@);
        let initial = if initial.len() == 0 {
            None
        } else {
            Some(initial)
        };
        let mut parts = parts;
        let last = match parts.pop() {
            Some(last) => if last.len() == 0 {
                None
            } else {
                Some(last)
            },
            None => None,
        };
        assert(each_bytes(parts@) =~= all.drop_last());
        substring(attribute, initial, parts, last)
    };
    Some((end, tag))
}

fn sign(i: &[u8]) -> (r: Option<(Comparison, &[u8])>)
    ensures
        match sign_at(i@) {
            Some((kind, j)) => r matches Some((k, left)) && k == kind && left@ == j,
            None => r is None,
        },
{
    if i.len() < 2 || i[1] != EQUALS {
        return None;
    }
    let kind = if i[0] == GREATER {
        Comparison::GreaterOrEqual
    } else if i[0] == LESS {
        Comparison::LessOrEqual
    } else if i[0] == TILDE {
        Comparison::Approximate
    } else {
        return None;
    };
    Some((kind, rest(i, 2)))
}

fn non_eq(i: &[u8]) -> (r: Option<(&[u8], Tag)>)
    ensures
        agrees(r, non_eq_at(i@)),
{
    let n: usize = attributedescription(i);
    if n == 0 {
        return None;
    }
    let (kind, j) = match sign(rest(i, n)) {
        Some(found) => found,
        None => return None,
    };
    let (end, value) = match unescaped(j) {
        Some(value) => value,
        None => return None,
    };
    let name = slice_subrange(i, 0, n);
    assert(name@ =~= i@.take(n as int));
    Some((end, assertion(kind, slice_to_vec(name), value)))
}

fn attr_dn_mrule(i: &[u8]) -> (r: Option<(&[u8], Tag)>)
    ensures
        agrees(r, attr_dn_mrule_at(i@)),
{
    let n: usize = attributedescription(i);
    if n == 0 {
        return None;
    }
    let name = slice_subrange(i, 0, n);
    assert(name@ =~= i@.take(n as int));
    let (dn, j) = dn_flag(rest(i, n));
    let (mrule, k) = matching_rule(j);
    let l = match assign_sign(k) {
        Some(l) => l,
        None => return None,
    };
    match unescaped(l) {
        Some((end, value)) => Some((end, extensible_tag(mrule, Some(name), value, dn))),
        None => None,
    }
}

fn dn_mrule(i: &[u8]) -> (r: Option<(&[u8], Tag)>)
    ensures
        agrees(r, dn_mrule_at(i@)),
{
    let (dn, j) = dn_flag(i);
    let (mrule, k) = matching_rule(j);
    if mrule.is_none() {
        return None;
    }
    let l = match assign_sign(k) {
        Some(l) => l,
        None => return None,
    };
    match unescaped(l) {
        Some((end, value)) => Some((end, extensible_tag(mrule, None, value, dn))),
        None => None,
    }
}

fn extensible(i: &[u8]) -> (r: Option<(&[u8], Tag)>)
    ensures
        agrees(
            r,
            if attr_dn_mrule_at(i@) is Some {
                attr_dn_mrule_at(i@)
            } else {
                dn_mrule_at(i@)
            },
        ),
{
    match attr_dn_mrule(i) {
        Some(found) => Some(found),
        None => dn_mrule(i),
    }
}

fn item(i: &[u8]) -> (r: Option<(&[u8], Tag)>)
    ensures
        agrees(r, item_at(i@)),
{
    match eq(i) {
        Some(found) => Some(found),
        None => match non_eq(i) {
            Some(found) => Some(found),
            None => extensible(i),
        },
    }
}

fn close(found: Option<(&[u8], Tag)>) -> (r: Option<(&[u8], Tag)>)
    ensures
        forall|model: Parsed|
            agrees(found, model) ==> #[trigger] agrees(r, closed_by_parenthesis(model)),
{
    match found {
        Some((k, tag)) => match literal(k, PAREN_CLOSE) {
            Some(end) => Some((end, tag)),
            None => None,
        },
        None => None,
    }
}

fn and(i: &[u8]) -> (r: (&[u8], Tag))
    ensures
        r.0@ == filters_at(i@).1,
        r.1@ == conjunction_element(filters_at(i@).0),
    decreases i@.len(), 2nat,
{
    let (tags, end) = filterlist(i);
    (end, conjunction(tags))
}

fn or(i: &[u8]) -> (r: (&[u8], Tag))
    ensures
        r.0@ == filters_at(i@).1,
        r.1@ == disjunction_element(filters_at(i@).0),
    decreases i@.len(), 2nat,
{
    let (tags, end) = filterlist(i);
    (end, disjunction(tags))
}

fn not(i: &[u8]) -> (r: Option<(&[u8], Tag)>)
    ensures
        agrees(
            r,
            match filter_at(i@) {
                Some((e, k)) => Some((negation_element(e), k)),
                None => None,
            },
        ),
    decreases i@.len(), 2nat,
{
    match filter(i) {
        Some((end, tag)) => Some((end, negation(tag))),
        None => None,
    }
}

fn filter(i: &[u8]) -> (r: Option<(&[u8], Tag)>)
    ensures
        agrees(r, filter_at(i@)),
    decreases i@.len(), 0nat,
{
    match literal(i, PAREN_OPEN) {
        Some(j) => close(filtercomp(j)),
        None => None,
    }
}

fn filtercomp(i: &[u8]) -> (r: Option<(&[u8], Tag)>)
    ensures
        agrees(r, component_at(i@)),
    decreases i@.len(), 3nat,
{
    if let Some(j) = literal(i, AMPERSAND) {
        Some(and(j))
    } else if let Some(j) = literal(i, BAR) {
        Some(or(j))
    } else if let Some(j) = literal(i, EXCLAMATION) {
        not(j)
    } else {
        item(i)
    }
}

#[verifier::rlimit(30)]
fn filterlist(i: &[u8]) -> (r: (Vec<Tag>, &[u8]))
    ensures
        tag_elements(r.0@) == filters_at(i@).0,
        r.1@ == filters_at(i@).1,
    decreases i@.len(), 1nat,
{
    let mut tags: Vec<Tag> = Vec::new();
    let mut left = i;
    let ghost whole = filters_at(i@);
    assert(tag_elements(tags@) + filters_at(left@).0 =~= whole.0);
    loop
        invariant
            left@.len() <= i@.len(),
            tag_elements(tags@) + filters_at(left@).0 == whole.0,
            filters_at(left@).1 == whole.1,
        ensures
            tag_elements(tags@) == whole.0,
            left@ == whole.1,
        decreases left@.len(),
    {
        let ghost before = tags@;
        proof {
            lemma_filter_consumes(left@);
        }
        match filter(left) {
            Some((after, tag)) => {
                left = after;
                tags.push(tag);
                proof {
                    lemma_tag_elements_push(before, tag);
                    assert(tag_elements(before) + (seq![tag@] + filters_at(left@).0)
                        =~= tag_elements(before).push(tag@) + filters_at(left@).0);
                }
            },
            None => {
                assert(tag_elements(tags@) + Seq::<Element>::empty() =~= tag_elements(tags@));
                break;
            },
        }
    }
    (tags, left)
}

fn filtexpr(i: &[u8]) -> (r: Option<(&[u8], Tag)>)
    ensures
        agrees(r, filtexpr_at(i@)),
{
    match filter(i) {
        Some(found) => Some(found),
        None => item(i),
    }
}

#[verifier::rlimit(30)]
fn mv_filteritems(i: &[u8]) -> (r: (Vec<Tag>, &[u8]))
    ensures
        tag_elements(r.0@) == mv_items_at(i@).0,
        r.1@ == mv_items_at(i@).1,
{
    let mut tags: Vec<Tag> = Vec::new();
    let mut left = i;
    let ghost whole = mv_items_at(i@);
    assert(tag_elements(tags@) + mv_items_at(left@).0 =~= whole.0);
    loop
        invariant
            tag_elements(tags@) + mv_items_at(left@).0 == whole.0,
            mv_items_at(left@).1 == whole.1,
        ensures
            tag_elements(tags@) == whole.0,
            left@ == whole.1,
        decreases left@.len(),
    {
        let ghost before = tags@;
        let found = match literal(left, PAREN_OPEN) {
            Some(j) => {
                proof {
                    lemma_item_consumes(j@);
                }
                close(item(j))
            },
            None => None,
        };
        assert(agrees(found, mv_item_at(left@)));
        match found {
            Some((after, tag)) => {
                left = after;
                tags.push(tag);
                proof {
                    lemma_tag_elements_push(before, tag);
                    assert(tag_elements(before) + (seq![tag@] + mv_items_at(left@).0)
                        =~= tag_elements(before).push(tag@) + mv_items_at(left@).0);
                }
            },
            None => {
                assert(tag_elements(tags@) + Seq::<Element>::empty() =~= tag_elements(tags@));
                break;
            },
        }
    }
    (tags, left)
}

fn mv_filtexpr(i: &[u8]) -> (r: Option<(&[u8], Tag)>)
    ensures
        agrees(r, mv_filtexpr_at(i@)),
{
    let j = match literal(i, PAREN_OPEN) {
        Some(j) => j,
        None => return None,
    };
    let (tags, k) = mv_filteritems(j);
    if tags.len() == 0 {
        return None;
    }
    let list = Tag::Sequence(
        Sequence { class: TagClass::Universal, id: SEQUENCE, inner: tags },
    );
    close(Some((k, list)))
}

/// The element that the whole input stands for.
pub open spec fn whole(p: Parsed) -> Option<Element> {
    match p {
        Some((e, end)) if end.len() == 0 => Some(e),
        _ => None,
    }
}

/// The filter that the text stands for.
pub fn parse(input: &[u8]) -> (r: Result<Tag, ()>)
    ensures
        match whole(filtexpr_at(input@)) {
            Some(e) => r is Ok && r->Ok_0@ == e,
            None => r is Err,
        },
{
    match filtexpr(input) {
        Some((left, tag)) => if left.len() == 0 {
            Ok(tag)
        } else {
            Err(())
        },
        None => Err(()),
    }
}

/// The list of items of a matched values control that the text stands for.
pub fn parse_matched_values(input: &[u8]) -> (r: Result<Tag, ()>)
    ensures
        match whole(mv_filtexpr_at(input@)) {
            Some(e) => r is Ok && r->Ok_0@ == e,
            None => r is Err,
        },
{
    match mv_filtexpr(input) {
        Some((left, tag)) => if left.len() == 0 {
            Ok(tag)
        } else {
            Err(())
        },
        None => Err(()),
    }
}

} // verus!
