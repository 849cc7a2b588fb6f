//! What search filters in their textual form stand for.
use crate::ascii::{
    AMPERSAND, ASTERISK, BACKSLASH, BAR, COLON, DIGIT_0, DIGIT_9, DOT, EQUALS, EXCLAMATION, GREATER,
    HYPHEN, LESS, LOWER_A, LOWER_D, LOWER_F, LOWER_N, LOWER_Z, PAREN_CLOSE, PAREN_OPEN, SEMICOLON,
    TILDE, UPPER_A, UPPER_F, UPPER_Z,
};
use crate::asn1::{
    bool_octets, constructed, octets_element, optional_part, primitive, Element, TagClass, SEQUENCE,
};
use crate::filter::Comparison;
use vstd::prelude::*;

verus! {

/// Classes of characters in a filter.
#[derive(Clone, Copy, Debug, PartialEq, Eq, Structural)]
pub enum CharClass {
    Digit,
    Keyword,
    Value,
}

pub open spec fn digit(c: u8) -> bool {
    DIGIT_0 <= c <= DIGIT_9
}

pub open spec fn alphabetic(c: u8) -> bool {
    UPPER_A <= c <= UPPER_Z || LOWER_A <= c <= LOWER_Z
}

/// Value of a hexadecimal digit.
pub open spec fn hex(c: u8) -> Option<int> {
    if DIGIT_0 <= c <= DIGIT_9 {
        Some(c - DIGIT_0)
    } else if UPPER_A <= c <= UPPER_F {
        Some(c - UPPER_A + 10)
    } else if LOWER_A <= c <= LOWER_F {
        Some(c - LOWER_A + 10)
    } else {
        None
    }
}

impl CharClass {
    pub open spec fn has(self, c: u8) -> bool {
        match self {
            CharClass::Digit => digit(c),
            CharClass::Keyword => digit(c) || alphabetic(c) || c == HYPHEN,
            CharClass::Value => c != 0 && c != PAREN_OPEN && c != PAREN_CLOSE && c != ASTERISK,
        }
    }
}

/// Number of leading characters that are in the class.
pub open spec fn span(i: Seq<u8>, class: CharClass) -> nat
    decreases i.len(),
{
    if i.len() > 0 && class.has(i[0]) {
        1 + span(i.skip(1), class)
    } else {
        0
    }
}

pub proof fn lemma_span(i: Seq<u8>, class: CharClass)
    ensures
        span(i, class) <= i.len(),
        forall|k: int| 0 <= k < span(i, class) ==> class.has(#[trigger] i[k]),
        span(i, class) < i.len() ==> !class.has(i[span(i, class) as int]),
    decreases i.len(),
{
    if i.len() > 0 && class.has(i[0]) {
        lemma_span(i.skip(1), class);
        assert forall|k: int| 0 <= k < span(i, class) implies class.has(#[trigger] i[k]) by {
            if k > 0 {
                assert(i[k] == i.skip(1)[k - 1]);
            }
        }
    }
}

/// Length of the number at the start of the input: zero, or digits without a leading zero.
/// Nothing there has length zero.
pub open spec fn number_len(i: Seq<u8>) -> nat {
    let n = span(i, CharClass::Digit);
    if n > 1 && i[0] == DIGIT_0 {
        0
    } else {
        n
    }
}

/// Length of the part of an object identifier that follows its first number.
pub open spec fn dotted_len(i: Seq<u8>) -> nat
    decreases i.len(),
{
    proof {
        lemma_span(i.skip(1), CharClass::Digit);
    }
    let n = number_len(i.skip(1));
    if i.len() > 0 && i[0] == DOT && n > 0 {
        1 + n + dotted_len(i.skip(1 + n as int))
    } else {
        0
    }
}

/// Length of the numeric object identifier at the start of the input.
pub open spec fn oid_len(i: Seq<u8>) -> nat {
    let n = number_len(i);
    if n == 0 {
        0
    } else {
        n + dotted_len(i.skip(n as int))
    }
}

/// Length of the descriptive name at the start of the input.
pub open spec fn descr_len(i: Seq<u8>) -> nat {
    if i.len() > 0 && alphabetic(i[0]) {
        1 + span(i.skip(1), CharClass::Keyword)
    } else {
        0
    }
}

/// Length of the attribute type at the start of the input.
pub open spec fn type_len(i: Seq<u8>) -> nat {
    if oid_len(i) > 0 {
        oid_len(i)
    } else {
        descr_len(i)
    }
}

/// Length of the attribute options at the start of the input.
pub open spec fn options_len(i: Seq<u8>) -> nat
    decreases i.len(),
{
    proof {
        lemma_span(i.skip(1), CharClass::Keyword);
    }
    let n = span(i.skip(1), CharClass::Keyword);
    if i.len() > 0 && i[0] == SEMICOLON && n > 0 {
        1 + n + options_len(i.skip(1 + n as int))
    } else {
        0
    }
}

/// Length of the attribute description at the start of the input.
pub open spec fn description_len(i: Seq<u8>) -> nat {
    let n = type_len(i);
    if n == 0 {
        0
    } else {
        n + options_len(i.skip(n as int))
    }
}

/// What text with escapes stands for: a backslash and two hexadecimal digits give a byte, and
/// every other character gives itself.
pub open spec fn unescape(s: Seq<u8>) -> Option<Seq<u8>>
    decreases s.len(),
{
    if s.len() == 0 {
        Some(Seq::empty())
    } else if s[0] != BACKSLASH {
        prefixed(s[0], unescape(s.skip(1)))
    } else if s.len() >= 3 && hex(s[1]) is Some && hex(s[2]) is Some {
        prefixed((hex(s[1])->0 * 16 + hex(s[2])->0) as u8, unescape(s.skip(3)))
    } else {
        None
    }
}

pub open spec fn prefixed(c: u8, s: Option<Seq<u8>>) -> Option<Seq<u8>> {
    match s {
        Some(s) => Some(seq![c] + s),
        None => None,
    }
}

/// The value at the start of the input, and what follows it.
pub open spec fn value_at(i: Seq<u8>) -> Option<(Seq<u8>, Seq<u8>)> {
    let n = span(i, CharClass::Value) as int;
    match unescape(i.take(n)) {
        Some(value) => Some((value, i.skip(n))),
        None => None,
    }
}

/// The input without a prefix that it starts with.
pub open spec fn strip(i: Seq<u8>, prefix: Seq<u8>) -> Option<Seq<u8>> {
    if i.len() >= prefix.len() && i.take(prefix.len() as int) == prefix {
        Some(i.skip(prefix.len() as int))
    } else {
        None
    }
}

proof fn lemma_number(i: Seq<u8>)
    ensures
        number_len(i) <= i.len(),
{
    lemma_span(i, CharClass::Digit);
}

proof fn lemma_dotted(i: Seq<u8>)
    ensures
        dotted_len(i) <= i.len(),
    decreases i.len(),
{
    lemma_number(i.skip(1));
    let n = number_len(i.skip(1));
    if i.len() > 0 && i[0] == DOT && n > 0 {
        lemma_dotted(i.skip(1 + n as int));
    }
}

proof fn lemma_options(i: Seq<u8>)
    ensures
        options_len(i) <= i.len(),
    decreases i.len(),
{
    lemma_span(i.skip(1), CharClass::Keyword);
    let n = span(i.skip(1), CharClass::Keyword);
    if i.len() > 0 && i[0] == SEMICOLON && n > 0 {
        lemma_options(i.skip(1 + n as int));
    }
}

/// No part of an attribute description is longer than the input.
pub proof fn lemma_description(i: Seq<u8>)
    ensures
        type_len(i) <= i.len(),
        description_len(i) <= i.len(),
{
    lemma_number(i);
    lemma_dotted(i.skip(number_len(i) as int));
    if i.len() > 0 {
        lemma_span(i.skip(1), CharClass::Keyword);
    }
    lemma_options(i.skip(type_len(i) as int));
}

pub open spec fn conjunction_element(es: Seq<Element>) -> Element {
    constructed(TagClass::Context, 0, es)
}

pub open spec fn disjunction_element(es: Seq<Element>) -> Element {
    constructed(TagClass::Context, 1, es)
}

pub open spec fn negation_element(e: Element) -> Element {
    constructed(TagClass::Context, 2, seq![e])
}

pub open spec fn assertion_element(
    kind: Comparison,
    attribute: Seq<u8>,
    value: Seq<u8>,
) -> Element {
    constructed(
        TagClass::Context,
        kind.number(),
        seq![octets_element(attribute), octets_element(value)],
    )
}

pub open spec fn presence_element(attribute: Seq<u8>) -> Element {
    primitive(TagClass::Context, 7, attribute)
}

pub open spec fn substring_element(
    attribute: Seq<u8>,
    initial: Option<Seq<u8>>,
    any: Seq<Seq<u8>>,
    last: Option<Seq<u8>>,
) -> Element {
    let inner = Seq::new(any.len(), |i: int| primitive(TagClass::Context, 1, any[i]));
    constructed(
        TagClass::Context,
        4,
        seq![
            octets_element(attribute),
            constructed(
                TagClass::Universal,
                SEQUENCE,
                optional_part(0, initial) + inner + optional_part(2, last),
            ),
        ],
    )
}

pub open spec fn extensible_element(
    mrule: Option<Seq<u8>>,
    attr: Option<Seq<u8>>,
    value: Seq<u8>,
    dn: bool,
) -> Element {
    constructed(
        TagClass::Context,
        9,
        optional_part(1, mrule) + optional_part(2, attr) + seq![
            primitive(TagClass::Context, 3, value),
        ] + (if dn {
            seq![primitive(TagClass::Context, 4, bool_octets(true))]
        } else {
            seq![]
        }),
    )
}

pub open spec fn maybe_slice(bytes: Option<&[u8]>) -> Option<Seq<u8>> {
    match bytes {
        Some(bytes) => Some(bytes@),
        None => None,
    }
}

/// An element, and the input that follows it.
pub type Parsed = Option<(Element, Seq<u8>)>;

/// The values that each follow an asterisk, and the input that follows them.
pub open spec fn star_parts(i: Seq<u8>) -> (Seq<Seq<u8>>, Seq<u8>)
    decreases i.len(),
{
    proof {
        lemma_span(i.skip(1), CharClass::Value);
    }
    if i.len() > 0 && i[0] == ASTERISK {
        match value_at(i.skip(1)) {
            Some((value, after)) => {
                let (more, end) = star_parts(after);
                (seq![value] + more, end)
            },
            None => (Seq::empty(), i),
        }
    } else {
        (Seq::empty(), i)
    }
}

pub open spec fn nonempty(s: Seq<u8>) -> Option<Seq<u8>> {
    if s.len() == 0 {
        None
    } else {
        Some(s)
    }
}

/// The filter for a value in which asterisks separate an initial part from others: equality
/// where there is none, presence where there is nothing else, and substrings otherwise.
pub open spec fn equality_element(
    attribute: Seq<u8>,
    initial: Seq<u8>,
    parts: Seq<Seq<u8>>,
) -> Element {
    if parts.len() == 0 {
        assertion_element(Comparison::Equal, attribute, initial)
    } else if initial.len() == 0 && parts.len() == 1 && parts[0].len() == 0 {
        presence_element(attribute)
    } else {
        substring_element(
            attribute,
            nonempty(initial),
            parts.drop_last(),
            nonempty(parts.last()),
        )
    }
}

/// No part but the last is empty: asterisks do not stand side by side.
pub open spec fn separated(parts: Seq<Seq<u8>>) -> bool {
    forall|k: int| 0 <= k < parts.len() - 1 ==> (#[trigger] parts[k]).len() > 0
}

/// An equality, presence or substring item.
pub open spec fn eq_at(i: Seq<u8>) -> Parsed {
    let n = description_len(i) as int;
    if n == 0 {
        None
    } else {
        match strip(i.skip(n), seq![EQUALS]) {
            None => None,
            Some(j) => match value_at(j) {
                None => None,
                Some((initial, k)) => {
                    let (parts, end) = star_parts(k);
                    if separated(parts) {
                        Some((equality_element(i.take(n), initial, parts), end))
                    } else {
                        None
                    }
                },
            },
        }
    }
}

/// The sign of an ordering or approximate comparison.
pub open spec fn sign_at(i: Seq<u8>) -> Option<(Comparison, Seq<u8>)> {
    if i.len() < 2 || i[1] != EQUALS {
        None
    } else if i[0] == GREATER {
        Some((Comparison::GreaterOrEqual, i.skip(2)))
    } else if i[0] == LESS {
        Some((Comparison::LessOrEqual, i.skip(2)))
    } else if i[0] == TILDE {
        Some((Comparison::Approximate, i.skip(2)))
    } else {
        None
    }
}

/// An ordering or approximate item.
pub open spec fn non_eq_at(i: Seq<u8>) -> Parsed {
    let n = description_len(i) as int;
    if n == 0 {
        None
    } else {
        match sign_at(i.skip(n)) {
            None => None,
            Some((kind, j)) => match value_at(j) {
                None => None,
                Some((value, end)) => Some((assertion_element(kind, i.take(n), value), end)),
            },
        }
    }
}

/// Whether `:dn` is there, and the input without it.
pub open spec fn dn_at(i: Seq<u8>) -> (bool, Seq<u8>) {
    match strip(i, seq![COLON, LOWER_D, LOWER_N]) {
        Some(j) => (true, j),
        None => (false, i),
    }
}

/// The matching rule after a colon, if there is one, and the input without it.
pub open spec fn rule_at(i: Seq<u8>) -> (Option<Seq<u8>>, Seq<u8>) {
    match strip(i, seq![COLON]) {
        Some(j) if type_len(j) > 0 => (
            Some(j.take(type_len(j) as int)),
            j.skip(type_len(j) as int),
        ),
        _ => (None, i),
    }
}

/// The value after `:=`.
pub open spec fn assigned_at(i: Seq<u8>) -> Option<(Seq<u8>, Seq<u8>)> {
    match strip(i, seq![COLON, EQUALS]) {
        Some(j) => value_at(j),
        None => None,
    }
}

/// An extensible item with an attribute.
pub open spec fn attr_dn_mrule_at(i: Seq<u8>) -> Parsed {
    let n = description_len(i) as int;
    if n == 0 {
        None
    } else {
        let (dn, j) = dn_at(i.skip(n));
        let (mrule, k) = rule_at(j);
        match assigned_at(k) {
            None => None,
            Some((value, end)) => Some(
                (extensible_element(mrule, Some(i.take(n)), value, dn), end),
            ),
        }
    }
}

/// An extensible item without an attribute, which has a matching rule.
pub open spec fn dn_mrule_at(i: Seq<u8>) -> Parsed {
    let (dn, j) = dn_at(i);
    let (mrule, k) = rule_at(j);
    if mrule is None {
        None
    } else {
        match assigned_at(k) {
            None => None,
            Some((value, end)) => Some((extensible_element(mrule, None, value, dn), end)),
        }
    }
}

/// The item at the start of the input, by the first form that it has.
pub open spec fn item_at(i: Seq<u8>) -> Parsed {
    if eq_at(i) is Some {
        eq_at(i)
    } else if non_eq_at(i) is Some {
        non_eq_at(i)
    } else if attr_dn_mrule_at(i) is Some {
        attr_dn_mrule_at(i)
    } else {
        dn_mrule_at(i)
    }
}

/// The filter in parentheses at the start of the input.
pub open spec fn filter_at(i: Seq<u8>) -> Parsed
    decreases i.len(), 0nat,
{
    match strip(i, seq![PAREN_OPEN]) {
        None => None,
        Some(j) => closed_by_parenthesis(component_at(j)),
    }
}

/// What stands inside the parentheses of a filter.
pub open spec fn component_at(j: Seq<u8>) -> Parsed
    decreases j.len(), 2nat,
{
    if j.len() > 0 && j[0] == AMPERSAND {
        let (es, k) = filters_at(j.skip(1));
        Some((conjunction_element(es), k))
    } else if j.len() > 0 && j[0] == BAR {
        let (es, k) = filters_at(j.skip(1));
        Some((disjunction_element(es), k))
    } else if j.len() > 0 && j[0] == EXCLAMATION {
        match filter_at(j.skip(1)) {
            Some((e, k)) => Some((negation_element(e), k)),
            None => None,
        }
    } else {
        item_at(j)
    }
}

/// What was read, if a closing parenthesis follows.
pub open spec fn closed_by_parenthesis(p: Parsed) -> Parsed {
    match p {
        None => None,
        Some((e, k)) => match strip(k, seq![PAREN_CLOSE]) {
            Some(end) => Some((e, end)),
            None => None,
        },
    }
}

/// The filters in parentheses at the start of the input, as many as there are, and the input
/// that follows them.
pub open spec fn filters_at(i: Seq<u8>) -> (Seq<Element>, Seq<u8>)
    decreases i.len(), 1nat,
{
    match filter_at(i) {
        Some((e, j)) if j.len() < i.len() => {
            let (es, end) = filters_at(j);
            (seq![e] + es, end)
        },
        _ => (Seq::empty(), i),
    }
}

/// A filter in parentheses, or an item without them.
pub open spec fn filtexpr_at(i: Seq<u8>) -> Parsed {
    if filter_at(i) is Some {
        filter_at(i)
    } else {
        item_at(i)
    }
}

/// An item in parentheses.
pub open spec fn mv_item_at(i: Seq<u8>) -> Parsed {
    match strip(i, seq![PAREN_OPEN]) {
        None => None,
        Some(j) => closed_by_parenthesis(item_at(j)),
    }
}

/// The items in parentheses at the start of the input, as many as there are, and the input that
/// follows them.
pub open spec fn mv_items_at(i: Seq<u8>) -> (Seq<Element>, Seq<u8>)
    decreases i.len(),
{
    match mv_item_at(i) {
        Some((e, j)) if j.len() < i.len() => {
            let (es, end) = mv_items_at(j);
            (seq![e] + es, end)
        },
        _ => (Seq::empty(), i),
    }
}

/// Items in parentheses, at least one, in parentheses.
pub open spec fn mv_filtexpr_at(i: Seq<u8>) -> Parsed {
    match strip(i, seq![PAREN_OPEN]) {
        None => None,
        Some(j) => {
            let (es, k) = mv_items_at(j);
            if es.len() == 0 {
                None
            } else {
                closed_by_parenthesis(Some((constructed(TagClass::Universal, SEQUENCE, es), k)))
            }
        },
    }
}

/// What is left after an item is shorter than the input.
pub proof fn lemma_item_consumes(i: Seq<u8>)
    ensures
        item_at(i) matches Some((e, end)) ==> end.len() < i.len(),
{
    lemma_description(i);
    let n = description_len(i) as int;
    if n > 0 {
        let j = i.skip(n);
        if strip(j, seq![EQUALS]) is Some {
            let k = j.skip(1);
            lemma_span(k, CharClass::Value);
            lemma_star_parts(k.skip(span(k, CharClass::Value) as int));
        }
        if sign_at(j) is Some {
            lemma_span(j.skip(2), CharClass::Value);
        }
        lemma_assigned(j);
    }
    lemma_assigned(i);
}

proof fn lemma_star_parts(i: Seq<u8>)
    ensures
        star_parts(i).1.len() <= i.len(),
    decreases i.len(),
{
    if i.len() > 0 && i[0] == ASTERISK {
        if let Some((value, after)) = value_at(i.skip(1)) {
            lemma_span(i.skip(1), CharClass::Value);
            lemma_star_parts(after);
        }
    }
}

proof fn lemma_assigned(i: Seq<u8>)
    ensures
        assigned_at(rule_at(dn_at(i).1).1) matches Some((value, end)) ==> end.len() < i.len(),
{
    let j = dn_at(i).1;
    if strip(j, seq![COLON]) is Some {
        lemma_description(j.skip(1));
    }
    let k = rule_at(j).1;
    if strip(k, seq![COLON, EQUALS]) is Some {
        lemma_span(k.skip(2), CharClass::Value);
    }
}

/// What is left after a filter is shorter than the input.
pub proof fn lemma_filter_consumes(i: Seq<u8>)
    ensures
        filter_at(i) matches Some((e, end)) ==> end.len() < i.len(),
        filters_at(i).1.len() <= i.len(),
    decreases i.len(),
{
    if strip(i, seq![PAREN_OPEN]) is Some {
        let j = i.skip(1);
        lemma_item_consumes(j);
        if j.len() > 0 {
            lemma_filter_consumes(j.skip(1));
        }
        assert(component_at(j) matches Some((e, k)) ==> k.len() <= j.len());
    }
    if let Some((e, j)) = filter_at(i) {
        if j.len() < i.len() {
            lemma_filter_consumes(j);
        }
    }
}

} // verus!
