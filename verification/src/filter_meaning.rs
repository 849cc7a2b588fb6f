//! What each filter means, and that no other text is a filter.
use crate::ascii::{
    AMPERSAND, ASTERISK, BAR, COLON, EQUALS, EXCLAMATION, GREATER, LESS, LOWER_D, LOWER_N,
    PAREN_CLOSE, PAREN_OPEN, TILDE,
};
use crate::asn1::{constructed, each_bytes, Element, Tag, TagClass, SEQUENCE};
use crate::filter::{
    assertion, conjunction, disjunction, extensible_tag, negation, parse, parse_matched_values,
    presence, substring, Comparison,
};
use crate::filter_grammar::{
    assertion_element, assigned_at, attr_dn_mrule_at, component_at, conjunction_element,
    description_len, disjunction_element, dn_at, dn_mrule_at, eq_at, equality_element,
    extensible_element, filter_at, filters_at, item_at, lemma_span, negation_element, non_eq_at,
    rule_at, sign_at, span, star_parts, substring_element, value_at, CharClass,
};
use crate::filter_laws::{
    are_items, bracketed, comparisons_read_back, distinct, equality_items_read_back,
    extensible_items_read_back, extension_text, filters_compose, is_description, is_item, joined,
    lemma_bare, lemma_bare_filters, lists_items, matched_values_are_a_list_of_items,
    parentheses_around_an_item_change_nothing, sign_text, starred, what_reads_back_is_a_writing,
    writes,
};
use crate::filter_names::{
    denotes, descriptions_are_types_and_options, is_description_text, is_type_text, lemma_denotes,
    lemma_description_is_text, lemma_type_is_text,
};
use crate::operation_laws::{child, is_bytes, is_list, is_octets};
use vstd::prelude::*;

verus! {

/// A filter, with the texts that its values are written as.
pub enum Filter {
    And(Seq<Filter>),
    Or(Seq<Filter>),
    Not(Box<Filter>),
    Compare { kind: Comparison, attribute: Seq<u8>, text: Seq<u8>, value: Seq<u8> },
    Present { attribute: Seq<u8> },
    /// The first value is how the attribute starts, the last how it ends.
    Substrings { attribute: Seq<u8>, texts: Seq<Seq<u8>>, values: Seq<Seq<u8>> },
    Extensible {
        subject: Option<Seq<u8>>,
        dn: bool,
        rule: Option<Seq<u8>>,
        text: Seq<u8>,
        value: Seq<u8>,
    },
}

/// A comparison of the attribute with the value, of the kind.
pub open spec fn compares(
    e: Element,
    kind: Comparison,
    attribute: Seq<u8>,
    value: Seq<u8>,
) -> bool {
    &&& is_list(
        e,
        TagClass::Context,
        match kind {
            Comparison::Equal => 3,
            Comparison::GreaterOrEqual => 5,
            Comparison::LessOrEqual => 6,
            Comparison::Approximate => 8,
        },
        2,
    )
    &&& is_octets(child(e, 0), attribute)
    &&& is_octets(child(e, 1), value)
}

/// The attribute and a list: how it starts if that is given, what it contains in order, how it
/// ends if that is given.
pub open spec fn matches_parts(
    e: Element,
    attribute: Seq<u8>,
    initial: Option<Seq<u8>>,
    any: Seq<Seq<u8>>,
    last: Option<Seq<u8>>,
) -> bool {
    let inner = child(e, 1);
    let first: int = if initial is Some {
        1
    } else {
        0
    };
    let n = first + any.len();
    &&& is_list(e, TagClass::Context, 4, 2)
    &&& is_octets(child(e, 0), attribute)
    &&& is_list(
        inner,
        TagClass::Universal,
        16,
        (if last is Some {
            n + 1
        } else {
            n
        }) as nat,
    )
    &&& initial matches Some(bytes) ==> is_bytes(child(inner, 0), TagClass::Context, 0, bytes)
    &&& forall|k: int|
        0 <= k < any.len() ==> is_bytes(
            #[trigger] child(inner, first + k),
            TagClass::Context,
            1,
            any[k],
        )
    &&& last matches Some(bytes) ==> is_bytes(child(inner, n), TagClass::Context, 2, bytes)
}

/// A rule if there is one, an attribute if there is one, the value, and a flag if it is set.
pub open spec fn matches_rule(
    e: Element,
    rule: Option<Seq<u8>>,
    attribute: Option<Seq<u8>>,
    value: Seq<u8>,
    dn: bool,
) -> bool {
    let a: int = if rule is Some {
        1
    } else {
        0
    };
    let v: int = if attribute is Some {
        a + 1
    } else {
        a
    };
    &&& is_list(
        e,
        TagClass::Context,
        9,
        (if dn {
            v + 2
        } else {
            v + 1
        }) as nat,
    )
    &&& rule matches Some(bytes) ==> is_bytes(child(e, 0), TagClass::Context, 1, bytes)
    &&& attribute matches Some(bytes) ==> is_bytes(child(e, a), TagClass::Context, 2, bytes)
    &&& is_bytes(child(e, v), TagClass::Context, 3, value)
    &&& dn ==> is_bytes(child(e, v + 1), TagClass::Context, 4, seq![255u8])
}

/// Whether an element means the filter.
pub open spec fn means(e: Element, f: Filter) -> bool
    decreases f,
{
    match f {
        Filter::And(fs) => is_list(e, TagClass::Context, 0, fs.len()) && forall|i: int|
            0 <= i < fs.len() ==> means(#[trigger] child(e, i), fs[i]),
        Filter::Or(fs) => is_list(e, TagClass::Context, 1, fs.len()) && forall|i: int|
            0 <= i < fs.len() ==> means(#[trigger] child(e, i), fs[i]),
        Filter::Not(f) => is_list(e, TagClass::Context, 2, 1) && means(child(e, 0), *f),
        Filter::Compare { kind, attribute, text, value } => compares(e, kind, attribute, value),
        Filter::Present { attribute } => is_bytes(e, TagClass::Context, 7, attribute),
        Filter::Substrings { attribute, texts, values } => matches_parts(
            e,
            attribute,
            given(values[0]),
            values.subrange(1, values.len() - 1),
            given(values.last()),
        ),
        Filter::Extensible { subject, dn, rule, text, value } => matches_rule(
            e,
            rule,
            subject,
            value,
            dn,
        ),
    }
}

/// A part that is given unless it is empty.
pub open spec fn given(bytes: Seq<u8>) -> Option<Seq<u8>> {
    if bytes.len() > 0 {
        Some(bytes)
    } else {
        None
    }
}

/// Whether the filter has a text: descriptions are well-formed, values are denoted by their
/// texts, no asterisks stand side by side, and a rule cannot be taken for the flag.
pub open spec fn proper(f: Filter) -> bool
    decreases f,
{
    match f {
        Filter::And(fs) => forall|i: int| 0 <= i < fs.len() ==> proper(#[trigger] fs[i]),
        Filter::Or(fs) => forall|i: int| 0 <= i < fs.len() ==> proper(#[trigger] fs[i]),
        Filter::Not(f) => proper(*f),
        Filter::Compare { kind, attribute, text, value } => is_description_text(attribute)
            && denotes(text, value),
        Filter::Present { attribute } => is_description_text(attribute),
        Filter::Substrings { attribute, texts, values } => {
            &&& is_description_text(attribute)
            &&& 2 <= texts.len() == values.len()
            &&& forall|k: int| 0 <= k < texts.len() ==> denotes(#[trigger] texts[k], values[k])
            &&& forall|k: int| 0 < k < values.len() - 1 ==> (#[trigger] values[k]).len() > 0
            &&& values.len() == 2 ==> values[0].len() > 0 || values[1].len() > 0
        },
        Filter::Extensible { subject, dn, rule, text, value } => {
            &&& subject is Some || rule is Some
            &&& subject matches Some(a) ==> is_description_text(a)
            &&& rule matches Some(r) ==> is_type_text(r) && (dn || r.len() < 2 || r[0] != LOWER_D
                || r[1] != LOWER_N)
            &&& denotes(text, value)
        },
    }
}

pub open spec fn is_single(f: Filter) -> bool {
    !(f is And || f is Or || f is Not)
}

/// The text of the filter in parentheses.
pub open spec fn text_of(f: Filter) -> Seq<u8>
    decreases f,
{
    seq![PAREN_OPEN] + (match f {
        Filter::And(fs) => seq![AMPERSAND] + texts_of(fs),
        Filter::Or(fs) => seq![BAR] + texts_of(fs),
        Filter::Not(f) => seq![EXCLAMATION] + text_of(*f),
        _ => item_text(f),
    }) + seq![PAREN_CLOSE]
}

/// The texts of the filters, one after the other.
pub open spec fn texts_of(fs: Seq<Filter>) -> Seq<u8>
    decreases fs,
{
    if fs.len() == 0 {
        Seq::empty()
    } else {
        text_of(fs[0]) + texts_of(fs.drop_first())
    }
}

/// The text of an item without parentheses.
pub open spec fn item_text(f: Filter) -> Seq<u8> {
    match f {
        Filter::Compare { kind, attribute, text, value } => attribute + (match kind {
            Comparison::Equal => seq![EQUALS],
            Comparison::GreaterOrEqual => seq![GREATER, EQUALS],
            Comparison::LessOrEqual => seq![LESS, EQUALS],
            Comparison::Approximate => seq![TILDE, EQUALS],
        }) + text,
        Filter::Present { attribute } => attribute + seq![EQUALS, ASTERISK],
        Filter::Substrings { attribute, texts, values } => attribute + seq![EQUALS] + texts[0]
            + starred(texts.drop_first()),
        Filter::Extensible { subject, dn, rule, text, value } => (match subject {
            Some(a) => a,
            None => seq![],
        }) + (if dn {
            seq![COLON, LOWER_D, LOWER_N]
        } else {
            seq![]
        }) + (match rule {
            Some(r) => seq![COLON] + r,
            None => seq![],
        }) + seq![COLON, EQUALS] + text,
        _ => seq![],
    }
}

/// What is made of a comparison, a presence, and a substring filter.
pub proof fn made_items_mean_their_parts(
    kind: Comparison,
    attribute: Vec<u8>,
    value: Vec<u8>,
    compared: Tag,
    initial: Option<Vec<u8>>,
    any: Vec<Vec<u8>>,
    last: Option<Vec<u8>>,
    contained: Tag,
    present: Tag,
)
    requires
        call_ensures(assertion, (kind, attribute, value), compared),
        call_ensures(substring, (attribute, initial, any, last), contained),
        call_ensures(presence, (attribute,), present),
    ensures
        compares(compared@, kind, attribute@, value@),
        matches_parts(
            contained@,
            attribute@,
            match initial {
                Some(bytes) => Some(bytes@),
                None => None,
            },
            Seq::new(any@.len(), |k: int| any@[k]@),
            match last {
                Some(bytes) => Some(bytes@),
                None => None,
            },
        ),
        is_bytes(present@, TagClass::Context, 7, attribute@),
{
    let parts = Seq::new(any@.len(), |k: int| any@[k]@);
    assert(parts =~= each_bytes(any@));
    lemma_parts(
        attribute@,
        match initial {
            Some(bytes) => Some(bytes@),
            None => None,
        },
        parts,
        match last {
            Some(bytes) => Some(bytes@),
            None => None,
        },
    );
}

proof fn lemma_parts(
    attribute: Seq<u8>,
    initial: Option<Seq<u8>>,
    any: Seq<Seq<u8>>,
    last: Option<Seq<u8>>,
)
    ensures
        matches_parts(
            substring_element(attribute, initial, any, last),
            attribute,
            initial,
            any,
            last,
        ),
{
}

/// What is made of an extensible match.
pub proof fn made_rules_mean_their_parts(
    rule: Option<&[u8]>,
    attribute: Option<&[u8]>,
    value: Vec<u8>,
    dn: bool,
    r: Tag,
)
    requires
        call_ensures(extensible_tag, (rule, attribute, value, dn), r),
    ensures
        matches_rule(
            r@,
            match rule {
                Some(bytes) => Some(bytes@),
                None => None,
            },
            match attribute {
                Some(bytes) => Some(bytes@),
                None => None,
            },
            value@,
            dn,
        ),
{
}

/// What is made of other filters holds them in order.
pub proof fn made_lists_hold_their_filters(
    tags: Vec<Tag>,
    all: Tag,
    some: Tag,
    tag: Tag,
    none: Tag,
)
    requires
        call_ensures(conjunction, (tags,), all),
        call_ensures(disjunction, (tags,), some),
        call_ensures(negation, (tag,), none),
    ensures
        is_list(all@, TagClass::Context, 0, tags@.len()),
        forall|i: int| 0 <= i < tags@.len() ==> #[trigger] child(all@, i) == tags@[i]@,
        is_list(some@, TagClass::Context, 1, tags@.len()),
        forall|i: int| 0 <= i < tags@.len() ==> #[trigger] child(some@, i) == tags@[i]@,
        is_list(none@, TagClass::Context, 2, 1),
        child(none@, 0) == tag@,
{
}

proof fn lemma_rule(rule: Option<Seq<u8>>, attribute: Option<Seq<u8>>, value: Seq<u8>, dn: bool)
    ensures
        matches_rule(
            extensible_element(rule, attribute, value, dn),
            rule,
            attribute,
            value,
            dn,
        ),
{
}

proof fn lemma_equality(attribute: Seq<u8>, initial: Seq<u8>, parts: Seq<Seq<u8>>)
    ensures
        ({
            let e = equality_element(attribute, initial, parts);
            if parts.len() == 0 {
                compares(e, Comparison::Equal, attribute, initial)
            } else if initial.len() == 0 && parts.len() == 1 && parts[0].len() == 0 {
                is_bytes(e, TagClass::Context, 7, attribute)
            } else {
                let values = seq![initial] + parts;
                matches_parts(
                    e,
                    attribute,
                    given(values[0]),
                    values.subrange(1, values.len() - 1),
                    given(values.last()),
                )
            }
        }),
{
    let values = seq![initial] + parts;
    if parts.len() > 0 {
        assert(values.subrange(1, values.len() - 1) =~= parts.drop_last());
        assert(values.last() == parts.last());
        lemma_parts(attribute, given(initial), parts.drop_last(), given(parts.last()));
    }
}

/// Whether text is a filter in parentheses from its start to its end.
#[verifier::opaque]
spec fn is_filter(text: Seq<u8>, e: Element) -> bool {
    filter_at(text) == Some((e, Seq::<u8>::empty()))
}

#[verifier::rlimit(40)]
proof fn lemma_comparison_reads(
    kind: Comparison,
    attribute: Seq<u8>,
    text: Seq<u8>,
    value: Seq<u8>,
)
    requires
        is_description_text(attribute),
        denotes(text, value),
    ensures
        is_item(attribute + sign_text(kind) + text, assertion_element(kind, attribute, value)),
{
    reveal(is_item);
    descriptions_are_types_and_options(attribute);
    lemma_denotes(text, value);
    comparisons_read_back(kind, attribute, text, value);
    assert(attribute + sign_text(kind) + text =~= attribute + (sign_text(kind) + text));
}

#[verifier::rlimit(40)]
proof fn lemma_equality_reads(
    attribute: Seq<u8>,
    texts: Seq<Seq<u8>>,
    values: Seq<Seq<u8>>,
)
    requires
        is_description_text(attribute),
        1 <= texts.len() == values.len(),
        forall|k: int| 0 <= k < texts.len() ==> denotes(#[trigger] texts[k], values[k]),
        forall|k: int| 0 < k < values.len() - 1 ==> (#[trigger] values[k]).len() > 0,
    ensures
        is_item(
            attribute + seq![EQUALS] + texts[0] + starred(texts.drop_first()),
            equality_element(attribute, values[0], values.drop_first()),
        ),
{
    reveal(is_item);
    descriptions_are_types_and_options(attribute);
    let others = texts.drop_first();
    let parts = values.drop_first();
    assert(denotes(texts[0], values[0]));
    lemma_denotes(texts[0], values[0]);
    assert forall|k: int| 0 <= k < others.len() implies writes(#[trigger] others[k], parts[k]) by {
        assert(denotes(texts[k + 1], values[k + 1]));
        lemma_denotes(texts[k + 1], values[k + 1]);
    }
    assert forall|k: int| 0 <= k < parts.len() - 1 implies (#[trigger] parts[k]).len() > 0 by {
        assert(values[k + 1].len() > 0);
    }
    equality_items_read_back(attribute, texts[0], values[0], others, parts);
    assert(attribute + seq![EQUALS] + texts[0] + starred(others) =~= attribute + (seq![EQUALS] + (
    texts[0] + starred(others))));
}

spec fn extensible_text(
    subject: Option<Seq<u8>>,
    dn: bool,
    rule: Option<Seq<u8>>,
    text: Seq<u8>,
) -> Seq<u8> {
    let t = extension_text(dn, rule) + (seq![COLON, EQUALS] + text);
    match subject {
        Some(a) => a + t,
        None => t,
    }
}

#[verifier::rlimit(40)]
proof fn lemma_extensible_item(
    subject: Option<Seq<u8>>,
    dn: bool,
    rule: Option<Seq<u8>>,
    text: Seq<u8>,
    value: Seq<u8>,
)
    requires
        subject matches Some(a) ==> is_description(a),
        subject is None ==> rule is Some,
        distinct(dn, rule),
        writes(text, value),
    ensures
        is_item(
            extensible_text(subject, dn, rule, text),
            extensible_element(rule, subject, value, dn),
        ),
{
    reveal(is_item);
    extensible_items_read_back(subject, dn, rule, text, value);
}

proof fn lemma_extensible_reads(
    subject: Option<Seq<u8>>,
    dn: bool,
    rule: Option<Seq<u8>>,
    text: Seq<u8>,
    value: Seq<u8>,
)
    requires
        proper(Filter::Extensible { subject, dn, rule, text, value }),
    ensures
        is_item(
            item_text(Filter::Extensible { subject, dn, rule, text, value }),
            extensible_element(rule, subject, value, dn),
        ),
{
    if let Some(a) = subject {
        descriptions_are_types_and_options(a);
    }
    if let Some(r) = rule {
        descriptions_are_types_and_options(r);
    }
    lemma_denotes(text, value);
    lemma_extensible_item(subject, dn, rule, text, value);
    assert(item_text(Filter::Extensible { subject, dn, rule, text, value }) =~= extensible_text(
        subject,
        dn,
        rule,
        text,
    ));
}

/// The text of an item is read as what it means.
proof fn lemma_item_reads(f: Filter) -> (e: Element)
    requires
        proper(f),
        is_single(f),
    ensures
        is_item(item_text(f), e),
        means(e, f),
{
    match f {
        Filter::Compare { kind, attribute, text, value } => {
            lemma_comparison_reads(kind, attribute, text, value);
            assertion_element(kind, attribute, value)
        },
        Filter::Present { attribute } => {
            let empty = Seq::<u8>::empty();
            let none = seq![empty];
            let both = seq![empty, empty];
            lemma_equality_reads(attribute, both, both);
            assert(both.drop_first() =~= none);
            assert(none.drop_first() =~= Seq::<Seq<u8>>::empty());
            assert(starred(none.drop_first()) =~= empty);
            assert(starred(none) =~= seq![ASTERISK]);
            assert(item_text(f) =~= attribute + seq![EQUALS] + empty + starred(none));
            lemma_equality(attribute, empty, none);
            equality_element(attribute, empty, none)
        },
        Filter::Substrings { attribute, texts, values } => {
            lemma_equality_reads(attribute, texts, values);
            lemma_equality(attribute, values[0], values.drop_first());
            assert(seq![values[0]] + values.drop_first() =~= values);
            equality_element(attribute, values[0], values.drop_first())
        },
        Filter::Extensible { subject, dn, rule, text, value } => {
            lemma_extensible_reads(subject, dn, rule, text, value);
            lemma_rule(rule, subject, value, dn);
            extensible_element(rule, subject, value, dn)
        },
        _ => arbitrary(),
    }
}

#[verifier::rlimit(40)]
proof fn lemma_wrapped_item_reads(text: Seq<u8>, e: Element)
    requires
        is_item(text, e),
    ensures
        is_filter(seq![PAREN_OPEN] + text + seq![PAREN_CLOSE], e),
{
    reveal(is_item);
    reveal(is_filter);
    parentheses_around_an_item_change_nothing(text, e);
}

#[verifier::rlimit(40)]
proof fn lemma_list_reads(texts: Seq<Seq<u8>>, es: Seq<Element>)
    requires
        texts.len() == es.len(),
        forall|k: int| 0 <= k < texts.len() ==> is_filter(#[trigger] texts[k], es[k]),
    ensures
        is_filter(
            seq![PAREN_OPEN] + (seq![AMPERSAND] + joined(texts)) + seq![PAREN_CLOSE],
            conjunction_element(es),
        ),
        is_filter(
            seq![PAREN_OPEN] + (seq![BAR] + joined(texts)) + seq![PAREN_CLOSE],
            disjunction_element(es),
        ),
        texts.len() == 1 ==> is_filter(
            seq![PAREN_OPEN] + (seq![EXCLAMATION] + texts[0]) + seq![PAREN_CLOSE],
            negation_element(es[0]),
        ),
{
    reveal(is_filter);
    filters_compose(texts, es);
    let close = seq![PAREN_CLOSE];
    assert(seq![PAREN_OPEN] + (seq![AMPERSAND] + joined(texts)) + close =~= seq![
        PAREN_OPEN,
        AMPERSAND,
    ] + joined(texts) + close);
    assert(seq![PAREN_OPEN] + (seq![BAR] + joined(texts)) + close =~= seq![PAREN_OPEN, BAR]
        + joined(texts) + close);
    if texts.len() == 1 {
        assert(seq![PAREN_OPEN] + (seq![EXCLAMATION] + texts[0]) + close =~= seq![
            PAREN_OPEN,
            EXCLAMATION,
        ] + texts[0] + close);
    }
}

/// The text of a filter in parentheses is read as what it means.
proof fn lemma_filter_reads(f: Filter) -> (e: Element)
    requires
        proper(f),
    ensures
        is_filter(text_of(f), e),
        means(e, f),
    decreases f,
{
    match f {
        Filter::And(fs) => {
            let (texts, es) = lemma_filters_read(fs);
            lemma_list_reads(texts, es);
            let e = conjunction_element(es);
            assert forall|i: int| 0 <= i < fs.len() implies means(
                #[trigger] child(e, i),
                fs[i],
            ) by {
                assert(means(es[i], fs[i]));
            }
            e
        },
        Filter::Or(fs) => {
            let (texts, es) = lemma_filters_read(fs);
            lemma_list_reads(texts, es);
            let e = disjunction_element(es);
            assert forall|i: int| 0 <= i < fs.len() implies means(
                #[trigger] child(e, i),
                fs[i],
            ) by {
                assert(means(es[i], fs[i]));
            }
            e
        },
        Filter::Not(inner) => {
            let e = lemma_filter_reads(*inner);
            lemma_list_reads(seq![text_of(*inner)], seq![e]);
            negation_element(e)
        },
        _ => {
            let e = lemma_item_reads(f);
            lemma_wrapped_item_reads(item_text(f), e);
            e
        },
    }
}

proof fn lemma_filters_read(fs: Seq<Filter>) -> (r: (Seq<Seq<u8>>, Seq<Element>))
    requires
        forall|i: int| 0 <= i < fs.len() ==> proper(#[trigger] fs[i]),
    ensures
        r.0.len() == r.1.len() == fs.len(),
        joined(r.0) == texts_of(fs),
        forall|k: int| 0 <= k < r.0.len() ==> is_filter(#[trigger] r.0[k], r.1[k]),
        forall|k: int| 0 <= k < r.1.len() ==> means(#[trigger] r.1[k], fs[k]),
    decreases fs,
{
    if fs.len() == 0 {
        (Seq::empty(), Seq::empty())
    } else {
        let others = fs.drop_first();
        assert(proper(fs[0]));
        assert forall|i: int| 0 <= i < others.len() implies proper(#[trigger] others[i]) by {
            assert(others[i] == fs[i + 1]);
        }
        let e = lemma_filter_reads(fs[0]);
        let (more, es) = lemma_filters_read(others);
        let texts = seq![text_of(fs[0])] + more;
        let all = seq![e] + es;
        assert(texts.drop_first() =~= more);
        assert forall|k: int| 0 <= k < texts.len() implies is_filter(
            #[trigger] texts[k],
            all[k],
        ) by {
            if k > 0 {
                assert(texts[k] == more[k - 1]);
                assert(all[k] == es[k - 1]);
            }
        }
        assert forall|k: int| 0 <= k < all.len() implies means(#[trigger] all[k], fs[k]) by {
            if k > 0 {
                assert(all[k] == es[k - 1]);
                assert(fs[k] == others[k - 1]);
            }
        }
        (texts, all)
    }
}

/// Whether the start of the input is the text of an item that means the element, and what follows
/// it is the end.
spec fn starts_with_item(i: Seq<u8>, f: Filter, e: Element, end: Seq<u8>) -> bool {
    &&& is_single(f)
    &&& proper(f)
    &&& means(e, f)
    &&& i == item_text(f) + end
}

/// A value that was read is denoted by its text.
proof fn lemma_value_is_text(i: Seq<u8>) -> (text: Seq<u8>)
    requires
        value_at(i) is Some,
    ensures
        denotes(text, (value_at(i)->0).0),
        i == text + (value_at(i)->0).1,
{
    let n = span(i, CharClass::Value) as int;
    let text = i.take(n);
    let (value, end) = value_at(i)->0;
    lemma_span(i, CharClass::Value);
    what_reads_back_is_a_writing(text, value);
    lemma_denotes(text, value);
    assert(i =~= text + end);
    text
}

proof fn lemma_parts_are_texts(i: Seq<u8>) -> (texts: Seq<Seq<u8>>)
    ensures
        texts.len() == star_parts(i).0.len(),
        forall|k: int|
            0 <= k < texts.len() ==> denotes(#[trigger] texts[k], star_parts(i).0[k]),
        i == starred(texts) + star_parts(i).1,
    decreases i.len(),
{
    let none = Seq::<Seq<u8>>::empty();
    if i.len() > 0 && i[0] == ASTERISK && value_at(i.skip(1)) is Some {
        let (value, after) = value_at(i.skip(1))->0;
        let text = lemma_value_is_text(i.skip(1));
        assert(i.skip(1).len() == text.len() + after.len());
        let more = lemma_parts_are_texts(after);
        let texts = seq![text] + more;
        let (parts, end) = star_parts(after);
        assert(star_parts(i) == (seq![value] + parts, end));
        assert(texts.drop_first() =~= more);
        assert forall|k: int| 0 <= k < texts.len() implies denotes(
            #[trigger] texts[k],
            star_parts(i).0[k],
        ) by {
            if k > 0 {
                assert(texts[k] == more[k - 1]);
            }
        }
        assert(i =~= seq![ASTERISK] + i.skip(1));
        assert(i =~= starred(texts) + end);
        texts
    } else {
        assert(starred(none) + i =~= i);
        none
    }
}

proof fn lemma_equality_is_text(i: Seq<u8>) -> (f: Filter)
    requires
        eq_at(i) is Some,
    ensures
        starts_with_item(i, f, (eq_at(i)->0).0, (eq_at(i)->0).1),
{
    let n = description_len(i) as int;
    lemma_description_is_text(i);
    let attribute = i.take(n);
    let j = i.skip(n);
    assert(j.take(1) =~= seq![EQUALS]);
    let (initial, k) = value_at(j.skip(1))->0;
    let text = lemma_value_is_text(j.skip(1));
    let others = lemma_parts_are_texts(k);
    let (parts, end) = star_parts(k);
    assert(i =~= attribute + j);
    assert(j =~= seq![EQUALS] + j.skip(1));
    assert(i =~= attribute + seq![EQUALS] + text + starred(others) + end);
    lemma_equality(attribute, initial, parts);
    if parts.len() == 0 {
        let f = Filter::Compare { kind: Comparison::Equal, attribute, text, value: initial };
        assert(starred(others) =~= Seq::<u8>::empty());
        assert(i =~= item_text(f) + end);
        f
    } else if initial.len() == 0 && parts.len() == 1 && parts[0].len() == 0 {
        let f = Filter::Present { attribute };
        assert(denotes(others[0], parts[0]));
        assert(others.drop_first() =~= Seq::<Seq<u8>>::empty());
        assert(starred(others.drop_first()) =~= Seq::<u8>::empty());
        assert(starred(others) =~= seq![ASTERISK]);
        assert(i =~= item_text(f) + end);
        f
    } else {
        let texts = seq![text] + others;
        let values = seq![initial] + parts;
        let f = Filter::Substrings { attribute, texts, values };
        assert(texts.drop_first() =~= others);
        assert forall|m: int| 0 <= m < texts.len() implies denotes(
            #[trigger] texts[m],
            values[m],
        ) by {
            if m > 0 {
                assert(texts[m] == others[m - 1]);
            }
        }
        assert forall|m: int| 0 < m < values.len() - 1 implies (#[trigger] values[m]).len()
            > 0 by {
            assert(parts[m - 1].len() > 0);
        }
        assert(i =~= item_text(f) + end);
        f
    }
}

proof fn lemma_comparison_is_text(i: Seq<u8>) -> (f: Filter)
    requires
        non_eq_at(i) is Some,
    ensures
        starts_with_item(i, f, (non_eq_at(i)->0).0, (non_eq_at(i)->0).1),
{
    let n = description_len(i) as int;
    lemma_description_is_text(i);
    let attribute = i.take(n);
    let j = i.skip(n);
    let (kind, k) = sign_at(j)->0;
    let (value, end) = value_at(k)->0;
    let text = lemma_value_is_text(k);
    let f = Filter::Compare { kind, attribute, text, value };
    assert(i =~= attribute + j);
    assert(j =~= sign_text(kind) + k);
    assert(i =~= item_text(f) + end);
    f
}

/// What stands between an attribute and the value of an extensible item.
proof fn lemma_extension_is_text(i: Seq<u8>) -> (text: Seq<u8>)
    requires
        assigned_at(rule_at(dn_at(i).1).1) is Some,
    ensures
        ({
            let (dn, j) = dn_at(i);
            let (rule, k) = rule_at(j);
            let (value, end) = assigned_at(k)->0;
            &&& rule matches Some(r) ==> is_type_text(r) && (dn || r.len() < 2 || r[0] != LOWER_D
                || r[1] != LOWER_N)
            &&& denotes(text, value)
            &&& i == extension_text(dn, rule) + seq![COLON, EQUALS] + text + end
        }),
{
    let (dn, j) = dn_at(i);
    let (rule, k) = rule_at(j);
    let (value, end) = assigned_at(k)->0;
    assert(k.take(2) =~= seq![COLON, EQUALS]);
    let text = lemma_value_is_text(k.skip(2));
    assert(k =~= seq![COLON, EQUALS] + k.skip(2));
    if let Some(r) = rule {
        let l = j.skip(1);
        lemma_type_is_text(l);
        assert(j.take(1) =~= seq![COLON]);
        assert(j =~= seq![COLON] + l);
        assert(l =~= r + k);
        if !dn && r.len() >= 2 && r[0] == LOWER_D && r[1] == LOWER_N {
            assert(i.take(3) =~= seq![COLON, LOWER_D, LOWER_N]);
        }
    }
    if dn {
        assert(i.take(3) =~= seq![COLON, LOWER_D, LOWER_N]);
        assert(i =~= seq![COLON, LOWER_D, LOWER_N] + j);
    }
    assert(i =~= extension_text(dn, rule) + seq![COLON, EQUALS] + text + end);
    text
}

proof fn lemma_subject_rule_is_text(i: Seq<u8>) -> (f: Filter)
    requires
        attr_dn_mrule_at(i) is Some,
    ensures
        starts_with_item(i, f, (attr_dn_mrule_at(i)->0).0, (attr_dn_mrule_at(i)->0).1),
{
    let n = description_len(i) as int;
    lemma_description_is_text(i);
    let attribute = i.take(n);
    let (dn, j) = dn_at(i.skip(n));
    let (rule, k) = rule_at(j);
    let (value, end) = assigned_at(k)->0;
    let text = lemma_extension_is_text(i.skip(n));
    let f = Filter::Extensible { subject: Some(attribute), dn, rule, text, value };
    lemma_rule(rule, Some(attribute), value, dn);
    assert(i =~= attribute + i.skip(n));
    assert(i =~= item_text(f) + end);
    f
}

proof fn lemma_rule_is_text(i: Seq<u8>) -> (f: Filter)
    requires
        dn_mrule_at(i) is Some,
    ensures
        starts_with_item(i, f, (dn_mrule_at(i)->0).0, (dn_mrule_at(i)->0).1),
{
    let (dn, j) = dn_at(i);
    let (rule, k) = rule_at(j);
    let (value, end) = assigned_at(k)->0;
    let text = lemma_extension_is_text(i);
    let f = Filter::Extensible { subject: None, dn, rule, text, value };
    lemma_rule(rule, None, value, dn);
    assert(i =~= item_text(f) + end);
    f
}

/// An item that was read means what its text says.
proof fn lemma_item_is_text(i: Seq<u8>) -> (f: Filter)
    requires
        item_at(i) is Some,
    ensures
        starts_with_item(i, f, (item_at(i)->0).0, (item_at(i)->0).1),
{
    if eq_at(i) is Some {
        lemma_equality_is_text(i)
    } else if non_eq_at(i) is Some {
        lemma_comparison_is_text(i)
    } else if attr_dn_mrule_at(i) is Some {
        lemma_subject_rule_is_text(i)
    } else {
        lemma_rule_is_text(i)
    }
}

/// A filter in parentheses that was read means what its text says.
#[verifier::rlimit(40)]
proof fn lemma_filter_is_text(i: Seq<u8>) -> (f: Filter)
    requires
        filter_at(i) is Some,
    ensures
        proper(f),
        means((filter_at(i)->0).0, f),
        i == text_of(f) + (filter_at(i)->0).1,
    decreases i.len(), 0nat,
{
    let j = i.skip(1);
    let (e, end) = filter_at(i)->0;
    let (_, k) = component_at(j)->0;
    let close = seq![PAREN_CLOSE];
    assert(i.take(1) =~= seq![PAREN_OPEN]);
    assert(i =~= seq![PAREN_OPEN] + j);
    assert(k.take(1) =~= close);
    assert(k =~= close + end);
    if j.len() > 0 && (j[0] == AMPERSAND || j[0] == BAR) {
        let fs = lemma_filters_are_texts(j.skip(1));
        let es = filters_at(j.skip(1)).0;
        assert forall|m: int| 0 <= m < fs.len() implies means(#[trigger] child(e, m), fs[m]) by {
            assert(means(es[m], fs[m]));
        }
        assert(j =~= seq![j[0]] + j.skip(1));
        let f = if j[0] == AMPERSAND {
            Filter::And(fs)
        } else {
            Filter::Or(fs)
        };
        assert(i =~= text_of(f) + end);
        f
    } else if j.len() > 0 && j[0] == EXCLAMATION {
        let inner = lemma_filter_is_text(j.skip(1));
        let f = Filter::Not(Box::new(inner));
        assert(j =~= seq![EXCLAMATION] + j.skip(1));
        assert(i =~= text_of(f) + end);
        f
    } else {
        let f = lemma_item_is_text(j);
        assert(i =~= text_of(f) + end);
        f
    }
}

#[verifier::rlimit(40)]
proof fn lemma_filters_are_texts(i: Seq<u8>) -> (fs: Seq<Filter>)
    ensures
        fs.len() == filters_at(i).0.len(),
        forall|k: int| 0 <= k < fs.len() ==> proper(#[trigger] fs[k]),
        forall|k: int| 0 <= k < fs.len() ==> means(#[trigger] filters_at(i).0[k], fs[k]),
        i == texts_of(fs) + filters_at(i).1,
    decreases i.len(), 1nat,
{
    match filter_at(i) {
        Some((e, j)) if j.len() < i.len() => {
            let first = lemma_filter_is_text(i);
            let more = lemma_filters_are_texts(j);
            let fs = seq![first] + more;
            let (es, end) = filters_at(j);
            let all = seq![e] + es;
            assert(filters_at(i) == (all, end));
            assert(fs.drop_first() =~= more);
            assert forall|k: int| 0 <= k < fs.len() implies proper(#[trigger] fs[k]) by {
                if k > 0 {
                    assert(fs[k] == more[k - 1]);
                }
            }
            assert forall|k: int| 0 <= k < fs.len() implies means(#[trigger] all[k], fs[k]) by {
                if k > 0 {
                    assert(all[k] == es[k - 1]);
                    assert(fs[k] == more[k - 1]);
                }
            }
            assert(i =~= texts_of(fs) + end);
            fs
        },
        _ => {
            let none = Seq::<Filter>::empty();
            assert(texts_of(none) + i =~= i);
            none
        },
    }
}

/// Whether the input is the text of the filter, in parentheses, or without them for an item.
pub open spec fn is_text_of(input: Seq<u8>, f: Filter) -> bool {
    input == text_of(f) || is_single(f) && input == item_text(f)
}

/// Every text of a filter is read as what the filter means: each part in its place, in the order
/// of the text, with the bytes that its text denotes.
#[verifier::rlimit(40)]
pub proof fn filters_are_read(input: &[u8], r: Result<Tag, ()>, f: Filter)
    requires
        call_ensures(parse, (input,), r),
        proper(f),
        is_text_of(input@, f),
    ensures
        r matches Ok(tag) && means(tag@, f),
{
    if input@ == text_of(f) {
        reveal(is_filter);
        let e = lemma_filter_reads(f);
    } else {
        let e = lemma_item_reads(f);
        lemma_bare(input@, e);
    }
}

/// Whatever is read is the text of a filter, and means that filter: no other text is accepted.
#[verifier::rlimit(40)]
pub proof fn only_filters_are_read(input: &[u8], tag: Tag)
    requires
        call_ensures(parse, (input,), Ok(tag)),
    ensures
        exists|f: Filter| proper(f) && #[trigger] is_text_of(input@, f) && means(tag@, f),
{
    let i = input@;
    let none = Seq::<u8>::empty();
    if filter_at(i) is Some {
        let f = lemma_filter_is_text(i);
        assert((filter_at(i)->0).1 =~= none);
        assert(i =~= text_of(f));
        assert(is_text_of(i, f));
    } else {
        let f = lemma_item_is_text(i);
        assert((item_at(i)->0).1 =~= none);
        assert(i =~= item_text(f));
        assert(is_text_of(i, f));
    }
}

/// Whether the element is the list of items, in order.
pub open spec fn lists(e: Element, fs: Seq<Filter>) -> bool {
    &&& fs.len() >= 1
    &&& is_list(e, TagClass::Universal, 16, fs.len())
    &&& forall|k: int|
        0 <= k < fs.len() ==> is_single(fs[k]) && proper(fs[k]) && means(
            #[trigger] child(e, k),
            fs[k],
        )
}

/// Whether each filter is an item with a text.
pub open spec fn are_single(fs: Seq<Filter>) -> bool {
    forall|k: int| 0 <= k < fs.len() ==> is_single(#[trigger] fs[k]) && proper(fs[k])
}

proof fn lemma_items_read(fs: Seq<Filter>) -> (r: (Seq<Seq<u8>>, Seq<Element>))
    requires
        are_single(fs),
    ensures
        r.0.len() == r.1.len() == fs.len(),
        are_items(r.0, r.1),
        bracketed(r.0) == texts_of(fs),
        forall|k: int| 0 <= k < r.1.len() ==> means(#[trigger] r.1[k], fs[k]),
    decreases fs.len(),
{
    if fs.len() == 0 {
        (Seq::empty(), Seq::empty())
    } else {
        let others = fs.drop_first();
        assert(is_single(fs[0]) && proper(fs[0]));
        assert forall|k: int| 0 <= k < others.len() implies is_single(#[trigger] others[k])
            && proper(others[k]) by {
            assert(others[k] == fs[k + 1]);
        }
        let e = lemma_item_reads(fs[0]);
        let (more, es) = lemma_items_read(others);
        let texts = seq![item_text(fs[0])] + more;
        assert(text_of(fs[0]) == seq![PAREN_OPEN] + item_text(fs[0]) + seq![PAREN_CLOSE]);
        let all = seq![e] + es;
        assert(texts.drop_first() =~= more);
        assert forall|k: int| 0 <= k < texts.len() implies is_item(
            #[trigger] texts[k],
            all[k],
        ) by {
            if k > 0 {
                assert(texts[k] == more[k - 1]);
                assert(all[k] == es[k - 1]);
            }
        }
        assert forall|k: int| 0 <= k < all.len() implies means(#[trigger] all[k], fs[k]) by {
            if k > 0 {
                assert(all[k] == es[k - 1]);
                assert(fs[k] == others[k - 1]);
            }
        }
        (texts, all)
    }
}

proof fn lemma_items_are_texts(texts: Seq<Seq<u8>>, es: Seq<Element>) -> (fs: Seq<Filter>)
    requires
        are_items(texts, es),
    ensures
        are_single(fs),
        fs.len() == es.len(),
        bracketed(texts) == texts_of(fs),
        forall|k: int| 0 <= k < es.len() ==> means(#[trigger] es[k], fs[k]),
    decreases texts.len(),
{
    if texts.len() == 0 {
        Seq::empty()
    } else {
        let others = texts.drop_first();
        let rest = es.drop_first();
        assert(is_item(texts[0], es[0]));
        assert forall|k: int| 0 <= k < others.len() implies is_item(
            #[trigger] others[k],
            rest[k],
        ) by {
            assert(is_item(texts[k + 1], es[k + 1]));
        }
        let first = lemma_whole_item_is_text(texts[0], es[0]);
        assert(text_of(first) == seq![PAREN_OPEN] + texts[0] + seq![PAREN_CLOSE]);
        let more = lemma_items_are_texts(others, rest);
        let fs = seq![first] + more;
        assert(fs.drop_first() =~= more);
        assert forall|k: int| 0 <= k < fs.len() implies is_single(#[trigger] fs[k]) && proper(
            fs[k],
        ) by {
            if k > 0 {
                assert(fs[k] == more[k - 1]);
            }
        }
        assert forall|k: int| 0 <= k < es.len() implies means(#[trigger] es[k], fs[k]) by {
            if k > 0 {
                assert(es[k] == rest[k - 1]);
                assert(fs[k] == more[k - 1]);
            }
        }
        fs
    }
}

proof fn lemma_whole_item_is_text(text: Seq<u8>, e: Element) -> (f: Filter)
    requires
        is_item(text, e),
    ensures
        is_single(f),
        proper(f),
        means(e, f),
        text == item_text(f),
{
    reveal(is_item);
    let f = lemma_item_is_text(text);
    assert(text =~= item_text(f));
    f
}

/// A list of items in parentheses, in parentheses, is read as matched values: the items in order.
pub proof fn matched_values_are_read(input: &[u8], r: Result<Tag, ()>, fs: Seq<Filter>)
    requires
        call_ensures(parse_matched_values, (input,), r),
        fs.len() >= 1,
        are_single(fs),
        input@ == seq![PAREN_OPEN] + texts_of(fs) + seq![PAREN_CLOSE],
    ensures
        r matches Ok(tag) && lists(tag@, fs),
{
    let (texts, es) = lemma_items_read(fs);
    lemma_bare_filters(texts, es);
    let e = constructed(TagClass::Universal, SEQUENCE, es);
    assert(lists_items(input@, texts, es));
    matched_values_are_a_list_of_items(input@, e);
    assert forall|k: int| 0 <= k < fs.len() implies is_single(fs[k]) && proper(fs[k]) && means(
        #[trigger] child(e, k),
        fs[k],
    ) by {
        assert(is_single(fs[k]));
        assert(means(es[k], fs[k]));
    }
}

/// Whatever is read as matched values is such a list.
pub proof fn only_lists_are_matched_values(input: &[u8], tag: Tag)
    requires
        call_ensures(parse_matched_values, (input,), Ok(tag)),
    ensures
        exists|fs: Seq<Filter>| #[trigger]
            lists(tag@, fs) && input@ == seq![PAREN_OPEN] + texts_of(fs) + seq![PAREN_CLOSE],
{
    let e = tag@;
    matched_values_are_a_list_of_items(input@, e);
    let (texts, es) = choose|texts: Seq<Seq<u8>>, es: Seq<Element>| #[trigger]
        lists_items(input@, texts, es) && e == constructed(TagClass::Universal, SEQUENCE, es);
    lemma_bare_filters(texts, es);
    let fs = lemma_items_are_texts(texts, es);
    assert forall|k: int| 0 <= k < fs.len() implies is_single(fs[k]) && proper(fs[k]) && means(
        #[trigger] child(e, k),
        fs[k],
    ) by {
        assert(is_single(fs[k]));
        assert(means(es[k], fs[k]));
    }
    assert(lists(e, fs));
}

} // verus!
