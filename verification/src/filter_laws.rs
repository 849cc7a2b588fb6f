//! What holds of search filters as a whole.
use crate::ascii::{
    AMPERSAND, ASTERISK, BACKSLASH, BAR, COLON, DIGIT_0, DOT, EQUALS, EXCLAMATION, GREATER, LESS,
    LOWER_A, LOWER_D, LOWER_N, PAREN_CLOSE, PAREN_OPEN, SEMICOLON, TILDE,
};
use crate::asn1::{constructed, Body, Element, TagClass, SEQUENCE};
use crate::filter::{whole, Comparison};
use crate::filter_grammar::{
    alphabetic, assertion_element, assigned_at, attr_dn_mrule_at, closed_by_parenthesis,
    component_at, conjunction_element, description_len, digit, disjunction_element, dn_at,
    dn_mrule_at, dotted_len, eq_at, equality_element, extensible_element, filter_at, filters_at,
    filtexpr_at, hex, item_at, lemma_description, lemma_span, mv_filtexpr_at, mv_item_at,
    mv_items_at, negation_element, non_eq_at, number_len, options_len, rule_at, separated, sign_at,
    span, star_parts, strip, type_len, unescape, value_at, CharClass, Parsed,
};
use crate::write::{all_encodable, encodable};
use vstd::prelude::*;

verus! {

/// Text that neither continues an attribute description nor is empty.
pub open spec fn ends_description(t: Seq<u8>) -> bool {
    t.len() > 0 && !CharClass::Keyword.has(t[0]) && t[0] != DOT && t[0] != SEMICOLON
}

/// A run of characters ends where text follows that does not start with one of the class.
proof fn lemma_span_append(a: Seq<u8>, t: Seq<u8>, class: CharClass)
    requires
        t.len() > 0,
        !class.has(t[0]),
    ensures
        span(a + t, class) == span(a, class),
    decreases a.len(),
{
    if a.len() > 0 {
        assert((a + t)[0] == a[0]);
        if class.has(a[0]) {
            lemma_span_append(a.skip(1), t, class);
            assert((a + t).skip(1) =~= a.skip(1) + t);
        }
    } else {
        assert(a + t =~= t);
    }
}

proof fn lemma_number_append(a: Seq<u8>, t: Seq<u8>)
    requires
        ends_description(t),
    ensures
        number_len(a + t) == number_len(a),
{
    lemma_span_append(a, t, CharClass::Digit);
    lemma_span(a, CharClass::Digit);
}

proof fn lemma_dotted_append(a: Seq<u8>, t: Seq<u8>)
    requires
        ends_description(t),
    ensures
        dotted_len(a + t) == dotted_len(a),
    decreases a.len(),
{
    if a.len() > 0 {
        lemma_span(a.skip(1), CharClass::Digit);
        assert((a + t).skip(1) =~= a.skip(1) + t);
        lemma_number_append(a.skip(1), t);
        let n = number_len(a.skip(1)) as int;
        if a[0] == DOT && n > 0 {
            lemma_dotted_append(a.skip(1 + n), t);
            assert((a + t).skip(1 + n) =~= a.skip(1 + n) + t);
        }
    } else {
        assert(a + t =~= t);
    }
}

proof fn lemma_options_append(a: Seq<u8>, t: Seq<u8>)
    requires
        ends_description(t),
    ensures
        options_len(a + t) == options_len(a),
    decreases a.len(),
{
    if a.len() > 0 {
        lemma_span(a.skip(1), CharClass::Keyword);
        assert((a + t).skip(1) =~= a.skip(1) + t);
        lemma_span_append(a.skip(1), t, CharClass::Keyword);
        let n = span(a.skip(1), CharClass::Keyword) as int;
        if a[0] == SEMICOLON && n > 0 {
            lemma_options_append(a.skip(1 + n), t);
            assert((a + t).skip(1 + n) =~= a.skip(1 + n) + t);
        }
    } else {
        assert(a + t =~= t);
    }
}

proof fn lemma_type_append(a: Seq<u8>, t: Seq<u8>)
    requires
        ends_description(t),
    ensures
        type_len(a + t) == type_len(a),
{
    lemma_number_append(a, t);
    lemma_span(a, CharClass::Digit);
    let n = number_len(a) as int;
    lemma_dotted_append(a.skip(n), t);
    assert((a + t).skip(n) =~= a.skip(n) + t);
    if a.len() > 0 {
        assert((a + t).skip(1) =~= a.skip(1) + t);
        lemma_span_append(a.skip(1), t, CharClass::Keyword);
    } else {
        assert(a + t =~= t);
    }
}

proof fn lemma_description_append(a: Seq<u8>, t: Seq<u8>)
    requires
        ends_description(t),
    ensures
        description_len(a + t) == description_len(a),
{
    lemma_type_append(a, t);
    lemma_description(a);
    let n = type_len(a) as int;
    lemma_options_append(a.skip(n), t);
    assert((a + t).skip(n) =~= a.skip(n) + t);
}

/// An outcome with more input behind it.
pub open spec fn followed(p: Parsed, t: Seq<u8>) -> Parsed {
    match p {
        Some((e, end)) => Some((e, end + t)),
        None => None,
    }
}

proof fn lemma_value_append(a: Seq<u8>, t: Seq<u8>)
    requires
        t.len() > 0,
        !CharClass::Value.has(t[0]),
    ensures
        value_at(a + t) == (match value_at(a) {
            Some((value, end)) => Some((value, end + t)),
            None => None,
        }),
{
    lemma_span_append(a, t, CharClass::Value);
    lemma_span(a, CharClass::Value);
    let n = span(a, CharClass::Value) as int;
    assert((a + t).take(n) =~= a.take(n));
    assert((a + t).skip(n) =~= a.skip(n) + t);
}

/// A prefix is found or missed in the same way where text follows that it has no character of.
proof fn lemma_strip_append(a: Seq<u8>, t: Seq<u8>, prefix: Seq<u8>)
    requires
        t.len() > 0,
        !prefix.contains(t[0]),
    ensures
        strip(a + t, prefix) == (match strip(a, prefix) {
            Some(end) => Some(end + t),
            None => None,
        }),
{
    let n = prefix.len() as int;
    if a.len() >= n {
        assert((a + t).take(n) =~= a.take(n));
        assert((a + t).skip(n) =~= a.skip(n) + t);
    } else if a.len() + t.len() >= n {
        let k = a.len() as int;
        assert((a + t).take(n)[k] == t[0]);
        assert(prefix.contains(prefix[k]));
    }
}

proof fn lemma_star_parts_append(a: Seq<u8>, t: Seq<u8>)
    requires
        t.len() > 0,
        t[0] == PAREN_CLOSE,
    ensures
        star_parts(a + t) == (star_parts(a).0, star_parts(a).1 + t),
    decreases a.len(),
{
    if a.len() > 0 {
        assert((a + t).skip(1) =~= a.skip(1) + t);
        lemma_value_append(a.skip(1), t);
        if a[0] == ASTERISK {
            if let Some((value, after)) = value_at(a.skip(1)) {
                lemma_span(a.skip(1), CharClass::Value);
                lemma_star_parts_append(after, t);
            }
        }
    } else {
        assert(a + t =~= t);
    }
}

proof fn lemma_assigned_append(a: Seq<u8>, t: Seq<u8>)
    requires
        t.len() > 0,
        t[0] == PAREN_CLOSE,
    ensures
        dn_at(a + t) == (dn_at(a).0, dn_at(a).1 + t),
        rule_at(a + t) == (rule_at(a).0, rule_at(a).1 + t),
        assigned_at(a + t) == (match assigned_at(a) {
            Some((value, end)) => Some((value, end + t)),
            None => None,
        }),
{
    lemma_strip_append(a, t, seq![COLON, LOWER_D, LOWER_N]);
    lemma_strip_append(a, t, seq![COLON]);
    lemma_strip_append(a, t, seq![COLON, EQUALS]);
    if let Some(j) = strip(a, seq![COLON]) {
        lemma_type_append(j, t);
        lemma_description(j);
        let n = type_len(j) as int;
        assert((j + t).take(n) =~= j.take(n));
        assert((j + t).skip(n) =~= j.skip(n) + t);
    }
    if let Some(j) = strip(a, seq![COLON, EQUALS]) {
        lemma_value_append(j, t);
    }
}

proof fn lemma_description_split(a: Seq<u8>, t: Seq<u8>)
    requires
        t.len() > 0,
        t[0] == PAREN_CLOSE,
    ensures
        description_len(a + t) == description_len(a) <= a.len(),
        (a + t).take(description_len(a) as int) == a.take(description_len(a) as int),
        (a + t).skip(description_len(a) as int) == a.skip(description_len(a) as int) + t,
{
    lemma_description_append(a, t);
    lemma_description(a);
    let n = description_len(a) as int;
    assert((a + t).take(n) =~= a.take(n));
    assert((a + t).skip(n) =~= a.skip(n) + t);
}

proof fn lemma_eq_append(a: Seq<u8>, t: Seq<u8>)
    requires
        t.len() > 0,
        t[0] == PAREN_CLOSE,
    ensures
        eq_at(a + t) == followed(eq_at(a), t),
{
    lemma_description_split(a, t);
    let j = a.skip(description_len(a) as int);
    lemma_strip_append(j, t, seq![EQUALS]);
    if let Some(k) = strip(j, seq![EQUALS]) {
        lemma_value_append(k, t);
        if let Some((initial, l)) = value_at(k) {
            lemma_star_parts_append(l, t);
        }
    }
}

proof fn lemma_non_eq_append(a: Seq<u8>, t: Seq<u8>)
    requires
        t.len() > 0,
        t[0] == PAREN_CLOSE,
    ensures
        non_eq_at(a + t) == followed(non_eq_at(a), t),
{
    lemma_description_split(a, t);
    let j = a.skip(description_len(a) as int);
    if j.len() >= 2 {
        assert((j + t).skip(2) =~= j.skip(2) + t);
        lemma_value_append(j.skip(2), t);
    } else if j.len() == 1 {
        assert((j + t)[1] == PAREN_CLOSE);
    } else {
        assert((j + t)[0] == PAREN_CLOSE);
    }
}

proof fn lemma_attr_rule_append(a: Seq<u8>, t: Seq<u8>)
    requires
        t.len() > 0,
        t[0] == PAREN_CLOSE,
    ensures
        attr_dn_mrule_at(a + t) == followed(attr_dn_mrule_at(a), t),
{
    lemma_description_split(a, t);
    let j = a.skip(description_len(a) as int);
    lemma_assigned_append(j, t);
    lemma_assigned_append(dn_at(j).1, t);
    lemma_assigned_append(rule_at(dn_at(j).1).1, t);
}

/// An item is the same with a closing parenthesis behind it.
#[verifier::rlimit(40)]
proof fn lemma_item_append(a: Seq<u8>, t: Seq<u8>)
    requires
        t.len() > 0,
        t[0] == PAREN_CLOSE,
    ensures
        item_at(a + t) == followed(item_at(a), t),
{
    lemma_eq_append(a, t);
    lemma_non_eq_append(a, t);
    lemma_attr_rule_append(a, t);
    lemma_assigned_append(a, t);
    lemma_assigned_append(dn_at(a).1, t);
    lemma_assigned_append(rule_at(dn_at(a).1).1, t);
}

#[verifier::rlimit(40)]
proof fn lemma_item_start(i: Seq<u8>)
    requires
        item_at(i) is Some,
    ensures
        i.len() > 0,
        i[0] != AMPERSAND,
        i[0] != BAR,
        i[0] != EXCLAMATION,
        i[0] != PAREN_OPEN,
{
    lemma_span(i, CharClass::Digit);
    lemma_description(i);
    if description_len(i) == 0 {
        if dn_at(i).0 {
            assert(i.take(3)[0] == i[0]);
        } else {
            assert(i.take(1)[0] == i[0]);
        }
    }
}

/// An item stands for the same filter with and without parentheses around it.
#[verifier::rlimit(40)]
pub proof fn parentheses_around_an_item_change_nothing(i: Seq<u8>, e: Element)
    requires
        item_at(i) == Some((e, Seq::<u8>::empty())),
    ensures
        filter_at(seq![PAREN_OPEN] + i + seq![PAREN_CLOSE]) == Some((e, Seq::<u8>::empty())),
{
    let t = seq![PAREN_CLOSE];
    let whole = seq![PAREN_OPEN] + i + t;
    lemma_item_start(i);
    lemma_item_append(i, t);
    assert(component_at(i + t) == item_at(i + t));
    assert(whole.take(1) =~= seq![PAREN_OPEN]);
    assert(whole.skip(1) =~= i + t);
    assert(Seq::<u8>::empty() + t =~= t);
    assert(t.take(1) =~= seq![PAREN_CLOSE]);
    assert(t.skip(1) =~= Seq::<u8>::empty());
}

/// Whether one text is the end of another.
pub open spec fn ends(k: Seq<u8>, i: Seq<u8>) -> bool {
    k.len() <= i.len() && k == i.skip(i.len() - k.len())
}

proof fn lemma_ends_trans(k: Seq<u8>, j: Seq<u8>, i: Seq<u8>)
    requires
        ends(k, j),
        ends(j, i),
    ensures
        ends(k, i),
{
    assert(k =~= i.skip(i.len() - k.len()));
}

proof fn lemma_skip_ends(i: Seq<u8>, n: int)
    requires
        0 <= n <= i.len(),
    ensures
        ends(i.skip(n), i),
{
}

proof fn lemma_value_ends(i: Seq<u8>)
    ensures
        value_at(i) matches Some((v, k)) ==> ends(k, i),
{
    lemma_span(i, CharClass::Value);
}

proof fn lemma_star_parts_ends(i: Seq<u8>)
    ensures
        ends(star_parts(i).1, i),
    decreases i.len(),
{
    assert(i.skip(0) =~= i);
    if i.len() > 0 && i[0] == ASTERISK {
        if let Some((value, after)) = value_at(i.skip(1)) {
            lemma_value_ends(i.skip(1));
            lemma_star_parts_ends(after);
            lemma_skip_ends(i, 1);
            lemma_ends_trans(after, i.skip(1), i);
            lemma_ends_trans(star_parts(after).1, after, i);
        }
    }
}

proof fn lemma_assigned_ends(i: Seq<u8>)
    ensures
        assigned_at(rule_at(dn_at(i).1).1) matches Some((value, end)) ==> ends(end, i),
{
    let j = dn_at(i).1;
    let k = rule_at(j).1;
    assert(i.skip(0) =~= i);
    assert(j.skip(0) =~= j);
    assert(ends(j, i));
    if let Some(l) = strip(j, seq![COLON]) {
        lemma_description(l);
        lemma_skip_ends(l, type_len(l) as int);
        lemma_skip_ends(j, 1);
        lemma_ends_trans(l.skip(type_len(l) as int), l, j);
    }
    assert(ends(k, j));
    lemma_ends_trans(k, j, i);
    if let Some(l) = strip(k, seq![COLON, EQUALS]) {
        lemma_value_ends(l);
        lemma_skip_ends(k, 2);
        lemma_ends_trans(l, k, i);
        if let Some((value, end)) = value_at(l) {
            lemma_ends_trans(end, l, i);
        }
    }
}

#[verifier::rlimit(40)]
proof fn lemma_item_ends(i: Seq<u8>)
    ensures
        item_at(i) matches Some((e, end)) ==> ends(end, i),
{
    lemma_description(i);
    let n = description_len(i) as int;
    let j = i.skip(n);
    lemma_skip_ends(i, n);
    if let Some(k) = strip(j, seq![EQUALS]) {
        lemma_skip_ends(j, 1);
        lemma_ends_trans(k, j, i);
        if let Some((initial, l)) = value_at(k) {
            lemma_value_ends(k);
            lemma_ends_trans(l, k, i);
            lemma_star_parts_ends(l);
            lemma_ends_trans(star_parts(l).1, l, i);
        }
    }
    if let Some((kind, k)) = sign_at(j) {
        lemma_skip_ends(j, 2);
        lemma_ends_trans(k, j, i);
        if let Some((value, end)) = value_at(k) {
            lemma_value_ends(k);
            lemma_ends_trans(end, k, i);
        }
    }
    lemma_assigned_ends(j);
    if let Some((value, end)) = assigned_at(rule_at(dn_at(j).1).1) {
        lemma_ends_trans(end, j, i);
    }
    lemma_assigned_ends(i);
}

proof fn lemma_not_open(i: Seq<u8>)
    requires
        i.len() == 0 || i[0] != PAREN_OPEN,
    ensures
        filter_at(i) is None,
        filters_at(i) == (Seq::<Element>::empty(), i),
{
    assert(i.len() > 0 ==> i.take(1)[0] == i[0]);
    assert(filter_at(i) is None);
}

/// A filter in parentheses says itself where it ends: it is the same whatever follows it.
#[verifier::rlimit(40)]
pub proof fn filter_ignores_what_follows(i: Seq<u8>, t: Seq<u8>)
    ensures
        filter_at(i) matches Some((e, end)) ==> filter_at(i + t) == Some((e, end + t)),
    decreases i.len(), 0nat,
{
    if let Some((e, end)) = filter_at(i) {
        let j = i.skip(1);
        assert((i + t).take(1) =~= i.take(1));
        assert((i + t).skip(1) =~= j + t);
        if let Some((inner, k)) = component_at(j) {
            assert(k.take(1)[0] == k[0]);
            lemma_component_append(j, t);
            assert((k + t).take(1) =~= k.take(1));
            assert((k + t).skip(1) =~= k.skip(1) + t);
        }
    }
}

#[verifier::rlimit(40)]
proof fn lemma_component_append(j: Seq<u8>, t: Seq<u8>)
    requires
        component_at(j) matches Some((e, k)) && k.len() > 0 && k[0] == PAREN_CLOSE,
    ensures
        component_at(j + t) == followed(component_at(j), t),
    decreases j.len(), 2nat,
{
    if j.len() > 0 && (j[0] == AMPERSAND || j[0] == BAR) {
        assert((j + t).skip(1) =~= j.skip(1) + t);
        lemma_filters_append(j.skip(1), t);
    } else if j.len() > 0 && j[0] == EXCLAMATION {
        assert((j + t).skip(1) =~= j.skip(1) + t);
        filter_ignores_what_follows(j.skip(1), t);
    } else {
        lemma_item_continued(j, t);
        lemma_item_start(j);
        assert((j + t)[0] == j[0]);
    }
}

/// An item that a closing parenthesis follows is the same whatever follows that.
#[verifier::rlimit(40)]
proof fn lemma_item_continued(j: Seq<u8>, t: Seq<u8>)
    requires
        item_at(j) matches Some((e, k)) && k.len() > 0 && k[0] == PAREN_CLOSE,
    ensures
        item_at(j + t) == followed(item_at(j), t),
{
    let (_, k) = item_at(j)->0;
    lemma_item_ends(j);
    let p = j.take(j.len() - k.len());
    assert(j =~= p + k);
    assert(j + t =~= p + (k + t));
    lemma_item_append(p, k);
    lemma_item_append(p, k + t);
    if let Some((_, x)) = item_at(p) {
        assert(x.len() == 0);
        assert(x + (k + t) =~= k + t);
    }
}

#[verifier::rlimit(40)]
proof fn lemma_filters_append(i: Seq<u8>, t: Seq<u8>)
    requires
        filters_at(i).1.len() > 0,
        filters_at(i).1[0] == PAREN_CLOSE,
    ensures
        filters_at(i + t) == (filters_at(i).0, filters_at(i).1 + t),
    decreases i.len(), 1nat,
{
    match filter_at(i) {
        Some((e, j)) if j.len() < i.len() => {
            filter_ignores_what_follows(i, t);
            assert(filter_at(i + t) == Some((e, j + t)));
            lemma_filters_append(j, t);
        },
        _ => {
            lemma_not_open(i + t);
        },
    }
}

/// The texts one after the other.
pub open spec fn joined(texts: Seq<Seq<u8>>) -> Seq<u8>
    decreases texts.len(),
{
    if texts.len() == 0 {
        Seq::empty()
    } else {
        texts[0] + joined(texts.drop_first())
    }
}

#[verifier::rlimit(40)]
proof fn lemma_filters_cons(text: Seq<u8>, e: Element, rest: Seq<u8>)
    requires
        filter_at(text) == Some((e, Seq::<u8>::empty())),
    ensures
        filters_at(text + rest) == (seq![e] + filters_at(rest).0, filters_at(rest).1),
{
    filter_ignores_what_follows(text, rest);
    assert(Seq::<u8>::empty() + rest =~= rest);
    assert(text.len() > 0);
}

#[verifier::rlimit(40)]
proof fn lemma_filters_of(texts: Seq<Seq<u8>>, es: Seq<Element>)
    requires
        texts.len() == es.len(),
        forall|k: int|
            0 <= k < texts.len() ==> filter_at(#[trigger] texts[k]) == Some(
                (es[k], Seq::<u8>::empty()),
            ),
    ensures
        filters_at(joined(texts) + seq![PAREN_CLOSE]) == (es, seq![PAREN_CLOSE]),
    decreases texts.len(),
{
    let t = seq![PAREN_CLOSE];
    if texts.len() == 0 {
        assert(joined(texts) + t =~= t);
        lemma_not_open(t);
        assert(es =~= Seq::<Element>::empty());
    } else {
        let others = texts.drop_first();
        assert forall|k: int| 0 <= k < others.len() implies filter_at(#[trigger] others[k])
            == Some((es.drop_first()[k], Seq::<u8>::empty())) by {
            assert(others[k] == texts[k + 1]);
        }
        lemma_filters_of(others, es.drop_first());
        assert(filter_at(texts[0]) == Some((es[0], Seq::<u8>::empty())));
        lemma_filters_cons(texts[0], es[0], joined(others) + t);
        assert(joined(texts) + t =~= texts[0] + (joined(others) + t));
        assert(seq![es[0]] + es.drop_first() =~= es);
    }
}

/// Filters in parentheses, put together behind `&` or `|` or one behind `!`, in parentheses
/// again, stand for the conjunction, disjunction or negation of what each stands for.
pub proof fn filters_compose(texts: Seq<Seq<u8>>, es: Seq<Element>)
    requires
        texts.len() == es.len(),
        forall|k: int|
            0 <= k < texts.len() ==> filter_at(#[trigger] texts[k]) == Some(
                (es[k], Seq::<u8>::empty()),
            ),
    ensures
        filter_at(seq![PAREN_OPEN, AMPERSAND] + joined(texts) + seq![PAREN_CLOSE]) == Some(
            (conjunction_element(es), Seq::<u8>::empty()),
        ),
        filter_at(seq![PAREN_OPEN, BAR] + joined(texts) + seq![PAREN_CLOSE]) == Some(
            (disjunction_element(es), Seq::<u8>::empty()),
        ),
        texts.len() == 1 ==> filter_at(
            seq![PAREN_OPEN, EXCLAMATION] + texts[0] + seq![PAREN_CLOSE],
        ) == Some((negation_element(es[0]), Seq::<u8>::empty())),
{
    lemma_filters_of(texts, es);
    lemma_wrapped(AMPERSAND, joined(texts));
    lemma_wrapped(BAR, joined(texts));
    if texts.len() == 1 {
        let t = seq![PAREN_CLOSE];
        lemma_wrapped(EXCLAMATION, texts[0]);
        filter_ignores_what_follows(texts[0], t);
        assert(filter_at(texts[0]) == Some((es[0], Seq::<u8>::empty())));
        assert(Seq::<u8>::empty() + t =~= t);
    }
}

#[verifier::rlimit(40)]
proof fn lemma_wrapped(sign: u8, text: Seq<u8>)
    requires
        sign == AMPERSAND || sign == BAR || sign == EXCLAMATION,
    ensures
        ({
            let t = seq![PAREN_CLOSE];
            let (es, k) = filters_at(text + t);
            let wrapped = filter_at(seq![PAREN_OPEN, sign] + text + t);
            &&& sign == AMPERSAND && k == t ==> wrapped == Some(
                (conjunction_element(es), Seq::<u8>::empty()),
            )
            &&& sign == BAR && k == t ==> wrapped == Some(
                (disjunction_element(es), Seq::<u8>::empty()),
            )
            &&& sign == EXCLAMATION ==> (filter_at(text + t) matches Some((e, end)) ==> end == t
                ==> wrapped == Some((negation_element(e), Seq::<u8>::empty())))
        }),
{
    let t = seq![PAREN_CLOSE];
    let i = seq![PAREN_OPEN, sign] + text + t;
    let j = i.skip(1);
    assert(i.take(1) =~= seq![PAREN_OPEN]);
    assert(j.skip(1) =~= text + t);
    assert(t.take(1) =~= t);
    assert(t.skip(1) =~= Seq::<u8>::empty());
    assert(filter_at(i) == closed_by_parenthesis(component_at(j)));
}

/// Character of a hexadecimal digit.
pub open spec fn hex_char(n: int) -> u8 {
    if n < 10 {
        (DIGIT_0 + n) as u8
    } else {
        (LOWER_A + n - 10) as u8
    }
}

/// Text that stands for any bytes: what has a meaning of its own in a filter is escaped.
pub open spec fn escape(value: Seq<u8>) -> Seq<u8>
    decreases value.len(),
{
    if value.len() == 0 {
        Seq::empty()
    } else {
        let c = value[0];
        (if is_plain(c) {
            seq![c]
        } else {
            seq![BACKSLASH, hex_char(c as int / 16), hex_char(c as int % 16)]
        }) + escape(value.skip(1))
    }
}

/// A byte that can stand for itself in a value.
pub open spec fn is_plain(c: u8) -> bool {
    CharClass::Value.has(c) && c != BACKSLASH
}

/// Whether text writes a value: each byte either as a backslash and its two hexadecimal digits, of
/// either case, or, where it can stand for itself, plain.
pub open spec fn writes(text: Seq<u8>, value: Seq<u8>) -> bool
    decreases value.len(),
{
    if value.len() == 0 {
        text.len() == 0
    } else {
        ||| text.len() >= 1 && is_plain(value[0]) && text[0] == value[0] && writes(
            text.skip(1),
            value.skip(1),
        )
        ||| text.len() >= 3 && text[0] == BACKSLASH && hex(text[1]) is Some && hex(text[2]) is Some
            && hex(text[1])->0 * 16 + hex(text[2])->0 == value[0] && writes(
            text.skip(3),
            value.skip(1),
        )
    }
}

/// Every text that writes a value has no character that ends a value, and stands for that value.
pub proof fn writings_read_back(text: Seq<u8>, value: Seq<u8>)
    requires
        writes(text, value),
    ensures
        forall|k: int| 0 <= k < text.len() ==> CharClass::Value.has(#[trigger] text[k]),
        unescape(text) == Some(value),
    decreases value.len(),
{
    if value.len() > 0 {
        assert(seq![value[0]] + value.skip(1) =~= value);
        let n: int = if text[0] == BACKSLASH {
            3
        } else {
            1
        };
        writings_read_back(text.skip(n), value.skip(1));
        assert forall|k: int| 0 <= k < text.len() implies CharClass::Value.has(
            #[trigger] text[k],
        ) by {
            if k >= n {
                assert(text[k] == text.skip(n)[k - n]);
            }
        }
    } else {
        assert(value =~= Seq::<u8>::empty());
        assert(text =~= Seq::<u8>::empty());
    }
}

/// Text without a character that ends a value writes what it stands for: there is no other way
/// to write a value.
pub proof fn what_reads_back_is_a_writing(text: Seq<u8>, value: Seq<u8>)
    requires
        forall|k: int| 0 <= k < text.len() ==> CharClass::Value.has(#[trigger] text[k]),
        unescape(text) == Some(value),
    ensures
        writes(text, value),
    decreases text.len(),
{
    if text.len() > 0 {
        let n: int = if text[0] == BACKSLASH {
            3
        } else {
            1
        };
        let rest = unescape(text.skip(n))->0;
        assert(value.skip(1) =~= rest);
        assert(hex(text[1]) is Some && n == 3 ==> hex(text[1])->0 < 16);
        what_reads_back_is_a_writing(text.skip(n), rest);
    }
}

/// Every value can be written: its escaped text writes it.
pub proof fn escaped_text_writes_the_value(value: Seq<u8>)
    ensures
        writes(escape(value), value),
    decreases value.len(),
{
    if value.len() > 0 {
        let c = value[0];
        let rest = escape(value.skip(1));
        escaped_text_writes_the_value(value.skip(1));
        if is_plain(c) {
            assert(escape(value).skip(1) =~= rest);
        } else {
            let high = c as int / 16;
            let low = c as int % 16;
            assert(hex(hex_char(high)) == Some(high));
            assert(hex(hex_char(low)) == Some(low));
            assert(escape(value).skip(3) =~= rest);
        }
    }
}

pub proof fn lemma_span_all(s: Seq<u8>, t: Seq<u8>, class: CharClass)
    requires
        forall|k: int| 0 <= k < s.len() ==> class.has(#[trigger] s[k]),
        t.len() == 0 || !class.has(t[0]),
    ensures
        span(s + t, class) == s.len(),
    decreases s.len(),
{
    if s.len() > 0 {
        assert((s + t)[0] == s[0]);
        assert((s + t).skip(1) =~= s.skip(1) + t);
        lemma_span_all(s.skip(1), t, class);
    } else {
        assert(s + t =~= t);
    }
}

proof fn lemma_written_value(text: Seq<u8>, value: Seq<u8>, t: Seq<u8>)
    requires
        writes(text, value),
        t.len() == 0 || !CharClass::Value.has(t[0]),
    ensures
        value_at(text + t) == Some((value, t)),
{
    writings_read_back(text, value);
    lemma_span_all(text, t, CharClass::Value);
    assert((text + t).take(text.len() as int) =~= text);
    assert((text + t).skip(text.len() as int) =~= t);
}

/// Each text behind an asterisk.
pub open spec fn starred(texts: Seq<Seq<u8>>) -> Seq<u8>
    decreases texts.len(),
{
    if texts.len() == 0 {
        Seq::empty()
    } else {
        seq![ASTERISK] + texts[0] + starred(texts.drop_first())
    }
}

/// Whether each text writes its value.
pub open spec fn writes_each(texts: Seq<Seq<u8>>, values: Seq<Seq<u8>>) -> bool {
    &&& texts.len() == values.len()
    &&& forall|k: int| 0 <= k < texts.len() ==> writes(#[trigger] texts[k], values[k])
}

proof fn lemma_starred(texts: Seq<Seq<u8>>, values: Seq<Seq<u8>>)
    requires
        writes_each(texts, values),
    ensures
        star_parts(starred(texts)) == (values, Seq::<u8>::empty()),
    decreases texts.len(),
{
    if texts.len() > 0 {
        let i = starred(texts);
        let others = texts.drop_first();
        let t = starred(others);
        assert forall|k: int| 0 <= k < others.len() implies writes(
            #[trigger] others[k],
            values.drop_first()[k],
        ) by {
            assert(others[k] == texts[k + 1]);
        }
        lemma_starred(others, values.drop_first());
        assert(writes(texts[0], values[0]));
        lemma_written_value(texts[0], values[0], t);
        assert(i[0] == ASTERISK);
        assert(i.skip(1) =~= texts[0] + t);
        assert(seq![values[0]] + values.drop_first() =~= values);
    } else {
        assert(values =~= Seq::<Seq<u8>>::empty());
    }
}

/// Whether text is an attribute description from its start to its end.
pub open spec fn is_description(attribute: Seq<u8>) -> bool {
    attribute.len() > 0 && description_len(attribute) == attribute.len()
}

proof fn lemma_described(attribute: Seq<u8>, t: Seq<u8>)
    requires
        is_description(attribute),
        ends_description(t),
    ensures
        description_len(attribute + t) == attribute.len(),
        (attribute + t).take(attribute.len() as int) == attribute,
        (attribute + t).skip(attribute.len() as int) == t,
{
    lemma_description_append(attribute, t);
    assert((attribute + t).take(attribute.len() as int) =~= attribute);
    assert((attribute + t).skip(attribute.len() as int) =~= t);
}

/// A name of letters, digits and hyphens that starts with a letter is an attribute description.
pub proof fn names_are_descriptions(name: Seq<u8>)
    requires
        name.len() > 0,
        alphabetic(name[0]),
        forall|k: int| 0 <= k < name.len() ==> CharClass::Keyword.has(#[trigger] name[k]),
    ensures
        is_description(name),
{
    let none = Seq::<u8>::empty();
    assert(span(name, CharClass::Digit) == 0);
    assert forall|k: int| 0 <= k < name.skip(1).len() implies CharClass::Keyword.has(
        #[trigger] name.skip(1)[k],
    ) by {
        assert(name.skip(1)[k] == name[k + 1]);
    }
    lemma_span_all(name.skip(1), none, CharClass::Keyword);
    assert(name.skip(1) + none =~= name.skip(1));
    assert(name.skip(name.len() as int) =~= none);
}

/// Equality, presence and substrings of any bytes can be written as an item, in whatever way each
/// value is written: with an asterisk before each but the first.
#[verifier::rlimit(40)]
pub proof fn equality_items_read_back(
    attribute: Seq<u8>,
    text: Seq<u8>,
    initial: Seq<u8>,
    texts: Seq<Seq<u8>>,
    parts: Seq<Seq<u8>>,
)
    requires
        is_description(attribute),
        writes(text, initial),
        writes_each(texts, parts),
        separated(parts),
    ensures
        item_at(attribute + (seq![EQUALS] + (text + starred(texts)))) == Some(
            (equality_element(attribute, initial, parts), Seq::<u8>::empty()),
        ),
{
    let values = text + starred(texts);
    let t = seq![EQUALS] + values;
    lemma_described(attribute, t);
    assert(t.take(1) =~= seq![EQUALS]);
    assert(t.skip(1) =~= values);
    lemma_written_value(text, initial, starred(texts));
    lemma_starred(texts, parts);
}

/// The sign of a comparison.
pub open spec fn sign_text(kind: Comparison) -> Seq<u8> {
    match kind {
        Comparison::Equal => seq![EQUALS],
        Comparison::GreaterOrEqual => seq![GREATER, EQUALS],
        Comparison::LessOrEqual => seq![LESS, EQUALS],
        Comparison::Approximate => seq![TILDE, EQUALS],
    }
}

/// A comparison with any bytes can be written as an item, in whatever way they are written.
#[verifier::rlimit(40)]
pub proof fn comparisons_read_back(
    kind: Comparison,
    attribute: Seq<u8>,
    text: Seq<u8>,
    value: Seq<u8>,
)
    requires
        is_description(attribute),
        writes(text, value),
    ensures
        item_at(attribute + (sign_text(kind) + text)) == Some(
            (assertion_element(kind, attribute, value), Seq::<u8>::empty()),
        ),
{
    let none = Seq::<Seq<u8>>::empty();
    assert(text + Seq::<u8>::empty() =~= text);
    if kind == Comparison::Equal {
        equality_items_read_back(attribute, text, value, none, none);
        assert(starred(none) =~= Seq::<u8>::empty());
    } else {
        let t = sign_text(kind) + text;
        lemma_described(attribute, t);
        assert(t.take(1)[0] == t[0]);
        assert(t.skip(2) =~= text);
        lemma_written_value(text, value, Seq::empty());
    }
}

/// A comparison in parentheses, as the text of a whole filter.
pub open spec fn comparison_text(
    kind: Comparison,
    attribute: Seq<u8>,
    text: Seq<u8>,
) -> Seq<u8> {
    seq![PAREN_OPEN] + (attribute + (sign_text(kind) + text)) + seq![PAREN_CLOSE]
}

/// A filter that compares an attribute with any bytes is read back from every text that writes
/// them.
#[verifier::rlimit(40)]
pub proof fn written_filters_read_back(
    kind: Comparison,
    attribute: Seq<u8>,
    text: Seq<u8>,
    value: Seq<u8>,
)
    requires
        is_description(attribute),
        writes(text, value),
    ensures
        whole(filtexpr_at(comparison_text(kind, attribute, text))) == Some(
            assertion_element(kind, attribute, value),
        ),
{
    comparisons_read_back(kind, attribute, text, value);
    parentheses_around_an_item_change_nothing(
        attribute + (sign_text(kind) + text),
        assertion_element(kind, attribute, value),
    );
}

/// What a value and the parts behind asterisks take of the input has neither a NUL nor a
/// parenthesis.
proof fn lemma_star_parts_plain(i: Seq<u8>)
    ensures
        star_parts(i).1.len() <= i.len(),
        forall|k: int|
            0 <= k < i.len() - star_parts(i).1.len() ==> CharClass::Value.has(#[trigger] i[k])
                || i[k] == ASTERISK,
    decreases i.len(),
{
    if i.len() > 0 && i[0] == ASTERISK {
        if let Some((value, after)) = value_at(i.skip(1)) {
            let n = span(i.skip(1), CharClass::Value) as int;
            lemma_span(i.skip(1), CharClass::Value);
            lemma_star_parts_plain(after);
            let taken = i.len() - star_parts(i).1.len();
            assert forall|k: int| 0 <= k < taken implies CharClass::Value.has(#[trigger] i[k])
                || i[k] == ASTERISK by {
                if k > n {
                    assert(after[k - 1 - n] == i[k]);
                } else if k > 0 {
                    assert(i.skip(1)[k - 1] == i[k]);
                }
            }
        }
    }
}

/// An equality item takes nothing of its input from the first NUL or parenthesis of its value on.
#[verifier::rlimit(40)]
proof fn lemma_equality_stops(attribute: Seq<u8>, text: Seq<u8>, at: int)
    requires
        is_description(attribute),
        0 <= at < text.len(),
        !CharClass::Value.has(text[at]),
        text[at] != ASTERISK,
    ensures
        item_at(attribute + (seq![EQUALS] + text)) matches Some((e, end)) ==> end.len()
            >= text.len() - at && ends(end, attribute + (seq![EQUALS] + text)),
{
    let t = seq![EQUALS] + text;
    let i = attribute + t;
    lemma_described(attribute, t);
    lemma_item_ends(i);
    assert(t.take(1) =~= seq![EQUALS]);
    assert(t.skip(1) =~= text);
    lemma_description(attribute);
    lemma_item_start_of_description(attribute, t);
    lemma_span(text, CharClass::Value);
    let n = span(text, CharClass::Value) as int;
    if n > at {
        assert(CharClass::Value.has(text[at]));
    }
    let k = text.skip(n);
    lemma_star_parts_plain(k);
    if k.len() - star_parts(k).1.len() > at - n {
        assert(k[at - n] == text[at]);
    }
    assert(non_eq_at(i) is None);
    assert(attr_dn_mrule_at(i) is None) by {
        lemma_no_colon(t);
    }
    assert(dn_mrule_at(i) is None) by {
        lemma_no_colon(i);
    }
}

proof fn lemma_no_colon(i: Seq<u8>)
    requires
        i.len() > 0,
        i[0] != COLON,
    ensures
        dn_at(i) == (false, i),
        rule_at(i) == (None::<Seq<u8>>, i),
        assigned_at(i) is None,
{
    assert(i.take(1)[0] == i[0]);
    if i.len() >= 2 {
        assert(i.take(2)[0] == i[0]);
    }
    if i.len() >= 3 {
        assert(i.take(3)[0] == i[0]);
    }
}

/// What starts with a description starts with neither a colon nor a parenthesis.
proof fn lemma_item_start_of_description(attribute: Seq<u8>, t: Seq<u8>)
    requires
        is_description(attribute),
        ends_description(t),
    ensures
        (attribute + t)[0] != COLON,
        (attribute + t)[0] != PAREN_OPEN,
{
    assert((attribute + t)[0] == attribute[0]);
    lemma_span(attribute, CharClass::Digit);
}

/// A NUL or a parenthesis in a value has to be escaped: a filter with a plain one is refused.
#[verifier::rlimit(60)]
pub proof fn plain_specials_are_refused(attribute: Seq<u8>, text: Seq<u8>, at: int)
    requires
        is_description(attribute),
        0 <= at < text.len(),
        text[at] == 0 || text[at] == PAREN_OPEN || text[at] == PAREN_CLOSE,
    ensures
        whole(filtexpr_at(comparison_text(Comparison::Equal, attribute, text))) is None,
{
    let close = seq![PAREN_CLOSE];
    let input = comparison_text(Comparison::Equal, attribute, text);
    let longer = text + close;
    let j = attribute + (seq![EQUALS] + longer);
    assert(longer[at] == text[at]);
    lemma_equality_stops(attribute, longer, at);
    assert(input.take(1) =~= seq![PAREN_OPEN]);
    assert(input.skip(1) =~= j);
    lemma_item_start_of_description(attribute, seq![EQUALS] + longer);
    assert(alphabetic(j[0]) || digit(j[0])) by {
        assert(j[0] == attribute[0]);
        lemma_span(attribute, CharClass::Digit);
    }
    assert(component_at(j) == item_at(j));
    assert(filter_at(input) == closed_by_parenthesis(item_at(j)));
    if item_at(input) is Some {
        lemma_item_start(input);
    }
}

/// Whether text is an attribute type from its start to its end.
pub open spec fn is_type(name: Seq<u8>) -> bool {
    name.len() > 0 && type_len(name) == name.len()
}

/// The text between an attribute and the value of an extensible item.
pub open spec fn extension_text(dn: bool, mrule: Option<Seq<u8>>) -> Seq<u8> {
    (if dn {
        seq![COLON, LOWER_D, LOWER_N]
    } else {
        seq![]
    }) + (match mrule {
        Some(rule) => seq![COLON] + rule,
        None => seq![],
    })
}

/// Parts of an extensible item that can be told apart in its text: a matching rule that starts
/// with `dn` would be taken for the flag of that name where the flag is not there.
pub open spec fn distinct(dn: bool, mrule: Option<Seq<u8>>) -> bool {
    mrule matches Some(rule) ==> is_type(rule) && (dn || rule.len() < 2 || rule[0] != LOWER_D
        || rule[1] != LOWER_N)
}

proof fn lemma_extension(dn: bool, mrule: Option<Seq<u8>>, text: Seq<u8>, value: Seq<u8>)
    requires
        distinct(dn, mrule),
        writes(text, value),
    ensures
        ({
            let i = extension_text(dn, mrule) + (seq![COLON, EQUALS] + text);
            &&& i.len() > 0 && i[0] == COLON
            &&& dn_at(i).0 == dn
            &&& rule_at(dn_at(i).1).0 == mrule
            &&& assigned_at(rule_at(dn_at(i).1).1) == Some((value, Seq::<u8>::empty()))
        }),
{
    let end = seq![COLON, EQUALS] + text;
    let named = (match mrule {
        Some(rule) => seq![COLON] + rule,
        None => seq![],
    }) + end;
    let i = extension_text(dn, mrule) + end;
    if dn {
        assert(i.take(3) =~= seq![COLON, LOWER_D, LOWER_N]);
        assert(i.skip(3) =~= named);
    } else {
        assert(i =~= named);
        if i.len() >= 3 {
            assert(i.take(3)[1] == i[1] && i.take(3)[2] == i[2]);
            if let Some(rule) = mrule {
                assert(i[1] == rule[0]);
                if rule.len() >= 2 {
                    assert(i[2] == rule[1]);
                } else {
                    assert(i[2] == COLON);
                }
            } else {
                assert(i[1] == EQUALS);
            }
        }
    }
    assert(dn_at(i) == (dn, named));
    assert(named.take(1) =~= seq![COLON]);
    match mrule {
        Some(rule) => {
            assert(named.skip(1) =~= rule + end);
            lemma_type_append(rule, end);
            assert((rule + end).take(rule.len() as int) =~= rule);
            assert((rule + end).skip(rule.len() as int) =~= end);
        },
        None => {
            assert(named =~= end);
            let j = end.skip(1);
            assert(j[0] == EQUALS);
            assert(span(j, CharClass::Digit) == 0);
            assert(type_len(j) == 0);
        },
    }
    assert(end.take(2) =~= seq![COLON, EQUALS]);
    assert(end.skip(2) =~= text);
    lemma_written_value(text, value, Seq::empty());
    assert(text + Seq::<u8>::empty() =~= text);
}

/// An extensible match of any bytes can be written as an item, in whatever way they are written,
/// as long as the parts before them can be told apart.
#[verifier::rlimit(40)]
pub proof fn extensible_items_read_back(
    attribute: Option<Seq<u8>>,
    dn: bool,
    mrule: Option<Seq<u8>>,
    text: Seq<u8>,
    value: Seq<u8>,
)
    requires
        attribute matches Some(a) ==> is_description(a),
        attribute is None ==> mrule is Some,
        distinct(dn, mrule),
        writes(text, value),
    ensures
        ({
            let t = extension_text(dn, mrule) + (seq![COLON, EQUALS] + text);
            let input = match attribute {
                Some(a) => a + t,
                None => t,
            };
            item_at(input) == Some(
                (extensible_element(mrule, attribute, value, dn), Seq::<u8>::empty()),
            )
        }),
{
    let t = extension_text(dn, mrule) + (seq![COLON, EQUALS] + text);
    lemma_extension(dn, mrule, text, value);
    assert(t.take(1)[0] == COLON);
    match attribute {
        Some(a) => {
            lemma_described(a, t);
            assert(eq_at(a + t) is None);
            assert(non_eq_at(a + t) is None);
        },
        None => {
            assert(span(t, CharClass::Digit) == 0);
            assert(type_len(t) == 0);
            assert(description_len(t) == 0);
        },
    }
}

proof fn lemma_equality_encodable(attribute: Seq<u8>, initial: Seq<u8>, parts: Seq<Seq<u8>>)
    ensures
        encodable(equality_element(attribute, initial, parts)),
{
    reveal_with_fuel(encodable, 3);
    let e = equality_element(attribute, initial, parts);
    if let Body::Children(es) = e.body {
        if parts.len() > 0 {
            let inner = es[1].body->Children_0;
            assert forall|k: int| 0 <= k < inner.len() implies encodable(#[trigger] inner[k]) by {
                assert(inner[k].body is Bytes);
            }
            assert(all_encodable(inner));
        }
        assert(encodable(es[0]) && encodable(es[1]));
        assert(all_encodable(es));
    }
}

proof fn lemma_flat_encodable(e: Element)
    requires
        e.id < 31,
        e.body matches Body::Children(es) && forall|k: int|
            0 <= k < es.len() ==> (#[trigger] es[k]).id < 31 && es[k].body is Bytes,
    ensures
        encodable(e),
{
    let es = e.body->Children_0;
    assert forall|k: int| 0 <= k < es.len() implies encodable(#[trigger] es[k]) by {}
    assert(all_encodable(es));
}

#[verifier::rlimit(40)]
proof fn lemma_item_encodable(i: Seq<u8>)
    ensures
        item_at(i) matches Some((e, end)) ==> encodable(e),
{
    if let Some((e, end)) = item_at(i) {
        if eq_at(i) is Some {
            let n = description_len(i) as int;
            let (initial, k) = value_at(i.skip(n).skip(1))->0;
            lemma_equality_encodable(i.take(n), initial, star_parts(k).0);
        } else {
            lemma_flat_encodable(e);
        }
    }
}

/// Every filter that was read can be written.
pub proof fn filters_can_be_written(i: Seq<u8>)
    ensures
        filtexpr_at(i) matches Some((e, end)) ==> encodable(e),
{
    lemma_item_encodable(i);
    lemma_filter_encodable(i);
}

#[verifier::rlimit(40)]
proof fn lemma_filter_encodable(i: Seq<u8>)
    ensures
        filter_at(i) matches Some((e, end)) ==> encodable(e),
        all_encodable(filters_at(i).0),
    decreases i.len(),
{
    if filter_at(i) is Some {
        let j = i.skip(1);
        lemma_item_encodable(j);
        if j.len() > 0 {
            lemma_filter_encodable(j.skip(1));
        }
        if let Some((e, k)) = component_at(j) {
            assert(encodable(e));
        }
    }
    match filter_at(i) {
        Some((e, j)) if j.len() < i.len() => {
            lemma_filter_encodable(j);
            let es = filters_at(i).0;
            assert forall|k: int| 0 <= k < es.len() implies encodable(#[trigger] es[k]) by {
                if k > 0 {
                    assert(es[k] == filters_at(j).0[k - 1]);
                }
            }
        },
        _ => {},
    }
}

/// Each text in parentheses, one after the other.
pub open spec fn bracketed(texts: Seq<Seq<u8>>) -> Seq<u8>
    decreases texts.len(),
{
    if texts.len() == 0 {
        Seq::empty()
    } else {
        seq![PAREN_OPEN] + texts[0] + seq![PAREN_CLOSE] + bracketed(texts.drop_first())
    }
}

/// Whether text is a filter without parentheses around it, nor a sign of a compound filter in
/// front.
pub open spec fn is_bare(text: Seq<u8>) -> bool {
    text.len() > 0 && text[0] != PAREN_OPEN && text[0] != AMPERSAND && text[0] != BAR && text[0]
        != EXCLAMATION
}

/// Whether each text is a bare filter that stands for its element.
#[verifier::opaque]
pub open spec fn bare_filters(texts: Seq<Seq<u8>>, es: Seq<Element>) -> bool {
    &&& texts.len() == es.len()
    &&& forall|k: int|
        0 <= k < texts.len() ==> is_bare(#[trigger] texts[k]) && whole(filtexpr_at(texts[k]))
            == Some(es[k])
}

/// Whether the input is a list in parentheses of at least one filter in parentheses.
pub open spec fn lists_items(input: Seq<u8>, texts: Seq<Seq<u8>>, es: Seq<Element>) -> bool {
    &&& texts.len() >= 1
    &&& bare_filters(texts, es)
    &&& input == seq![PAREN_OPEN] + bracketed(texts) + seq![PAREN_CLOSE]
}

/// Whether text is an item from its start to its end.
#[verifier::opaque]
pub open spec fn is_item(text: Seq<u8>, e: Element) -> bool {
    item_at(text) == Some((e, Seq::<u8>::empty()))
}

/// Whether each text is an item.
pub open spec fn are_items(texts: Seq<Seq<u8>>, es: Seq<Element>) -> bool {
    texts.len() == es.len() && forall|k: int|
        0 <= k < texts.len() ==> is_item(#[trigger] texts[k], es[k])
}

/// Whether the items in parentheses at the start of the input, and what follows them, are these.
#[verifier::opaque]
spec fn starts_with_items(i: Seq<u8>, es: Seq<Element>, end: Seq<u8>) -> bool {
    mv_items_at(i) == (es, end)
}

#[verifier::rlimit(40)]
pub proof fn lemma_bare(text: Seq<u8>, e: Element)
    ensures
        (is_bare(text) && whole(filtexpr_at(text)) == Some(e)) <==> is_item(text, e),
{
    reveal(is_item);
    if item_at(text) is Some {
        lemma_item_start(text);
    }
    if text.len() == 0 || text[0] != PAREN_OPEN {
        lemma_not_open(text);
    }
    if let Some((found, end)) = item_at(text) {
        if end.len() == 0 {
            assert(end =~= Seq::<u8>::empty());
        }
    }
}

pub proof fn lemma_bare_filters(texts: Seq<Seq<u8>>, es: Seq<Element>)
    ensures
        bare_filters(texts, es) <==> are_items(texts, es),
        bare_filters(texts, es) ==> texts.len() == es.len(),
{
    reveal(bare_filters);
    assert forall|k: int| 0 <= k < texts.len() && texts.len() == es.len() implies ((is_bare(
        #[trigger] texts[k],
    ) && whole(filtexpr_at(texts[k])) == Some(es[k])) <==> is_item(texts[k], es[k])) by {
        lemma_bare(texts[k], es[k]);
    }
}

proof fn lemma_no_items(i: Seq<u8>)
    requires
        i.len() == 0 || i[0] != PAREN_OPEN,
    ensures
        starts_with_items(i, Seq::empty(), i),
{
    reveal(starts_with_items);
    assert(i.len() > 0 ==> i.take(1)[0] == i[0]);
    assert(mv_item_at(i) is None);
}

#[verifier::rlimit(40)]
proof fn lemma_one_more_item(
    text: Seq<u8>,
    e: Element,
    i: Seq<u8>,
    es: Seq<Element>,
    end: Seq<u8>,
)
    requires
        is_item(text, e),
        starts_with_items(i, es, end),
    ensures
        starts_with_items(
            seq![PAREN_OPEN] + text + seq![PAREN_CLOSE] + i,
            seq![e] + es,
            end,
        ),
{
    reveal(is_item);
    reveal(starts_with_items);
    let all = seq![PAREN_OPEN] + text + seq![PAREN_CLOSE] + i;
    let rest = seq![PAREN_CLOSE] + i;
    assert(all.take(1) =~= seq![PAREN_OPEN]);
    assert(all.skip(1) =~= text + rest);
    lemma_item_append(text, rest);
    assert(Seq::<u8>::empty() + rest =~= rest);
    assert(rest.take(1) =~= seq![PAREN_CLOSE]);
    assert(rest.skip(1) =~= i);
    assert(mv_item_at(all) == Some((e, i)));
}

/// The item in parentheses at the start of the input, and what follows it, unless no list of
/// items starts there.
#[verifier::rlimit(40)]
proof fn lemma_first_item(i: Seq<u8>) -> (r: Option<(Seq<u8>, Element, Seq<u8>)>)
    ensures
        match r {
            Some((text, e, t)) => {
                &&& is_item(text, e)
                &&& i == seq![PAREN_OPEN] + text + seq![PAREN_CLOSE] + t
            },
            None => starts_with_items(i, Seq::empty(), i),
        },
{
    reveal(is_item);
    reveal(starts_with_items);
    match mv_item_at(i) {
        Some((e, t)) => {
            let j = i.skip(1);
            let (_, k) = item_at(j)->0;
            lemma_item_ends(j);
            let text = j.take(j.len() - k.len());
            assert(i.take(1)[0] == i[0]);
            assert(k.take(1)[0] == k[0]);
            assert(j =~= text + k);
            lemma_item_append(text, k);
            if let Some((_, x)) = item_at(text) {
                assert(x.len() == 0);
                assert(x =~= Seq::<u8>::empty());
            }
            assert(k =~= seq![PAREN_CLOSE] + t);
            assert(i =~= seq![PAREN_OPEN] + text + seq![PAREN_CLOSE] + t);
            Some((text, e, t))
        },
        None => None,
    }
}

proof fn lemma_bracketed_items(texts: Seq<Seq<u8>>, es: Seq<Element>, end: Seq<u8>)
    requires
        are_items(texts, es),
        starts_with_items(end, Seq::empty(), end),
    ensures
        starts_with_items(bracketed(texts) + end, es, end),
    decreases texts.len(),
{
    if texts.len() == 0 {
        assert(bracketed(texts) + end =~= end);
        assert(es =~= Seq::<Element>::empty());
    } else {
        let others = texts.drop_first();
        let rest = bracketed(others) + end;
        assert forall|k: int| 0 <= k < others.len() implies is_item(
            #[trigger] others[k],
            es.drop_first()[k],
        ) by {
            assert(others[k] == texts[k + 1]);
        }
        lemma_bracketed_items(others, es.drop_first(), end);
        assert(is_item(texts[0], es[0]));
        lemma_one_more_item(texts[0], es[0], rest, es.drop_first(), end);
        assert(bracketed(texts) + end =~= seq![PAREN_OPEN] + texts[0] + seq![PAREN_CLOSE] + rest);
        assert(seq![es[0]] + es.drop_first() =~= es);
    }
}

/// The texts of the items in parentheses at the start of the input.
proof fn lemma_texts_of_items(i: Seq<u8>) -> (r: (Seq<Seq<u8>>, Seq<Element>, Seq<u8>))
    ensures
        ({
            let (texts, es, end) = r;
            &&& are_items(texts, es)
            &&& i == bracketed(texts) + end
            &&& starts_with_items(i, es, end)
        }),
    decreases i.len(),
{
    match lemma_first_item(i) {
        Some((text, e, t)) => {
            assert(i.len() == text.len() + 2 + t.len());
            let (others, es, end) = lemma_texts_of_items(t);
            lemma_one_more_item(text, e, t, es, end);
            let texts = seq![text] + others;
            let all = seq![e] + es;
            assert(texts.drop_first() =~= others);
            assert forall|k: int| 0 <= k < texts.len() implies is_item(
                #[trigger] texts[k],
                all[k],
            ) by {
                if k > 0 {
                    assert(texts[k] == others[k - 1]);
                    assert(all[k] == es[k - 1]);
                }
            }
            assert(i =~= bracketed(texts) + end);
            (texts, all, end)
        },
        None => {
            let none = Seq::<Seq<u8>>::empty();
            assert(bracketed(none) + i =~= i);
            (none, Seq::empty(), i)
        },
    }
}

/// Matched values are items in parentheses, in parentheses.
#[verifier::rlimit(40)]
proof fn lemma_matched_values(input: Seq<u8>, es: Seq<Element>, end: Seq<u8>)
    requires
        starts_with_items(input.skip(1), es, end),
    ensures
        whole(mv_filtexpr_at(input)) == if input.len() > 0 && input[0] == PAREN_OPEN && es.len()
            >= 1 && end == seq![PAREN_CLOSE] {
            Some(constructed(TagClass::Universal, SEQUENCE, es))
        } else {
            None
        },
{
    reveal(starts_with_items);
    let close = seq![PAREN_CLOSE];
    assert(input.len() > 0 ==> input.take(1)[0] == input[0]);
    assert(input.len() > 0 && input[0] == PAREN_OPEN ==> input.take(1) =~= seq![PAREN_OPEN]);
    assert(close.take(1) =~= close);
    assert(close.skip(1) =~= Seq::<u8>::empty());
    if end.len() > 0 {
        assert(end.take(1)[0] == end[0]);
        if end.len() == 1 && end[0] == PAREN_CLOSE {
            assert(end =~= close);
        }
    }
}

proof fn lemma_listed_items(input: Seq<u8>, texts: Seq<Seq<u8>>, es: Seq<Element>)
    requires
        lists_items(input, texts, es),
    ensures
        es.len() >= 1,
        input.len() > 0,
        input[0] == PAREN_OPEN,
        starts_with_items(input.skip(1), es, seq![PAREN_CLOSE]),
{
    let close = seq![PAREN_CLOSE];
    lemma_bare_filters(texts, es);
    lemma_no_items(close);
    lemma_bracketed_items(texts, es, close);
    assert(input.skip(1) =~= bracketed(texts) + close);
}

/// A text is accepted as matched values exactly when it is a list in parentheses of at least one
/// filter in parentheses, each of them bare and accepted by itself; it then stands for the
/// sequence of what they stand for.
#[verifier::rlimit(60)]
pub proof fn matched_values_are_a_list_of_items(input: Seq<u8>, e: Element)
    ensures
        whole(mv_filtexpr_at(input)) == Some(e) <==> exists|
            texts: Seq<Seq<u8>>,
            es: Seq<Element>,
        | #[trigger]
            lists_items(input, texts, es) && e == constructed(TagClass::Universal, SEQUENCE, es),
{
    let close = seq![PAREN_CLOSE];
    if whole(mv_filtexpr_at(input)) == Some(e) {
        let (texts, es, end) = lemma_texts_of_items(input.skip(1));
        lemma_matched_values(input, es, end);
        lemma_bare_filters(texts, es);
        assert(input =~= seq![PAREN_OPEN] + input.skip(1));
        assert(input =~= seq![PAREN_OPEN] + bracketed(texts) + close);
        assert(lists_items(input, texts, es));
    }
    if exists|texts: Seq<Seq<u8>>, es: Seq<Element>| #[trigger]
        lists_items(input, texts, es) && e == constructed(TagClass::Universal, SEQUENCE, es) {
        let (texts, es) = choose|texts: Seq<Seq<u8>>, es: Seq<Element>| #[trigger]
            lists_items(input, texts, es) && e == constructed(TagClass::Universal, SEQUENCE, es);
        lemma_listed_items(input, texts, es);
        lemma_matched_values(input, es, close);
    }
}

} // verus!
