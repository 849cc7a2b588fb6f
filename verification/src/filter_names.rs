//! What attribute descriptions and values look like, character by character.
use crate::ascii::{DOT, SEMICOLON};
use crate::filter_grammar::{
    description_len, dotted_len, hex, lemma_description, lemma_span, number_len, oid_len,
    options_len, span, type_len, CharClass,
};
use crate::filter_laws::{is_description, is_type, lemma_span_all, writes};
use vstd::prelude::*;

verus! {

pub open spec fn is_numeral(c: u8) -> bool {
    48 <= c <= 57
}

pub open spec fn is_letter(c: u8) -> bool {
    65 <= c <= 90 || 97 <= c <= 122
}

/// A letter, a digit or a hyphen.
pub open spec fn is_key(c: u8) -> bool {
    is_letter(c) || is_numeral(c) || c == 45
}

/// Digits, without a zero in front of others.
pub open spec fn is_numeral_text(s: Seq<u8>) -> bool {
    &&& s.len() > 0
    &&& forall|k: int| 0 <= k < s.len() ==> is_numeral(#[trigger] s[k])
    &&& s.len() > 1 ==> s[0] != 48
}

/// Letters, digits and hyphens.
pub open spec fn is_key_text(s: Seq<u8>) -> bool {
    s.len() > 0 && forall|k: int| 0 <= k < s.len() ==> is_key(#[trigger] s[k])
}

/// Each text behind the character.
pub open spec fn each_behind(c: u8, texts: Seq<Seq<u8>>) -> Seq<u8>
    decreases texts.len(),
{
    if texts.len() == 0 {
        Seq::empty()
    } else {
        seq![c] + texts[0] + each_behind(c, texts.drop_first())
    }
}

/// Numbers with dots between them.
pub open spec fn is_dotted(s: Seq<u8>, first: Seq<u8>, others: Seq<Seq<u8>>) -> bool {
    &&& is_numeral_text(first)
    &&& forall|k: int| 0 <= k < others.len() ==> is_numeral_text(#[trigger] others[k])
    &&& s == first + each_behind(46, others)
}

/// A name that starts with a letter, or numbers with dots between them.
pub open spec fn is_type_text(s: Seq<u8>) -> bool {
    is_key_text(s) && is_letter(s[0]) || exists|first: Seq<u8>, others: Seq<Seq<u8>>|
        is_dotted(s, first, others)
}

/// A type and options, each behind a semicolon.
pub open spec fn is_optioned(s: Seq<u8>, name: Seq<u8>, options: Seq<Seq<u8>>) -> bool {
    &&& is_type_text(name)
    &&& forall|k: int| 0 <= k < options.len() ==> is_key_text(#[trigger] options[k])
    &&& s == name + each_behind(59, options)
}

/// A type, and perhaps options.
pub open spec fn is_description_text(s: Seq<u8>) -> bool {
    exists|name: Seq<u8>, options: Seq<Seq<u8>>| is_optioned(s, name, options)
}

/// Whether the character is the hexadecimal digit with the value, in either case.
pub open spec fn is_hex(c: u8, v: int) -> bool {
    0 <= v < 10 && c == 48 + v || 10 <= v < 16 && (c == 55 + v || c == 87 + v)
}

/// Whether text stands for a value: a backslash and two hexadecimal digits for any byte, or the
/// byte itself unless it is a NUL, a parenthesis, an asterisk or a backslash.
pub open spec fn denotes(text: Seq<u8>, value: Seq<u8>) -> bool
    decreases value.len(),
{
    if value.len() == 0 {
        text.len() == 0
    } else {
        ||| text.len() >= 1 && text[0] == value[0] && value[0] != 0 && value[0] != 40 && value[0]
            != 41 && value[0] != 42 && value[0] != 92 && denotes(text.skip(1), value.skip(1))
        ||| text.len() >= 3 && text[0] == 92 && is_hex(text[1], value[0] as int / 16) && is_hex(
            text[2],
            value[0] as int % 16,
        ) && denotes(text.skip(3), value.skip(1))
    }
}

proof fn lemma_hex(c: u8, v: int)
    ensures
        hex(c) == Some(v) <==> is_hex(c, v),
        hex(c) matches Some(w) ==> 0 <= w < 16,
{
}

/// Text stands for a value exactly when it writes it.
pub proof fn lemma_denotes(text: Seq<u8>, value: Seq<u8>)
    ensures
        denotes(text, value) <==> writes(text, value),
    decreases value.len(),
{
    if value.len() > 0 {
        lemma_denotes(text.skip(1), value.skip(1));
        lemma_denotes(text.skip(3), value.skip(1));
        if text.len() >= 3 {
            lemma_hex(text[1], value[0] as int / 16);
            lemma_hex(text[2], value[0] as int % 16);
            if hex(text[1]) is Some && hex(text[2]) is Some && hex(text[1])->0 * 16 + hex(
                text[2],
            )->0 == value[0] {
                assert(value[0] as int / 16 == hex(text[1])->0);
                assert(value[0] as int % 16 == hex(text[2])->0);
            }
        }
    }
}

proof fn lemma_each_behind_cons(c: u8, first: Seq<u8>, others: Seq<Seq<u8>>)
    ensures
        each_behind(c, seq![first] + others) == seq![c] + first + each_behind(c, others),
{
    assert((seq![first] + others).drop_first() =~= others);
}

/// Numbers are read as far as they go.
proof fn lemma_number_text(s: Seq<u8>, t: Seq<u8>)
    requires
        is_numeral_text(s),
        t.len() == 0 || !is_numeral(t[0]),
    ensures
        number_len(s + t) == s.len(),
{
    assert forall|k: int| 0 <= k < s.len() implies CharClass::Digit.has(#[trigger] s[k]) by {
        assert(is_numeral(s[k]));
    }
    lemma_span_all(s, t, CharClass::Digit);
    assert((s + t)[0] == s[0]);
}

proof fn lemma_number_is_text(i: Seq<u8>)
    ensures
        number_len(i) <= i.len(),
        number_len(i) > 0 ==> is_numeral_text(i.take(number_len(i) as int)),
{
    lemma_span(i, CharClass::Digit);
    let n = number_len(i) as int;
    if n > 0 {
        let s = i.take(n);
        assert forall|k: int| 0 <= k < s.len() implies is_numeral(#[trigger] s[k]) by {
            assert(CharClass::Digit.has(i[k]));
        }
    }
}

proof fn lemma_dotted_text(others: Seq<Seq<u8>>, t: Seq<u8>)
    requires
        forall|k: int| 0 <= k < others.len() ==> is_numeral_text(#[trigger] others[k]),
        t.len() == 0 || !is_numeral(t[0]) && t[0] != DOT,
    ensures
        dotted_len(each_behind(46, others) + t) == each_behind(46, others).len(),
    decreases others.len(),
{
    let i = each_behind(46, others) + t;
    if others.len() > 0 {
        let rest = each_behind(46, others.drop_first());
        assert(is_numeral_text(others[0]));
        assert forall|k: int| 0 <= k < others.drop_first().len() implies is_numeral_text(
            #[trigger] others.drop_first()[k],
        ) by {
            assert(is_numeral_text(others[k + 1]));
        }
        lemma_dotted_text(others.drop_first(), t);
        assert(i.skip(1) =~= others[0] + (rest + t));
        assert(rest.len() > 0 ==> rest[0] == 46);
        lemma_number_text(others[0], rest + t);
        assert(i.skip(1 + others[0].len() as int) =~= rest + t);
        assert(i[0] == DOT);
    } else {
        assert(i =~= t);
    }
}

proof fn lemma_dotted_is_text(i: Seq<u8>) -> (others: Seq<Seq<u8>>)
    ensures
        dotted_len(i) <= i.len(),
        i.take(dotted_len(i) as int) == each_behind(46, others),
        forall|k: int| 0 <= k < others.len() ==> is_numeral_text(#[trigger] others[k]),
    decreases i.len(),
{
    lemma_number_is_text(i.skip(1));
    let n = number_len(i.skip(1)) as int;
    if i.len() > 0 && i[0] == DOT && n > 0 {
        let first = i.skip(1).take(n);
        let rest = lemma_dotted_is_text(i.skip(1 + n));
        let others = seq![first] + rest;
        lemma_each_behind_cons(46, first, rest);
        assert(i.take(dotted_len(i) as int) =~= seq![46u8] + first + i.skip(1 + n).take(
            dotted_len(i.skip(1 + n)) as int,
        ));
        assert forall|k: int| 0 <= k < others.len() implies is_numeral_text(
            #[trigger] others[k],
        ) by {
            if k > 0 {
                assert(others[k] == rest[k - 1]);
            }
        }
        others
    } else {
        assert(i.take(0) =~= Seq::<u8>::empty());
        Seq::empty()
    }
}

proof fn lemma_keys(s: Seq<u8>, t: Seq<u8>)
    requires
        forall|k: int| 0 <= k < s.len() ==> is_key(#[trigger] s[k]),
        t.len() == 0 || !is_key(t[0]),
    ensures
        span(s + t, CharClass::Keyword) == s.len(),
{
    assert forall|k: int| 0 <= k < s.len() implies CharClass::Keyword.has(#[trigger] s[k]) by {
        assert(is_key(s[k]));
    }
    lemma_span_all(s, t, CharClass::Keyword);
}

/// A type is read as far as it goes.
proof fn lemma_type_text(s: Seq<u8>, t: Seq<u8>)
    requires
        is_type_text(s),
        t.len() == 0 || !is_key(t[0]) && t[0] != DOT,
    ensures
        s.len() > 0,
        type_len(s + t) == s.len(),
{
    let i = s + t;
    if is_key_text(s) && is_letter(s[0]) {
        assert(i[0] == s[0]);
        assert(is_letter(s[0]));
        assert(span(i, CharClass::Digit) == 0);
        assert(i.skip(1) =~= s.skip(1) + t);
        assert forall|k: int| 0 <= k < s.skip(1).len() implies is_key(#[trigger] s.skip(1)[k]) by {
            assert(is_key(s[k + 1]));
        }
        lemma_keys(s.skip(1), t);
    } else {
        let (first, others) = choose|first: Seq<u8>, others: Seq<Seq<u8>>|
            is_dotted(s, first, others);
        let rest = each_behind(46, others);
        assert(i =~= first + (rest + t));
        assert(rest.len() > 0 ==> rest[0] == 46);
        lemma_number_text(first, rest + t);
        lemma_dotted_text(others, t);
        assert(i.skip(first.len() as int) =~= rest + t);
    }
}

/// What is read as the type at the start of the input is one.
pub proof fn lemma_type_is_text(i: Seq<u8>)
    ensures
        type_len(i) <= i.len(),
        type_len(i) > 0 ==> is_type_text(i.take(type_len(i) as int)),
{
    lemma_description(i);
    let n = type_len(i) as int;
    let s = i.take(n);
    if n > 0 && oid_len(i) > 0 {
        lemma_number_is_text(i);
        let m = number_len(i) as int;
        let others = lemma_dotted_is_text(i.skip(m));
        assert(s =~= i.take(m) + i.skip(m).take(dotted_len(i.skip(m)) as int));
        assert(is_dotted(s, i.take(m), others));
    } else if n > 0 {
        lemma_span(i.skip(1), CharClass::Keyword);
        assert forall|k: int| 0 <= k < s.len() implies is_key(#[trigger] s[k]) by {
            if k > 0 {
                assert(CharClass::Keyword.has(i.skip(1)[k - 1]));
            }
        }
        assert(is_key_text(s) && is_letter(s[0]));
    }
}

proof fn lemma_options_text(options: Seq<Seq<u8>>, t: Seq<u8>)
    requires
        forall|k: int| 0 <= k < options.len() ==> is_key_text(#[trigger] options[k]),
        t.len() == 0 || !is_key(t[0]) && t[0] != SEMICOLON,
    ensures
        options_len(each_behind(59, options) + t) == each_behind(59, options).len(),
    decreases options.len(),
{
    let i = each_behind(59, options) + t;
    if options.len() > 0 {
        let rest = each_behind(59, options.drop_first());
        assert(is_key_text(options[0]));
        assert forall|k: int| 0 <= k < options.drop_first().len() implies is_key_text(
            #[trigger] options.drop_first()[k],
        ) by {
            assert(is_key_text(options[k + 1]));
        }
        lemma_options_text(options.drop_first(), t);
        assert(i.skip(1) =~= options[0] + (rest + t));
        assert(rest.len() > 0 ==> rest[0] == 59);
        lemma_keys(options[0], rest + t);
        assert(i.skip(1 + options[0].len() as int) =~= rest + t);
        assert(i[0] == SEMICOLON);
    } else {
        assert(i =~= t);
    }
}

proof fn lemma_options_are_text(i: Seq<u8>) -> (options: Seq<Seq<u8>>)
    ensures
        options_len(i) <= i.len(),
        i.take(options_len(i) as int) == each_behind(59, options),
        forall|k: int| 0 <= k < options.len() ==> is_key_text(#[trigger] options[k]),
    decreases i.len(),
{
    lemma_span(i.skip(1), CharClass::Keyword);
    let n = span(i.skip(1), CharClass::Keyword) as int;
    if i.len() > 0 && i[0] == SEMICOLON && n > 0 {
        let first = i.skip(1).take(n);
        assert forall|k: int| 0 <= k < first.len() implies is_key(#[trigger] first[k]) by {
            assert(CharClass::Keyword.has(i.skip(1)[k]));
        }
        let rest = lemma_options_are_text(i.skip(1 + n));
        let options = seq![first] + rest;
        lemma_each_behind_cons(59, first, rest);
        assert(i.take(options_len(i) as int) =~= seq![59u8] + first + i.skip(1 + n).take(
            options_len(i.skip(1 + n)) as int,
        ));
        assert forall|k: int| 0 <= k < options.len() implies is_key_text(
            #[trigger] options[k],
        ) by {
            if k > 0 {
                assert(options[k] == rest[k - 1]);
            }
        }
        options
    } else {
        assert(i.take(0) =~= Seq::<u8>::empty());
        Seq::empty()
    }
}

/// What is read as the attribute description at the start of the input is one.
pub proof fn lemma_description_is_text(i: Seq<u8>)
    ensures
        description_len(i) <= i.len(),
        description_len(i) > 0 ==> is_description_text(i.take(description_len(i) as int)),
{
    lemma_type_is_text(i);
    let n = type_len(i) as int;
    if n > 0 {
        let options = lemma_options_are_text(i.skip(n));
        let s = i.take(description_len(i) as int);
        assert(s =~= i.take(n) + i.skip(n).take(options_len(i.skip(n)) as int));
        assert(is_optioned(s, i.take(n), options));
    }
}

/// Text is accepted as an attribute description exactly when it is a type and perhaps options.
pub proof fn descriptions_are_types_and_options(s: Seq<u8>)
    ensures
        is_description(s) <==> is_description_text(s),
        is_type(s) <==> is_type_text(s),
{
    let none = Seq::<u8>::empty();
    assert(s + none =~= s);
    lemma_description_is_text(s);
    lemma_type_is_text(s);
    assert(s.take(s.len() as int) =~= s);
    if is_type_text(s) {
        lemma_type_text(s, none);
    }
    if is_description_text(s) {
        let (name, options) = choose|name: Seq<u8>, options: Seq<Seq<u8>>|
            is_optioned(s, name, options);
        let rest = each_behind(59, options);
        assert(rest.len() > 0 ==> rest[0] == 59);
        lemma_type_text(name, rest);
        lemma_options_text(options, none);
        assert(rest + none =~= rest);
        assert(s.skip(name.len() as int) =~= rest);
    }
}

} // verus!
