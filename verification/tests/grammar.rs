//! The filter grammar once more, out of parser combinators: both have to agree on every text.
use bytes::BytesMut;
use ldap3::asn1::{OctetString, Sequence, Tag, TagClass};
use ldap3::filter::{
    assertion, conjunction, disjunction, extensible_tag, negation, parse, parse_matched_values,
    presence, substring, Comparison,
};
use ldap3::write::encode_into;
use nom::branch::alt;
use nom::bytes::complete::{tag, take_while, take_while1};
use nom::character::complete::digit1;
use nom::combinator::{map_res, opt, recognize, verify};
use nom::multi::{many0, many0_count, many1};
use nom::sequence::{delimited, pair, preceded};
use nom::IResult;

fn keyword(c: u8) -> bool {
    c.is_ascii_alphanumeric() || c == b'-'
}

fn number(i: &[u8]) -> IResult<&[u8], &[u8]> {
    verify(digit1, |d: &[u8]| d.len() == 1 || d[0] != b'0')(i)
}

fn name(i: &[u8]) -> IResult<&[u8], &[u8]> {
    alt((
        recognize(pair(number, many0_count(preceded(tag("."), number)))),
        recognize(pair(
            verify(take_while1(keyword), |s: &[u8]| s[0].is_ascii_alphabetic()),
            take_while(keyword),
        )),
    ))(i)
}

fn description(i: &[u8]) -> IResult<&[u8], &[u8]> {
    recognize(pair(name, many0_count(preceded(tag(";"), take_while1(keyword)))))(i)
}

fn unescape(text: &[u8]) -> Result<Vec<u8>, ()> {
    let mut value = Vec::new();
    let mut rest = text;
    while let Some((&c, more)) = rest.split_first() {
        if c != b'\\' {
            value.push(c);
            rest = more;
        } else if more.len() >= 2 && more[..2].iter().all(u8::is_ascii_hexdigit) {
            let digits = std::str::from_utf8(&more[..2]).unwrap();
            value.push(u8::from_str_radix(digits, 16).unwrap());
            rest = &more[2..];
        } else {
            return Err(());
        }
    }
    Ok(value)
}

fn value(i: &[u8]) -> IResult<&[u8], Vec<u8>> {
    map_res(take_while(|c| !matches!(c, 0 | b'(' | b')' | b'*')), unescape)(i)
}

fn equal(i: &[u8]) -> IResult<&[u8], Tag> {
    let (i, attr) = description(i)?;
    let (i, initial) = preceded(tag("="), value)(i)?;
    let (i, mut parts) = verify(
        many0(preceded(tag("*"), value)),
        |parts: &Vec<Vec<u8>>| parts.iter().rev().skip(1).all(|p| !p.is_empty()),
    )(i)?;
    let attr = attr.to_vec();
    let some = |part: Vec<u8>| if part.is_empty() { None } else { Some(part) };
    let filter = match parts.pop() {
        None => assertion(Comparison::Equal, attr, initial),
        Some(last) if initial.is_empty() && parts.is_empty() && last.is_empty() => presence(attr),
        Some(last) => substring(attr, some(initial), parts, some(last)),
    };
    Ok((i, filter))
}

fn ordered(i: &[u8]) -> IResult<&[u8], Tag> {
    let (i, attr) = description(i)?;
    let (i, sign) = alt((tag(">="), tag("<="), tag("~=")))(i)?;
    let (i, value) = value(i)?;
    let kind = match sign[0] {
        b'>' => Comparison::GreaterOrEqual,
        b'<' => Comparison::LessOrEqual,
        _ => Comparison::Approximate,
    };
    Ok((i, assertion(kind, attr.to_vec(), value)))
}

fn attribute_rule(i: &[u8]) -> IResult<&[u8], Tag> {
    let (i, attr) = description(i)?;
    let (i, dn) = opt(tag(":dn"))(i)?;
    let (i, rule) = opt(preceded(tag(":"), name))(i)?;
    let (i, value) = preceded(tag(":="), value)(i)?;
    Ok((i, extensible_tag(rule, Some(attr), value, dn.is_some())))
}

fn rule_only(i: &[u8]) -> IResult<&[u8], Tag> {
    let (i, dn) = opt(tag(":dn"))(i)?;
    let (i, rule) = preceded(tag(":"), name)(i)?;
    let (i, value) = preceded(tag(":="), value)(i)?;
    Ok((i, extensible_tag(Some(rule), None, value, dn.is_some())))
}

fn item(i: &[u8]) -> IResult<&[u8], Tag> {
    alt((equal, ordered, attribute_rule, rule_only))(i)
}

fn filter(i: &[u8]) -> IResult<&[u8], Tag> {
    let component = alt((
        nom::combinator::map(preceded(tag("&"), many0(filter)), conjunction),
        nom::combinator::map(preceded(tag("|"), many0(filter)), disjunction),
        nom::combinator::map(preceded(tag("!"), filter), negation),
        item,
    ));
    delimited(tag("("), component, tag(")"))(i)
}

fn items(i: &[u8]) -> IResult<&[u8], Tag> {
    nom::combinator::map(
        delimited(tag("("), many1(delimited(tag("("), item, tag(")"))), tag(")")),
        |inner| Tag::Sequence(Sequence { class: TagClass::Universal, id: 16, inner }),
    )(i)
}

fn whole(result: IResult<&[u8], Tag>) -> Option<Tag> {
    match result {
        Ok(([], tag)) => Some(tag),
        _ => None,
    }
}

fn ber(tag: Tag) -> Vec<u8> {
    let mut buf = BytesMut::new();
    encode_into(&mut buf, tag.into_structure()).unwrap();
    buf.to_vec()
}

fn compare(text: &[u8]) -> bool {
    let expected = whole(alt((filter, item))(text)).map(ber);
    let found = parse(text).ok().map(ber);
    assert_eq!(found, expected, "{:?}", String::from_utf8_lossy(text));
    let listed = whole(items(text)).map(ber);
    let matched = parse_matched_values(text).ok().map(ber);
    assert_eq!(matched, listed, "{:?}", String::from_utf8_lossy(text));
    found.is_some() || matched.is_some()
}

#[test]
fn both_grammars_agree_on_short_texts() {
    const ALPHABET: &[u8] = b"a0=*\\:d(;)";
    let mut accepted = 0;
    for length in 0..=5u32 {
        for n in 0..(ALPHABET.len() as u32).pow(length) {
            let mut rest = n;
            let text: Vec<u8> = (0..length)
                .map(|_| {
                    let c = ALPHABET[rest as usize % ALPHABET.len()];
                    rest /= ALPHABET.len() as u32;
                    c
                })
                .collect();
            accepted += usize::from(compare(&text));
        }
    }
    assert!(accepted > 100);
}

#[test]
fn both_grammars_agree_on_mixtures_of_parts() {
    const PARTS: &[&str] = &[
        "(", ")", "(a", "cn", "2.5.4.3", "04", ".", ";x-1", "=", ">=", "<=", "~=", ":=", ":dn",
        ":", "*", "v", "\\2a", "\\0", "&", "|", "!", "(&(", "(a=v)", ")(", "\0", "-",
    ];
    let mut seed: u64 = 1;
    let mut accepted = 0;
    for _ in 0..60_000 {
        let mut text = String::from("(");
        for _ in 0..6 {
            seed = seed.wrapping_mul(6364136223846793005).wrapping_add(1442695040888963407);
            text.push_str(PARTS[(seed >> 33) as usize % PARTS.len()]);
        }
        text.push(')');
        accepted += usize::from(compare(text.as_bytes()));
    }
    assert!(accepted > 50);
}

#[test]
fn both_grammars_agree_on_nested_filters() {
    for text in [
        "(&(|(a=1)(b>=2))(!(c=*))(d:dn:2.4:=x))",
        "(&(|(a=1)(b>=2))(!(c=*))(d:dn:2.4:=x)",
        "(!(!(!(a=*b*))))",
        "((a=1)(b=*)(:dn:x:=y))",
        "((a=1)(!(b=*)))",
    ] {
        compare(text.as_bytes());
    }
    let empty = Tag::OctetString(OctetString {
        class: TagClass::Context,
        id: 7,
        inner: b"a".to_vec(),
    });
    assert_eq!(ber(parse(b"(a=*)").unwrap()), ber(empty));
}
