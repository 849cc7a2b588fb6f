use bytes::BytesMut;
use ldap3::asn1::{Tag, TagClass};
use ldap3::filter::{
    assertion, conjunction, disjunction, extensible_tag, negation, parse, parse_matched_values,
    presence, substring, Comparison,
};
use ldap3::write::encode_into;

fn ber(tag: Tag) -> Vec<u8> {
    let mut buf = BytesMut::new();
    encode_into(&mut buf, tag.into_structure()).unwrap();
    buf.to_vec()
}

fn ber_vec_eq(filter: &str, ber: &[u8]) {
    let mut buf = BytesMut::new();
    let tag = parse(filter.as_bytes()).unwrap();
    encode_into(&mut buf, tag.into_structure()).unwrap();
    assert_eq!(buf, ber);
}

#[test]
fn filt_bare_item() {
    ber_vec_eq("a=v", b"\xa3\x06\x04\x01a\x04\x01v");
}

#[test]
fn filt_simple_eq() {
    ber_vec_eq("(a=v)", b"\xa3\x06\x04\x01a\x04\x01v");
}

#[test]
fn filt_extra_garbage() {
    assert!(parse("(a=v)garbage".as_bytes()).is_err());
}

#[test]
fn filt_simple_noneq() {
    ber_vec_eq("(a<=2)", b"\xa6\x06\x04\x01a\x04\x012");
}

#[test]
fn filt_pres() {
    ber_vec_eq("(a=*)", b"\x87\x01a");
}

#[test]
fn filt_ast_ini() {
    ber_vec_eq("(a=*v)", b"\xa4\x08\x04\x01a0\x03\x82\x01v");
}

#[test]
fn filt_ast_fin() {
    ber_vec_eq("(a=v*)", b"\xa4\x08\x04\x01a0\x03\x80\x01v");
}

#[test]
fn filt_ast_multi() {
    ber_vec_eq(
        "(a=v*x*y)",
        b"\xa4\x0e\x04\x01a0\t\x80\x01v\x81\x01x\x82\x01y",
    );
}

#[test]
fn filt_ast_double() {
    assert!(parse("(a=f**)".as_bytes()).is_err());
}

#[test]
fn filt_esc_ok() {
    ber_vec_eq("(a=v\\2ax)", b"\xa3\x08\x04\x01a\x04\x03v*x");
}

#[test]
fn filt_esc_runt() {
    assert!(parse("(a=v\\2)".as_bytes()).is_err());
}

#[test]
fn filt_esc_invalid() {
    assert!(parse("(a=v\\0x)".as_bytes()).is_err());
}

#[test]
fn filt_oid() {
    ber_vec_eq("(2.5.4.3=v)", b"\xa3\x0c\x04\x072.5.4.3\x04\x01v");
}

#[test]
fn filt_oid0() {
    ber_vec_eq("(2.5.4.0=top)", b"\xa3\x0e\x04\x072.5.4.0\x04\x03top");
}

#[test]
fn filt_oidl0() {
    assert!(parse("(2.5.04.0=top)".as_bytes()).is_err());
}

#[test]
fn filt_complex() {
    ber_vec_eq("(&(a=v)(b=x)(!(c=y)))", b"\xa0\x1a\xa3\x06\x04\x01a\x04\x01v\xa3\x06\x04\x01b\x04\x01x\xa2\x08\xa3\x06\x04\x01c\x04\x01y");
}

#[test]
fn filt_abs_true() {
    ber_vec_eq("(&)", b"\xa0\0");
}

#[test]
fn filt_abs_false() {
    ber_vec_eq("(|)", b"\xa1\0");
}

#[test]
fn filt_ext_dn() {
    ber_vec_eq(
        "(ou:dn:=People)",
        b"\xa9\x0f\x82\x02ou\x83\x06People\x84\x01\xff",
    );
}

#[test]
fn filt_ext_mrule() {
    ber_vec_eq(
        "(cn:2.5.13.5:=J D)",
        b"\xa9\x13\x81\x082.5.13.5\x82\x02cn\x83\x03J D",
    );
}

#[test]
fn filt_simple_utf8() {
    ber_vec_eq("(a=ć)", b"\xa3\x07\x04\x01a\x04\x02\xc4\x87");
}

#[test]
fn comparisons_have_their_own_numbers() {
    ber_vec_eq("(a>=2)", b"\xa5\x06\x04\x01a\x04\x012");
    ber_vec_eq("(a~=2)", b"\xa8\x06\x04\x01a\x04\x012");
    assert!(parse(b"(a>2)").is_err());
    assert!(parse(b"(a<)").is_err());
    assert_eq!(Comparison::Equal.id(), 3);
    assert_eq!(Comparison::Approximate.id(), 8);
}

#[test]
fn attribute_options_belong_to_the_description() {
    ber_vec_eq("(a;x-1;y=v)", b"\xa3\x0c\x04\x07a;x-1;y\x04\x01v");
    assert!(parse(b"(a;=v)").is_err());
    assert!(parse(b"(1a=v)").is_err());
    assert!(parse(b"(-a=v)").is_err());
    assert!(parse(b"()").is_err());
    assert!(parse(b"").is_err());
}

#[test]
fn an_item_means_the_same_with_and_without_parentheses() {
    for item in ["a=v", "a=*", "a=x*y", "a>=1", "cn:dn:2.5.13.5:=v", ":2.5.13.5:=v"] {
        let bare = ber(parse(item.as_bytes()).unwrap());
        let wrapped = ber(parse(format!("({item})").as_bytes()).unwrap());
        assert_eq!(bare, wrapped, "{item}");
    }
}

#[test]
fn filters_compose_out_of_their_parts() {
    let a = || parse(b"(a=v)").unwrap();
    let b = || parse(b"(!(b=*))").unwrap();
    assert_eq!(ber(parse(b"(&(a=v)(!(b=*)))").unwrap()), ber(conjunction(vec![a(), b()])));
    assert_eq!(ber(parse(b"(|(a=v)(!(b=*)))").unwrap()), ber(disjunction(vec![a(), b()])));
    assert_eq!(ber(parse(b"(!(a=v))").unwrap()), ber(negation(a())));
    assert!(parse(b"(&(a=v)b=x)").is_err());
    assert!(parse(b"(!(a=v)(b=x))").is_err());
    assert!(parse(b"(!)").is_err());
}

#[test]
fn any_bytes_can_be_escaped() {
    let value: Vec<u8> = (0..=255).collect();
    let text: String = value.iter().map(|b| format!("\\{b:02x}")).collect();
    let tag = parse(format!("(a={text})").as_bytes()).unwrap();
    assert_eq!(ber(tag), ber(assertion(Comparison::Equal, b"a".to_vec(), value)));
    ber_vec_eq("(a=\\2A)", b"\xa3\x06\x04\x01a\x04\x01*");
    assert!(parse(b"(a=\\)").is_err());
    assert!(parse(b"(a=\\g0)").is_err());
    assert!(parse(b"(a=\0)").is_err());
}

#[test]
fn substrings_keep_the_order_of_their_parts() {
    let parsed = parse(b"(a=i*x*y*f)").unwrap();
    let built = substring(
        b"a".to_vec(),
        Some(b"i".to_vec()),
        vec![b"x".to_vec(), b"y".to_vec()],
        Some(b"f".to_vec()),
    );
    assert_eq!(ber(parsed), ber(built));
    let middle = substring(b"a".to_vec(), None, vec![b"x".to_vec()], None);
    assert_eq!(ber(parse(b"(a=*x*)").unwrap()), ber(middle));
    assert_eq!(ber(parse(b"(a=*)").unwrap()), ber(presence(b"a".to_vec())));
    assert!(parse(b"(a=**)").is_err());
    assert!(parse(b"(a=x**y)").is_err());
}

#[test]
fn extensible_items_have_each_part() {
    let built = extensible_tag(Some(b"2.5.13.5"), Some(b"cn"), b"v".to_vec(), true);
    assert_eq!(ber(parse(b"(cn:dn:2.5.13.5:=v)").unwrap()), ber(built));
    let rule_only = extensible_tag(Some(b"caseExactMatch"), None, b"v".to_vec(), false);
    assert_eq!(ber(parse(b"(:caseExactMatch:=v)").unwrap()), ber(rule_only));
    let with_dn = extensible_tag(Some(b"caseExactMatch"), None, b"v".to_vec(), true);
    assert_eq!(ber(parse(b"(:dn:caseExactMatch:=v)").unwrap()), ber(with_dn));
    assert!(parse(b"(:=v)").is_err());
    assert!(parse(b"(:dn:=v)").is_err());
    // The flag is taken out of the name of the rule, and the rest is no assignment.
    assert!(parse(b"(cn:dnMatch:=v)").is_err());
}

#[test]
fn matched_values_are_a_list_of_items() {
    let tag = parse_matched_values(b"((a=v)(b=*))").unwrap();
    assert_eq!(ber(tag), b"\x30\x0b\xa3\x06\x04\x01a\x04\x01v\x87\x01b");
    assert!(parse_matched_values(b"()").is_err());
    assert!(parse_matched_values(b"(a=v)").is_err());
    assert!(parse_matched_values(b"((&(a=v)))").is_err());
    assert!(parse_matched_values(b"((a=v))x").is_err());
}

#[test]
fn filters_are_in_the_context_class() {
    match parse(b"(a=*)").unwrap() {
        Tag::OctetString(tag) => assert_eq!((tag.class, tag.id), (TagClass::Context, 7)),
        other => panic!("{other:?}"),
    }
}

#[test]
fn a_value_can_be_written_in_many_ways() {
    let expected = || ber(assertion(Comparison::Equal, b"cn".to_vec(), b"a*\xffJ".to_vec()));
    for text in ["a\\2a\\ffJ", "a\\2A\\FFJ", "\\61\\2a\\fF\\4a", "\\61\\2A\\Ff\\4A"] {
        assert_eq!(ber(parse(format!("(cn={text})").as_bytes()).unwrap()), expected());
    }
    for text in ["a\0b", "a(b", "a)b", "*x\0", "x*(", "\\28)"] {
        assert!(parse(format!("(cn={text})").as_bytes()).is_err(), "{text:?}");
    }
}
