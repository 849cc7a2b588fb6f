use bytes::BytesMut;
use ldap3::asn1::Tag;
use ldap3::filter::parse;
use ldap3::requests::{
    abandon, add, compare, delete, extended, modify, modify_dn, sasl_bind, search, simple_bind,
    unbind, DerefAliases, Exop, Modification, Scope, Search,
};
use ldap3::write::encode_into;

fn ber(tag: Tag) -> Vec<u8> {
    let mut buf = BytesMut::new();
    encode_into(&mut buf, tag.into_structure()).unwrap();
    buf.to_vec()
}

#[test]
fn binds_have_an_exact_form() {
    assert_eq!(ber(simple_bind(vec![], vec![])), [0x60, 7, 2, 1, 3, 4, 0, 0x80, 0]);
    assert_eq!(
        ber(simple_bind(b"cn".to_vec(), b"pw".to_vec())),
        b"\x60\x0b\x02\x01\x03\x04\x02cn\x80\x02pw"
    );
    assert_eq!(
        ber(sasl_bind("EXTERNAL", Some(vec![]))),
        b"\x60\x13\x02\x01\x03\x04\x00\xa3\x0c\x04\x08EXTERNAL\x04\x00"
    );
    assert_eq!(ber(sasl_bind("X", None)), b"\x60\x0a\x02\x01\x03\x04\x00\xa3\x03\x04\x01X");
}

#[test]
fn updates_have_an_exact_form() {
    let attribute = || (b"a".to_vec(), vec![b"1".to_vec(), b"2".to_vec()]);
    assert_eq!(
        ber(add(b"d".to_vec(), vec![attribute()])),
        b"\x68\x12\x04\x01d\x30\x0d\x30\x0b\x04\x01a\x31\x06\x04\x011\x04\x012"
    );
    assert_eq!(
        ber(modify(b"d".to_vec(), vec![(Modification::Replace, attribute())])),
        b"\x66\x17\x04\x01d\x30\x12\x30\x10\x0a\x01\x02\x30\x0b\x04\x01a\x31\x06\x04\x011\x04\x012"
    );
    assert_eq!(Modification::Add.value(), 0);
    assert_eq!(Modification::Delete.value(), 1);
    assert_eq!(Modification::Increment.value(), 3);
    assert_eq!(ber(delete(b"dc=x".to_vec())), b"\x4a\x04dc=x");
    assert_eq!(
        ber(modify_dn(b"d".to_vec(), b"r".to_vec(), true, None)),
        b"\x6c\x09\x04\x01d\x04\x01r\x01\x01\xff"
    );
    assert_eq!(
        ber(modify_dn(b"d".to_vec(), b"r".to_vec(), false, Some(b"s".to_vec()))),
        b"\x6c\x0c\x04\x01d\x04\x01r\x01\x01\x00\x80\x01s"
    );
}

#[test]
fn other_requests_have_an_exact_form() {
    assert_eq!(
        ber(compare(b"d".to_vec(), b"a".to_vec(), b"v".to_vec())),
        b"\x6e\x0b\x04\x01d\x30\x06\x04\x01a\x04\x01v"
    );
    let exop = Exop { name: Some("1.2".to_owned()), val: Some(vec![7]) };
    assert_eq!(ber(extended(exop)), b"\x77\x08\x80\x031.2\x81\x01\x07");
    let bare = Exop { name: Some("1.2".to_owned()), val: None };
    assert_eq!(ber(extended(bare)), b"\x77\x05\x80\x031.2");
    assert_eq!(ber(unbind()), [0x42, 0]);
    assert_eq!(ber(abandon(1)), [0x50, 1, 1]);
    assert_eq!(ber(abandon(300)), [0x50, 2, 1, 44]);
}

#[test]
fn searches_have_an_exact_form() {
    let request = Search {
        base: b"b".to_vec(),
        scope: Scope::Subtree,
        dereference: DerefAliases::Always,
        size_limit: 5,
        time_limit: 300,
        types_only: true,
        filter: parse(b"(a=*)").unwrap(),
        attributes: vec![b"x".to_vec(), b"y".to_vec()],
    };
    assert_eq!(
        ber(search(request)),
        b"\x63\x1e\x04\x01b\x0a\x01\x02\x0a\x01\x03\x02\x01\x05\x02\x02\x01\x2c\x01\x01\xff\x87\x01a\x30\x06\x04\x01x\x04\x01y"
    );
    assert_eq!((Scope::Base.value(), Scope::OneLevel.value()), (0, 1));
    assert_eq!(DerefAliases::Never.value(), 0);
    assert_eq!(DerefAliases::Searching.value(), 1);
    assert_eq!(DerefAliases::Finding.value(), 2);
}
