use ldap3::asn1::{StructureTag, TagClass, PL};
use ldap3::parse::{parse_tag, parse_tag_limited, parse_uint, BerError, FailureKind, Needed, Parser};

#[test]
fn test_primitive() {
    let bytes: Vec<u8> = vec![2, 2, 255, 127];
    let result_tag = StructureTag {
        class: TagClass::Universal,
        id: 2u64,
        payload: PL::P(vec![255, 127]),
    };
    let rest_tag: Vec<u8> = vec![];

    let tag = parse_tag(&bytes[..]);

    assert_eq!(tag, Ok((&rest_tag[..], result_tag)));
}

#[test]
fn test_constructed() {
    let bytes: Vec<u8> = vec![
        48, 14, 12, 12, 72, 101, 108, 108, 111, 32, 87, 111, 114, 108, 100, 33,
    ];
    let result_tag = StructureTag {
        class: TagClass::Universal,
        id: 16u64,
        payload: PL::C(vec![StructureTag {
            class: TagClass::Universal,
            id: 12u64,
            payload: PL::P(vec![72, 101, 108, 108, 111, 32, 87, 111, 114, 108, 100, 33]),
        }]),
    };
    let rest_tag: Vec<u8> = vec![];

    let tag = parse_tag(&bytes[..]);

    assert_eq!(tag, Ok((&rest_tag[..], result_tag)));
}

#[test]
fn test_long_length() {
    let bytes: Vec<u8> = vec![
        0x30, 0x82, 0x01, 0x01, 0x80, 0x0C, 0x4A, 0x75, 0x73, 0x74, 0x41, 0x4C, 0x6F, 0x6E,
        0x67, 0x54, 0x61, 0x67, 0x81, 0x81, 0xF0, 0x4A, 0x75, 0x73, 0x74, 0x41, 0x4C, 0x6F,
        0x6E, 0x67, 0x54, 0x61, 0x67, 0x4A, 0x75, 0x73, 0x74, 0x41, 0x4C, 0x6F, 0x6E, 0x67,
        0x54, 0x61, 0x67, 0x4A, 0x75, 0x73, 0x74, 0x41, 0x4C, 0x6F, 0x6E, 0x67, 0x54, 0x61,
        0x67, 0x4A, 0x75, 0x73, 0x74, 0x41, 0x4C, 0x6F, 0x6E, 0x67, 0x54, 0x61, 0x67, 0x4A,
        0x75, 0x73, 0x74, 0x41, 0x4C, 0x6F, 0x6E, 0x67, 0x54, 0x61, 0x67, 0x4A, 0x75, 0x73,
        0x74, 0x41, 0x4C, 0x6F, 0x6E, 0x67, 0x54, 0x61, 0x67, 0x4A, 0x75, 0x73, 0x74, 0x41,
        0x4C, 0x6F, 0x6E, 0x67, 0x54, 0x61, 0x67, 0x4A, 0x75, 0x73, 0x74, 0x41, 0x4C, 0x6F,
        0x6E, 0x67, 0x54, 0x61, 0x67, 0x4A, 0x75, 0x73, 0x74, 0x41, 0x4C, 0x6F, 0x6E, 0x67,
        0x54, 0x61, 0x67, 0x4A, 0x75, 0x73, 0x74, 0x41, 0x4C, 0x6F, 0x6E, 0x67, 0x54, 0x61,
        0x67, 0x4A, 0x75, 0x73, 0x74, 0x41, 0x4C, 0x6F, 0x6E, 0x67, 0x54, 0x61, 0x67, 0x4A,
        0x75, 0x73, 0x74, 0x41, 0x4C, 0x6F, 0x6E, 0x67, 0x54, 0x61, 0x67, 0x4A, 0x75, 0x73,
        0x74, 0x41, 0x4C, 0x6F, 0x6E, 0x67, 0x54, 0x61, 0x67, 0x4A, 0x75, 0x73, 0x74, 0x41,
        0x4C, 0x6F, 0x6E, 0x67, 0x54, 0x61, 0x67, 0x4A, 0x75, 0x73, 0x74, 0x41, 0x4C, 0x6F,
        0x6E, 0x67, 0x54, 0x61, 0x67, 0x4A, 0x75, 0x73, 0x74, 0x41, 0x4C, 0x6F, 0x6E, 0x67,
        0x54, 0x61, 0x67, 0x4A, 0x75, 0x73, 0x74, 0x41, 0x4C, 0x6F, 0x6E, 0x67, 0x54, 0x61,
        0x67, 0x4A, 0x75, 0x73, 0x74, 0x41, 0x4C, 0x6F, 0x6E, 0x67, 0x54, 0x61, 0x67, 0x4A,
        0x75, 0x73, 0x74, 0x41, 0x4C, 0x6F, 0x6E, 0x67, 0x54, 0x61, 0x67, 0x4A, 0x75, 0x73,
        0x74, 0x41, 0x4C, 0x6F, 0x6E, 0x67, 0x54, 0x61, 0x67,
    ];

    let result_tag = StructureTag {
        class: TagClass::Universal,
        id: 16u64,
        payload: PL::C(vec![
            StructureTag {
                class: TagClass::Context,
                id: 0,
                payload: PL::P(vec![74, 117, 115, 116, 65, 76, 111, 110, 103, 84, 97, 103]),
            },
            StructureTag {
                class: TagClass::Context,
                id: 1,
                payload: PL::P(vec![
                    74, 117, 115, 116, 65, 76, 111, 110, 103, 84, 97, 103, 74, 117, 115, 116,
                    65, 76, 111, 110, 103, 84, 97, 103, 74, 117, 115, 116, 65, 76, 111, 110,
                    103, 84, 97, 103, 74, 117, 115, 116, 65, 76, 111, 110, 103, 84, 97, 103,
                    74, 117, 115, 116, 65, 76, 111, 110, 103, 84, 97, 103, 74, 117, 115, 116,
                    65, 76, 111, 110, 103, 84, 97, 103, 74, 117, 115, 116, 65, 76, 111, 110,
                    103, 84, 97, 103, 74, 117, 115, 116, 65, 76, 111, 110, 103, 84, 97, 103,
                    74, 117, 115, 116, 65, 76, 111, 110, 103, 84, 97, 103, 74, 117, 115, 116,
                    65, 76, 111, 110, 103, 84, 97, 103, 74, 117, 115, 116, 65, 76, 111, 110,
                    103, 84, 97, 103, 74, 117, 115, 116, 65, 76, 111, 110, 103, 84, 97, 103,
                    74, 117, 115, 116, 65, 76, 111, 110, 103, 84, 97, 103, 74, 117, 115, 116,
                    65, 76, 111, 110, 103, 84, 97, 103, 74, 117, 115, 116, 65, 76, 111, 110,
                    103, 84, 97, 103, 74, 117, 115, 116, 65, 76, 111, 110, 103, 84, 97, 103,
                    74, 117, 115, 116, 65, 76, 111, 110, 103, 84, 97, 103, 74, 117, 115, 116,
                    65, 76, 111, 110, 103, 84, 97, 103, 74, 117, 115, 116, 65, 76, 111, 110,
                    103, 84, 97, 103, 74, 117, 115, 116, 65, 76, 111, 110, 103, 84, 97, 103,
                ]),
            },
        ]),
    };

    let rest_tag = Vec::new();

    let tag = parse_tag(&bytes[..]);
    assert_eq!(tag, Ok((&rest_tag[..], result_tag)));
}

#[test]
fn malformed_lengths_integers_and_depth_are_rejected() {
    for wire in [
        &[0x30, 0x80][..],
        &[0x30, 0x89],
        &[0x1f, 0],
        &[0x30, 2, 0x30, 0],
    ] {
        assert!(parse_tag_limited(wire, 1, 4, 1024).is_err());
    }
    assert!(parse_uint(&[]).is_err());
    assert!(parse_uint(&[1; 9]).is_err());
    assert!(parse_tag_limited(&[0x30, 4, 4, 0, 4, 0], 4, 2, 4096).is_err());
    assert!(
        parse_tag_limited(
            &[4, 3, 1, 2, 3],
            4,
            2,
            2 * std::mem::size_of::<StructureTag>() + 2
        )
        .is_err()
    );
    assert!(
        parse_tag_limited(
            &[4, 3, 1, 2, 3],
            4,
            2,
            2 * std::mem::size_of::<StructureTag>() + 3
        )
        .is_ok()
    );
}
#[test]
fn parsed_children_cannot_escape_their_parent_length() {
    assert!(parse_tag_limited(&[0x30, 2, 4, 2, 1, 2], 8, 8, 4096).is_err());
    assert_eq!(parse_tag(&[0x30, 2, 4, 0, 1, 2]).unwrap().0, &[1, 2]);
}

fn primitive(id: u64, bytes: &[u8]) -> StructureTag {
    StructureTag { class: TagClass::Universal, id, payload: PL::P(bytes.to_vec()) }
}

#[test]
fn integers_are_big_endian() {
    assert_eq!(parse_uint(&[1, 2, 3]).unwrap().1, 0x010203);
    assert_eq!(parse_uint(&[0xff; 8]).unwrap().1, u64::MAX);
    assert_eq!(parse_uint(&[]), Err(BerError::Failure(FailureKind::TooLarge)));
}

#[test]
fn missing_bytes_are_counted() {
    assert_eq!(parse_tag(&[]), Err(BerError::Incomplete(Needed::Size(1))));
    assert_eq!(parse_tag(&[4]), Err(BerError::Incomplete(Needed::Size(1))));
    assert_eq!(parse_tag(&[4, 0x82, 1]), Err(BerError::Incomplete(Needed::Size(1))));
    assert_eq!(parse_tag(&[4, 5, 1, 2]), Err(BerError::Incomplete(Needed::Size(3))));
    assert_eq!(Parser::new().parse(&[]), Err(BerError::Incomplete(Needed::Unknown)));
    assert_eq!(Parser::default().parse(&[5, 0]), Ok((&[][..], primitive(5, &[]))));
}

#[test]
fn unsupported_forms_are_told_apart() {
    assert_eq!(parse_tag(&[4, 0x80]), Err(BerError::Failure(FailureKind::LengthValue)));
    assert_eq!(parse_tag(&[4, 0x89]), Err(BerError::Failure(FailureKind::LengthValue)));
    assert_eq!(parse_tag(&[0x1f, 0]), Err(BerError::Failure(FailureKind::TooLarge)));
}

#[test]
fn what_follows_an_element_is_left_alone() {
    let (rest, tag) = parse_tag(&[0x61, 3, 4, 1, 9, 0xff, 0xee]).unwrap();
    assert_eq!(rest, &[0xff, 0xee]);
    assert_eq!(tag.class, TagClass::Application);
    assert_eq!(tag.id, 1);
    assert_eq!(tag.clone().expect_constructed(), Some(vec![primitive(4, &[9])]));
    assert_eq!(tag.expect_primitive(), None);
}
