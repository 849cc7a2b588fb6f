use bytes::BytesMut;
use ldap3::allocation::{
    footprint, request_size, request_total, response_total, ControlSize, Extent,
};
use ldap3::asn1::{
    integer_octets, Boolean, Enumerated, ExplicitTag, Integer, Null, OctetString, Sequence, SetOf,
    StructureTag, Tag, TagClass, PL,
};
use ldap3::conn::encode_message;
use ldap3::controls::{build_tag, try_parse_controls, RawControl};
use ldap3::error::{Error, ErrorKind};
use ldap3::parse::parse_tag;
use ldap3::protocol::{CodecLimits, LdapCodec};
use ldap3::result::result_code;
use ldap3::write::{encode_into, encoded_len};

#[test]
fn exact_wire_and_unknown_numeric_results_survive_the_single_decoder() {
    // message ID 1, BindResponse with unassigned numeric result 1234.
    let wire = [0x30, 13, 2, 1, 1, 0x61, 8, 10, 2, 4, 0xd2, 4, 0, 4, 0];
    let mut input = BytesMut::from(&wire[..]);
    input.extend_from_slice(&wire);
    let mut codec = LdapCodec::new(CodecLimits::default()).unwrap();
    let reply = codec.decode(&mut input).unwrap().unwrap();
    assert_eq!(reply.id, 1);
    assert_eq!(reply.raw.as_ref(), wire);
    assert_eq!(input.as_ref(), wire);
    assert_eq!(reply.operation.id, 1);
    assert_eq!(result_code(&reply.operation), Some(1234));
    let children = reply.operation.expect_constructed().unwrap();
    assert_eq!(children[0].clone().expect_primitive().unwrap(), [4, 0xd2]);
}

#[test]
fn malformed_peer_envelopes_and_controls_fail_without_panicking_or_consuming() {
    for wire in [
        &[0x30, 0][..],
        &[0x30, 3, 2, 1, 1],
        &[0x30, 5, 2, 1, 0xff, 0x61, 0],
        &[0x30, 7, 2, 1, 1, 0x61, 0, 4, 0],
        // Empty BOOLEAN inside a response control.
        &[
            0x30, 16, 2, 1, 1, 0x61, 0, 0xa0, 9, 0x30, 7, 4, 3, b'1', b'.', b'2', 1, 0,
        ],
        &[0x30, 0x80],
        &[0x30, 0x89],
        // Outer message complete; inner operation length escapes it.
        &[0x30, 5, 2, 1, 1, 0x61, 8],
    ] {
        let mut codec = LdapCodec::new(CodecLimits::default()).unwrap();
        let mut input = BytesMut::from(wire);
        assert!(codec.decode(&mut input).is_err(), "{wire:?}");
        assert_eq!(input.as_ref(), wire);
    }
    let mut codec = LdapCodec::new(CodecLimits { maximum_frame: 8, ..Default::default() }).unwrap();
    assert!(codec.decode(&mut BytesMut::from(&[0x30, 0x82, 1, 0][..])).is_err());
}

fn codec() -> LdapCodec {
    LdapCodec::new(CodecLimits::default()).unwrap()
}

fn control(ctype: &str, crit: bool, val: Option<&[u8]>) -> RawControl {
    RawControl { ctype: ctype.to_owned(), crit, val: val.map(|v| v.to_vec()) }
}

fn ber(tag: Tag) -> Vec<u8> {
    let mut buf = BytesMut::new();
    encode_into(&mut buf, tag.into_structure()).unwrap();
    buf.to_vec()
}

#[test]
fn every_start_of_a_message_is_waited_for() {
    let wire = [0x30, 12, 2, 1, 1, 0x61, 7, 10, 1, 0, 4, 0, 4, 0];
    for n in 0..wire.len() {
        let mut input = BytesMut::from(&wire[..n]);
        assert!(codec().decode(&mut input).unwrap().is_none());
        assert_eq!(input.as_ref(), &wire[..n]);
    }
}

#[test]
fn messages_read_back_as_they_were_written() {
    let controls = || {
        vec![
            control("1.2.3", true, Some(&[0, 0xff])),
            control("1.2.4", false, None),
            control("1.2.5", false, Some(b"v")),
            control("1.2.6", true, None),
        ]
    };
    for id in [0, 1, 127, 128, 32767, 32768, 8388608, i32::MAX] {
        let tag = Tag::OctetString(OctetString {
            class: TagClass::Application,
            id: 10,
            inner: vec![7; 300],
        });
        let mut buf = BytesMut::from(&b"before"[..]);
        codec().encode((id, tag, Some(controls())), &mut buf).unwrap();
        let mut input = buf.split_off(6);
        let wire = input.to_vec();
        input.extend_from_slice(b"after");
        let response = codec().decode(&mut input).unwrap().unwrap();
        assert_eq!(buf.as_ref(), b"before");
        assert_eq!(input.as_ref(), b"after");
        assert_eq!(response.id, id);
        assert_eq!(response.controls, controls());
        assert_eq!(response.raw.as_ref(), wire);
        assert_eq!(response.operation.payload, PL::P(vec![7; 300]));
    }
}

#[test]
fn messages_have_an_exact_form() {
    let unbind = || Tag::Null(Null { class: TagClass::Application, id: 2, inner: () });
    let none = encode_message(&mut codec(), 2, unbind(), None).unwrap();
    assert_eq!(none, [0x30, 5, 2, 1, 2, 0x42, 0]);
    let empty = encode_message(&mut codec(), 2, unbind(), Some(vec![])).unwrap();
    assert_eq!(empty, [0x30, 7, 2, 1, 2, 0x42, 0, 0xa0, 0]);
    let one = encode_message(&mut codec(), 2, unbind(), Some(vec![control("1", true, Some(&[9]))]));
    assert_eq!(
        one.unwrap(),
        [0x30, 18, 2, 1, 2, 0x42, 0, 0xa0, 11, 0x30, 9, 4, 1, b'1', 1, 1, 0xff, 4, 1, 9]
    );
    let high = Tag::Null(Null { class: TagClass::Application, id: 31, inner: () });
    assert_eq!(encode_message(&mut codec(), 2, high, None), Err(Error::LimitExceeded));
}

#[test]
fn values_have_an_exact_form() {
    let universal = TagClass::Universal;
    let integer = |inner| ber(Tag::Integer(Integer { class: universal, id: 2, inner }));
    assert_eq!(integer(0), [2, 1, 0]);
    assert_eq!(integer(-1), [2, 1, 0xff]);
    assert_eq!(integer(128), [2, 2, 0, 128]);
    assert_eq!(integer(-129), [2, 2, 0xff, 0x7f]);
    assert_eq!(integer_octets(i64::MIN), [0x80, 0, 0, 0, 0, 0, 0, 0]);
    assert_eq!(integer_octets(i64::MAX), [0x7f, 255, 255, 255, 255, 255, 255, 255]);
    let boolean = |inner| ber(Tag::Boolean(Boolean { class: universal, id: 1, inner }));
    assert_eq!(boolean(true), [1, 1, 0xff]);
    assert_eq!(boolean(false), [1, 1, 0]);
    let enumerated = Tag::Enumerated(Enumerated { class: universal, id: 10, inner: 3 });
    assert_eq!(ber(enumerated), [10, 1, 3]);
    let null = || Tag::Null(Null { class: universal, id: 5, inner: () });
    let list = Tag::Sequence(Sequence { class: universal, id: 16, inner: vec![null(), null()] });
    assert_eq!(ber(list), [0x30, 4, 5, 0, 5, 0]);
    let set = Tag::SetOf(SetOf { class: universal, id: 17, inner: vec![null()] });
    assert_eq!(ber(set), [0x31, 2, 5, 0]);
    let private = Tag::ExplicitTag(ExplicitTag {
        class: TagClass::Private,
        id: 3,
        inner: Box::new(null()),
    });
    assert_eq!(ber(private), [0xe3, 2, 5, 0]);
}

#[test]
fn lengths_take_the_shortest_form() {
    for (n, header) in [
        (127usize, vec![4u8, 127]),
        (128, vec![4, 0x81, 128]),
        (255, vec![4, 0x81, 255]),
        (256, vec![4, 0x82, 1, 0]),
        (65536, vec![4, 0x83, 1, 0, 0]),
    ] {
        let tag = StructureTag {
            class: TagClass::Universal,
            id: 4,
            payload: PL::P(vec![1; n]),
        };
        assert_eq!(encoded_len(&tag), Ok(header.len() + n));
        let mut buf = BytesMut::new();
        encode_into(&mut buf, tag.clone()).unwrap();
        assert_eq!(&buf[..header.len()], &header[..]);
        let (rest, back) = parse_tag(&buf).unwrap();
        assert!(rest.is_empty());
        assert_eq!(back, tag);
    }
}

#[test]
fn controls_with_anything_else_in_them_are_refused() {
    let list = |parts| StructureTag { class: TagClass::Context, id: 0, payload: PL::C(parts) };
    let good = build_tag(control("1.2", true, Some(b"x")));
    assert_eq!(
        try_parse_controls(list(vec![good.clone()])).unwrap(),
        vec![control("1.2", true, Some(b"x"))]
    );
    let mut extra = good.clone().expect_constructed().unwrap();
    extra.push(extra[2].clone());
    let extra = StructureTag { payload: PL::C(extra), ..good.clone() };
    assert_eq!(try_parse_controls(list(vec![extra])), Err(Error::InvalidEnvelope));
    let mut swapped = good.clone().expect_constructed().unwrap();
    swapped.swap(1, 2);
    let swapped = StructureTag { payload: PL::C(swapped), ..good.clone() };
    assert_eq!(try_parse_controls(list(vec![swapped])), Err(Error::InvalidEnvelope));
    let mut binary = good.clone().expect_constructed().unwrap();
    binary[0].payload = PL::P(vec![0xff]);
    let binary = StructureTag { payload: PL::C(binary), ..good.clone() };
    assert_eq!(try_parse_controls(list(vec![binary])), Err(Error::InvalidEnvelope));
    let other = StructureTag { class: TagClass::Context, id: 1, payload: PL::C(vec![good]) };
    assert_eq!(try_parse_controls(other), Err(Error::InvalidEnvelope));
}

#[test]
fn only_usable_limits_make_a_codec() {
    let limits = CodecLimits::default();
    assert_eq!(limits.maximum_frame, 16 * 1024 * 1024);
    assert_eq!(limits.maximum_allocation, 64 * 1024 * 1024);
    assert_eq!(limits.maximum_nodes, 65536);
    assert_eq!(limits.maximum_depth, 64);
    for bad in [
        CodecLimits { maximum_frame: 1, ..limits },
        CodecLimits { maximum_allocation: 0, ..limits },
        CodecLimits { maximum_nodes: 0, ..limits },
        CodecLimits { maximum_depth: 0, ..limits },
        CodecLimits { maximum_depth: 129, ..limits },
    ] {
        assert_eq!(LdapCodec::new(bad).err(), Some(Error::InvalidCodecLimits));
    }
    assert!(LdapCodec::new(CodecLimits { maximum_depth: 128, ..limits }).is_ok());
    assert_eq!(Error::InvalidCodecLimits.kind(), ErrorKind::InvalidInput);
    assert_eq!(Error::InvalidEnvelope.kind(), ErrorKind::InvalidData);
}

#[test]
fn requests_are_measured_before_they_are_queued() {
    let operation = StructureTag {
        class: TagClass::Application,
        id: 10,
        payload: PL::P(b"dc=test".to_vec()),
    };
    // 7 bytes held, 17 bytes on the wire.
    assert_eq!(codec().validate_request(&operation, &[]), Ok(7 + 1024 + 4 * 17));
    let controls = [control("1.2", false, Some(b"abc"))];
    let with_control = 7 + 1024 + (512 + 3 + 3) + 4 * (17 + 17);
    assert_eq!(codec().validate_request(&operation, &controls), Ok(with_control));
    let limited = |limits| LdapCodec::new(limits).unwrap().validate_request(&operation, &[]);
    let limits = CodecLimits::default();
    assert!(limited(CodecLimits { maximum_frame: 17, ..limits }).is_ok());
    assert_eq!(limited(CodecLimits { maximum_frame: 16, ..limits }), Err(Error::LimitExceeded));
    assert!(limited(CodecLimits { maximum_allocation: 1099, ..limits }).is_ok());
    assert_eq!(
        limited(CodecLimits { maximum_allocation: 1098, ..limits }),
        Err(Error::LimitExceeded)
    );
    let nested = StructureTag {
        class: TagClass::Application,
        id: 3,
        payload: PL::C(vec![operation.clone()]),
    };
    let nested_in = |limits| LdapCodec::new(limits).unwrap().validate_request(&nested, &[]);
    assert!(nested_in(CodecLimits { maximum_depth: 2, maximum_nodes: 2, ..limits }).is_ok());
    assert_eq!(
        nested_in(CodecLimits { maximum_depth: 1, ..limits }),
        Err(Error::LimitExceeded)
    );
    assert_eq!(
        nested_in(CodecLimits { maximum_nodes: 1, ..limits }),
        Err(Error::LimitExceeded)
    );
    let high = StructureTag { id: 31, ..operation.clone() };
    assert_eq!(codec().validate_request(&high, &[]), Err(Error::LimitExceeded));
}

#[test]
fn a_request_takes_no_more_than_was_set_aside_for_it() {
    let operation = || StructureTag {
        class: TagClass::Application,
        id: 10,
        payload: PL::P(vec![1; 100]),
    };
    let controls = || vec![control("1.2.3.4", true, Some(&[5; 200]))];
    let wire = encode_message(
        &mut codec(),
        i32::MAX,
        Tag::StructureTag(operation()),
        Some(controls()),
    );
    let limits = CodecLimits { maximum_frame: wire.unwrap().len(), ..Default::default() };
    assert!(LdapCodec::new(limits).unwrap().validate_request(&operation(), &controls()).is_ok());
    // An empty list of controls is written too, behind what was set aside.
    let wire = encode_message(
        &mut codec(),
        i32::MAX,
        Tag::StructureTag(operation()),
        Some(vec![]),
    );
    let limits = CodecLimits { maximum_frame: wire.unwrap().len() - 2, ..Default::default() };
    assert!(LdapCodec::new(limits).unwrap().validate_request(&operation(), &[]).is_ok());
}

#[test]
fn sizes_are_functions_of_the_capacities() {
    let leaf = || StructureTag {
        class: TagClass::Universal,
        id: 4,
        payload: PL::P(vec![1, 2, 3]),
    };
    let pair = StructureTag {
        class: TagClass::Application,
        id: 3,
        payload: PL::C(vec![leaf(), leaf()]),
    };
    let extent = Extent::Node(4, vec![Extent::Leaf(3), Extent::Leaf(8)]);
    let held = 4 * std::mem::size_of::<StructureTag>() + 3 + 8;
    let measure = |depth, mut nodes, memory| {
        footprint(&pair, &extent, depth, &mut nodes, memory).map(|sizes| (sizes, nodes))
    };
    assert_eq!(measure(2, 5, held), Ok(((12, held), 2)));
    assert_eq!(measure(1, 5, held), Err(Error::LimitExceeded));
    assert_eq!(measure(2, 2, held), Err(Error::LimitExceeded));
    assert_eq!(measure(2, 5, held - 1), Err(Error::LimitExceeded));
    let size = ControlSize { ctype: 3, ctype_capacity: 5, value: Some(2), value_capacity: 9 };
    let limits = CodecLimits::default();
    // The control takes 14 bytes, its list 16, and the message 6 + 12 + 16 with its header.
    let expected = held + 1024 + (512 + 5 + 9) + 4 * 36;
    assert_eq!(request_size(&pair, &extent, &vec![size], limits), Ok(expected));
    assert_eq!(request_total(12, held, &vec![size], limits), Ok(expected));
    assert_eq!(request_total(usize::MAX, 0, &vec![], limits), Err(Error::LimitExceeded));
    assert_eq!(request_total(0, usize::MAX, &vec![], limits), Err(Error::LimitExceeded));
}

#[test]
fn responses_are_counted_with_all_they_hold() {
    let wire = [0x30, 12, 2, 1, 1, 0x61, 7, 10, 1, 0, 4, 0, 4, 0];
    let response = codec().decode(&mut BytesMut::from(&wire[..])).unwrap().unwrap();
    let leaves = vec![Extent::Leaf(1), Extent::Leaf(0), Extent::Leaf(0)];
    let extent = Extent::Node(3, leaves);
    let own = std::mem::size_of_val(&response);
    let heap = 3 * std::mem::size_of::<StructureTag>() + 1;
    assert_eq!(response.size(&extent, 0, &vec![]), Ok(heap + 14 + own));
    let size = ControlSize { ctype: 3, ctype_capacity: 5, value: None, value_capacity: 0 };
    let expected = heap + 14 + own + 2 * std::mem::size_of::<RawControl>() + 5;
    assert_eq!(response.size(&extent, 2, &vec![size]), Ok(expected));
    assert_eq!(response_total(usize::MAX, 1, 0, &vec![]), Err(Error::LimitExceeded));
    assert_eq!(response_total(0, 1, usize::MAX, &vec![]), Err(Error::LimitExceeded));
}

#[test]
fn malformed_input_is_not_mended_by_more() {
    for wire in [&[0x31, 0][..], &[0x30, 0], &[0x30, 0x80], &[0x30, 3, 2, 1, 1]] {
        let mut input = BytesMut::from(wire);
        input.extend_from_slice(&[0x30, 5, 2, 1, 2, 0x42, 0]);
        let before = input.clone();
        assert_eq!(codec().decode(&mut input).err(), Some(Error::InvalidEnvelope));
        assert_eq!(input, before);
    }
}
