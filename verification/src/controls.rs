//! Request and response controls.
use crate::asn1::{
    bool_octets, constructed, elements, primitive, Body, Element, StructureTag, TagClass, BOOLEAN,
    OCTET_STRING, PL, SEQUENCE,
};
use crate::error::Error;
use crate::text::text_of;
use vstd::prelude::*;
use vstd::slice::slice_to_vec;
use vstd::utf8::{decode_utf8, encode_utf8, valid_utf8};

verus! {

/// A control in its uninterpreted form.
#[derive(Debug, PartialEq, Eq)]
pub struct RawControl {
    pub ctype: String,
    pub crit: bool,
    pub val: Option<Vec<u8>>,
}

/// What a [`RawControl`] says.
#[verifier::ext_equal]
pub struct ControlValue {
    pub ctype: Seq<char>,
    pub crit: bool,
    pub val: Option<Seq<u8>>,
}

impl View for RawControl {
    type V = ControlValue;

    open spec fn view(&self) -> ControlValue {
        ControlValue {
            ctype: self.ctype@,
            crit: self.crit,
            val: match self.val {
                Some(v) => Some(v@),
                None => None,
            },
        }
    }
}

impl Clone for RawControl {
    fn clone(&self) -> (r: Self)
        ensures
            r@ == self@,
    {
        RawControl {
            ctype: self.ctype.clone(),
            crit: self.crit,
            val: match &self.val {
                Some(v) => Some(slice_to_vec(v.as_slice())),
                None => None,
            },
        }
    }
}

pub open spec fn control_values(controls: Seq<RawControl>) -> Seq<ControlValue> {
    Seq::new(controls.len(), |i: int| controls[i]@)
}

/// The element that a control is written as. A criticality of false is left out.
pub open spec fn control_element(c: ControlValue) -> Element {
    constructed(
        TagClass::Universal,
        SEQUENCE,
        seq![primitive(TagClass::Universal, OCTET_STRING, encode_utf8(c.ctype))] + (if c.crit {
            seq![primitive(TagClass::Universal, BOOLEAN, bool_octets(true))]
        } else {
            seq![]
        }) + (match c.val {
            Some(val) => seq![primitive(TagClass::Universal, OCTET_STRING, val)],
            None => seq![],
        }),
    )
}

/// The element that the controls of a message are written as.
pub open spec fn controls_element(cs: Seq<ControlValue>) -> Element {
    constructed(TagClass::Context, 0, Seq::new(cs.len(), |i: int| control_element(cs[i])))
}

/// The bytes of an OCTET STRING.
pub open spec fn octet_string(e: Element) -> Option<Seq<u8>> {
    match e.body {
        Body::Bytes(bytes) if e.class == TagClass::Universal && e.id == OCTET_STRING => Some(
            bytes,
        ),
        _ => None,
    }
}

/// The value of a BOOLEAN.
pub open spec fn boolean(e: Element) -> Option<bool> {
    match e.body {
        Body::Bytes(bytes) if e.class == TagClass::Universal && e.id == BOOLEAN && bytes.len()
            == 1 => Some(bytes[0] != 0),
        _ => None,
    }
}

/// The control that an element stands for: a type in UTF-8, then a criticality or none, then a
/// value or none, and nothing else.
pub open spec fn control_of(e: Element) -> Option<ControlValue> {
    match e.body {
        Body::Children(parts) if e.class == TagClass::Universal && e.id == SEQUENCE && 1
            <= parts.len() <= 3 => {
            let ctype = octet_string(parts[0]);
            let crit = if parts.len() >= 2 {
                boolean(parts[1])
            } else {
                None
            };
            let at: int = if crit is Some {
                2
            } else {
                1
            };
            let val = if at < parts.len() {
                octet_string(parts[at])
            } else {
                None
            };
            let used = at + (if val is Some {
                1int
            } else {
                0
            });
            if ctype is Some && valid_utf8(ctype->0) && used == parts.len() {
                Some(
                    ControlValue {
                        ctype: decode_utf8(ctype->0),
                        crit: crit == Some(true),
                        val,
                    },
                )
            } else {
                None
            }
        },
        _ => None,
    }
}

/// The controls that an element stands for, if each of its children is one.
pub open spec fn controls_of(e: Element) -> Option<Seq<ControlValue>> {
    match e.body {
        Body::Children(parts) if e.class == TagClass::Context && e.id == 0 && (forall|i: int|
            0 <= i < parts.len() ==> control_of(#[trigger] parts[i]) is Some) => Some(
            Seq::new(parts.len(), |i: int| control_of(parts[i])->0),
        ),
        _ => None,
    }
}

/// A control reads back as it was written.
pub proof fn control_reads_back(c: ControlValue)
    ensures
        control_of(control_element(c)) == Some(c),
{
    broadcast use vstd::utf8::encode_utf8_valid_utf8, vstd::utf8::encode_utf8_decode_utf8;
    let parts = control_element(c).body->Children_0;
    assert(octet_string(parts[0]) == Some(encode_utf8(c.ctype)));
    match c.val {
        Some(val) => {
            assert(octet_string(parts[parts.len() - 1]) == Some(val));
        },
        None => {},
    }
}

/// The controls of a message read back as they were written.
pub proof fn controls_read_back(cs: Seq<ControlValue>)
    ensures
        controls_of(controls_element(cs)) == Some(cs),
{
    let parts = controls_element(cs).body->Children_0;
    assert forall|i: int| 0 <= i < cs.len() implies control_of(#[trigger] parts[i]) == Some(
        cs[i],
    ) by {
        control_reads_back(cs[i]);
    }
    assert(controls_of(controls_element(cs))->0 =~= cs);
}

fn octets(bytes: Vec<u8>) -> (r: StructureTag)
    ensures
        r@ == primitive(TagClass::Universal, OCTET_STRING, bytes@),
{
    StructureTag { class: TagClass::Universal, id: OCTET_STRING, payload: PL::P(bytes) }
}

fn critical() -> (r: StructureTag)
    ensures
        r@ == primitive(TagClass::Universal, BOOLEAN, bool_octets(true)),
{
    let mut value: Vec<u8> = Vec::new();
    value.push(0xff);
    assert(value@ =~= bool_octets(true));
    StructureTag { class: TagClass::Universal, id: BOOLEAN, payload: PL::P(value) }
}

/// The element that the control is written as.
pub fn build_tag(control: RawControl) -> (r: StructureTag)
    ensures
        r@ == control_element(control@),
{
    let mut parts: Vec<StructureTag> = Vec::new();
    parts.push(octets(slice_to_vec(control.ctype.as_str().as_bytes())));
    if control.crit {
        parts.push(critical());
    }
    if let Some(val) = control.val {
        parts.push(octets(val));
    }
    let r = StructureTag { class: TagClass::Universal, id: SEQUENCE, payload: PL::C(parts) };
    assert(r@.body->Children_0 =~= control_element(control@).body->Children_0);
    r
}

/// The element that the controls of a message are written as.
pub fn build_controls(controls: Vec<RawControl>) -> (r: StructureTag)
    ensures
        r@ == controls_element(control_values(controls@)),
{
    let mut tags: Vec<StructureTag> = Vec::new();
    for control in it: controls.into_iter()
        invariant
            it.seq() == controls@,
            tags@.len() == it.index(),
            forall|i: int|
                0 <= i < it.index() ==> (#[trigger] tags@[i])@ == control_element(
                    controls@[i]@,
                ),
    {
        tags.push(build_tag(control));
    }
    assert(elements(tags@) =~= controls_element(control_values(controls@)).body->Children_0);
    StructureTag { class: TagClass::Context, id: 0, payload: PL::C(tags) }
}

fn read_octet_string(tag: &StructureTag) -> (r: Option<Vec<u8>>)
    ensures
        match octet_string(tag@) {
            Some(bytes) => r is Some && r->0@ == bytes,
            None => r is None,
        },
{
    match &tag.payload {
        PL::P(bytes) if tag.class == TagClass::Universal && tag.id == OCTET_STRING => Some(
            slice_to_vec(bytes.as_slice()),
        ),
        _ => None,
    }
}

fn read_boolean(tag: &StructureTag) -> (r: Option<bool>)
    ensures
        r == boolean(tag@),
{
    match &tag.payload {
        PL::P(bytes) if tag.class == TagClass::Universal && tag.id == BOOLEAN && bytes.len()
            == 1 => Some(bytes[0] != 0),
        _ => None,
    }
}

fn read_control(tag: StructureTag) -> (r: Option<RawControl>)
    ensures
        match control_of(tag@) {
            Some(c) => r is Some && r->0@ == c,
            None => r is None,
        },
{
    if tag.class != TagClass::Universal || tag.id != SEQUENCE {
        return None;
    }
    let parts = match tag.payload {
        PL::C(parts) => parts,
        PL::P(_) => return None,
    };
    let n: usize = parts.len();
    if n < 1 || n > 3 {
        return None;
    }
    let ctype = match read_octet_string(&parts[0]) {
        Some(bytes) => match text_of(bytes) {
            Some(text) => text,
            None => return None,
        },
        None => return None,
    };
    let crit = if n >= 2 {
        read_boolean(&parts[1])
    } else {
        None
    };
    let at: usize = if crit.is_some() {
        2
    } else {
        1
    };
    let val = if at < n {
        read_octet_string(&parts[at])
    } else {
        None
    };
    let used: usize = if val.is_some() {
        at + 1
    } else {
        at
    };
    if used != n {
        return None;
    }
    let crit = match crit {
        Some(b) => b,
        None => false,
    };
    Some(RawControl { ctype, crit, val })
}

/// The controls of a message.
pub fn try_parse_controls(tag: StructureTag) -> (r: Result<Vec<RawControl>, Error>)
    ensures
        match controls_of(tag@) {
            Some(cs) => r is Ok && control_values(r->Ok_0@) == cs,
            None => r == Err::<Vec<RawControl>, Error>(Error::InvalidEnvelope),
        },
{
    if tag.class != TagClass::Context || tag.id != 0 {
        return Err(Error::InvalidEnvelope);
    }
    let parts = match tag.payload {
        PL::C(parts) => parts,
        PL::P(_) => return Err(Error::InvalidEnvelope),
    };
    let ghost es = elements(parts@);
    let mut controls: Vec<RawControl> = Vec::new();
    for part in it: parts.into_iter()
        invariant
            it.seq() == parts@,
            es == elements(parts@),
            tag@ == constructed(TagClass::Context, 0, es),
            controls@.len() == it.index(),
            forall|i: int|
                0 <= i < it.index() ==> control_of(#[trigger] es[i]) == Some(controls@[i]@),
    {
        let ghost k = it.index() as int;
        assert(part@ == es[k]);
        match read_control(part) {
            Some(control) => controls.push(control),
            None => return Err(Error::InvalidEnvelope),
        }
    }
    assert(control_values(controls@) =~= controls_of(tag@)->0);
    Ok(controls)
}

} // verus!
