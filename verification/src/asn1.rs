//! ASN.1 values and the BER elements that stand for them.
use vstd::prelude::*;
use vstd::slice::slice_to_vec;

verus! {

/// Class of a BER tag.
#[derive(Clone, Copy, Debug, PartialEq, Eq, Structural)]
pub enum TagClass {
    Universal,
    Application,
    Context,
    Private,
}

impl TagClass {
    /// The two bits that stand for the class.
    pub open spec fn bits(self) -> nat {
        match self {
            TagClass::Universal => 0,
            TagClass::Application => 1,
            TagClass::Context => 2,
            TagClass::Private => 3,
        }
    }

    /// The class with the given two bits, if there is one.
    pub open spec fn of_bits(n: nat) -> Option<TagClass> {
        if n == 0 {
            Some(TagClass::Universal)
        } else if n == 1 {
            Some(TagClass::Application)
        } else if n == 2 {
            Some(TagClass::Context)
        } else if n == 3 {
            Some(TagClass::Private)
        } else {
            None
        }
    }

    pub fn from_u8(n: u8) -> (r: Option<TagClass>)
        ensures
            r == TagClass::of_bits(n as nat),
    {
        match n {
            0 => Some(TagClass::Universal),
            1 => Some(TagClass::Application),
            2 => Some(TagClass::Context),
            3 => Some(TagClass::Private),
            _ => None,
        }
    }

    pub fn to_u8(self) -> (r: u8)
        ensures
            r as nat == self.bits(),
    {
        match self {
            TagClass::Universal => 0,
            TagClass::Application => 1,
            TagClass::Context => 2,
            TagClass::Private => 3,
        }
    }
}

/// Whether an element holds bytes or other elements.
#[derive(Clone, Copy, Debug, PartialEq, Eq, Structural)]
pub enum TagStructure {
    Primitive,
    Constructed,
}

/// Universal tag numbers.
pub const BOOLEAN: u64 = 1;

pub const INTEGER: u64 = 2;

pub const OCTET_STRING: u64 = 4;

pub const NULL: u64 = 5;

pub const ENUMERATED: u64 = 10;

pub const SEQUENCE: u64 = 16;

pub const SET: u64 = 17;

/// Payload of an element: bytes, or the elements inside it.
#[derive(Debug, PartialEq, Eq)]
pub enum PL {
    P(Vec<u8>),
    C(Vec<StructureTag>),
}

/// A BER element.
#[derive(Debug, PartialEq, Eq)]
pub struct StructureTag {
    pub class: TagClass,
    pub id: u64,
    pub payload: PL,
}

/// What a [`StructureTag`] is, without the storage that holds it.
#[verifier::ext_equal]
pub struct Element {
    pub class: TagClass,
    pub id: u64,
    pub body: Body,
}

/// Content of an [`Element`].
#[verifier::ext_equal]
pub enum Body {
    Bytes(Seq<u8>),
    Children(Seq<Element>),
}

/// A primitive element.
pub open spec fn primitive(class: TagClass, id: u64, bytes: Seq<u8>) -> Element {
    Element { class, id, body: Body::Bytes(bytes) }
}

/// A constructed element.
pub open spec fn constructed(class: TagClass, id: u64, children: Seq<Element>) -> Element {
    Element { class, id, body: Body::Children(children) }
}

/// The element of an OCTET STRING.
pub open spec fn octets_element(bytes: Seq<u8>) -> Element {
    primitive(TagClass::Universal, OCTET_STRING, bytes)
}

/// A part in the context class that may be missing.
pub open spec fn optional_part(id: u64, bytes: Option<Seq<u8>>) -> Seq<Element> {
    match bytes {
        Some(bytes) => seq![primitive(TagClass::Context, id, bytes)],
        None => seq![],
    }
}

pub open spec fn maybe_bytes(bytes: Option<Vec<u8>>) -> Option<Seq<u8>> {
    match bytes {
        Some(bytes) => Some(bytes@),
        None => None,
    }
}

pub open spec fn each_bytes(values: Seq<Vec<u8>>) -> Seq<Seq<u8>> {
    Seq::new(values.len(), |i: int| values[i]@)
}

impl StructureTag {
    pub open spec fn element(self) -> Element
        decreases self,
    {
        Element {
            class: self.class,
            id: self.id,
            body: match self.payload {
                PL::P(bytes) => Body::Bytes(bytes@),
                PL::C(children) => Body::Children(elements(children@)),
            },
        }
    }
}

impl View for StructureTag {
    type V = Element;

    open spec fn view(&self) -> Element {
        self.element()
    }
}

/// The elements that a sequence of tags stands for, in order.
pub open spec fn elements(tags: Seq<StructureTag>) -> Seq<Element>
    decreases tags,
{
    Seq::new(
        tags.len(),
        |i: int|
            if 0 <= i < tags.len() {
                tags[i].element()
            } else {
                arbitrary()
            },
    )
}

pub proof fn lemma_elements_push(tags: Seq<StructureTag>, tag: StructureTag)
    ensures
        elements(tags.push(tag)) == elements(tags).push(tag@),
{
    assert(elements(tags.push(tag)) =~= elements(tags).push(tag@));
}

impl Clone for StructureTag {
    fn clone(&self) -> (r: Self)
        ensures
            r@ == self@,
        decreases self,
    {
        let payload = match &self.payload {
            PL::P(bytes) => PL::P(slice_to_vec(bytes.as_slice())),
            PL::C(children) => {
                let mut copies: Vec<StructureTag> = Vec::new();
                let n: usize = children.len();
                for i in 0..n
                    invariant
                        n == children@.len(),
                        self.payload == PL::C(*children),
                        elements(copies@) == elements(children@.take(i as int)),
                {
                    assert(decreases_to!(self.payload => self.payload->C_0));
                    let copy = children[i].clone();
                    proof {
                        lemma_elements_push(copies@, copy);
                        lemma_elements_push(children@.take(i as int), children@[i as int]);
                        assert(children@.take(i + 1) =~= children@.take(i as int).push(
                            children@[i as int],
                        ));
                    }
                    copies.push(copy);
                }
                assert(children@.take(n as int) =~= children@);
                PL::C(copies)
            },
        };
        StructureTag { class: self.class, id: self.id, payload }
    }
}

impl StructureTag {
    /// The children of a constructed element.
    pub fn expect_constructed(self) -> (r: Option<Vec<StructureTag>>)
        ensures
            match self@.body {
                Body::Bytes(_) => r is None,
                Body::Children(children) => r is Some && elements(r->0@) == children,
            },
    {
        match self.payload {
            PL::P(_) => None,
            PL::C(children) => Some(children),
        }
    }

    /// The bytes of a primitive element.
    pub fn expect_primitive(self) -> (r: Option<Vec<u8>>)
        ensures
            match self@.body {
                Body::Bytes(bytes) => r is Some && r->0@ == bytes,
                Body::Children(_) => r is None,
            },
    {
        match self.payload {
            PL::P(bytes) => Some(bytes),
            PL::C(_) => None,
        }
    }
}

/// An INTEGER, or another element with the same content.
#[derive(Debug, PartialEq, Eq)]
pub struct Integer {
    pub class: TagClass,
    pub id: u64,
    pub inner: i64,
}

/// An ENUMERATED value.
#[derive(Debug, PartialEq, Eq)]
pub struct Enumerated {
    pub class: TagClass,
    pub id: u64,
    pub inner: i64,
}

/// A BOOLEAN.
#[derive(Debug, PartialEq, Eq)]
pub struct Boolean {
    pub class: TagClass,
    pub id: u64,
    pub inner: bool,
}

/// A NULL.
#[derive(Debug, PartialEq, Eq)]
pub struct Null {
    pub class: TagClass,
    pub id: u64,
    pub inner: (),
}

/// An OCTET STRING.
#[derive(Debug, PartialEq, Eq)]
pub struct OctetString {
    pub class: TagClass,
    pub id: u64,
    pub inner: Vec<u8>,
}

/// A SEQUENCE, or a SEQUENCE OF.
#[derive(Debug, PartialEq, Eq)]
pub struct Sequence {
    pub class: TagClass,
    pub id: u64,
    pub inner: Vec<Tag>,
}

/// A SET OF.
#[derive(Debug, PartialEq, Eq)]
pub struct SetOf {
    pub class: TagClass,
    pub id: u64,
    pub inner: Vec<Tag>,
}

/// An element around exactly one other element.
#[derive(Debug, PartialEq, Eq)]
pub struct ExplicitTag {
    pub class: TagClass,
    pub id: u64,
    pub inner: Box<Tag>,
}

/// An ASN.1 value of a request.
#[derive(Debug, PartialEq, Eq)]
pub enum Tag {
    Integer(Integer),
    Enumerated(Enumerated),
    Boolean(Boolean),
    Null(Null),
    OctetString(OctetString),
    Sequence(Sequence),
    SetOf(SetOf),
    ExplicitTag(ExplicitTag),
    StructureTag(StructureTag),
}

/// The value that big-endian bytes stand for.
pub open spec fn be_value(bytes: Seq<u8>) -> nat
    decreases bytes.len(),
{
    if bytes.len() == 0 {
        0
    } else {
        be_value(bytes.drop_last()) * 256 + bytes.last() as nat
    }
}

/// The shortest two's complement form of a number, most significant byte first.
pub open spec fn int_octets(v: int) -> Seq<u8>
    decreases (if v < 0 { -v } else { v }),
{
    if -128 <= v < 128 {
        seq![(v % 256) as u8]
    } else {
        int_octets(v / 256).push((v % 256) as u8)
    }
}

/// The number that two's complement bytes stand for.
pub open spec fn int_value(bytes: Seq<u8>) -> int
    decreases bytes.len(),
{
    if bytes.len() == 0 {
        0
    } else if bytes.len() == 1 {
        if bytes[0] < 128 {
            bytes[0] as int
        } else {
            bytes[0] - 256
        }
    } else {
        int_value(bytes.drop_last()) * 256 + bytes.last()
    }
}

pub open spec fn bool_octets(v: bool) -> Seq<u8> {
    if v {
        seq![0xffu8]
    } else {
        seq![0u8]
    }
}

impl Tag {
    pub open spec fn element(self) -> Element
        decreases self,
    {
        match self {
            Tag::Integer(t) => primitive(t.class, t.id, int_octets(t.inner as int)),
            Tag::Enumerated(t) => primitive(t.class, t.id, int_octets(t.inner as int)),
            Tag::Boolean(t) => primitive(t.class, t.id, bool_octets(t.inner)),
            Tag::Null(t) => primitive(t.class, t.id, Seq::empty()),
            Tag::OctetString(t) => primitive(t.class, t.id, t.inner@),
            Tag::Sequence(t) => constructed(t.class, t.id, tag_elements(t.inner@)),
            Tag::SetOf(t) => constructed(t.class, t.id, tag_elements(t.inner@)),
            Tag::ExplicitTag(t) => constructed(t.class, t.id, seq![(*t.inner).element()]),
            Tag::StructureTag(t) => t@,
        }
    }
}

/// A value is modelled by the element that it is written as.
impl View for Tag {
    type V = Element;

    open spec fn view(&self) -> Element {
        self.element()
    }
}

/// The elements that a sequence of values is written as, in order.
pub open spec fn tag_elements(tags: Seq<Tag>) -> Seq<Element>
    decreases tags,
{
    Seq::new(
        tags.len(),
        |i: int|
            if 0 <= i < tags.len() {
                tags[i].element()
            } else {
                arbitrary()
            },
    )
}

pub proof fn lemma_tag_elements_push(tags: Seq<Tag>, tag: Tag)
    ensures
        tag_elements(tags.push(tag)) == tag_elements(tags).push(tag@),
{
    assert(tag_elements(tags.push(tag)) =~= tag_elements(tags).push(tag@));
}

/// Two's complement bytes of a number, as few as possible.
pub fn integer_octets(v: i64) -> (r: Vec<u8>)
    ensures
        r@ == int_octets(v as int),
    decreases (if v < 0 { -v } else { v as int }),
{
    if -128 <= v && v < 128 {
        let byte: u8 = if v >= 0 {
            v as u8
        } else {
            (v + 256) as u8
        };
        let mut octets: Vec<u8> = Vec::new();
        octets.push(byte);
        assert(octets@ =~= int_octets(v as int));
        octets
    } else {
        let (high, low): (i64, u8) = if v >= 0 {
            (v / 256, (v % 256) as u8)
        } else {
            let m: i64 = -(v + 1);
            (-(m / 256) - 1, (255 - m % 256) as u8)
        };
        assert(high == v / 256 && low == v % 256);
        let mut octets = integer_octets(high);
        octets.push(low);
        octets
    }
}

impl Tag {
    /// The element that the value is written as.
    pub fn into_structure(self) -> (r: StructureTag)
        ensures
            r@ == self@,
        decreases self,
    {
        match self {
            Tag::Integer(t) => StructureTag {
                class: t.class,
                id: t.id,
                payload: PL::P(integer_octets(t.inner)),
            },
            Tag::Enumerated(t) => StructureTag {
                class: t.class,
                id: t.id,
                payload: PL::P(integer_octets(t.inner)),
            },
            Tag::Boolean(t) => {
                let mut octets: Vec<u8> = Vec::new();
                octets.push(if t.inner { 0xff } else { 0 });
                assert(octets@ =~= bool_octets(t.inner));
                StructureTag { class: t.class, id: t.id, payload: PL::P(octets) }
            },
            Tag::Null(t) => StructureTag { class: t.class, id: t.id, payload: PL::P(Vec::new()) },
            Tag::OctetString(t) => StructureTag {
                class: t.class,
                id: t.id,
                payload: PL::P(t.inner),
            },
            Tag::Sequence(t) => StructureTag {
                class: t.class,
                id: t.id,
                payload: PL::C(into_structures(t.inner)),
            },
            Tag::SetOf(t) => StructureTag {
                class: t.class,
                id: t.id,
                payload: PL::C(into_structures(t.inner)),
            },
            Tag::ExplicitTag(t) => {
                let mut children: Vec<StructureTag> = Vec::new();
                children.push((*t.inner).into_structure());
                assert(elements(children@) =~= seq![(*t.inner)@]);
                StructureTag { class: t.class, id: t.id, payload: PL::C(children) }
            },
            Tag::StructureTag(t) => t,
        }
    }
}

/// The elements that the values are written as, in order.
fn into_structures(tags: Vec<Tag>) -> (r: Vec<StructureTag>)
    ensures
        elements(r@) == tag_elements(tags@),
    decreases tags,
{
    let mut structures: Vec<StructureTag> = Vec::new();
    for tag in it: tags.into_iter()
        invariant
            it.seq() == tags@,
            elements(structures@) == tag_elements(tags@.take(it.index() as int)),
    {
        let ghost k = it.index() as int;
        assert(decreases_to!(tags => tags@));
        assert(decreases_to!(tags@ => tags@[k]));
        let structure = tag.into_structure();
        proof {
            lemma_elements_push(structures@, structure);
            lemma_tag_elements_push(tags@.take(k), tags@[k]);
            assert(tags@.take(k + 1) =~= tags@.take(k).push(tags@[k]));
        }
        structures.push(structure);
    }
    assert(tags@.take(tags@.len() as int) =~= tags@);
    structures
}

} // verus!
