//! Shared operation constructors for high-level and bounded raw handles.
use crate::asn1::{
    bool_octets, constructed, each_bytes, int_octets, lemma_tag_elements_push, maybe_bytes,
    octets_element, optional_part, primitive, tag_elements, Boolean, Element, Enumerated, Integer,
    Null, OctetString, Sequence, SetOf, Tag, TagClass, BOOLEAN, ENUMERATED, INTEGER, OCTET_STRING,
    SEQUENCE, SET,
};
use crate::protocol::RequestId;
use vstd::prelude::*;
use vstd::slice::slice_to_vec;
use vstd::utf8::encode_utf8;

verus! {

/// Depth of a search.
#[derive(Clone, Copy, Debug, PartialEq, Eq, Structural)]
pub enum Scope {
    Base,
    OneLevel,
    Subtree,
}

impl Scope {
    pub open spec fn number(self) -> int {
        match self {
            Scope::Base => 0,
            Scope::OneLevel => 1,
            Scope::Subtree => 2,
        }
    }

    pub fn value(self) -> (r: i64)
        ensures
            r == self.number(),
    {
        match self {
            Scope::Base => 0,
            Scope::OneLevel => 1,
            Scope::Subtree => 2,
        }
    }
}

/// When a search follows aliases.
#[derive(Clone, Copy, Debug, PartialEq, Eq, Structural)]
pub enum DerefAliases {
    Never,
    Searching,
    Finding,
    Always,
}

impl DerefAliases {
    pub open spec fn number(self) -> int {
        match self {
            DerefAliases::Never => 0,
            DerefAliases::Searching => 1,
            DerefAliases::Finding => 2,
            DerefAliases::Always => 3,
        }
    }

    pub fn value(self) -> (r: i64)
        ensures
            r == self.number(),
    {
        match self {
            DerefAliases::Never => 0,
            DerefAliases::Searching => 1,
            DerefAliases::Finding => 2,
            DerefAliases::Always => 3,
        }
    }
}

/// Name and values.
pub type Attribute = (Vec<u8>, Vec<Vec<u8>>);

/// What is done with the values of an attribute.
#[derive(Clone, Copy, Debug, PartialEq, Eq, Structural)]
pub enum Modification {
    Add,
    Delete,
    Replace,
    Increment,
}

impl Modification {
    pub open spec fn number(self) -> int {
        match self {
            Modification::Add => 0,
            Modification::Delete => 1,
            Modification::Replace => 2,
            Modification::Increment => 3,
        }
    }

    pub fn value(self) -> (r: i64)
        ensures
            r == self.number(),
    {
        match self {
            Modification::Add => 0,
            Modification::Delete => 1,
            Modification::Replace => 2,
            Modification::Increment => 3,
        }
    }
}

/// An extended operation: its object identifier and a value.
#[derive(Debug)]
pub struct Exop {
    pub name: Option<String>,
    pub val: Option<Vec<u8>>,
}

pub open spec fn integer_element(v: int) -> Element {
    primitive(TagClass::Universal, INTEGER, int_octets(v))
}

pub open spec fn enumerated_element(v: int) -> Element {
    primitive(TagClass::Universal, ENUMERATED, int_octets(v))
}

pub open spec fn boolean_element(v: bool) -> Element {
    primitive(TagClass::Universal, BOOLEAN, bool_octets(v))
}

pub open spec fn sequence_element(es: Seq<Element>) -> Element {
    constructed(TagClass::Universal, SEQUENCE, es)
}

pub open spec fn application_element(id: u64, es: Seq<Element>) -> Element {
    constructed(TagClass::Application, id, es)
}

pub open spec fn octets_elements(values: Seq<Seq<u8>>) -> Seq<Element> {
    Seq::new(values.len(), |i: int| octets_element(values[i]))
}

pub open spec fn attribute_element(name: Seq<u8>, values: Seq<Seq<u8>>) -> Element {
    sequence_element(
        seq![
            octets_element(name),
            constructed(TagClass::Universal, SET, octets_elements(values)),
        ],
    )
}

pub open spec fn attribute_elements(attributes: Seq<Attribute>) -> Seq<Element> {
    Seq::new(
        attributes.len(),
        |i: int| attribute_element(attributes[i].0@, each_bytes(attributes[i].1@)),
    )
}

pub open spec fn change_elements(changes: Seq<(Modification, Attribute)>) -> Seq<Element> {
    Seq::new(
        changes.len(),
        |i: int|
            {
                let (kind, attribute) = changes[i];
                sequence_element(
                    seq![
                        enumerated_element(kind.number()),
                        attribute_element(attribute.0@, each_bytes(attribute.1@)),
                    ],
                )
            },
    )
}

/// An OCTET STRING that may be missing.
pub open spec fn optional_octets(bytes: Option<Seq<u8>>) -> Seq<Element> {
    match bytes {
        Some(bytes) => seq![octets_element(bytes)],
        None => seq![],
    }
}

fn octets(value: Vec<u8>) -> (r: Tag)
    ensures
        r@ == octets_element(value@),
{
    Tag::OctetString(OctetString { class: TagClass::Universal, id: OCTET_STRING, inner: value })
}

fn context(id: u64, value: Vec<u8>) -> (r: Tag)
    ensures
        r@ == primitive(TagClass::Context, id, value@),
{
    Tag::OctetString(OctetString { class: TagClass::Context, id, inner: value })
}

fn integer(value: i64) -> (r: Tag)
    ensures
        r@ == integer_element(value as int),
{
    Tag::Integer(Integer { class: TagClass::Universal, id: INTEGER, inner: value })
}

fn enumerated(value: i64) -> (r: Tag)
    ensures
        r@ == enumerated_element(value as int),
{
    Tag::Enumerated(Enumerated { class: TagClass::Universal, id: ENUMERATED, inner: value })
}

fn boolean(value: bool) -> (r: Tag)
    ensures
        r@ == boolean_element(value),
{
    Tag::Boolean(Boolean { class: TagClass::Universal, id: BOOLEAN, inner: value })
}

fn sequence(inner: Vec<Tag>) -> (r: Tag)
    ensures
        r@ == sequence_element(tag_elements(inner@)),
{
    Tag::Sequence(Sequence { class: TagClass::Universal, id: SEQUENCE, inner })
}

fn application(id: u64, inner: Vec<Tag>) -> (r: Tag)
    ensures
        r@ == application_element(id, tag_elements(inner@)),
{
    Tag::Sequence(Sequence { class: TagClass::Application, id, inner })
}

fn pair(first: Tag, second: Tag) -> (r: Vec<Tag>)
    ensures
        tag_elements(r@) == seq![first@, second@],
{
    let mut tags: Vec<Tag> = Vec::new();
    tags.push(first);
    tags.push(second);
    assert(tag_elements(tags@) =~= seq![first@, second@]);
    tags
}

fn triple(first: Tag, second: Tag, third: Tag) -> (r: Vec<Tag>)
    ensures
        tag_elements(r@) == seq![first@, second@, third@],
{
    let mut tags: Vec<Tag> = Vec::new();
    tags.push(first);
    tags.push(second);
    tags.push(third);
    assert(tag_elements(tags@) =~= seq![first@, second@, third@]);
    tags
}

fn octets_all(values: Vec<Vec<u8>>) -> (r: Vec<Tag>)
    ensures
        tag_elements(r@) == octets_elements(each_bytes(values@)),
{
    let mut tags: Vec<Tag> = Vec::new();
    for value in it: values.into_iter()
        invariant
            it.seq() == values@,
            tags@.len() == it.index(),
            forall|i: int|
                0 <= i < it.index() ==> (#[trigger] tags@[i])@ == octets_element(values@[i]@),
    {
        tags.push(octets(value));
    }
    assert(tag_elements(tags@) =~= octets_elements(each_bytes(values@)));
    tags
}

pub fn simple_bind(dn: Vec<u8>, password: Vec<u8>) -> (r: Tag)
    ensures
        r@ == application_element(
            0,
            seq![
                integer_element(3),
                octets_element(dn@),
                primitive(TagClass::Context, 0, password@),
            ],
        ),
{
    application(0, triple(integer(3), octets(dn), context(0, password)))
}

pub fn sasl_bind(mechanism: &str, credentials: Option<Vec<u8>>) -> (r: Tag)
    ensures
        r@ == application_element(
            0,
            seq![
                integer_element(3),
                octets_element(Seq::empty()),
                constructed(
                    TagClass::Context,
                    3,
                    seq![octets_element(encode_utf8(mechanism@))] + optional_octets(
                        maybe_bytes(credentials),
                    ),
                ),
            ],
        ),
{
    let ghost expected = seq![octets_element(encode_utf8(mechanism@))] + optional_octets(
        maybe_bytes(credentials),
    );
    let mut inner: Vec<Tag> = Vec::new();
    inner.push(octets(slice_to_vec(mechanism.as_bytes())));
    if let Some(credentials) = credentials {
        inner.push(octets(credentials));
    }
    assert(tag_elements(inner@) =~= expected);
    let mechanism = Tag::Sequence(Sequence { class: TagClass::Context, id: 3, inner });
    assert(mechanism@ == constructed(TagClass::Context, 3, expected));
    let name = Vec::new();
    assert(name@ =~= Seq::<u8>::empty());
    application(0, triple(integer(3), octets(name), mechanism))
}

fn attribute(named: Attribute) -> (r: Tag)
    ensures
        r@ == attribute_element(named.0@, each_bytes(named.1@)),
{
    let (name, values) = named;
    let values = Tag::SetOf(
        SetOf { class: TagClass::Universal, id: SET, inner: octets_all(values) },
    );
    sequence(pair(octets(name), values))
}

pub fn add(dn: Vec<u8>, attributes: Vec<Attribute>) -> (r: Tag)
    ensures
        r@ == application_element(
            8,
            seq![octets_element(dn@), sequence_element(attribute_elements(attributes@))],
        ),
{
    let mut tags: Vec<Tag> = Vec::new();
    for one in it: attributes.into_iter()
        invariant
            it.seq() == attributes@,
            tags@.len() == it.index(),
            forall|i: int|
                0 <= i < it.index() ==> (#[trigger] tags@[i])@ == attribute_element(
                    attributes@[i].0@,
                    each_bytes(attributes@[i].1@),
                ),
    {
        tags.push(attribute(one));
    }
    assert(tag_elements(tags@) =~= attribute_elements(attributes@));
    application(8, pair(octets(dn), sequence(tags)))
}

pub fn modify(dn: Vec<u8>, changes: Vec<(Modification, Attribute)>) -> (r: Tag)
    ensures
        r@ == application_element(
            6,
            seq![octets_element(dn@), sequence_element(change_elements(changes@))],
        ),
{
    let mut tags: Vec<Tag> = Vec::new();
    for change in it: changes.into_iter()
        invariant
            it.seq() == changes@,
            tags@.len() == it.index(),
            forall|i: int|
                0 <= i < it.index() ==> (#[trigger] tags@[i])@ == change_elements(changes@)[i],
    {
        let (kind, attr) = change;
        tags.push(sequence(pair(enumerated(kind.value()), attribute(attr))));
    }
    assert(tag_elements(tags@) =~= change_elements(changes@));
    application(6, pair(octets(dn), sequence(tags)))
}

pub fn compare(dn: Vec<u8>, name: Vec<u8>, value: Vec<u8>) -> (r: Tag)
    ensures
        r@ == application_element(
            14,
            seq![
                octets_element(dn@),
                sequence_element(seq![octets_element(name@), octets_element(value@)]),
            ],
        ),
{
    application(14, pair(octets(dn), sequence(pair(octets(name), octets(value)))))
}

pub fn delete(dn: Vec<u8>) -> (r: Tag)
    ensures
        r@ == primitive(TagClass::Application, 10, dn@),
{
    Tag::OctetString(OctetString { class: TagClass::Application, id: 10, inner: dn })
}

pub fn modify_dn(dn: Vec<u8>, rdn: Vec<u8>, delete_old: bool, superior: Option<Vec<u8>>) -> (r: Tag)
    ensures
        r@ == application_element(
            12,
            seq![octets_element(dn@), octets_element(rdn@), boolean_element(delete_old)]
                + optional_part(0, maybe_bytes(superior)),
        ),
{
    let ghost front = seq![
        octets_element(dn@),
        octets_element(rdn@),
        boolean_element(delete_old),
    ];
    let ghost last = optional_part(0, maybe_bytes(superior));
    let mut fields = triple(octets(dn), octets(rdn), boolean(delete_old));
    if let Some(superior) = superior {
        let part = context(0, superior);
        proof {
            lemma_tag_elements_push(fields@, part);
        }
        fields.push(part);
    }
    assert(tag_elements(fields@) =~= front + last);
    application(12, fields)
}

pub fn extended(value: Exop) -> (r: Tag)
    requires
        value.name is Some,
    ensures
        r@ == application_element(
            23,
            seq![primitive(TagClass::Context, 0, encode_utf8(value.name->0@))] + optional_part(
                1,
                maybe_bytes(value.val),
            ),
        ),
{
    let ghost expected = seq![primitive(TagClass::Context, 0, encode_utf8(value.name->0@))]
        + optional_part(1, maybe_bytes(value.val));
    let mut fields: Vec<Tag> = Vec::new();
    if let Some(name) = value.name {
        fields.push(context(0, slice_to_vec(name.as_str().as_bytes())));
    }
    if let Some(val) = value.val {
        fields.push(context(1, val));
    }
    assert(tag_elements(fields@) =~= expected);
    application(23, fields)
}

pub fn unbind() -> (r: Tag)
    ensures
        r@ == primitive(TagClass::Application, 2, Seq::empty()),
{
    Tag::Null(Null { class: TagClass::Application, id: 2, inner: () })
}

pub fn abandon(id: RequestId) -> (r: Tag)
    ensures
        r@ == primitive(TagClass::Application, 16, int_octets(id as int)),
{
    Tag::Integer(Integer { class: TagClass::Application, id: 16, inner: id as i64 })
}

/// A search.
#[derive(Debug)]
pub struct Search {
    pub base: Vec<u8>,
    pub scope: Scope,
    pub dereference: DerefAliases,
    pub size_limit: i32,
    pub time_limit: i32,
    pub types_only: bool,
    pub filter: Tag,
    pub attributes: Vec<Vec<u8>>,
}

pub fn search(request: Search) -> (r: Tag)
    ensures
        r@ == application_element(
            3,
            seq![
                octets_element(request.base@),
                enumerated_element(request.scope.number()),
                enumerated_element(request.dereference.number()),
                integer_element(request.size_limit as int),
                integer_element(request.time_limit as int),
                boolean_element(request.types_only),
                request.filter@,
                sequence_element(octets_elements(each_bytes(request.attributes@))),
            ],
        ),
{
    let ghost filter = request.filter@;
    let ghost expected = seq![
        octets_element(request.base@),
        enumerated_element(request.scope.number()),
        enumerated_element(request.dereference.number()),
        integer_element(request.size_limit as int),
        integer_element(request.time_limit as int),
        boolean_element(request.types_only),
        request.filter@,
        sequence_element(octets_elements(each_bytes(request.attributes@))),
    ];
    let mut fields: Vec<Tag> = Vec::new();
    fields.push(octets(request.base));
    fields.push(enumerated(request.scope.value()));
    fields.push(enumerated(request.dereference.value()));
    fields.push(integer(request.size_limit as i64));
    fields.push(integer(request.time_limit as i64));
    fields.push(boolean(request.types_only));
    fields.push(request.filter);
    fields.push(sequence(octets_all(request.attributes)));
    assert(tag_elements(fields@) =~= expected);
    application(3, fields)
}

} // verus!
