//! What each request holds, part by part.
use crate::asn1::{int_octets, int_value, Body, Element, Tag, TagClass};
use crate::protocol::RequestId;
use crate::requests::{
    abandon, compare, delete, extended, modify, modify_dn, sasl_bind, search, simple_bind, unbind,
    Attribute, DerefAliases, Exop, Modification, Scope, Search,
};
use crate::roundtrip::integer_reads_back;
use vstd::prelude::*;
use vstd::utf8::encode_utf8;

verus! {

/// A primitive element with the bytes.
pub open spec fn is_bytes(e: Element, class: TagClass, id: u64, bytes: Seq<u8>) -> bool {
    e.class == class && e.id == id && e.body == Body::Bytes(bytes)
}

/// An OCTET STRING with the bytes.
pub open spec fn is_octets(e: Element, bytes: Seq<u8>) -> bool {
    is_bytes(e, TagClass::Universal, 4, bytes)
}

/// A constructed element with so many children.
pub open spec fn is_list(e: Element, class: TagClass, id: u64, n: nat) -> bool {
    e.class == class && e.id == id && (e.body matches Body::Children(children) && children.len()
        == n)
}

pub open spec fn child(e: Element, i: int) -> Element {
    e.body->Children_0[i]
}

/// Neither the first nine bits of the content are all clear, nor all set.
pub open spec fn is_shortest(bytes: Seq<u8>) -> bool {
    bytes.len() >= 1 && (bytes.len() == 1 || !(bytes[0] == 0 && bytes[1] < 128) && !(bytes[0] == 255
        && bytes[1] >= 128))
}

/// A primitive element with the shortest two's complement form of the number.
pub open spec fn is_number(e: Element, class: TagClass, id: u64, v: int) -> bool {
    e.class == class && e.id == id && (e.body matches Body::Bytes(bytes) && is_shortest(bytes)
        && int_value(bytes) == v)
}

/// A BOOLEAN: all bits of its one byte are set if it is true, and clear if it is not.
pub open spec fn is_flag(e: Element, v: bool) -> bool {
    is_bytes(
        e,
        TagClass::Universal,
        1,
        seq![
            if v {
                255u8
            } else {
                0u8
            },
        ],
    )
}

/// A set with exactly these values, each an OCTET STRING.
pub open spec fn are_values(e: Element, id: u64, values: Seq<Vec<u8>>) -> bool {
    is_list(e, TagClass::Universal, id, values.len()) && forall|j: int|
        0 <= j < values.len() ==> is_octets(#[trigger] child(e, j), values[j]@)
}

/// A sequence of a name and the set of its values.
pub open spec fn is_attribute(e: Element, attribute: Attribute) -> bool {
    &&& is_list(e, TagClass::Universal, 16, 2)
    &&& is_octets(child(e, 0), attribute.0@)
    &&& are_values(child(e, 1), 17, attribute.1@)
}

pub proof fn lemma_shortest(v: int)
    ensures
        is_shortest(int_octets(v)),
        int_value(int_octets(v)) == v,
    decreases (if v < 0 { -v } else { v }),
{
    integer_reads_back(v);
    if !(-128 <= v < 128) {
        lemma_shortest(v / 256);
        let front = int_octets(v / 256);
        let bytes = int_octets(v);
        assert(bytes =~= front.push((v % 256) as u8));
        if -128 <= v / 256 < 128 {
            assert(front.len() == 1 && bytes.len() == 2);
        } else {
            assert(bytes[0] == front[0] && bytes[1] == front[1]);
        }
    }
}

/// A Modify names the entry. Its list has one child for each change, in order: the number of the
/// kind of change and the attribute, with all its values in order, whatever the kind.
pub proof fn modify_holds_every_change(
    dn: Vec<u8>,
    changes: Vec<(Modification, Attribute)>,
    r: Tag,
)
    requires
        call_ensures(modify, (dn, changes), r),
    ensures
        is_list(r@, TagClass::Application, 6, 2),
        is_octets(child(r@, 0), dn@),
        is_list(child(r@, 1), TagClass::Universal, 16, changes@.len()),
        forall|i: int|
            0 <= i < changes@.len() ==> {
                let change = #[trigger] child(child(r@, 1), i);
                &&& is_list(change, TagClass::Universal, 16, 2)
                &&& is_number(
                    child(change, 0),
                    TagClass::Universal,
                    10,
                    match changes@[i].0 {
                        Modification::Add => 0,
                        Modification::Delete => 1,
                        Modification::Replace => 2,
                        Modification::Increment => 3,
                    },
                )
                &&& is_attribute(child(change, 1), changes@[i].1)
            },
{
    assert forall|i: int| 0 <= i < changes@.len() implies {
        let change = #[trigger] child(child(r@, 1), i);
        &&& is_list(change, TagClass::Universal, 16, 2)
        &&& is_number(child(change, 0), TagClass::Universal, 10, changes@[i].0.number())
        &&& is_attribute(child(change, 1), changes@[i].1)
    } by {
        lemma_shortest(changes@[i].0.number());
    }
}

/// Two attributes with the same element have the same name and the same values.
proof fn lemma_attributes_differ(e: Element, a: Attribute, b: Attribute)
    requires
        is_attribute(e, a),
        is_attribute(e, b),
    ensures
        a.0@ == b.0@,
        a.1@.len() == b.1@.len(),
        forall|j: int| 0 <= j < a.1@.len() ==> (#[trigger] a.1@[j])@ == b.1@[j]@,
{
    assert forall|j: int| 0 <= j < a.1@.len() implies (#[trigger] a.1@[j])@ == b.1@[j]@ by {
        assert(is_octets(child(child(e, 1), j), a.1@[j]@));
    }
}

/// Two Modify requests with the same element change the same entry in the same way: no name,
/// value or kind of change is lost.
pub proof fn modifies_differ(
    dn: Vec<u8>,
    changes: Vec<(Modification, Attribute)>,
    r: Tag,
    other_dn: Vec<u8>,
    other_changes: Vec<(Modification, Attribute)>,
    other: Tag,
)
    requires
        call_ensures(modify, (dn, changes), r),
        call_ensures(modify, (other_dn, other_changes), other),
        r@ == other@,
    ensures
        dn@ == other_dn@,
        changes@.len() == other_changes@.len(),
        forall|i: int|
            0 <= i < changes@.len() ==> (#[trigger] changes@[i]).0 == other_changes@[i].0
                && changes@[i].1.0@ == other_changes@[i].1.0@ && changes@[i].1.1@.len()
                == other_changes@[i].1.1@.len(),
        forall|i: int, j: int|
            0 <= i < changes@.len() && 0 <= j < changes@[i].1.1@.len() ==> (
            #[trigger] changes@[i].1.1@[j])@ == other_changes@[i].1.1@[j]@,
{
    modify_holds_every_change(dn, changes, r);
    modify_holds_every_change(other_dn, other_changes, other);
    assert forall|i: int| 0 <= i < changes@.len() implies (#[trigger] changes@[i]).0
        == other_changes@[i].0 && changes@[i].1.0@ == other_changes@[i].1.0@
        && changes@[i].1.1@.len() == other_changes@[i].1.1@.len() by {
        let change = child(child(r@, 1), i);
        lemma_attributes_differ(child(change, 1), changes@[i].1, other_changes@[i].1);
    }
    assert forall|i: int, j: int|
        0 <= i < changes@.len() && 0 <= j < changes@[i].1.1@.len() implies (
    #[trigger] changes@[i].1.1@[j])@ == other_changes@[i].1.1@[j]@ by {
        let change = child(child(r@, 1), i);
        lemma_attributes_differ(child(change, 1), changes@[i].1, other_changes@[i].1);
    }
}

/// An Add names the entry and holds each attribute, in order, with all its values in order.
pub proof fn add_holds_every_attribute(dn: Vec<u8>, attributes: Vec<Attribute>, r: Tag)
    requires
        call_ensures(crate::requests::add, (dn, attributes), r),
    ensures
        is_list(r@, TagClass::Application, 8, 2),
        is_octets(child(r@, 0), dn@),
        is_list(child(r@, 1), TagClass::Universal, 16, attributes@.len()),
        forall|i: int|
            0 <= i < attributes@.len() ==> is_attribute(
                #[trigger] child(child(r@, 1), i),
                attributes@[i],
            ),
{
}

/// A simple Bind holds the version, the name and the password.
pub proof fn simple_bind_holds_its_parts(dn: Vec<u8>, password: Vec<u8>, r: Tag)
    requires
        call_ensures(simple_bind, (dn, password), r),
    ensures
        is_list(r@, TagClass::Application, 0, 3),
        is_number(child(r@, 0), TagClass::Universal, 2, 3),
        is_octets(child(r@, 1), dn@),
        is_bytes(child(r@, 2), TagClass::Context, 0, password@),
{
    lemma_shortest(3);
}

/// A SASL Bind holds the version, no name, the mechanism, and the credentials if there are any.
pub proof fn sasl_bind_holds_its_parts(mechanism: &str, credentials: Option<Vec<u8>>, r: Tag)
    requires
        call_ensures(sasl_bind, (mechanism, credentials), r),
    ensures
        is_list(r@, TagClass::Application, 0, 3),
        is_number(child(r@, 0), TagClass::Universal, 2, 3),
        is_octets(child(r@, 1), seq![]),
        is_list(
            child(r@, 2),
            TagClass::Context,
            3,
            if credentials is Some {
                2
            } else {
                1
            },
        ),
        is_octets(child(child(r@, 2), 0), encode_utf8(mechanism@)),
        credentials matches Some(bytes) ==> is_octets(child(child(r@, 2), 1), bytes@),
{
    lemma_shortest(3);
}

/// A Compare names the entry, and holds the name of an attribute and a value.
pub proof fn compare_holds_its_parts(dn: Vec<u8>, name: Vec<u8>, value: Vec<u8>, r: Tag)
    requires
        call_ensures(compare, (dn, name, value), r),
    ensures
        is_list(r@, TagClass::Application, 14, 2),
        is_octets(child(r@, 0), dn@),
        is_list(child(r@, 1), TagClass::Universal, 16, 2),
        is_octets(child(child(r@, 1), 0), name@),
        is_octets(child(child(r@, 1), 1), value@),
{
}

/// A Delete is the name of the entry, an Unbind is empty, an Abandon is the identifier of the
/// request that it ends.
pub proof fn short_requests_hold_their_parts(
    dn: Vec<u8>,
    deleted: Tag,
    unbound: Tag,
    id: RequestId,
    abandoned: Tag,
)
    requires
        call_ensures(delete, (dn,), deleted),
        call_ensures(unbind, (), unbound),
        call_ensures(abandon, (id,), abandoned),
    ensures
        is_bytes(deleted@, TagClass::Application, 10, dn@),
        is_bytes(unbound@, TagClass::Application, 2, seq![]),
        is_number(abandoned@, TagClass::Application, 16, id as int),
{
    lemma_shortest(id as int);
}

/// A ModifyDN names the entry, and holds the new name, whether the old one goes, and the new
/// superior if there is one.
pub proof fn modify_dn_holds_its_parts(
    dn: Vec<u8>,
    rdn: Vec<u8>,
    delete_old: bool,
    superior: Option<Vec<u8>>,
    r: Tag,
)
    requires
        call_ensures(modify_dn, (dn, rdn, delete_old, superior), r),
    ensures
        is_list(
            r@,
            TagClass::Application,
            12,
            if superior is Some {
                4
            } else {
                3
            },
        ),
        is_octets(child(r@, 0), dn@),
        is_octets(child(r@, 1), rdn@),
        is_flag(child(r@, 2), delete_old),
        superior matches Some(bytes) ==> is_bytes(child(r@, 3), TagClass::Context, 0, bytes@),
{
}

/// An Extended request holds the name of the operation, and its value if there is one.
pub proof fn extended_holds_its_parts(value: Exop, r: Tag)
    requires
        call_ensures(extended, (value,), r),
        value.name is Some,
    ensures
        is_list(
            r@,
            TagClass::Application,
            23,
            if value.val is Some {
                2
            } else {
                1
            },
        ),
        is_bytes(child(r@, 0), TagClass::Context, 0, encode_utf8(value.name->0@)),
        value.val matches Some(bytes) ==> is_bytes(child(r@, 1), TagClass::Context, 1, bytes@),
{
}

/// A Search holds the base, the scope, the treatment of aliases, the two limits, whether only
/// types are wanted, the filter, and the names of the attributes in order.
pub proof fn search_holds_its_parts(request: Search, r: Tag)
    requires
        call_ensures(search, (request,), r),
    ensures
        is_list(r@, TagClass::Application, 3, 8),
        is_octets(child(r@, 0), request.base@),
        is_number(
            child(r@, 1),
            TagClass::Universal,
            10,
            match request.scope {
                Scope::Base => 0,
                Scope::OneLevel => 1,
                Scope::Subtree => 2,
            },
        ),
        is_number(
            child(r@, 2),
            TagClass::Universal,
            10,
            match request.dereference {
                DerefAliases::Never => 0,
                DerefAliases::Searching => 1,
                DerefAliases::Finding => 2,
                DerefAliases::Always => 3,
            },
        ),
        is_number(child(r@, 3), TagClass::Universal, 2, request.size_limit as int),
        is_number(child(r@, 4), TagClass::Universal, 2, request.time_limit as int),
        is_flag(child(r@, 5), request.types_only),
        child(r@, 6) == request.filter@,
        are_values(child(r@, 7), 16, request.attributes@),
{
    lemma_shortest(request.scope.number());
    lemma_shortest(request.dereference.number());
    lemma_shortest(request.size_limit as int);
    lemma_shortest(request.time_limit as int);
}

} // verus!
