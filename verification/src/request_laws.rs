//! What holds of every request.
use crate::asn1::{
    constructed, each_bytes, int_octets, octets_element, optional_part, primitive, Element,
    TagClass, SEQUENCE, SET,
};
use crate::requests::{
    application_element, attribute_element, attribute_elements, boolean_element, change_elements,
    enumerated_element, integer_element, octets_elements, optional_octets, sequence_element,
    Attribute, DerefAliases, Modification, Scope,
};
use crate::write::{all_encodable, encodable};
use vstd::prelude::*;

verus! {

proof fn lemma_list(class: TagClass, id: u64, es: Seq<Element>)
    requires
        id < 31,
        forall|i: int| 0 <= i < es.len() ==> encodable(#[trigger] es[i]),
    ensures
        encodable(constructed(class, id, es)),
{
    assert(all_encodable(es));
}

proof fn lemma_leaf(e: Element)
    requires
        e.id < 31,
        e.body is Bytes,
    ensures
        encodable(e),
{
}

proof fn lemma_attribute(name: Seq<u8>, values: Seq<Seq<u8>>)
    ensures
        encodable(attribute_element(name, values)),
{
    let set = constructed(TagClass::Universal, SET, octets_elements(values));
    lemma_list(TagClass::Universal, SET, octets_elements(values));
    lemma_leaf(octets_element(name));
    let es = seq![octets_element(name), set];
    assert forall|i: int| 0 <= i < es.len() implies encodable(#[trigger] es[i]) by {}
    lemma_list(TagClass::Universal, SEQUENCE, es);
}

/// A Bind can be written.
pub proof fn binds_can_be_written(
    dn: Seq<u8>,
    password: Seq<u8>,
    mechanism: Seq<u8>,
    credentials: Option<Seq<u8>>,
)
    ensures
        encodable(
            application_element(
                0,
                seq![
                    integer_element(3),
                    octets_element(dn),
                    primitive(TagClass::Context, 0, password),
                ],
            ),
        ),
        encodable(
            application_element(
                0,
                seq![
                    integer_element(3),
                    octets_element(Seq::empty()),
                    constructed(
                        TagClass::Context,
                        3,
                        seq![octets_element(mechanism)] + optional_octets(credentials),
                    ),
                ],
            ),
        ),
{
    let simple = seq![
        integer_element(3),
        octets_element(dn),
        primitive(TagClass::Context, 0, password),
    ];
    lemma_list(TagClass::Application, 0, simple);
    let inner = seq![octets_element(mechanism)] + optional_octets(credentials);
    lemma_list(TagClass::Context, 3, inner);
    let sasl = seq![
        integer_element(3),
        octets_element(Seq::empty()),
        constructed(TagClass::Context, 3, inner),
    ];
    assert forall|i: int| 0 <= i < sasl.len() implies encodable(#[trigger] sasl[i]) by {}
    lemma_list(TagClass::Application, 0, sasl);
}

/// An Add or Modify can be written.
pub proof fn updates_can_be_written(
    dn: Seq<u8>,
    attributes: Seq<Attribute>,
    changes: Seq<(Modification, Attribute)>,
)
    ensures
        encodable(
            application_element(
                8,
                seq![octets_element(dn), sequence_element(attribute_elements(attributes))],
            ),
        ),
        encodable(
            application_element(
                6,
                seq![octets_element(dn), sequence_element(change_elements(changes))],
            ),
        ),
{
    let added = attribute_elements(attributes);
    assert forall|i: int| 0 <= i < added.len() implies encodable(#[trigger] added[i]) by {
        lemma_attribute(attributes[i].0@, each_bytes(attributes[i].1@));
    }
    lemma_list(TagClass::Universal, SEQUENCE, added);
    let changed = change_elements(changes);
    assert forall|i: int| 0 <= i < changed.len() implies encodable(#[trigger] changed[i]) by {
        let (kind, attribute) = changes[i];
        lemma_attribute(attribute.0@, each_bytes(attribute.1@));
        lemma_leaf(enumerated_element(kind.number()));
        let es = changed[i].body->Children_0;
        assert forall|k: int| 0 <= k < es.len() implies encodable(#[trigger] es[k]) by {}
        lemma_list(TagClass::Universal, SEQUENCE, es);
    }
    lemma_list(TagClass::Universal, SEQUENCE, changed);
    let first = seq![octets_element(dn), sequence_element(added)];
    assert forall|i: int| 0 <= i < first.len() implies encodable(#[trigger] first[i]) by {}
    lemma_list(TagClass::Application, 8, first);
    let second = seq![octets_element(dn), sequence_element(changed)];
    assert forall|i: int| 0 <= i < second.len() implies encodable(#[trigger] second[i]) by {}
    lemma_list(TagClass::Application, 6, second);
}

/// A Compare, Delete, ModifyDN, Extended, Unbind or Abandon can be written.
pub proof fn other_requests_can_be_written(
    dn: Seq<u8>,
    name: Seq<u8>,
    value: Seq<u8>,
    flag: bool,
    optional: Option<Seq<u8>>,
    id: int,
)
    ensures
        encodable(
            application_element(
                14,
                seq![
                    octets_element(dn),
                    sequence_element(seq![octets_element(name), octets_element(value)]),
                ],
            ),
        ),
        encodable(primitive(TagClass::Application, 10, dn)),
        encodable(
            application_element(
                12,
                seq![octets_element(dn), octets_element(name), boolean_element(flag)]
                    + optional_part(0, optional),
            ),
        ),
        encodable(
            application_element(
                23,
                seq![primitive(TagClass::Context, 0, name)] + optional_part(1, optional),
            ),
        ),
        encodable(primitive(TagClass::Application, 2, Seq::empty())),
        encodable(primitive(TagClass::Application, 16, int_octets(id))),
{
    let inner = seq![octets_element(name), octets_element(value)];
    lemma_list(TagClass::Universal, SEQUENCE, inner);
    let compared = seq![octets_element(dn), sequence_element(inner)];
    assert forall|i: int| 0 <= i < compared.len() implies encodable(#[trigger] compared[i]) by {}
    lemma_list(TagClass::Application, 14, compared);
    lemma_list(
        TagClass::Application,
        12,
        seq![octets_element(dn), octets_element(name), boolean_element(flag)] + optional_part(
            0,
            optional,
        ),
    );
    lemma_list(
        TagClass::Application,
        23,
        seq![primitive(TagClass::Context, 0, name)] + optional_part(1, optional),
    );
}

/// A Search can be written if its filter can.
pub proof fn searches_can_be_written(
    base: Seq<u8>,
    scope: Scope,
    dereference: DerefAliases,
    size_limit: int,
    time_limit: int,
    types_only: bool,
    filter: Element,
    attributes: Seq<Seq<u8>>,
)
    requires
        encodable(filter),
    ensures
        encodable(
            application_element(
                3,
                seq![
                    octets_element(base),
                    enumerated_element(scope.number()),
                    enumerated_element(dereference.number()),
                    integer_element(size_limit),
                    integer_element(time_limit),
                    boolean_element(types_only),
                    filter,
                    sequence_element(octets_elements(attributes)),
                ],
            ),
        ),
{
    lemma_list(TagClass::Universal, SEQUENCE, octets_elements(attributes));
    let es = seq![
        octets_element(base),
        enumerated_element(scope.number()),
        enumerated_element(dereference.number()),
        integer_element(size_limit),
        integer_element(time_limit),
        boolean_element(types_only),
        filter,
        sequence_element(octets_elements(attributes)),
    ];
    assert forall|i: int| 0 <= i < es.len() implies encodable(#[trigger] es[i]) by {}
    lemma_list(TagClass::Application, 3, es);
}

} // verus!
