//! Results of operations.
use crate::asn1::{be_value, Body, Element, StructureTag, TagClass, ENUMERATED, PL};
use crate::parse::parse_uint;
use vstd::prelude::*;

verus! {

/// The number that an ENUMERATED of at most eight bytes holds.
pub open spec fn enumerated(e: Element) -> Option<u64> {
    match e.body {
        Body::Bytes(bytes) if e.class == TagClass::Universal && e.id == ENUMERATED && 1
            <= bytes.len() <= 8 => Some(be_value(bytes) as u64),
        _ => None,
    }
}

/// The numeric result that a response starts with. Zero is success; any other number is kept as
/// it is.
pub open spec fn result_code_of(e: Element) -> Option<u64> {
    match e.body {
        Body::Children(parts) if parts.len() > 0 => enumerated(parts[0]),
        _ => None,
    }
}

fn read_enumerated(tag: &StructureTag) -> (r: Option<u64>)
    ensures
        r == enumerated(tag@),
{
    match &tag.payload {
        PL::P(bytes) if tag.class == TagClass::Universal && tag.id == ENUMERATED => {
            match parse_uint(bytes.as_slice()) {
                Ok((_, number)) => Some(number),
                Err(_) => None,
            }
        },
        _ => None,
    }
}

/// The numeric result that a response starts with.
pub fn result_code(operation: &StructureTag) -> (r: Option<u64>)
    ensures
        r == result_code_of(operation@),
{
    match &operation.payload {
        PL::C(parts) if parts.len() > 0 => {
            assert(operation@.body->Children_0[0] == parts@[0]@);
            read_enumerated(&parts[0])
        },
        _ => None,
    }
}

} // verus!
