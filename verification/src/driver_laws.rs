//! What holds of identifiers, of the requests that wait, and of what they are charged.
use crate::asn1::{be_value, Body, StructureTag, TagClass};
use crate::conn::{check_recoverable, check_tls_boundary, Action, Event, Exchange};
use crate::error::{Error, ErrorKind};
use crate::ids::MessageIds;
use crate::operation_laws::is_bytes;
use crate::protocol::{LdapCodec, LdapOp, RawResponse, RequestId};
use crate::raw::{
    allot, check_request, drawn, draws, found_under, lemma_small_value, reserved_bytes,
    storage_bytes, Admission, Driver, DriverLimits, Kind, Pending, RawEvent, RawOperation,
};
use std::sync::{Arc, Mutex};
use tokio::sync::OwnedSemaphorePermit;
use vstd::prelude::*;

verus! {

/// The first identifier is one, and each is by one greater than the one before, whatever was
/// released in between. It is in use until it is released, and nothing else changes.
pub proof fn identifiers_count_up(
    fresh: MessageIds,
    first: &mut MessageIds,
    one: Result<RequestId, Error>,
    between: &mut MessageIds,
    ids: Vec<RequestId>,
    none: (),
    second: &mut MessageIds,
    two: Result<RequestId, Error>,
)
    requires
        call_ensures(MessageIds::new, (), fresh),
        *old(first) == fresh,
        call_ensures(MessageIds::next_msgid, (first,), one),
        *old(between) == *final(first),
        call_ensures(MessageIds::release_each, (between, &ids), none),
        *old(second) == *final(between),
        call_ensures(MessageIds::next_msgid, (second,), two),
    ensures
        one == Ok::<RequestId, Error>(1),
        two == Ok::<RequestId, Error>(2),
        forall|id: RequestId| #[trigger] final(second).in_use().contains(id) <==> id == 2 || id == 1
            && !ids@.contains(1),
{
    assert(ids@.to_set().contains(1) <==> ids@.contains(1));
}

/// An identifier that is given out is greater than all that were, up to the greatest number. Then
/// none is given out any more.
pub proof fn identifiers_are_given_out_once(
    ids: &mut MessageIds,
    last: RequestId,
    start: MessageIds,
    r: Result<RequestId, Error>,
)
    requires
        last >= 0,
        call_ensures(MessageIds::after, (last,), start),
        *old(ids) == start,
        call_ensures(MessageIds::next_msgid, (ids,), r),
    ensures
        last < i32::MAX ==> r == Ok::<RequestId, Error>((last + 1) as RequestId),
        last == i32::MAX ==> r == Err::<RequestId, Error>(Error::IdentifiersExhausted)
            && *final(ids) == *old(ids),
{
}

/// An identifier that was drawn for a request is the next one after those that were found given out
/// under the lock.
pub proof fn drawn_identifiers_are_the_next(msgmap: Arc<Mutex<MessageIds>>, id: RequestId)
    requires
        drawn(msgmap, Ok(id)),
    ensures
        exists|found: MessageIds| #[trigger]
            found_under(msgmap, found) && id == found.last() + 1 && id >= 1,
{
    let found = choose|found: MessageIds| #[trigger]
        found_under(msgmap, found) && draws(found, Ok(id));
    assert(found_under(msgmap, found));
}

/// A request that lacks memory or a slot uses up no identifier; one that has both gets the next.
pub proof fn refused_requests_use_no_identifier(
    kind: Kind,
    memory: Option<OwnedSemaphorePermit>,
    slot: Option<OwnedSemaphorePermit>,
    ids: &mut MessageIds,
    r: Result<Admission, Error>,
)
    requires
        call_ensures(allot, (kind, memory, slot, ids), r),
    ensures
        memory is None || slot is None ==> r == Err::<Admission, Error>(Error::CapacityExhausted),
        r is Err ==> *final(ids) == *old(ids),
        r matches Ok(admission) ==> {
            &&& admission.kind == kind
            &&& memory == Some(admission.memory)
            &&& slot == Some(admission.slot)
            &&& !old(ids).in_use().contains(admission.id) ==> final(ids).in_use().remove(
                admission.id,
            ) == old(ids).in_use()
            &&& final(ids).in_use().contains(admission.id)
            &&& draws(*old(ids), Ok(admission.id))
        },
{
    if let Ok(admission) = r {
        if !old(ids).in_use().contains(admission.id) {
            assert(final(ids).in_use().remove(admission.id) =~= old(ids).in_use());
        }
    }
}

/// Identifiers are idle until one is given out, and again when it was released.
pub proof fn released_identifiers_are_idle(
    fresh: MessageIds,
    at_first: bool,
    drawn: &mut MessageIds,
    id: RequestId,
    meanwhile: bool,
    freed: &mut MessageIds,
    none: (),
    at_last: bool,
)
    requires
        call_ensures(MessageIds::new, (), fresh),
        call_ensures(MessageIds::is_idle, (&fresh,), at_first),
        *old(drawn) == fresh,
        call_ensures(MessageIds::next_msgid, (drawn,), Ok(id)),
        call_ensures(MessageIds::is_idle, (&*final(drawn),), meanwhile),
        *old(freed) == *final(drawn),
        call_ensures(MessageIds::release, (freed, id), none),
        call_ensures(MessageIds::is_idle, (&*final(freed),), at_last),
    ensures
        at_first && !meanwhile && at_last,
{
    assert(final(drawn).in_use().contains(id));
    assert(final(freed).in_use() =~= Set::<RequestId>::empty());
}

/// Which responses answer a request, and which is the last: the reply of the operation's own
/// number; for a search any number of entries and references up to the result; and intermediate
/// responses, which are never the last. Without a request, only a notification is accepted.
pub proof fn responses_are_judged<L>(
    driver: &Driver<L>,
    response: RawResponse,
    r: Result<(bool, bool), Error>,
)
    requires
        call_ensures(Driver::<L>::judge, (driver, &response), r),
    ensures
        ({
            let id = response.id;
            let number = response.operation.id;
            if id == 0 {
                r == if number == 24 {
                    Ok::<(bool, bool), Error>((false, false))
                } else {
                    Err(Error::InvalidUnsolicited)
                }
            } else if !driver.pending@.contains_key(id) {
                r == Err::<(bool, bool), Error>(Error::NoOutstandingIdentifier)
            } else {
                let waiting = driver.pending@[id];
                let late = waiting.abandoned;
                match waiting.kind {
                    Kind::Reply(expected) => {
                        &&& number == 25 ==> r == Ok::<(bool, bool), Error>((false, late))
                        &&& number == expected && number != 25 ==> r == Ok::<(bool, bool), Error>(
                            (true, late),
                        )
                        &&& number != expected && number != 25 ==> r == Err::<(bool, bool), Error>(
                            Error::ResponseMismatch,
                        )
                    },
                    Kind::Search => {
                        &&& number == 4 || number == 19 || number == 25 ==> r == Ok::<
                            (bool, bool),
                            Error,
                        >((false, late))
                        &&& number == 5 ==> r == Ok::<(bool, bool), Error>((true, late))
                        &&& number != 4 && number != 5 && number != 19 && number != 25 ==> r
                            == Err::<(bool, bool), Error>(Error::ResponseMismatch)
                    },
                    _ => number != 25 ==> r == Err::<(bool, bool), Error>(Error::ResponseMismatch),
                }
            }
        }),
{
}

/// A request with a reply waits under its identifier, with its kind and lease; an Abandon marks the
/// request that it names, which keeps its kind and lease; no other request is concerned.
pub proof fn requests_are_registered<L>(
    driver: &mut Driver<L>,
    id: RequestId,
    op: RawOperation<L>,
    r: Result<(), Error>,
    other: RequestId,
)
    requires
        call_ensures(Driver::<L>::register, (driver, id, &op), r),
    ensures
        match op.kind {
            Kind::Reply(_) | Kind::Search => r is Ok && final(driver).pending@.contains_key(id)
                && final(driver).pending@[id] == (Pending {
                kind: op.kind,
                abandoned: false,
                lease: op.lease,
            }),
            Kind::Abandon(target) => if old(driver).pending@.contains_key(target) {
                &&& r is Ok
                &&& final(driver).pending@.contains_key(target)
                &&& final(driver).pending@[target].abandoned
                &&& final(driver).pending@[target].kind == old(driver).pending@[target].kind
                &&& final(driver).pending@[target].lease == old(driver).pending@[target].lease
            } else {
                &&& r == Err::<(), Error>(Error::AbandonTargetNotOutstanding)
                &&& !final(driver).pending@.contains_key(target)
            },
            Kind::Unbind => r is Ok,
        },
        (match op.kind {
            Kind::Reply(_) | Kind::Search => other != id,
            Kind::Abandon(target) => other != target,
            Kind::Unbind => true,
        }) ==> final(driver).pending@.contains_key(other) == old(driver).pending@.contains_key(
            other,
        ) && final(driver).pending@[other] == old(driver).pending@[other],
        final(driver).output == old(driver).output,
        final(driver).responses == old(driver).responses,
{
}

/// An event holds the response that came and the memory that was set aside for it. A request waits
/// on exactly until its last response; no other is concerned.
pub proof fn responses_become_events<L>(
    driver: &mut Driver<L>,
    response: RawResponse,
    memory: Option<OwnedSemaphorePermit>,
    r: Result<RawEvent, Error>,
    judged: Result<(bool, bool), Error>,
    other: RequestId,
)
    requires
        call_ensures(Driver::<L>::accept, (driver, response, memory), r),
        call_ensures(Driver::<L>::judge, (&*old(driver), &response), judged),
    ensures
        r matches Ok(event) ==> {
            &&& event.response == response
            &&& memory == Some(event.memory)
            &&& judged == Ok::<(bool, bool), Error>((event.complete, event.abandon_requested))
        },
        judged matches Err(e) ==> r == Err::<RawEvent, Error>(e),
        judged is Ok && memory is None ==> r == Err::<RawEvent, Error>(Error::CapacityExhausted),
        judged is Ok && memory is Some ==> r is Ok,
        ({
            let before = old(driver).pending@;
            let after = final(driver).pending@;
            let over = other == response.id && (r matches Ok(event) && event.complete);
            &&& after.contains_key(other) == (before.contains_key(other) && !over)
            &&& after.contains_key(other) ==> after[other] == before[other]
        }),
{
}

/// The outcome of a connection that ends is unknown exactly when a request still waits.
pub proof fn waiting_requests_have_an_unknown_outcome<L>(driver: &Driver<L>, r: bool)
    requires
        call_ensures(Driver::<L>::ended, (driver,), r),
    ensures
        r <==> exists|id: RequestId| driver.pending@.contains_key(id),
{
    if r {
        assert(driver.pending@.dom() != Set::<RequestId>::empty());
        assert(exists|id: RequestId| driver.pending@.dom().contains(id)) by {
            if forall|id: RequestId| !driver.pending@.dom().contains(id) {
                assert(driver.pending@.dom() =~= Set::<RequestId>::empty());
            }
        }
    }
}

/// What each operation is answered with: the reply to one has the next number, but a search has
/// its own responses, and an Abandon or Unbind has none.
pub proof fn operations_have_their_kind(
    operation: StructureTag,
    closed: bool,
    r: Result<Kind, Error>,
)
    requires
        call_ensures(check_request, (closed, &operation), r),
    ensures
        ({
            let number = operation@.id;
            let replied = number == 0 || number == 6 || number == 8 || number == 10 || number == 12
                || number == 14 || number == 23;
            if closed {
                r == Err::<Kind, Error>(Error::DriverClosed)
            } else if operation@.class != TagClass::Application {
                r == Err::<Kind, Error>(Error::OperationNotApplication)
            } else {
                &&& replied ==> r == Ok::<Kind, Error>(Kind::Reply((number + 1) as u64))
                &&& number == 3 ==> r == Ok::<Kind, Error>(Kind::Search)
                &&& number == 2 ==> r == if is_bytes(
                    operation@,
                    TagClass::Application,
                    2,
                    seq![],
                ) {
                    Ok::<Kind, Error>(Kind::Unbind)
                } else {
                    Err(Error::InvalidUnbind)
                }
                &&& number == 16 ==> match operation@.body {
                    Body::Children(_) => r == Err::<Kind, Error>(Error::InvalidAbandon),
                    Body::Bytes(bytes) => if 1 <= bytes.len() <= 4 && bytes[0] < 128 && be_value(
                        bytes,
                    ) > 0 {
                        r matches Ok(Kind::Abandon(target)) && target == be_value(bytes)
                    } else {
                        r == Err::<Kind, Error>(Error::InvalidAbandonIdentifier)
                    },
                }
                &&& !replied && number != 2 && number != 3 && number != 16 ==> r == Err::<
                    Kind,
                    Error,
                >(Error::UnsupportedOperation)
            }
        }),
{
    if let Body::Bytes(bytes) = operation@.body {
        if bytes.len() == 0 {
            assert(bytes =~= seq![]);
        }
        if 1 <= bytes.len() <= 4 && bytes[0] < 128 {
            lemma_small_value(bytes);
        }
    }
}

/// An event on a connection concerns the request it is about, and the one that this abandons: every
/// other request goes on waiting in its place.
pub proof fn events_concern_one_request<L>(
    exchange: &mut Exchange<L>,
    msgmap: &Arc<Mutex<MessageIds>>,
    event: Event<L>,
    r: Result<(Action<L>, Vec<RequestId>), Error>,
    other: RequestId,
)
    requires
        call_ensures(Exchange::<L>::step, (exchange, msgmap, event), r),
        match event {
            Event::Written { id, op, reply } => op matches LdapOp::Abandon(target) ==> other
                != target,
            Event::Scrubbed(id) => id != Some(other),
            Event::Request(Some(request)) => request.0 != other && (request.1 matches LdapOp::Raw(
                raw,
            ) ==> raw.kind != Kind::Abandon(other)),
            Event::Response(Some(response)) => response.id != other,
            _ => true,
        },
    ensures
        ({
            let before = *old(exchange);
            let after = *final(exchange);
            &&& after.resultmap@.contains_key(other) == before.resultmap@.contains_key(other)
            &&& after.resultmap@.contains_key(other) ==> after.resultmap@[other]
                == before.resultmap@[other]
            &&& after.searchmap@.contains_key(other) == before.searchmap@.contains_key(other)
            &&& after.searchmap@.contains_key(other) ==> after.searchmap@[other]
                == before.searchmap@[other]
            &&& before.raw matches Some(driver) ==> after.raw is Some
                && after.raw->0.pending@.contains_key(other) == driver.pending@.contains_key(other)
                && after.raw->0.pending@[other] == driver.pending@[other]
        }),
        r matches Ok((_, ids)) ==> !ids@.contains(other) || (event matches Event::Written {
            id,
            ..
        } && id == other),
{
}

/// A request that is of no interest any more waits no longer, and its identifier is free. The
/// connection ends with its queue, its stream or its questions, and with nothing else but an
/// Unbind.
pub proof fn connections_end<L>(
    exchange: &mut Exchange<L>,
    msgmap: &Arc<Mutex<MessageIds>>,
    event: Event<L>,
    r: Result<(Action<L>, Vec<RequestId>), Error>,
)
    requires
        call_ensures(Exchange::<L>::step, (exchange, msgmap, event), r),
    ensures
        event matches Event::Scrubbed(Some(id)) ==> !final(exchange).resultmap@.contains_key(id)
            && !final(exchange).searchmap@.contains_key(id) && (r matches Ok((_, ids)) && ids@
            == seq![id]),
        (r matches Ok((action, _)) && action is End) <==> match event {
            Event::Written { id, op, reply } => op is Unbind || (op matches LdapOp::Raw(raw)
                && raw.kind is Unbind),
            Event::Scrubbed(_) => false,
            Event::Request(request) => request is None,
            Event::Response(response) => response is None,
            Event::Deserted => true,
        },
        r is Err ==> event is Response,
{
}

/// A transport is taken back only when nothing is queued, in use or buffered, and only if it was
/// supplied. Plaintext that is buffered is never carried over.
pub proof fn only_idle_transports_are_taken_back(
    queue_empty: bool,
    ids_idle: bool,
    read_empty: bool,
    write_empty: bool,
    supplied: bool,
    r: Result<(), Error>,
    boundary: Result<(), Error>,
)
    requires
        call_ensures(
            check_recoverable,
            (queue_empty, ids_idle, read_empty, write_empty, supplied),
            r,
        ),
        call_ensures(check_tls_boundary, (read_empty, write_empty), boundary),
    ensures
        r is Ok <==> queue_empty && ids_idle && read_empty && write_empty && supplied,
        r == Err::<(), Error>(Error::OperationsRemain) <==> !queue_empty || !ids_idle,
        r == Err::<(), Error>(Error::SuppliedTransportRequired) ==> !supplied,
        boundary is Ok <==> read_empty && write_empty,
        boundary matches Err(e) ==> e == Error::PlaintextAtTlsBoundary,
        queue_empty && ids_idle && boundary is Err ==> r == Err::<(), Error>(
            Error::BufferedPlaintext,
        ),
{
}

/// Limits are accepted exactly in their ranges.
pub proof fn limits_have_ranges(
    limits: DriverLimits,
    r: Result<DriverLimits, Error>,
    codec: Result<LdapCodec, Error>,
)
    requires
        call_ensures(DriverLimits::validate, (limits,), r),
        call_ensures(LdapCodec::new, (limits.codec,), codec),
    ensures
        codec is Ok <==> limits.codec.maximum_frame >= 2 && limits.codec.maximum_allocation > 0
            && limits.codec.maximum_nodes > 0 && 1 <= limits.codec.maximum_depth <= 128,
        codec matches Err(e) ==> e == Error::InvalidCodecLimits && r == Err::<DriverLimits, Error>(
            e,
        ),
        codec is Ok ==> (r is Ok <==> forall|n: usize|
            (n == limits.maximum_outstanding || n == limits.maximum_request_bytes || n
                == limits.maximum_response_bytes || n == limits.maximum_response_items) ==> 1 <= n
                <= u32::MAX && #[trigger] (n * 8) <= usize::MAX),
        r matches Ok(same) ==> same == limits,
        codec is Ok && r is Err ==> r == Err::<DriverLimits, Error>(Error::InvalidDriverLimits),
{
    let a = limits.maximum_outstanding;
    let b = limits.maximum_request_bytes;
    let c = limits.maximum_response_bytes;
    let d = limits.maximum_response_items;
    assert(a * 8 <= usize::MAX <==> a <= usize::MAX / 8);
    assert(b * 8 <= usize::MAX <==> b <= usize::MAX / 8);
    assert(c * 8 <= usize::MAX <==> c <= usize::MAX / 8);
    assert(d * 8 <= usize::MAX <==> d <= usize::MAX / 8);
}

/// What is reserved is the permits that are not free, the storage, and sixteen bytes for each
/// identifier that there is room for, or the greatest number where that is more.
pub proof fn reservations_are_counted(
    limits: DriverLimits,
    free_requests: usize,
    free_responses: usize,
    storage: usize,
    places: usize,
    r: usize,
)
    requires
        call_ensures(
            reserved_bytes,
            (limits, free_requests, free_responses, storage, places),
            r,
        ),
    ensures
        ({
            let requests = limits.maximum_request_bytes - free_requests;
            let responses = limits.maximum_response_bytes - free_responses;
            let total = (if requests > 0 {
                requests
            } else {
                0
            }) + (if responses > 0 {
                responses
            } else {
                0
            }) + storage + 16 * places;
            r == total || total > usize::MAX && r == usize::MAX
        }),
{
}

/// Storage grows with the buffer and with each place by the same amount.
pub proof fn storage_is_counted<L>(
    bytes: usize,
    places: usize,
    r: usize,
    one: usize,
)
    requires
        call_ensures(storage_bytes::<L>, (bytes, places), r),
        call_ensures(storage_bytes::<L>, (0, 1), one),
    ensures
        one == vstd::layout::size_of::<(RequestId, Pending<L>)>() + 32 || one == usize::MAX,
        one < usize::MAX ==> r == bytes + places * one || bytes + places * one > usize::MAX && r
            == usize::MAX,
{
}

/// What can be tried again, what a peer sent wrong, what broke off, and what was asked wrong.
pub proof fn errors_have_their_kind(error: Error, r: ErrorKind)
    requires
        call_ensures(Error::kind, (error,), r),
    ensures
        r == ErrorKind::WouldBlock <==> error == Error::CapacityExhausted || error
            == Error::IdentifiersExhausted,
        r == ErrorKind::BrokenPipe <==> error == Error::DriverClosed,
        r == ErrorKind::UnexpectedEof <==> error == Error::EndedDuringExchange || error
            == Error::EndedDuringUpgrade,
        r == ErrorKind::Other <==> error == Error::SecurityLayerOverflow,
        r == ErrorKind::InvalidData <==> error == Error::InvalidEnvelope || error
            == Error::ResponseMismatch || error == Error::InvalidUnsolicited || error
            == Error::NoOutstandingIdentifier || error == Error::UnexpectedSearchResponse || error
            == Error::BufferedPlaintext || error == Error::PlaintextAtTlsBoundary,
{
}

} // verus!
