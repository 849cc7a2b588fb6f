//! What reaches whom: every message that a connection hands on is the one it was given.
use crate::allocation::{
    extends, reckoned, request_outcome, request_wire, response_reckoned, sized_all, ControlSize,
    Extent,
};
use crate::asn1::{StructureTag, Tag, TagClass};
use crate::buffer::frozen;
use crate::channels::{
    channel_bound, connected, flagged, issuer, made_as, made_with, offered, paired, permits,
    read_flag, sent, told,
};
use crate::conn::{acknowledges, search_item_of, Action, Delivery, Event, Exchange, LoopMode};
use crate::controls::{control_values, RawControl};
use crate::error::Error;
use crate::ids::MessageIds;
use crate::operation_laws::is_bytes;
use crate::protocol::{LdapOp, RawResponse, Request, RequestId, SearchItem};
use crate::raw::{
    admitted, check_request, drawn, Admission, Driver, DriverLimits, Kind, Pending, RawDispatch,
    RawEvent, RawHandle, RawOperation, RawResponses,
};
use crate::write::encode;
use std::sync::{Arc, Mutex};
use tokio::sync::{mpsc, oneshot, OwnedSemaphorePermit};
use vstd::layout::size_of;
use vstd::prelude::*;

verus! {

/// The item of a search says which kind of response it is, and holds the whole operation.
pub open spec fn holds(item: SearchItem, operation: StructureTag) -> bool {
    match item {
        SearchItem::Entry(whole) => whole == operation && (operation.id == 4 || operation.id == 25),
        SearchItem::Referral(whole) => whole == operation && operation.id == 19,
        SearchItem::Done(whole) => whole == operation && operation.id == 5,
    }
}

/// A response to a search that waits goes into the channel of that search, with its operation and
/// its controls as they came. The search waits on unless it is done or nobody listens. What is no
/// response to a search is refused, and changes nothing.
pub proof fn searches_get_their_responses<L>(
    exchange: &mut Exchange<L>,
    response: RawResponse,
    r: Result<Vec<RequestId>, Error>,
)
    requires
        call_ensures(Exchange::<L>::response, (exchange, response), r),
        old(exchange).raw is None,
        old(exchange).searchmap@.contains_key(response.id),
    ensures
        ({
            let number = response.operation.id;
            let waiting = old(exchange).searchmap@;
            let left = final(exchange).searchmap@;
            &&& r is Ok <==> number == 4 || number == 5 || number == 19 || number == 25
            &&& r matches Ok(ids) ==> exists|item: SearchItem, taken: bool|
                {
                    &&& #[trigger] sent(
                        waiting[response.id],
                        (item, response.controls),
                        taken,
                    )
                    &&& holds(item, response.operation)
                    &&& left.contains_key(response.id) == (taken && number != 5)
                    &&& ids@ == if taken && number != 5 {
                        seq![]
                    } else {
                        seq![response.id]
                    }
                }
            &&& r matches Err(e) ==> e == Error::UnexpectedSearchResponse && left == waiting
                && final(exchange).resultmap@ == old(exchange).resultmap@
        }),
{
    let id = response.id;
    if r is Ok {
        let (item, last) = search_item_of(response.operation)->Ok_0;
        let taken = choose|taken: bool| #[trigger]
            sent(old(exchange).searchmap@[id], (item, response.controls), taken) && (
            final(exchange).searchmap@.contains_key(id) <==> !(last || !taken)) && r->Ok_0@ == (
            if last || !taken {
                seq![id]
            } else {
                seq![]
            });
        assert(sent(old(exchange).searchmap@[id], (item, response.controls), taken));
        assert(holds(item, response.operation));
    }
}

/// A response that nobody waits for goes nowhere.
pub proof fn other_responses_go_nowhere<L>(
    exchange: &mut Exchange<L>,
    response: RawResponse,
    r: Result<Vec<RequestId>, Error>,
)
    requires
        call_ensures(Exchange::<L>::response, (exchange, response), r),
        old(exchange).raw is None,
        !old(exchange).searchmap@.contains_key(response.id),
        !old(exchange).resultmap@.contains_key(response.id),
    ensures
        r matches Ok(ids) && ids@.len() == 0,
        final(exchange).resultmap@ == old(exchange).resultmap@,
        final(exchange).searchmap@ == old(exchange).searchmap@,
{
    assert(final(exchange).resultmap@ =~= old(exchange).resultmap@);
}

/// A response to another request that waits goes to the sender of that request, with its
/// operation and its controls as they came, and the request waits no longer.
pub proof fn requests_get_their_responses<L>(
    exchange: &mut Exchange<L>,
    response: RawResponse,
    r: Result<Vec<RequestId>, Error>,
)
    requires
        call_ensures(Exchange::<L>::response, (exchange, response), r),
        old(exchange).raw is None,
        !old(exchange).searchmap@.contains_key(response.id),
        old(exchange).resultmap@.contains_key(response.id),
    ensures
        r matches Ok(ids) && ids@ == seq![response.id],
        told(
            old(exchange).resultmap@[response.id],
            (Tag::StructureTag(response.operation), response.controls),
        ),
        !final(exchange).resultmap@.contains_key(response.id),
{
}

/// An accepted response to a raw request goes into the queue of events as it came, with a permit
/// for each byte that it keeps, of which there are more than it has on the wire.
pub proof fn raw_responses_are_delivered<L>(
    driver: &mut Driver<L>,
    response: RawResponse,
    r: Result<bool, Error>,
)
    requires
        call_ensures(Driver::<L>::response, (driver, response), r),
        r is Ok,
    ensures
        exists|event: RawEvent|
            {
                &&& #[trigger] offered(old(driver).output, event, true)
                &&& event.response == response
                &&& event.complete == r->Ok_0
                &&& issuer(&event.memory) == old(driver).responses
                &&& permits(&event.memory) >= frozen(&response.raw).len() + size_of::<RawResponse>()
                &&& response_reckoned(response, Ok::<usize, Error>(permits(&event.memory) as usize))
                &&& response.id == 0 ==> response.operation.id == 24 && !event.complete
                    && !event.abandon_requested
                &&& response.id != 0 ==> old(driver).pending@.contains_key(response.id)
                    && event.abandon_requested == old(driver).pending@[response.id].abandoned
                    && final(driver).pending@.contains_key(response.id) == !event.complete
            },
{
    let event = choose|event: RawEvent| #[trigger]
        offered(old(driver).output, event, true) && old(driver).charges(response, event);
    assert(offered(old(driver).output, event, true));
}

/// A response that is refused for what it is, or for its size, leaves every request waiting. Where
/// there was no memory for it that holds too; where the queue had no place the event is lost.
pub proof fn refused_responses_change_nothing<L>(
    driver: &mut Driver<L>,
    response: RawResponse,
    judged: Result<(bool, bool), Error>,
    error: Error,
)
    requires
        call_ensures(Driver::<L>::response, (driver, response), Err(error)),
        call_ensures(Driver::<L>::judge, (&*old(driver), &response), judged),
    ensures
        judged matches Err(e) ==> error == e,
        judged is Ok ==> error == Error::LimitExceeded || error == Error::CapacityExhausted,
        error != Error::CapacityExhausted ==> final(driver).pending@ == old(driver).pending@,
        error == Error::CapacityExhausted && judged is Ok ==> final(driver).pending@
            == old(driver).pending@ || exists|event: RawEvent| #[trigger]
            offered(old(driver).output, event, false) && event.response == response,
{
    if judged is Ok && error == Error::CapacityExhausted && final(driver).pending@
        != old(driver).pending@ {
        let event = choose|event: RawEvent| #[trigger]
            offered(old(driver).output, event, false) && old(driver).charges(response, event);
        assert(offered(old(driver).output, event, false));
    }
}

/// A connection does with a response what is said above, whether it comes as an event or not.
pub proof fn events_are_delivered<L>(
    exchange: &mut Exchange<L>,
    msgmap: &Arc<Mutex<MessageIds>>,
    response: RawResponse,
    r: Result<(Action<L>, Vec<RequestId>), Error>,
)
    requires
        call_ensures(
            Exchange::<L>::step,
            (exchange, msgmap, Event::Response(Some(response))),
            r,
        ),
        r is Ok,
    ensures
        match old(exchange).raw {
            Some(driver) => exists|event: RawEvent| #[trigger]
                offered(driver.output, event, true) && event.response == response,
            None => if old(exchange).searchmap@.contains_key(response.id) {
                exists|item: SearchItem, taken: bool| #[trigger]
                    sent(
                        old(exchange).searchmap@[response.id],
                        (item, response.controls),
                        taken,
                    ) && holds(item, response.operation)
            } else {
                old(exchange).resultmap@.contains_key(response.id) ==> told(
                    old(exchange).resultmap@[response.id],
                    (Tag::StructureTag(response.operation), response.controls),
                )
            },
        },
{
    match old(exchange).raw {
        Some(driver) => {
            let event = choose|event: RawEvent| #[trigger]
                offered(driver.output, event, true) && driver.charges(response, event);
            assert(offered(driver.output, event, true));
        },
        None => if old(exchange).searchmap@.contains_key(response.id) {
            let (item, last) = search_item_of(response.operation)->Ok_0;
            let taken = choose|taken: bool| #[trigger]
                sent(old(exchange).searchmap@[response.id], (item, response.controls), taken);
            assert(sent(old(exchange).searchmap@[response.id], (item, response.controls), taken));
            assert(holds(item, response.operation));
        },
    }
}

/// A request that was taken from the queue is written as it was queued, under its identifier. A
/// raw one is marked as dispatched.
pub proof fn queued_requests_are_written<L>(
    exchange: &mut Exchange<L>,
    msgmap: &Arc<Mutex<MessageIds>>,
    request: Request<L>,
    r: Result<(Action<L>, Vec<RequestId>), Error>,
)
    requires
        call_ensures(
            Exchange::<L>::step,
            (exchange, msgmap, Event::Request(Some(request))),
            r,
        ),
    ensures
        r matches Ok((action, ids)) && ids@.len() == 0 && match action {
            Action::Write { id, op, tag, controls, reply } => {
                &&& id == request.0 && op == request.1 && tag == request.2 && controls == request.3
                &&& op matches LdapOp::Raw(raw) ==> flagged(*raw.dispatched, true)
                &&& op is Single ==> reply is None && final(exchange).resultmap@.contains_key(id)
                    && final(exchange).resultmap@[id] == request.4
                &&& !(op is Single) ==> reply == Some(request.4)
                &&& op matches LdapOp::Search(sender) ==> final(exchange).searchmap@.contains_key(
                    id,
                ) && final(exchange).searchmap@[id] == sender
                &&& op matches LdapOp::Raw(raw) ==> old(exchange).raw is Some ==> match raw.kind {
                    Kind::Reply(_) | Kind::Search => final(exchange).raw->0.pending@.contains_key(
                        id,
                    ) && final(exchange).raw->0.pending@[id] == (Pending {
                        kind: raw.kind,
                        abandoned: false,
                        lease: raw.lease,
                    }),
                    Kind::Abandon(target) => old(exchange).raw->0.pending@.contains_key(target)
                        && final(exchange).raw->0.pending@[target] == (Pending {
                        abandoned: true,
                        ..old(exchange).raw->0.pending@[target]
                    }),
                    Kind::Unbind => final(exchange).raw->0.pending@
                        == old(exchange).raw->0.pending@,
                }
            },
            // Only an Abandon is refused, whose target does not wait, and its submitter is told.
            Action::Wait => exists|target: RequestId|
                {
                    &&& request.1 matches LdapOp::Raw(raw) && raw.kind == Kind::Abandon(
                        target,
                    ) && (raw.written matches Some(sender) ==> told(
                        sender,
                        Err::<(), Error>(Error::AbandonTargetNotOutstanding),
                    ))
                    &&& !(#[trigger] old(exchange).raw->0.pending@.contains_key(target))
                },
            Action::End => false,
        },
{
}

/// The submitter of a raw request learns that it was written; that of another request without a
/// response gets an acknowledgement.
pub proof fn written_requests_are_acknowledged<L>(
    exchange: &mut Exchange<L>,
    msgmap: &Arc<Mutex<MessageIds>>,
    id: RequestId,
    op: LdapOp<L>,
    reply: Option<oneshot::Sender<(Tag, Vec<RawControl>)>>,
    r: Result<(Action<L>, Vec<RequestId>), Error>,
)
    requires
        call_ensures(
            Exchange::<L>::step,
            (exchange, msgmap, Event::Written { id, op, reply }),
            r,
        ),
    ensures
        op matches LdapOp::Raw(raw) ==> (raw.written matches Some(sender) ==> told(
            sender,
            Ok::<(), Error>(()),
        )),
        reply matches Some(sender) ==> exists|answer: (Tag, Vec<RawControl>)| #[trigger]
            told(sender, answer) && is_bytes((answer.0)@, TagClass::Universal, 5, seq![])
                && answer.1@.len() == 0,
        r matches Ok((_, ids)) && ids@ == match op {
            LdapOp::Abandon(target) => seq![target, id],
            LdapOp::Unbind => seq![id],
            _ => seq![],
        },
        op matches LdapOp::Abandon(target) ==> !final(exchange).resultmap@.contains_key(target)
            && !final(exchange).searchmap@.contains_key(target),
{
    if let Some(sender) = reply {
        let answer = choose|answer: (Tag, Vec<RawControl>)| #[trigger]
            told(sender, answer) && acknowledges(answer);
        assert(told(sender, answer));
    }
}

/// Where a submission gives a receipt, the request that was put into the queue has the identifier
/// of the receipt, the operation and the controls that were passed, and the flag that the receipt
/// reads.
pub proof fn submitted_requests_are_queued<
    L,
    F: FnOnce(RequestId, Arc<Mutex<MessageIds>>, OwnedSemaphorePermit) -> L,
>(
    handle: &mut RawHandle<L>,
    operation: StructureTag,
    controls: Vec<RawControl>,
    lease: F,
    dispatch: RawDispatch,
)
    requires
        call_ensures(
            RawHandle::<L>::submit::<F>,
            (handle, operation, controls, lease),
            Ok(dispatch),
        ),
    ensures
        exists|request: Request<L>, made: L, slot: OwnedSemaphorePermit|
            {
                &&& #[trigger] sent(old(handle).queue(), request, true)
                &&& #[trigger] lease.ensures((dispatch.id, old(handle).shared_ids(), slot), made)
                &&& permits(&slot) == 1 && issuer(&slot) == old(handle).slots()
                &&& request.0 == dispatch.id
                &&& request.1 matches LdapOp::Raw(raw) && {
                    &&& *raw.lease == made
                    &&& raw.dispatched == dispatch.dispatched
                    &&& issuer(&raw.memory) == old(handle).request_bytes()
                    &&& raw.written matches Some(sender) && paired(sender, dispatch.written)
                }
                &&& request.2 == Tag::StructureTag(operation)
                &&& request.3 == Some(controls)
            },
        made_as(*dispatch.dispatched, false),
        old(handle).found_open(),
        drawn(old(handle).shared_ids(), Ok(dispatch.id)),
{
}

/// The same of a request that was admitted before.
pub proof fn enqueued_requests_are_queued<L>(
    handle: &RawHandle<L>,
    admission: (RequestId, Kind, OwnedSemaphorePermit),
    lease: Arc<L>,
    operation: StructureTag,
    controls: Vec<RawControl>,
    dispatch: RawDispatch,
)
    requires
        call_ensures(
            RawHandle::<L>::enqueue,
            (handle, admission, lease, operation, controls),
            Ok(dispatch),
        ),
    ensures
        exists|request: Request<L>| #[trigger]
            sent(handle.queue(), request, true) && request.0 == admission.0 && request.0
                == dispatch.id && request.2 == Tag::StructureTag(operation) && request.3 == Some(
                controls,
            ) && (request.1 matches LdapOp::Raw(raw) && raw.kind == admission.1 && raw.memory
                == admission.2 && raw.lease == lease),
{
}

/// A refused request is reported with its error, and a written one with success, to the same
/// submitter.
pub proof fn receipts_tell_the_outcome<L>(
    refused: &mut RawOperation<L>,
    error: Error,
    written: &mut RawOperation<L>,
    first: (),
    second: (),
)
    requires
        call_ensures(Driver::<L>::rejected, (refused, error), first),
        call_ensures(Driver::<L>::completed, (written,), second),
    ensures
        old(refused).written matches Some(sender) ==> told(sender, Err::<(), Error>(error)),
        old(written).written matches Some(sender) ==> told(sender, Ok::<(), Error>(())),
{
}

/// An admitted request has an identifier that was drawn under the lock of the connection, the kind
/// of its operation, a slot, and a permit for each byte, of which there are at least four for each
/// byte of its operation on the wire.
pub proof fn admitted_requests_hold_their_permits<L>(
    handle: &RawHandle<L>,
    operation: StructureTag,
    controls: Vec<RawControl>,
    admission: Admission,
    kind: Result<Kind, Error>,
)
    requires
        call_ensures(RawHandle::<L>::claim, (handle, &operation, &controls), Ok(admission)),
        call_ensures(check_request, (false, &operation), kind),
    ensures
        kind == Ok::<Kind, Error>(admission.kind),
        drawn(handle.shared_ids(), Ok(admission.id)),
        admission.id >= 1,
        permits(&admission.slot) == 1 && issuer(&admission.slot) == handle.slots(),
        issuer(&admission.memory) == handle.request_bytes(),
        permits(&admission.memory) >= 1024 + 4 * encode(operation@).len(),
        reckoned(
            operation,
            controls@,
            handle.limits().codec,
            Ok::<usize, Error>(permits(&admission.memory) as usize),
        ),
        permits(&admission.memory) <= handle.limits().codec.maximum_allocation,
{
    let values = control_values(controls@);
    let size = choose|size: Result<usize, Error>| #[trigger]
        reckoned(operation, controls@, handle.limits().codec, size) && admitted(
            handle.request_bytes(),
            handle.slots(),
            handle.shared_ids(),
            admission.kind,
            size,
            Ok(admission),
        );
    let (x, sizes) = choose|x: Extent, sizes: Seq<ControlSize>|
        #[trigger] extends(x, operation@) && #[trigger] sized_all(sizes, values) && size
            == request_outcome(operation@, x, sizes, handle.limits().codec);
    let wire = request_wire(encode(operation@).len(), sizes);
    assert(wire >= encode(operation@).len());
}

/// The ends that a new connection gives out belong together: the handle reads what the driver
/// records, and the events that the driver puts into its queue come out at the receiving end.
pub proof fn ends_of_a_connection_belong_together<L>(
    msgmap: Arc<Mutex<MessageIds>>,
    tx: mpsc::UnboundedSender<Request<L>>,
    limits: DriverLimits,
    driver: Driver<L>,
    handle: RawHandle<L>,
    responses: RawResponses,
    waits: bool,
    unknown: bool,
)
    requires
        limits.valid(),
        call_ensures(Driver::<L>::new, (msgmap, tx, limits), (driver, handle, responses)),
        call_ensures(Driver::<L>::ended, (&driver,), waits),
        call_ensures(RawHandle::<L>::outcome_unknown, (&handle,), unknown),
    ensures
        !waits,
        made_as(*driver.uncertain, false),
        read_flag(*driver.uncertain, unknown),
        connected(driver.output, responses.0),
        handle.queue() == tx,
        handle.shared_ids() == msgmap,
        handle.limits() == limits,
        made_with(&*handle.slots()) == limits.maximum_outstanding,
        made_with(&*handle.request_bytes()) == limits.maximum_request_bytes,
        made_with(&*driver.responses) == limits.maximum_response_bytes,
        channel_bound(&driver.output) == limits.maximum_response_items,
{
}

/// Once no handle is left, nothing is scrubbed any more, and the end of the questions ends the
/// connection as soon as no write is in progress.
pub proof fn deserted_connections_take_nothing<L>(
    exchange: &mut Exchange<L>,
    msgmap: &Arc<Mutex<MessageIds>>,
    r: Result<(Action<L>, Vec<RequestId>), Error>,
    writing: bool,
    scrubs: bool,
    questions: bool,
)
    requires
        call_ensures(Exchange::<L>::step, (exchange, msgmap, Event::Scrubbed(None)), r),
        call_ensures(Exchange::<L>::takes_scrubs, (&*final(exchange),), scrubs),
        call_ensures(Exchange::<L>::takes_questions, (&*final(exchange), writing), questions),
    ensures
        r matches Ok((action, ids)) && action is Wait && ids@.len() == 0,
        !scrubs,
        questions == !writing,
        final(exchange).resultmap@ == old(exchange).resultmap@,
        final(exchange).searchmap@ == old(exchange).searchmap@,
{
}

/// A connection that is driven for one operation is done with its response, in raw form with its
/// last one, and then takes neither requests nor responses.
pub proof fn single_operations_end<L>(
    exchange: &mut Exchange<L>,
    response: RawResponse,
    ids: Vec<RequestId>,
    finished: bool,
    requests: bool,
    responses: bool,
)
    requires
        call_ensures(Exchange::<L>::response, (exchange, response), Ok(ids)),
        old(exchange).mode == LoopMode::SingleOp,
        call_ensures(Exchange::<L>::is_finished, (&*final(exchange), false), finished),
        call_ensures(Exchange::<L>::takes_requests, (&*final(exchange), false), requests),
        call_ensures(Exchange::<L>::takes_responses, (&*final(exchange),), responses),
    ensures
        old(exchange).raw is None ==> finished,
        old(exchange).raw is Some && response.id != 0 ==> finished
            != final(exchange).raw->0.pending@.contains_key(response.id),
        finished ==> !requests && !responses,
{
}

/// A connection that is driven on is not done with a response.
pub proof fn continuous_connections_go_on<L>(
    exchange: &mut Exchange<L>,
    response: RawResponse,
    ids: Vec<RequestId>,
    requests: bool,
    responses: bool,
)
    requires
        call_ensures(Exchange::<L>::response, (exchange, response), Ok(ids)),
        old(exchange).mode == LoopMode::Continuous,
        call_ensures(Exchange::<L>::takes_requests, (&*final(exchange), false), requests),
        call_ensures(Exchange::<L>::takes_responses, (&*final(exchange),), responses),
    ensures
        requests && responses,
{
}

/// A response is routed to whoever waits under its identifier, with its operation and controls as
/// they came, and to nobody else.
pub proof fn responses_are_routed<L>(
    exchange: &mut Exchange<L>,
    response: RawResponse,
    r: Result<Delivery, Error>,
)
    requires
        call_ensures(Exchange::<L>::route, (exchange, response), r),
    ensures
        match r {
            Ok(Delivery::Item { items, item, controls, last }) => {
                &&& old(exchange).searchmap@.contains_key(response.id)
                &&& items == old(exchange).searchmap@[response.id]
                &&& holds(item, response.operation)
                &&& controls == response.controls
                &&& last == (response.operation.id == 5)
            },
            Ok(Delivery::Result { sender, tag, controls }) => {
                &&& old(exchange).resultmap@.contains_key(response.id)
                &&& sender == old(exchange).resultmap@[response.id]
                &&& tag == Tag::StructureTag(response.operation)
                &&& controls == response.controls
                &&& !final(exchange).resultmap@.contains_key(response.id)
            },
            Ok(Delivery::Nobody) => !old(exchange).searchmap@.contains_key(response.id)
                && !old(exchange).resultmap@.contains_key(response.id),
            Err(e) => {
                &&& e == Error::UnexpectedSearchResponse
                &&& old(exchange).searchmap@.contains_key(response.id)
                &&& response.operation.id != 4 && response.operation.id != 5
                    && response.operation.id != 19 && response.operation.id != 25
            },
        },
        final(exchange).searchmap@ == old(exchange).searchmap@,
{
}

} // verus!
