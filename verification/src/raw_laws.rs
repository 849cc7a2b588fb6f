//! What holds of the requests that wait on a connection.
use crate::asn1::{int_octets, primitive, Element, TagClass};
use crate::conn::{
    ending, freed, request_taken, request_written, response_taken, Dequeued, Event, Exchange,
};
use crate::error::Error;
use crate::framing::lemma_natural_octets;
use crate::protocol::{LdapOp, RawResponse, RequestId, ResultSender};
use crate::raw::{
    capped, judged, kind_of, registered, reserved_total, settled, DriverLimits, Kind, Pending,
};
use crate::requests::application_element;
use std::sync::Arc;
use vstd::prelude::*;

verus! {

/// Every request is answered by responses of the kind that its operation has: by its operation's
/// number, as the request constructors give it.
pub proof fn requests_have_their_kind(es: Seq<Element>, dn: Seq<u8>, id: RequestId)
    requires
        id > 0,
    ensures
        kind_of(application_element(0, es)) == Ok::<Kind, Error>(Kind::Reply(1)),
        kind_of(application_element(3, es)) == Ok::<Kind, Error>(Kind::Search),
        kind_of(application_element(6, es)) == Ok::<Kind, Error>(Kind::Reply(7)),
        kind_of(application_element(8, es)) == Ok::<Kind, Error>(Kind::Reply(9)),
        kind_of(primitive(TagClass::Application, 10, dn)) == Ok::<Kind, Error>(Kind::Reply(11)),
        kind_of(application_element(12, es)) == Ok::<Kind, Error>(Kind::Reply(13)),
        kind_of(application_element(14, es)) == Ok::<Kind, Error>(Kind::Reply(15)),
        kind_of(application_element(23, es)) == Ok::<Kind, Error>(Kind::Reply(24)),
        kind_of(primitive(TagClass::Application, 2, Seq::empty())) == Ok::<Kind, Error>(
            Kind::Unbind,
        ),
        kind_of(primitive(TagClass::Application, 16, int_octets(id as int))) == Ok::<Kind, Error>(
            Kind::Abandon(id),
        ),
{
    lemma_natural_octets(id as int);
    assert(int_octets(id as int).len() <= 4) by {
        reveal_with_fuel(int_octets, 4);
    }
}

/// A request that was registered is answered by its own kind of response and by no other, and
/// waits no longer after the last one. The other requests are not concerned.
pub proof fn registered_request_is_answered<L>(
    pending: Map<RequestId, Pending<L>>,
    id: RequestId,
    expected: u64,
    lease: Arc<L>,
    tag: u64,
)
    requires
        id != 0,
        expected != 25,
    ensures
        ({
            let after = registered(pending, id, Kind::Reply(expected), lease)->Ok_0;
            &&& judged(after, id, expected) == Ok::<(bool, bool), Error>((true, false))
            &&& judged(after, id, 25) == Ok::<(bool, bool), Error>((false, false))
            &&& tag != expected && tag != 25 ==> judged(after, id, tag) == Err::<
                (bool, bool),
                Error,
            >(Error::ResponseMismatch)
            &&& settled(after, id, true) == pending.remove(id)
        }),
{
    let after = registered(pending, id, Kind::Reply(expected), lease)->Ok_0;
    assert(settled(after, id, true) =~= pending.remove(id));
}

/// A search is answered by any number of entries and references, and waits no longer after its
/// result.
pub proof fn registered_search_is_answered<L>(
    pending: Map<RequestId, Pending<L>>,
    id: RequestId,
    lease: Arc<L>,
)
    requires
        id != 0,
    ensures
        ({
            let after = registered(pending, id, Kind::Search, lease)->Ok_0;
            &&& judged(after, id, 4) == Ok::<(bool, bool), Error>((false, false))
            &&& judged(after, id, 19) == Ok::<(bool, bool), Error>((false, false))
            &&& judged(after, id, 25) == Ok::<(bool, bool), Error>((false, false))
            &&& judged(after, id, 5) == Ok::<(bool, bool), Error>((true, false))
        }),
{
}

/// Abandoning a request keeps it waiting: late responses to it are judged as before, and say that
/// it was abandoned. No other request is concerned, and none is added or lost.
pub proof fn abandoned_request_keeps_its_identity<L>(
    pending: Map<RequestId, Pending<L>>,
    id: RequestId,
    target: RequestId,
    lease: Arc<L>,
    other: RequestId,
    tag: u64,
)
    requires
        pending.contains_key(target),
        target != 0,
        other != target,
    ensures
        ({
            let after = registered(pending, id, Kind::Abandon(target), lease)->Ok_0;
            &&& registered(pending, id, Kind::Abandon(target), lease) is Ok
            &&& after.dom() == pending.dom()
            &&& judged(after, other, tag) == judged(pending, other, tag)
            &&& judged(after, target, tag) == match judged(pending, target, tag) {
                Ok((complete, _)) => Ok::<(bool, bool), Error>((complete, true)),
                Err(e) => Err(e),
            }
            &&& after[target].lease == pending[target].lease
        }),
{
    let after = registered(pending, id, Kind::Abandon(target), lease)->Ok_0;
    assert(after.dom() =~= pending.dom());
}

/// Responses to different requests can come in any order: each is judged as if the other had not
/// come, and the same requests are left waiting.
pub proof fn responses_come_in_any_order<L>(
    pending: Map<RequestId, Pending<L>>,
    first: RequestId,
    second: RequestId,
    tag: u64,
    complete: bool,
    other_complete: bool,
)
    requires
        first != second,
    ensures
        judged(settled(pending, first, complete), second, tag) == judged(pending, second, tag),
        settled(settled(pending, first, complete), second, other_complete) == settled(
            settled(pending, second, other_complete),
            first,
            complete,
        ),
{
    assert(settled(settled(pending, first, complete), second, other_complete) =~= settled(
        settled(pending, second, other_complete),
        first,
        complete,
    ));
}

/// No response is accepted that no request waits for, but an unsolicited notification. A response
/// that was refused leaves every request waiting.
pub proof fn unexpected_responses_are_refused<L>(
    pending: Map<RequestId, Pending<L>>,
    id: RequestId,
    tag: u64,
)
    requires
        !pending.contains_key(id),
    ensures
        judged(pending, id, tag) is Ok <==> id == 0 && tag == 24,
        judged(pending, id, tag) matches Ok((complete, abandoned)) ==> !complete && !abandoned,
{
}

/// A response concerns the request under its identifier and no other: those go on waiting, in the
/// same place.
pub proof fn response_concerns_one_request<L>(
    before: Exchange<L>,
    after: Exchange<L>,
    response: RawResponse,
    r: Result<Seq<RequestId>, Error>,
    other: RequestId,
)
    requires
        response_taken(before, after, response, r),
        other != response.id,
    ensures
        after.waits(other) == before.waits(other),
        before.resultmap@.contains_key(other) ==> after.resultmap@.contains_key(other)
            && after.resultmap@[other] == before.resultmap@[other],
        before.searchmap@.contains_key(other) ==> after.searchmap@.contains_key(other)
            && after.searchmap@[other] == before.searchmap@[other],
        r matches Ok(ids) ==> !ids.contains(other),
        (before.raw is Some && before.raw->0.pending@.contains_key(other)) ==> (after.raw is Some
            && after.raw->0.pending@.contains_key(other) && after.raw->0.pending@[other]
            == before.raw->0.pending@[other]),
{
}

/// Taking a request from the queue, or writing one, concerns that request and the one that it
/// abandons: the others go on waiting, in the same place.
pub proof fn request_concerns_one_identifier<L>(
    before: Exchange<L>,
    taken: Exchange<L>,
    written: Exchange<L>,
    id: RequestId,
    op: LdapOp<L>,
    reply: ResultSender,
    r: Dequeued,
    other: RequestId,
)
    requires
        request_taken(before, taken, id, op, reply, r),
        request_written(taken, written, op),
        other != id,
        op matches LdapOp::Abandon(target) ==> other != target,
    ensures
        written.waits(other) == before.waits(other),
        before.resultmap@.contains_key(other) ==> written.resultmap@.contains_key(other)
            && written.resultmap@[other] == before.resultmap@[other],
        before.searchmap@.contains_key(other) ==> written.searchmap@.contains_key(other)
            && written.searchmap@[other] == before.searchmap@[other],
        !freed(id, op).contains(other),
{
}

/// A request that was taken from the queue waits for its response under its identifier, and the
/// response that answers it goes to its own sender.
pub proof fn request_waits_for_its_response<L>(
    before: Exchange<L>,
    after: Exchange<L>,
    id: RequestId,
    op: LdapOp<L>,
    reply: ResultSender,
    r: Dequeued,
)
    requires
        request_taken(before, after, id, op, reply, r),
    ensures
        op is Single ==> after.resultmap@.contains_key(id) && after.resultmap@[id] == reply,
        op matches LdapOp::Search(sender) ==> after.searchmap@.contains_key(id)
            && after.searchmap@[id] == sender,
        (op is Abandon || op is Unbind) ==> after.waits(id) == before.waits(id),
{
}

/// Dropping the last handle closes the connection: the channel for scrubbed requests is not
/// listened to again once it is closed, so that a write in progress is finished and requests that
/// are still queued are taken, and then the end of the queue ends the connection.
pub proof fn deserted_connection_ends<L>(
    before: Exchange<L>,
    after: Exchange<L>,
    id: Option<RequestId>,
    written: Event<L>,
    request: Event<L>,
)
    requires
        after == (Exchange { deserted: true, ..before }),
        !before.operation_complete,
        written is Written,
        request is Request,
    ensures
        !after.expects(Event::Scrubbed(id), true),
        !after.expects(Event::Scrubbed(id), false),
        after.expects(written, true),
        !after.expects(Event::Deserted, true),
        after.expects(request, false),
        ending(Event::<L>::Request(None)),
        after.expects(Event::Deserted, false),
        ending(Event::<L>::Deserted),
{
}

/// Only requests that get a reply wait, and with them the outcome of a connection that ends is
/// unknown: an Abandon or Unbind adds none, and the last response takes its own away.
pub proof fn only_requests_with_a_reply_wait<L>(
    pending: Map<RequestId, Pending<L>>,
    id: RequestId,
    kind: Kind,
    lease: Arc<L>,
    after: Map<RequestId, Pending<L>>,
)
    requires
        registered(pending, id, kind, lease) == Ok::<Map<RequestId, Pending<L>>, Error>(after),
    ensures
        after.dom() == if kind is Abandon || kind is Unbind {
            pending.dom()
        } else {
            pending.dom().insert(id)
        },
        settled(after, id, true).dom() == after.dom().remove(id),
        settled(after, id, false).dom() == after.dom(),
{
    assert(after.dom() =~= if kind is Abandon || kind is Unbind {
        pending.dom()
    } else {
        pending.dom().insert(id)
    });
    assert(settled(after, id, true).dom() =~= after.dom().remove(id));
}

/// What is reserved is counted in full, up to the greatest number: taking permits for requests and
/// responses raises it by as many, and nothing of it is ever lost by wrapping around.
pub proof fn reservations_add_up(
    limits: DriverLimits,
    free_requests: nat,
    free_responses: nat,
    storage: nat,
    id_places: nat,
    requested: nat,
    received: nat,
)
    requires
        requested <= free_requests <= limits.maximum_request_bytes,
        received <= free_responses <= limits.maximum_response_bytes,
    ensures
        ({
            let before = reserved_total(limits, free_requests, free_responses, storage, id_places);
            let after = reserved_total(
                limits,
                (free_requests - requested) as nat,
                (free_responses - received) as nat,
                storage,
                id_places,
            );
            &&& after == capped(before + requested + received)
            &&& before >= capped(storage as int)
            &&& before >= capped(
                limits.maximum_request_bytes - free_requests + (limits.maximum_response_bytes
                    - free_responses) + storage,
            )
        }),
{
}

} // verus!
