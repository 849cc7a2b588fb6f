//! What a connection does with requests, responses and the end of writes.
use crate::asn1::{primitive, Null, StructureTag, Tag, TagClass, NULL};
use crate::buffer::{contents, new_buffer, wipe_buffer, wiped_buffer};
use crate::channels::{
    clone_sender, flagged, offered, pass, sent, tell, told,
};
use crate::controls::RawControl;
use crate::error::Error;
use crate::ids::MessageIds;
use crate::protocol::{
    maybe_control_values, message_element, ItemSender, LdapCodec, LdapOp, RawResponse, Request,
    RequestId, ResultSender, SearchItem,
};
use crate::raw::{
    found_idle, idle_under, judged, registered, release_under, released, settled, uncounted, Driver,
    Kind, Pending, RawEvent,
};
use crate::write::{encodable, encode, erased};
use std::collections::HashMap;
use std::sync::{Arc, Mutex};
use vstd::prelude::*;
use vstd::slice::slice_to_vec;

verus! {

broadcast use vstd::std_specs::hash::group_hash_axioms;

/// How long a connection is driven.
#[derive(Clone, Copy, Debug, PartialEq, Eq, Structural)]
pub enum LoopMode {
    SingleOp,
    Continuous,
}

/// The requests of a connection that wait for responses, by the form in which they came.
#[verifier::reject_recursive_types(L)]
pub struct Exchange<L> {
    pub raw: Option<Driver<L>>,
    pub resultmap: HashMap<RequestId, ResultSender>,
    pub searchmap: HashMap<RequestId, ItemSender>,
    pub mode: LoopMode,
    pub operation_complete: bool,
    /// No handle of the connection is left.
    pub deserted: bool,
}

/// What happens on a connection.
#[verifier::reject_recursive_types(L)]
pub enum Event<L> {
    /// A request was written.
    Written { id: RequestId, op: LdapOp<L>, reply: Option<ResultSender> },
    /// A request is of no interest to its submitter any more, or no handle is left to say so.
    Scrubbed(Option<RequestId>),
    /// The next request of the queue, or its end.
    Request(Option<Request<L>>),
    /// The next response, or the end of the stream.
    Response(Option<RawResponse>),
    /// No handle of the connection is left to ask questions.
    Deserted,
}

/// What the connection does next.
#[verifier::reject_recursive_types(L)]
pub enum Action<L> {
    /// It waits for the next event.
    Wait,
    /// It writes a request, and waits.
    Write {
        id: RequestId,
        op: LdapOp<L>,
        tag: Tag,
        controls: Option<Vec<RawControl>>,
        reply: Option<ResultSender>,
    },
    /// It ends.
    End,
}

/// What happens to a request from the queue.
pub enum Dequeued {
    /// It is not sent, for this reason.
    Rejected(Error),
    /// It is written, and then answered here, unless it waits for a response.
    Written(Option<ResultSender>),
}

/// Where a response goes.
pub enum Delivery {
    /// To a search, whose last item it may be.
    Item { items: ItemSender, item: SearchItem, controls: Vec<RawControl>, last: bool },
    /// To another request.
    Result { sender: ResultSender, tag: Tag, controls: Vec<RawControl> },
    Nobody,
}

/// Whether the connection ends once the request was written.
pub open spec fn closes<L>(op: LdapOp<L>) -> bool {
    match op {
        LdapOp::Unbind => true,
        LdapOp::Raw(raw) => raw.kind == Kind::Unbind,
        _ => false,
    }
}

pub fn ends_connection<L>(op: &LdapOp<L>) -> (r: bool)
    ensures
        r == closes(*op),
{
    match op {
        LdapOp::Unbind => true,
        LdapOp::Raw(raw) => raw.kind == Kind::Unbind,
        _ => false,
    }
}

/// Whether the connection ends with an event: a request was written that closes it, or the queue,
/// the stream or the questions came to an end.
pub open spec fn ending<L>(event: Event<L>) -> bool {
    match event {
        Event::Written { id, op, reply } => closes(op),
        Event::Request(None) | Event::Response(None) | Event::Deserted => true,
        _ => false,
    }
}

/// The identifiers that are out of use once the request was written.
pub open spec fn freed<L>(id: RequestId, op: LdapOp<L>) -> Seq<RequestId> {
    match op {
        LdapOp::Abandon(target) => seq![target, id],
        LdapOp::Unbind => seq![id],
        _ => seq![],
    }
}

pub fn freed_ids<L>(id: RequestId, op: &LdapOp<L>) -> (r: Vec<RequestId>)
    ensures
        r@ == freed(id, *op),
{
    let mut ids: Vec<RequestId> = Vec::new();
    match op {
        LdapOp::Abandon(target) => {
            ids.push(*target);
            ids.push(id);
        },
        LdapOp::Unbind => {
            ids.push(id);
        },
        _ => {},
    }
    assert(ids@ =~= freed(id, *op));
    ids
}

/// The item that a response to a search is, and whether it is the last one.
pub open spec fn search_item_of(operation: StructureTag) -> Result<(SearchItem, bool), Error> {
    if operation.id == 4 || operation.id == 25 {
        Ok((SearchItem::Entry(operation), false))
    } else if operation.id == 5 {
        Ok((SearchItem::Done(operation), true))
    } else if operation.id == 19 {
        Ok((SearchItem::Referral(operation), false))
    } else {
        Err(Error::UnexpectedSearchResponse)
    }
}

pub fn search_item(operation: StructureTag) -> (r: Result<(SearchItem, bool), Error>)
    ensures
        r == search_item_of(operation),
{
    match operation.id {
        4 | 25 => Ok((SearchItem::Entry(operation), false)),
        5 => Ok((SearchItem::Done(operation), true)),
        19 => Ok((SearchItem::Referral(operation), false)),
        _ => Err(Error::UnexpectedSearchResponse),
    }
}

/// The bytes of a message. The buffer that they were built in is erased.
pub fn encode_message(
    codec: &mut LdapCodec,
    id: RequestId,
    tag: Tag,
    controls: Option<Vec<RawControl>>,
) -> (r: Result<Vec<u8>, Error>)
    ensures
        *final(codec) == *old(codec),
        ({
            let e = message_element(id as int, tag@, maybe_control_values(controls));
            match r {
                Ok(bytes) => encodable(e) && encode(e).len() <= isize::MAX && bytes@ == encode(e)
                    && erased(e) && wiped_buffer(bytes@),
                Err(err) => err == Error::LimitExceeded && !(encodable(e) && encode(e).len()
                    <= isize::MAX),
            }
        }),
{
    let mut buffer = new_buffer();
    match codec.encode((id, tag, controls), &mut buffer) {
        Ok(()) => {
            let bytes = slice_to_vec(contents(&buffer));
            proof {
                let e = message_element(id as int, tag@, maybe_control_values(controls));
                assert(Seq::<u8>::empty() + encode(e) =~= encode(e));
            }
            wipe_buffer(buffer);
            Ok(bytes)
        },
        Err(e) => Err(e),
    }
}

/// Whether a message acknowledges that a request was written: a NULL without controls.
pub open spec fn acknowledges(answer: (Tag, Vec<RawControl>)) -> bool {
    answer.0@ == primitive(TagClass::Universal, NULL, Seq::empty()) && answer.1@.len() == 0
}

/// What the submitter of a request without a response gets once it was written.
pub fn acknowledgement() -> (r: (Tag, Vec<RawControl>))
    ensures
        acknowledges(r),
{
    (Tag::Null(Null { class: TagClass::Universal, id: NULL, inner: () }), Vec::new())
}

/// Takes identifiers of the connection out of use.
pub fn release_all(msgmap: &Arc<Mutex<MessageIds>>, ids: &Vec<RequestId>)
    ensures
        released(*msgmap, *ids),
{
    release_under(msgmap, ids)
}

fn only(id: RequestId) -> (r: Vec<RequestId>)
    ensures
        r@ == seq![id],
{
    let mut ids: Vec<RequestId> = Vec::new();
    ids.push(id);
    assert(ids@ =~= seq![id]);
    ids
}

/// Whether a request from the queue was registered, or refused, as its form calls for.
pub open spec fn request_taken<L>(
    before: Exchange<L>,
    after: Exchange<L>,
    id: RequestId,
    op: LdapOp<L>,
    reply: ResultSender,
    r: Dequeued,
) -> bool {
    &&& after.mode == before.mode
    &&& after.operation_complete == before.operation_complete
    &&& after.deserted == before.deserted
    &&& match op {
        LdapOp::Raw(raw) => {
            &&& after.resultmap@ == before.resultmap@
            &&& after.searchmap@ == before.searchmap@
            &&& after.raw is Some
            &&& after.raw->0.same_ends(before.raw->0)
            &&& match registered(before.raw->0.pending@, id, raw.kind, raw.lease) {
                Ok(pending) => r == Dequeued::Written(Some(reply)) && after.raw->0.pending@
                    == pending && flagged(*raw.dispatched, true),
                Err(e) => r == Dequeued::Rejected(e) && after.raw->0.pending@
                    == before.raw->0.pending@,
            }
        },
        LdapOp::Single => {
            &&& r == Dequeued::Written(None)
            &&& after.raw == before.raw
            &&& after.resultmap@ == before.resultmap@.insert(id, reply)
            &&& after.searchmap@ == before.searchmap@
        },
        LdapOp::Search(sender) => {
            &&& r == Dequeued::Written(Some(reply))
            &&& after.raw == before.raw
            &&& after.resultmap@ == before.resultmap@
            &&& after.searchmap@ == before.searchmap@.insert(id, sender)
        },
        _ => {
            &&& r == Dequeued::Written(Some(reply))
            &&& after.raw == before.raw
            &&& after.resultmap@ == before.resultmap@
            &&& after.searchmap@ == before.searchmap@
        },
    }
}

/// Whether everything but the tables of waiting requests is the same.
pub open spec fn same_frame<L>(before: Exchange<L>, after: Exchange<L>) -> bool {
    &&& after.raw == before.raw
    &&& after.mode == before.mode
    &&& after.operation_complete == before.operation_complete
    &&& after.deserted == before.deserted
}

/// Whether the requests that wait no longer, once a request was written, are forgotten: the one
/// that it abandons.
pub open spec fn request_written<L>(
    before: Exchange<L>,
    after: Exchange<L>,
    op: LdapOp<L>,
) -> bool {
    &&& same_frame(before, after)
    &&& match op {
        LdapOp::Abandon(target) => {
            &&& after.resultmap@ == before.resultmap@.remove(target)
            &&& after.searchmap@ == before.searchmap@.remove(target)
        },
        _ => {
            &&& after.resultmap@ == before.resultmap@
            &&& after.searchmap@ == before.searchmap@
        },
    }
}

/// Whether a request was forgotten.
pub open spec fn request_scrubbed<L>(
    before: Exchange<L>,
    after: Exchange<L>,
    id: RequestId,
) -> bool {
    &&& same_frame(before, after)
    &&& after.resultmap@ == before.resultmap@.remove(id)
    &&& after.searchmap@ == before.searchmap@.remove(id)
}

/// Whether a response was treated as the requests that wait for one call for, and which
/// identifiers went out of use.
///
/// With a raw driver it goes there. Otherwise it goes to the search or the other request that
/// waits under its identifier, and nowhere if none does. A search waits no longer after its last
/// item, or when nobody takes them any more.
pub open spec fn response_taken<L>(
    before: Exchange<L>,
    after: Exchange<L>,
    response: RawResponse,
    r: Result<Seq<RequestId>, Error>,
) -> bool {
    let id = response.id;
    let single = before.mode == LoopMode::SingleOp;
    &&& after.mode == before.mode
    &&& after.deserted == before.deserted
    &&& match before.raw {
        Some(driver) => {
            &&& after.resultmap@ == before.resultmap@
            &&& after.searchmap@ == before.searchmap@
            &&& after.raw is Some
            &&& after.raw->0.same_ends(driver)
            &&& raw_routed(before, after, driver.pending@, after.raw->0.pending@, response, r)
        },
        None => {
            &&& after.raw is None
            &&& if before.searchmap@.contains_key(id) {
                &&& after.resultmap@ == before.resultmap@
                &&& match search_item_of(response.operation) {
                    Err(e) => {
                        &&& r == Err::<Seq<RequestId>, Error>(e)
                        &&& after.searchmap@ == before.searchmap@
                        &&& after.operation_complete == before.operation_complete
                    },
                    Ok((item, last)) => {
                        &&& after.operation_complete == single
                        &&& exists|taken: bool| #[trigger]
                            sent(before.searchmap@[id], (item, response.controls), taken) && if last
                                || !taken {
                                &&& r == Ok::<Seq<RequestId>, Error>(seq![id])
                                &&& after.searchmap@ == before.searchmap@.remove(id)
                            } else {
                                &&& r == Ok::<Seq<RequestId>, Error>(seq![])
                                &&& after.searchmap@ == before.searchmap@
                            }
                    },
                }
            } else {
                &&& after.searchmap@ == before.searchmap@
                &&& after.resultmap@ == before.resultmap@.remove(id)
                &&& after.operation_complete == single
                &&& before.resultmap@.contains_key(id) ==> told(
                    before.resultmap@[id],
                    (Tag::StructureTag(response.operation), response.controls),
                )
                &&& r == Ok::<Seq<RequestId>, Error>(
                    if before.resultmap@.contains_key(id) {
                        seq![id]
                    } else {
                        seq![]
                    },
                )
            }
        },
    }
}

pub open spec fn ids_of(r: Result<Vec<RequestId>, Error>) -> Result<Seq<RequestId>, Error> {
    match r {
        Ok(ids) => Ok(ids@),
        Err(e) => Err(e),
    }
}

impl<L> Exchange<L> {
    /// Nothing waits yet.
    pub fn new(raw: Option<Driver<L>>, mode: LoopMode) -> (r: Self)
        ensures
            r.distinct(),
            r.raw == raw,
            r.resultmap@ == Map::<RequestId, ResultSender>::empty(),
            r.searchmap@ == Map::<RequestId, ItemSender>::empty(),
            r.mode == mode,
            !r.operation_complete,
            !r.deserted,
    {
        Exchange {
            raw,
            resultmap: HashMap::new(),
            searchmap: HashMap::new(),
            mode,
            operation_complete: false,
            deserted: false,
        }
    }

    /// No identifier waits both for a result and for the items of a search.
    pub open spec fn distinct(self) -> bool {
        forall|id: RequestId|
            !(#[trigger] self.resultmap@.contains_key(id) && self.searchmap@.contains_key(id))
    }

    /// Whether the connection waits for events of this form, while a write is in progress or not.
    pub open spec fn expects(self, event: Event<L>, writing: bool) -> bool {
        match event {
            Event::Written { .. } => writing,
            Event::Scrubbed(_) => !self.deserted,
            Event::Request(_) => !writing && !self.operation_complete,
            Event::Response(_) => !self.operation_complete,
            Event::Deserted => !(self.deserted && writing),
        }
    }

    /// Whether a request waits under the identifier.
    pub open spec fn waits(self, id: RequestId) -> bool {
        self.resultmap@.contains_key(id) || self.searchmap@.contains_key(id)
    }

    /// Whether the one operation that the connection is driven for is over.
    pub fn is_finished(&self, writing: bool) -> (r: bool)
        ensures
            r == (self.operation_complete && !writing && self.mode == LoopMode::SingleOp),
    {
        self.operation_complete && !writing && self.mode == LoopMode::SingleOp
    }

    /// Whether a request is taken from the queue.
    pub fn takes_requests(&self, writing: bool) -> (r: bool)
        ensures
            r == (!writing && !self.operation_complete),
            forall|event: Event<L>|
                event is Request ==> r == #[trigger] self.expects(event, writing),
    {
        !writing && !self.operation_complete
    }

    /// Whether responses are read. A write in progress does not keep them waiting.
    pub fn takes_responses(&self) -> (r: bool)
        ensures
            r == !self.operation_complete,
            forall|event: Event<L>, writing: bool|
                event is Response ==> r == #[trigger] self.expects(event, writing),
    {
        !self.operation_complete
    }

    /// Whether requests can be scrubbed: some handle may be left to say so.
    pub fn takes_scrubs(&self) -> (r: bool)
        ensures
            r == !self.deserted,
            forall|event: Event<L>, writing: bool|
                event is Scrubbed ==> r == #[trigger] self.expects(event, writing),
    {
        !self.deserted
    }

    /// Whether questions are answered. Where no handle is left there are none, and a write in
    /// progress is not cut off by their end.
    pub fn takes_questions(&self, writing: bool) -> (r: bool)
        ensures
            r == !(self.deserted && writing),
            r == self.expects(Event::Deserted, writing),
    {
        !(self.deserted && writing)
    }

    /// A request was taken from the queue.
    #[verifier::rlimit(30)]
    pub fn dequeued(&mut self, id: RequestId, op: &LdapOp<L>, reply: ResultSender) -> (r: Dequeued)
        requires
            *op is Raw ==> old(self).raw is Some,
        ensures
            old(self).distinct() && !old(self).waits(id) ==> final(self).distinct(),
            request_taken(*old(self), *final(self), id, *op, reply, r),
    {
        match op {
            LdapOp::Raw(raw) => {
                if let Some(driver) = &mut self.raw {
                    if let Err(error) = driver.register(id, raw) {
                        return Dequeued::Rejected(error);
                    }
                    Driver::started(raw);
                }
                Dequeued::Written(Some(reply))
            },
            LdapOp::Single => {
                self.resultmap.insert(id, reply);
                Dequeued::Written(None)
            },
            LdapOp::Search(sender) => {
                self.searchmap.insert(id, clone_sender(sender));
                Dequeued::Written(Some(reply))
            },
            _ => Dequeued::Written(Some(reply)),
        }
    }

    /// A request was written. Tells which identifiers are out of use.
    pub fn written(&mut self, id: RequestId, op: &LdapOp<L>) -> (r: Vec<RequestId>)
        ensures
            old(self).distinct() ==> final(self).distinct(),
            request_written(*old(self), *final(self), *op),
            r@ == freed(id, *op),
    {
        if let LdapOp::Abandon(target) = op {
            self.resultmap.remove(target);
            self.searchmap.remove(target);
        }
        freed_ids(id, op)
    }

    /// A request is of no interest to its submitter any more.
    pub fn scrubbed(&mut self, id: RequestId)
        ensures
            old(self).distinct() ==> final(self).distinct(),
            request_scrubbed(*old(self), *final(self), id),
    {
        self.resultmap.remove(&id);
        self.searchmap.remove(&id);
    }

    /// A response to a search was handed on, or nobody was there to take it. Tells which
    /// identifiers are out of use.
    pub fn search_delivered(&mut self, id: RequestId, last: bool, taken: bool) -> (r: Vec<
        RequestId,
    >)
        ensures
            old(self).distinct() ==> final(self).distinct(),
            final(self).mode == old(self).mode,
            final(self).deserted == old(self).deserted,
            final(self).operation_complete == (old(self).mode == LoopMode::SingleOp),
            final(self).raw == old(self).raw,
            final(self).resultmap@ == old(self).resultmap@,
            if last || !taken {
                r@ == seq![id] && final(self).searchmap@ == old(self).searchmap@.remove(id)
            } else {
                r@ == Seq::<RequestId>::empty() && final(self).searchmap@ == old(self).searchmap@
            },
    {
        self.operation_complete = self.mode == LoopMode::SingleOp;
        if last || !taken {
            self.searchmap.remove(&id);
            only(id)
        } else {
            Vec::new()
        }
    }

    /// Where a response goes without a raw driver: to the search or the other request that waits
    /// under its identifier, and nowhere if none does.
    pub fn route(&mut self, response: RawResponse) -> (r: Result<Delivery, Error>)
        ensures
            old(self).distinct() ==> final(self).distinct(),
            same_frame(*old(self), *final(self)),
            final(self).searchmap@ == old(self).searchmap@,
            if old(self).searchmap@.contains_key(response.id) {
                &&& final(self).resultmap@ == old(self).resultmap@
                &&& r == match search_item_of(response.operation) {
                    Ok((item, last)) => Ok::<Delivery, Error>(
                        Delivery::Item {
                            items: old(self).searchmap@[response.id],
                            item,
                            controls: response.controls,
                            last,
                        },
                    ),
                    Err(e) => Err(e),
                }
            } else if old(self).resultmap@.contains_key(response.id) {
                &&& final(self).resultmap@ == old(self).resultmap@.remove(response.id)
                &&& r == Ok::<Delivery, Error>(
                    Delivery::Result {
                        sender: old(self).resultmap@[response.id],
                        tag: Tag::StructureTag(response.operation),
                        controls: response.controls,
                    },
                )
            } else {
                &&& final(self).resultmap@ == old(self).resultmap@
                &&& r == Ok::<Delivery, Error>(Delivery::Nobody)
            },
    {
        let id: RequestId = response.id;
        if let Some(sender) = self.searchmap.get(&id) {
            return match search_item(response.operation) {
                Ok((item, last)) => Ok(
                    Delivery::Item {
                        items: clone_sender(sender),
                        item,
                        controls: response.controls,
                        last,
                    },
                ),
                Err(e) => Err(e),
            };
        }
        if let Some(sender) = self.resultmap.remove(&id) {
            return Ok(
                Delivery::Result {
                    sender,
                    tag: Tag::StructureTag(response.operation),
                    controls: response.controls,
                },
            );
        }
        Ok(Delivery::Nobody)
    }

    /// A response came in. Tells which identifiers are out of use.
    #[verifier::rlimit(30)]
    pub fn response(&mut self, response: RawResponse) -> (r: Result<Vec<RequestId>, Error>)
        ensures
            old(self).distinct() ==> final(self).distinct(),
            response_taken(*old(self), *final(self), response, ids_of(r)),
    {
        if let Some(driver) = &mut self.raw {
            return match driver.response(response) {
                Ok(complete) => {
                    self.operation_complete = complete && self.mode == LoopMode::SingleOp;
                    Ok(Vec::new())
                },
                Err(e) => Err(e),
            };
        }
        let id: RequestId = response.id;
        match self.route(response) {
            Ok(Delivery::Item { items, item, controls, last }) => {
                let taken = pass(&items, (item, controls));
                let ids = self.search_delivered(id, last, taken);
                assert(seq![id].len() != Seq::<RequestId>::empty().len());
                Ok(ids)
            },
            Ok(Delivery::Result { sender, tag, controls }) => {
                tell(sender, (tag, controls));
                self.operation_complete = self.mode == LoopMode::SingleOp;
                Ok(only(id))
            },
            Ok(Delivery::Nobody) => {
                self.operation_complete = self.mode == LoopMode::SingleOp;
                assert(old(self).resultmap@.remove(id) =~= old(self).resultmap@);
                Ok(Vec::new())
            },
            Err(e) => Err(e),
        }
    }

    /// What the connection does after an event, and which identifiers it took out of use. They
    /// are released before the submitter of a request without a response is told that it was
    /// written, and after a response was handed on.
    #[verifier::rlimit(30)]
    pub fn step(&mut self, msgmap: &Arc<Mutex<MessageIds>>, event: Event<L>) -> (r: Result<
        (Action<L>, Vec<RequestId>),
        Error,
    >)
        requires
            event matches Event::Request(Some(request)) ==> request.1 is Raw ==> old(
                self,
            ).raw is Some,
        ensures
            old(self).distinct() && (event matches Event::Request(Some(request)) ==> !old(
                self,
            ).waits(request.0)) ==> final(self).distinct(),
            ending(event) <==> (r matches Ok((action, _)) && action is End),
            r matches Ok((_, ids)) ==> released(*msgmap, ids),
            match event {
                Event::Written { id, op, reply } => {
                    &&& request_written(*old(self), *final(self), op)
                    &&& op matches LdapOp::Raw(raw) ==> (raw.written matches Some(sender) ==> told(
                        sender,
                        Ok::<(), Error>(()),
                    ))
                    &&& reply matches Some(sender) ==> exists|answer: (Tag, Vec<RawControl>)|
                        #[trigger] told(sender, answer) && acknowledges(answer)
                    &&& r matches Ok((action, ids)) && ids@ == freed(id, op) && action == if closes(
                        op,
                    ) {
                        Action::<L>::End
                    } else {
                        Action::Wait
                    }
                },
                Event::Scrubbed(Some(id)) => {
                    &&& request_scrubbed(*old(self), *final(self), id)
                    &&& r matches Ok((action, ids)) && ids@ == seq![id] && action
                        == Action::<L>::Wait
                },
                Event::Request(Some((id, op, tag, controls, reply))) => {
                    &&& r matches Ok((action, ids)) && ids@ == Seq::<RequestId>::empty()
                        && match action {
                        Action::Wait => exists|e: Error| #[trigger]
                            request_taken(
                                *old(self),
                                *final(self),
                                id,
                                op,
                                reply,
                                Dequeued::Rejected(e),
                            ) && (op matches LdapOp::Raw(raw) ==> (raw.written matches Some(sender)
                                ==> told(sender, Err::<(), Error>(e)))),
                        Action::Write { id: i, op: o, tag: t, controls: c, reply: answer } => {
                            &&& i == id && o == op && t == tag && c == controls
                            &&& request_taken(
                                *old(self),
                                *final(self),
                                id,
                                op,
                                reply,
                                Dequeued::Written(answer),
                            )
                        },
                        Action::End => false,
                    }
                },
                Event::Response(Some(response)) => match r {
                    Ok((action, ids)) => action == Action::<L>::Wait && response_taken(
                        *old(self),
                        *final(self),
                        response,
                        Ok(ids@),
                    ),
                    Err(e) => response_taken(*old(self), *final(self), response, Err(e)),
                },
                Event::Scrubbed(None) => {
                    &&& *final(self) == (Exchange { deserted: true, ..*old(self) })
                    &&& r matches Ok((action, ids)) && ids@ == Seq::<RequestId>::empty() && action
                        == Action::<L>::Wait
                },
                _ => {
                    &&& *final(self) == *old(self)
                    &&& r matches Ok((action, ids)) && ids@ == Seq::<RequestId>::empty() && action
                        == Action::<L>::End
                },
            },
    {
        match event {
            Event::Written { id, op, reply } => {
                let ids = self.written(id, &op);
                let ends = ends_connection(&op);
                if let LdapOp::Raw(raw) = op {
                    let mut raw = raw;
                    Driver::completed(&mut raw);
                }
                release_all(msgmap, &ids);
                if let Some(reply) = reply {
                    let answer = acknowledgement();
                    tell(reply, answer);
                }
                Ok((if ends {
                    Action::End
                } else {
                    Action::Wait
                }, ids))
            },
            Event::Scrubbed(Some(id)) => {
                self.scrubbed(id);
                let ids = only(id);
                release_all(msgmap, &ids);
                Ok((Action::Wait, ids))
            },
            Event::Scrubbed(None) => {
                self.deserted = true;
                Ok((Action::Wait, Vec::new()))
            },
            Event::Request(Some((id, op, tag, controls, reply))) => {
                match self.dequeued(id, &op, reply) {
                    Dequeued::Rejected(error) => {
                        if let LdapOp::Raw(raw) = op {
                            let mut raw = raw;
                            Driver::rejected(&mut raw, error);
                        }
                        Ok((Action::Wait, Vec::new()))
                    },
                    Dequeued::Written(reply) => Ok(
                        (Action::Write { id, op, tag, controls, reply }, Vec::new()),
                    ),
                }
            },
            Event::Response(Some(response)) => match self.response(response) {
                Ok(ids) => {
                    release_all(msgmap, &ids);
                    Ok((Action::Wait, ids))
                },
                Err(e) => Err(e),
            },
            Event::Request(None) | Event::Response(None) | Event::Deserted => Ok(
                (Action::End, Vec::new()),
            ),
        }
    }
}

/// Whether a response was treated as the requests that wait in the raw driver call for.
pub open spec fn raw_routed<L>(
    before: Exchange<L>,
    after: Exchange<L>,
    waiting: Map<RequestId, Pending<L>>,
    left: Map<RequestId, Pending<L>>,
    response: RawResponse,
    r: Result<Seq<RequestId>, Error>,
) -> bool {
    match judged(waiting, response.id, response.operation.id) {
        Err(e) => {
            &&& r == Err::<Seq<RequestId>, Error>(e)
            &&& left == waiting
            &&& after.operation_complete == before.operation_complete
        },
        Ok((complete, _)) => {
            let done = settled(waiting, response.id, complete);
            &&& uncounted(response, r == Err::<Seq<RequestId>, Error>(Error::LimitExceeded))
            &&& match r {
                Ok(ids) => {
                    &&& ids == Seq::<RequestId>::empty()
                    &&& left == done
                    &&& exists|event: RawEvent| #[trigger]
                        offered(before.raw->0.output, event, true) && before.raw->0.charges(
                            response,
                            event,
                        )
                    &&& after.operation_complete == (complete && before.mode == LoopMode::SingleOp)
                },
                Err(e) => {
                    &&& e == Error::LimitExceeded && left == waiting || e
                        == Error::CapacityExhausted && (left == waiting
                        && before.raw->0.lacks_memory(response) || left == done && exists|
                        event: RawEvent,
                    | #[trigger]
                        offered(before.raw->0.output, event, false) && before.raw->0.charges(
                            response,
                            event,
                        ))
                    &&& after.operation_complete == before.operation_complete
                },
            }
        },
    }
}

/// Whether an idle transport can be taken back for an upgrade: no request is queued or in use,
/// nothing is buffered, and the transport was supplied.
pub open spec fn recoverable(
    queue_empty: bool,
    ids_idle: bool,
    read_empty: bool,
    write_empty: bool,
    supplied: bool,
) -> Result<(), Error> {
    if !queue_empty || !ids_idle {
        Err(Error::OperationsRemain)
    } else if !read_empty || !write_empty {
        Err(Error::BufferedPlaintext)
    } else if !supplied {
        Err(Error::SuppliedTransportRequired)
    } else {
        Ok(())
    }
}

pub fn check_recoverable(
    queue_empty: bool,
    ids_idle: bool,
    read_empty: bool,
    write_empty: bool,
    supplied: bool,
) -> (r: Result<(), Error>)
    ensures
        r == recoverable(queue_empty, ids_idle, read_empty, write_empty, supplied),
{
    if !queue_empty || !ids_idle {
        return Err(Error::OperationsRemain);
    }
    if !read_empty || !write_empty {
        return Err(Error::BufferedPlaintext);
    }
    if !supplied {
        return Err(Error::SuppliedTransportRequired);
    }
    Ok(())
}

/// Nothing may be buffered when a connection goes over to TLS.
pub fn check_tls_boundary(read_empty: bool, write_empty: bool) -> (r: Result<(), Error>)
    ensures
        r == if read_empty && write_empty {
            Ok::<(), Error>(())
        } else {
            Err(Error::PlaintextAtTlsBoundary)
        },
{
    if read_empty && write_empty {
        Ok(())
    } else {
        Err(Error::PlaintextAtTlsBoundary)
    }
}

/// Whether no identifier of the connection is in use at the moment. What other tasks left in use
/// by then is left unsaid; [`MessageIds::is_idle`] says what is asked of it.
pub fn ids_idle(msgmap: &Arc<Mutex<MessageIds>>) -> (r: bool)
    ensures
        found_idle(*msgmap, r),
{
    idle_under(msgmap)
}

} // verus!
