//! Bounded raw operations on one connection.
//! The caller owns transport security, authentication, deadlines and task lifetime.
use crate::allocation::{countable, reckoned, request_allocation, response_reckoned};
use crate::asn1::{be_value, Body, Element, StructureTag, Tag, TagClass, PL};
use crate::channels::{
    ask_for, asked_for, channel_bound, clear_flag, clone_sender, connected, enter, events, flagged,
    found_closed, found_free, found_poisoned, free_permits, get_flag, get_number, guarded, issuer,
    locked, looks_closed, made_as, made_with, max_permits, new_semaphore, offer, offered,
    one_channel, paired, pass, permits, read_flag, read_number, recorded_as, sent, set_flag,
    set_number, started_at, tell, told, zero,
};
use crate::controls::RawControl;
use crate::error::Error;
use crate::ids::MessageIds;
use crate::parse::parse_uint;
use crate::protocol::{
    CodecLimits, LdapCodec, LdapOp, RawResponse, Request, RequestId, ResultSender,
};
use crate::write::encodable;
use std::collections::HashMap;
use std::sync::atomic::{AtomicBool, AtomicUsize};
use std::sync::{Arc, Mutex, MutexGuard};
use tokio::sync::{mpsc, oneshot, OwnedSemaphorePermit, Semaphore};
use vstd::prelude::*;

verus! {

broadcast use vstd::std_specs::hash::group_hash_axioms;

/// Limits that all handles of one connection share.
#[derive(Clone, Copy, Debug)]
pub struct DriverLimits {
    pub codec: CodecLimits,
    pub maximum_outstanding: usize,
    pub maximum_request_bytes: usize,
    pub maximum_response_bytes: usize,
    pub maximum_response_items: usize,
}

/// A number of permits that a semaphore can have, and that can be taken at once.
pub open spec fn is_permit_count(n: usize) -> bool {
    1 <= n <= u32::MAX && n <= usize::MAX / 8
}

impl DriverLimits {
    pub open spec fn valid(self) -> bool {
        &&& self.codec.valid()
        &&& is_permit_count(self.maximum_outstanding)
        &&& is_permit_count(self.maximum_request_bytes)
        &&& is_permit_count(self.maximum_response_bytes)
        &&& is_permit_count(self.maximum_response_items)
    }

    pub fn validate(self) -> (r: Result<Self, Error>)
        ensures
            r == if !self.codec.valid() {
                Err::<Self, Error>(Error::InvalidCodecLimits)
            } else if !self.valid() {
                Err(Error::InvalidDriverLimits)
            } else {
                Ok(self)
            },
    {
        if let Err(e) = LdapCodec::new(self.codec) {
            return Err(e);
        }
        if !fits_semaphore(self.maximum_outstanding) || !fits_semaphore(self.maximum_request_bytes)
            || !fits_semaphore(self.maximum_response_bytes) || !fits_semaphore(
            self.maximum_response_items,
        ) {
            return Err(Error::InvalidDriverLimits);
        }
        Ok(self)
    }
}

fn fits_semaphore(n: usize) -> (r: bool)
    ensures
        r == is_permit_count(n),
{
    n != 0 && n <= u32::MAX as usize && n <= max_permits()
}

/// What a request is answered with.
#[derive(Clone, Copy, Debug, PartialEq, Eq, Structural)]
pub enum Kind {
    Reply(u64),
    Search,
    Abandon(RequestId),
    Unbind,
}

/// The identifier that an Abandon names.
pub open spec fn abandoned_by(bytes: Seq<u8>) -> Option<int> {
    if 1 <= bytes.len() <= 4 && bytes[0] < 128 && be_value(bytes) > 0 {
        Some(be_value(bytes) as int)
    } else {
        None
    }
}

/// The kind of a request.
pub open spec fn kind_of(e: Element) -> Result<Kind, Error> {
    if e.class != TagClass::Application {
        Err(Error::OperationNotApplication)
    } else if e.id == 0 {
        Ok(Kind::Reply(1))
    } else if e.id == 3 {
        Ok(Kind::Search)
    } else if e.id == 6 || e.id == 8 || e.id == 10 || e.id == 12 || e.id == 14 || e.id == 23 {
        Ok(Kind::Reply((e.id + 1) as u64))
    } else if e.id == 2 {
        if e.body is Bytes && e.body->Bytes_0.len() == 0 {
            Ok(Kind::Unbind)
        } else {
            Err(Error::InvalidUnbind)
        }
    } else if e.id == 16 {
        match e.body {
            Body::Children(_) => Err(Error::InvalidAbandon),
            Body::Bytes(bytes) => match abandoned_by(bytes) {
                Some(id) => Ok(Kind::Abandon(id as i32)),
                None => Err(Error::InvalidAbandonIdentifier),
            },
        }
    } else {
        Err(Error::UnsupportedOperation)
    }
}

/// Four bytes with a leading zero bit stand for a number that is not negative.
pub proof fn lemma_small_value(bytes: Seq<u8>)
    requires
        1 <= bytes.len() <= 4,
        bytes[0] < 128,
    ensures
        be_value(bytes) <= i32::MAX,
{
    reveal_with_fuel(be_value, 5);
}

impl Kind {
    pub(crate) fn from_tag(tag: &StructureTag) -> (r: Result<Self, Error>)
        ensures
            r == kind_of(tag@),
    {
        if tag.class != TagClass::Application {
            return Err(Error::OperationNotApplication);
        }
        match tag.id {
            0 => Ok(Kind::Reply(1)),
            3 => Ok(Kind::Search),
            6 => Ok(Kind::Reply(7)),
            8 => Ok(Kind::Reply(9)),
            10 => Ok(Kind::Reply(11)),
            12 => Ok(Kind::Reply(13)),
            14 => Ok(Kind::Reply(15)),
            23 => Ok(Kind::Reply(24)),
            2 => match &tag.payload {
                PL::P(v) if v.len() == 0 => Ok(Kind::Unbind),
                _ => Err(Error::InvalidUnbind),
            },
            16 => match &tag.payload {
                PL::P(v) => {
                    if v.len() == 0 || v.len() > 4 || v[0] >= 128 {
                        return Err(Error::InvalidAbandonIdentifier);
                    }
                    proof {
                        lemma_small_value(v@);
                    }
                    match parse_uint(v.as_slice()) {
                        Ok((_, id)) if id > 0 => Ok(Kind::Abandon(id as i32)),
                        _ => Err(Error::InvalidAbandonIdentifier),
                    }
                },
                PL::C(_) => Err(Error::InvalidAbandon),
            },
            _ => Err(Error::UnsupportedOperation),
        }
    }

    /// Whether a response of that number answers the request, and whether it is the last one.
    pub open spec fn answered_by(self, tag: u64) -> Result<bool, Error> {
        if tag == 25 {
            Ok(false)
        } else if self == Kind::Reply(tag) {
            Ok(true)
        } else if self == Kind::Search && (tag == 4 || tag == 5 || tag == 19) {
            Ok(tag == 5)
        } else {
            Err(Error::ResponseMismatch)
        }
    }

    pub(crate) fn response(self, tag: u64) -> (r: Result<bool, Error>)
        ensures
            r == self.answered_by(tag),
    {
        if tag == 25 {
            return Ok(false);
        }
        match self {
            Kind::Reply(expected) if expected == tag => Ok(true),
            Kind::Search if tag == 4 || tag == 5 || tag == 19 => Ok(tag == 5),
            _ => Err(Error::ResponseMismatch),
        }
    }
}

/// Whether a command was handed to the transport.
#[derive(Debug)]
pub struct DispatchStatus(Arc<AtomicBool>);

impl Clone for DispatchStatus {
    fn clone(&self) -> (r: Self)
        ensures
            r.recorded() == self.recorded(),
    {
        DispatchStatus(self.0.clone())
    }
}

impl DispatchStatus {
    /// Where the connection records that the command was handed to the transport.
    pub closed spec fn recorded(self) -> Arc<AtomicBool> {
        self.0
    }

    /// What the connection last recorded, at the moment of the call.
    pub fn was_dispatched(&self) -> (r: bool)
        ensures
            read_flag(*self.recorded(), r),
    {
        get_flag(&self.0)
    }
}

/// A command accepted into the bounded library queue. A dropped receipt does
/// not undo or cancel dispatch. A message on `written` establishes physical flush only.
pub struct RawDispatch {
    pub id: RequestId,
    pub written: oneshot::Receiver<Result<(), Error>>,
    pub dispatched: Arc<AtomicBool>,
}

impl RawDispatch {
    /// What the connection last recorded, at the moment of the call.
    pub fn was_dispatched(&self) -> (r: bool)
        ensures
            read_flag(*self.dispatched, r),
    {
        get_flag(&self.dispatched)
    }

    pub fn status(&self) -> (r: DispatchStatus)
        ensures
            r.recorded() == self.dispatched,
    {
        DispatchStatus(self.dispatched.clone())
    }
}

/// Response capacity remains charged until this event is dropped, even after
/// receiving it from the queue. No response or operation is silently discarded.
pub struct RawEvent {
    pub response: RawResponse,
    pub complete: bool,
    pub abandon_requested: bool,
    /// The capacity that is charged.
    pub memory: OwnedSemaphorePermit,
}

/// The receiving end for events.
pub struct RawResponses(pub mpsc::Receiver<RawEvent>);

/// A request on its way to the transport. `L` keeps its identifier in use while it exists.
pub struct RawOperation<L> {
    pub kind: Kind,
    pub lease: Arc<L>,
    pub memory: OwnedSemaphorePermit,
    pub written: Option<oneshot::Sender<Result<(), Error>>>,
    pub dispatched: Arc<AtomicBool>,
}

/// A request that waits for its last response.
pub struct Pending<L> {
    pub kind: Kind,
    pub abandoned: bool,
    pub lease: Arc<L>,
}

/// The requests of one connection that wait for responses.
pub struct Driver<L> {
    pub pending: HashMap<RequestId, Pending<L>>,
    pub storage: Arc<AtomicUsize>,
    pub output: mpsc::Sender<RawEvent>,
    pub responses: Arc<Semaphore>,
    pub uncertain: Arc<AtomicBool>,
}

/// What remains of the requests that wait, once this one was handed on.
pub open spec fn registered<L>(
    pending: Map<RequestId, Pending<L>>,
    id: RequestId,
    kind: Kind,
    lease: Arc<L>,
) -> Result<Map<RequestId, Pending<L>>, Error> {
    match kind {
        Kind::Abandon(target) => if pending.contains_key(target) {
            Ok(pending.insert(target, Pending { abandoned: true, ..pending[target] }))
        } else {
            Err(Error::AbandonTargetNotOutstanding)
        },
        Kind::Unbind => Ok(pending),
        _ => Ok(pending.insert(id, Pending { kind, abandoned: false, lease })),
    }
}

/// Whether a response is the last one to its request, and whether that was abandoned.
pub open spec fn judged<L>(
    pending: Map<RequestId, Pending<L>>,
    id: RequestId,
    operation: u64,
) -> Result<(bool, bool), Error> {
    if id == 0 {
        if operation == 24 {
            Ok((false, false))
        } else {
            Err(Error::InvalidUnsolicited)
        }
    } else if !pending.contains_key(id) {
        Err(Error::NoOutstandingIdentifier)
    } else {
        match pending[id].kind.answered_by(operation) {
            Ok(complete) => Ok((complete, pending[id].abandoned)),
            Err(e) => Err(e),
        }
    }
}

/// Whether a response is refused for its size just where its bytes cannot be counted, with the
/// capacities that it was found to have. An operation with too many levels or nodes, or one that
/// cannot be written, is refused whatever they are.
pub open spec fn uncounted(response: RawResponse, refused: bool) -> bool {
    &&& exists|size: Result<usize, Error>| #[trigger]
        response_reckoned(response, size) && (size is Err <==> refused)
    &&& !countable(response.operation@) || !encodable(response.operation@) ==> refused
}

/// The requests that still wait after a response.
pub open spec fn settled<L>(
    pending: Map<RequestId, Pending<L>>,
    id: RequestId,
    complete: bool,
) -> Map<RequestId, Pending<L>> {
    if complete {
        pending.remove(id)
    } else {
        pending
    }
}

/// Takes as many permits as bytes, if that many can be had at the moment. More than a semaphore
/// can give at once are never taken; whether fewer are free depends on what other tasks hold.
fn reserve(semaphore: &Arc<Semaphore>, bytes: usize) -> (r: Option<OwnedSemaphorePermit>)
    ensures
        if bytes > u32::MAX || bytes > usize::MAX / 8 {
            r is None
        } else {
            asked_for(*semaphore, bytes as u32, r)
        },
        r matches Some(permit) ==> permits(&permit) == bytes && issuer(&permit) == *semaphore,
{
    if bytes > u32::MAX as usize || bytes > max_permits() {
        return None;
    }
    ask_for(semaphore, bytes as u32)
}

/// `HashMap::capacity`: at least the number of entries. How much more there is depends on the
/// allocator.
#[verifier::external_body]
fn map_capacity<V>(map: &HashMap<RequestId, V>) -> (r: usize)
    ensures
        r >= map@.len(),
{
    map.capacity()
}

/// Bytes of the read buffer and of a table of requests with so many places.
pub open spec fn storage_total<L>(buffered: usize, places: usize) -> int {
    capped(buffered + places * (vstd::layout::size_of::<(RequestId, Pending<L>)>() + 32))
}

/// Bytes of the read buffer and of a table of requests with so many places.
pub fn storage_bytes<L>(buffered: usize, places: usize) -> (r: usize)
    ensures
        r == storage_total::<L>(buffered, places),
{
    vstd::layout::layout_for_type_is_valid::<(RequestId, Pending<L>)>();
    let place: usize = core::mem::size_of::<(RequestId, Pending<L>)>() + 32;
    buffered.saturating_add(product(places, place))
}

/// The product, or the greatest number where it is greater.
fn product(a: usize, b: usize) -> (r: usize)
    ensures
        r == if a * b <= usize::MAX {
            a * b
        } else {
            usize::MAX as int
        },
{
    match a.checked_mul(b) {
        Some(c) => c,
        None => usize::MAX,
    }
}

/// What the submitter of a request is told, and where.
pub type Receipt = (oneshot::Sender<Result<(), Error>>, Result<(), Error>);

/// The receipt for an outcome, if none was given yet.
pub open spec fn receipt_of<L>(op: RawOperation<L>, outcome: Result<(), Error>) -> Option<Receipt> {
    match op.written {
        Some(sender) => Some((sender, outcome)),
        None => None,
    }
}

/// Takes the receipt for an outcome out of a request. There is one at most.
pub fn receipt<L>(op: &mut RawOperation<L>, outcome: Result<(), Error>) -> (r: Option<Receipt>)
    ensures
        r == receipt_of(*old(op), outcome),
        *final(op) == (RawOperation { written: None, ..*old(op) }),
{
    match op.written.take() {
        Some(sender) => Some((sender, outcome)),
        None => None,
    }
}

/// The receipt for a request that was refused.
pub fn rejection<L>(op: &mut RawOperation<L>, error: Error) -> (r: Option<Receipt>)
    ensures
        r == receipt_of(*old(op), Err(error)),
        *final(op) == (RawOperation { written: None, ..*old(op) }),
{
    receipt(op, Err(error))
}

/// The receipt for a request that was written.
pub fn completion<L>(op: &mut RawOperation<L>) -> (r: Option<Receipt>)
    ensures
        r == receipt_of(*old(op), Ok(())),
        *final(op) == (RawOperation { written: None, ..*old(op) }),
{
    receipt(op, Ok(()))
}

/// Hands a receipt to the submitter, who may be gone.
fn hand_over(receipt: Option<Receipt>)
    ensures
        receipt matches Some((sender, outcome)) ==> told(sender, outcome),
{
    if let Some((sender, outcome)) = receipt {
        tell(sender, outcome);
    }
}

/// What comes of an event that was put into the queue, or found no place there.
pub fn delivered(complete: bool, taken: bool) -> (r: Result<bool, Error>)
    ensures
        r == if taken {
            Ok::<bool, Error>(complete)
        } else {
            Err(Error::CapacityExhausted)
        },
{
    if taken {
        Ok(complete)
    } else {
        Err(Error::CapacityExhausted)
    }
}

impl<L> Driver<L> {
    /// A connection without requests, the handle to submit some, and the receiving end for
    /// events.
    pub fn new(
        msgmap: Arc<Mutex<MessageIds>>,
        tx: mpsc::UnboundedSender<Request<L>>,
        limits: DriverLimits,
    ) -> (r: (Self, RawHandle<L>, RawResponses))
        requires
            limits.valid(),
        ensures
            r.0.pending@ == Map::<RequestId, Pending<L>>::empty(),
            r.1.limits() == limits,
            r.1.shared_ids() == msgmap,
            r.1.queue() == tx,
            r.1.watches(r.0),
            r.1.uncertainty() == r.0.uncertain,
            made_as(*r.0.uncertain, false),
            started_at(*r.0.storage, 0),
            made_with(&*r.1.slots()) == limits.maximum_outstanding,
            made_with(&*r.1.request_bytes()) == limits.maximum_request_bytes,
            made_with(&*r.0.responses) == limits.maximum_response_bytes,
            channel_bound(&r.0.output) == limits.maximum_response_items,
            connected(r.0.output, (r.2).0),
    {
        let (output, receiver) = events(limits.maximum_response_items);
        let uncertain = clear_flag();
        let responses = Arc::new(new_semaphore(limits.maximum_response_bytes));
        let storage = zero();
        (
            Driver {
                pending: HashMap::new(),
                output,
                responses: responses.clone(),
                storage: storage.clone(),
                uncertain: uncertain.clone(),
            },
            RawHandle {
                msgmap,
                tx,
                limits,
                outstanding: Arc::new(new_semaphore(limits.maximum_outstanding)),
                requests: Arc::new(new_semaphore(limits.maximum_request_bytes)),
                responses,
                storage,
                uncertain,
            },
            RawResponses(receiver),
        )
    }

    /// Whether the table of requests was found to have room for so many.
    pub closed spec fn has_room(self, places: usize) -> bool {
        call_ensures(map_capacity::<Pending<L>>, (&self.pending,), places)
    }

    /// Records how much memory the read buffer and the table of requests take.
    pub fn observe_buffers(&self, bytes: usize)
        ensures
            exists|places: usize, total: usize|
                #[trigger] recorded_as(*self.storage, total) && places >= self.pending@.len()
                    && self.has_room(places) && total == #[trigger] storage_total::<L>(
                    bytes,
                    places,
                ),
    {
        let places: usize = map_capacity(&self.pending);
        let total: usize = storage_bytes::<L>(bytes, places);
        set_number(&self.storage, total);
        assert(recorded_as(*self.storage, total) && total == storage_total::<L>(bytes, places));
    }

    /// Whether only the requests that wait differ.
    pub open spec fn same_ends(self, other: Self) -> bool {
        &&& self.storage == other.storage
        &&& self.output == other.output
        &&& self.responses == other.responses
        &&& self.uncertain == other.uncertain
    }

    /// Lets a request wait for its responses, or marks the one that it abandons.
    pub fn register(&mut self, id: RequestId, op: &RawOperation<L>) -> (r: Result<(), Error>)
        ensures
            match registered(old(self).pending@, id, op.kind, op.lease) {
                Ok(pending) => r is Ok && final(self).pending@ == pending,
                Err(e) => r == Err::<(), Error>(e) && final(self).pending@ == old(self).pending@,
            },
            final(self).same_ends(*old(self)),
    {
        match op.kind {
            Kind::Abandon(target) => match self.pending.remove(&target) {
                Some(pending) => {
                    let ghost before = old(self).pending@;
                    self.pending.insert(
                        target,
                        Pending { kind: pending.kind, abandoned: true, lease: pending.lease },
                    );
                    assert(self.pending@ =~= before.insert(
                        target,
                        Pending { abandoned: true, ..before[target] },
                    ));
                    Ok(())
                },
                None => {
                    assert(self.pending@ =~= old(self).pending@);
                    Err(Error::AbandonTargetNotOutstanding)
                },
            },
            Kind::Unbind => Ok(()),
            kind => {
                self.pending.insert(
                    id,
                    Pending { kind, abandoned: false, lease: op.lease.clone() },
                );
                Ok(())
            },
        }
    }

    /// Tells the submitter that its request was refused.
    pub fn rejected(op: &mut RawOperation<L>, error: Error)
        ensures
            *final(op) == (RawOperation { written: None, ..*old(op) }),
            old(op).written matches Some(sender) ==> told(sender, Err::<(), Error>(error)),
    {
        hand_over(rejection(op, error));
    }

    /// Records that the request was handed to the transport.
    pub fn started(op: &RawOperation<L>)
        ensures
            flagged(*op.dispatched, true),
    {
        set_flag(&op.dispatched);
    }

    /// Tells the submitter that its request was written.
    pub fn completed(op: &mut RawOperation<L>)
        ensures
            *final(op) == (RawOperation { written: None, ..*old(op) }),
            old(op).written matches Some(sender) ==> told(sender, Ok::<(), Error>(())),
    {
        hand_over(completion(op));
    }

    /// Whether the response is the last one to its request, and whether that was abandoned.
    pub fn judge(&self, response: &RawResponse) -> (r: Result<(bool, bool), Error>)
        ensures
            r == judged(self.pending@, response.id, response.operation.id),
    {
        if response.id == 0 {
            if response.operation.id != 24 {
                return Err(Error::InvalidUnsolicited);
            }
            return Ok((false, false));
        }
        match self.pending.get(&response.id) {
            None => Err(Error::NoOutstandingIdentifier),
            Some(pending) => match pending.kind.response(response.operation.id) {
                Ok(complete) => Ok((complete, pending.abandoned)),
                Err(e) => Err(e),
            },
        }
    }

    /// The event for a response that memory was set aside for. Its request waits no longer if it
    /// was the last one. A response that answers no request, or that no memory could be set
    /// aside for, changes nothing.
    pub fn accept(&mut self, response: RawResponse, memory: Option<OwnedSemaphorePermit>) -> (r:
        Result<RawEvent, Error>)
        ensures
            match (judged(old(self).pending@, response.id, response.operation.id), memory) {
                (Err(e), _) => r == Err::<RawEvent, Error>(e) && final(self).pending@ == old(
                    self,
                ).pending@,
                (Ok(_), None) => r == Err::<RawEvent, Error>(Error::CapacityExhausted)
                    && final(self).pending@ == old(self).pending@,
                (Ok((complete, abandon_requested)), Some(memory)) => {
                    &&& r == Ok::<RawEvent, Error>(
                        RawEvent { response, complete, abandon_requested, memory },
                    )
                    &&& final(self).pending@ == settled(
                        old(self).pending@,
                        response.id,
                        complete,
                    )
                },
            },
            final(self).same_ends(*old(self)),
    {
        let (complete, abandon_requested) = match self.judge(&response) {
            Ok(judgement) => judgement,
            Err(e) => return Err(e),
        };
        let memory = match memory {
            Some(memory) => memory,
            None => return Err(Error::CapacityExhausted),
        };
        if complete {
            self.pending.remove(&response.id);
        }
        Ok(RawEvent { response, complete, abandon_requested, memory })
    }

    /// Whether there was no permit for each byte of the response.
    pub open spec fn lacks_memory(self, response: RawResponse) -> bool {
        exists|bytes: usize| #[trigger]
            response_reckoned(response, Ok::<usize, Error>(bytes)) && lacking(
                self.responses,
                bytes,
            )
    }

    /// Whether an event is that of a response to a request that waits: it says whether the request
    /// is complete and was abandoned, and holds a permit of the driver for each byte.
    pub open spec fn charges(self, response: RawResponse, event: RawEvent) -> bool {
        &&& event.response == response
        &&& judged(self.pending@, response.id, response.operation.id) == Ok::<(bool, bool), Error>(
            (event.complete, event.abandon_requested),
        )
        &&& issuer(&event.memory) == self.responses
        &&& exists|bytes: usize| #[trigger]
            response_reckoned(response, Ok::<usize, Error>(bytes)) && permits(&event.memory)
                == bytes
    }

    /// The event for a response, which holds a permit for each byte that the response keeps in
    /// memory. Its request waits no longer if it was the last one. Where the response answers no
    /// request, or not as many permits can be had, nothing changes.
    ///
    /// The capacities that the response holds are the allocator's, and how many permits are free
    /// depends on the events that were not dropped yet.
    #[verifier::rlimit(30)]
    pub fn charged(&mut self, response: RawResponse) -> (r: Result<RawEvent, Error>)
        ensures
            final(self).same_ends(*old(self)),
            r is Err ==> final(self).pending@ == old(self).pending@,
            match judged(old(self).pending@, response.id, response.operation.id) {
                Err(e) => r == Err::<RawEvent, Error>(e),
                Ok((complete, abandoned)) => exists|size: Result<usize, Error>|
                    #[trigger] response_reckoned(response, size) && match (size, r) {
                        (Err(e), _) => r == Err::<RawEvent, Error>(e),
                        (Ok(bytes), Ok(event)) => {
                            &&& bytes <= u32::MAX && bytes <= usize::MAX / 8
                            &&& event.response == response
                            &&& event.complete == complete
                            &&& event.abandon_requested == abandoned
                            &&& permits(&event.memory) == bytes
                            &&& issuer(&event.memory) == old(self).responses
                            &&& final(self).pending@ == settled(
                                old(self).pending@,
                                response.id,
                                complete,
                            )
                        },
                        (Ok(bytes), Err(e)) => e == Error::CapacityExhausted && lacking(
                            old(self).responses,
                            bytes,
                        ),
                    },
            },
    {
        if let Err(e) = self.judge(&response) {
            return Err(e);
        }
        let size = response.allocation_bytes();
        assert(response_reckoned(response, size));
        match size {
            Ok(bytes) => {
                let memory = reserve(&self.responses, bytes);
                self.accept(response, memory)
            },
            Err(e) => Err(e),
        }
    }

    /// Hands a response on, and tells whether it was the last one to its request.
    ///
    /// Whether there is memory and a place in the queue for it depends on the receiver. Without
    /// memory nothing changes; without a place the event is lost, and the connection ends.
    #[verifier::rlimit(30)]
    pub fn response(&mut self, response: RawResponse) -> (r: Result<bool, Error>)
        ensures
            final(self).same_ends(*old(self)),
            match judged(old(self).pending@, response.id, response.operation.id) {
                Err(e) => r == Err::<bool, Error>(e) && final(self).pending@ == old(self).pending@,
                Ok((complete, _)) => {
                    let done = settled(old(self).pending@, response.id, complete);
                    &&& uncounted(response, r == Err::<bool, Error>(Error::LimitExceeded))
                    &&& match r {
                        Ok(last) => last == complete && final(self).pending@ == done && exists|
                            event: RawEvent,
                        | #[trigger]
                            offered(old(self).output, event, true) && old(self).charges(
                                response,
                                event,
                            ),
                        Err(Error::LimitExceeded) => final(self).pending@ == old(self).pending@,
                        Err(e) => {
                            &&& e == Error::CapacityExhausted
                            &&& {
                                ||| final(self).pending@ == old(self).pending@ && old(
                                    self,
                                ).lacks_memory(response)
                                ||| final(self).pending@ == done && exists|event: RawEvent|
                                    #[trigger] offered(old(self).output, event, false) && old(
                                        self,
                                    ).charges(response, event)
                            }
                        },
                    }
                },
            },
    {
        let charge = self.charged(response);
        proof {
            if judged(old(self).pending@, response.id, response.operation.id) is Ok {
                let size = choose|size: Result<usize, Error>| #[trigger]
                    response_reckoned(response, size) && (size matches Err(e) ==> charge == Err::<
                        RawEvent,
                        Error,
                    >(e)) && (size is Ok && charge is Err ==> charge->Err_0
                        == Error::CapacityExhausted);
                assert(response_reckoned(response, size));
            }
        }
        match charge {
            Ok(event) => {
                let complete = event.complete;
                let taken = offer(&self.output, event);
                assert(offered(old(self).output, event, taken) && old(self).charges(
                    response,
                    event,
                ));
                delivered(complete, taken)
            },
            Err(e) => Err(e),
        }
    }

    /// Records that the connection ended. Requests that still wait have an unknown outcome.
    pub fn ended(&self) -> (r: bool)
        ensures
            r == !self.pending@.is_empty(),
            r ==> flagged(*self.uncertain, true),
    {
        if !self.pending.is_empty() {
            set_flag(&self.uncertain);
            return true;
        }
        false
    }
}

/// Submits requests to one connection. All clones share its limits.
#[verifier::reject_recursive_types(L)]
pub struct RawHandle<L> {
    msgmap: Arc<Mutex<MessageIds>>,
    tx: mpsc::UnboundedSender<Request<L>>,
    limits: DriverLimits,
    outstanding: Arc<Semaphore>,
    requests: Arc<Semaphore>,
    responses: Arc<Semaphore>,
    storage: Arc<AtomicUsize>,
    uncertain: Arc<AtomicBool>,
}

impl<L> Clone for RawHandle<L> {
    fn clone(&self) -> (r: Self)
        ensures
            r == *self,
    {
        RawHandle {
            msgmap: self.msgmap.clone(),
            tx: clone_sender(&self.tx),
            limits: self.limits,
            outstanding: self.outstanding.clone(),
            requests: self.requests.clone(),
            responses: self.responses.clone(),
            storage: self.storage.clone(),
            uncertain: self.uncertain.clone(),
        }
    }
}

/// A number, or the greatest that can be counted.
pub open spec fn capped(total: int) -> int {
    if total <= usize::MAX {
        total
    } else {
        usize::MAX as int
    }
}

/// What is missing of so many permits.
pub open spec fn taken(all: usize, free: nat) -> int {
    if free < all {
        all - free
    } else {
        0
    }
}

/// Bytes that are reserved and resident: what is missing of the permits for requests and
/// responses, the recorded storage, and the table of identifiers.
pub open spec fn reserved_total(
    limits: DriverLimits,
    free_requests: nat,
    free_responses: nat,
    storage: nat,
    id_places: nat,
) -> int {
    capped(
        taken(limits.maximum_request_bytes, free_requests) + taken(
            limits.maximum_response_bytes,
            free_responses,
        ) + storage + id_places * 16,
    )
}

/// Bytes that are reserved and resident.
pub fn reserved_bytes(
    limits: DriverLimits,
    free_requests: usize,
    free_responses: usize,
    storage: usize,
    id_places: usize,
) -> (r: usize)
    ensures
        r == reserved_total(
            limits,
            free_requests as nat,
            free_responses as nat,
            storage as nat,
            id_places as nat,
        ),
{
    limits.maximum_request_bytes.saturating_sub(free_requests).saturating_add(
        limits.maximum_response_bytes.saturating_sub(free_responses),
    ).saturating_add(storage).saturating_add(product(id_places, 16))
}

/// A request that was admitted: its identifier and kind, and the permits that it holds.
pub struct Admission {
    pub id: RequestId,
    pub kind: Kind,
    pub memory: OwnedSemaphorePermit,
    pub slot: OwnedSemaphorePermit,
}

/// The kind of a request for a connection that may be closed.
pub fn check_request(closed: bool, operation: &StructureTag) -> (r: Result<Kind, Error>)
    ensures
        r == if closed {
            Err(Error::DriverClosed)
        } else {
            kind_of(operation@)
        },
{
    if closed {
        Err(Error::DriverClosed)
    } else {
        Kind::from_tag(operation)
    }
}

/// A request is admitted with all it needs: memory, a slot and an identifier.
pub fn grant(
    kind: Kind,
    memory: Option<OwnedSemaphorePermit>,
    slot: Option<OwnedSemaphorePermit>,
    id: Result<RequestId, Error>,
) -> (r: Result<Admission, Error>)
    ensures
        r == match (memory, slot, id) {
            (Some(memory), Some(slot), Ok(id)) => Ok::<Admission, Error>(
                Admission { id, kind, memory, slot },
            ),
            (Some(_), Some(_), Err(e)) => Err(e),
            _ => Err(Error::CapacityExhausted),
        },
{
    match (memory, slot) {
        (Some(memory), Some(slot)) => match id {
            Ok(id) => Ok(Admission { id, kind, memory, slot }),
            Err(e) => Err(e),
        },
        _ => Err(Error::CapacityExhausted),
    }
}

/// Admits a request, and gives it an identifier, if it has memory and a slot. A request that is
/// refused uses up no identifier.
pub fn allot(
    kind: Kind,
    memory: Option<OwnedSemaphorePermit>,
    slot: Option<OwnedSemaphorePermit>,
    ids: &mut MessageIds,
) -> (r: Result<Admission, Error>)
    ensures
        r is Err ==> *final(ids) == *old(ids),
        match (memory, slot) {
            (Some(memory), Some(slot)) => if old(ids).last() == i32::MAX {
                r == Err::<Admission, Error>(Error::IdentifiersExhausted)
            } else {
                let id = (old(ids).last() + 1) as RequestId;
                &&& r == Ok::<Admission, Error>(Admission { id, kind, memory, slot })
                &&& id >= 1
                &&& final(ids).last() == id
                &&& final(ids).in_use() == old(ids).in_use().insert(id)
            },
            _ => r == Err::<Admission, Error>(Error::CapacityExhausted),
        },
        r matches Ok(admission) ==> draws(*old(ids), Ok(admission.id)),
        r == Err::<Admission, Error>(Error::IdentifiersExhausted) ==> draws(
            *old(ids),
            Err(Error::IdentifiersExhausted),
        ),
{
    let id = if memory.is_some() && slot.is_some() {
        ids.next_msgid()
    } else {
        Err(Error::CapacityExhausted)
    };
    grant(kind, memory, slot, id)
}

/// Whether the identifiers were found in this state under the lock.
pub closed spec fn found_under(msgmap: Arc<Mutex<MessageIds>>, found: MessageIds) -> bool {
    exists|opened: &mut MutexGuard<'_, MessageIds>, held: &mut MessageIds| #[trigger]
        call_ensures(guarded::<MessageIds>, (opened,), held) && locked(msgmap, *opened) && *held
            == found
}

/// Whether identifiers in this state were asked for the next one, with this outcome.
pub open spec fn draws(before: MessageIds, id: Result<RequestId, Error>) -> bool {
    exists|held: &mut MessageIds, r: Result<RequestId, Error>| #[trigger]
        call_ensures(MessageIds::next_msgid, (held,), r) && r == id && *held == before
}

/// Whether the identifiers of the connection were asked for the next one under their lock, with
/// this outcome.
pub open spec fn drawn(msgmap: Arc<Mutex<MessageIds>>, id: Result<RequestId, Error>) -> bool {
    exists|found: MessageIds| #[trigger] found_under(msgmap, found) && draws(found, id)
}

/// Whether identifiers of the connection were taken out of use under their lock, unless a holder
/// of it panicked.
pub open spec fn released(msgmap: Arc<Mutex<MessageIds>>, ids: Vec<RequestId>) -> bool {
    ||| ids@.len() == 0
    ||| found_poisoned(msgmap)
    ||| exists|held: &mut MessageIds, r: ()| #[trigger]
        call_ensures(MessageIds::release_each, (held, &ids), r) && found_under(msgmap, *held)
}

/// Takes identifiers of the connection out of use.
pub(crate) fn release_under(msgmap: &Arc<Mutex<MessageIds>>, ids: &Vec<RequestId>)
    ensures
        released(*msgmap, *ids),
{
    if ids.len() > 0 {
        if let Some(guard) = enter(msgmap) {
            let mut guard = guard;
            let held = guarded(&mut guard);
            assert(found_under(*msgmap, *held));
            held.release_each(ids);
        }
    }
}

/// Whether identifiers of the connection were found in use under their lock, or not. Where a
/// holder of the lock panicked they count as in use.
pub open spec fn found_idle(msgmap: Arc<Mutex<MessageIds>>, idle: bool) -> bool {
    ||| found_poisoned(msgmap) && !idle
    ||| exists|found: MessageIds| #[trigger]
        found_under(msgmap, found) && idle == found.in_use().is_empty()
}

/// Whether no identifier of the connection is in use at the moment.
pub(crate) fn idle_under(msgmap: &Arc<Mutex<MessageIds>>) -> (r: bool)
    ensures
        found_idle(*msgmap, r),
{
    match enter(msgmap) {
        Some(guard) => {
            let mut guard = guard;
            let held = guarded(&mut guard);
            assert(found_under(*msgmap, *held));
            held.is_idle()
        },
        None => false,
    }
}

/// Whether there was room for so many identifiers of the connection. Where a holder of the lock
/// panicked none is counted.
pub open spec fn had_places(msgmap: Arc<Mutex<MessageIds>>, places: usize) -> bool {
    ||| found_poisoned(msgmap) && places == 0
    ||| exists|found: MessageIds| #[trigger] found_under(msgmap, found) && found.has_room(places)
}

fn id_places(msgmap: &Arc<Mutex<MessageIds>>) -> (r: usize)
    ensures
        had_places(*msgmap, r),
{
    match enter(msgmap) {
        Some(guard) => {
            let mut guard = guard;
            let held = guarded(&mut guard);
            assert(found_under(*msgmap, *held));
            held.places()
        },
        None => 0,
    }
}

/// Whether a request in the queue is the one that a receipt is for: under the same identifier, with
/// this operation and these controls, of this kind, with this memory and lease, and with the flag
/// that the receipt reads.
pub open spec fn carries<L>(
    request: Request<L>,
    dispatch: RawDispatch,
    kind: Kind,
    memory: OwnedSemaphorePermit,
    lease: Arc<L>,
    operation: StructureTag,
    controls: Vec<RawControl>,
) -> bool {
    &&& request.0 == dispatch.id
    &&& request.1 matches LdapOp::Raw(raw) && raw.kind == kind && raw.memory == memory && raw.lease
        == lease && raw.dispatched == dispatch.dispatched && (raw.written matches Some(sender)
        && paired(sender, dispatch.written))
    &&& request.2 == Tag::StructureTag(operation)
    &&& request.3 == Some(controls)
}

/// A request as it stands in the queue, and the receipt for it. Both ends of `written` belong to
/// one channel, and both sides share `dispatched`.
pub fn prepare<L>(
    admission: (RequestId, Kind, OwnedSemaphorePermit),
    lease: Arc<L>,
    operation: StructureTag,
    controls: Vec<RawControl>,
    written: (oneshot::Sender<Result<(), Error>>, oneshot::Receiver<Result<(), Error>>),
    dispatched: Arc<AtomicBool>,
    reply: ResultSender,
) -> (r: (Request<L>, RawDispatch))
    ensures
        ({
            let (id, kind, memory) = admission;
            let raw = RawOperation { kind, lease, memory, written: Some(written.0), dispatched };
            &&& r.0 == (
                id,
                LdapOp::Raw(raw),
                Tag::StructureTag(operation),
                Some(controls),
                reply,
            )
            &&& r.1 == (RawDispatch { id, written: written.1, dispatched })
        }),
{
    let (id, kind, memory) = admission;
    let (sender, receipt) = written;
    let raw = RawOperation {
        kind,
        lease,
        memory,
        written: Some(sender),
        dispatched: dispatched.clone(),
    };
    (
        (id, LdapOp::Raw(raw), Tag::StructureTag(operation), Some(controls), reply),
        RawDispatch { id, written: receipt, dispatched },
    )
}

impl<L> RawHandle<L> {
    pub closed spec fn limits(self) -> DriverLimits {
        self.limits
    }

    /// Whether the handle reads what the driver records: the permits for responses, the storage,
    /// and whether the outcome of a request is unknown.
    pub closed spec fn watches(self, driver: Driver<L>) -> bool {
        &&& self.responses == driver.responses
        &&& self.storage == driver.storage
        &&& self.uncertain == driver.uncertain
    }

    /// Where the driver records that the outcome of a request is unknown.
    pub closed spec fn uncertainty(self) -> Arc<AtomicBool> {
        self.uncertain
    }

    /// Whether so many permits for requests and responses were found free, and this storage was
    /// found recorded, while there was room for so many identifiers.
    pub closed spec fn observed(
        self,
        requests: usize,
        responses: usize,
        storage: usize,
        id_places: usize,
    ) -> bool {
        &&& found_free(self.requests, requests)
        &&& found_free(self.responses, responses)
        &&& read_number(*self.storage, storage)
        &&& had_places(self.msgmap, id_places)
    }

    /// A permit for each byte of a request.
    pub closed spec fn request_bytes(self) -> Arc<Semaphore> {
        self.requests
    }

    /// A permit for each request that waits.
    pub closed spec fn slots(self) -> Arc<Semaphore> {
        self.outstanding
    }

    /// The queue of the connection.
    pub closed spec fn queue(self) -> mpsc::UnboundedSender<Request<L>> {
        self.tx
    }

    pub closed spec fn shared_ids(self) -> Arc<Mutex<MessageIds>> {
        self.msgmap
    }

    /// The identifiers of the connection.
    pub fn ids(&self) -> (r: Arc<Mutex<MessageIds>>)
        ensures
            r == self.shared_ids(),
    {
        self.msgmap.clone()
    }

    /// Resident buffers and reserved request/response allocation, including all clones, at the
    /// moment of the call. What other tasks hold and record then is left unsaid;
    /// [`reserved_bytes`] says what it adds up to.
    pub fn memory_bytes(&self) -> (r: usize)
        ensures
            exists|requests: usize, responses: usize, storage: usize, id_places: usize|
                #[trigger] self.observed(requests, responses, storage, id_places) && r
                    == reserved_total(
                    self.limits(),
                    requests as nat,
                    responses as nat,
                    storage as nat,
                    id_places as nat,
                ),
    {
        let id_places: usize = id_places(&self.msgmap);
        let requests: usize = free_permits(&self.requests);
        let responses: usize = free_permits(&self.responses);
        let storage: usize = get_number(&self.storage);
        assert(self.observed(requests, responses, storage, id_places));
        reserved_bytes(self.limits, requests, responses, storage, id_places)
    }

    /// A driver ended while a dispatched operation lacked a terminal response. What the driver
    /// recorded by the moment of the call is left unsaid; [`Driver::ended`] says when it records
    /// that.
    pub fn outcome_unknown(&self) -> (r: bool)
        ensures
            read_flag(*self.uncertainty(), r),
    {
        get_flag(&self.uncertain)
    }

    /// Takes a permit for each byte of the request, a slot, and then an identifier.
    ///
    /// Whether the connection is there, permits are free and identifiers are left depends on
    /// other tasks. A request that is malformed or beyond the limits is refused in any case.
    #[verifier::rlimit(30)]
    pub fn claim(&self, operation: &StructureTag, controls: &Vec<RawControl>) -> (r: Result<
        Admission,
        Error,
    >)
        ensures
            r != Err::<Admission, Error>(Error::DriverClosed) ==> self.found_open(),
            r == Err::<Admission, Error>(Error::DriverClosed) && self.found_gone() || match kind_of(
                operation@,
            ) {
                Err(e) => r == Err::<Admission, Error>(e),
                Ok(kind) => exists|size: Result<usize, Error>|
                    #[trigger] reckoned(
                        *operation,
                        controls@,
                        self.limits().codec,
                        size,
                    ) && admitted(
                        self.request_bytes(),
                        self.slots(),
                        self.shared_ids(),
                        kind,
                        size,
                        r,
                    ),
            },
    {
        let closed = looks_closed(&self.tx);
        assert(found_closed(self.tx, closed));
        let kind = match check_request(closed, operation) {
            Ok(kind) => kind,
            Err(e) => return Err(e),
        };
        let size = request_allocation(operation, controls.as_slice(), self.limits.codec);
        assert(reckoned(*operation, controls@, self.limits().codec, size));
        let bytes: usize = match size {
            Ok(bytes) => bytes,
            Err(e) => return Err(e),
        };
        let memory = reserve(&self.requests, bytes);
        let slot = if memory.is_some() {
            reserve(&self.outstanding, 1)
        } else {
            None
        };
        match enter(&self.msgmap) {
            Some(guard) => {
                let mut guard = guard;
                let held = guarded(&mut guard);
                assert(found_under(self.msgmap, *held));
                allot(kind, memory, slot, held)
            },
            None => grant(kind, memory, slot, Err(Error::DriverClosed)),
        }
    }

    /// Whether the connection was found closed, or its identifiers locked by a holder that
    /// panicked.
    pub closed spec fn found_gone(self) -> bool {
        found_closed(self.tx, true) || found_poisoned(self.msgmap)
    }

    /// Whether the connection was found open.
    pub closed spec fn found_open(self) -> bool {
        found_closed(self.tx, false)
    }

    /// Whether the request that a receipt is for was put into the queue: with this operation, its
    /// kind and these controls, a lease that holds `made`, and a permit for each of its bytes.
    pub open spec fn queued(
        self,
        dispatch: RawDispatch,
        made: L,
        operation: StructureTag,
        controls: Vec<RawControl>,
    ) -> bool {
        exists|request: Request<L>, kind: Kind, memory: OwnedSemaphorePermit, lease: Arc<L>|
            #[trigger] sent(self.queue(), request, true) && #[trigger] carries(
                request,
                dispatch,
                kind,
                memory,
                lease,
                operation,
                controls,
            ) && *lease == made && kind_of(operation@) == Ok::<Kind, Error>(kind) && issuer(
                &memory,
            ) == self.request_bytes() && exists|bytes: usize| #[trigger]
                reckoned(
                    operation,
                    controls@,
                    self.limits().codec,
                    Ok::<usize, Error>(bytes),
                ) && permits(&memory) == bytes
    }

    /// Puts an admitted request into the queue of the connection, unless that is gone.
    pub fn enqueue(
        &self,
        admission: (RequestId, Kind, OwnedSemaphorePermit),
        lease: Arc<L>,
        operation: StructureTag,
        controls: Vec<RawControl>,
    ) -> (r: Result<RawDispatch, Error>)
        ensures
            match r {
                Ok(dispatch) => dispatch.id == admission.0 && made_as(
                    *dispatch.dispatched,
                    false,
                ) && exists|request: Request<L>|
                    #[trigger] sent(self.queue(), request, true) && carries(
                        request,
                        dispatch,
                        admission.1,
                        admission.2,
                        lease,
                        operation,
                        controls,
                    ),
                Err(e) => e == Error::DriverClosed && exists|request: Request<L>|
                    #[trigger] sent(self.queue(), request, false) && request.0 == admission.0,
            },
    {
        let (reply, _) = one_channel();
        let (request, dispatch) = prepare(
            admission,
            lease,
            operation,
            controls,
            one_channel(),
            clear_flag(),
            reply,
        );
        assert(carries(
            request,
            dispatch,
            admission.1,
            admission.2,
            lease,
            operation,
            controls,
        ));
        let taken = pass(&self.tx, request);
        assert(sent(self.queue(), request, taken));
        if taken {
            Ok(dispatch)
        } else {
            Err(Error::DriverClosed)
        }
    }

    /// Queue one operation without waiting for a response. All in-flight and
    /// queued operations share limits, including calls made through clones.
    /// Caller cancellation after acceptance does not assert remote rollback.
    ///
    /// `lease` makes what keeps the identifier in use, from the identifier, the identifiers of
    /// the connection and the slot of the request.
    pub fn submit<F: FnOnce(RequestId, Arc<Mutex<MessageIds>>, OwnedSemaphorePermit) -> L>(
        &mut self,
        operation: StructureTag,
        controls: Vec<RawControl>,
        lease: F,
    ) -> (r: Result<RawDispatch, Error>)
        requires
            forall|id: RequestId, ids: Arc<Mutex<MessageIds>>, slot: OwnedSemaphorePermit|
                lease.requires((id, ids, slot)),
        ensures
            *final(self) == *old(self),
            r != Err::<RawDispatch, Error>(Error::DriverClosed) ==> old(self).found_open(),
            r == Err::<RawDispatch, Error>(Error::DriverClosed) && (old(self).found_gone()
                || exists|request: Request<L>| #[trigger] sent(old(self).queue(), request, false))
                || match kind_of(operation@) {
                Err(e) => r == Err::<RawDispatch, Error>(e),
                Ok(_) => exists|size: Result<usize, Error>|
                    #[trigger] reckoned(
                        operation,
                        controls@,
                        old(self).limits().codec,
                        size,
                    ) && submitted(
                        old(self).request_bytes(),
                        old(self).slots(),
                        old(self).shared_ids(),
                        size,
                        r,
                    ),
            },
            r matches Ok(dispatch) ==> made_as(*dispatch.dispatched, false),
            r matches Ok(dispatch) ==> exists|slot: OwnedSemaphorePermit, made: L|
                #[trigger] lease.ensures((dispatch.id, old(self).shared_ids(), slot), made)
                    && permits(&slot) == 1 && issuer(&slot) == old(self).slots()
                    && old(self).queued(dispatch, made, operation, controls),
    {
        match self.claim(&operation, &controls) {
            Ok(admission) => {
                let id: RequestId = admission.id;
                let ids = self.msgmap.clone();
                let slot = admission.slot;
                assert(ids == old(self).shared_ids());
                assert(permits(&slot) == 1 && issuer(&slot) == old(self).slots());
                let kind = admission.kind;
                let memory = admission.memory;
                let made = lease(id, ids, slot);
                assert(lease.ensures((id, ids, slot), made));
                let r = self.enqueue((id, kind, memory), Arc::new(made), operation, controls);
                assert(r matches Ok(dispatch) ==> old(self).queued(
                    dispatch,
                    made,
                    operation,
                    controls,
                ));
                r
            },
            Err(e) => Err(e),
        }
    }
}

/// Whether an outcome of an admission is one that the kind and the size of the request allow.
pub open spec fn admitted(
    request_bytes: Arc<Semaphore>,
    slots: Arc<Semaphore>,
    ids: Arc<Mutex<MessageIds>>,
    kind: Kind,
    size: Result<usize, Error>,
    r: Result<Admission, Error>,
) -> bool {
    match r {
        Ok(admission) => {
            &&& admission.kind == kind
            &&& size is Ok && permits(&admission.memory) == size->Ok_0
            &&& permits(&admission.slot) == 1
            &&& issuer(&admission.memory) == request_bytes
            &&& issuer(&admission.slot) == slots
            &&& admission.id >= 1
            &&& drawn(ids, Ok(admission.id))
        },
        Err(e) => refused(request_bytes, slots, ids, size, e),
    }
}

/// Whether an outcome of a submission is one that the size of the request allows.
pub open spec fn submitted(
    request_bytes: Arc<Semaphore>,
    slots: Arc<Semaphore>,
    ids: Arc<Mutex<MessageIds>>,
    size: Result<usize, Error>,
    r: Result<RawDispatch, Error>,
) -> bool {
    match r {
        Ok(dispatch) => size is Ok && dispatch.id >= 1 && drawn(ids, Ok(dispatch.id)),
        Err(e) => refused(request_bytes, slots, ids, size, e),
    }
}

/// Whether so many permits of a semaphore can never be had, or were asked for and not given.
pub open spec fn lacking(semaphore: Arc<Semaphore>, count: usize) -> bool {
    count > u32::MAX || count > usize::MAX / 8 || asked_for(semaphore, count as u32, None)
}

/// Whether a request of that size is refused in this way: for its size, or else because permits
/// were asked for and not given, or no identifier is left.
pub open spec fn refused(
    request_bytes: Arc<Semaphore>,
    slots: Arc<Semaphore>,
    ids: Arc<Mutex<MessageIds>>,
    size: Result<usize, Error>,
    e: Error,
) -> bool {
    match size {
        Err(wrong) => e == wrong,
        Ok(bytes) => {
            ||| e == Error::CapacityExhausted && (lacking(request_bytes, bytes) || lacking(
                slots,
                1,
            ))
            ||| e == Error::IdentifiersExhausted && drawn(ids, Err(e))
        },
    }
}

} // verus!
