use bytes::BytesMut;
use ldap3::asn1::{StructureTag, Tag, TagClass, PL};
use ldap3::conn::{
    acknowledgement, check_recoverable, encode_message, ends_connection, ids_idle, release_all,
    Action, Dequeued, Event, Exchange, LoopMode,
};
use ldap3::error::{Error, ErrorKind};
use ldap3::ids::MessageIds;
use ldap3::protocol::{CodecLimits, LdapCodec, LdapOp, RawResponse, Request, SearchItem};
use ldap3::raw::{
    allot, check_request, completion, delivered, grant, rejection, reserved_bytes, storage_bytes, Driver, DriverLimits, Kind, RawDispatch,
    RawEvent, RawHandle, RawResponses,
};
use ldap3::requests;
use ldap3::result::result_code;
use std::sync::{Arc, Mutex};
use tokio::sync::mpsc::{unbounded_channel, UnboundedReceiver};
use tokio::sync::{oneshot, OwnedSemaphorePermit};

/// Keeps an identifier in use, and its slot taken, until it is dropped.
struct Lease {
    id: i32,
    ids: Arc<Mutex<MessageIds>>,
    _slot: OwnedSemaphorePermit,
}

impl Drop for Lease {
    fn drop(&mut self) {
        self.ids.lock().unwrap().release(self.id);
    }
}

fn limits() -> DriverLimits {
    DriverLimits {
        codec: CodecLimits::default(),
        maximum_outstanding: 2,
        maximum_request_bytes: 1024 * 1024,
        maximum_response_bytes: 1024 * 1024,
        maximum_response_items: 2,
    }
}

/// A connection without a transport.
struct Connection {
    exchange: Exchange<Lease>,
    msgmap: Arc<Mutex<MessageIds>>,
    queue: UnboundedReceiver<Request<Lease>>,
    codec: LdapCodec,
}

fn connect(limits: DriverLimits) -> (Connection, RawHandle<Lease>, RawResponses) {
    let limits = limits.validate().unwrap();
    let msgmap = Arc::new(Mutex::new(MessageIds::new()));
    let (tx, queue) = unbounded_channel();
    let (driver, handle, events) = Driver::new(msgmap.clone(), tx, limits);
    let exchange = Exchange::new(Some(driver), LoopMode::Continuous);
    let codec = LdapCodec::new(limits.codec).unwrap();
    (Connection { exchange, msgmap, queue, codec }, handle, events)
}

fn submit(
    handle: &mut RawHandle<Lease>,
    operation: StructureTag,
) -> Result<RawDispatch, Error> {
    handle.submit(operation, vec![], |id, ids, slot| Lease { id, ids, _slot: slot })
}

impl Connection {
    /// Writes the next request of the queue, and gives its bytes.
    fn write(&mut self) -> Option<Vec<u8>> {
        let request = self.queue.try_recv().unwrap();
        match self.exchange.step(&self.msgmap, Event::Request(Some(request))).unwrap().0 {
            Action::Write { id, op, tag, controls, reply } => {
                let bytes = encode_message(&mut self.codec, id, tag, controls).unwrap();
                assert!(!ends_connection(&op));
                let written = self.exchange.step(&self.msgmap, Event::Written { id, op, reply }).unwrap();
                assert!(matches!(written.0, Action::Wait));
                assert!(written.1.is_empty());
                Some(bytes)
            }
            Action::Wait => None,
            Action::End => panic!("ended"),
        }
    }

    fn read(&mut self, id: u8, operation: u8) -> Result<(), Error> {
        let wire = [0x30, 12, 2, 1, id, operation, 7, 10, 1, 0, 4, 0, 4, 0];
        let mut input = BytesMut::from(&wire[..]);
        let response = self.codec.decode(&mut input).unwrap().unwrap();
        self.exchange.response(response).map(|freed| assert!(freed.is_empty()))
    }
}

fn delete() -> StructureTag {
    StructureTag {
        class: TagClass::Application,
        id: 10,
        payload: PL::P(b"dc=test".to_vec()),
    }
}

fn abandon(id: u8) -> StructureTag {
    StructureTag { class: TagClass::Application, id: 16, payload: PL::P(vec![id]) }
}

fn next(events: &mut RawResponses) -> RawEvent {
    events.0.try_recv().unwrap()
}

#[test]
fn shared_capacity_survives_dropped_receipts_and_reverse_order_responses() {
    let (mut conn, mut handle, mut events) = connect(limits());
    let mut clone = handle.clone();
    let first = submit(&mut handle, delete()).unwrap();
    let first_id = first.id;
    drop(first);
    let mut second = submit(&mut clone, delete()).unwrap();
    assert!(submit(&mut handle, delete()).is_err());
    conn.write().unwrap();
    conn.write().unwrap();
    assert_eq!(second.written.try_recv().unwrap(), Ok(()));
    conn.read(second.id as u8, 0x6b).unwrap();
    let event = next(&mut events);
    assert!(event.complete);
    assert_eq!(event.response.id, second.id);
    let third = submit(&mut handle, delete()).unwrap();
    assert!(third.id > second.id);
    conn.read(first_id as u8, 0x6b).unwrap();
    assert_eq!(next(&mut events).response.id, first_id);
}

#[test]
fn abandon_keeps_late_response_identity_and_invalid_abandon_does_not_dispatch() {
    let (mut conn, mut handle, mut events) = connect(limits());
    let mut bad = submit(&mut handle, abandon(123)).unwrap();
    assert!(conn.write().is_none());
    assert_eq!(bad.written.try_recv().unwrap(), Err(Error::AbandonTargetNotOutstanding));
    assert!(!bad.was_dispatched());
    assert!(!bad.status().was_dispatched());
    let operation = submit(&mut handle, delete()).unwrap();
    conn.write().unwrap();
    assert!(operation.status().clone().was_dispatched());
    let mut abandoned = submit(&mut handle, abandon(operation.id as u8)).unwrap();
    conn.write().unwrap();
    assert_eq!(abandoned.written.try_recv().unwrap(), Ok(()));
    conn.read(operation.id as u8, 0x6b).unwrap();
    let event = next(&mut events);
    assert!(event.complete);
    assert!(event.abandon_requested);
    assert_eq!(event.response.id, operation.id);
}

#[test]
fn mismatched_operation_closes_driver_without_delivering_a_false_result() {
    let (mut conn, mut handle, mut events) = connect(limits());
    let operation = submit(&mut handle, delete()).unwrap();
    conn.write().unwrap();
    assert_eq!(conn.read(operation.id as u8, 0x67), Err(Error::ResponseMismatch));
    assert!(events.0.try_recv().is_err());
}

#[test]
fn full_delivery_queue_fails_explicitly_and_does_not_stall_transport() {
    let mut limits = limits();
    limits.maximum_response_items = 1;
    let (mut conn, mut handle, mut events) = connect(limits);
    let first = submit(&mut handle, delete()).unwrap();
    let second = submit(&mut handle, delete()).unwrap();
    conn.write().unwrap();
    conn.write().unwrap();
    conn.read(first.id as u8, 0x6b).unwrap();
    assert_eq!(conn.read(second.id as u8, 0x6b), Err(Error::CapacityExhausted));
    assert_eq!(next(&mut events).response.id, first.id);
    drop(conn);
    assert!(events.0.try_recv().is_err());
}

#[test]
fn request_byte_limit_is_shared_and_precedes_queue_and_id_allocation() {
    let mut limits = limits();
    limits.maximum_request_bytes = 1100;
    let (mut conn, mut handle, _events) = connect(limits);
    let first = submit(&mut handle, delete()).unwrap();
    assert_eq!(first.id, 1);
    drop(first);
    assert_eq!(submit(&mut handle, delete()).err(), Some(Error::CapacityExhausted));
    // The refused request took no identifier.
    conn.write().unwrap();
    assert_eq!(submit(&mut handle, delete()).unwrap().id, 2);
}

#[test]
fn delivered_but_retained_responses_keep_their_byte_permits() {
    let mut limits = limits();
    limits.maximum_response_bytes = 500;
    let (mut conn, mut handle, mut events) = connect(limits);
    let first = submit(&mut handle, delete()).unwrap();
    conn.write().unwrap();
    conn.read(first.id as u8, 0x6b).unwrap();
    let retained = next(&mut events);
    let second = submit(&mut handle, delete()).unwrap();
    conn.write().unwrap();
    assert_eq!(conn.read(second.id as u8, 0x6b), Err(Error::CapacityExhausted));
    assert!(!handle.outcome_unknown());
    assert!(conn.exchange.raw.as_ref().unwrap().ended());
    assert!(handle.outcome_unknown());
    drop(retained);
    // The request still waits, and there is memory for its response again.
    conn.read(second.id as u8, 0x6b).unwrap();
    assert!(!conn.exchange.raw.as_ref().unwrap().ended());
}

#[test]
fn explicit_upgrade_recovers_only_an_idle_transport_without_buffered_plaintext() {
    for trailing in [false, true] {
        let (mut conn, mut handle, mut events) = connect(limits());
        conn.exchange.mode = LoopMode::SingleOp;
        let request = requests::extended(requests::Exop {
            name: Some("1.3.6.1.4.1.1466.20037".into()),
            val: None,
        });
        let mut dispatch = submit(&mut handle, request.into_structure()).unwrap();
        conn.write().unwrap();
        let mut response = BytesMut::from(
            &[0x30, 12, 2, 1, dispatch.id as u8, 0x78, 7, 10, 1, 0, 4, 0, 4, 0][..],
        );
        if trailing {
            response.extend_from_slice(&[0x30]);
        }
        assert!(!conn.exchange.is_finished(false));
        let decoded = conn.codec.decode(&mut response).unwrap().unwrap();
        conn.exchange.response(decoded).unwrap();
        assert!(conn.exchange.is_finished(false));
        assert!(!conn.exchange.is_finished(true));
        assert_eq!(dispatch.written.try_recv().unwrap(), Ok(()));
        assert!(next(&mut events).complete);
        let recovered = check_recoverable(
            conn.queue.is_empty(),
            ids_idle(&conn.msgmap),
            response.is_empty(),
            true,
            true,
        );
        assert_eq!(recovered.is_err(), trailing);
    }
    assert_eq!(check_recoverable(false, true, true, true, true), Err(Error::OperationsRemain));
    assert_eq!(check_recoverable(true, false, true, true, true), Err(Error::OperationsRemain));
    assert_eq!(check_recoverable(true, true, true, false, true), Err(Error::BufferedPlaintext));
    assert_eq!(
        check_recoverable(true, true, true, true, false),
        Err(Error::SuppliedTransportRequired)
    );
}

#[test]
fn message_ids_never_alias_an_old_dispatch_after_exhaustion() {
    let limits = DriverLimits {
        codec: CodecLimits::default(),
        maximum_outstanding: 2,
        maximum_request_bytes: 65536,
        maximum_response_bytes: 65536,
        maximum_response_items: 2,
    };
    let (_conn, mut handle, _events) = connect(limits);
    *handle.ids().lock().unwrap() = MessageIds::after(i32::MAX - 1);
    assert_eq!(
        submit(&mut handle, requests::delete(b"dc=x".to_vec()).into_structure()).unwrap().id,
        i32::MAX
    );
    assert!(submit(&mut handle, requests::delete(b"dc=x".to_vec()).into_structure()).is_err());
}

#[test]
fn a_refused_request_uses_up_no_identifier() {
    let permit = || Arc::new(tokio::sync::Semaphore::new(1)).try_acquire_owned().ok();
    let mut ids = MessageIds::after(4);
    let kind = Kind::Search;
    let full = Some(Error::CapacityExhausted);
    assert_eq!(allot(kind, None, permit(), &mut ids).err(), full);
    assert_eq!(allot(kind, permit(), None, &mut ids).err(), full);
    assert!(ids.is_idle());
    assert_eq!(allot(kind, permit(), permit(), &mut ids).ok().unwrap().id, 5);
    assert!(!ids.is_idle());
    let mut last = MessageIds::after(i32::MAX);
    assert_eq!(
        allot(kind, permit(), permit(), &mut last).err(),
        Some(Error::IdentifiersExhausted)
    );
}

#[test]
fn a_waiting_request_keeps_its_slot_after_it_was_written() {
    let (mut conn, mut handle, mut events) = connect(limits());
    let first = submit(&mut handle, delete()).unwrap();
    submit(&mut handle, delete()).unwrap();
    conn.write().unwrap();
    conn.write().unwrap();
    assert_eq!(submit(&mut handle, delete()).err(), Some(Error::CapacityExhausted));
    conn.read(first.id as u8, 0x6b).unwrap();
    assert!(next(&mut events).complete);
    assert_eq!(submit(&mut handle, delete()).unwrap().id, 3);
}

#[test]
fn several_identifiers_are_released_together() {
    let msgmap = Arc::new(Mutex::new(MessageIds::new()));
    for id in 1..=3 {
        assert_eq!(msgmap.lock().unwrap().next_msgid(), Ok(id));
    }
    release_all(&msgmap, &vec![1, 3]);
    assert!(!ids_idle(&msgmap));
    release_all(&msgmap, &vec![2]);
    assert!(ids_idle(&msgmap));
}

#[test]
fn identifiers_are_not_given_out_again() {
    let mut ids = MessageIds::default();
    assert!(ids.is_idle());
    assert_eq!(ids.next_msgid(), Ok(1));
    assert!(!ids.is_idle());
    assert!(ids.places() >= 1);
    ids.release(1);
    assert!(ids.is_idle());
    assert_eq!(ids.next_msgid(), Ok(2));
    let mut last = MessageIds::after(i32::MAX);
    assert_eq!(last.next_msgid(), Err(Error::IdentifiersExhausted));
}

#[test]
fn a_response_to_nothing_is_refused() {
    let (mut conn, _handle, mut events) = connect(limits());
    assert_eq!(conn.read(9, 0x6b), Err(Error::NoOutstandingIdentifier));
    assert_eq!(conn.read(0, 0x6b), Err(Error::InvalidUnsolicited));
    conn.read(0, 0x78).unwrap();
    let notice = next(&mut events);
    assert!(!notice.complete);
    assert_eq!(notice.response.id, 0);
}

#[test]
fn a_search_is_complete_after_its_result() {
    let (mut conn, mut handle, mut events) = connect(limits());
    let search = StructureTag { class: TagClass::Application, id: 3, payload: PL::C(vec![]) };
    let dispatch = submit(&mut handle, search).unwrap();
    conn.write().unwrap();
    let id = dispatch.id as u8;
    for (operation, complete) in [(0x64, false), (0x79, false)] {
        conn.read(id, operation).unwrap();
        assert_eq!(next(&mut events).complete, complete);
    }
    // 0x73 is a reference and 0x65 the result.
    conn.read(id, 0x73).unwrap();
    assert!(!next(&mut events).complete);
    conn.read(id, 0x65).unwrap();
    assert!(next(&mut events).complete);
    assert_eq!(conn.read(id, 0x64), Err(Error::NoOutstandingIdentifier));
}

#[test]
fn malformed_requests_are_refused_before_anything_is_taken() {
    let (_conn, mut handle, _events) = connect(limits());
    let tag = |class, id, payload| StructureTag { class, id, payload };
    let application = TagClass::Application;
    for (operation, error) in [
        (tag(TagClass::Universal, 10, PL::P(vec![])), Error::OperationNotApplication),
        (tag(application, 2, PL::P(vec![0])), Error::InvalidUnbind),
        (tag(application, 2, PL::C(vec![])), Error::InvalidUnbind),
        (tag(application, 16, PL::C(vec![])), Error::InvalidAbandon),
        (tag(application, 16, PL::P(vec![])), Error::InvalidAbandonIdentifier),
        (tag(application, 16, PL::P(vec![0x80])), Error::InvalidAbandonIdentifier),
        (tag(application, 16, PL::P(vec![0])), Error::InvalidAbandonIdentifier),
        (tag(application, 16, PL::P(vec![0, 0, 0, 0, 1])), Error::InvalidAbandonIdentifier),
        (tag(application, 1, PL::C(vec![])), Error::UnsupportedOperation),
        (tag(application, 31, PL::C(vec![])), Error::UnsupportedOperation),
    ] {
        assert_eq!(submit(&mut handle, operation).err(), Some(error));
    }
    let high = tag(application, 3, PL::C(vec![tag(TagClass::Context, 31, PL::P(vec![]))]));
    assert_eq!(submit(&mut handle, high).err(), Some(Error::LimitExceeded));
    assert_eq!(submit(&mut handle, delete()).unwrap().id, 1);
}

#[test]
fn a_request_needs_memory_a_slot_and_an_identifier() {
    let permit = || {
        let semaphore = Arc::new(tokio::sync::Semaphore::new(3));
        semaphore.try_acquire_many_owned(3).ok()
    };
    let kind = Kind::Reply(11);
    let admission = grant(kind, permit(), permit(), Ok(5)).unwrap();
    assert_eq!((admission.id, admission.kind), (5, kind));
    assert_eq!(admission.memory.num_permits(), 3);
    let full = Some(Error::CapacityExhausted);
    assert_eq!(grant(kind, None, permit(), Ok(5)).err(), full);
    assert_eq!(grant(kind, permit(), None, Ok(5)).err(), full);
    let exhausted = Err(Error::IdentifiersExhausted);
    assert_eq!(
        grant(kind, permit(), permit(), exhausted).err(),
        Some(Error::IdentifiersExhausted)
    );
    assert_eq!(check_request(false, &delete()), Ok(kind));
    assert_eq!(check_request(true, &delete()), Err(Error::DriverClosed));
    assert_eq!(check_request(false, &abandon(0)), Err(Error::InvalidAbandonIdentifier));
    assert_eq!(check_request(false, &abandon(9)), Ok(Kind::Abandon(9)));
}

#[test]
fn a_closed_connection_takes_no_requests() {
    let (conn, mut handle, _events) = connect(limits());
    drop(conn);
    assert_eq!(submit(&mut handle, delete()).err(), Some(Error::DriverClosed));
    assert_eq!(Error::DriverClosed.kind(), ErrorKind::BrokenPipe);
}

#[test]
fn an_unbind_ends_the_connection() {
    let (mut conn, mut handle, _events) = connect(limits());
    let dispatch = submit(&mut handle, requests::unbind().into_structure()).unwrap();
    let request = conn.queue.try_recv().unwrap();
    let (id, op, reply) = match conn.exchange.step(&conn.msgmap, Event::Request(Some(request))).unwrap().0 {
        Action::Write { id, op, reply, .. } => (id, op, reply),
        _ => panic!("not written"),
    };
    assert_eq!(id, dispatch.id);
    assert!(matches!(&op, LdapOp::Raw(raw) if raw.kind == Kind::Unbind));
    let (action, freed) = conn.exchange.step(&conn.msgmap, Event::Written { id, op, reply }).unwrap();
    assert!(matches!(action, Action::End));
    assert!(freed.is_empty());
}

#[test]
fn a_connection_ends_with_its_queue_its_handles_or_its_stream() {
    let (mut conn, _handle, _events) = connect(limits());
    for event in [Event::Request(None), Event::Response(None), Event::Deserted] {
        assert!(matches!(conn.exchange.step(&conn.msgmap, event).unwrap(), (Action::End, _)));
    }
}

#[test]
fn the_last_handle_closes_the_connection() {
    let (mut conn, mut handle, _events) = connect(limits());
    submit(&mut handle, delete()).unwrap();
    drop(handle);
    assert!(conn.exchange.takes_scrubs());
    let (action, freed) = conn.exchange.step(&conn.msgmap, Event::Scrubbed(None)).unwrap();
    assert!(matches!(action, Action::Wait));
    assert!(freed.is_empty());
    // The closed channel is not met again, and a write in progress is not cut off.
    assert!(!conn.exchange.takes_scrubs());
    assert!(!conn.exchange.takes_questions(true));
    assert!(conn.exchange.takes_questions(false));
    assert!(conn.exchange.takes_requests(false));
    // What was queued is still written, and then the end of the queue ends the connection.
    assert!(conn.write().is_some());
    assert!(conn.queue.is_closed() && conn.queue.is_empty());
    assert!(matches!(conn.exchange.step(&conn.msgmap, Event::Request(None)).unwrap().0, Action::End));
}

#[test]
fn a_refused_request_and_a_written_one_get_different_receipts() {
    let (mut conn, mut handle, mut events) = connect(limits());
    let mut bad = submit(&mut handle, abandon(123)).unwrap();
    let mut del = submit(&mut handle, delete()).unwrap();
    assert!(conn.write().is_none());
    assert_eq!(bad.written.try_recv().unwrap(), Err(Error::AbandonTargetNotOutstanding));
    assert!(!bad.was_dispatched());
    let mut expected = vec![0x30, 14, 2, 1, 2, 0x4a, 7];
    expected.extend_from_slice(b"dc=test");
    expected.extend_from_slice(&[0xa0, 0]);
    assert_eq!(conn.write().unwrap(), expected);
    assert_eq!(del.written.try_recv().unwrap(), Ok(()));
    conn.read(2, 0x6b).unwrap();
    let event = next(&mut events);
    assert_eq!(event.response.id, 2);
    assert!(event.complete && !event.abandon_requested);
    assert!(events.0.try_recv().is_err());
    assert!(matches!(conn.exchange.step(&conn.msgmap, Event::Response(None)).unwrap().0, Action::End));
}

#[test]
fn an_intermediate_response_does_not_end_a_single_exchange() {
    let (mut conn, mut handle, mut events) = connect(limits());
    conn.exchange.mode = LoopMode::SingleOp;
    let request = requests::extended(requests::Exop {
        name: Some("1.3.6.1.4.1.1466.20037".into()),
        val: None,
    });
    let mut dispatch = submit(&mut handle, request.into_structure()).unwrap();
    conn.write().unwrap();
    let mut input = BytesMut::from(&[0x30, 5, 2, 1, 1, 0x79, 0][..]);
    input.extend_from_slice(&[0x30, 12, 2, 1, 1, 0x78, 7, 10, 1, 0, 4, 0, 4, 0]);
    for last in [false, true] {
        let decoded = conn.codec.decode(&mut input).unwrap().unwrap();
        conn.exchange.step(&conn.msgmap, Event::Response(Some(decoded))).unwrap();
        let event = next(&mut events);
        assert_eq!((event.response.id, event.complete), (1, last));
        assert_eq!(conn.exchange.is_finished(false), last);
    }
    assert_eq!(dispatch.written.try_recv().unwrap(), Ok(()));
    assert!(ids_idle(&conn.msgmap));
}

#[test]
fn a_receipt_is_given_once() {
    let (mut conn, mut handle, _events) = connect(limits());
    let _dispatch = submit(&mut handle, delete()).unwrap();
    let (_, op, ..) = conn.queue.try_recv().unwrap();
    let LdapOp::Raw(mut raw) = op else { panic!("no raw operation") };
    let (_, outcome) = rejection(&mut raw, Error::AbandonTargetNotOutstanding).unwrap();
    assert_eq!(outcome, Err(Error::AbandonTargetNotOutstanding));
    assert!(completion(&mut raw).is_none());
    let _dispatch = submit(&mut handle, delete()).unwrap();
    let (_, op, ..) = conn.queue.try_recv().unwrap();
    let LdapOp::Raw(mut raw) = op else { panic!("no raw operation") };
    assert_eq!(completion(&mut raw).unwrap().1, Ok(()));
}

#[test]
fn a_response_is_charged_with_its_bytes() {
    let (mut conn, mut handle, _events) = connect(limits());
    let dispatch = submit(&mut handle, delete()).unwrap();
    conn.write().unwrap();
    let before = handle.memory_bytes();
    let driver = conn.exchange.raw.as_mut().unwrap();
    let event = driver.charged(response(dispatch.id, 11)).ok().unwrap();
    assert!(event.complete);
    let charged = event.memory.num_permits();
    assert!(charged > 14 + std::mem::size_of::<RawResponse>());
    assert_eq!(handle.memory_bytes(), before + charged);
    drop(event);
    assert_eq!(handle.memory_bytes(), before);
    assert_eq!(delivered(true, true), Ok(true));
    assert_eq!(delivered(false, true), Ok(false));
    assert_eq!(delivered(true, false), Err(Error::CapacityExhausted));
}

#[test]
fn only_usable_limits_drive_a_connection() {
    assert!(limits().validate().is_ok());
    for bad in [
        DriverLimits { maximum_outstanding: 0, ..limits() },
        DriverLimits { maximum_request_bytes: 0, ..limits() },
        DriverLimits { maximum_response_bytes: usize::MAX, ..limits() },
        DriverLimits { maximum_response_items: 0, ..limits() },
        DriverLimits { maximum_response_items: u32::MAX as usize + 1, ..limits() },
    ] {
        assert_eq!(bad.validate().err(), Some(Error::InvalidDriverLimits));
    }
    let codec = CodecLimits { maximum_nodes: 0, ..CodecLimits::default() };
    let bad = DriverLimits { codec, maximum_outstanding: 0, ..limits() };
    assert_eq!(bad.validate().err(), Some(Error::InvalidCodecLimits));
}

#[test]
fn memory_is_what_is_reserved_and_resident() {
    let (mut conn, mut handle, _events) = connect(limits());
    let idle = handle.memory_bytes();
    let dispatch = submit(&mut handle, delete()).unwrap();
    assert!(handle.memory_bytes() >= idle + 1099);
    drop(dispatch);
    conn.write().unwrap();
    conn.exchange.raw.as_ref().unwrap().observe_buffers(10_000);
    assert!(handle.memory_bytes() >= 10_000);
    assert_eq!(reserved_bytes(limits(), 1024 * 1024 - 5, 1024 * 1024 - 7, 11, 2), 5 + 7 + 11 + 32);
    assert_eq!(reserved_bytes(limits(), usize::MAX, usize::MAX, 11, 0), 11);
    assert_eq!(reserved_bytes(limits(), 0, 0, usize::MAX, 2), usize::MAX);
    assert_eq!(reserved_bytes(limits(), usize::MAX, usize::MAX, 1, usize::MAX), usize::MAX);
    let place = storage_bytes::<u8>(0, 1);
    assert!(place >= 32);
    assert_eq!(storage_bytes::<u8>(3, 2), 3 + 2 * place);
    assert_eq!(storage_bytes::<u8>(usize::MAX, 1), usize::MAX);
}

fn plain(mode: LoopMode) -> (Exchange<Lease>, Arc<Mutex<MessageIds>>) {
    (Exchange::new(None, mode), Arc::new(Mutex::new(MessageIds::new())))
}

fn response(id: i32, operation: u64) -> RawResponse {
    let wire = [0x30, 12, 2, 1, id as u8, 0x60 + operation as u8, 7, 10, 1, 0, 4, 0, 4, 0];
    let mut codec = LdapCodec::new(CodecLimits::default()).unwrap();
    codec.decode(&mut BytesMut::from(&wire[..])).unwrap().unwrap()
}

fn write(
    exchange: &mut Exchange<Lease>,
    msgmap: &Arc<Mutex<MessageIds>>,
    id: i32,
    op: LdapOp<Lease>,
) -> Vec<i32> {
    let (reply, _result) = oneshot::channel();
    let request = (id, op, requests::unbind(), None, reply);
    match exchange.step(msgmap, Event::Request(Some(request))).unwrap().0 {
        Action::Write { id, op, reply, .. } => {
            exchange.step(msgmap, Event::Written { id, op, reply }).unwrap().1
        }
        _ => panic!("not written"),
    }
}

#[test]
fn a_single_request_gets_its_response() {
    let (mut exchange, msgmap) = plain(LoopMode::SingleOp);
    let id = msgmap.lock().unwrap().next_msgid().unwrap();
    let (reply, mut result) = oneshot::channel();
    let op = LdapOp::Single;
    assert!(exchange.takes_requests(false));
    assert!(!exchange.takes_requests(true));
    match exchange.dequeued(id, &op, reply) {
        Dequeued::Written(reply) => assert!(reply.is_none()),
        Dequeued::Rejected(error) => panic!("{error:?}"),
    }
    assert!(exchange.written(id, &op).is_empty());
    assert!(exchange.takes_responses());
    let (action, freed) = exchange.step(&msgmap, Event::Response(Some(response(id, 1)))).unwrap();
    assert!(matches!(action, Action::Wait));
    assert_eq!(freed, [id]);
    match result.try_recv().unwrap() {
        (Tag::StructureTag(tag), controls) => {
            assert_eq!(tag.id, 1);
            assert!(controls.is_empty());
        }
        other => panic!("{other:?}"),
    }
    assert!(ids_idle(&msgmap));
    assert!(exchange.is_finished(false));
    assert!(!exchange.takes_responses());
}

#[test]
fn a_search_gets_its_items_until_it_is_done() {
    let (mut exchange, msgmap) = plain(LoopMode::Continuous);
    let (items, mut found) = unbounded_channel();
    let (reply, mut written) = oneshot::channel();
    let request = (7, LdapOp::Search(items), requests::unbind(), None, reply);
    match exchange.step(&msgmap, Event::Request(Some(request))).unwrap().0 {
        Action::Write { id, op, reply, .. } => {
            assert!(exchange.step(&msgmap, Event::Written { id, op, reply }).unwrap().1.is_empty());
        }
        _ => panic!("not written"),
    }
    assert!(matches!(written.try_recv().unwrap(), (Tag::Null(_), _)));
    assert_eq!(exchange.response(response(7, 4)), Ok(vec![]));
    assert_eq!(exchange.response(response(7, 19)), Ok(vec![]));
    assert_eq!(exchange.response(response(7, 25)), Ok(vec![]));
    assert_eq!(exchange.response(response(7, 7)), Err(Error::UnexpectedSearchResponse));
    assert_eq!(exchange.response(response(7, 5)), Ok(vec![7]));
    assert!(matches!(found.try_recv().unwrap().0, SearchItem::Entry(_)));
    assert!(matches!(found.try_recv().unwrap().0, SearchItem::Referral(_)));
    assert!(matches!(found.try_recv().unwrap().0, SearchItem::Entry(_)));
    assert!(matches!(found.try_recv().unwrap().0, SearchItem::Done(_)));
    // Nobody waits any more, and nothing happens.
    assert_eq!(exchange.response(response(7, 5)), Ok(vec![]));
    assert!(found.try_recv().is_err());
}

#[test]
fn a_search_that_nobody_listens_to_is_forgotten() {
    let (mut exchange, msgmap) = plain(LoopMode::Continuous);
    let (items, found) = unbounded_channel();
    assert!(write(&mut exchange, &msgmap, 7, LdapOp::Search(items)).is_empty());
    drop(found);
    assert_eq!(exchange.response(response(7, 4)), Ok(vec![7]));
    assert!(exchange.searchmap.is_empty());
}

#[test]
fn an_abandoned_or_scrubbed_request_waits_no_longer() {
    let (mut exchange, msgmap) = plain(LoopMode::Continuous);
    for id in 1..=4 {
        assert_eq!(msgmap.lock().unwrap().next_msgid(), Ok(id));
    }
    assert!(write(&mut exchange, &msgmap, 1, LdapOp::Single).is_empty());
    assert!(write(&mut exchange, &msgmap, 3, LdapOp::Single).is_empty());
    assert_eq!(exchange.resultmap.len(), 2);
    let freed = write(&mut exchange, &msgmap, 2, LdapOp::Abandon(1));
    assert_eq!(freed, [1, 2]);
    assert_eq!(exchange.resultmap.len(), 1);
    assert!(!ids_idle(&msgmap));
    let (_, freed) = exchange.step(&msgmap, Event::Scrubbed(Some(3))).unwrap();
    assert_eq!(freed, [3]);
    assert!(exchange.resultmap.is_empty());
    let freed = write(&mut exchange, &msgmap, 4, LdapOp::Unbind);
    assert_eq!(freed, [4]);
    assert!(ids_idle(&msgmap));
    assert!(matches!(acknowledgement(), (Tag::Null(_), controls) if controls.is_empty()));
}

#[test]
fn supplied_transport_uses_library_bind_and_correlation_without_opening_a_socket() {
    let (mut exchange, msgmap) = plain(LoopMode::Continuous);
    let mut codec = LdapCodec::new(CodecLimits::default()).unwrap();
    let mut send = |exchange: &mut Exchange<Lease>, op, tag| {
        let id = msgmap.lock().unwrap().next_msgid().unwrap();
        let (reply, result) = oneshot::channel();
        let request = (id, op, tag, None, reply);
        match exchange.step(&msgmap, Event::Request(Some(request))).unwrap().0 {
            Action::Write { id, op, tag, controls, reply } => {
                let bytes = encode_message(&mut codec, id, tag, controls).unwrap();
                let (action, freed) = exchange.step(&msgmap, Event::Written { id, op, reply }).unwrap();
                (bytes, action, result)
            }
            _ => panic!("not written"),
        }
    };
    // Empty LDAPv3 simple BindRequest, packet identifier 1.
    let bind = requests::simple_bind(vec![], vec![]);
    let (request, action, mut result) = send(&mut exchange, LdapOp::Single, bind);
    assert_eq!(request, [0x30, 12, 2, 1, 1, 0x60, 7, 2, 1, 3, 4, 0, 0x80, 0]);
    assert!(matches!(action, Action::Wait));
    let mut input = BytesMut::from(&[0x30, 12, 2, 1, 1, 0x61, 7, 10, 1, 0, 4, 0, 4, 0][..]);
    let response =
        LdapCodec::new(CodecLimits::default()).unwrap().decode(&mut input).unwrap().unwrap();
    let (_, freed) = exchange.step(&msgmap, Event::Response(Some(response))).unwrap();
    assert_eq!(freed, [1]);
    match result.try_recv().unwrap() {
        (Tag::StructureTag(operation), _) => assert_eq!(result_code(&operation), Some(0)),
        other => panic!("{other:?}"),
    }
    let (unbind, action, mut done) = send(&mut exchange, LdapOp::Unbind, requests::unbind());
    assert_eq!(unbind, [0x30, 5, 2, 1, 2, 0x42, 0]);
    assert!(matches!(action, Action::End));
    assert!(done.try_recv().is_ok());
    assert!(ids_idle(&msgmap));
}

#[test]
fn blocked_large_write_does_not_stop_an_earlier_response() {
    let (mut exchange, msgmap) = plain(LoopMode::Continuous);
    let (reply, mut result) = oneshot::channel();
    let bind = (1, LdapOp::Single, requests::simple_bind(vec![], vec![]), None, reply);
    match exchange.step(&msgmap, Event::Request(Some(bind))).unwrap().0 {
        Action::Write { id, op, reply, .. } => {
            exchange.step(&msgmap, Event::Written { id, op, reply }).unwrap();
        }
        _ => panic!("not written"),
    }
    let large = requests::extended(requests::Exop {
        name: Some("1.2.3".into()),
        val: Some(vec![1; 65536]),
    });
    let (reply, _blocked) = oneshot::channel();
    let blocked = exchange.step(&msgmap, Event::Request(Some((2, LdapOp::Single, large, None, reply))));
    assert!(matches!(blocked.unwrap().0, Action::Write { id: 2, .. }));
    // The write does not end, and the first response is taken meanwhile.
    let writing = true;
    assert!(!exchange.takes_requests(writing));
    assert!(exchange.takes_responses());
    exchange.step(&msgmap, Event::Response(Some(response(1, 1)))).unwrap();
    match result.try_recv().expect("response stalled behind writer") {
        (Tag::StructureTag(operation), _) => assert_eq!(result_code(&operation), Some(0)),
        other => panic!("{other:?}"),
    }
}
