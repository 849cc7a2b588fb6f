//! Semaphores, channels and locks that tasks share.
//!
//! The items at the start are not proved: each states what an outside function does. What a shared
//! object holds at some moment depends on the other tasks, and is left unsaid; what was done to it
//! is said by the functions behind them, through the calls that were made.
use crate::raw::RawEvent;
use std::ops::DerefMut;
use std::sync::atomic::{AtomicBool, AtomicUsize};
use std::sync::{Arc, Mutex, MutexGuard};
use tokio::sync::mpsc::error::{SendError, TrySendError};
use tokio::sync::{mpsc, oneshot, OwnedSemaphorePermit, Semaphore};
use vstd::prelude::*;

verus! {

/// `tokio::sync::Semaphore`, a number of permits that tasks share.
#[verifier::external_type_specification]
#[verifier::external_body]
pub struct ExSemaphore(tokio::sync::Semaphore);

/// `tokio::sync::OwnedSemaphorePermit`, permits that go back when it is dropped.
#[verifier::external_type_specification]
#[verifier::external_body]
pub struct ExOwnedSemaphorePermit(tokio::sync::OwnedSemaphorePermit);

/// `tokio::sync::mpsc::Sender`, the sending end of a bounded channel.
#[verifier::external_type_specification]
#[verifier::external_body]
#[verifier::reject_recursive_types(T)]
pub struct ExSender<T>(tokio::sync::mpsc::Sender<T>);

/// `tokio::sync::mpsc::Receiver`, the receiving end of a bounded channel.
#[verifier::external_type_specification]
#[verifier::external_body]
#[verifier::reject_recursive_types(T)]
pub struct ExReceiver<T>(tokio::sync::mpsc::Receiver<T>);

/// `tokio::sync::mpsc::UnboundedSender`, the sending end of a channel without bound.
#[verifier::external_type_specification]
#[verifier::external_body]
#[verifier::reject_recursive_types(T)]
pub struct ExUnboundedSender<T>(tokio::sync::mpsc::UnboundedSender<T>);

/// `tokio::sync::oneshot::Sender`, the sending end of a channel for one value.
#[verifier::external_type_specification]
#[verifier::external_body]
#[verifier::reject_recursive_types(T)]
pub struct ExOneshotSender<T>(tokio::sync::oneshot::Sender<T>);

/// `tokio::sync::oneshot::Receiver`, the receiving end of a channel for one value.
#[verifier::external_type_specification]
#[verifier::external_body]
#[verifier::reject_recursive_types(T)]
pub struct ExOneshotReceiver<T>(tokio::sync::oneshot::Receiver<T>);

/// `tokio::sync::oneshot::error::RecvError`, which the receiving end gives where nothing was sent.
#[verifier::external_type_specification]
#[verifier::external_body]
pub struct ExRecvError(tokio::sync::oneshot::error::RecvError);

/// `std::sync::Mutex`.
#[verifier::external_type_specification]
#[verifier::external_body]
#[verifier::reject_recursive_types(T)]
pub struct ExMutex<T: ?Sized>(std::sync::Mutex<T>);

/// `std::sync::MutexGuard`.
#[verifier::external_type_specification]
#[verifier::external_body]
#[verifier::reject_recursive_types(T)]
pub struct ExMutexGuard<'a, T: ?Sized + 'a>(std::sync::MutexGuard<'a, T>);

/// The permits that an `OwnedSemaphorePermit` holds.
pub uninterp spec fn permits(permit: &OwnedSemaphorePermit) -> nat;

/// The permits that a `Semaphore` was made with.
pub uninterp spec fn made_with(semaphore: &Semaphore) -> nat;

/// The number of events that a channel can hold.
pub uninterp spec fn channel_bound(sender: &mpsc::Sender<RawEvent>) -> nat;

/// The semaphore that the permits of an `OwnedSemaphorePermit` go back to.
pub uninterp spec fn issuer(permit: &OwnedSemaphorePermit) -> Arc<Semaphore>;

/// The constant `Semaphore::MAX_PERMITS`, `usize::MAX >> 3`.
#[verifier::external_body]
pub(crate) fn max_permits() -> (r: usize)
    ensures
        r == usize::MAX / 8,
{
    Semaphore::MAX_PERMITS
}

/// `Semaphore::new`: a semaphore made with so many permits. It panics above
/// `Semaphore::MAX_PERMITS`.
#[verifier::external_body]
pub(crate) fn new_semaphore(count: usize) -> (r: Semaphore)
    requires
        count <= usize::MAX / 8,
    ensures
        made_with(&r) == count,
{
    Semaphore::new(count)
}

/// `Semaphore::try_acquire_many_owned`: if it gives permits, it gives `count` of this semaphore. It
/// panics above `Semaphore::MAX_PERMITS`. Whether it gives them depends on what other tasks hold.
#[verifier::external_body]
pub(crate) fn try_acquire(semaphore: &Arc<Semaphore>, count: u32) -> (r: Option<
    OwnedSemaphorePermit,
>)
    requires
        count <= usize::MAX / 8,
    ensures
        r matches Some(permit) ==> permits(&permit) == count && issuer(&permit) == *semaphore,
{
    semaphore.clone().try_acquire_many_owned(count).ok()
}

/// `Semaphore::available_permits`: the permits that nobody holds at the moment.
#[verifier::external_body]
pub(crate) fn available_permits(semaphore: &Arc<Semaphore>) -> (r: usize) {
    semaphore.available_permits()
}

/// `mpsc::channel`: the two ends of a channel that holds `bound` events. It panics where the bound
/// is zero or above `Semaphore::MAX_PERMITS`.
#[verifier::external_body]
pub(crate) fn event_channel(bound: usize) -> (r: (
    mpsc::Sender<RawEvent>,
    mpsc::Receiver<RawEvent>,
))
    requires
        0 < bound <= usize::MAX / 8,
    ensures
        channel_bound(&r.0) == bound,
{
    mpsc::channel(bound)
}

/// `mpsc::Sender::try_send`: the message is handed back where the channel is full or closed.
#[verifier::external_body]
pub(crate) fn try_send<T>(sender: &mpsc::Sender<T>, message: T) -> (r: Result<(), T>)
    ensures
        r matches Err(back) ==> back == message,
{
    sender.try_send(message).map_err(|e| match e {
        TrySendError::Full(message) => message,
        TrySendError::Closed(message) => message,
    })
}

/// `mpsc::UnboundedSender::send`: the message is handed back where the channel is closed.
#[verifier::external_body]
pub(crate) fn send<T>(sender: &mpsc::UnboundedSender<T>, message: T) -> (r: Result<(), T>)
    ensures
        r matches Err(back) ==> back == message,
{
    sender.send(message).map_err(|SendError(message)| message)
}

/// `mpsc::UnboundedSender::is_closed`: whether the receiving end is gone at the moment.
#[verifier::external_body]
pub(crate) fn is_closed<T>(sender: &mpsc::UnboundedSender<T>) -> (r: bool) {
    sender.is_closed()
}

/// `oneshot::channel`: the two ends of a channel for one value.
#[verifier::external_body]
pub(crate) fn once<T>() -> (r: (oneshot::Sender<T>, oneshot::Receiver<T>)) {
    oneshot::channel()
}

/// `oneshot::Sender::send`: the message is handed back where the receiving end is gone.
#[verifier::external_body]
pub(crate) fn send_once<T>(sender: oneshot::Sender<T>, message: T) -> (r: Result<(), T>)
    ensures
        r matches Err(back) ==> back == message,
{
    sender.send(message)
}

/// `<mpsc::UnboundedSender as Clone>::clone`: a sending end of the same channel. The sending ends
/// of one channel are not told apart.
#[verifier::external_body]
pub(crate) fn clone_sender<T>(sender: &mpsc::UnboundedSender<T>) -> (r: mpsc::UnboundedSender<T>)
    ensures
        r == *sender,
{
    sender.clone()
}

/// `Mutex::lock`: exclusive access to what the lock protects, unless another holder panicked.
#[verifier::external_body]
pub(crate) fn lock<T>(mutex: &Arc<Mutex<T>>) -> (r: Option<MutexGuard<'_, T>>) {
    mutex.lock().ok()
}

/// `<MutexGuard as DerefMut>::deref_mut`: what the lock protects.
#[verifier::external_body]
pub(crate) fn guarded<'a, T>(guard: &'a mut MutexGuard<'_, T>) -> (r: &'a mut T) {
    guard.deref_mut()
}

/// Whether the message was handed to the channel, which took it or not.
pub closed spec fn sent<T>(sender: mpsc::UnboundedSender<T>, message: T, taken: bool) -> bool {
    exists|r: Result<(), T>| #[trigger]
        call_ensures(send::<T>, (&sender, message), r) && (r is Ok) == taken
}

/// Whether the message was handed to the channel for one value.
pub closed spec fn told<T>(sender: oneshot::Sender<T>, message: T) -> bool {
    exists|r: Result<(), T>| #[trigger] call_ensures(send_once::<T>, (sender, message), r)
}

/// Whether the message was handed to the bounded channel, which took it or not.
pub closed spec fn offered<T>(sender: mpsc::Sender<T>, message: T, taken: bool) -> bool {
    exists|r: Result<(), T>| #[trigger]
        call_ensures(try_send::<T>, (&sender, message), r) && (r is Ok) == taken
}

/// Whether the two ends belong to one channel for one value.
pub closed spec fn paired<T>(sender: oneshot::Sender<T>, receiver: oneshot::Receiver<T>) -> bool {
    call_ensures(once::<T>, (), (sender, receiver))
}

/// Whether the two ends belong to one channel for events.
pub closed spec fn connected(
    sender: mpsc::Sender<RawEvent>,
    receiver: mpsc::Receiver<RawEvent>,
) -> bool {
    exists|bound: usize| #[trigger] call_ensures(event_channel, (bound,), (sender, receiver))
}

/// Whether the flag was made with this value.
pub closed spec fn made_as(flag: AtomicBool, value: bool) -> bool {
    call_ensures(AtomicBool::new, (value,), flag)
}

/// Whether the number was made with this value.
pub closed spec fn started_at(number: AtomicUsize, value: usize) -> bool {
    call_ensures(AtomicUsize::new, (value,), number)
}

/// Whether the flag was set to this value.
pub closed spec fn flagged(flag: AtomicBool, value: bool) -> bool {
    exists|order: std::sync::atomic::Ordering, r: ()| #[trigger]
        call_ensures(AtomicBool::store, (&flag, value, order), r)
}

/// Whether the flag was read, and had this value.
pub closed spec fn read_flag(flag: AtomicBool, value: bool) -> bool {
    exists|order: std::sync::atomic::Ordering| #[trigger]
        call_ensures(AtomicBool::load, (&flag, order), value)
}

/// Whether the number was set to this value.
pub closed spec fn recorded_as(number: AtomicUsize, value: usize) -> bool {
    exists|order: std::sync::atomic::Ordering, r: ()| #[trigger]
        call_ensures(AtomicUsize::store, (&number, value, order), r)
}

/// Whether the number was read, and had this value.
pub closed spec fn read_number(number: AtomicUsize, value: usize) -> bool {
    exists|order: std::sync::atomic::Ordering| #[trigger]
        call_ensures(AtomicUsize::load, (&number, order), value)
}

/// Whether so many permits of the semaphore were found free.
pub closed spec fn found_free(semaphore: Arc<Semaphore>, count: usize) -> bool {
    call_ensures(available_permits, (&semaphore,), count)
}

/// Whether so many permits of the semaphore were asked for, and given or not.
pub closed spec fn asked_for(
    semaphore: Arc<Semaphore>,
    count: u32,
    permit: Option<OwnedSemaphorePermit>,
) -> bool {
    call_ensures(try_acquire, (&semaphore, count), permit)
}

/// Whether the channel was found closed or open.
pub closed spec fn found_closed<T>(sender: mpsc::UnboundedSender<T>, closed: bool) -> bool {
    call_ensures(is_closed::<T>, (&sender,), closed)
}

/// Whether the lock could not be taken because another holder panicked.
pub closed spec fn found_poisoned<T>(mutex: Arc<Mutex<T>>) -> bool {
    exists|guard: Option<MutexGuard<'_, T>>| #[trigger]
        call_ensures(lock::<T>, (&mutex,), guard) && guard is None
}

/// Whether the lock was taken, and gave this access.
pub closed spec fn locked<T>(mutex: Arc<Mutex<T>>, guard: MutexGuard<'_, T>) -> bool {
    exists|r: Option<MutexGuard<'_, T>>| #[trigger]
        call_ensures(lock::<T>, (&mutex,), r) && r == Some(guard)
}

/// Takes a lock.
pub(crate) fn enter<T>(mutex: &Arc<Mutex<T>>) -> (r: Option<MutexGuard<'_, T>>)
    ensures
        r is None ==> found_poisoned(*mutex),
        r matches Some(guard) ==> locked(*mutex, guard),
{
    lock(mutex)
}

/// Hands a message to a channel.
pub(crate) fn pass<T>(sender: &mpsc::UnboundedSender<T>, message: T) -> (taken: bool)
    ensures
        sent(*sender, message, taken),
{
    send(sender, message).is_ok()
}

/// Hands a message to a channel for one value. The receiving end may be gone.
pub(crate) fn tell<T>(sender: oneshot::Sender<T>, message: T)
    ensures
        told(sender, message),
{
    let _ = send_once(sender, message);
}

/// Hands a message to a bounded channel.
pub(crate) fn offer<T>(sender: &mpsc::Sender<T>, message: T) -> (taken: bool)
    ensures
        offered(*sender, message, taken),
{
    try_send(sender, message).is_ok()
}

/// The two ends of a channel for one value.
pub(crate) fn one_channel<T>() -> (r: (oneshot::Sender<T>, oneshot::Receiver<T>))
    ensures
        paired(r.0, r.1),
{
    once()
}

/// The two ends of a channel that holds so many events.
pub(crate) fn events(bound: usize) -> (r: (mpsc::Sender<RawEvent>, mpsc::Receiver<RawEvent>))
    requires
        0 < bound <= usize::MAX / 8,
    ensures
        channel_bound(&r.0) == bound,
        connected(r.0, r.1),
{
    let (sender, receiver) = event_channel(bound);
    (sender, receiver)
}

/// A flag that is not set.
pub(crate) fn clear_flag() -> (r: Arc<AtomicBool>)
    ensures
        made_as(*r, false),
{
    Arc::new(AtomicBool::new(false))
}

/// A number that starts at zero.
pub(crate) fn zero() -> (r: Arc<AtomicUsize>)
    ensures
        started_at(*r, 0),
{
    Arc::new(AtomicUsize::new(0))
}

/// Sets a flag.
pub(crate) fn set_flag(flag: &Arc<AtomicBool>)
    ensures
        flagged(**flag, true),
{
    let _ = flag.store(true, std::sync::atomic::Ordering::Release);
}

/// Reads a flag.
pub(crate) fn get_flag(flag: &Arc<AtomicBool>) -> (r: bool)
    ensures
        read_flag(**flag, r),
{
    flag.load(std::sync::atomic::Ordering::Acquire)
}

/// Sets a number.
pub(crate) fn set_number(number: &Arc<AtomicUsize>, value: usize)
    ensures
        recorded_as(**number, value),
{
    let _ = number.store(value, std::sync::atomic::Ordering::Release);
}

/// Reads a number.
pub(crate) fn get_number(number: &Arc<AtomicUsize>) -> (r: usize)
    ensures
        read_number(**number, r),
{
    number.load(std::sync::atomic::Ordering::Acquire)
}

/// The permits of the semaphore that nobody holds at the moment.
pub(crate) fn free_permits(semaphore: &Arc<Semaphore>) -> (r: usize)
    ensures
        found_free(*semaphore, r),
{
    available_permits(semaphore)
}

/// Asks for permits.
pub(crate) fn ask_for(semaphore: &Arc<Semaphore>, count: u32) -> (r: Option<OwnedSemaphorePermit>)
    requires
        count <= usize::MAX / 8,
    ensures
        asked_for(*semaphore, count, r),
        r matches Some(permit) ==> permits(&permit) == count && issuer(&permit) == *semaphore,
{
    try_acquire(semaphore, count)
}

/// Whether the receiving end of the channel is gone at the moment.
pub(crate) fn looks_closed<T>(sender: &mpsc::UnboundedSender<T>) -> (r: bool)
    ensures
        found_closed(*sender, r),
{
    is_closed(sender)
}

} // verus!
