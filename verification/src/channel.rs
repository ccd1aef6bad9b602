//! The two ends of a stream: a bounded channel that carries its chunks, and a slot
//! in which the reader leaves its waker for the writer.
//!
//! Both are `std`'s. What the channel and the slot do is stated in the contracts of
//! the first functions below, and believed; everything else in the crate that
//! speaks of a channel or a slot is proved from these contracts. They also keep
//! count: every look, every send, every parking and every taking of a waker is one
//! step, and nothing but these functions adds a step. Outside this module a stream
//! is only reached through its [`ReaderEnd`] and its [`WriterEnd`].

use crate::protocol::{Look, ReadStep, WriteStep};
use std::sync::mpsc::{Receiver, SyncSender, TryRecvError, TrySendError};
use std::sync::{Arc, Mutex};
use vstd::prelude::*;

verus! {

/// What is left for the other side to call: a parked read that wants to be
/// resumed, or a request that waits for its head. Called at most once, because
/// the call consumes it.
pub trait Wake: Send {
    /// Whether this is called, at some time. Of a `dyn Wake` nothing is known of it but
    /// what [`wake`](Self::wake) ensures; the default is for types that have no more to
    /// say of it.
    open spec fn woken(&self) -> bool {
        true
    }

    fn wake(self: Box<Self>)
        ensures
            self.woken(),
    ;
}

/// A waker with nothing behind it.
pub struct NoWake;

impl Wake for NoWake {
    fn wake(self: Box<Self>) {
    }
}

/// Something to call, whatever it is. It can be handed on and left for somebody, and
/// it can be called once it is due.
pub struct Waker {
    call: Box<dyn Wake>,
}

impl Waker {
    /// Whether this is called.
    pub closed spec fn woken(self) -> bool {
        self.call.woken()
    }

    /// Whether this is what calls `call`.
    pub closed spec fn holds<W: Wake + 'static>(self, call: W) -> bool {
        self == (Waker { call: Box::new(call) })
    }

    /// What calls `call`.
    pub fn new<W: Wake + 'static>(call: W) -> (waker: Waker)
        ensures
            waker.holds(call),
    {
        Waker { call: Box::new(call) }
    }

    /// Calls it.
    pub(crate) fn wake(self)
        requires
            is_due(self),
        ensures
            self.woken(),
    {
        self.call.wake()
    }
}

/// Where the head of a streaming response is published.
pub type HeadSlot = Arc<Mutex<Option<http::Response<()>>>>;

/// The sending half of `std`'s bounded channel.
#[verifier::external_type_specification]
#[verifier::external_body]
#[verifier::reject_recursive_types(T)]
pub struct ExSyncSender<T>(std::sync::mpsc::SyncSender<T>);

/// The receiving half of `std`'s bounded channel.
#[verifier::external_type_specification]
#[verifier::external_body]
#[verifier::reject_recursive_types(T)]
pub struct ExReceiver<T>(std::sync::mpsc::Receiver<T>);

/// `std`'s mutex.
#[verifier::external_type_specification]
#[verifier::external_body]
#[verifier::reject_recursive_types(T)]
pub struct ExMutex<T: ?Sized>(std::sync::Mutex<T>);

/// `http`'s response: status, headers and a body.
#[verifier::external_type_specification]
#[verifier::external_body]
#[verifier::reject_recursive_types(T)]
pub struct ExResponse<T>(http::Response<T>);

/// Whether a waker is to be called: it was taken out of the slot in which it was left,
/// or what it tells of has been published.
pub uninterp spec fn is_due(waker: Waker) -> bool;

/// The chunks that have gone into the channel through `tx`, oldest first.
pub uninterp spec fn sent_chunks(tx: SyncSender<Vec<u8>>) -> Seq<Seq<u8>>;

/// Whether the last use of `tx` found the receiver gone.
pub uninterp spec fn receiver_gone(tx: SyncSender<Vec<u8>>) -> bool;

/// Whether the last attempt on `tx` not to wait found the channel full.
pub uninterp spec fn found_full(tx: SyncSender<Vec<u8>>) -> bool;

/// The chunks that have been taken out of the channel through `rx`, oldest
/// first.
pub uninterp spec fn received_chunks(rx: Receiver<Vec<u8>>) -> Seq<Seq<u8>>;

/// The chunks that the last use of `rx` left in the channel, oldest first.
pub uninterp spec fn queued_chunks(rx: Receiver<Vec<u8>>) -> Seq<Seq<u8>>;

/// Whether the last use of `rx` found the sender gone.
pub uninterp spec fn sender_gone(rx: Receiver<Vec<u8>>) -> bool;

/// The number of chunks that the channel of `rx` was made to hold.
pub uninterp spec fn channel_depth(rx: Receiver<Vec<u8>>) -> nat;

/// All that ever goes into the channel of `tx`, sooner or later: to each place in
/// the row, counted from 0, the chunk that goes there. Fixed for a channel once
/// and for all, whatever part of it has happened yet.
pub uninterp spec fn sender_record(tx: SyncSender<Vec<u8>>) -> Map<int, Seq<u8>>;

/// All that ever goes into the channel of `rx`, as for [`sender_record`].
pub uninterp spec fn receiver_record(rx: Receiver<Vec<u8>>) -> Map<int, Seq<u8>>;

/// Whether `tx` is the only sending half of its channel and was so from the start.
pub uninterp spec fn sole_sender(tx: SyncSender<Vec<u8>>) -> bool;

/// Which slot this is: handles on one slot have one number.
pub uninterp spec fn slot_id(slot: Mutex<Option<Waker>>) -> int;

/// The waker that the last use of this handle left in the slot.
pub uninterp spec fn parked_waker(slot: Mutex<Option<Waker>>) -> Option<Waker>;

/// Whether the last time that this handle was asked it was the only one on its slot.
pub uninterp spec fn is_last_handle(slot: Mutex<Option<Waker>>) -> bool;

/// The steps that a reader has taken with this receiver and this handle on the
/// slot, in order.
pub uninterp spec fn reader_steps(
    rx: Receiver<Vec<u8>>,
    slot: Mutex<Option<Waker>>,
) -> Seq<ReadStep>;

/// The steps that a writer has taken with this sender, which is `None` once it is
/// given up, and this handle on the slot, in order.
pub uninterp spec fn writer_steps(
    tx: Option<SyncSender<Vec<u8>>>,
    slot: Mutex<Option<Waker>>,
) -> Seq<WriteStep>;

/// Which head slot this is: handles on one slot have one number.
pub uninterp spec fn head_id(slot: Mutex<Option<http::Response<()>>>) -> int;

/// The head that the last use of this handle left in the slot.
pub uninterp spec fn published_head(
    slot: Mutex<Option<http::Response<()>>>,
) -> Option<http::Response<()>>;

/// Whether the head that is in the slot was put there while this waker was still at
/// hand, and so before it was called.
pub uninterp spec fn published_before(
    slot: Mutex<Option<http::Response<()>>>,
    waker: Waker,
) -> bool;

/// All the chunks that `rx` knows of: those taken out, then those still in the
/// channel.
pub open spec fn seen_chunks(rx: Receiver<Vec<u8>>) -> Seq<Seq<u8>> {
    received_chunks(rx) + queued_chunks(rx)
}

/// Whether chunks are the first of a record.
pub open spec fn starts_record(chunks: Seq<Seq<u8>>, record: Map<int, Seq<u8>>) -> bool {
    forall|i: int|
        0 <= i < chunks.len() ==> #[trigger] record.dom().contains(i) && record[i] == chunks[i]
}

/// What a look into the channel found.
pub enum Polled {
    /// The oldest chunk, now taken out.
    Chunk(Vec<u8>),
    /// Nothing yet.
    Empty,
    /// Nothing, and nothing will come: the sender is gone.
    Closed,
}

impl View for Polled {
    type V = Look;

    open spec fn view(&self) -> Look {
        match *self {
            Polled::Chunk(chunk) => Look::Chunk(chunk@),
            Polled::Empty => Look::Empty,
            Polled::Closed => Look::Closed,
        }
    }
}

/// What came of an attempt to put a chunk into the channel without waiting.
pub enum Offered {
    Accepted,
    Full,
    Closed,
}

/// `std::sync::mpsc::sync_channel`: a fresh channel that holds `depth` chunks,
/// with nothing in it and both halves alive. What goes into the one half is what
/// the other half gets.
#[verifier::external_body]
fn open_channel(depth: usize) -> (ends: (SyncSender<Vec<u8>>, Receiver<Vec<u8>>))
    ensures
        sent_chunks(ends.0) == Seq::<Seq<u8>>::empty(),
        !receiver_gone(ends.0),
        received_chunks(ends.1) == Seq::<Seq<u8>>::empty(),
        queued_chunks(ends.1) == Seq::<Seq<u8>>::empty(),
        !sender_gone(ends.1),
        channel_depth(ends.1) == depth,
        sole_sender(ends.0),
        sender_record(ends.0) == receiver_record(ends.1),
{
    std::sync::mpsc::sync_channel(depth)
}

/// `SyncSender::send`: waits until the channel has room, then puts the chunk in
/// at the back. Fails exactly when the receiver is gone, for good, and then the
/// channel gets nothing. What the only sending half puts in is what goes in, in
/// that order. A chunk that goes in is one step of the writer.
#[verifier::external_body]
fn send(
    tx: &mut SyncSender<Vec<u8>>,
    slot: &Arc<Mutex<Option<Waker>>>,
    chunk: Vec<u8>,
) -> (accepted: bool)
    ensures
        accepted == !receiver_gone(*final(tx)),
        receiver_gone(*old(tx)) ==> receiver_gone(*final(tx)),
        sent_chunks(*final(tx)) == if accepted {
            sent_chunks(*old(tx)).push(chunk@)
        } else {
            sent_chunks(*old(tx))
        },
        sole_sender(*final(tx)) == sole_sender(*old(tx)),
        sender_record(*final(tx)) == sender_record(*old(tx)),
        sole_sender(*old(tx)) ==> starts_record(
            sent_chunks(*final(tx)),
            sender_record(*final(tx)),
        ),
        writer_steps(Some(*final(tx)), **slot) == if accepted {
            writer_steps(Some(*old(tx)), **slot).push(WriteStep::Send(chunk@))
        } else {
            writer_steps(Some(*old(tx)), **slot)
        },
{
    tx.send(chunk).is_ok()
}

/// `SyncSender::try_send`: as `send`, but where the channel is full, and only there,
/// it gives up the chunk in place of waiting.
#[verifier::external_body]
pub(crate) fn offer(tx: &mut SyncSender<Vec<u8>>, chunk: Vec<u8>) -> (offered: Offered)
    ensures
        (offered is Closed) == receiver_gone(*final(tx)),
        (offered is Full) == found_full(*final(tx)),
        receiver_gone(*old(tx)) ==> receiver_gone(*final(tx)),
        sent_chunks(*final(tx)) == if offered is Accepted {
            sent_chunks(*old(tx)).push(chunk@)
        } else {
            sent_chunks(*old(tx))
        },
        sole_sender(*final(tx)) == sole_sender(*old(tx)),
        sender_record(*final(tx)) == sender_record(*old(tx)),
        sole_sender(*old(tx)) ==> starts_record(
            sent_chunks(*final(tx)),
            sender_record(*final(tx)),
        ),
{
    match tx.try_send(chunk) {
        Ok(()) => Offered::Accepted,
        Err(TrySendError::Full(_)) => Offered::Full,
        Err(TrySendError::Disconnected(_)) => Offered::Closed,
    }
}

/// `std::mem::drop` on the sending half, left where it was held: the receiver sees
/// the end once it has taken out what is still in the channel. What the only
/// sending half has put in by then is all that ever goes in. One step of the
/// writer.
#[verifier::external_body]
fn drop_sender(tx: &mut Option<SyncSender<Vec<u8>>>, slot: &mut Arc<Mutex<Option<Waker>>>)
    requires
        *old(tx) is Some,
    ensures
        *final(tx) is None,
        *old(tx) matches Some(tx) ==> (sole_sender(tx) ==> !sender_record(tx).dom().contains(
            sent_chunks(tx).len() as int,
        )),
        slot_id(**final(slot)) == slot_id(**old(slot)),
        writer_steps(*final(tx), **final(slot)) == writer_steps(*old(tx), **old(slot)).push(
            WriteStep::HangUp,
        ),
{
    drop(tx.take());
}

/// `Receiver::try_recv`: takes the oldest chunk out, or says that there is none
/// and whether one can still come. Chunks come out in the order in which they
/// went in; what `rx` saw in the channel before is still there, in its place,
/// behind what has been taken out; once the sender is gone nothing is added. The
/// channel never holds more than its depth, and nothing but what goes in. One step
/// of the reader.
#[verifier::external_body]
fn poll(rx: &mut Receiver<Vec<u8>>, slot: &Arc<Mutex<Option<Waker>>>) -> (polled: Polled)
    ensures
        match polled {
            Polled::Chunk(chunk) => received_chunks(*final(rx)) == received_chunks(*old(rx)).push(
                chunk@,
            ),
            Polled::Empty => {
                &&& received_chunks(*final(rx)) == received_chunks(*old(rx))
                &&& queued_chunks(*final(rx)) == Seq::<Seq<u8>>::empty()
                &&& !sender_gone(*final(rx))
            },
            Polled::Closed => {
                &&& received_chunks(*final(rx)) == received_chunks(*old(rx))
                &&& queued_chunks(*final(rx)) == Seq::<Seq<u8>>::empty()
                &&& sender_gone(*final(rx))
            },
        },
        seen_chunks(*old(rx)).is_prefix_of(seen_chunks(*final(rx))),
        sender_gone(*old(rx)) ==> {
            &&& sender_gone(*final(rx))
            &&& seen_chunks(*final(rx)) == seen_chunks(*old(rx))
        },
        channel_depth(*final(rx)) == channel_depth(*old(rx)),
        queued_chunks(*final(rx)).len() <= channel_depth(*final(rx)),
        receiver_record(*final(rx)) == receiver_record(*old(rx)),
        starts_record(seen_chunks(*final(rx)), receiver_record(*final(rx))),
        sender_gone(*final(rx)) ==> !receiver_record(*final(rx)).dom().contains(
            seen_chunks(*final(rx)).len() as int,
        ),
        reader_steps(*final(rx), **slot) == reader_steps(*old(rx), **slot).push(
            ReadStep::Poll(polled@),
        ),
{
    match rx.try_recv() {
        Ok(chunk) => Polled::Chunk(chunk),
        Err(TryRecvError::Empty) => Polled::Empty,
        Err(TryRecvError::Disconnected) => Polled::Closed,
    }
}

/// `Mutex::new`: a slot with nothing in it, with which no steps were taken.
#[verifier::external_body]
fn empty_slot(tx: &SyncSender<Vec<u8>>, rx: &Receiver<Vec<u8>>) -> (slot: Mutex<Option<Waker>>)
    ensures
        parked_waker(slot) is None,
        reader_steps(*rx, slot) == Seq::<ReadStep>::empty(),
        writer_steps(Some(*tx), slot) == Seq::<WriteStep>::empty(),
{
    Mutex::new(None)
}

/// `Mutex::lock` on a wake slot, to leave `waker` in it, uncalled. A waker that was
/// still there is dropped uncalled. One step of the reader.
#[verifier::external_body]
fn park(rx: &Receiver<Vec<u8>>, slot: &mut Arc<Mutex<Option<Waker>>>, waker: Waker)
    ensures
        parked_waker(**final(slot)) == Some(waker),
        is_last_handle(**final(slot)) == is_last_handle(**old(slot)),
        slot_id(**final(slot)) == slot_id(**old(slot)),
        reader_steps(*rx, **final(slot)) == reader_steps(*rx, **old(slot)).push(
            ReadStep::Park(waker),
        ),
{
    *slot.lock().unwrap_or_else(std::sync::PoisonError::into_inner) = Some(waker);
}

/// `Mutex::lock` on a wake slot, to take out what is in it and drop it uncalled.
/// One step of the reader.
#[verifier::external_body]
fn withdraw_waker(rx: &Receiver<Vec<u8>>, slot: &mut Arc<Mutex<Option<Waker>>>)
    ensures
        parked_waker(**final(slot)) is None,
        is_last_handle(**final(slot)) == is_last_handle(**old(slot)),
        slot_id(**final(slot)) == slot_id(**old(slot)),
        reader_steps(*rx, **final(slot)) == reader_steps(*rx, **old(slot)).push(
            ReadStep::Withdraw,
        ),
{
    *slot.lock().unwrap_or_else(std::sync::PoisonError::into_inner) = None;
}

/// `Mutex::lock` on a wake slot, to take out what is in it. Whether that is a
/// waker depends on what the other side did last; if it is, it is due. The lock is
/// free again when this returns. One step of the writer.
#[verifier::external_body]
fn take_waker(
    tx: &Option<SyncSender<Vec<u8>>>,
    slot: &mut Arc<Mutex<Option<Waker>>>,
) -> (waker: Option<Waker>)
    ensures
        waker matches Some(waker) ==> is_due(waker),
        parked_waker(**final(slot)) is None,
        slot_id(**final(slot)) == slot_id(**old(slot)),
        writer_steps(*tx, **final(slot)) == writer_steps(*tx, **old(slot)).push(
            WriteStep::TakeWaker(waker),
        ),
{
    slot.lock().unwrap_or_else(std::sync::PoisonError::into_inner).take()
}

/// `Arc::get_mut`: whether this is the only handle on its slot. That depends on
/// whether the other side still has its own; nothing in the slot changes.
#[verifier::external_body]
fn is_alone(rx: &Receiver<Vec<u8>>, slot: &mut Arc<Mutex<Option<Waker>>>) -> (alone: bool)
    ensures
        alone == is_last_handle(**final(slot)),
        parked_waker(**final(slot)) == parked_waker(**old(slot)),
        slot_id(**final(slot)) == slot_id(**old(slot)),
        reader_steps(*rx, **final(slot)) == reader_steps(*rx, **old(slot)),
{
    Arc::get_mut(slot).is_some()
}

/// `Mutex::new`: a head slot with nothing published.
#[verifier::external_body]
fn empty_head_slot() -> (slot: Mutex<Option<http::Response<()>>>)
    ensures
        published_head(slot) is None,
{
    Mutex::new(None)
}

/// `Mutex::lock` on a head slot, to publish `head` in it. `on_head`, which is handed
/// in uncalled and handed back, is then due.
#[verifier::external_body]
pub(crate) fn publish_head(
    slot: &mut HeadSlot,
    head: http::Response<()>,
    on_head: Waker,
) -> (told: Waker)
    ensures
        published_head(**final(slot)) == Some(head),
        head_id(**final(slot)) == head_id(**old(slot)),
        told == on_head,
        is_due(told),
        published_before(**final(slot), told),
{
    *slot.lock().unwrap_or_else(std::sync::PoisonError::into_inner) = Some(head);
    on_head
}

/// A head slot with nothing published.
pub(crate) fn new_head_slot() -> (slot: HeadSlot)
    ensures
        published_head(*slot) is None,
{
    Arc::new(empty_head_slot())
}

/// The end of a stream that is read from.
pub struct ReaderEnd {
    rx: Receiver<Vec<u8>>,
    slot: Arc<Mutex<Option<Waker>>>,
}

/// The end of a stream that is written to.
pub struct WriterEnd {
    /// `None` once it was given up.
    tx: Option<SyncSender<Vec<u8>>>,
    slot: Arc<Mutex<Option<Waker>>>,
}

impl ReaderEnd {
    /// The chunks taken out of the channel so far.
    pub closed spec fn received(self) -> Seq<Seq<u8>> {
        received_chunks(self.rx)
    }

    /// The chunks that the last look left in the channel.
    pub closed spec fn queued(self) -> Seq<Seq<u8>> {
        queued_chunks(self.rx)
    }

    /// All chunks seen so far.
    pub open spec fn seen(self) -> Seq<Seq<u8>> {
        self.received() + self.queued()
    }

    /// Whether the last look found the writer gone.
    pub closed spec fn writer_gone(self) -> bool {
        sender_gone(self.rx)
    }

    /// The number of chunks that the channel holds.
    pub closed spec fn depth(self) -> nat {
        channel_depth(self.rx)
    }

    /// All that is ever written to this stream: to each place in the row its chunk.
    pub closed spec fn record(self) -> Map<int, Seq<u8>> {
        receiver_record(self.rx)
    }

    /// Which slot the wakers of this stream go to.
    pub closed spec fn wake_id(self) -> int {
        slot_id(*self.slot)
    }

    /// The waker that was left in the slot, as far as this end knows.
    pub closed spec fn parked(self) -> Option<Waker> {
        parked_waker(*self.slot)
    }

    /// Whether the writer had let go of the stream when it was last asked.
    pub closed spec fn writer_left(self) -> bool {
        is_last_handle(*self.slot)
    }

    /// The steps taken at this end.
    pub closed spec fn steps(self) -> Seq<ReadStep> {
        reader_steps(self.rx, *self.slot)
    }

    /// Looks into the channel, and takes the oldest chunk out if there is one.
    pub(crate) fn look(&mut self) -> (polled: Polled)
        ensures
            match polled {
                Polled::Chunk(chunk) => final(self).received() == old(self).received().push(chunk@),
                Polled::Empty => {
                    &&& final(self).received() == old(self).received()
                    &&& final(self).queued() == Seq::<Seq<u8>>::empty()
                    &&& !final(self).writer_gone()
                },
                Polled::Closed => {
                    &&& final(self).received() == old(self).received()
                    &&& final(self).queued() == Seq::<Seq<u8>>::empty()
                    &&& final(self).writer_gone()
                },
            },
            old(self).seen().is_prefix_of(final(self).seen()),
            old(self).writer_gone() ==> {
                &&& final(self).writer_gone()
                &&& final(self).seen() == old(self).seen()
            },
            final(self).depth() == old(self).depth(),
            final(self).queued().len() <= final(self).depth(),
            final(self).record() == old(self).record(),
            starts_record(final(self).seen(), final(self).record()),
            final(self).writer_gone() ==> !final(self).record().dom().contains(
                final(self).seen().len() as int,
            ),
            final(self).wake_id() == old(self).wake_id(),
            final(self).parked() == old(self).parked(),
            final(self).writer_left() == old(self).writer_left(),
            final(self).steps() == old(self).steps().push(ReadStep::Poll(polled@)),
    {
        poll(&mut self.rx, &self.slot)
    }

    /// What stays as it is when only the slot is used.
    pub open spec fn same_channel(self, other: ReaderEnd) -> bool {
        &&& self.received() == other.received()
        &&& self.queued() == other.queued()
        &&& self.writer_gone() == other.writer_gone()
        &&& self.depth() == other.depth()
        &&& self.record() == other.record()
        &&& self.wake_id() == other.wake_id()
    }

    /// Leaves a waker for the writer.
    pub(crate) fn park(&mut self, waker: Waker)
        ensures
            final(self).same_channel(*old(self)),
            final(self).parked() == Some(waker),
            final(self).writer_left() == old(self).writer_left(),
            final(self).steps() == old(self).steps().push(ReadStep::Park(waker)),
    {
        park(&self.rx, &mut self.slot, waker);
    }

    /// Takes the waker back, if the writer did not take it meanwhile.
    pub(crate) fn withdraw(&mut self)
        ensures
            final(self).same_channel(*old(self)),
            final(self).parked() is None,
            final(self).writer_left() == old(self).writer_left(),
            final(self).steps() == old(self).steps().push(ReadStep::Withdraw),
    {
        withdraw_waker(&self.rx, &mut self.slot);
    }

    /// Whether the writer has let go of the stream. It gives up its half of the
    /// channel before it lets go of the slot, so that nothing is written any more.
    pub(crate) fn has_writer_left(&mut self) -> (left: bool)
        ensures
            left == final(self).writer_left(),
            final(self).same_channel(*old(self)),
            final(self).parked() == old(self).parked(),
            final(self).steps() == old(self).steps(),
    {
        is_alone(&self.rx, &mut self.slot)
    }
}

impl WriterEnd {
    /// Whether the channel can still be written to from here.
    pub closed spec fn is_open(self) -> bool {
        self.tx is Some
    }

    /// The chunks written so far.
    pub closed spec fn sent(self) -> Seq<Seq<u8>> {
        sent_chunks(self.tx->0)
    }

    /// Whether the reader was found gone.
    pub closed spec fn reader_gone(self) -> bool {
        receiver_gone(self.tx->0)
    }

    /// Whether nobody else writes to this stream.
    pub closed spec fn sole(self) -> bool {
        sole_sender(self.tx->0)
    }

    /// All that is ever written to this stream: to each place in the row its chunk.
    pub closed spec fn record(self) -> Map<int, Seq<u8>> {
        sender_record(self.tx->0)
    }

    /// Which slot the wakers of this stream come from.
    pub closed spec fn wake_id(self) -> int {
        slot_id(*self.slot)
    }

    /// The steps taken at this end.
    pub closed spec fn steps(self) -> Seq<WriteStep> {
        writer_steps(self.tx, *self.slot)
    }

    /// Puts a chunk into the channel, once there is room.
    pub(crate) fn send(&mut self, chunk: Vec<u8>) -> (accepted: bool)
        requires
            old(self).is_open(),
        ensures
            final(self).is_open(),
            accepted == !final(self).reader_gone(),
            old(self).reader_gone() ==> final(self).reader_gone(),
            final(self).sole() == old(self).sole(),
            final(self).record() == old(self).record(),
            old(self).sole() ==> starts_record(final(self).sent(), final(self).record()),
            final(self).wake_id() == old(self).wake_id(),
            accepted ==> {
                &&& final(self).sent() == old(self).sent().push(chunk@)
                &&& final(self).steps() == old(self).steps().push(WriteStep::Send(chunk@))
            },
            !accepted ==> {
                &&& final(self).sent() == old(self).sent()
                &&& final(self).steps() == old(self).steps()
            },
    {
        let mut half = self.tx.take();
        let accepted = match &mut half {
            Some(tx) => send(tx, &self.slot, chunk),
            None => false,
        };
        self.tx = half;
        accepted
    }

    /// Gives up the sending half, so that the reader sees the end, takes the waker that
    /// the reader left, lets go of the stream, and then calls the waker. Says where the
    /// steps ended.
    pub(crate) fn finish(self) -> (last: Ghost<(WriterEnd, Option<Waker>)>)
        requires
            self.is_open(),
        ensures
            self.sole() ==> !self.record().dom().contains(self.sent().len() as int),
            !last@.0.is_open(),
            last@.0.wake_id() == self.wake_id(),
            last@.0.steps() == self.steps().push(WriteStep::HangUp).push(
                WriteStep::TakeWaker(last@.1),
            ),
            last@.1 matches Some(waker) ==> waker.woken(),
    {
        let mut end = self;
        drop_sender(&mut end.tx, &mut end.slot);
        let found = take_waker(&end.tx, &mut end.slot);
        let ghost last = (end, found);
        end.let_go();
        if let Some(waker) = found {
            waker.wake();
        }
        Ghost(last)
    }

    /// Lets go of the channel and the slot.
    fn let_go(self) {
    }

    /// Takes the waker that the reader left, if there is one, and calls it. The slot
    /// is free again while the waker runs, so that the waker can read and park anew.
    pub(crate) fn wake_reader(&mut self) -> (taken: Ghost<Option<Waker>>)
        ensures
            final(self).steps() == old(self).steps().push(WriteStep::TakeWaker(taken@)),
            taken@ matches Some(waker) ==> waker.woken(),
            final(self).is_open() == old(self).is_open(),
            final(self).sent() == old(self).sent(),
            final(self).reader_gone() == old(self).reader_gone(),
            final(self).sole() == old(self).sole(),
            final(self).record() == old(self).record(),
            final(self).wake_id() == old(self).wake_id(),
    {
        let found = take_waker(&self.tx, &mut self.slot);
        let ghost taken = found;
        if let Some(waker) = found {
            waker.wake();
        }
        Ghost(taken)
    }
}

/// The two ends of a fresh stream, on one channel and one slot.
pub(crate) fn open_stream(depth: usize) -> (ends: (WriterEnd, ReaderEnd))
    ensures
        ends.0.is_open(),
        ends.0.sole(),
        ends.0.sent() == Seq::<Seq<u8>>::empty(),
        !ends.0.reader_gone(),
        ends.0.steps() == Seq::<WriteStep>::empty(),
        ends.1.received() == Seq::<Seq<u8>>::empty(),
        ends.1.queued() == Seq::<Seq<u8>>::empty(),
        !ends.1.writer_gone(),
        ends.1.depth() == depth,
        ends.1.parked() is None,
        ends.1.steps() == Seq::<ReadStep>::empty(),
        ends.0.record() == ends.1.record(),
        ends.0.wake_id() == ends.1.wake_id(),
{
    let (tx, rx) = open_channel(depth);
    let slot = Arc::new(empty_slot(&tx, &rx));
    let other = slot.clone();
    (WriterEnd { tx: Some(tx), slot }, ReaderEnd { rx, slot: other })
}

} // verus!
