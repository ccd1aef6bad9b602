//! Streaming custom-scheme responses.
//!
//! A buffered scheme handler hands over a whole response before CEF sees a byte
//! of it, so it cannot stream (server-sent events, chunked downloads, a response
//! whose length is unknown up front). A streaming handler is given a
//! [`StreamResponder`] instead: it sends the status and the headers once, then
//! writes body chunks on a [`StreamWriter`] that applies real backpressure. CEF
//! pulls those chunks through a [`StreamBody`].
//!
//! What follows from the order of the steps that the two sides take is in
//! [`crate::protocol`]; that they are taken in that order is stated and proved here.

use crate::channel::{
    found_full, head_id, new_head_slot, offer, open_stream, publish_head, published_before,
    published_head, receiver_gone, sent_chunks, starts_record, HeadSlot, Offered, Polled,
    ReaderEnd, Waker, WriterEnd,
};
use crate::protocol::{
    after_all_keeps_wf, after_all_part, calls_what_it_takes, last_parked, no_wakeup_is_lost,
    reader_at, reader_at_push, reads_of, the_end_wakes_the_waiting_reader, writer_at,
    writer_at_push, writes_of, Look, ReadStep, ReaderAt, StreamState, StreamStep, WriteStep,
    WriterAt, CHANNEL_DEPTH,
};
use std::sync::mpsc::SyncSender;
use vstd::prelude::*;

verus! {

/// The trusted origin that initiated a request, as tracked by the browser
/// process, and not a header that the caller supplied. `None` when the initiator
/// is not a non-opaque known frame (a cross-origin subframe, say); a handler must
/// take `None` as "not same-origin" and reject, never as same-origin.
#[derive(Debug, Clone, PartialEq, Eq)]
pub struct InitiatorOrigin(pub Option<String>);

/// Returned by [`StreamWriter::write`] when the renderer cancelled the request
/// (the pull side was dropped). Stop producing.
#[derive(Debug, PartialEq, Eq)]
pub struct StreamClosed;

/// What came of one [`StreamBody::read`].
#[derive(Debug, PartialEq, Eq)]
pub enum ReadOutcome {
    /// So many bytes were copied into the output buffer.
    Copied(usize),
    /// No bytes are there yet; the waker was parked and is called by the next
    /// write. Or there are bytes, and no room at all in the output buffer.
    Pending,
    /// The producer has finished and everything was read.
    Done,
}

/// The pull side, which CEF reads through. Holds what is left of a chunk that
/// did not fit the last output buffer.
pub struct StreamBody {
    end: ReaderEnd,
    leftover: Vec<u8>,
    cursor: usize,
    /// Whether the end was seen.
    ended: bool,
    delivered: Ghost<Seq<u8>>,
}

impl StreamBody {
    /// The chunks taken out of the channel so far.
    pub closed spec fn received(self) -> Seq<Seq<u8>> {
        self.end.received()
    }

    /// The chunks that the last look left in the channel.
    pub closed spec fn queued(self) -> Seq<Seq<u8>> {
        self.end.queued()
    }

    /// Whether a look found the writer gone and nothing left.
    pub closed spec fn writer_gone(self) -> bool {
        self.ended
    }

    /// Whether the writer had let go of the stream when it was last asked.
    pub closed spec fn writer_left(self) -> bool {
        self.end.writer_left()
    }

    /// The bytes of the last chunk that were not handed out yet.
    pub closed spec fn unread(self) -> Seq<u8> {
        self.leftover@.skip(self.cursor as int)
    }

    /// All bytes handed out so far.
    pub closed spec fn delivered(self) -> Seq<u8> {
        self.delivered@
    }

    /// The waker that was left in the slot, as far as this side knows.
    pub closed spec fn parked(self) -> Option<Waker> {
        self.end.parked()
    }

    /// Which slot the wakers go to.
    pub closed spec fn wake_id(self) -> int {
        self.end.wake_id()
    }

    /// The steps taken so far on the channel and the slot.
    pub closed spec fn steps(self) -> Seq<ReadStep> {
        self.end.steps()
    }

    /// All that is ever written to this body: to each place in the row its chunk.
    pub closed spec fn record(self) -> Map<int, Seq<u8>> {
        self.end.record()
    }

    /// Whether the last read found nothing, and left its waker.
    pub open spec fn waits(self) -> bool {
        reader_at(self.steps()) == Some(ReaderAt::Waiting)
    }

    /// Nothing taken out of the channel is lost or handed out twice: what was
    /// handed out, followed by what is still to be handed out of the last chunk,
    /// is what was taken out. What was seen of the channel is the first of what is
    /// written, and all of it once the writer was found gone. The channel is as deep
    /// as it was made. The steps were taken in order, and the waker of a body that
    /// waits is the one that was left last.
    pub closed spec fn wf(self) -> bool {
        &&& self.cursor <= self.leftover@.len()
        &&& self.received().flatten() == self.delivered() + self.unread()
        &&& self.end.depth() == CHANNEL_DEPTH
        &&& self.queued().len() <= CHANNEL_DEPTH
        &&& starts_record(self.received() + self.queued(), self.record())
        &&& self.writer_gone() ==> {
            &&& self.end.writer_gone()
            &&& self.queued().len() == 0
            &&& !self.record().dom().contains(self.received().len() as int)
        }
        &&& reader_at(self.steps()) matches Some(at) && at.is_idle()
        &&& self.waits() ==> self.parked() is Some && self.parked() == last_parked(self.steps())
    }

    /// Takes the next chunk up, now that nothing is left of the last one. Returns
    /// what the read has to return where there is no chunk.
    fn fetch(&mut self, waker: Waker) -> (stop: Option<ReadOutcome>)
        requires
            old(self).wf(),
            old(self).unread().len() == 0,
        ensures
            final(self).wf(),
            final(self).record() == old(self).record(),
            final(self).wake_id() == old(self).wake_id(),
            final(self).delivered() == old(self).delivered(),
            final(self).writer_left() == old(self).writer_left(),
            old(self).steps().is_prefix_of(final(self).steps()),
            (old(self).received() + old(self).queued()).is_prefix_of(
                final(self).received() + final(self).queued(),
            ),
            match stop {
                None => {
                    &&& took_up(*old(self), *final(self), final(self).unread(), waker)
                    &&& !(old(self).queued().len() == 0 && old(self).writer_gone())
                },
                Some(ReadOutcome::Copied(_)) => false,
                Some(ReadOutcome::Pending) => {
                    &&& left_waker(*old(self), *final(self), waker)
                    &&& !final(self).writer_gone()
                    &&& !old(self).writer_gone()
                },
                Some(ReadOutcome::Done) => {
                    &&& saw_end(*old(self), *final(self), waker)
                    &&& final(self).writer_gone()
                },
            },
            stop is Some ==> {
                &&& final(self).unread().len() == 0
                &&& final(self).received() == old(self).received()
                &&& final(self).queued().len() == 0
                &&& old(self).queued().len() == 0
            },
    {
        broadcast use Seq::lemma_flatten_push;

        let ghost before = self.steps();
        let first = self.end.look();
        let ghost steps1 = self.steps();
        proof {
            reader_at_push(before, ReadStep::Poll(first@));
        }
        assert(steps1.skip(before.len() as int) =~= seq![ReadStep::Poll(first@)]);
        match first {
            Polled::Chunk(chunk) => {
                self.leftover = chunk;
                self.cursor = 0;
                assert(self.unread() =~= chunk@);
                None
            },
            Polled::Empty => {
                // Park, then look once more: a write between the first look and
                // the parking would otherwise be a lost wakeup.
                self.end.park(waker);
                let ghost steps2 = self.steps();
                let second = self.end.look();
                let ghost steps3 = self.steps();
                proof {
                    reader_at_push(steps1, ReadStep::Park(waker));
                    reader_at_push(steps2, ReadStep::Poll(second@));
                    reader_at_push(steps3, ReadStep::Withdraw);
                }
                assert(steps3.skip(before.len() as int) =~= seq![
                    ReadStep::Poll(first@),
                    ReadStep::Park(waker),
                    ReadStep::Poll(second@),
                ]);
                match second {
                    Polled::Chunk(chunk) => {
                        self.end.withdraw();
                        let ghost steps4 = self.steps();
                        assert(steps4.skip(before.len() as int) =~= seq![
                            ReadStep::Poll(first@),
                            ReadStep::Park(waker),
                            ReadStep::Poll(second@),
                            ReadStep::Withdraw,
                        ]);
                        self.leftover = chunk;
                        self.cursor = 0;
                        assert(self.unread() =~= chunk@);
                        None
                    },
                    Polled::Empty => Some(ReadOutcome::Pending),
                    Polled::Closed => {
                        self.end.withdraw();
                        let ghost steps4 = self.steps();
                        assert(steps4.skip(before.len() as int) =~= seq![
                            ReadStep::Poll(first@),
                            ReadStep::Park(waker),
                            ReadStep::Poll(second@),
                            ReadStep::Withdraw,
                        ]);
                        self.ended = true;
                        Some(ReadOutcome::Done)
                    },
                }
            },
            Polled::Closed => {
                self.ended = true;
                Some(ReadOutcome::Done)
            },
        }
    }

    /// Copies as much as fits into `out`. When nothing is buffered, parks `waker`
    /// (called by the next write) and returns [`ReadOutcome::Pending`]; once the
    /// producer is gone and nothing is buffered, returns [`ReadOutcome::Done`]. The
    /// waker is not called from here.
    ///
    /// Into an empty `out` nothing is copied. As long as the producer is there, such a
    /// read leaves the channel and the slot alone.
    pub fn read(&mut self, out: &mut [u8], waker: Waker) -> (outcome: ReadOutcome)
        requires
            old(self).wf(),
        ensures
            final(self).wf(),
            final(self).record() == old(self).record(),
            final(self).wake_id() == old(self).wake_id(),
            read_did(*old(self), *final(self), old(out)@, final(out)@, waker, outcome),
    {
        if self.cursor >= self.leftover.len() {
            if out.len() == 0 && !self.ended && !self.end.has_writer_left() {
                return ReadOutcome::Pending;
            }
            if let Some(outcome) = self.fetch(waker) {
                return outcome;
            }
        } else {
            assert(self.steps().skip(self.steps().len() as int) =~= Seq::empty());
        }
        let ghost taken_up = *self;
        let ghost available = self.unread();
        assert(took_up(*old(self), *self, available, waker));
        if out.len() == 0 {
            return ReadOutcome::Pending;
        }
        let left: usize = self.leftover.len() - self.cursor;
        let n: usize = if left < out.len() {
            left
        } else {
            out.len()
        };
        let mut i: usize = 0;
        while i < n
            invariant
                0 <= i <= n,
                n <= out@.len(),
                self.cursor + n <= self.leftover.len(),
                out@.len() == old(out)@.len(),
                out@ =~= self.leftover@.subrange(self.cursor as int, self.cursor + i) + old(
                    out,
                )@.skip(i as int),
            decreases n - i,
        {
            out[i] = self.leftover[self.cursor + i];
            i += 1;
        }
        self.cursor += n;
        self.delivered = Ghost(self.delivered@ + out@.take(n as int));
        proof {
            assert(out@.take(n as int) =~= available.take(n as int));
            assert(self.unread() =~= available.skip(n as int));
            assert(available.take(n as int) + available.skip(n as int) =~= available);
            assert(self.delivered() + self.unread() =~= old(self).delivered() + available);
            assert(took_up(*old(self), *self, available, waker));
            assert(out@ =~= available.take(n as int) + old(out)@.skip(n as int));
        }
        ReadOutcome::Copied(n)
    }
}

/// The steps of a read that looked once, and then once more because it found nothing
/// and left its waker, which it took back.
pub open spec fn raced_steps(waker: Waker, found: Look) -> Seq<ReadStep> {
    seq![
        ReadStep::Poll(Look::Empty),
        ReadStep::Park(waker),
        ReadStep::Poll(found),
        ReadStep::Withdraw,
    ]
}

/// The steps that a read took.
pub open spec fn new_steps(old_body: StreamBody, new_body: StreamBody) -> Seq<ReadStep> {
    new_body.steps().skip(old_body.steps().len() as int)
}

/// A read that has bytes to hand out. What is left of the last chunk goes first; the
/// next chunk is taken out only once nothing is left.
pub open spec fn took_up(
    old_body: StreamBody,
    new_body: StreamBody,
    available: Seq<u8>,
    waker: Waker,
) -> bool {
    let steps = new_steps(old_body, new_body);
    if old_body.unread().len() > 0 {
        &&& available == old_body.unread()
        &&& new_body.steps() == old_body.steps()
        &&& new_body.received() == old_body.received()
        &&& new_body.queued() == old_body.queued()
        &&& new_body.writer_gone() == old_body.writer_gone()
        &&& new_body.parked() == old_body.parked()
    } else {
        &&& new_body.received() == old_body.received().push(available)
        &&& {
            ||| steps == seq![ReadStep::Poll(Look::Chunk(available))] && new_body.parked()
                == old_body.parked()
            ||| steps == raced_steps(waker, Look::Chunk(available)) && new_body.parked() is None
        }
    }
}

/// A read that found nothing, left its waker, and then found nothing once more.
pub open spec fn left_waker(old_body: StreamBody, new_body: StreamBody, waker: Waker) -> bool {
    &&& new_steps(old_body, new_body) == seq![
        ReadStep::Poll(Look::Empty),
        ReadStep::Park(waker),
        ReadStep::Poll(Look::Empty),
    ]
    &&& new_body.parked() == Some(waker)
    &&& new_body.waits()
}

/// A read that saw the end.
pub open spec fn saw_end(old_body: StreamBody, new_body: StreamBody, waker: Waker) -> bool {
    let steps = new_steps(old_body, new_body);
    ||| steps == seq![ReadStep::Poll(Look::Closed)] && new_body.parked() == old_body.parked()
    ||| steps == raced_steps(waker, Look::Closed) && new_body.parked() is None
}

/// A read that left the channel and the slot alone.
pub open spec fn left_alone(old_body: StreamBody, new_body: StreamBody) -> bool {
    &&& new_body.steps() == old_body.steps()
    &&& new_body.received() == old_body.received()
    &&& new_body.queued() == old_body.queued()
    &&& new_body.writer_gone() == old_body.writer_gone()
    &&& new_body.parked() == old_body.parked()
    &&& new_body.unread() == old_body.unread()
}

/// What one read does.
pub open spec fn read_did(
    old_body: StreamBody,
    new_body: StreamBody,
    old_out: Seq<u8>,
    new_out: Seq<u8>,
    waker: Waker,
    outcome: ReadOutcome,
) -> bool {
    &&& old_body.steps().is_prefix_of(new_body.steps())
    &&& (old_body.received() + old_body.queued()).is_prefix_of(
        new_body.received() + new_body.queued(),
    )
    &&& match outcome {
        ReadOutcome::Copied(n) => {
            let available = if old_body.unread().len() > 0 {
                old_body.unread()
            } else {
                new_body.received().last()
            };
            &&& old_out.len() > 0
            &&& took_up(old_body, new_body, available, waker)
            &&& n == if available.len() < old_out.len() {
                available.len()
            } else {
                old_out.len()
            }
            &&& new_out == available.take(n as int) + old_out.skip(n as int)
            &&& new_body.unread() == available.skip(n as int)
            &&& new_body.delivered() == old_body.delivered() + available.take(n as int)
        },
        ReadOutcome::Pending => {
            ||| {
                &&& left_waker(old_body, new_body, waker)
                &&& !new_body.writer_gone()
                &&& read_nothing(old_body, new_body, old_out, new_out)
            }
            ||| {
                // There are bytes, and no room for any; or the producer is still there.
                &&& old_out.len() == 0
                &&& left_alone(old_body, new_body) && !new_body.writer_left() || took_up(
                    old_body,
                    new_body,
                    new_body.unread(),
                    waker,
                )
                &&& new_body.delivered() == old_body.delivered()
                &&& new_out == old_out
            }
        },
        ReadOutcome::Done => {
            &&& saw_end(old_body, new_body, waker)
            &&& new_body.writer_gone()
            &&& read_nothing(old_body, new_body, old_out, new_out)
        },
    }
    // What is known to be there is handed out, as far as there is room, and a known
    // end is told.
    &&& old_body.unread().len() > 0 || old_body.queued().len() > 0 ==> if old_out.len() > 0 {
        outcome is Copied
    } else {
        outcome is Pending
    }
    &&& old_body.unread().len() == 0 && old_body.queued().len() == 0 && old_body.writer_gone()
        ==> outcome is Done
    // Without room the channel is looked into only once nothing is written any more.
    &&& old_out.len() == 0 && new_body.steps() != old_body.steps() ==> new_body.writer_left()
        || old_body.writer_gone()
}

/// A read that found nothing: there was nothing, there is nothing, and nothing
/// was written to the buffer.
pub open spec fn read_nothing(
    old_body: StreamBody,
    new_body: StreamBody,
    old_out: Seq<u8>,
    new_out: Seq<u8>,
) -> bool {
    &&& old_body.unread().len() == 0
    &&& old_body.queued().len() == 0
    &&& new_body.unread().len() == 0
    &&& new_body.received() == old_body.received()
    &&& new_body.queued().len() == 0
    &&& new_body.delivered() == old_body.delivered()
    &&& new_out == old_out
}

/// Handed to a streaming handler. The head is sent exactly once, with
/// [`respond`](Self::respond), which uses the responder up; that unblocks CEF and
/// yields the body writer.
pub struct StreamResponder {
    head_slot: HeadSlot,
    on_head: Waker,
    end: WriterEnd,
}

impl StreamResponder {
    /// The chunks written so far.
    pub closed spec fn sent(self) -> Seq<Seq<u8>> {
        self.end.sent()
    }

    /// Whether the pull side was found gone.
    pub closed spec fn reader_gone(self) -> bool {
        self.end.reader_gone()
    }

    /// All that is ever written to the body: to each place in the row its chunk.
    pub closed spec fn record(self) -> Map<int, Seq<u8>> {
        self.end.record()
    }

    /// Which slot the wakers come from.
    pub closed spec fn wake_id(self) -> int {
        self.end.wake_id()
    }

    /// Which slot the head goes to.
    pub closed spec fn head_id(self) -> int {
        head_id(*self.head_slot)
    }

    /// What is called when the head is there.
    pub closed spec fn on_head(self) -> Waker {
        self.on_head
    }

    /// Nobody else writes to the body, and nothing was done yet.
    pub closed spec fn wf(self) -> bool {
        &&& self.end.is_open()
        &&& self.end.sole()
        &&& self.sent() == Seq::<Seq<u8>>::empty()
        &&& self.end.steps() == Seq::<WriteStep>::empty()
    }

    /// Publishes status and headers, tells whoever waits for them, and returns the
    /// body writer. CEF is told that the length of the body is unknown; the body
    /// ends when the writer is [`finish`](StreamWriter::finish)ed.
    pub fn respond(self, head: http::Response<()>) -> (writer: StreamWriter)
        requires
            self.wf(),
        ensures
            writer.wf(),
            writer.record() == self.record(),
            writer.wake_id() == self.wake_id(),
            writer.head_id() == self.head_id(),
            writer.head() == Some(head),
            self.on_head().woken(),
            writer.head_came_before(self.on_head()),
            writer.sent() == self.sent(),
            writer.reader_gone() == self.reader_gone(),
            writer.steps() == Seq::<WriteStep>::empty(),
    {
        let StreamResponder { head_slot, on_head, end } = self;
        let mut head_slot = head_slot;
        let told = publish_head(&mut head_slot, head, on_head);
        told.wake();
        StreamWriter { head_slot, end }
    }
}

/// The producer side of a streaming body. Each [`write`](Self::write) is one
/// chunk; the call blocks when the bounded in-flight budget is full.
///
/// [`finish`](Self::finish) ends the body. A writer that is dropped unfinished ends
/// it too, but does not wake a reader that waits.
pub struct StreamWriter {
    head_slot: HeadSlot,
    end: WriterEnd,
}

/// The steps of a writer that then put a chunk in and took what was in the slot.
pub open spec fn wrote(steps: Seq<WriteStep>, chunk: Seq<u8>, taken: Option<Waker>) -> Seq<
    WriteStep,
> {
    steps.push(WriteStep::Send(chunk)).push(WriteStep::TakeWaker(taken))
}

/// The steps of a writer that then hung up and took what was in the slot.
pub open spec fn ended(steps: Seq<WriteStep>, taken: Option<Waker>) -> Seq<WriteStep> {
    steps.push(WriteStep::HangUp).push(WriteStep::TakeWaker(taken))
}

impl StreamWriter {
    /// The head that was published.
    pub closed spec fn head(self) -> Option<http::Response<()>> {
        published_head(*self.head_slot)
    }

    /// Which slot the head went to.
    pub closed spec fn head_id(self) -> int {
        head_id(*self.head_slot)
    }

    /// Whether the head was published before this was called.
    pub closed spec fn head_came_before(self, on_head: Waker) -> bool {
        published_before(*self.head_slot, on_head)
    }

    /// The chunks written so far.
    pub closed spec fn sent(self) -> Seq<Seq<u8>> {
        self.end.sent()
    }

    /// Whether the pull side was found gone.
    pub closed spec fn reader_gone(self) -> bool {
        self.end.reader_gone()
    }

    /// Which slot the wakers come from.
    pub closed spec fn wake_id(self) -> int {
        self.end.wake_id()
    }

    /// The steps taken so far on the channel and the slot.
    pub closed spec fn steps(self) -> Seq<WriteStep> {
        self.end.steps()
    }

    /// All that is ever written to the body: to each place in the row its chunk.
    pub closed spec fn record(self) -> Map<int, Seq<u8>> {
        self.end.record()
    }

    /// Nobody else writes to the body, no chunk is empty, the steps were taken in
    /// order, and every waker that was taken was called.
    pub closed spec fn wf(self) -> bool {
        &&& self.end.is_open()
        &&& self.end.sole()
        &&& starts_record(self.sent(), self.record())
        &&& forall|i: int| 0 <= i < self.sent().len() ==> (#[trigger] self.sent()[i]).len() > 0
        &&& writer_at(self.steps()) == Some(WriterAt::Ready)
        &&& calls_what_it_takes(self.steps())
    }

    /// Whether the body is over: nothing is written to it any more.
    pub open spec fn is_last(self) -> bool {
        !self.record().dom().contains(self.sent().len() as int)
    }

    /// Whether these are the steps that were taken in all, the last ones with the
    /// sending half given up.
    pub closed spec fn left_off_after(self, steps: Seq<WriteStep>) -> bool {
        exists|end: WriterEnd|
            !end.is_open() && end.wake_id() == self.wake_id() && #[trigger] end.steps() == steps
    }

    /// Enqueues one body chunk, blocking under backpressure, and then calls the
    /// waker that a waiting reader has left. `Err(StreamClosed)` means that the
    /// renderer cancelled: stop producing. Empty chunks are dropped (they would look
    /// like the end to a naive reader).
    pub fn write(&mut self, chunk: Vec<u8>) -> (result: Result<(), StreamClosed>)
        requires
            old(self).wf(),
        ensures
            final(self).wf(),
            final(self).record() == old(self).record(),
            final(self).wake_id() == old(self).wake_id(),
            final(self).head_id() == old(self).head_id(),
            final(self).head() == old(self).head(),
            chunk@.len() == 0 ==> result is Ok && *final(self) == *old(self),
            chunk@.len() > 0 ==> {
                &&& result is Err <==> final(self).reader_gone()
                &&& old(self).reader_gone() ==> final(self).reader_gone()
                &&& result is Ok ==> {
                    &&& final(self).sent() == old(self).sent().push(chunk@)
                    &&& exists|taken: Option<Waker>|
                        {
                            &&& final(self).steps() == #[trigger] wrote(
                                old(self).steps(),
                                chunk@,
                                taken,
                            )
                            &&& taken matches Some(waker) ==> waker.woken()
                        }
                }
                &&& result is Err ==> {
                    &&& final(self).sent() == old(self).sent()
                    &&& final(self).steps() == old(self).steps()
                }
            },
    {
        if chunk.len() == 0 {
            return Ok(());
        }
        let ghost before = self.steps();
        let ghost bytes = chunk@;
        if !self.end.send(chunk) {
            return Err(StreamClosed);
        }
        let ghost middle = self.steps();
        let taken = self.take_wake();
        proof {
            writer_at_push(before, WriteStep::Send(bytes));
            writer_at_push(middle, WriteStep::TakeWaker(taken@));
            assert(self.steps() == wrote(before, bytes, taken@));
        }
        Ok(())
    }

    /// Ends the body: what has been written is all that ever is. A reader that waits
    /// is woken after the end can be seen, so that what it then sees is the end.
    pub fn finish(self)
        requires
            self.wf(),
        ensures
            self.is_last(),
            exists|taken: Option<Waker>|
                {
                    &&& #[trigger] self.left_off_after(ended(self.steps(), taken))
                    &&& taken matches Some(waker) ==> waker.woken()
                },
    {
        let StreamWriter { head_slot: _, end } = self;
        let last = end.finish();
        assert(last@.0.steps() == ended(self.steps(), last@.1));
        assert(self.left_off_after(ended(self.steps(), last@.1)));
    }

    /// Takes the waker that the reader left, if there is one, and calls it.
    fn take_wake(&mut self) -> (taken: Ghost<Option<Waker>>)
        ensures
            final(self).steps() == old(self).steps().push(WriteStep::TakeWaker(taken@)),
            taken@ matches Some(waker) ==> waker.woken(),
            final(self).end.is_open() == old(self).end.is_open(),
            final(self).end.sole() == old(self).end.sole(),
            final(self).sent() == old(self).sent(),
            final(self).reader_gone() == old(self).reader_gone(),
            final(self).record() == old(self).record(),
            final(self).wake_id() == old(self).wake_id(),
            final(self).head_slot == old(self).head_slot,
    {
        self.end.wake_reader()
    }
}

/// Builds a responder and a body that share one bounded channel and one wake
/// slot. The resource handler keeps the head slot and the body, runs the handler
/// with the responder, and is told through `on_head` when the head is there.
pub fn make_stream(on_head: Waker) -> (stream: (StreamResponder, HeadSlot, StreamBody))
    ensures
        stream.0.wf(),
        stream.0.record() == stream.2.record(),
        stream.0.wake_id() == stream.2.wake_id(),
        stream.0.head_id() == head_id(*stream.1),
        stream.0.on_head() == on_head,
        stream.0.sent() == Seq::<Seq<u8>>::empty(),
        !stream.0.reader_gone(),
        published_head(*stream.1) is None,
        stream.2.wf(),
        stream.2.received() == Seq::<Seq<u8>>::empty(),
        stream.2.queued() == Seq::<Seq<u8>>::empty(),
        !stream.2.writer_gone(),
        stream.2.unread() == Seq::<u8>::empty(),
        stream.2.delivered() == Seq::<u8>::empty(),
        stream.2.parked() is None,
        stream.2.steps() == Seq::<ReadStep>::empty(),
{
    let (writer_end, reader_end) = open_stream(CHANNEL_DEPTH);
    let head_slot = new_head_slot();
    let responder = StreamResponder { head_slot: head_slot.clone(), on_head, end: writer_end };
    let body = StreamBody {
        end: reader_end,
        leftover: Vec::new(),
        cursor: 0,
        ended: false,
        delivered: Ghost(Seq::empty()),
    };
    (responder, head_slot, body)
}

/// The form of a send that does not block, for callers that must not stall. A
/// chunk that finds the channel full is dropped, and the caller is not told.
pub fn try_send(tx: &mut SyncSender<Vec<u8>>, chunk: Vec<u8>) -> (result: Result<(), StreamClosed>)
    ensures
        result is Err <==> receiver_gone(*final(tx)),
        receiver_gone(*old(tx)) ==> receiver_gone(*final(tx)),
        result is Err ==> !found_full(*final(tx)),
        sent_chunks(*final(tx)) == if result is Err || found_full(*final(tx)) {
            sent_chunks(*old(tx))
        } else {
            sent_chunks(*old(tx)).push(chunk@)
        },
{
    offer_result(offer(tx, chunk))
}

/// What the caller of [`try_send`] is told: only that the pull side is gone.
pub fn offer_result(offered: Offered) -> (result: Result<(), StreamClosed>)
    ensures
        result == match offered {
            Offered::Accepted => Ok(()),
            Offered::Full => Ok(()),
            Offered::Closed => Err(StreamClosed),
        },
{
    match offered {
        Offered::Accepted => Ok(()),
        Offered::Full => Ok(()),
        Offered::Closed => Err(StreamClosed),
    }
}

/// What comes out is what went in. At any time the bytes handed out so far, then
/// those still to be handed out of the last chunk, then those of the chunks seen
/// waiting in the channel, are the bytes of the first so many chunks that are
/// written, in the order written. Chunks that were written and chunks that were
/// seen agree as far as both go.
pub proof fn bytes_come_out_as_they_went_in(writer: StreamWriter, body: StreamBody)
    requires
        writer.wf(),
        body.wf(),
        writer.record() == body.record(),
    ensures
        ({
            let seen = body.received() + body.queued();
            &&& body.delivered() + body.unread() + body.queued().flatten() == seen.flatten()
            &&& seen.len() <= writer.sent().len() ==> seen.is_prefix_of(writer.sent())
            &&& writer.sent().len() <= seen.len() ==> writer.sent().is_prefix_of(seen)
        }),
{
    vstd::seq_lib::lemma_flatten_concat(body.received(), body.queued());
    let seen = body.received() + body.queued();
    assert forall|i: int| 0 <= i < seen.len() && i < writer.sent().len() implies seen[i]
        == writer.sent()[i] by {
        assert(writer.record().dom().contains(i));
    }
}

/// All bytes arrive. Once the writer has finished and the reader has found it gone
/// and has nothing left to hand out, the bytes handed out are those of all chunks
/// written.
pub proof fn all_bytes_arrive(writer: StreamWriter, body: StreamBody)
    requires
        writer.wf(),
        body.wf(),
        writer.record() == body.record(),
        writer.is_last(),
        body.writer_gone(),
        body.unread().len() == 0,
        body.queued().len() == 0,
    ensures
        body.delivered() == writer.sent().flatten(),
{
    let sent = writer.sent();
    let received = body.received();
    assert(received + body.queued() =~= received);
    if received.len() < sent.len() {
        assert(writer.record().dom().contains(received.len() as int));
    }
    if sent.len() < received.len() {
        assert(body.record().dom().contains(sent.len() as int));
    }
    assert forall|i: int| 0 <= i < sent.len() implies sent[i] == received[i] by {
        assert(writer.record().dom().contains(i));
    }
    assert(received =~= sent);
    assert(body.delivered() + body.unread() =~= body.delivered());
}

/// A copy of no bytes, which would look like the end, never happens: what a read
/// takes up has been written, and empty chunks are not written.
pub proof fn a_copy_is_never_empty(
    writer: StreamWriter,
    old_body: StreamBody,
    new_body: StreamBody,
    old_out: Seq<u8>,
    new_out: Seq<u8>,
    waker: Waker,
    n: usize,
)
    requires
        writer.wf(),
        new_body.wf(),
        writer.record() == new_body.record(),
        new_body.received().len() <= writer.sent().len(),
        read_did(old_body, new_body, old_out, new_out, waker, ReadOutcome::Copied(n)),
    ensures
        n > 0,
{
    if old_body.unread().len() == 0 {
        let received = new_body.received();
        let last = received.len() - 1;
        assert((received + new_body.queued())[last] == received.last());
        assert(new_body.record().dom().contains(last));
        assert(writer.record()[last] == writer.sent()[last]);
    }
}

/// Backpressure: a body never sees more chunks waiting than the channel is deep, which
/// is eight.
pub proof fn unread_chunks_stay_bounded(body: StreamBody)
    requires
        body.wf(),
    ensures
        body.queued().len() <= CHANNEL_DEPTH,
        CHANNEL_DEPTH == 8,
{
}

/// Whether a row of steps is one in which the two sides may have taken theirs: each
/// its own, in its order, and every look and every taking found what was there. The
/// steps of a stream always have such a row, the one in which they happened, because
/// a channel and a mutex let one step happen after the other.
pub open spec fn interleaves(
    run: Seq<StreamStep>,
    reads: Seq<ReadStep>,
    writes: Seq<WriteStep>,
) -> bool {
    &&& reads_of(run) == reads
    &&& writes_of(run) == writes
    &&& StreamState::fresh().after_all(run) is Some
}

/// A reader that was told to wait is not forgotten. However its steps and those of
/// the writer interleaved, once the writer is between two calls, either there is
/// nothing to see for the reader, neither a chunk nor the end, or the waker that it
/// left was called.
pub proof fn a_waiting_reader_is_woken(
    writer: StreamWriter,
    body: StreamBody,
    run: Seq<StreamStep>,
)
    requires
        writer.wf(),
        body.wf(),
        writer.wake_id() == body.wake_id(),
        writer.record() == body.record(),
        interleaves(run, body.steps(), writer.steps()),
        body.waits(),
    ensures
        body.parked() is Some,
        StreamState::fresh().after_all(run)->0.look() is Empty || body.parked()->0.woken(),
{
    no_wakeup_is_lost(run);
}

/// A reader that was told to wait is not left waiting at the end. However its steps
/// and those of the writer interleaved, once the writer has finished, the waker that
/// the reader left was called.
pub proof fn a_finished_writer_has_woken_its_reader(
    writer: StreamWriter,
    taken: Option<Waker>,
    body: StreamBody,
    run: Seq<StreamStep>,
)
    requires
        writer.wf(),
        writer.left_off_after(ended(writer.steps(), taken)),
        taken matches Some(waker) ==> waker.woken(),
        body.wf(),
        writer.wake_id() == body.wake_id(),
        writer.record() == body.record(),
        interleaves(run, body.steps(), ended(writer.steps(), taken)),
        body.waits(),
    ensures
        body.parked() matches Some(waker) && waker.woken(),
{
    let hung_up = writer.steps().push(WriteStep::HangUp);
    writer_at_push(writer.steps(), WriteStep::HangUp);
    writer_at_push(hung_up, WriteStep::TakeWaker(taken));
    the_end_wakes_the_waiting_reader(run);
}

/// A run that goes on with steps of the reader alone.
pub open spec fn then_reads(run: Seq<StreamStep>, steps: Seq<ReadStep>) -> Seq<StreamStep> {
    run + Seq::new(steps.len(), |i: int| StreamStep::Read(steps[i]))
}

/// A read during which the writer takes no step comes out as what was there before it
/// says: what is left of the last chunk goes first; else the next chunk is copied
/// where there is one, the end is told where there is none and none can come, and the
/// reader waits otherwise.
pub proof fn a_quiet_read_sees_what_is_there(
    run: Seq<StreamStep>,
    old_body: StreamBody,
    new_body: StreamBody,
    old_out: Seq<u8>,
    new_out: Seq<u8>,
    waker: Waker,
    outcome: ReadOutcome,
)
    requires
        StreamState::fresh().after_all(then_reads(run, new_steps(old_body, new_body))) is Some,
        old_out.len() > 0,
        read_did(old_body, new_body, old_out, new_out, waker, outcome),
    ensures
        StreamState::fresh().after_all(run) is Some,
        ({
            let found = StreamState::fresh().after_all(run)->0.look();
            if old_body.unread().len() > 0 {
                outcome is Copied
            } else {
                match found {
                    Look::Chunk(chunk) => outcome is Copied && new_body.received()
                        == old_body.received().push(chunk),
                    Look::Closed => outcome is Done,
                    Look::Empty => outcome is Pending && new_body.parked() == Some(waker),
                }
            }
        }),
{
    let steps = new_steps(old_body, new_body);
    let whole = then_reads(run, steps);
    let fresh = StreamState::fresh();
    after_all_part(fresh, whole, run.len() as int);
    assert(whole.take(run.len() as int) =~= run);
    let state = fresh.after_all(run)->0;
    if old_body.unread().len() == 0 {
        assert(whole[run.len() as int] == StreamStep::Read(steps[0]));
        assert(state.can(StreamStep::Read(steps[0])));
        if state.look() is Empty {
            // Leaving the waker changes nothing about what is there.
            let n = run.len() as int;
            after_all_part(fresh, whole, n + 1);
            after_all_part(fresh, whole, n + 2);
            assert(whole.take(n + 1).drop_last() =~= run);
            assert(whole.take(n + 1).last() == StreamStep::Read(steps[0]));
            assert(whole.take(n + 2).drop_last() =~= whole.take(n + 1));
            assert(whole.take(n + 2).last() == StreamStep::Read(steps[1]));
            assert(whole[n + 2] == StreamStep::Read(steps[2]));
            assert(fresh.after_all(whole.take(n + 2))->0.look() is Empty);
        }
    }
}

/// A reader that is woken by a write finds the chunk. Where its waker is in the slot
/// and nothing is to be seen, a write takes that waker, and a read that the reader
/// makes when it is called copies the first bytes of the chunk.
pub proof fn a_woken_reader_reads_the_chunk(
    run: Seq<StreamStep>,
    chunk: Seq<u8>,
    taken: Option<Waker>,
    old_body: StreamBody,
    new_body: StreamBody,
    old_out: Seq<u8>,
    new_out: Seq<u8>,
    waker: Waker,
    outcome: ReadOutcome,
)
    requires
        StreamState::fresh().after_all(run) is Some,
        StreamState::fresh().after_all(run)->0.look() is Empty,
        old_body.parked() is Some,
        StreamState::fresh().after_all(run)->0.slot == old_body.parked(),
        old_body.unread().len() == 0,
        StreamState::fresh().after_all(
            then_reads(
                run.push(StreamStep::Write(WriteStep::Send(chunk))).push(
                    StreamStep::Write(WriteStep::TakeWaker(taken)),
                ),
                new_steps(old_body, new_body),
            ),
        ) is Some,
        old_out.len() > 0,
        read_did(old_body, new_body, old_out, new_out, waker, outcome),
    ensures
        taken == old_body.parked(),
        outcome matches ReadOutcome::Copied(n) && n == (if chunk.len() < old_out.len() {
            chunk.len()
        } else {
            old_out.len()
        }) && new_out == chunk.take(n as int) + old_out.skip(n as int),
{
    let fresh = StreamState::fresh();
    let state = fresh.after_all(run)->0;
    let send = StreamStep::Write(WriteStep::Send(chunk));
    let take = StreamStep::Write(WriteStep::TakeWaker(taken));
    let sent = run.push(send);
    let woken = sent.push(take);
    a_quiet_read_sees_what_is_there(
        woken,
        old_body,
        new_body,
        old_out,
        new_out,
        waker,
        outcome,
    );
    reveal_with_fuel(StreamState::after_all, 3);
    assert(woken.drop_last() =~= sent && woken.last() == take);
    assert(sent.drop_last() =~= run && sent.last() == send);
    after_all_keeps_wf(fresh, run);
    assert(state.after(send).queue() =~= state.queue().push(chunk));
}

/// A reader that is woken by the end sees the end. Where its waker is in the slot and
/// nothing is to be seen, the end takes that waker, and a read that the reader makes
/// when it is called is told of the end.
pub proof fn a_woken_reader_sees_the_end(
    run: Seq<StreamStep>,
    taken: Option<Waker>,
    old_body: StreamBody,
    new_body: StreamBody,
    old_out: Seq<u8>,
    new_out: Seq<u8>,
    waker: Waker,
    outcome: ReadOutcome,
)
    requires
        StreamState::fresh().after_all(run) is Some,
        StreamState::fresh().after_all(run)->0.look() is Empty,
        old_body.parked() is Some,
        StreamState::fresh().after_all(run)->0.slot == old_body.parked(),
        old_body.unread().len() == 0,
        StreamState::fresh().after_all(
            then_reads(
                run.push(StreamStep::Write(WriteStep::HangUp)).push(
                    StreamStep::Write(WriteStep::TakeWaker(taken)),
                ),
                new_steps(old_body, new_body),
            ),
        ) is Some,
        old_out.len() > 0,
        read_did(old_body, new_body, old_out, new_out, waker, outcome),
    ensures
        taken == old_body.parked(),
        outcome is Done,
{
    let fresh = StreamState::fresh();
    let hang_up = StreamStep::Write(WriteStep::HangUp);
    let take = StreamStep::Write(WriteStep::TakeWaker(taken));
    let ended = run.push(hang_up);
    let woken = ended.push(take);
    a_quiet_read_sees_what_is_there(
        woken,
        old_body,
        new_body,
        old_out,
        new_out,
        waker,
        outcome,
    );
    reveal_with_fuel(StreamState::after_all, 3);
    assert(woken.drop_last() =~= ended && woken.last() == take);
    assert(ended.drop_last() =~= run && ended.last() == hang_up);
}

/// A read hands out exactly the bytes by which what was delivered grows: they stand at
/// the start of the buffer, the rest of the buffer stays, and their number is what the
/// read says that it copied. As much is handed out as there is, or as fits. Where
/// nothing is copied nothing is delivered, and the end is told only once nothing is
/// left.
pub proof fn a_read_hands_out_what_it_delivers(
    old_body: StreamBody,
    new_body: StreamBody,
    old_out: Seq<u8>,
    new_out: Seq<u8>,
    waker: Waker,
    outcome: ReadOutcome,
)
    requires
        read_did(old_body, new_body, old_out, new_out, waker, outcome),
    ensures
        ({
            let before = old_body.delivered();
            let after = new_body.delivered();
            let k = after.len() - before.len();
            &&& 0 <= k <= old_out.len()
            &&& after.take(before.len() as int) == before
            &&& new_out.len() == old_out.len()
            &&& new_out.take(k) == after.skip(before.len() as int)
            &&& new_out.skip(k) == old_out.skip(k)
            &&& outcome matches ReadOutcome::Copied(n) ==> n == k
            &&& !(outcome is Copied) ==> k == 0
            &&& outcome is Copied ==> k == old_out.len() || new_body.unread().len() == 0
            &&& outcome is Done ==> new_body.writer_gone() && new_body.unread().len() == 0
                && new_body.queued().len() == 0
            &&& old_out.len() > 0 && old_body.unread().len() > 0 ==> outcome is Copied
                && new_out.take(k) + new_body.unread() == old_body.unread()
            &&& outcome is Copied && old_body.unread().len() == 0 ==> new_out.take(k)
                + new_body.unread() == new_body.received().last()
        }),
{
    let before = old_body.delivered();
    let after = new_body.delivered();
    let k = after.len() - before.len();
    if old_out.len() > 0 && old_body.unread().len() > 0 {
        assert(new_out.take(k) + new_body.unread() =~= old_body.unread());
    }
    if outcome is Copied && old_body.unread().len() == 0 {
        assert(new_out.take(k) + new_body.unread() =~= new_body.received().last());
    }
    assert(after.take(before.len() as int) =~= before);
    assert(new_out.take(k) =~= after.skip(before.len() as int));
    assert(new_out.skip(k) =~= old_out.skip(k));
}

/// In which order a read into a buffer with room takes its steps. It takes none while
/// it still has bytes. Else it looks first; a look that finds nothing is followed by
/// the parking of the waker that it was given, and by a second look; and the waker is
/// taken back unless that look finds nothing either, which is when the reader waits.
pub proof fn a_read_parks_before_it_looks_again(
    old_body: StreamBody,
    new_body: StreamBody,
    old_out: Seq<u8>,
    new_out: Seq<u8>,
    waker: Waker,
    outcome: ReadOutcome,
)
    requires
        read_did(old_body, new_body, old_out, new_out, waker, outcome),
        old_out.len() > 0,
    ensures
        ({
            let from = old_body.steps().len() as int;
            let steps = new_body.steps();
            let count = steps.len() - from;
            &&& steps.take(from) == old_body.steps()
            &&& old_body.unread().len() > 0 <==> count == 0
            &&& count == 0 || count == 1 || count == 3 || count == 4
            &&& count == 1 ==> (steps[from] matches ReadStep::Poll(found) && !(found is Empty))
            &&& count > 1 ==> {
                &&& steps[from] == ReadStep::Poll(Look::Empty)
                &&& steps[from + 1] == ReadStep::Park(waker)
                &&& steps[from + 2] matches ReadStep::Poll(found) && (found is Empty <==> count
                    == 3)
            }
            &&& count == 4 ==> steps[from + 3] is Withdraw && new_body.parked() is None
            &&& count == 3 <==> outcome is Pending
            &&& count == 3 ==> new_body.parked() == Some(waker)
            &&& count < 3 ==> new_body.parked() == old_body.parked()
            &&& count == 1 || count == 4 ==> {
                let found = steps[if count == 1 {
                    from
                } else {
                    from + 2
                }];
                &&& outcome is Done <==> found == ReadStep::Poll(Look::Closed)
                &&& outcome is Copied <==> found is Poll && found->Poll_0 is Chunk
                &&& outcome is Copied ==> new_body.received() == old_body.received().push(
                    found->Poll_0->Chunk_0,
                )
            }
            &&& count == 0 ==> outcome is Copied && new_body.received() == old_body.received()
        }),
{
    let from = old_body.steps().len() as int;
    let steps = new_body.steps();
    let taken = new_steps(old_body, new_body);
    assert(steps.take(from) =~= old_body.steps());
    assert(taken.len() == steps.len() - from);
    assert forall|i: int| 0 <= i < taken.len() implies #[trigger] taken[i] == steps[from + i] by {}
    if taken.len() > 0 {
        assert(taken[0] == steps[from]);
    }
    if taken.len() > 1 {
        assert(taken[1] == steps[from + 1]);
        assert(taken[2] == steps[from + 2]);
    }
    if taken.len() > 3 {
        assert(taken[3] == steps[from + 3]);
    }
}

/// A write puts its chunk in and takes what is in the slot afterwards, and the end is
/// there before the last taking: both add two steps, in this order, to those that were
/// taken before.
pub proof fn the_other_side_can_see_before_it_is_woken(
    steps: Seq<WriteStep>,
    chunk: Seq<u8>,
    taken: Option<Waker>,
)
    ensures
        wrote(steps, chunk, taken).len() == steps.len() + 2,
        wrote(steps, chunk, taken).take(steps.len() as int) == steps,
        wrote(steps, chunk, taken)[steps.len() as int] == WriteStep::Send(chunk),
        wrote(steps, chunk, taken).last() == WriteStep::TakeWaker(taken),
        ended(steps, taken).len() == steps.len() + 2,
        ended(steps, taken).take(steps.len() as int) == steps,
        ended(steps, taken)[steps.len() as int] is HangUp,
        ended(steps, taken).last() == WriteStep::TakeWaker(taken),
{
    assert(wrote(steps, chunk, taken).take(steps.len() as int) =~= steps);
    assert(ended(steps, taken).take(steps.len() as int) =~= steps);
}

/// What is known to be there is handed out where there is room, and kept where there is
/// none; a known end is told, room or not. Without room the channel is looked into only
/// once the writer has left.
pub proof fn what_is_known_is_told(
    old_body: StreamBody,
    new_body: StreamBody,
    old_out: Seq<u8>,
    new_out: Seq<u8>,
    waker: Waker,
    outcome: ReadOutcome,
)
    requires
        read_did(old_body, new_body, old_out, new_out, waker, outcome),
    ensures
        ({
            let known = old_body.unread().len() > 0 || old_body.queued().len() > 0;
            &&& known && old_out.len() > 0 ==> outcome is Copied
            &&& known && old_out.len() == 0 ==> outcome is Pending
            &&& !known && old_body.writer_gone() ==> outcome is Done
            &&& old_out.len() == 0 ==> !(outcome is Copied)
            &&& old_out.len() == 0 && old_body.unread().len() > 0 ==> new_body.unread()
                == old_body.unread()
            &&& old_out.len() == 0 && !new_body.writer_left() && !old_body.writer_gone()
                ==> new_body.steps() == old_body.steps()
        }),
{
}

} // verus!
