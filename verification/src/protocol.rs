//! How a reader and a writer of one stream work together.
//!
//! The reader and the writer run on two threads and share a bounded channel and
//! a slot for one waker. Each of their calls is a few indivisible steps on these
//! two. This module says which steps can happen and what they do, which steps each
//! side takes and in which order, and proves what holds however the steps of the two
//! sides interleave: chunks come out as they went in, no more of them wait than the
//! channel holds, a waker is called at most once, and a reader that waits is never
//! forgotten. That the code takes these steps in this order is proved of it in
//! [`crate::streaming`].

use crate::channel::Waker;
use vstd::prelude::*;

verus! {

/// The number of chunks that may wait unread. The producer blocks on the next
/// one until the reader has taken one out. Small on purpose: the reader sets the
/// pace, not this buffer.
pub const CHANNEL_DEPTH: usize = 8;

/// What a look into the channel found.
pub enum Look {
    Chunk(Seq<u8>),
    Empty,
    Closed,
}

/// One step of the reader.
pub enum ReadStep {
    /// Look into the channel, and take the oldest chunk if there is one.
    Poll(Look),
    /// Leave this waker in the slot, in place of one that was there.
    Park(Waker),
    /// Take the waker back out of the slot.
    Withdraw,
}

/// One step of the writer.
pub enum WriteStep {
    /// Put a chunk into the channel.
    Send(Seq<u8>),
    /// Give up the sending half, so that the reader sees the end.
    HangUp,
    /// Take what is in the slot, to call it.
    TakeWaker(Option<Waker>),
}

/// A step of either side.
pub enum StreamStep {
    Read(ReadStep),
    Write(WriteStep),
}

/// A channel and a slot, with what was done to them.
pub struct StreamState {
    /// All chunks that were put into the channel, oldest first.
    pub sent: Seq<Seq<u8>>,
    /// How many of them the reader has taken out.
    pub taken: nat,
    /// Whether the writer has given up its half.
    pub hung_up: bool,
    /// What is in the slot.
    pub slot: Option<Waker>,
    /// The wakers that the writer took out of the slot, in order.
    pub called: Seq<Waker>,
}

impl StreamState {
    /// Before anything was written or read.
    pub open spec fn fresh() -> StreamState {
        StreamState {
            sent: Seq::empty(),
            taken: 0,
            hung_up: false,
            slot: None,
            called: Seq::empty(),
        }
    }

    /// What is in the channel.
    pub open spec fn queue(self) -> Seq<Seq<u8>> {
        self.sent.skip(self.taken as int)
    }

    /// What the reader has taken out.
    pub open spec fn received(self) -> Seq<Seq<u8>> {
        self.sent.take(self.taken as int)
    }

    /// What the reader sees when it looks now.
    pub open spec fn look(self) -> Look {
        if self.queue().len() > 0 {
            Look::Chunk(self.queue()[0])
        } else if self.hung_up {
            Look::Closed
        } else {
            Look::Empty
        }
    }

    /// Whether a step can happen now: a look finds what is there, and so does
    /// whoever takes the waker; a chunk goes in only where there is room, and
    /// nothing does after the end.
    pub open spec fn can(self, step: StreamStep) -> bool {
        match step {
            StreamStep::Read(ReadStep::Poll(found)) => found == self.look(),
            StreamStep::Read(ReadStep::Park(_)) => true,
            StreamStep::Read(ReadStep::Withdraw) => true,
            StreamStep::Write(WriteStep::Send(_)) => !self.hung_up && self.queue().len()
                < CHANNEL_DEPTH,
            StreamStep::Write(WriteStep::HangUp) => !self.hung_up,
            StreamStep::Write(WriteStep::TakeWaker(taken)) => taken == self.slot,
        }
    }

    /// What a step does.
    pub open spec fn after(self, step: StreamStep) -> StreamState {
        match step {
            StreamStep::Read(ReadStep::Poll(Look::Chunk(_))) => StreamState {
                taken: self.taken + 1,
                ..self
            },
            StreamStep::Read(ReadStep::Poll(_)) => self,
            StreamStep::Read(ReadStep::Park(waker)) => StreamState { slot: Some(waker), ..self },
            StreamStep::Read(ReadStep::Withdraw) => StreamState { slot: None, ..self },
            StreamStep::Write(WriteStep::Send(chunk)) => StreamState {
                sent: self.sent.push(chunk),
                ..self
            },
            StreamStep::Write(WriteStep::HangUp) => StreamState { hung_up: true, ..self },
            StreamStep::Write(WriteStep::TakeWaker(taken)) => StreamState {
                slot: None,
                called: match taken {
                    Some(waker) => self.called.push(waker),
                    None => self.called,
                },
                ..self
            },
        }
    }

    /// The state after a row of steps, if they can happen from here.
    pub open spec fn after_all(self, run: Seq<StreamStep>) -> Option<StreamState>
        decreases run.len(),
    {
        if run.len() == 0 {
            Some(self)
        } else {
            match self.after_all(run.drop_last()) {
                Some(state) => if state.can(run.last()) {
                    Some(state.after(run.last()))
                } else {
                    None
                },
                None => None,
            }
        }
    }

    /// What the channel keeps to.
    pub open spec fn wf(self) -> bool {
        &&& self.taken <= self.sent.len()
        &&& self.sent.len() - self.taken <= CHANNEL_DEPTH
    }
}

/// Where the reader is between two of its steps.
pub enum ReaderAt {
    /// At the start of a call.
    Start,
    /// It found nothing, and has not left a waker yet.
    SawEmpty,
    /// It has left a waker, and has not looked again yet.
    Parked,
    /// It looked again, has a chunk after all, and its waker is still out.
    RacedChunk,
    /// It looked again, saw the end, and its waker is still out.
    RacedEnd,
    /// The call is over: a chunk was taken.
    HasChunk,
    /// The call is over: the end was seen.
    AtEnd,
    /// The call is over: nothing was there, and a waker was left.
    Waiting,
}

impl ReaderAt {
    /// Whether the reader is between two calls.
    pub open spec fn is_idle(self) -> bool {
        self is Start || self is HasChunk || self is AtEnd || self is Waiting
    }

    /// Where a step leads, if it may be taken here. A reader that found nothing
    /// leaves its waker first and then looks once more: a write that falls
    /// between the first look and the parking would otherwise go unnoticed.
    pub open spec fn after(self, step: ReadStep) -> Option<ReaderAt> {
        let from = if self.is_idle() {
            ReaderAt::Start
        } else {
            self
        };
        match (from, step) {
            (ReaderAt::Start, ReadStep::Poll(Look::Chunk(_))) => Some(ReaderAt::HasChunk),
            (ReaderAt::Start, ReadStep::Poll(Look::Closed)) => Some(ReaderAt::AtEnd),
            (ReaderAt::Start, ReadStep::Poll(Look::Empty)) => Some(ReaderAt::SawEmpty),
            (ReaderAt::SawEmpty, ReadStep::Park(_)) => Some(ReaderAt::Parked),
            (ReaderAt::Parked, ReadStep::Poll(Look::Empty)) => Some(ReaderAt::Waiting),
            (ReaderAt::Parked, ReadStep::Poll(Look::Chunk(_))) => Some(ReaderAt::RacedChunk),
            (ReaderAt::Parked, ReadStep::Poll(Look::Closed)) => Some(ReaderAt::RacedEnd),
            (ReaderAt::RacedChunk, ReadStep::Withdraw) => Some(ReaderAt::HasChunk),
            (ReaderAt::RacedEnd, ReadStep::Withdraw) => Some(ReaderAt::AtEnd),
            _ => None,
        }
    }
}

/// Where the reader is after its steps; `None` where they are not in order.
pub open spec fn reader_at(steps: Seq<ReadStep>) -> Option<ReaderAt>
    decreases steps.len(),
{
    if steps.len() == 0 {
        Some(ReaderAt::Start)
    } else {
        match reader_at(steps.drop_last()) {
            Some(at) => at.after(steps.last()),
            None => None,
        }
    }
}

/// Where one more step leads the reader.
pub(crate) proof fn reader_at_push(steps: Seq<ReadStep>, step: ReadStep)
    ensures
        reader_at(steps.push(step)) == match reader_at(steps) {
            Some(at) => at.after(step),
            None => None,
        },
        last_parked(steps.push(step)) == match step {
            ReadStep::Park(waker) => Some(waker),
            _ => last_parked(steps),
        },
{
    assert(steps.push(step).drop_last() =~= steps);
}

/// The waker that the reader left last.
pub open spec fn last_parked(steps: Seq<ReadStep>) -> Option<Waker>
    decreases steps.len(),
{
    if steps.len() == 0 {
        None
    } else {
        match steps.last() {
            ReadStep::Park(waker) => Some(waker),
            _ => last_parked(steps.drop_last()),
        }
    }
}

/// Where the writer is between two of its steps.
pub enum WriterAt {
    /// Between two calls.
    Ready,
    /// It has put a chunk in, and has not looked into the slot yet.
    Sent,
    /// It has hung up, and has not looked into the slot yet.
    HungUp,
    /// It is done.
    Over,
}

impl WriterAt {
    /// Whether the writer is between two calls or done.
    pub open spec fn is_idle(self) -> bool {
        self is Ready || self is Over
    }

    /// Where a step leads, if it may be taken here. A writer puts a chunk in, or
    /// hangs up, and looks into the slot afterwards, always in this order. A chunk
    /// is never empty.
    pub open spec fn after(self, step: WriteStep) -> Option<WriterAt> {
        match (self, step) {
            (WriterAt::Ready, WriteStep::Send(chunk)) => if chunk.len() > 0 {
                Some(WriterAt::Sent)
            } else {
                None
            },
            (WriterAt::Ready, WriteStep::HangUp) => Some(WriterAt::HungUp),
            (WriterAt::Sent, WriteStep::TakeWaker(_)) => Some(WriterAt::Ready),
            (WriterAt::HungUp, WriteStep::TakeWaker(_)) => Some(WriterAt::Over),
            _ => None,
        }
    }
}

/// Where the writer is after its steps; `None` where they are not in order.
pub open spec fn writer_at(steps: Seq<WriteStep>) -> Option<WriterAt>
    decreases steps.len(),
{
    if steps.len() == 0 {
        Some(WriterAt::Ready)
    } else {
        match writer_at(steps.drop_last()) {
            Some(at) => at.after(steps.last()),
            None => None,
        }
    }
}

/// Whether every waker that the writer took was called.
pub open spec fn calls_what_it_takes(steps: Seq<WriteStep>) -> bool {
    forall|i: int|
        0 <= i < steps.len() ==> (#[trigger] steps[i] matches WriteStep::TakeWaker(Some(waker))
            ==> waker.woken())
}

/// Where one more step leads the writer.
pub(crate) proof fn writer_at_push(steps: Seq<WriteStep>, step: WriteStep)
    ensures
        writer_at(steps.push(step)) == match writer_at(steps) {
            Some(at) => at.after(step),
            None => None,
        },
        calls_what_it_takes(steps) && (step matches WriteStep::TakeWaker(Some(waker))
            ==> waker.woken()) ==> calls_what_it_takes(steps.push(step)),
{
    assert(steps.push(step).drop_last() =~= steps);
}

/// The steps of the reader in a run.
pub open spec fn reads_of(run: Seq<StreamStep>) -> Seq<ReadStep>
    decreases run.len(),
{
    if run.len() == 0 {
        Seq::empty()
    } else {
        match run.last() {
            StreamStep::Read(step) => reads_of(run.drop_last()).push(step),
            StreamStep::Write(_) => reads_of(run.drop_last()),
        }
    }
}

/// The steps of the writer in a run.
pub open spec fn writes_of(run: Seq<StreamStep>) -> Seq<WriteStep>
    decreases run.len(),
{
    if run.len() == 0 {
        Seq::empty()
    } else {
        match run.last() {
            StreamStep::Read(_) => writes_of(run.drop_last()),
            StreamStep::Write(step) => writes_of(run.drop_last()).push(step),
        }
    }
}

/// What holds of a state and of where the two sides are.
spec fn in_step(
    state: StreamState,
    run: Seq<StreamStep>,
    reader: ReaderAt,
    writer: WriterAt,
) -> bool {
    &&& state.wf()
    &&& state.hung_up <==> writer is HungUp || writer is Over
    &&& forall|i: int| 0 <= i < state.sent.len() ==> (#[trigger] state.sent[i]).len() > 0
    &&& reader is Waiting && state.slot is Some && writer.is_idle() ==> state.look() is Empty
    &&& reader is Waiting || reader is Parked ==> {
        &&& last_parked(reads_of(run)) is Some
        &&& {
            ||| state.slot == last_parked(reads_of(run))
            ||| state.called.contains(last_parked(reads_of(run))->0)
        }
    }
    &&& forall|i: int|
        0 <= i < state.called.len() ==> writes_of(run).contains(
            WriteStep::TakeWaker(Some(#[trigger] state.called[i])),
        )
}

/// The state of the channel keeps to what channels keep to, whatever the order in
/// which the two sides take their steps.
pub(crate) proof fn after_all_keeps_wf(from: StreamState, run: Seq<StreamStep>)
    requires
        from.wf(),
        from.after_all(run) is Some,
    ensures
        from.after_all(run)->0.wf(),
    decreases run.len(),
{
    if run.len() > 0 {
        after_all_keeps_wf(from, run.drop_last());
        let before = from.after_all(run.drop_last())->0;
        if let StreamStep::Write(WriteStep::Send(chunk)) = run.last() {
            assert(before.after(run.last()).queue() =~= before.queue().push(chunk));
        }
    }
}

/// A row of steps that can happen, in which both sides keep to their order, keeps
/// the two sides in step.
proof fn stays_in_step(run: Seq<StreamStep>)
    requires
        StreamState::fresh().after_all(run) is Some,
        reader_at(reads_of(run)) is Some,
        writer_at(writes_of(run)) is Some,
    ensures
        in_step(
            StreamState::fresh().after_all(run)->0,
            run,
            reader_at(reads_of(run))->0,
            writer_at(writes_of(run))->0,
        ),
    decreases run.len(),
{
    let state = StreamState::fresh().after_all(run)->0;
    after_all_keeps_wf(StreamState::fresh(), run);
    if run.len() > 0 {
        let earlier = run.drop_last();
        let before = StreamState::fresh().after_all(earlier)->0;
        match run.last() {
            StreamStep::Read(step) => {
                assert(reads_of(run).drop_last() =~= reads_of(earlier));
                stays_in_step(earlier);
            },
            StreamStep::Write(step) => {
                assert(writes_of(run).drop_last() =~= writes_of(earlier));
                stays_in_step(earlier);
                let writes = writes_of(earlier);
                assert forall|s: WriteStep| writes.contains(s) implies #[trigger] writes.push(
                    step,
                ).contains(s) by {
                    let i = choose|i: int| 0 <= i < writes.len() && writes[i] == s;
                    assert(writes.push(step)[i] == s);
                }
                assert(writes.push(step)[writes.len() as int] == step);
                match step {
                    WriteStep::Send(chunk) => {
                        assert(state.queue() =~= before.queue().push(chunk));
                    },
                    WriteStep::HangUp => {},
                    WriteStep::TakeWaker(taken) => {
                        if let Some(waker) = taken {
                            let called = before.called;
                            assert(called.push(waker)[called.len() as int] == waker);
                            let after = called.push(waker);
                            assert forall|w: Waker| called.contains(w) implies #[trigger]
                                after.contains(w) by {
                                let i = choose|i: int| 0 <= i < called.len() && called[i] == w;
                                assert(after[i] == w);
                            }
                        }
                    },
                }
            },
        }
    }
}

/// Backpressure: at no time do more chunks wait unread than the channel is deep.
pub proof fn unread_chunks_are_bounded(run: Seq<StreamStep>)
    requires
        StreamState::fresh().after_all(run) is Some,
    ensures
        StreamState::fresh().after_all(run)->0.queue().len() <= CHANNEL_DEPTH,
{
    after_all_keeps_wf(StreamState::fresh(), run);
}

/// Chunks are taken out in the order in which they were put in, none is lost and
/// none comes twice: what was taken out followed by what still waits is what was
/// put in.
pub proof fn chunks_keep_their_order(run: Seq<StreamStep>)
    requires
        StreamState::fresh().after_all(run) is Some,
    ensures
        ({
            let state = StreamState::fresh().after_all(run)->0;
            state.received() + state.queue() == state.sent
        }),
{
    after_all_keeps_wf(StreamState::fresh(), run);
    let state = StreamState::fresh().after_all(run)->0;
    assert(state.received() + state.queue() =~= state.sent);
}

/// The first part of a run that can happen can happen.
pub(crate) proof fn after_all_part(from: StreamState, run: Seq<StreamStep>, n: int)
    requires
        from.after_all(run) is Some,
        0 <= n <= run.len(),
    ensures
        from.after_all(run.take(n)) is Some,
        n < run.len() ==> from.after_all(run.take(n))->0.can(run[n]),
    decreases run.len(),
{
    if n == run.len() {
        assert(run.take(n) =~= run);
    } else if n == run.len() - 1 {
        assert(run.take(n) =~= run.drop_last());
    } else {
        assert(run.drop_last().take(n) =~= run.take(n));
        after_all_part(from, run.drop_last(), n);
    }
}

/// Whether a step changes what is in the slot.
pub open spec fn uses_slot(step: StreamStep) -> bool {
    match step {
        StreamStep::Read(ReadStep::Poll(_)) => false,
        StreamStep::Read(_) => true,
        StreamStep::Write(WriteStep::TakeWaker(_)) => true,
        StreamStep::Write(_) => false,
    }
}

/// Whether a waker was left by the step at `k` of a run, and is still there: no step
/// after that changed what is in the slot.
pub open spec fn left_at(run: Seq<StreamStep>, k: int, waker: Waker) -> bool {
    &&& 0 <= k < run.len()
    &&& run[k] == StreamStep::Read(ReadStep::Park(waker))
    &&& forall|m: int| k < m < run.len() ==> !uses_slot(#[trigger] run[m])
}

/// What is in the slot was left there.
proof fn slot_was_filled(run: Seq<StreamStep>) -> (k: int)
    requires
        StreamState::fresh().after_all(run) is Some,
        StreamState::fresh().after_all(run)->0.slot is Some,
    ensures
        left_at(run, k, StreamState::fresh().after_all(run)->0.slot->0),
    decreases run.len(),
{
    if uses_slot(run.last()) {
        run.len() - 1
    } else {
        let k = slot_was_filled(run.drop_last());
        assert forall|m: int| k < m < run.len() implies !uses_slot(#[trigger] run[m]) by {
            if m < run.len() - 1 {
                assert(run.drop_last()[m] == run[m]);
            }
        }
        k
    }
}

/// A waker is called at most once for each time that it is left. What is taken out of
/// the slot is what was last left there, with nothing done to the slot in between; so
/// between two takings of a waker there is a parking of the later one.
pub proof fn wakers_are_called_at_most_once(
    run: Seq<StreamStep>,
    i: int,
    j: int,
    first: Waker,
    second: Waker,
)
    requires
        StreamState::fresh().after_all(run) is Some,
        0 <= i < j < run.len(),
        run[i] == StreamStep::Write(WriteStep::TakeWaker(Some(first))),
        run[j] == StreamStep::Write(WriteStep::TakeWaker(Some(second))),
    ensures
        exists|k: int| i < k < j && #[trigger] left_at(run.take(j), k, second),
{
    after_all_part(StreamState::fresh(), run, j);
    let k = slot_was_filled(run.take(j));
    if k <= i {
        assert(run.take(j)[i] == run[i]);
        assert(k < i ==> !uses_slot(run.take(j)[i]));
        assert(run.take(j)[k] == run[k]);
    }
}

/// No wakeup is lost, however the steps of the two sides interleave. Whenever the
/// writer is between two calls, or done, and the reader waits, either there is
/// nothing for the reader to see, neither a chunk nor the end, or the waker that it
/// left last has been called.
pub proof fn no_wakeup_is_lost(run: Seq<StreamStep>)
    requires
        StreamState::fresh().after_all(run) is Some,
        reader_at(reads_of(run)) == Some(ReaderAt::Waiting),
        writer_at(writes_of(run)) matches Some(at) && at.is_idle(),
        calls_what_it_takes(writes_of(run)),
    ensures
        last_parked(reads_of(run)) is Some,
        StreamState::fresh().after_all(run)->0.look() is Empty || last_parked(
            reads_of(run),
        )->0.woken(),
{
    stays_in_step(run);
    let state = StreamState::fresh().after_all(run)->0;
    let waker = last_parked(reads_of(run))->0;
    if state.called.contains(waker) {
        let i = choose|i: int| 0 <= i < state.called.len() && state.called[i] == waker;
        let step = WriteStep::TakeWaker(Some(state.called[i]));
        assert(writes_of(run).contains(step));
        let j = choose|j: int| 0 <= j < writes_of(run).len() && writes_of(run)[j] == step;
        assert(writes_of(run)[j] matches WriteStep::TakeWaker(Some(w)) && w == waker);
    }
}

/// A reader that waits is woken at the end of the body, whatever else happened
/// before and however the end and its last read interleave.
pub proof fn the_end_wakes_the_waiting_reader(run: Seq<StreamStep>)
    requires
        StreamState::fresh().after_all(run) is Some,
        reader_at(reads_of(run)) == Some(ReaderAt::Waiting),
        writer_at(writes_of(run)) == Some(WriterAt::Over),
        calls_what_it_takes(writes_of(run)),
    ensures
        last_parked(reads_of(run)) matches Some(waker) && waker.woken(),
{
    stays_in_step(run);
    no_wakeup_is_lost(run);
}

/// A write takes the waker of a reader that waits, with the chunk already there to
/// be seen.
pub proof fn a_write_takes_the_parked_waker(
    state: StreamState,
    waker: Waker,
    chunk: Seq<u8>,
    taken: Option<Waker>,
)
    requires
        state.wf(),
        state.slot == Some(waker),
        state.look() is Empty,
        state.after_all(
            seq![
                StreamStep::Write(WriteStep::Send(chunk)),
                StreamStep::Write(WriteStep::TakeWaker(taken)),
            ],
        ) is Some,
    ensures
        taken == Some(waker),
        state.after(StreamStep::Write(WriteStep::Send(chunk))).look() == Look::Chunk(chunk),
{
    reveal_with_fuel(StreamState::after_all, 3);
    let send = StreamStep::Write(WriteStep::Send(chunk));
    let take = StreamStep::Write(WriteStep::TakeWaker(taken));
    assert(seq![send, take].drop_last() =~= seq![send]);
    assert(seq![send].drop_last() =~= Seq::empty());
    assert(state.after(send).queue() =~= state.queue().push(chunk));
}

/// The end takes the waker of a reader that waits, with the end already there to be
/// seen.
pub proof fn the_end_takes_the_parked_waker(
    state: StreamState,
    waker: Waker,
    taken: Option<Waker>,
)
    requires
        state.slot == Some(waker),
        state.look() is Empty,
        state.after_all(
            seq![
                StreamStep::Write(WriteStep::HangUp),
                StreamStep::Write(WriteStep::TakeWaker(taken)),
            ],
        ) is Some,
    ensures
        taken == Some(waker),
        state.after(StreamStep::Write(WriteStep::HangUp)).look() is Closed,
{
    reveal_with_fuel(StreamState::after_all, 3);
    let hang_up = StreamStep::Write(WriteStep::HangUp);
    let take = StreamStep::Write(WriteStep::TakeWaker(taken));
    assert(seq![hang_up, take].drop_last() =~= seq![hang_up]);
    assert(seq![hang_up].drop_last() =~= Seq::empty());
}

/// Of two wakers that are left one after the other only the later one is there to be
/// taken, and what was taken is gone: the next one to look finds nothing.
pub proof fn a_replaced_waker_is_not_taken(
    state: StreamState,
    waker: Waker,
    first: Option<Waker>,
    second: Option<Waker>,
)
    requires
        state.after_all(
            seq![
                StreamStep::Read(ReadStep::Park(waker)),
                StreamStep::Write(WriteStep::TakeWaker(first)),
                StreamStep::Write(WriteStep::TakeWaker(second)),
            ],
        ) is Some,
    ensures
        first == Some(waker),
        second is None,
{
    reveal_with_fuel(StreamState::after_all, 4);
    let a = StreamStep::Read(ReadStep::Park(waker));
    let b = StreamStep::Write(WriteStep::TakeWaker(first));
    let c = StreamStep::Write(WriteStep::TakeWaker(second));
    assert(seq![a, b, c].drop_last() =~= seq![a, b]);
    assert(seq![a, b].drop_last() =~= seq![a]);
    assert(seq![a].drop_last() =~= Seq::empty());
}

/// The end is final: once the reader has seen it, whatever else happens, a look
/// into the channel sees the end again.
pub proof fn the_end_is_final(state: StreamState, run: Seq<StreamStep>)
    requires
        state.wf(),
        state.look() is Closed,
        state.after_all(run) is Some,
    ensures
        state.after_all(run)->0.look() is Closed,
        state.after_all(run)->0.hung_up,
    decreases run.len(),
{
    if run.len() > 0 {
        the_end_is_final(state, run.drop_last());
    }
}

} // verus!
