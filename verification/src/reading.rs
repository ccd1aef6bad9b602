//! What CEF is answered when it reads a response.
//!
//! CEF hands over a buffer, and learns how many bytes were put into it and whether
//! to go on. A read that finds nothing yet says "go on, with no bytes", and is
//! resumed later.

use crate::buffered::BufferedResponse;
use crate::channel::{NoWake, Waker};
use crate::headers::header_entries;
use crate::response::{tells_of, write_response_headers, ResponseHead};
use crate::streaming::{
    a_read_hands_out_what_it_delivers, all_bytes_arrive, read_did, ReadOutcome, StreamBody,
    StreamWriter,
};
use http::header::{HeaderMap, HeaderValue};
use vstd::prelude::*;

verus! {

/// The answer to a read.
pub struct ReadReply {
    /// 1 to go on, 0 at the end.
    pub code: i32,
    /// The number of bytes that CEF is told; `None` where it is told none.
    pub count: Option<i32>,
}

/// The size of the buffer that CEF hands over; `None` where it is negative.
pub fn read_length(bytes_to_read: i32) -> (length: Option<usize>)
    ensures
        length == if bytes_to_read < 0 {
            None
        } else {
            Some(bytes_to_read as usize)
        },
{
    if bytes_to_read < 0 {
        None
    } else {
        Some(bytes_to_read as usize)
    }
}

/// The answer to a read of a streaming response.
pub fn streaming_reply(outcome: ReadOutcome) -> (reply: ReadReply)
    requires
        outcome matches ReadOutcome::Copied(count) ==> count <= i32::MAX,
    ensures
        reply.code == 0 <==> outcome is Done,
        reply.code == 1 <==> !(outcome is Done),
        outcome matches ReadOutcome::Copied(count) ==> reply.count == Some(count as i32),
        !(outcome is Copied) ==> reply.count == Some(0i32),
        reply == reply_to_stream(outcome),
{
    match outcome {
        ReadOutcome::Copied(count) => ReadReply { code: 1, count: Some(count as i32) },
        ReadOutcome::Pending => ReadReply { code: 1, count: Some(0) },
        ReadOutcome::Done => ReadReply { code: 0, count: Some(0) },
    }
}

/// The answer to a read of a streaming response: the bytes copied; no bytes, but
/// go on, while there is nothing; no bytes at the end.
pub open spec fn reply_to_stream(outcome: ReadOutcome) -> ReadReply {
    match outcome {
        ReadOutcome::Copied(count) => ReadReply { code: 1, count: Some(count as i32) },
        ReadOutcome::Pending => ReadReply { code: 1, count: Some(0) },
        ReadOutcome::Done => ReadReply { code: 0, count: Some(0) },
    }
}

/// Reads a streaming response into CEF's buffer. Where nothing is there yet,
/// `waker` is left for the writer. A buffer without room is answered at once: go on,
/// with no bytes.
pub fn read_streaming(body: &mut StreamBody, out: &mut [u8], waker: Waker) -> (reply: ReadReply)
    requires
        old(body).wf(),
        old(out)@.len() <= i32::MAX,
    ensures
        final(body).wf(),
        final(body).record() == old(body).record(),
        final(body).wake_id() == old(body).wake_id(),
        old(out)@.len() == 0 ==> {
            &&& reply == reply_to_stream(ReadOutcome::Pending)
            &&& *final(body) == *old(body)
            &&& final(out)@ == old(out)@
        },
        old(out)@.len() > 0 ==> exists|outcome: ReadOutcome|
            {
                &&& #[trigger] read_did(
                    *old(body),
                    *final(body),
                    old(out)@,
                    final(out)@,
                    waker,
                    outcome,
                )
                &&& reply == reply_to_stream(outcome)
            },
        reply.count is Some,
        reply.count->0 == final(body).delivered().len() - old(body).delivered().len(),
        final(body).delivered() == old(body).delivered() + final(out)@.take(reply.count->0 as int),
        final(out)@.skip(reply.count->0 as int) == old(out)@.skip(reply.count->0 as int),
        reply.code == 0 || reply.code == 1,
        reply.code == 0 ==> final(body).writer_gone(),
        reply.code == 0 ==> final(body).unread().len() == 0,
        reply.code == 0 ==> final(body).queued().len() == 0,
{
    if out.len() == 0 {
        assert(body.delivered() + out@.take(0) =~= old(body).delivered());
        return streaming_reply(ReadOutcome::Pending);
    }
    let outcome = body.read(out, waker);
    proof {
        cef_is_told_of_every_byte(*old(body), *body, old(out)@, out@, waker, outcome);
    }
    streaming_reply(outcome)
}

/// CEF is told of every byte, and of no other: the number that it is told, at a read or
/// when a read is resumed, is the number of bytes by which what was delivered grew, and
/// the bytes themselves stand at the start of its buffer.
pub proof fn cef_is_told_of_every_byte(
    old_body: StreamBody,
    new_body: StreamBody,
    old_out: Seq<u8>,
    new_out: Seq<u8>,
    waker: Waker,
    outcome: ReadOutcome,
)
    requires
        read_did(old_body, new_body, old_out, new_out, waker, outcome),
        old_out.len() <= i32::MAX,
    ensures
        ({
            let grown = new_body.delivered().len() - old_body.delivered().len();
            let reply = reply_to_stream(outcome);
            &&& reply.count matches Some(count) && count == grown
            &&& resumed_count(outcome) == grown
            &&& new_body.delivered() == old_body.delivered() + new_out.take(grown)
            &&& new_out.skip(grown) == old_out.skip(grown)
            &&& reply.code == 0 <==> outcome is Done
            &&& reply.code == 1 <==> !(outcome is Done)
        }),
{
    a_read_hands_out_what_it_delivers(old_body, new_body, old_out, new_out, waker, outcome);
    let before = old_body.delivered();
    let after = new_body.delivered();
    let grown = after.len() - before.len();
    assert(after =~= after.take(before.len() as int) + after.skip(before.len() as int));
}

/// The bytes that CEF is told, read after read, are together all the bytes that were
/// delivered in these reads.
pub proof fn told_bytes_add_up(
    bodies: Seq<StreamBody>,
    old_outs: Seq<Seq<u8>>,
    new_outs: Seq<Seq<u8>>,
    wakers: Seq<Waker>,
    outcomes: Seq<ReadOutcome>,
)
    requires
        bodies.len() == outcomes.len() + 1,
        old_outs.len() == outcomes.len(),
        new_outs.len() == outcomes.len(),
        wakers.len() == outcomes.len(),
        forall|i: int| 0 <= i < old_outs.len() ==> (#[trigger] old_outs[i]).len() <= i32::MAX,
        forall|i: int|
            0 <= i < outcomes.len() ==> read_did(
                bodies[i],
                bodies[i + 1],
                old_outs[i],
                new_outs[i],
                wakers[i],
                #[trigger] outcomes[i],
            ),
    ensures
        bodies.last().delivered() == bodies[0].delivered() + Seq::new(
            outcomes.len(),
            |i: int| new_outs[i].take(reply_to_stream(outcomes[i]).count->0 as int),
        ).flatten(),
    decreases outcomes.len(),
{
    let told = Seq::new(
        outcomes.len(),
        |i: int| new_outs[i].take(reply_to_stream(outcomes[i]).count->0 as int),
    );
    if outcomes.len() == 0 {
        assert(bodies[0].delivered() + told.flatten() =~= bodies[0].delivered());
    } else {
        let n = outcomes.len() - 1;
        let before = bodies.drop_last();
        let earlier = outcomes.drop_last();
        assert forall|i: int| 0 <= i < earlier.len() implies read_did(
            before[i],
            before[i + 1],
            old_outs.drop_last()[i],
            new_outs.drop_last()[i],
            wakers.drop_last()[i],
            #[trigger] earlier[i],
        ) by {
            assert(earlier[i] == outcomes[i]);
        }
        told_bytes_add_up(
            before,
            old_outs.drop_last(),
            new_outs.drop_last(),
            wakers.drop_last(),
            earlier,
        );
        let told_earlier = Seq::new(
            earlier.len(),
            |i: int|
                new_outs.drop_last()[i].take(reply_to_stream(earlier[i]).count->0 as int),
        );
        assert(told =~= told_earlier.push(told[n]));
        told_earlier.lemma_flatten_push(told[n]);
        cef_is_told_of_every_byte(
            bodies[n],
            bodies[n + 1],
            old_outs[n],
            new_outs[n],
            wakers[n],
            outcomes[n],
        );
        assert(bodies[0].delivered() + (told_earlier.flatten() + told[n]) =~= (
        bodies[0].delivered() + told_earlier.flatten()) + told[n]);
    }
}

/// A stream arrives whole: the bytes that CEF is told, from the first read of a body to
/// the one that finds its end, are the bytes of all chunks written, in the order
/// written.
pub proof fn a_stream_is_told_whole(
    writer: StreamWriter,
    bodies: Seq<StreamBody>,
    old_outs: Seq<Seq<u8>>,
    new_outs: Seq<Seq<u8>>,
    wakers: Seq<Waker>,
    outcomes: Seq<ReadOutcome>,
)
    requires
        bodies.len() == outcomes.len() + 1,
        old_outs.len() == outcomes.len(),
        new_outs.len() == outcomes.len(),
        wakers.len() == outcomes.len(),
        forall|i: int| 0 <= i < old_outs.len() ==> (#[trigger] old_outs[i]).len() <= i32::MAX,
        forall|i: int|
            0 <= i < outcomes.len() ==> read_did(
                bodies[i],
                bodies[i + 1],
                old_outs[i],
                new_outs[i],
                wakers[i],
                #[trigger] outcomes[i],
            ),
        writer.wf(),
        writer.is_last(),
        bodies.last().wf(),
        writer.record() == bodies.last().record(),
        bodies[0].delivered() == Seq::<u8>::empty(),
        outcomes.len() > 0,
        outcomes.last() is Done,
    ensures
        Seq::new(
            outcomes.len(),
            |i: int| new_outs[i].take(reply_to_stream(outcomes[i]).count->0 as int),
        ).flatten() == writer.sent().flatten(),
{
    let n = outcomes.len() - 1;
    told_bytes_add_up(bodies, old_outs, new_outs, wakers, outcomes);
    a_read_hands_out_what_it_delivers(
        bodies[n],
        bodies[n + 1],
        old_outs[n],
        new_outs[n],
        wakers[n],
        outcomes[n],
    );
    all_bytes_arrive(writer, bodies.last());
    let told = Seq::new(
        outcomes.len(),
        |i: int| new_outs[i].take(reply_to_stream(outcomes[i]).count->0 as int),
    );
    assert(bodies[0].delivered() + told.flatten() =~= told.flatten());
}

/// CEF is told to stop exactly at the end of the body, and a read that is told to
/// go on with no bytes copied none.
pub proof fn a_stream_stops_only_at_its_end(outcome: ReadOutcome)
    requires
        outcome matches ReadOutcome::Copied(count) ==> 0 < count <= i32::MAX,
    ensures
        reply_to_stream(outcome).code == 0 <==> outcome is Done,
        reply_to_stream(outcome) == (ReadReply { code: 1, count: Some(0) }) <==> outcome is Pending,
{
}

/// The number of bytes with which a parked read is resumed; 0 says that this is
/// the end. A waker is called only after a write or at the end of the body, so
/// that there is something to see; a read that sees nothing is taken for the end.
pub open spec fn resumed_count(outcome: ReadOutcome) -> i32 {
    match outcome {
        ReadOutcome::Copied(count) => count as i32,
        _ => 0,
    }
}

/// Resumes a parked read, into the buffer that CEF handed over for it, and returns
/// the number of bytes to resume it with.
pub fn resume_streaming(body: &mut StreamBody, out: &mut [u8]) -> (count: i32)
    requires
        old(body).wf(),
        old(out)@.len() <= i32::MAX,
    ensures
        final(body).wf(),
        final(body).record() == old(body).record(),
        final(body).wake_id() == old(body).wake_id(),
        old(out)@.len() == 0 ==> {
            &&& count == 0
            &&& *final(body) == *old(body)
            &&& final(out)@ == old(out)@
        },
        old(out)@.len() > 0 ==> exists|waker: Waker, outcome: ReadOutcome|
            {
                &&& #[trigger] read_did(
                    *old(body),
                    *final(body),
                    old(out)@,
                    final(out)@,
                    waker,
                    outcome,
                )
                &&& waker.holds(NoWake)
                &&& count == resumed_count(outcome)
            },
        count == final(body).delivered().len() - old(body).delivered().len(),
        final(body).delivered() == old(body).delivered() + final(out)@.take(count as int),
        final(out)@.skip(count as int) == old(out)@.skip(count as int),
{
    if out.len() == 0 {
        assert(body.delivered() + out@.take(0) =~= old(body).delivered());
        return 0;
    }
    let waker = Waker::new(NoWake);
    let outcome = body.read(out, waker);
    proof {
        cef_is_told_of_every_byte(*old(body), *body, old(out)@, out@, waker, outcome);
    }
    match outcome {
        ReadOutcome::Copied(count) => count as i32,
        ReadOutcome::Pending => 0,
        ReadOutcome::Done => 0,
    }
}

/// The answer to a read of a buffered response that copied so many bytes; none
/// are copied where there is no response. The end is where nothing was copied. A
/// count that is not asked for, or that CEF's integers do not hold, ends the read.
pub fn buffered_reply(count: usize, wants_count: bool) -> (reply: ReadReply)
    ensures
        reply == if wants_count && count <= i32::MAX {
            ReadReply {
                code: if count > 0 {
                    1
                } else {
                    0
                },
                count: Some(count as i32),
            }
        } else {
            ReadReply { code: 0, count: None }
        },
{
    if wants_count && count <= 0x7fff_ffff {
        ReadReply {
            code: if count > 0 {
                1
            } else {
                0
            },
            count: Some(count as i32),
        }
    } else {
        ReadReply { code: 0, count: None }
    }
}

/// The head that CEF is told: that of the streaming response where the request is
/// one that streams, and nothing before that is published; else that of the
/// buffered response where there is one.
pub fn response_headers(
    stream: Option<Option<(u16, &HeaderMap<HeaderValue>)>>,
    buffered: Option<&BufferedResponse>,
) -> (head: Option<ResponseHead>)
    ensures
        match (stream, buffered) {
            (Some(Some((status, headers))), _) => head matches Some(head) && tells_of(
                head,
                status,
                header_entries(*headers),
            ),
            (Some(None), _) => head is None,
            (None, Some(response)) => head matches Some(head) && tells_of(
                head,
                response.status,
                header_entries(response.headers),
            ),
            (None, None) => head is None,
        },
{
    match stream {
        Some(Some((status, headers))) => Some(write_response_headers(status, headers)),
        Some(None) => None,
        None => match buffered {
            Some(response) => Some(write_response_headers(response.status, &response.headers)),
            None => None,
        },
    }
}

} // verus!
