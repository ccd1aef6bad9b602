use std::sync::atomic::{AtomicUsize, Ordering};
use std::sync::mpsc::sync_channel;
use std::sync::Arc;
use tauri_runtime_cef::channel::{HeadSlot, NoWake, Offered, Wake, Waker};
use tauri_runtime_cef::protocol::CHANNEL_DEPTH;
use tauri_runtime_cef::reading::{read_length, read_streaming, resume_streaming, streaming_reply};
use tauri_runtime_cef::streaming::{
    make_stream, offer_result, try_send, InitiatorOrigin, ReadOutcome, StreamClosed,
};

/// Counts how often it is called.
struct Count(Arc<AtomicUsize>);

impl Wake for Count {
    fn wake(self: Box<Self>) {
        self.0.fetch_add(1, Ordering::SeqCst);
    }
}

fn no_wake() -> Waker {
    Waker::new(NoWake)
}

fn counter() -> (Arc<AtomicUsize>, Waker) {
    let count = Arc::new(AtomicUsize::new(0));
    let wake = Waker::new(Count(count.clone()));
    (count, wake)
}

#[test]
fn drains_two_chunks_across_small_buffers_then_done() {
    let (responder, _head, mut body) = make_stream(no_wake());
    let mut writer = responder.respond(http::Response::new(()));
    writer.write(b"hello".to_vec()).unwrap();
    writer.write(b"world".to_vec()).unwrap();
    writer.finish();

    let mut out = [0u8; 3];
    let mut got = Vec::new();
    loop {
        match body.read(&mut out, no_wake()) {
            ReadOutcome::Copied(n) => got.extend_from_slice(&out[..n]),
            ReadOutcome::Done => break,
            ReadOutcome::Pending => panic!("producer already finished, must not park"),
        }
    }
    assert_eq!(got, b"helloworld");
}

#[test]
fn read_on_empty_open_stream_parks_and_a_write_wakes_it() {
    let (responder, _head, mut body) = make_stream(no_wake());
    let mut writer = responder.respond(http::Response::new(()));

    let (woke, wake) = counter();
    let mut out = [0u8; 8];
    // Nothing written yet: must park and register the waker.
    assert_eq!(body.read(&mut out, wake), ReadOutcome::Pending);
    assert_eq!(woke.load(Ordering::SeqCst), 0);

    // The write must call the parked waker exactly once.
    writer.write(b"data".to_vec()).unwrap();
    assert_eq!(woke.load(Ordering::SeqCst), 1);

    match body.read(&mut out, no_wake()) {
        ReadOutcome::Copied(n) => assert_eq!(&out[..n], b"data"),
        other => panic!("expected Copied, got {other:?}"),
    }
}

#[test]
fn write_after_reader_dropped_returns_stream_closed() {
    let (responder, _head, body) = make_stream(no_wake());
    let mut writer = responder.respond(http::Response::new(()));
    drop(body);
    assert_eq!(writer.write(b"x".to_vec()), Err(StreamClosed));
}

#[test]
fn empty_chunks_are_dropped_not_treated_as_eof() {
    let (responder, _head, mut body) = make_stream(no_wake());
    let mut writer = responder.respond(http::Response::new(()));
    writer.write(Vec::new()).unwrap();
    writer.write(b"real".to_vec()).unwrap();
    writer.finish();

    let mut out = [0u8; 8];
    match body.read(&mut out, no_wake()) {
        ReadOutcome::Copied(n) => assert_eq!(&out[..n], b"real"),
        other => panic!("empty write must not end the stream, got {other:?}"),
    }
}

#[test]
fn respond_publishes_head_and_fires_on_head_once() {
    let (fired, on_head) = counter();
    let (responder, head_slot, _body) = make_stream(on_head);
    let resp = http::Response::builder()
        .status(201)
        .header("content-type", "text/event-stream")
        .body(())
        .unwrap();
    let _writer = responder.respond(resp);
    assert_eq!(fired.load(Ordering::SeqCst), 1);
    let stored = head_slot.lock().unwrap();
    let stored = stored.as_ref().expect("head published");
    assert_eq!(stored.status(), 201);
    assert_eq!(stored.headers()["content-type"], "text/event-stream");
}

#[test]
fn nothing_is_published_before_the_head() {
    let (fired, on_head) = counter();
    let (_responder, head_slot, _body) = make_stream(on_head);
    assert_eq!(fired.load(Ordering::SeqCst), 0);
    assert!(head_slot.lock().unwrap().is_none());
}

#[test]
fn as_many_chunks_as_the_channel_holds_go_in_unread() {
    let (responder, _head, mut body) = make_stream(no_wake());
    let mut writer = responder.respond(http::Response::new(()));
    for i in 0..8u8 {
        writer.write(vec![i]).unwrap();
    }
    writer.finish();
    assert_eq!(CHANNEL_DEPTH, 8);
    let mut out = [0u8; 4];
    for i in 0..8u8 {
        assert_eq!(body.read(&mut out, no_wake()), ReadOutcome::Copied(1));
        assert_eq!(out[0], i);
    }
    assert_eq!(body.read(&mut out, no_wake()), ReadOutcome::Done);
}

#[test]
fn the_end_wakes_a_parked_reader_once_and_can_then_be_seen() {
    let (responder, _head, mut body) = make_stream(no_wake());
    let writer = responder.respond(http::Response::new(()));
    let (woke, wake) = counter();
    let mut out = [0u8; 8];
    assert_eq!(body.read(&mut out, wake), ReadOutcome::Pending);
    writer.finish();
    assert_eq!(woke.load(Ordering::SeqCst), 1);
    assert_eq!(body.read(&mut out, no_wake()), ReadOutcome::Done);
    // The end is final.
    assert_eq!(body.read(&mut out, no_wake()), ReadOutcome::Done);
}

/// Reads again from within the call, as the resource handler does.
struct ReadAgain {
    body: Arc<std::sync::Mutex<Option<tauri_runtime_cef::streaming::StreamBody>>>,
    seen: Arc<std::sync::Mutex<Vec<i32>>>,
}

impl Wake for ReadAgain {
    fn wake(self: Box<Self>) {
        let mut out = [0u8; 8];
        let mut guard = self.body.lock().unwrap();
        let count = resume_streaming(guard.as_mut().unwrap(), &mut out);
        self.seen.lock().unwrap().push(count);
    }
}

#[test]
fn a_waker_may_read_from_within_its_call() {
    let (responder, _head, body) = make_stream(no_wake());
    let mut writer = responder.respond(http::Response::new(()));
    let body = Arc::new(std::sync::Mutex::new(Some(body)));
    let seen = Arc::new(std::sync::Mutex::new(Vec::new()));
    let mut out = [0u8; 8];
    for _ in 0..2 {
        let again = Waker::new(ReadAgain { body: body.clone(), seen: seen.clone() });
        let reply = read_streaming(body.lock().unwrap().as_mut().unwrap(), &mut out, again);
        assert_eq!((reply.code, reply.count), (1, Some(0)));
        if seen.lock().unwrap().is_empty() {
            writer.write(b"chunk".to_vec()).unwrap();
        }
    }
    assert_eq!(*seen.lock().unwrap(), vec![5]);
    writer.finish();
    assert_eq!(*seen.lock().unwrap(), vec![5, 0]);
}

#[test]
fn a_read_into_no_buffer_leaves_the_stream_alone() {
    let (responder, _head, mut body) = make_stream(no_wake());
    let mut writer = responder.respond(http::Response::new(()));
    let mut none = [0u8; 0];

    // The producer is there: nothing is taken out, and nothing is parked.
    let (first, first_wake) = counter();
    let (second, second_wake) = counter();
    assert_eq!(body.read(&mut [0u8; 4], first_wake), ReadOutcome::Pending);
    assert_eq!(body.read(&mut none, second_wake), ReadOutcome::Pending);
    writer.write(b"x".to_vec()).unwrap();
    assert_eq!(first.load(Ordering::SeqCst), 1);
    assert_eq!(second.load(Ordering::SeqCst), 0);
    assert_eq!(body.read(&mut none, no_wake()), ReadOutcome::Pending);

    // The producer is gone, and a chunk is there: it stays for the next read.
    writer.finish();
    assert_eq!(body.read(&mut none, no_wake()), ReadOutcome::Pending);
    let mut out = [0u8; 2];
    assert_eq!(body.read(&mut out, no_wake()), ReadOutcome::Copied(1));
    assert_eq!(out, [b'x', 0]);

    // The producer is gone and nothing is buffered.
    assert_eq!(body.read(&mut none, no_wake()), ReadOutcome::Done);
    assert_eq!(body.read(&mut none, no_wake()), ReadOutcome::Done);
}

#[test]
fn the_end_of_a_dropped_stream_is_told_without_a_buffer() {
    let (responder, _head, mut body) = make_stream(no_wake());
    drop(responder);
    assert_eq!(body.read(&mut [], no_wake()), ReadOutcome::Done);

    let (responder, _head, mut body) = make_stream(no_wake());
    drop(responder.respond(http::Response::new(())));
    assert_eq!(body.read(&mut [], no_wake()), ReadOutcome::Done);
}

/// Reads into no buffer from within the call.
struct ReadNothing {
    body: Arc<std::sync::Mutex<Option<tauri_runtime_cef::streaming::StreamBody>>>,
    seen: Arc<std::sync::Mutex<Vec<ReadOutcome>>>,
}

impl Wake for ReadNothing {
    fn wake(self: Box<Self>) {
        let mut guard = self.body.lock().unwrap();
        let outcome = guard.as_mut().unwrap().read(&mut [], no_wake());
        self.seen.lock().unwrap().push(outcome);
    }
}

#[test]
fn the_producer_is_gone_when_the_end_wakes_the_reader() {
    let (responder, _head, body) = make_stream(no_wake());
    let writer = responder.respond(http::Response::new(()));
    let body = Arc::new(std::sync::Mutex::new(Some(body)));
    let seen = Arc::new(std::sync::Mutex::new(Vec::new()));
    let wake = Waker::new(ReadNothing { body: body.clone(), seen: seen.clone() });
    let outcome = body.lock().unwrap().as_mut().unwrap().read(&mut [0u8; 1], wake);
    assert_eq!(outcome, ReadOutcome::Pending);
    writer.finish();
    assert_eq!(*seen.lock().unwrap(), vec![ReadOutcome::Done]);
}

#[test]
fn a_read_that_finds_something_calls_nobody() {
    let (responder, _head, mut body) = make_stream(no_wake());
    let mut writer = responder.respond(http::Response::new(()));
    writer.write(b"xy".to_vec()).unwrap();
    let (woke, wake) = counter();
    assert_eq!(body.read(&mut [0u8; 1], wake), ReadOutcome::Copied(1));
    let (woke_again, wake) = counter();
    assert_eq!(body.read(&mut [0u8; 1], wake), ReadOutcome::Copied(1));
    writer.finish();
    let (woke_last, wake) = counter();
    assert_eq!(body.read(&mut [0u8; 1], wake), ReadOutcome::Done);
    for count in [woke, woke_again, woke_last] {
        assert_eq!(count.load(Ordering::SeqCst), 0);
    }
}

#[test]
fn two_streams_do_not_touch_each_other() {
    let (responder, _head, mut body) = make_stream(no_wake());
    let (other_responder, other_head, mut other_body) = make_stream(no_wake());
    let (woke, wake) = counter();
    assert_eq!(other_body.read(&mut [0u8; 1], wake), ReadOutcome::Pending);
    let mut writer = responder.respond(http::Response::new(()));
    writer.write(b"x".to_vec()).unwrap();
    writer.finish();
    assert!(other_head.lock().unwrap().is_none());
    assert_eq!(woke.load(Ordering::SeqCst), 0);
    assert_eq!(other_body.read(&mut [0u8; 1], no_wake()), ReadOutcome::Pending);
    assert_eq!(body.read(&mut [0u8; 1], no_wake()), ReadOutcome::Copied(1));
    drop(other_responder);
    assert_eq!(other_body.read(&mut [0u8; 1], no_wake()), ReadOutcome::Done);
}

#[test]
fn the_end_is_told_even_without_a_buffer() {
    let (responder, _head, mut body) = make_stream(no_wake());
    responder.respond(http::Response::new(())).finish();
    assert_eq!(body.read(&mut [], no_wake()), ReadOutcome::Done);
}

/// Looks whether the head is in the slot when it is called.
struct Look(Arc<std::sync::Mutex<Option<HeadSlot>>>, Arc<AtomicUsize>);

impl Wake for Look {
    fn wake(self: Box<Self>) {
        let slot = self.0.lock().unwrap().take().unwrap();
        if slot.lock().unwrap().is_some() {
            self.1.fetch_add(1, Ordering::SeqCst);
        }
    }
}

#[test]
fn the_head_is_there_when_on_head_is_called() {
    let handed_out = Arc::new(std::sync::Mutex::new(None));
    let seen = Arc::new(AtomicUsize::new(0));
    let on_head = Waker::new(Look(handed_out.clone(), seen.clone()));
    let (responder, head, _body) = make_stream(on_head);
    *handed_out.lock().unwrap() = Some(head);
    responder.respond(http::Response::new(())).finish();
    assert_eq!(seen.load(Ordering::SeqCst), 1);
}

#[test]
fn a_waker_that_was_called_is_gone() {
    let (responder, _head, mut body) = make_stream(no_wake());
    let mut writer = responder.respond(http::Response::new(()));
    let (woke, wake) = counter();
    assert_eq!(body.read(&mut [0u8; 4], wake), ReadOutcome::Pending);
    writer.write(vec![1]).unwrap();
    writer.write(vec![2]).unwrap();
    writer.finish();
    assert_eq!(woke.load(Ordering::SeqCst), 1);
}

#[test]
fn a_replaced_waker_is_not_called() {
    let (responder, _head, mut body) = make_stream(no_wake());
    let mut writer = responder.respond(http::Response::new(()));
    let (first, first_wake) = counter();
    let (second, second_wake) = counter();
    let mut out = [0u8; 2];
    assert_eq!(body.read(&mut out, first_wake), ReadOutcome::Pending);
    assert_eq!(body.read(&mut out, second_wake), ReadOutcome::Pending);
    writer.write(b"abc".to_vec()).unwrap();
    writer.write(b"d".to_vec()).unwrap();
    assert_eq!(first.load(Ordering::SeqCst), 0);
    assert_eq!(second.load(Ordering::SeqCst), 1);
    // What does not fit the buffer is kept for the next read.
    assert_eq!(body.read(&mut out, no_wake()), ReadOutcome::Copied(2));
    assert_eq!(&out, b"ab");
    assert_eq!(body.read(&mut out, no_wake()), ReadOutcome::Copied(1));
    assert_eq!(&out, b"cb");
}

#[test]
fn try_send_tells_only_of_a_closed_stream() {
    let (mut tx, rx) = sync_channel(1);
    assert_eq!(try_send(&mut tx, b"a".to_vec()), Ok(()));
    // The channel is full: the chunk is dropped, and nobody is told.
    assert_eq!(try_send(&mut tx, b"b".to_vec()), Ok(()));
    assert_eq!(rx.recv().unwrap(), b"a");
    assert!(rx.try_recv().is_err());
    drop(rx);
    assert_eq!(try_send(&mut tx, b"c".to_vec()), Err(StreamClosed));
    assert_eq!(offer_result(Offered::Accepted), Ok(()));
    assert_eq!(offer_result(Offered::Full), Ok(()));
    assert_eq!(offer_result(Offered::Closed), Err(StreamClosed));
}

#[test]
fn cef_is_answered_as_the_read_came_out() {
    let copied = streaming_reply(ReadOutcome::Copied(7));
    assert_eq!((copied.code, copied.count), (1, Some(7)));
    let pending = streaming_reply(ReadOutcome::Pending);
    assert_eq!((pending.code, pending.count), (1, Some(0)));
    let done = streaming_reply(ReadOutcome::Done);
    assert_eq!((done.code, done.count), (0, Some(0)));

    assert_eq!(read_length(-1), None);
    assert_eq!(read_length(0), Some(0));
    assert_eq!(read_length(4096), Some(4096));
}

#[test]
fn reads_of_a_stream_are_answered() {
    let (responder, _head, mut body) = make_stream(no_wake());
    let mut writer = responder.respond(http::Response::new(()));
    writer.write(b"xyz".to_vec()).unwrap();
    writer.finish();
    let mut none = [0u8; 0];
    let reply = read_streaming(&mut body, &mut none, no_wake());
    assert_eq!((reply.code, reply.count), (1, Some(0)));
    assert_eq!(resume_streaming(&mut body, &mut none), 0);
    let mut out = [0u8; 2];
    let reply = read_streaming(&mut body, &mut out, no_wake());
    assert_eq!((reply.code, reply.count), (1, Some(2)));
    assert_eq!(&out, b"xy");
    assert_eq!(resume_streaming(&mut body, &mut out), 1);
    assert_eq!(&out, b"zy");
    assert_eq!(resume_streaming(&mut body, &mut out), 0);
    let reply = read_streaming(&mut body, &mut out, no_wake());
    assert_eq!((reply.code, reply.count), (0, Some(0)));
    // A read without a buffer is answered at once, even at the end.
    let reply = read_streaming(&mut body, &mut none, no_wake());
    assert_eq!((reply.code, reply.count), (1, Some(0)));
}

#[test]
fn a_missing_initiator_is_not_an_empty_one() {
    assert_eq!(InitiatorOrigin(None).clone(), InitiatorOrigin(None));
    assert_ne!(InitiatorOrigin(None), InitiatorOrigin(Some(String::new())));
}
