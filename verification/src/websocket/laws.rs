//! What holds of every stream of frames: round trips, reassembly of
//! fragments, and control frames that pass a message in progress.

use vstd::prelude::*;
use crate::websocket::frame::frame_bytes;
use crate::websocket::frame::lemma_frame_round_trip;
use crate::websocket::header::HeaderView;
use crate::websocket::message::MessageType;
use crate::websocket::message::MessageView;
use crate::websocket::message::WebSocketError;
use crate::websocket::message::opcode_of;
use crate::websocket::reader::Buffered;
use crate::websocket::reader::Received;
use crate::websocket::reader::Step;
use crate::websocket::reader::after;
use crate::websocket::reader::frame_step;
use crate::websocket::reader::recv_spec;
use crate::websocket::writer::control_outcome;
use crate::websocket::writer::message_bytes;

verus! {

/// A masking key is four bytes, or absent.
pub open spec fn key_ok(key: Seq<u8>) -> bool {
    key.len() == 4 || key.len() == 0
}

/// The header of a frame of the given type whose mask bit is set exactly when
/// there is a key.
pub open spec fn frame_header(fin: u8, typ: MessageType, key: Seq<u8>, len: nat) -> HeaderView {
    HeaderView {
        fin,
        opcode: opcode_of(typ),
        mask: if key.len() == 4 { 1 } else { 0 },
        payload_len: len as u64,
        masking_key: key,
    }
}

/// The wire form of one frame of the given type.
pub open spec fn typed_frame(fin: u8, typ: MessageType, key: Seq<u8>, payload: Seq<u8>) -> Seq<
    u8,
> {
    frame_bytes(frame_header(fin, typ, key, payload.len()), payload)
}

/// One part of a fragmented message, with the key it is sent under.
pub struct Fragment {
    pub payload: Seq<u8>,
    pub key: Seq<u8>,
}

/// All parts have a proper key and fit the payload limit.
pub open spec fn fragments_ok(parts: Seq<Fragment>, max_payload: u64) -> bool {
    forall|i: int|
        0 <= i < parts.len() ==> key_ok(#[trigger] parts[i].key) && parts[i].payload.len()
            <= max_payload
}

/// The parts as continuation frames, with the fin bit on the last one only.
pub open spec fn continuation_bytes(parts: Seq<Fragment>) -> Seq<u8>
    decreases parts.len(),
{
    if parts.len() == 0 {
        Seq::empty()
    } else {
        typed_frame(
            if parts.len() == 1 { 1 } else { 0 },
            MessageType::Continuation,
            parts[0].key,
            parts[0].payload,
        ) + continuation_bytes(parts.drop_first())
    }
}

/// The payloads of the parts, one after the other.
pub open spec fn joined(parts: Seq<Fragment>) -> Seq<u8>
    decreases parts.len(),
{
    if parts.len() == 0 {
        Seq::empty()
    } else {
        parts[0].payload + joined(parts.drop_first())
    }
}

/// Reading a stream that starts with one well-formed frame comes down to
/// what that frame does to the reader; on a fragment, reading goes on with
/// what follows the frame.
pub proof fn lemma_recv_one_frame(
    buffered: Buffered,
    fin: u8,
    typ: MessageType,
    key: Seq<u8>,
    payload: Seq<u8>,
    rest: Seq<u8>,
    max_payload: u64,
)
    requires
        fin <= 1,
        key_ok(key),
        payload.len() <= max_payload,
    ensures
        ({
            let frame = typed_frame(fin, typ, key, payload);
            let (step, next) = frame_step(buffered, fin, opcode_of(typ), payload);
            recv_spec(buffered, frame + rest, max_payload) == match step {
                Step::Deliver(m) => Received { result: Ok(m), buffered: next, consumed: frame.len() },
                Step::Fail(e) => Received { result: Err(e), buffered: next, consumed: frame.len() },
                Step::Continue => after(frame.len(), recv_spec(next, rest, max_payload)),
            }
        }),
{
    let h = frame_header(fin, typ, key, payload.len());
    let frame = typed_frame(fin, typ, key, payload);
    lemma_frame_round_trip(h, payload, rest, max_payload);
    assert((frame + rest).skip(frame.len() as int) == rest);
}

/// A message sent as a single final frame, masked under any key or not
/// masked at all, is received with the same type and the same payload.
pub proof fn lemma_message_round_trip(
    typ: MessageType,
    contents: Seq<u8>,
    key: Seq<u8>,
    rest: Seq<u8>,
    max_payload: u64,
)
    requires
        key_ok(key),
        contents.len() <= max_payload,
    ensures
        recv_spec(None, typed_frame(1, typ, key, contents) + rest, max_payload) == (Received {
            result: Ok(MessageView { typ, contents }),
            buffered: None,
            consumed: typed_frame(1, typ, key, contents).len(),
        }),
{
    lemma_recv_one_frame(None, 1, typ, key, contents, rest, max_payload);
}

/// What the writer sends for a message, the reader receives as that message.
pub proof fn lemma_write_then_recv(m: MessageView, rest: Seq<u8>, max_payload: u64)
    requires
        m.contents.len() <= max_payload,
    ensures
        recv_spec(None, message_bytes(m) + rest, max_payload) == (Received {
            result: Ok(m),
            buffered: None,
            consumed: message_bytes(m).len(),
        }),
{
    lemma_message_round_trip(m.typ, m.contents, Seq::empty(), rest, max_payload);
}

/// A reader that holds the start of a message and is given the remaining
/// parts as continuation frames delivers one message of the first frame's
/// type, whose payload is what it held followed by the parts in order.
pub proof fn lemma_continuations_complete(
    first: MessageType,
    so_far: Seq<u8>,
    parts: Seq<Fragment>,
    rest: Seq<u8>,
    max_payload: u64,
)
    requires
        parts.len() >= 1,
        fragments_ok(parts, max_payload),
    ensures
        recv_spec(Some((first, so_far)), continuation_bytes(parts) + rest, max_payload) == (
        Received {
            result: Ok(MessageView { typ: first, contents: so_far + joined(parts) }),
            buffered: None,
            consumed: continuation_bytes(parts).len(),
        }),
    decreases parts.len(),
{
    let head = parts[0];
    let tail = parts.drop_first();
    let fin: u8 = if parts.len() == 1 { 1 } else { 0 };
    let frame = typed_frame(fin, MessageType::Continuation, head.key, head.payload);
    assert(continuation_bytes(parts) + rest == frame + (continuation_bytes(tail) + rest));
    lemma_recv_one_frame(
        Some((first, so_far)),
        fin,
        MessageType::Continuation,
        head.key,
        head.payload,
        continuation_bytes(tail) + rest,
        max_payload,
    );
    if parts.len() == 1 {
        assert(tail.len() == 0);
        assert(joined(parts) == head.payload);
        assert(continuation_bytes(parts) == frame);
    } else {
        assert forall|i: int| 0 <= i < tail.len() implies key_ok(#[trigger] tail[i].key)
            && tail[i].payload.len() <= max_payload by {
            assert(tail[i] == parts[i + 1]);
        }
        lemma_continuations_complete(first, so_far + head.payload, tail, rest, max_payload);
        assert((so_far + head.payload) + joined(tail) == so_far + joined(parts));
    }
}

/// A text or binary frame without the fin bit, followed by one or more
/// continuation frames of which the last has the fin bit, is received as one
/// message whose payload is the payloads in the order of arrival. Whatever
/// the reader held before is given up.
pub proof fn lemma_fragments_reassemble(
    buffered: Buffered,
    typ: MessageType,
    head: Fragment,
    parts: Seq<Fragment>,
    rest: Seq<u8>,
    max_payload: u64,
)
    requires
        typ == MessageType::Text || typ == MessageType::Binary,
        key_ok(head.key),
        head.payload.len() <= max_payload,
        parts.len() >= 1,
        fragments_ok(parts, max_payload),
    ensures
        ({
            let stream = typed_frame(0, typ, head.key, head.payload) + continuation_bytes(parts);
            recv_spec(buffered, stream + rest, max_payload) == (Received {
                result: Ok(MessageView { typ, contents: head.payload + joined(parts) }),
                buffered: None,
                consumed: stream.len(),
            })
        }),
{
    let frame = typed_frame(0, typ, head.key, head.payload);
    let stream = frame + continuation_bytes(parts);
    assert(stream + rest == frame + (continuation_bytes(parts) + rest));
    lemma_recv_one_frame(
        buffered,
        0,
        typ,
        head.key,
        head.payload,
        continuation_bytes(parts) + rest,
        max_payload,
    );
    lemma_continuations_complete(typ, head.payload, parts, rest, max_payload);
}

/// A ping, pong or close frame is delivered at once, whatever the reader
/// holds, and the fragments it holds stay as they are: the message in
/// progress is neither delivered in part nor damaged.
pub proof fn lemma_control_frame_passes(
    buffered: Buffered,
    fin: u8,
    typ: MessageType,
    key: Seq<u8>,
    payload: Seq<u8>,
    rest: Seq<u8>,
    max_payload: u64,
)
    requires
        typ.spec_is_control(),
        fin <= 1,
        key_ok(key),
        payload.len() <= max_payload,
    ensures
        recv_spec(buffered, typed_frame(fin, typ, key, payload) + rest, max_payload) == (Received {
            result: Ok(MessageView { typ, contents: payload }),
            buffered,
            consumed: typed_frame(fin, typ, key, payload).len(),
        }),
{
    lemma_recv_one_frame(buffered, fin, typ, key, payload, rest, max_payload);
}

/// A control frame that arrives between the fragments of a text or binary
/// message is delivered first, and the message is delivered whole by the
/// next call: its payload is that of all its fragments in order, as if the
/// control frame had not been there.
pub proof fn lemma_control_frame_between_fragments(
    typ: MessageType,
    head: Fragment,
    control: MessageType,
    between: Fragment,
    parts: Seq<Fragment>,
    rest: Seq<u8>,
    max_payload: u64,
)
    requires
        typ == MessageType::Text || typ == MessageType::Binary,
        control.spec_is_control(),
        key_ok(head.key),
        head.payload.len() <= max_payload,
        key_ok(between.key),
        between.payload.len() <= max_payload,
        parts.len() >= 1,
        fragments_ok(parts, max_payload),
    ensures
        ({
            let start = typed_frame(0, typ, head.key, head.payload);
            let middle = typed_frame(1, control, between.key, between.payload);
            let end = continuation_bytes(parts);
            let first = recv_spec(None, start + middle + end + rest, max_payload);
            let second = recv_spec(first.buffered, end + rest, max_payload);
            &&& first == (Received {
                result: Ok(MessageView { typ: control, contents: between.payload }),
                buffered: Some((typ, head.payload)),
                consumed: (start + middle).len(),
            })
            &&& second == (Received {
                result: Ok(MessageView { typ, contents: head.payload + joined(parts) }),
                buffered: None,
                consumed: end.len(),
            })
        }),
{
    let start = typed_frame(0, typ, head.key, head.payload);
    let middle = typed_frame(1, control, between.key, between.payload);
    let end = continuation_bytes(parts);
    assert(start + middle + end + rest == start + (middle + (end + rest)));
    lemma_recv_one_frame(None, 0, typ, head.key, head.payload, middle + (end + rest), max_payload);
    lemma_control_frame_passes(
        Some((typ, head.payload)),
        1,
        control,
        between.key,
        between.payload,
        end + rest,
        max_payload,
    );
    lemma_continuations_complete(typ, head.payload, parts, rest, max_payload);
}

/// A close frame that arrives at any point, also in the middle of a
/// fragmented message, is received as a close message and never as the
/// fragments read so far; the control-frame responder turns it into
/// `ConnectionClosed`, which ends the message loop.
pub proof fn lemma_close_ends_loop(
    buffered: Buffered,
    fin: u8,
    key: Seq<u8>,
    payload: Seq<u8>,
    rest: Seq<u8>,
    max_payload: u64,
)
    requires
        fin <= 1,
        key_ok(key),
        payload.len() <= max_payload,
    ensures
        ({
            let got = recv_spec(
                buffered,
                typed_frame(fin, MessageType::Close, key, payload) + rest,
                max_payload,
            );
            &&& got.result == Ok::<MessageView, WebSocketError>(
                MessageView { typ: MessageType::Close, contents: payload },
            )
            &&& got.buffered == buffered
            &&& control_outcome(got.result->Ok_0.typ) == Err::<bool, WebSocketError>(
                WebSocketError::ConnectionClosed,
            )
        }),
{
    lemma_control_frame_passes(buffered, fin, MessageType::Close, key, payload, rest, max_payload);
}

} // verus!
