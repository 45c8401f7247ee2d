use std::collections::VecDeque;
use vstd::prelude::*;

use crate::ws_message::{Opcode, WsMessage};

verus! {

/// The outcome of handing a message to the socket.
#[derive(Debug, Eq, PartialEq, Clone, Copy, Structural)]
pub enum SendStatus {
    Backpressure,
    Success,
    Dropped,
    WsDisconnected,
}

/// A frame ready for the socket: payload, opcode, `compress`, `fin`.
pub type Frame = (Vec<u8>, Opcode, bool, bool);

/// `s` cut into consecutive pieces of `size` bytes; the last piece may be shorter.
pub open spec fn chunked(s: Seq<u8>, size: nat) -> Seq<Seq<u8>>
    decreases s.len(),
{
    if s.len() == 0 || size == 0 {
        Seq::empty()
    } else if s.len() <= size {
        seq![s]
    } else {
        seq![s.take(size as int)] + chunked(s.skip(size as int), size)
    }
}

/// The frames that carry `payload` in pieces of `size` bytes: the first frame has
/// `opcode`, the others `Continuation`; all share `compress`; only the last has `fin`.
pub open spec fn is_fragmentation(
    frames: Seq<Frame>,
    payload: Seq<u8>,
    size: nat,
    opcode: Opcode,
    compress: bool,
) -> bool {
    let pieces = chunked(payload, size);
    &&& frames.len() == pieces.len()
    &&& forall|i: int|
        #![trigger frames[i]]
        0 <= i < frames.len() ==> {
            &&& frames[i].0@ == pieces[i]
            &&& frames[i].1 == (if i == 0 {
                opcode
            } else {
                Opcode::Continuation
            })
            &&& frames[i].2 == compress
            &&& frames[i].3 == (i == frames.len() - 1)
        }
}

proof fn lemma_chunked_step(s: Seq<u8>, size: nat)
    requires
        s.len() > 0,
        size > 0,
    ensures
        chunked(s, size).len() > 0,
        s.len() <= size ==> chunked(s, size) == seq![s],
        s.len() > size ==> chunked(s, size) == seq![s.take(size as int)] + chunked(
            s.skip(size as int),
            size,
        ),
        s.len() <= size <==> chunked(s, size).len() == 1,
{
    if s.len() > size {
        lemma_chunked_nonempty(s.skip(size as int), size);
    }
}

proof fn lemma_chunked_nonempty(s: Seq<u8>, size: nat)
    requires
        s.len() > 0,
        size > 0,
    ensures
        chunked(s, size).len() >= 1,
    decreases s.len(),
{
}

/// Joining the pieces gives the payload back; every piece holds between 1 and
/// `size` bytes; there are ceil(len / size) pieces.
pub proof fn lemma_chunked_roundtrip(s: Seq<u8>, size: nat)
    requires
        size > 0,
    ensures
        chunked(s, size).flatten() == s,
        forall|i: int|
            0 <= i < chunked(s, size).len() ==> 0 < #[trigger] chunked(s, size)[i].len() <= size,
        chunked(s, size).len() == (s.len() + size - 1) / (size as int),
    decreases s.len(),
{
    let c = chunked(s, size);
    if s.len() == 0 {
        assert(c.len() == 0);
        assert((s.len() + size - 1) / (size as int) == 0) by (nonlinear_arith)
            requires
                size > 0,
                s.len() == 0,
        ;
    } else if s.len() <= size {
        assert(c == seq![s]);
        assert(c.drop_first() =~= Seq::<Seq<u8>>::empty());
        assert(c.flatten() == s + Seq::<Seq<u8>>::empty().flatten());
        assert(s + Seq::<u8>::empty() =~= s);
        let n = s.len() as int;
        let z = size as int;
        assert((n + z - 1) / z == 1) by (nonlinear_arith)
            requires
                0 < n <= z,
        ;
    } else {
        let rest = s.skip(size as int);
        lemma_chunked_roundtrip(rest, size);
        let tail = chunked(rest, size);
        assert(c == seq![s.take(size as int)] + tail);
        assert(c.first() == s.take(size as int));
        assert(c.drop_first() =~= tail);
        assert(s.take(size as int) + rest =~= s);
        assert forall|i: int| 0 <= i < c.len() implies 0 < #[trigger] c[i].len() <= size by {
            if i > 0 {
                assert(c[i] == tail[i - 1]);
            }
        }
        let n = s.len() as int;
        let z = size as int;
        assert((n + z - 1) / z == 1 + (n - z + z - 1) / z) by (nonlinear_arith)
            requires
                z > 0,
                n > z,
        {
            vstd::arithmetic::div_mod::lemma_div_plus_one(n - 1, z);
        }
    }
}

/// The payloads of a fragmentation, joined in order, give back the whole payload;
/// each frame holds at least one and at most `size` bytes.
pub proof fn lemma_fragments_rejoin(
    frames: Seq<Frame>,
    payload: Seq<u8>,
    size: nat,
    opcode: Opcode,
    compress: bool,
)
    requires
        size > 0,
        is_fragmentation(frames, payload, size, opcode, compress),
    ensures
        frames.map_values(|f: Frame| f.0@).flatten() == payload,
        forall|i: int| 0 <= i < frames.len() ==> 0 < #[trigger] frames[i].0@.len() <= size,
{
    lemma_chunked_roundtrip(payload, size);
    let pieces = chunked(payload, size);
    assert(frames.map_values(|f: Frame| f.0@) =~= pieces);
    assert forall|i: int| 0 <= i < frames.len() implies 0 < #[trigger] frames[i].0@.len() <= size by {
        assert(frames[i].0@ == pieces[i]);
    }
}

/// Whatever `compress` is, a fragmentation starts with the message opcode, every later
/// frame is a `Continuation` frame, every frame carries `compress`, exactly the last
/// frame is final, and there is a frame exactly when the payload is not empty.
pub proof fn lemma_fragment_frame_flags(
    frames: Seq<Frame>,
    payload: Seq<u8>,
    size: nat,
    opcode: Opcode,
    compress: bool,
)
    requires
        size > 0,
        is_fragmentation(frames, payload, size, opcode, compress),
    ensures
        frames.len() > 0 <==> payload.len() > 0,
        frames.len() > 0 ==> frames[0].1 == opcode,
        forall|i: int| 0 < i < frames.len() ==> #[trigger] frames[i].1 == Opcode::Continuation,
        forall|i: int| 0 <= i < frames.len() ==> #[trigger] frames[i].2 == compress,
        forall|i: int| 0 <= i < frames.len() ==> (#[trigger] frames[i].3 <==> i == frames.len() - 1),
{
    lemma_chunked_roundtrip(payload, size);
    if payload.len() > 0 {
        lemma_chunked_nonempty(payload, size);
    } else {
        assert(chunked(payload, size).len() == 0);
    }
    assert forall|i: int| 0 < i < frames.len() implies #[trigger] frames[i].1 == Opcode::Continuation by {
        assert(frames[i].1 == (if i == 0 { opcode } else { Opcode::Continuation }));
    }
}

/// Cuts `payload` into frames of at most `chunk_size` bytes.
///
/// The first frame carries `opcode` and the following ones `Continuation`; every
/// frame has the given `compress` flag and only the last one is final.
/// An empty payload gives no frame.
pub fn split_into_chunks(payload: Vec<u8>, chunk_size: usize, opcode: Opcode, compress: bool) -> (r:
    VecDeque<Frame>)
    requires
        chunk_size > 0,
    ensures
        is_fragmentation(r@, payload@, chunk_size as nat, opcode, compress),
        r@.map_values(|f: Frame| f.0@).flatten() == payload@,
        r@.len() > 0 <==> payload@.len() > 0,
        r@.len() > 0 ==> r@[0].1 == opcode,
        forall|i: int| 0 < i < r@.len() ==> #[trigger] r@[i].1 == Opcode::Continuation,
        forall|i: int| 0 <= i < r@.len() ==> #[trigger] r@[i].2 == compress,
        forall|i: int| 0 <= i < r@.len() ==> (#[trigger] r@[i].3 <==> i == r@.len() - 1),
        forall|i: int| 0 <= i < r@.len() ==> 0 < #[trigger] r@[i].0@.len() <= chunk_size,
{
    let n = payload.len();
    let ghost size = chunk_size as nat;
    let ghost pieces = chunked(payload@, size);
    let mut result: VecDeque<Frame> = VecDeque::new();
    let mut start: usize = 0;
    proof {
        assert(payload@.skip(0) =~= payload@);
        assert(pieces.skip(0) =~= pieces);
    }
    while start < n
        invariant
            n == payload@.len(),
            chunk_size > 0,
            size == chunk_size as nat,
            pieces == chunked(payload@, size),
            start <= n,
            result@.len() <= pieces.len(),
            chunked(payload@.skip(start as int), size) == pieces.skip(result@.len() as int),
            forall|i: int|
                #![trigger result@[i]]
                0 <= i < result@.len() ==> {
                    &&& result@[i].0@ == pieces[i]
                    &&& result@[i].1 == (if i == 0 {
                        opcode
                    } else {
                        Opcode::Continuation
                    })
                    &&& result@[i].2 == compress
                    &&& result@[i].3 == (i == pieces.len() - 1)
                },
        decreases n - start,
    {
        let ghost k = result@.len() as int;
        let ghost rest = payload@.skip(start as int);
        proof {
            lemma_chunked_step(rest, size);
        }
        let end: usize = if n - start > chunk_size {
            start + chunk_size
        } else {
            n
        };
        let mut piece: Vec<u8> = Vec::new();
        let mut j: usize = start;
        while j < end
            invariant
                start <= j <= end <= n,
                n == payload@.len(),
                piece@ =~= payload@.subrange(start as int, j as int),
            decreases end - j,
        {
            piece.push(payload[j]);
            j = j + 1;
        }
        proof {
            assert(pieces.skip(k).len() == pieces.len() - k);
            assert(pieces.skip(k)[0] == pieces[k]);
            if end == n {
                assert(rest =~= payload@.subrange(start as int, n as int));
                assert(chunked(rest, size) == seq![rest]);
                assert(pieces.len() - k == 1);
                assert(pieces.skip(k + 1) =~= Seq::<Seq<u8>>::empty());
                assert(payload@.skip(n as int) =~= Seq::<u8>::empty());
            } else {
                assert(rest.take(size as int) =~= payload@.subrange(start as int, end as int));
                assert(rest.skip(size as int) =~= payload@.skip(end as int));
                assert(pieces.skip(k).drop_first() =~= pieces.skip(k + 1));
                assert(chunked(rest, size).drop_first() =~= chunked(rest.skip(size as int), size));
                lemma_chunked_nonempty(rest.skip(size as int), size);
                assert(pieces.len() - k > 1);
            }
        }
        let frame_opcode = if result.len() == 0 {
            opcode
        } else {
            Opcode::Continuation
        };
        result.push_back((piece, frame_opcode, compress, end == n));
        start = end;
    }
    proof {
        assert(payload@.skip(n as int) =~= Seq::<u8>::empty());
        assert(pieces.skip(result@.len() as int).len() == 0);
        lemma_fragments_rejoin(result@, payload@, size, opcode, compress);
        lemma_fragment_frame_flags(result@, payload@, size, opcode, compress);
    }
    result
}

/// The payload of a control frame: the given bytes, or nothing.
pub open spec fn control_payload(message: Option<Vec<u8>>) -> Seq<u8> {
    match message {
        Some(bytes) => bytes@,
        None => Seq::empty(),
    }
}

/// What the socket is asked to do for one outgoing message.
pub enum SendPlan {
    /// Send one frame and report the socket's status.
    Single(Frame),
    /// Send these frames in order; on backpressure keep the rest as pending chunks.
    Fragments(VecDeque<Frame>),
    /// Close the connection with a code and an optional reason.
    Close(i32, Option<String>),
}

/// The plan that sending `message` with the given `compress` and `fin` flags follows.
pub open spec fn plan_matches(plan: SendPlan, message: WsMessage, compress: bool, fin: bool) -> bool {
    match message {
        WsMessage::Message(payload, opcode) => plan == SendPlan::Single((payload, opcode, compress, fin)),
        WsMessage::Fragmented(payload, opcode, size) => plan matches SendPlan::Fragments(frames)
            && is_fragmentation(frames@, payload@, size as nat, opcode, compress),
        WsMessage::Ping(m) => plan matches SendPlan::Single(frame) && frame.0@ == control_payload(m)
            && frame.1 == Opcode::Ping && !frame.2 && frame.3,
        WsMessage::Pong(m) => plan matches SendPlan::Single(frame) && frame.0@ == control_payload(m)
            && frame.1 == Opcode::Pong && !frame.2 && frame.3,
        WsMessage::Close(code, reason) => plan == SendPlan::Close(code, reason),
    }
}

/// Every plan that [`plan_send`] promises sends the message faithfully: a data message
/// is one frame with its bytes, opcode and the caller's flags; a fragmented one is frames
/// whose bytes rejoin to its payload, the first with its opcode and the rest
/// `Continuation`; a ping or pong is one uncompressed final frame of that kind carrying
/// its payload (none when it has none); a close ends the socket with its code and reason.
pub proof fn lemma_plan_is_faithful(r: SendPlan, message: WsMessage, compress: bool, fin: bool)
    requires
        message matches WsMessage::Fragmented(_, _, n) ==> n > 0,
        plan_matches(r, message, compress, fin),
    ensures
        message matches WsMessage::Message(p, op) ==> (r matches SendPlan::Single(f) && f.0@ == p@
            && f.1 == op && f.2 == compress && f.3 == fin),
        message matches WsMessage::Fragmented(p, op, n) ==> (r matches SendPlan::Fragments(fs)
            && fs@.map_values(|f: Frame| f.0@).flatten() == p@ && (fs@.len() > 0 ==> fs@[0].1 == op)
            && (forall|i: int| 0 < i < fs@.len() ==> #[trigger] fs@[i].1 == Opcode::Continuation)
            && (forall|i: int| 0 <= i < fs@.len() ==> 0 < #[trigger] fs@[i].0@.len() <= n)),
        message matches WsMessage::Ping(Some(b)) ==> (r matches SendPlan::Single(f) && f.0@ == b@
            && f.1 == Opcode::Ping && !f.2 && f.3),
        message matches WsMessage::Ping(None) ==> (r matches SendPlan::Single(f) && f.0@.len() == 0
            && f.1 == Opcode::Ping && !f.2 && f.3),
        message matches WsMessage::Pong(Some(b)) ==> (r matches SendPlan::Single(f) && f.0@ == b@
            && f.1 == Opcode::Pong && !f.2 && f.3),
        message matches WsMessage::Pong(None) ==> (r matches SendPlan::Single(f) && f.0@.len() == 0
            && f.1 == Opcode::Pong && !f.2 && f.3),
        message matches WsMessage::Close(code, reason) ==> (r matches SendPlan::Close(c, why) && c
            == code && why == reason),
{
    match message {
        WsMessage::Fragmented(p, op, n) => {
            let fs = r->Fragments_0;
            lemma_fragments_rejoin(fs@, p@, n as nat, op, compress);
            lemma_fragment_frame_flags(fs@, p@, n as nat, op, compress);
        },
        _ => {},
    }
}

fn control_bytes(message: Option<Vec<u8>>) -> (r: Vec<u8>)
    ensures
        r@ == control_payload(message),
{
    match message {
        Some(bytes) => bytes,
        None => Vec::new(),
    }
}

/// Turns an outgoing message into the frames (or the close) the socket receives.
///
/// Data messages keep the caller's `compress` and `fin`; a fragmented message is cut
/// by [`split_into_chunks`]; ping and pong are single, uncompressed, final frames
/// whose payload defaults to empty.
pub fn plan_send(message: WsMessage, compress: bool, fin: bool) -> (r: SendPlan)
    requires
        message matches WsMessage::Fragmented(_, _, size) ==> size > 0,
    ensures
        plan_matches(r, message, compress, fin),
        message matches WsMessage::Message(p, op) ==> (r matches SendPlan::Single(f) && f.0@ == p@
            && f.1 == op && f.2 == compress && f.3 == fin),
        message matches WsMessage::Fragmented(p, op, n) ==> (r matches SendPlan::Fragments(fs)
            && fs@.map_values(|f: Frame| f.0@).flatten() == p@ && (fs@.len() > 0 ==> fs@[0].1 == op)
            && (forall|i: int| 0 < i < fs@.len() ==> #[trigger] fs@[i].1 == Opcode::Continuation)
            && (forall|i: int| 0 <= i < fs@.len() ==> 0 < #[trigger] fs@[i].0@.len() <= n)),
        message matches WsMessage::Ping(Some(b)) ==> (r matches SendPlan::Single(f) && f.0@ == b@
            && f.1 == Opcode::Ping && !f.2 && f.3),
        message matches WsMessage::Ping(None) ==> (r matches SendPlan::Single(f) && f.0@.len() == 0
            && f.1 == Opcode::Ping && !f.2 && f.3),
        message matches WsMessage::Pong(Some(b)) ==> (r matches SendPlan::Single(f) && f.0@ == b@
            && f.1 == Opcode::Pong && !f.2 && f.3),
        message matches WsMessage::Pong(None) ==> (r matches SendPlan::Single(f) && f.0@.len() == 0
            && f.1 == Opcode::Pong && !f.2 && f.3),
        message matches WsMessage::Close(code, reason) ==> (r matches SendPlan::Close(c, why) && c
            == code && why == reason),
{
    let ghost original = message;
    let r = match message {
        WsMessage::Message(payload, opcode) => SendPlan::Single((payload, opcode, compress, fin)),
        WsMessage::Fragmented(payload, opcode, size) => SendPlan::Fragments(
            split_into_chunks(payload, size, opcode, compress),
        ),
        WsMessage::Ping(m) => SendPlan::Single((control_bytes(m), Opcode::Ping, false, true)),
        WsMessage::Pong(m) => SendPlan::Single((control_bytes(m), Opcode::Pong, false, true)),
        WsMessage::Close(code, reason) => SendPlan::Close(code, reason),
    };
    proof {
        lemma_plan_is_faithful(r, original, compress, fin);
    }
    r
}

/// Frames of a fragmented message that the socket did not take because of backpressure.
pub struct PendingChunks {
    pub chunks: VecDeque<Frame>,
}

impl PendingChunks {
    pub fn new() -> (r: Self)
        ensures
            r.chunks@.len() == 0,
    {
        PendingChunks { chunks: VecDeque::new() }
    }
}

/// Hands the frames of a fragmented message to the socket one by one.
pub struct FragmentSender {
    remaining: VecDeque<Frame>,
    sent: Ghost<Seq<Frame>>,
}

impl View for FragmentSender {
    type V = Seq<Frame>;

    /// The frames not handed out yet.
    closed spec fn view(&self) -> Seq<Frame> {
        self.remaining@
    }
}

impl FragmentSender {
    /// The frames handed out so far, in order.
    pub closed spec fn spec_sent(&self) -> Seq<Frame> {
        self.sent@
    }

    pub fn new(frames: VecDeque<Frame>) -> (r: Self)
        ensures
            r@ == frames@,
            r.spec_sent() == Seq::<Frame>::empty(),
    {
        FragmentSender { remaining: frames, sent: Ghost(Seq::empty()) }
    }

    /// The next frame to send, in the original order.
    pub fn next_frame(&mut self) -> (r: Option<Frame>)
        ensures
            final(self).spec_sent() + final(self)@ == old(self).spec_sent() + old(self)@,
            old(self)@.len() == 0 ==> r is None && final(self)@ == old(self)@
                && final(self).spec_sent() == old(self).spec_sent(),
            old(self)@.len() > 0 ==> r == Some(old(self)@[0])
                && final(self)@ == old(self)@.drop_first()
                && final(self).spec_sent() == old(self).spec_sent().push(old(self)@[0]),
    {
        let r = self.remaining.pop_front();
        proof {
            if r is Some {
                self.sent = Ghost(self.sent@.push(r->0));
                assert(self.sent@ + self.remaining@ =~= old(self).sent@ + old(self).remaining@);
            }
        }
        r
    }

    /// Reacts to the status of the frame just sent: on backpressure the frames not
    /// yet sent become pending chunks and sending stops; otherwise it goes on.
    /// Either way the frames sent followed by those pending or left are the frames
    /// the sender was made with.
    pub fn on_sent(&mut self, status: SendStatus) -> (r: Option<PendingChunks>)
        ensures
            final(self).spec_sent() == old(self).spec_sent(),
            status == SendStatus::Backpressure ==> (r matches Some(p) && p.chunks@ == old(self)@
                && final(self)@.len() == 0),
            status != SendStatus::Backpressure ==> r is None && final(self)@ == old(self)@,
    {
        if status == SendStatus::Backpressure {
            let mut rest: VecDeque<Frame> = VecDeque::new();
            std::mem::swap(&mut rest, &mut self.remaining);
            Some(PendingChunks { chunks: rest })
        } else {
            None
        }
    }
}

/// What the forwarding loop of a split socket does after one send.
#[derive(Debug, Eq, PartialEq, Clone, Copy, Structural)]
pub enum ForwardStep {
    /// Take the next message.
    Continue,
    /// Stop forwarding (the error or status is reported).
    Stop,
    /// A status that a forwarded send never yields.
    Unexpected,
}

/// The forwarding loop goes on after a successful send, stops on an error, a dropped
/// message or a closed socket, and never expects backpressure.
pub fn forward_step(result: &Result<SendStatus, String>) -> (r: ForwardStep)
    ensures
        r == match result {
            Ok(SendStatus::Success) => ForwardStep::Continue,
            Ok(SendStatus::Backpressure) => ForwardStep::Unexpected,
            _ => ForwardStep::Stop,
        },
{
    match result {
        Err(_) => ForwardStep::Stop,
        Ok(SendStatus::Success) => ForwardStep::Continue,
        Ok(SendStatus::Backpressure) => ForwardStep::Unexpected,
        Ok(SendStatus::Dropped) => ForwardStep::Stop,
        Ok(SendStatus::WsDisconnected) => ForwardStep::Stop,
    }
}

/// What a future that waits for a send on the event loop knows: the waker of the
/// task polling it, and the status once the send has happened.
pub struct WebsocketSendFutureState<W> {
    waker: Option<W>,
    send_status: Option<SendStatus>,
}

impl<W> WebsocketSendFutureState<W> {
    pub closed spec fn spec_waker(&self) -> Option<W> {
        self.waker
    }

    pub closed spec fn spec_status(&self) -> Option<SendStatus> {
        self.send_status
    }

    pub fn new() -> (r: Self)
        ensures
            r.spec_waker() is None,
            r.spec_status() is None,
    {
        WebsocketSendFutureState { waker: None, send_status: None }
    }

    /// Records the status of the send; returns the waker to wake, if any.
    pub fn complete(&mut self, status: SendStatus) -> (r: Option<W>)
        ensures
            r == old(self).spec_waker(),
            final(self).spec_waker() is None,
            final(self).spec_status() == Some(status),
    {
        self.send_status = Some(status);
        self.waker.take()
    }

    /// A poll by a task with `waker`: the recorded status, handed out once; otherwise
    /// `None` and the waker is kept.
    pub fn poll(&mut self, waker: W) -> (r: Option<SendStatus>)
        ensures
            r == old(self).spec_status(),
            final(self).spec_status() is None,
            r is Some ==> final(self).spec_waker() == old(self).spec_waker(),
            r is None ==> final(self).spec_waker() == Some(waker),
    {
        match self.send_status.take() {
            Some(status) => Some(status),
            None => {
                self.waker = Some(waker);
                None
            },
        }
    }
}

/// Sending with options is refused on a socket that is already closed.
pub fn ensure_open(is_open: bool) -> (r: Result<(), String>)
    ensures
        is_open ==> r is Ok,
        !is_open ==> (r matches Err(e) && e@ == "WebSocket is closed!"@),
{
    if is_open {
        Ok(())
    } else {
        Err("WebSocket is closed!".to_owned())
    }
}

} // verus!
