//! The capture worker's decisions, as a machine from state and event to next
//! state and action.
//!
//! The thread that owns the platform handles runs a loop: it performs the
//! action the session asks for (check the stop flag, wait on the platform
//! event, query or read a packet, deliver a frame to the sink, shut down) and
//! hands back what came of it as the next event. Everything the loop decides
//! stands here; only the platform calls stay with the caller.

use crate::convert::{f32_bytes_to_i16, lemma_samples_concat, lemma_samples_in_range, samples_of};
use crate::ring::{frame_at, FrameRing, FRAME_BYTES, FRAME_SAMPLES};
use vstd::prelude::*;

verus! {

/// One 20 ms frame of interleaved stereo 16-bit samples, `L, R, L, R, ...`.
pub struct PcmChunk {
    /// 1920 samples, each in `[-32767, 32767]`.
    pub samples: Vec<i16>,
}

/// What the sink reported for one delivered frame.
#[derive(Clone, Copy, Debug, PartialEq, Eq, Structural)]
pub enum SinkOutcome {
    Accepted,
    /// Skipped; the next frame is attempted.
    Transient,
    /// The downstream transport is gone: the worker ends.
    Permanent,
}

/// Where the worker stands in its loop.
#[derive(Clone, Copy, Debug, PartialEq, Eq, Structural)]
pub enum WorkerPhase {
    /// About to look at the running flag.
    AtLoopTop,
    /// Waiting on the platform event.
    Waiting,
    /// Asking for the size of the next packet.
    Querying,
    /// Reading a packet into the ring.
    Reading,
    /// A frame is with the sink.
    Delivering,
    /// The session is over; the platform stack is to be released.
    Finished,
}

/// What came of the last action.
pub enum WorkerEvent {
    /// The running flag as observed.
    FlagObserved(bool),
    /// The event wait returned: `true` when signalled, `false` on timeout.
    WaitEnded(bool),
    /// Frames in the next packet; zero when none is ready.
    PacketPending(u32),
    /// The packet-size query failed.
    PacketQueryFailed,
    /// The bytes of one packet.
    PacketRead(Vec<u8>),
    /// Reading a packet failed.
    PacketReadFailed,
    /// The sink's answer to the last frame.
    Delivered(SinkOutcome),
}

/// What the worker is to do next.
pub enum WorkerAction {
    CheckFlag,
    Wait,
    QueryPacket,
    ReadPacket,
    Deliver(PcmChunk),
    /// Stop the stream, release the platform handles and clear the running flag.
    Finish,
}

/// A `WorkerEvent` with its payload as a sequence.
pub enum EventView {
    FlagObserved(bool),
    WaitEnded(bool),
    PacketPending(u32),
    PacketQueryFailed,
    PacketRead(Seq<u8>),
    PacketReadFailed,
    Delivered(SinkOutcome),
}

/// A `WorkerAction` with the delivered samples as a sequence.
pub enum ActionView {
    CheckFlag,
    Wait,
    QueryPacket,
    ReadPacket,
    Deliver(Seq<i16>),
    Finish,
}

impl View for WorkerEvent {
    type V = EventView;

    open spec fn view(&self) -> EventView {
        match self {
            WorkerEvent::FlagObserved(r) => EventView::FlagObserved(*r),
            WorkerEvent::WaitEnded(s) => EventView::WaitEnded(*s),
            WorkerEvent::PacketPending(n) => EventView::PacketPending(*n),
            WorkerEvent::PacketQueryFailed => EventView::PacketQueryFailed,
            WorkerEvent::PacketRead(b) => EventView::PacketRead(b@),
            WorkerEvent::PacketReadFailed => EventView::PacketReadFailed,
            WorkerEvent::Delivered(o) => EventView::Delivered(*o),
        }
    }
}

impl View for WorkerAction {
    type V = ActionView;

    open spec fn view(&self) -> ActionView {
        match self {
            WorkerAction::CheckFlag => ActionView::CheckFlag,
            WorkerAction::Wait => ActionView::Wait,
            WorkerAction::QueryPacket => ActionView::QueryPacket,
            WorkerAction::ReadPacket => ActionView::ReadPacket,
            WorkerAction::Deliver(c) => ActionView::Deliver(c.samples@),
            WorkerAction::Finish => ActionView::Finish,
        }
    }
}

/// The state of a session.
pub struct SessionView {
    pub phase: WorkerPhase,
    /// Bytes in the ring, not yet framed.
    pub pending: Seq<u8>,
    /// Set after a fatal query failure: the ring is drained, then the session ends.
    pub stop_after_drain: bool,
    /// Every byte read from the platform so far, in order.
    pub captured: Seq<u8>,
    /// Every sample handed to the sink so far, in order.
    pub emitted: Seq<i16>,
    /// Number of frames handed to the sink so far.
    pub frames: nat,
}

/// The state of a new session.
pub open spec fn initial_view() -> SessionView {
    SessionView {
        phase: WorkerPhase::AtLoopTop,
        pending: Seq::empty(),
        stop_after_drain: false,
        captured: Seq::empty(),
        emitted: Seq::empty(),
        frames: 0,
    }
}

pub open spec fn with_phase(v: SessionView, p: WorkerPhase) -> SessionView {
    SessionView { phase: p, ..v }
}

/// After the packets are read: hand the next whole frame to the sink, or, with
/// less than a frame left, go back to the loop top (or end after a fatal error).
pub open spec fn drain_step(v: SessionView) -> (SessionView, ActionView) {
    if v.pending.len() >= FRAME_BYTES {
        let samples = samples_of(v.pending.take(FRAME_BYTES as int));
        (
            SessionView {
                phase: WorkerPhase::Delivering,
                pending: v.pending.skip(FRAME_BYTES as int),
                emitted: v.emitted + samples,
                frames: v.frames + 1,
                ..v
            },
            ActionView::Deliver(samples),
        )
    } else if v.stop_after_drain {
        (with_phase(v, WorkerPhase::Finished), ActionView::Finish)
    } else {
        (with_phase(v, WorkerPhase::AtLoopTop), ActionView::CheckFlag)
    }
}

/// The session's next state and action. An event that does not answer the
/// last action ends the session.
pub open spec fn transition(v: SessionView, e: EventView) -> (SessionView, ActionView) {
    let finished = (with_phase(v, WorkerPhase::Finished), ActionView::Finish);
    match v.phase {
        WorkerPhase::AtLoopTop => match e {
            EventView::FlagObserved(running) => if running {
                (with_phase(v, WorkerPhase::Waiting), ActionView::Wait)
            } else {
                finished
            },
            _ => finished,
        },
        WorkerPhase::Waiting => match e {
            EventView::WaitEnded(signalled) => if signalled {
                (with_phase(v, WorkerPhase::Querying), ActionView::QueryPacket)
            } else {
                (with_phase(v, WorkerPhase::AtLoopTop), ActionView::CheckFlag)
            },
            _ => finished,
        },
        WorkerPhase::Querying => match e {
            EventView::PacketPending(n) => if n == 0 {
                drain_step(v)
            } else {
                (with_phase(v, WorkerPhase::Reading), ActionView::ReadPacket)
            },
            EventView::PacketQueryFailed => drain_step(SessionView { stop_after_drain: true, ..v }),
            _ => finished,
        },
        WorkerPhase::Reading => match e {
            EventView::PacketRead(b) => (
                SessionView {
                    phase: WorkerPhase::Querying,
                    pending: v.pending + b,
                    captured: v.captured + b,
                    ..v
                },
                ActionView::QueryPacket,
            ),
            EventView::PacketReadFailed => drain_step(v),
            _ => finished,
        },
        WorkerPhase::Delivering => match e {
            EventView::Delivered(outcome) => if outcome == SinkOutcome::Permanent {
                finished
            } else {
                drain_step(v)
            },
            _ => finished,
        },
        WorkerPhase::Finished => finished,
    }
}

/// One capture session: the frame ring and the position in the loop.
pub struct CaptureSession {
    phase: WorkerPhase,
    ring: FrameRing,
    stop_after_drain: bool,
    captured: Ghost<Seq<u8>>,
    emitted: Ghost<Seq<i16>>,
    frames: Ghost<nat>,
}

impl View for CaptureSession {
    type V = SessionView;

    closed spec fn view(&self) -> SessionView {
        SessionView {
            phase: self.phase,
            pending: self.ring@,
            stop_after_drain: self.stop_after_drain,
            captured: self.captured@,
            emitted: self.emitted@,
            frames: self.frames@,
        }
    }
}

impl CaptureSession {
    /// A session at the top of its loop with an empty ring; its first action
    /// is `CheckFlag`.
    pub fn new() -> (r: CaptureSession)
        ensures
            r@ == initial_view(),
    {
        CaptureSession {
            phase: WorkerPhase::AtLoopTop,
            ring: FrameRing::new(),
            stop_after_drain: false,
            captured: Ghost(Seq::empty()),
            emitted: Ghost(Seq::empty()),
            frames: Ghost(0),
        }
    }

    /// Where the session stands.
    pub fn phase(&self) -> (r: WorkerPhase)
        ensures
            r == self@.phase,
    {
        self.phase
    }

    /// Bytes in the ring.
    pub fn pending_len(&self) -> (r: usize)
        ensures
            r == self@.pending.len(),
    {
        self.ring.len()
    }

    fn finish(&mut self) -> (act: WorkerAction)
        ensures
            (final(self)@, act@) == (with_phase(old(self)@, WorkerPhase::Finished), ActionView::Finish),
    {
        self.phase = WorkerPhase::Finished;
        WorkerAction::Finish
    }

    fn drain(&mut self) -> (act: WorkerAction)
        ensures
            (final(self)@, act@) == drain_step(old(self)@),
    {
        if self.ring.len() >= FRAME_BYTES {
            let bytes = self.ring.take_prefix(FRAME_BYTES);
            let samples = f32_bytes_to_i16(bytes.as_slice());
            self.emitted = Ghost(self.emitted@ + samples@);
            self.frames = Ghost(self.frames@ + 1);
            self.phase = WorkerPhase::Delivering;
            WorkerAction::Deliver(PcmChunk { samples })
        } else if self.stop_after_drain {
            self.finish()
        } else {
            self.phase = WorkerPhase::AtLoopTop;
            WorkerAction::CheckFlag
        }
    }

    /// Takes what came of the last action and returns the next one.
    pub fn step(&mut self, ev: WorkerEvent) -> (act: WorkerAction)
        ensures
            (final(self)@, act@) == transition(old(self)@, ev@),
    {
        match self.phase {
            WorkerPhase::AtLoopTop => match ev {
                WorkerEvent::FlagObserved(running) => {
                    if running {
                        self.phase = WorkerPhase::Waiting;
                        WorkerAction::Wait
                    } else {
                        self.finish()
                    }
                },
                _ => self.finish(),
            },
            WorkerPhase::Waiting => match ev {
                WorkerEvent::WaitEnded(signalled) => {
                    if signalled {
                        self.phase = WorkerPhase::Querying;
                        WorkerAction::QueryPacket
                    } else {
                        self.phase = WorkerPhase::AtLoopTop;
                        WorkerAction::CheckFlag
                    }
                },
                _ => self.finish(),
            },
            WorkerPhase::Querying => match ev {
                WorkerEvent::PacketPending(n) => {
                    if n == 0 {
                        self.drain()
                    } else {
                        self.phase = WorkerPhase::Reading;
                        WorkerAction::ReadPacket
                    }
                },
                WorkerEvent::PacketQueryFailed => {
                    self.stop_after_drain = true;
                    self.drain()
                },
                _ => self.finish(),
            },
            WorkerPhase::Reading => match ev {
                WorkerEvent::PacketRead(bytes) => {
                    self.ring.append(bytes.as_slice());
                    self.captured = Ghost(self.captured@ + bytes@);
                    self.phase = WorkerPhase::Querying;
                    WorkerAction::QueryPacket
                },
                WorkerEvent::PacketReadFailed => self.drain(),
                _ => self.finish(),
            },
            WorkerPhase::Delivering => match ev {
                WorkerEvent::Delivered(outcome) => {
                    if outcome == SinkOutcome::Permanent {
                        self.finish()
                    } else {
                        self.drain()
                    }
                },
                _ => self.finish(),
            },
            WorkerPhase::Finished => self.finish(),
        }
    }
}

/// The samples of the first `k` whole frames of `bytes`, frame after frame:
/// `convert(B[0..7680]) ++ convert(B[7680..15360]) ++ ...`.
pub open spec fn framed_samples(bytes: Seq<u8>, k: nat) -> Seq<i16>
    decreases k,
{
    if k == 0 {
        Seq::empty()
    } else {
        framed_samples(bytes, (k - 1) as nat) + samples_of(frame_at(bytes, k - 1))
    }
}

/// What holds of every reachable session: the ring holds what was captured
/// and not yet framed, the sink got the first `frames` frames converted, and
/// at the loop top or in the wait the ring holds less than one frame.
pub open spec fn consistent(v: SessionView) -> bool {
    &&& v.captured.len() == v.frames * FRAME_BYTES + v.pending.len()
    &&& v.pending == v.captured.skip(v.frames * FRAME_BYTES)
    &&& v.emitted == framed_samples(v.captured, v.frames)
    &&& (v.phase == WorkerPhase::AtLoopTop || v.phase == WorkerPhase::Waiting) ==> v.pending.len()
        < FRAME_BYTES
}

/// The first `k` frames do not depend on bytes past them.
proof fn lemma_framed_prefix(a: Seq<u8>, b: Seq<u8>, k: nat)
    requires
        k * FRAME_BYTES <= a.len(),
    ensures
        framed_samples(a + b, k) == framed_samples(a, k),
    decreases k,
{
    if k > 0 {
        lemma_framed_prefix(a, b, (k - 1) as nat);
        assert(frame_at(a + b, k - 1) =~= frame_at(a, k - 1));
    }
}

/// The framed samples are the samples of the whole-frame prefix, 1920 per frame.
pub proof fn lemma_framed_samples_whole(bytes: Seq<u8>, k: nat)
    requires
        k * FRAME_BYTES <= bytes.len(),
    ensures
        framed_samples(bytes, k) == samples_of(bytes.take(k * FRAME_BYTES)),
        framed_samples(bytes, k).len() == FRAME_SAMPLES * k,
    decreases k,
{
    if k > 0 {
        let j = (k - 1) as nat;
        lemma_framed_samples_whole(bytes, j);
        let head = bytes.take(j * FRAME_BYTES);
        let f = frame_at(bytes, j as int);
        assert(bytes.take(k * FRAME_BYTES) =~= head + f);
        assert(head.len() % 4 == 0) by {
            assert(j * FRAME_BYTES == 4 * (j * 1920)) by (nonlinear_arith);
        }
        lemma_samples_concat(head, f);
    } else {
        assert(bytes.take(0) =~= Seq::<u8>::empty());
        assert(samples_of(bytes.take(0)) =~= Seq::<i16>::empty());
    }
}

/// A new session is consistent.
pub proof fn lemma_initial_consistent()
    ensures
        consistent(initial_view()),
{
    assert(Seq::<u8>::empty().skip(0) =~= Seq::<u8>::empty());
}

proof fn lemma_drain_consistent(v: SessionView)
    requires
        v.captured.len() == v.frames * FRAME_BYTES + v.pending.len(),
        v.pending == v.captured.skip(v.frames * FRAME_BYTES),
        v.emitted == framed_samples(v.captured, v.frames),
    ensures
        consistent(drain_step(v).0),
{
    if v.pending.len() >= FRAME_BYTES {
        let n = drain_step(v).0;
        assert(v.pending.take(FRAME_BYTES as int) =~= frame_at(v.captured, v.frames as int));
        assert(n.frames * FRAME_BYTES == v.frames * FRAME_BYTES + FRAME_BYTES);
        assert(n.pending =~= v.captured.skip(n.frames * FRAME_BYTES));
    }
}

/// Every transition keeps a session consistent.
pub proof fn lemma_transition_consistent(v: SessionView, e: EventView)
    requires
        consistent(v),
    ensures
        consistent(transition(v, e).0),
{
    match v.phase {
        WorkerPhase::Querying => match e {
            EventView::PacketPending(n) => if n == 0 {
                lemma_drain_consistent(v);
            },
            EventView::PacketQueryFailed => {
                lemma_drain_consistent(SessionView { stop_after_drain: true, ..v });
            },
            _ => {},
        },
        WorkerPhase::Reading => match e {
            EventView::PacketRead(b) => {
                let n = transition(v, e).0;
                lemma_framed_prefix(v.captured, b, v.frames);
                assert(n.pending =~= n.captured.skip(n.frames * FRAME_BYTES));
            },
            EventView::PacketReadFailed => {
                lemma_drain_consistent(v);
            },
            _ => {},
        },
        WorkerPhase::Delivering => match e {
            EventView::Delivered(o) => if o != SinkOutcome::Permanent {
                lemma_drain_consistent(v);
            },
            _ => {},
        },
        _ => {},
    }
}

/// Between drain cycles (at the loop top or in the wait) the sink has got
/// exactly the conversions of the captured stream's whole frames, in order:
/// `convert(B[0..7680]) ++ convert(B[7680..15360]) ++ ...`, which is
/// `1920 * floor(|B| / 7680)` samples.
pub proof fn lemma_emitted_stream(v: SessionView)
    requires
        consistent(v),
        v.phase == WorkerPhase::AtLoopTop || v.phase == WorkerPhase::Waiting,
    ensures
        v.frames == v.captured.len() / FRAME_BYTES as nat,
        v.emitted == framed_samples(v.captured, v.captured.len() / FRAME_BYTES as nat),
        v.emitted == samples_of(v.captured.take(v.frames * FRAME_BYTES)),
        v.emitted.len() == FRAME_SAMPLES * (v.captured.len() / FRAME_BYTES as nat),
{
    let total = v.captured.len() as int;
    let k = v.frames as int;
    assert(k == total / FRAME_BYTES as int) by (nonlinear_arith)
        requires
            total == k * FRAME_BYTES + v.pending.len(),
            v.pending.len() < FRAME_BYTES,
            k >= 0,
            FRAME_BYTES == 7680,
    ;
    lemma_framed_samples_whole(v.captured, v.frames);
}

/// Every sample a consistent session has handed to the sink lies in
/// `[-32767, 32767]`.
pub proof fn lemma_emitted_in_range(v: SessionView)
    requires
        consistent(v),
    ensures
        forall|i: int| 0 <= i < v.emitted.len() ==> -32767 <= #[trigger] v.emitted[i] <= 32767,
{
    lemma_framed_samples_whole(v.captured, v.frames);
    lemma_samples_in_range(v.captured.take(v.frames * FRAME_BYTES));
}

/// Every delivered frame holds 1920 samples, each in `[-32767, 32767]`.
pub proof fn lemma_delivered_frame(v: SessionView, e: EventView)
    ensures
        transition(v, e).1 matches ActionView::Deliver(s) ==> s.len() == FRAME_SAMPLES && forall|
            i: int,
        |
            0 <= i < s.len() ==> -32767 <= #[trigger] s[i] <= 32767,
{
    if let ActionView::Deliver(s) = transition(v, e).1 {
        let d = if v.phase == WorkerPhase::Querying && e == EventView::PacketQueryFailed {
            SessionView { stop_after_drain: true, ..v }
        } else {
            v
        };
        assert(drain_step(d).1 == transition(v, e).1);
        lemma_samples_in_range(d.pending.take(FRAME_BYTES as int));
    }
}

/// A permanent sink failure ends the session at once: no further frame is
/// taken, and the frames handed over so far stay exactly those before it and
/// the refused one.
pub proof fn lemma_permanent_failure_ends(v: SessionView)
    requires
        v.phase == WorkerPhase::Delivering,
    ensures
        transition(v, EventView::Delivered(SinkOutcome::Permanent)) == (
        with_phase(v, WorkerPhase::Finished),
        ActionView::Finish,
        ),
{
}

/// A finished session stays finished and asks for nothing but `Finish`.
pub proof fn lemma_finished_is_final(v: SessionView, e: EventView)
    requires
        v.phase == WorkerPhase::Finished,
    ensures
        transition(v, e) == (v, ActionView::Finish),
{
    assert(with_phase(v, WorkerPhase::Finished) == v);
}

/// A wait that times out takes nothing from the ring and delivers nothing.
pub proof fn lemma_timeout_delivers_nothing(v: SessionView)
    requires
        v.phase == WorkerPhase::Waiting,
    ensures
        transition(v, EventView::WaitEnded(false)) == (
        with_phase(v, WorkerPhase::AtLoopTop),
        ActionView::CheckFlag,
        ),
{
}

} // verus!
