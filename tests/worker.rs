use mqvi_audio::{
    f32_bytes_to_i16, CaptureSession, SinkOutcome, WorkerAction, WorkerEvent, WorkerPhase,
    FRAME_BYTES, FRAME_SAMPLES,
};

/// Feeds one signalled wait carrying `packets`, then answers every delivery
/// with `answer(n)` for the n-th frame overall. Returns the action that ends
/// the drain cycle and the frames delivered.
fn cycle(
    s: &mut CaptureSession,
    packets: &[Vec<u8>],
    delivered: &mut Vec<Vec<i16>>,
    answer: &dyn Fn(usize) -> SinkOutcome,
) -> WorkerAction {
    assert!(matches!(s.step(WorkerEvent::FlagObserved(true)), WorkerAction::Wait));
    assert!(matches!(s.step(WorkerEvent::WaitEnded(true)), WorkerAction::QueryPacket));
    let mut act = WorkerAction::QueryPacket;
    for p in packets {
        assert!(matches!(s.step(WorkerEvent::PacketPending((p.len() / 8) as u32)), WorkerAction::ReadPacket));
        act = s.step(WorkerEvent::PacketRead(p.clone()));
        assert!(matches!(act, WorkerAction::QueryPacket));
    }
    if let WorkerAction::QueryPacket = act {
        act = s.step(WorkerEvent::PacketPending(0));
    }
    loop {
        match act {
            WorkerAction::Deliver(chunk) => {
                delivered.push(chunk.samples);
                act = s.step(WorkerEvent::Delivered(answer(delivered.len())));
            }
            other => return other,
        }
    }
}

#[test]
fn lifecycle_silence_frames_then_stop() {
    let mut s = CaptureSession::new();
    let mut delivered = Vec::new();
    let silence = vec![0u8; FRAME_BYTES];
    for _ in 0..5 {
        let act = cycle(&mut s, &[silence.clone()], &mut delivered, &|_| SinkOutcome::Accepted);
        assert!(matches!(act, WorkerAction::CheckFlag));
    }
    assert!(delivered.len() >= 4 && delivered.len() <= 6);
    for f in &delivered {
        assert_eq!(f, &vec![0i16; FRAME_SAMPLES]);
    }
    assert!(matches!(s.step(WorkerEvent::FlagObserved(false)), WorkerAction::Finish));
    assert_eq!(s.phase(), WorkerPhase::Finished);
}

#[test]
fn emitted_stream_is_framewise_conversion() {
    let stream: Vec<u8> = (0..(3 * FRAME_BYTES + 800))
        .map(|i| ((i * 37 + 11) % 256) as u8)
        .collect();
    let mut s = CaptureSession::new();
    let mut delivered = Vec::new();
    let mut packets = Vec::new();
    let mut at = 0;
    while at < stream.len() {
        let end = std::cmp::min(at + 5000, stream.len());
        packets.push(stream[at..end].to_vec());
        at = end;
    }
    let act = cycle(&mut s, &packets[..2], &mut delivered, &|_| SinkOutcome::Accepted);
    assert!(matches!(act, WorkerAction::CheckFlag));
    let act = cycle(&mut s, &packets[2..], &mut delivered, &|_| SinkOutcome::Accepted);
    assert!(matches!(act, WorkerAction::CheckFlag));
    assert_eq!(delivered.len(), stream.len() / FRAME_BYTES);
    let mut expected = Vec::new();
    for k in 0..delivered.len() {
        expected.extend(f32_bytes_to_i16(&stream[k * FRAME_BYTES..(k + 1) * FRAME_BYTES]));
    }
    let got: Vec<i16> = delivered.concat();
    assert_eq!(got.len(), FRAME_SAMPLES * (stream.len() / FRAME_BYTES));
    assert_eq!(got, expected);
    assert_eq!(s.pending_len(), 800);
}

#[test]
fn permanent_sink_failure_ends_after_that_frame() {
    let mut s = CaptureSession::new();
    let mut delivered = Vec::new();
    let burst = vec![0u8; 5 * FRAME_BYTES];
    let act = cycle(&mut s, &[burst], &mut delivered, &|n| {
        if n == 3 { SinkOutcome::Permanent } else { SinkOutcome::Accepted }
    });
    assert!(matches!(act, WorkerAction::Finish));
    assert_eq!(delivered.len(), 3);
    assert_eq!(s.phase(), WorkerPhase::Finished);
    assert!(matches!(s.step(WorkerEvent::FlagObserved(true)), WorkerAction::Finish));
}

#[test]
fn transient_sink_failure_skips_and_goes_on() {
    let mut s = CaptureSession::new();
    let mut delivered = Vec::new();
    let burst = vec![0u8; 3 * FRAME_BYTES];
    let act = cycle(&mut s, &[burst], &mut delivered, &|n| {
        if n == 1 { SinkOutcome::Transient } else { SinkOutcome::Accepted }
    });
    assert!(matches!(act, WorkerAction::CheckFlag));
    assert_eq!(delivered.len(), 3);
}

#[test]
fn timeout_with_empty_ring_delivers_nothing() {
    let mut s = CaptureSession::new();
    assert!(matches!(s.step(WorkerEvent::FlagObserved(true)), WorkerAction::Wait));
    assert!(matches!(s.step(WorkerEvent::WaitEnded(false)), WorkerAction::CheckFlag));
    assert_eq!(s.phase(), WorkerPhase::AtLoopTop);
    assert_eq!(s.pending_len(), 0);
}

#[test]
fn packet_query_failure_drains_then_finishes() {
    let mut s = CaptureSession::new();
    assert!(matches!(s.step(WorkerEvent::FlagObserved(true)), WorkerAction::Wait));
    assert!(matches!(s.step(WorkerEvent::WaitEnded(true)), WorkerAction::QueryPacket));
    assert!(matches!(s.step(WorkerEvent::PacketPending(960)), WorkerAction::ReadPacket));
    assert!(matches!(s.step(WorkerEvent::PacketRead(vec![0u8; FRAME_BYTES + 8])), WorkerAction::QueryPacket));
    match s.step(WorkerEvent::PacketQueryFailed) {
        WorkerAction::Deliver(c) => assert_eq!(c.samples.len(), FRAME_SAMPLES),
        _ => panic!("expected a frame"),
    }
    assert!(matches!(s.step(WorkerEvent::Delivered(SinkOutcome::Accepted)), WorkerAction::Finish));
    assert_eq!(s.pending_len(), 8);
}

#[test]
fn packet_read_failure_ends_the_drain_only() {
    let mut s = CaptureSession::new();
    assert!(matches!(s.step(WorkerEvent::FlagObserved(true)), WorkerAction::Wait));
    assert!(matches!(s.step(WorkerEvent::WaitEnded(true)), WorkerAction::QueryPacket));
    assert!(matches!(s.step(WorkerEvent::PacketPending(960)), WorkerAction::ReadPacket));
    assert!(matches!(s.step(WorkerEvent::PacketReadFailed), WorkerAction::CheckFlag));
    assert!(matches!(s.step(WorkerEvent::FlagObserved(true)), WorkerAction::Wait));
}

#[test]
fn out_of_turn_event_finishes() {
    let mut s = CaptureSession::new();
    assert!(matches!(s.step(WorkerEvent::PacketReadFailed), WorkerAction::Finish));
    assert_eq!(s.phase(), WorkerPhase::Finished);
}

#[test]
fn frame_samples_are_converted_floats() {
    let mut s = CaptureSession::new();
    let mut packet = Vec::new();
    for i in 0..(FRAME_BYTES / 4) {
        let x: f32 = if i % 2 == 0 { 0.5 } else { -2.0 };
        packet.extend_from_slice(&x.to_le_bytes());
    }
    let mut delivered = Vec::new();
    let act = cycle(&mut s, &[packet], &mut delivered, &|_| SinkOutcome::Accepted);
    assert!(matches!(act, WorkerAction::CheckFlag));
    assert_eq!(delivered.len(), 1);
    assert_eq!(delivered[0][0], 16383);
    assert_eq!(delivered[0][1], -32767);
    assert_eq!(delivered[0][1919], -32767);
}
