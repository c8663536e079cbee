//! Loopback audio capture core: float PCM conversion, framing of the byte
//! stream into 20 ms frames, the capture worker's decision machine and the
//! start/stop controller.

pub mod controller;
pub mod convert;
pub mod ring;
pub mod worker;

pub use controller::{AudioCapture, CaptureError, RunningFlag};
pub use convert::f32_bytes_to_i16;
pub use ring::{FrameRing, FRAME_BYTES, FRAME_SAMPLES};
pub use worker::{CaptureSession, PcmChunk, SinkOutcome, WorkerAction, WorkerEvent, WorkerPhase};
