//! Decoding videos: what a decoder does, the pool that decoders are lent from, and the steps of a
//! decoding process.

use vstd::prelude::*;

use crate::clock::signage::{device_time, told_by_device};
use crate::render::ffmpeg::{by_hardware, hwaccel_enabled, normalize_hwaccel, normalized};

verus! {

/// How long the first frame is waited for where hardware decodes. That the hardware cannot be set
/// up shows early.
pub const HW_FIRST_FRAME_TIMEOUT_MS: u64 = 3_000;

/// How long the first frame is waited for where software decodes.
pub const FIRST_FRAME_TIMEOUT_MS: u64 = 8_000;

/// The time between two looks for the first frame.
pub const FIRST_FRAME_POLL_MS: u64 = 20;

/// The time between two looks of the reader for a signal.
pub const READER_POLL_MS: u64 = 5;

/// Decoders in a pool.
pub const POOL_SIZE: usize = 2;

/// A decoded frame: four bytes for each pixel.
#[derive(Debug)]
pub struct VideoFrame {
    pub width: u32,
    pub height: u32,
    pub rgba: Vec<u8>,
}

/// The bytes of a frame.
pub fn frame_bytes(width: u32, height: u32) -> (r: usize)
    requires
        width * height * 4 <= usize::MAX,
    ensures
        r == width * height * 4,
{
    proof {
        assert(0 <= width * height <= width * height * 4) by (nonlinear_arith)
            requires
                0 <= width,
                0 <= height,
        ;
    }
    width as usize * height as usize * 4
}

/// A video decoder. It is opened, prerolled, asked for frames and stopped, and can then be opened
/// again.
pub trait VideoDecoder {
    /// Opens a file. Frames come out in the size that is given.
    fn open(&mut self, path: &str, target_width: u32, target_height: u32, loop_playback: bool) -> (r:
        Result<(), String>);

    /// Decodes the first frame, without sound.
    fn preroll(&mut self) -> (r: Result<(), String>);

    /// The frame that is due, if there is one. The first call starts the playback.
    fn decode_next_frame(&mut self) -> (r: Result<Option<VideoFrame>, String>);

    /// Goes back to the start.
    fn seek_to_start(&mut self) -> (r: Result<(), String>);

    /// Whether the first frame can be shown.
    fn has_first_frame(&self) -> (r: bool);

    /// When the first frame was there: milliseconds since the epoch.
    fn first_frame_at_millis(&self) -> (r: Option<i64>);

    /// Forgets the first frame.
    fn reset_first_frame(&mut self);

    /// Stops decoding.
    fn stop(&mut self);
}

/// A decoder that decodes nothing: its first frame is there at once, and every frame is black. It
/// stands in where there is no program that decodes.
#[derive(Debug)]
pub struct StubVideoDecoder {
    pub first_frame_ready: bool,
    pub first_frame_at: Option<i64>,
}

impl StubVideoDecoder {
    /// A decoder without a first frame.
    pub fn new() -> (r: StubVideoDecoder)
        ensures
            r == (StubVideoDecoder { first_frame_ready: false, first_frame_at: None }),
    {
        StubVideoDecoder { first_frame_ready: false, first_frame_at: None }
    }

    /// Notes that the first frame is there.
    pub fn prerolled_at(&mut self, now: i64)
        ensures
            *final(self) == (StubVideoDecoder {
                first_frame_ready: true,
                first_frame_at: Some(now),
            }),
    {
        self.first_frame_ready = true;
        self.first_frame_at = Some(now);
    }
}

impl Default for StubVideoDecoder {
    fn default() -> (r: StubVideoDecoder)
        ensures
            r == (StubVideoDecoder { first_frame_ready: false, first_frame_at: None }),
    {
        StubVideoDecoder::new()
    }
}

/// A black frame of two by two pixels.
pub open spec fn black_frame() -> Seq<u8> {
    seq![0u8, 0, 0, 255, 0, 0, 0, 255, 0, 0, 0, 255, 0, 0, 0, 255]
}

impl VideoDecoder for StubVideoDecoder {
    fn open(&mut self, path: &str, target_width: u32, target_height: u32, loop_playback: bool) -> (r:
        Result<(), String>)
        ensures
            r is Ok,
            *final(self) == *old(self),
    {
        Ok(())
    }

    fn preroll(&mut self) -> (r: Result<(), String>)
        ensures
            r is Ok,
            final(self).first_frame_ready,
            final(self).first_frame_at matches Some(at) && told_by_device(at),
    {
        let now: i64 = device_time();
        self.prerolled_at(now);
        Ok(())
    }

    fn decode_next_frame(&mut self) -> (r: Result<Option<VideoFrame>, String>)
        ensures
            *final(self) == *old(self),
            r matches Ok(frame) && (frame is Some <==> old(self).first_frame_ready) && (
            frame matches Some(f) ==> f.width == 2 && f.height == 2 && f.rgba@ == black_frame()),
    {
        if self.first_frame_ready {
            Ok(
                Some(
                    VideoFrame {
                        width: 2,
                        height: 2,
                        rgba: vec![0, 0, 0, 255, 0, 0, 0, 255, 0, 0, 0, 255, 0, 0, 0, 255],
                    },
                ),
            )
        } else {
            Ok(None)
        }
    }

    fn seek_to_start(&mut self) -> (r: Result<(), String>)
        ensures
            r is Ok,
            *final(self) == *old(self),
    {
        Ok(())
    }

    fn has_first_frame(&self) -> (r: bool)
        ensures
            r == self.first_frame_ready,
    {
        self.first_frame_ready
    }

    fn first_frame_at_millis(&self) -> (r: Option<i64>)
        ensures
            r == self.first_frame_at,
    {
        self.first_frame_at
    }

    fn reset_first_frame(&mut self)
        ensures
            *final(self) == (StubVideoDecoder { first_frame_ready: false, first_frame_at: None }),
    {
        self.first_frame_ready = false;
        self.first_frame_at = None;
    }

    fn stop(&mut self)
        ensures
            *final(self) == (StubVideoDecoder { first_frame_ready: false, first_frame_at: None }),
    {
        self.reset_first_frame();
    }
}

/// One try to decode a first frame.
#[derive(Debug)]
pub struct DecodeAttempt {
    /// The method of decoding; empty for software.
    pub hwaccel: String,
    /// How long the first frame is waited for.
    pub wait_ms: u64,
}

/// Model of a [`DecodeAttempt`].
#[verifier::ext_equal]
pub struct DecodeAttemptView {
    pub hwaccel: Seq<char>,
    pub wait_ms: u64,
}

impl View for DecodeAttempt {
    type V = DecodeAttemptView;

    open spec fn view(&self) -> DecodeAttemptView {
        DecodeAttemptView { hwaccel: self.hwaccel@, wait_ms: self.wait_ms }
    }
}

/// The try of a method of decoding.
pub open spec fn attempt_with(hwaccel: Seq<char>) -> DecodeAttemptView {
    DecodeAttemptView {
        hwaccel,
        wait_ms: if by_hardware(hwaccel) {
            HW_FIRST_FRAME_TIMEOUT_MS
        } else {
            FIRST_FRAME_TIMEOUT_MS
        },
    }
}

fn make_attempt(hwaccel: String) -> (r: DecodeAttempt)
    ensures
        r@ == attempt_with(hwaccel@),
{
    let wait_ms: u64 = if hwaccel_enabled(hwaccel.as_str()) {
        HW_FIRST_FRAME_TIMEOUT_MS
    } else {
        FIRST_FRAME_TIMEOUT_MS
    };
    DecodeAttempt { hwaccel, wait_ms }
}

/// What the wait for the first frame comes to.
#[derive(Debug, Clone, Copy, PartialEq, Eq, Structural)]
pub enum WaitStep {
    /// The frame is there.
    Ready,
    /// The decoder ended before it.
    Exited,
    /// The time is up; the decoder is to be stopped.
    TimedOut,
    /// To look again after so many milliseconds.
    Sleep(u64),
}

/// What the wait for the first frame comes to, `elapsed_ms` after it began.
pub open spec fn wait_step_of(ready: bool, exited: bool, elapsed_ms: u64, wait_ms: u64) -> WaitStep {
    if ready {
        WaitStep::Ready
    } else if exited {
        WaitStep::Exited
    } else if elapsed_ms >= wait_ms {
        WaitStep::TimedOut
    } else {
        WaitStep::Sleep(FIRST_FRAME_POLL_MS)
    }
}

/// What the wait for the first frame comes to.
pub fn wait_step(ready: bool, exited: bool, elapsed_ms: u64, wait_ms: u64) -> (r: WaitStep)
    ensures
        r == wait_step_of(ready, exited, elapsed_ms, wait_ms),
{
    if ready {
        WaitStep::Ready
    } else if exited {
        WaitStep::Exited
    } else if elapsed_ms >= wait_ms {
        WaitStep::TimedOut
    } else {
        WaitStep::Sleep(FIRST_FRAME_POLL_MS)
    }
}

/// What a scene was lent.
#[derive(Debug, Clone, Copy, PartialEq, Eq, Structural)]
pub enum Lease {
    /// A decoder of the pool.
    Slot(usize),
    /// A decoder that is made for this scene alone.
    Temporary,
}

/// Model of a [`VideoDecoderPool`].
#[verifier::ext_equal]
pub struct PoolView {
    /// For each decoder whether it is lent.
    pub lent: Seq<bool>,
    pub hwaccel: Seq<char>,
    /// Whether decoding by hardware has failed.
    pub hw_disabled: bool,
}

/// The decoders that scenes are lent, instead of making one for each scene. What is on screen keeps
/// its decoder: one that is lent is not lent again.
#[derive(Debug)]
pub struct VideoDecoderPool {
    lent: Vec<bool>,
    hwaccel: String,
    hw_disabled: bool,
}

impl View for VideoDecoderPool {
    type V = PoolView;

    closed spec fn view(&self) -> PoolView {
        PoolView { lent: self.lent@, hwaccel: self.hwaccel@, hw_disabled: self.hw_disabled }
    }
}

/// The first decoder that is not lent, from the `from`th on.
pub open spec fn first_free(lent: Seq<bool>, from: int) -> Option<int>
    decreases lent.len() - from,
{
    if from >= lent.len() {
        None
    } else if !lent[from] {
        Some(from)
    } else {
        first_free(lent, from + 1)
    }
}

/// The pool once a scene was lent a decoder, and what it was lent.
pub open spec fn after_acquire(pool: PoolView) -> (PoolView, Lease) {
    match first_free(pool.lent, 0) {
        Some(i) => (
            PoolView { lent: pool.lent.update(i, true), ..pool },
            Lease::Slot(i as usize),
        ),
        None => (pool, Lease::Temporary),
    }
}

/// The pool once a decoder was given back.
pub open spec fn after_release(pool: PoolView, lease: Lease) -> PoolView {
    match lease {
        Lease::Slot(i) => if i < pool.lent.len() {
            PoolView { lent: pool.lent.update(i as int, false), ..pool }
        } else {
            pool
        },
        Lease::Temporary => pool,
    }
}

/// The method of decoding that a pool tries first.
pub open spec fn method_of(pool: PoolView) -> Seq<char> {
    if pool.hw_disabled {
        Seq::empty()
    } else {
        pool.hwaccel
    }
}

/// The pool once a try failed, and the try that follows.
pub open spec fn after_failure(pool: PoolView, attempt: DecodeAttemptView) -> (
    PoolView,
    Option<DecodeAttemptView>,
) {
    if by_hardware(attempt.hwaccel) {
        (PoolView { hw_disabled: true, ..pool }, Some(attempt_with(Seq::empty())))
    } else {
        (pool, None)
    }
}

impl VideoDecoderPool {
    /// A pool of this many decoders, and at least of one.
    pub fn new(size: usize, hwaccel: String) -> (r: VideoDecoderPool)
        ensures
            r@ == (PoolView {
                lent: Seq::new(
                    if size == 0 {
                        1
                    } else {
                        size as nat
                    },
                    |i: int| false,
                ),
                hwaccel: normalized(hwaccel@),
                hw_disabled: false,
            }),
    {
        let count: usize = if size == 0 {
            1
        } else {
            size
        };
        let mut lent: Vec<bool> = Vec::new();
        while lent.len() < count
            invariant
                lent@.len() <= count,
                forall|i: int| 0 <= i < lent@.len() ==> !#[trigger] lent@[i],
            decreases count - lent@.len(),
        {
            lent.push(false);
        }
        assert(lent@ =~= Seq::new(count as nat, |i: int| false));
        VideoDecoderPool { lent, hwaccel: normalize_hwaccel(hwaccel), hw_disabled: false }
    }

    /// Lends a decoder that is not lent. Where there is none, the scene gets one of its own.
    pub fn acquire(&mut self) -> (r: Lease)
        ensures
            final(self)@ == after_acquire(old(self)@).0,
            r == after_acquire(old(self)@).1,
    {
        let ghost before = self@;
        let count: usize = self.lent.len();
        let mut i: usize = 0;
        while i < count
            invariant
                count == self.lent@.len(),
                before == old(self)@,
                self@ == before,
                i <= count,
                first_free(before.lent, 0) == first_free(before.lent, i as int),
            decreases count - i,
        {
            if !self.lent[i] {
                self.lent.set(i, true);
                assert(self@ =~= after_acquire(before).0);
                return Lease::Slot(i);
            }
            i = i + 1;
        }
        Lease::Temporary
    }

    /// Takes a decoder back.
    pub fn release(&mut self, lease: Lease)
        ensures
            final(self)@ == after_release(old(self)@, lease),
    {
        match lease {
            Lease::Slot(i) => {
                if i < self.lent.len() {
                    self.lent.set(i, false);
                }
            },
            Lease::Temporary => {},
        }
    }

    /// The first try to decode a video.
    pub fn first_attempt(&self) -> (r: DecodeAttempt)
        ensures
            r@ == attempt_with(method_of(self@)),
    {
        if self.hw_disabled {
            let software: String = "".to_owned();
            proof {
                reveal_strlit("");
                assert(""@ =~= Seq::empty());
            }
            make_attempt(software)
        } else {
            make_attempt(self.hwaccel.as_str().to_owned())
        }
    }

    /// Notes that a try failed. Where it was one by hardware, software is tried, and hardware is not
    /// tried again by any decoder of the pool.
    pub fn attempt_failed(&mut self, attempt: &DecodeAttempt) -> (r: Option<DecodeAttempt>)
        ensures
            final(self)@ == after_failure(old(self)@, attempt@).0,
            match r {
                Some(next) => after_failure(old(self)@, attempt@).1 == Some(next@),
                None => after_failure(old(self)@, attempt@).1 is None,
            },
    {
        if hwaccel_enabled(attempt.hwaccel.as_str()) {
            self.hw_disabled = true;
            let software: String = "".to_owned();
            proof {
                reveal_strlit("");
                assert(""@ =~= Seq::empty());
            }
            Some(make_attempt(software))
        } else {
            None
        }
    }
}

proof fn lemma_first_free(lent: Seq<bool>, from: int)
    requires
        0 <= from <= lent.len(),
    ensures
        match first_free(lent, from) {
            Some(i) => from <= i < lent.len() && !lent[i],
            None => forall|i: int| from <= i < lent.len() ==> #[trigger] lent[i],
        },
    decreases lent.len() - from,
{
    if from < lent.len() {
        lemma_first_free(lent, from + 1);
    }
}

/// A decoder that is lent is not lent again before it is given back: what is on screen is not
/// disturbed by what is being prepared. While a decoder is free, a scene gets one of the pool.
pub proof fn decoders_are_not_shared(pool: PoolView)
    requires
        pool.lent.len() <= usize::MAX,
    ensures
        ({
            let (after, lease) = after_acquire(pool);
            &&& lease matches Lease::Slot(i) ==> {
                &&& i < pool.lent.len()
                &&& !pool.lent[i as int]
                &&& after.lent == pool.lent.update(i as int, true)
                &&& after_release(after, lease) == pool
            }
            &&& lease is Temporary <==> forall|i: int|
                0 <= i < pool.lent.len() ==> #[trigger] pool.lent[i]
            &&& lease is Temporary ==> after == pool
        }),
{
    lemma_first_free(pool.lent, 0);
    let (after, lease) = after_acquire(pool);
    if let Lease::Slot(i) = lease {
        assert(after_release(after, lease).lent =~= pool.lent);
    }
}

/// Decoding by hardware fails at most once: after that, every decoder of the pool uses software from
/// the start. A video is tried at most twice, the second time by software.
pub proof fn hardware_fails_once(pool: PoolView, attempt: DecodeAttemptView)
    ensures
        by_hardware(attempt.hwaccel) ==> {
            let (after, next) = after_failure(pool, attempt);
            &&& method_of(after) == Seq::<char>::empty()
            &&& attempt_with(method_of(after)).wait_ms == FIRST_FRAME_TIMEOUT_MS
            &&& next matches Some(second) && !by_hardware(second.hwaccel) && after_failure(
                after,
                second,
            ) == (after, None::<DecodeAttemptView>)
        },
        !by_hardware(attempt.hwaccel) ==> after_failure(pool, attempt) == (
            pool,
            None::<DecodeAttemptView>,
        ),
        pool.hw_disabled ==> after_failure(pool, attempt).0.hw_disabled && !by_hardware(
            method_of(pool),
        ),
{
}

/// What the reader of a decoder's output is at.
#[derive(Debug, Clone, Copy, PartialEq, Eq, Structural)]
pub enum ReaderPhase {
    /// Reading the first frame.
    First,
    /// The first frame is there; the playback has not started. The decoder stands still, because its
    /// output is not read.
    Waiting,
    /// Reading a later frame.
    Reading,
    /// Handing a frame on.
    Sending,
    /// Done.
    Stopped,
}

/// What has happened to the reader.
#[derive(Debug, Clone, Copy, PartialEq, Eq, Structural)]
pub enum ReaderEvent {
    /// A frame was read.
    FrameRead,
    /// There was no frame to be read.
    ReadFailed,
    /// It was looked whether the playback has started, and whether it is to stop.
    Looked { started: bool, stopping: bool },
    /// The frame was taken.
    Sent { stopping: bool },
    /// There is no room for the frame yet.
    Full { stopping: bool },
    /// Nobody takes frames any more.
    Gone,
}

/// What the reader is to do.
#[derive(Debug, Clone, Copy, PartialEq, Eq, Structural)]
pub enum ReaderAction {
    /// To read a frame.
    Read,
    /// To tell that the first frame is there, and then to look for the start.
    PublishFirst,
    /// To look for the start again, after so many milliseconds.
    LookAfter(u64),
    /// To hand the frame on.
    Send,
    /// To hand the frame on again, after so many milliseconds.
    SendAfter(u64),
    /// To end.
    Stop,
}

/// The phase that follows, and what the reader is to do.
pub open spec fn reader_step(phase: ReaderPhase, event: ReaderEvent) -> (ReaderPhase, ReaderAction) {
    match (phase, event) {
        (ReaderPhase::First, ReaderEvent::FrameRead) => (
            ReaderPhase::Waiting,
            ReaderAction::PublishFirst,
        ),
        (ReaderPhase::Waiting, ReaderEvent::Looked { started, stopping }) => if stopping {
            (ReaderPhase::Stopped, ReaderAction::Stop)
        } else if started {
            (ReaderPhase::Reading, ReaderAction::Read)
        } else {
            (ReaderPhase::Waiting, ReaderAction::LookAfter(READER_POLL_MS))
        },
        (ReaderPhase::Reading, ReaderEvent::FrameRead) => (ReaderPhase::Sending, ReaderAction::Send),
        (ReaderPhase::Sending, ReaderEvent::Sent { stopping }) => if stopping {
            (ReaderPhase::Stopped, ReaderAction::Stop)
        } else {
            (ReaderPhase::Reading, ReaderAction::Read)
        },
        (ReaderPhase::Sending, ReaderEvent::Full { stopping }) => if stopping {
            (ReaderPhase::Stopped, ReaderAction::Stop)
        } else {
            (ReaderPhase::Sending, ReaderAction::SendAfter(READER_POLL_MS))
        },
        _ => (ReaderPhase::Stopped, ReaderAction::Stop),
    }
}

/// The reader of a decoder's output.
#[derive(Debug)]
pub struct FrameReader {
    phase: ReaderPhase,
}

impl View for FrameReader {
    type V = ReaderPhase;

    closed spec fn view(&self) -> ReaderPhase {
        self.phase
    }
}

impl FrameReader {
    /// A reader that is to read the first frame.
    pub fn new() -> (r: FrameReader)
        ensures
            r@ == ReaderPhase::First,
    {
        FrameReader { phase: ReaderPhase::First }
    }

    /// What the reader is to do after what has happened.
    pub fn on_event(&mut self, event: ReaderEvent) -> (r: ReaderAction)
        ensures
            (final(self)@, r) == reader_step(old(self)@, event),
    {
        let (phase, action) = match (self.phase, event) {
            (ReaderPhase::First, ReaderEvent::FrameRead) => (
                ReaderPhase::Waiting,
                ReaderAction::PublishFirst,
            ),
            (ReaderPhase::Waiting, ReaderEvent::Looked { started, stopping }) => if stopping {
                (ReaderPhase::Stopped, ReaderAction::Stop)
            } else if started {
                (ReaderPhase::Reading, ReaderAction::Read)
            } else {
                (ReaderPhase::Waiting, ReaderAction::LookAfter(READER_POLL_MS))
            },
            (ReaderPhase::Reading, ReaderEvent::FrameRead) => (
                ReaderPhase::Sending,
                ReaderAction::Send,
            ),
            (ReaderPhase::Sending, ReaderEvent::Sent { stopping }) => if stopping {
                (ReaderPhase::Stopped, ReaderAction::Stop)
            } else {
                (ReaderPhase::Reading, ReaderAction::Read)
            },
            (ReaderPhase::Sending, ReaderEvent::Full { stopping }) => if stopping {
                (ReaderPhase::Stopped, ReaderAction::Stop)
            } else {
                (ReaderPhase::Sending, ReaderAction::SendAfter(READER_POLL_MS))
            },
            _ => (ReaderPhase::Stopped, ReaderAction::Stop),
        };
        self.phase = phase;
        action
    }
}

/// After the first frame the reader reads no more until the playback starts, and a frame that was
/// read is not dropped: the next one is read only once it was taken.
pub proof fn a_prerolled_decoder_stands_still(phase: ReaderPhase, event: ReaderEvent)
    ensures
        reader_step(phase, event).1 is Read ==> {
            ||| phase is Waiting && event == (ReaderEvent::Looked { started: true, stopping: false })
            ||| phase is Sending && event == (ReaderEvent::Sent { stopping: false })
        },
        reader_step(phase, event).1 is PublishFirst <==> phase is First && event is FrameRead,
        phase is Stopped ==> reader_step(phase, event).1 is Stop,
        reader_step(phase, event).1 is Stop <==> reader_step(phase, event).0 is Stopped,
{
}

/// Model of a [`FramePacer`].
#[verifier::ext_equal]
pub struct PacerView {
    pub started: bool,
    /// Frames that were shown or passed over.
    pub consumed: u64,
}

/// Keeps the frames of a video to its frame rate.
#[derive(Debug)]
pub struct FramePacer {
    started: bool,
    consumed: u64,
}

impl View for FramePacer {
    type V = PacerView;

    closed spec fn view(&self) -> PacerView {
        PacerView { started: self.started, consumed: self.consumed }
    }
}

impl FramePacer {
    /// A pacer of a video that has not started.
    pub fn new() -> (r: FramePacer)
        ensures
            r@ == (PacerView { started: false, consumed: 0 }),
    {
        FramePacer { started: false, consumed: 0 }
    }

    /// Whether the playback has started.
    pub fn started(&self) -> (r: bool)
        ensures
            r == self@.started,
    {
        self.started
    }

    /// Starts the playback where the first frame is there, which is then to be shown. Says whether
    /// it started now.
    pub fn start(&mut self, first_frame_ready: bool) -> (r: bool)
        ensures
            r == (!old(self)@.started && first_frame_ready),
            final(self)@ == (if r {
                PacerView { started: true, consumed: 1 }
            } else {
                old(self)@
            }),
    {
        if self.started || !first_frame_ready {
            return false;
        }
        self.started = true;
        self.consumed = 1;
        true
    }

    /// Whether another frame is to be taken: fewer were than are due.
    pub fn wants_frame(&self, due: u64) -> (r: bool)
        ensures
            r == (self@.consumed < due),
    {
        self.consumed < due
    }

    /// Notes that a frame was taken.
    pub fn frame_taken(&mut self)
        requires
            old(self)@.consumed < u64::MAX,
        ensures
            final(self)@ == (PacerView {
                consumed: (old(self)@.consumed + 1) as u64,
                ..old(self)@
            }),
    {
        self.consumed = self.consumed + 1;
    }

    /// Goes back to before the start.
    pub fn reset(&mut self)
        ensures
            final(self)@ == (PacerView { started: false, consumed: 0 }),
    {
        self.started = false;
        self.consumed = 0;
    }
}

/// The decoder that is lent is the first that is free. Giving it back frees it and no other.
pub proof fn the_first_free_decoder_is_lent(pool: PoolView, lease: Lease)
    requires
        pool.lent.len() <= usize::MAX,
    ensures
        after_acquire(pool).1 matches Lease::Slot(i) ==> forall|j: int|
            0 <= j < i ==> #[trigger] pool.lent[j],
        after_acquire(pool).0.hwaccel == pool.hwaccel,
        after_acquire(pool).0.hw_disabled == pool.hw_disabled,
        after_release(pool, Lease::Temporary) == pool,
        lease matches Lease::Slot(i) ==> {
            &&& after_release(pool, lease).lent.len() == pool.lent.len()
            &&& i < pool.lent.len() ==> !after_release(pool, lease).lent[i as int]
            &&& forall|j: int|
                0 <= j < pool.lent.len() && j != i ==> #[trigger] after_release(pool, lease).lent[j]
                    == pool.lent[j]
        },
        after_release(pool, lease).hwaccel == pool.hwaccel,
        after_release(pool, lease).hw_disabled == pool.hw_disabled,
{
    lemma_free_is_first(pool.lent, 0);
    lemma_first_free(pool.lent, 0);
}

proof fn lemma_free_is_first(lent: Seq<bool>, from: int)
    requires
        0 <= from <= lent.len(),
    ensures
        first_free(lent, from) matches Some(i) ==> forall|j: int|
            from <= j < i ==> #[trigger] lent[j],
    decreases lent.len() - from,
{
    if from < lent.len() {
        lemma_free_is_first(lent, from + 1);
    }
}

/// Hardware gets three seconds for the first frame, software eight. A video is decoded by the method
/// of the pool while that is in use, and by software after hardware failed.
pub proof fn hardware_gets_less_time(pool: PoolView, method: Seq<char>)
    ensures
        attempt_with(method).hwaccel == method,
        by_hardware(method) ==> attempt_with(method).wait_ms == 3_000,
        !by_hardware(method) ==> attempt_with(method).wait_ms == 8_000,
        !pool.hw_disabled ==> method_of(pool) == pool.hwaccel,
        pool.hw_disabled ==> method_of(pool).len() == 0,
        by_hardware(method) ==> {
            &&& after_failure(pool, attempt_with(method)).1 is Some
            &&& after_failure(pool, attempt_with(method)).1->0.hwaccel.len() == 0
            &&& after_failure(pool, attempt_with(method)).1->0.wait_ms == 8_000
        },
        after_failure(pool, attempt_with(method)).0.lent == pool.lent,
        after_failure(pool, attempt_with(method)).0.hwaccel == pool.hwaccel,
{
}

/// The first frame is shown as soon as it is there, though the time is up or the decoder has ended. A
/// decoder that ended without it is waited for no more, nor is one whose time is up; otherwise it is
/// looked again after twenty milliseconds.
pub proof fn first_frames_are_looked_for_until_the_time_is_up(
    ready: bool,
    exited: bool,
    elapsed_ms: u64,
    wait_ms: u64,
)
    ensures
        wait_step_of(ready, exited, elapsed_ms, wait_ms) is Ready <==> ready,
        wait_step_of(ready, exited, elapsed_ms, wait_ms) is Exited <==> !ready && exited,
        wait_step_of(ready, exited, elapsed_ms, wait_ms) is TimedOut <==> !ready && !exited
            && elapsed_ms >= wait_ms,
        !ready && !exited && elapsed_ms < wait_ms ==> wait_step_of(
            ready,
            exited,
            elapsed_ms,
            wait_ms,
        ) == WaitStep::Sleep(20),
{
}

/// A reader that is told to stop stops, once it has something to say. One that waits for the start,
/// or for room, looks again after five milliseconds, and goes on where it may.
pub proof fn readers_go_on_step_by_step(started: bool, stopping: bool)
    ensures
        reader_step(ReaderPhase::First, ReaderEvent::FrameRead) == (
            ReaderPhase::Waiting,
            ReaderAction::PublishFirst,
        ),
        reader_step(ReaderPhase::Waiting, ReaderEvent::Looked { started, stopping }) == if stopping {
            (ReaderPhase::Stopped, ReaderAction::Stop)
        } else if started {
            (ReaderPhase::Reading, ReaderAction::Read)
        } else {
            (ReaderPhase::Waiting, ReaderAction::LookAfter(5))
        },
        reader_step(ReaderPhase::Reading, ReaderEvent::FrameRead) == (
            ReaderPhase::Sending,
            ReaderAction::Send,
        ),
        !stopping ==> reader_step(ReaderPhase::Sending, ReaderEvent::Sent { stopping }) == (
            ReaderPhase::Reading,
            ReaderAction::Read,
        ),
        !stopping ==> reader_step(ReaderPhase::Sending, ReaderEvent::Full { stopping }) == (
            ReaderPhase::Sending,
            ReaderAction::SendAfter(5),
        ),
        stopping ==> reader_step(ReaderPhase::Sending, ReaderEvent::Sent { stopping }).0 is Stopped
            && reader_step(ReaderPhase::Sending, ReaderEvent::Full { stopping }).0 is Stopped,
        reader_step(ReaderPhase::First, ReaderEvent::ReadFailed).0 is Stopped,
        reader_step(ReaderPhase::Reading, ReaderEvent::ReadFailed).0 is Stopped,
        reader_step(ReaderPhase::Sending, ReaderEvent::Gone).0 is Stopped,
{
}

/// A try to decode is modelled by its method and its time. A frame of nothing is four black pixels.
pub proof fn tries_are_modelled_faithfully(attempt: DecodeAttempt, i: int)
    ensures
        attempt@.hwaccel == attempt.hwaccel@,
        attempt@.wait_ms == attempt.wait_ms,
        black_frame().len() == 16,
        0 <= i < 16 ==> black_frame()[i] == if i % 4 == 3 {
            255u8
        } else {
            0u8
        },
{
}
} // verus!
