//! What is known of a clock.

use vstd::prelude::*;

use crate::text::opt_text;

verus! {

/// How far a clock can be trusted.
#[derive(Debug, Clone, Copy, PartialEq, Eq, Structural)]
pub enum ClockConfidence {
    /// Set by a time server.
    Synced,
    /// Set some time ago; setting it again has failed, or the player was started anew.
    Stale,
    /// Set by the time that the content management system told.
    ServerEstimated,
    /// Never set: the machine's own clock.
    DeviceClock,
    /// Not to be used.
    Unusable,
}

/// The state of a clock.
#[derive(Debug)]
pub struct ClockSnapshot {
    /// The time that the clock was last set to: milliseconds since the epoch.
    pub offset_millis: i64,
    pub confidence: ClockConfidence,
    /// The time that the server last told: milliseconds since the epoch.
    pub last_sync_epoch_millis: Option<i64>,
    pub anchor_instant_nanos: Option<u128>,
    /// What the clock was set by.
    pub source: String,
    pub warning: Option<String>,
}

/// Model of a [`ClockSnapshot`].
#[verifier::ext_equal]
pub struct ClockSnapshotView {
    pub offset_millis: i64,
    pub confidence: ClockConfidence,
    pub last_sync_epoch_millis: Option<i64>,
    pub anchor_instant_nanos: Option<u128>,
    pub source: Seq<char>,
    pub warning: Option<Seq<char>>,
}

impl View for ClockSnapshot {
    type V = ClockSnapshotView;

    open spec fn view(&self) -> ClockSnapshotView {
        ClockSnapshotView {
            offset_millis: self.offset_millis,
            confidence: self.confidence,
            last_sync_epoch_millis: self.last_sync_epoch_millis,
            anchor_instant_nanos: self.anchor_instant_nanos,
            source: self.source@,
            warning: opt_text(self.warning),
        }
    }
}

impl Clone for ClockSnapshot {
    fn clone(&self) -> (r: Self)
        ensures
            r@ == self@,
    {
        ClockSnapshot {
            offset_millis: self.offset_millis,
            confidence: self.confidence,
            last_sync_epoch_millis: self.last_sync_epoch_millis,
            anchor_instant_nanos: self.anchor_instant_nanos,
            source: self.source.clone(),
            warning: self.warning.clone(),
        }
    }
}

/// What came of setting a clock.
#[derive(Debug)]
pub struct ClockSyncResult {
    pub snapshot: ClockSnapshot,
    /// How long the answer took, where there was one.
    pub round_trip_millis: Option<i64>,
    pub success: bool,
}

/// What a time server answered.
#[derive(Debug, Clone, Copy, PartialEq, Eq, Structural)]
pub struct NtpResult {
    /// Milliseconds since the epoch.
    pub epoch_millis: i64,
    /// How long the answer took.
    pub round_trip_millis: i64,
}

/// Asks a time server.
pub trait NtpClient {
    /// The time by `server`, or why there was no answer.
    fn request_time(&self, server: &str) -> (r: Result<NtpResult, String>);
}

/// Tells the time that playback goes by.
pub trait Clock {
    /// Milliseconds since the epoch.
    fn now_millis(&self) -> (r: i64);

    /// The state of the clock.
    fn snapshot(&self) -> (r: ClockSnapshot);
}

/// The model of the state of a clock says what the state says.
pub proof fn snapshot_models_are_faithful(snapshot: ClockSnapshot)
    ensures
        snapshot@.offset_millis == snapshot.offset_millis,
        snapshot@.confidence == snapshot.confidence,
        snapshot@.last_sync_epoch_millis == snapshot.last_sync_epoch_millis,
        snapshot@.anchor_instant_nanos == snapshot.anchor_instant_nanos,
        snapshot@.source == snapshot.source@,
        snapshot@.warning is Some <==> snapshot.warning is Some,
        snapshot.warning matches Some(text) ==> snapshot@.warning == Some(text@),
{
}

} // verus!
