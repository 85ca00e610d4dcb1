//! The clock of the player.

use vstd::prelude::*;
use vstd::string::*;

use super::types::{
    Clock, ClockConfidence, ClockSnapshot, ClockSnapshotView, ClockSyncResult, NtpClient, NtpResult,
};
use crate::config::LARGE_OFFSET_CHANGE_MS;
use crate::text::{i64_text, signed_decimal};

verus! {

/// A point on the monotonic clock of the machine.
#[verifier::external_type_specification]
#[verifier::external_body]
pub struct ExInstant(std::time::Instant);

/// `std::time::Instant::now`: the present point. Nothing is said of which that is.
#[verifier::external_body]
fn instant_now() -> (r: std::time::Instant) {
    std::time::Instant::now()
}

/// `std::time::Instant::elapsed`: the milliseconds since a point, never negative. Nothing is said of
/// how many.
#[verifier::external_body]
fn elapsed_millis(since: &std::time::Instant) -> (r: i64)
    ensures
        r >= 0,
{
    i64::try_from(since.elapsed().as_millis()).unwrap_or(i64::MAX)
}

/// `chrono::Utc::now`: the milliseconds since the epoch by the machine's own clock. Nothing is said
/// of which time that is.
#[verifier::external_body]
fn device_now_millis() -> (r: i64) {
    chrono::Utc::now().timestamp_millis()
}

/// Whether a point is one that the monotonic clock gave when it was asked.
pub closed spec fn drawn(point: std::time::Instant) -> bool {
    call_ensures(instant_now, (), point)
}

/// Whether the monotonic clock, when it was asked, said that it was so many milliseconds past a
/// point.
pub closed spec fn measured(since: std::time::Instant, millis: i64) -> bool {
    call_ensures(elapsed_millis, (&since,), millis)
}

/// Whether so many milliseconds are the time that something took, from a point that the monotonic
/// clock gave to when it was asked how far past that point it was.
pub open spec fn timed(millis: i64) -> bool {
    exists|started: std::time::Instant| drawn(started) && #[trigger] measured(started, millis)
}

/// Whether the machine's own clock showed this time when it was asked.
pub closed spec fn told_by_device(millis: i64) -> bool {
    call_ensures(device_now_millis, (), millis)
}

/// The time by the machine's own clock.
pub(crate) fn device_time() -> (r: i64)
    ensures
        told_by_device(r),
{
    device_now_millis()
}

/// The instant that a text denotes, as `chrono` reads RFC 3339: milliseconds since the epoch.
pub uninterp spec fn rfc3339_millis(text: Seq<char>) -> Option<i64>;

/// `chrono::DateTime::parse_from_rfc3339` and `timestamp_millis`: the instant, or nothing where the
/// text is not of that form.
#[verifier::external_body]
fn parse_rfc3339(text: &str) -> (r: Option<i64>)
    ensures
        r == rfc3339_millis(text@),
{
    match chrono::DateTime::parse_from_rfc3339(text) {
        Ok(instant) => Some(instant.timestamp_millis()),
        Err(_) => None,
    }
}

/// The sum of two numbers, or the nearest that can be held.
pub open spec fn clamped_sum(a: int, b: int) -> i64 {
    if a + b > i64::MAX {
        i64::MAX
    } else if a + b < i64::MIN {
        i64::MIN
    } else {
        (a + b) as i64
    }
}

fn add_clamped(a: i64, b: i64) -> (r: i64)
    ensures
        r == clamped_sum(a as int, b as int),
{
    let sum: i128 = a as i128 + b as i128;
    if sum > i64::MAX as i128 {
        i64::MAX
    } else if sum < i64::MIN as i128 {
        i64::MIN
    } else {
        sum as i64
    }
}

/// Model of a [`SignageClock`].
#[verifier::ext_equal]
pub struct SignageClockView {
    /// The time that the clock was last set to.
    pub epoch: i64,
    /// The point on the monotonic clock at which it was.
    pub base: std::time::Instant,
    pub snapshot: ClockSnapshotView,
}

/// Whether the machine's own clock is all there is.
pub open spec fn unset(confidence: ClockConfidence) -> bool {
    confidence == ClockConfidence::DeviceClock || confidence == ClockConfidence::Unusable
}

/// The time by a clock that was set `elapsed` ago, where the machine's own clock says `device`.
pub open spec fn time_of(clock: SignageClockView, elapsed: int, device: i64) -> i64 {
    if unset(clock.snapshot.confidence) {
        device
    } else {
        clamped_sum(clock.epoch as int, elapsed)
    }
}

/// The state of a clock that was never set, where the machine's own clock says `device`.
pub open spec fn device_snapshot(device: i64, reason: Seq<char>) -> ClockSnapshotView {
    ClockSnapshotView {
        offset_millis: device,
        confidence: ClockConfidence::DeviceClock,
        last_sync_epoch_millis: None,
        anchor_instant_nanos: None,
        source: "device_clock"@,
        warning: Some(reason),
    }
}

/// The state of a clock that was stored when the player last ran: what was certain then is not now.
pub open spec fn restored(snapshot: ClockSnapshotView) -> ClockSnapshotView {
    if snapshot.confidence == ClockConfidence::Synced || snapshot.confidence
        == ClockConfidence::ServerEstimated {
        ClockSnapshotView {
            confidence: ClockConfidence::Stale,
            warning: Some("Restored persisted clock offset"@),
            ..snapshot
        }
    } else {
        snapshot
    }
}

/// The state of a clock that could not be set: it runs on as it is.
pub open spec fn stale(snapshot: ClockSnapshotView, device: i64, reason: Seq<char>) -> ClockSnapshotView {
    if unset(snapshot.confidence) {
        device_snapshot(device, reason)
    } else {
        ClockSnapshotView {
            confidence: ClockConfidence::Stale,
            warning: Some(reason),
            ..snapshot
        }
    }
}

/// The time when an answer came that took `elapsed`: that of the server, and half of how long the
/// answer took.
pub open spec fn corrected(result: NtpResult, elapsed: int) -> i64 {
    clamped_sum(result.epoch_millis as int, elapsed / 2)
}

/// What is said of a clock that jumps.
pub open spec fn jump_text(before: i64, after: i64) -> Seq<char> {
    "Large clock offset change: "@ + signed_decimal(before as int) + " -> "@ + signed_decimal(
        after as int,
    )
}

/// Whether setting a clock makes it jump by more than the limit.
pub open spec fn jumps(confidence: ClockConfidence, before: i64, after: i64) -> bool {
    !unset(confidence) && (before - after > LARGE_OFFSET_CHANGE_MS || after - before
        > LARGE_OFFSET_CHANGE_MS)
}

/// The state of a clock that a time server has set, and that showed `before` until then.
pub open spec fn synced(
    confidence: ClockConfidence,
    before: i64,
    after: i64,
    server: Seq<char>,
    result: NtpResult,
) -> ClockSnapshotView {
    ClockSnapshotView {
        offset_millis: after,
        confidence: ClockConfidence::Synced,
        last_sync_epoch_millis: Some(result.epoch_millis),
        anchor_instant_nanos: None,
        source: server,
        warning: if jumps(confidence, before, after) {
            Some(jump_text(before, after))
        } else {
            None
        },
    }
}

/// The clock once a time server's answer, which took `elapsed`, has set it, where it showed `shown`
/// until then: from `base` on it counts on from the corrected time.
pub open spec fn ntp_set(
    before: SignageClockView,
    server: Seq<char>,
    result: NtpResult,
    elapsed: int,
    shown: i64,
    base: std::time::Instant,
) -> SignageClockView {
    SignageClockView {
        epoch: corrected(result, elapsed),
        base,
        snapshot: synced(
            before.snapshot.confidence,
            shown,
            corrected(result, elapsed),
            server,
            result,
        ),
    }
}

/// The clock after what came of asking a time server, which took `elapsed`. An answer sets the
/// clock; without one it runs on as it is.
pub open spec fn answered(
    before: SignageClockView,
    server: Seq<char>,
    answer: Result<NtpResult, String>,
    elapsed: int,
    shown: i64,
    device: i64,
    base: std::time::Instant,
) -> SignageClockView {
    match answer {
        Ok(result) => ntp_set(before, server, result, elapsed, shown, base),
        Err(reason) => SignageClockView {
            snapshot: stale(before.snapshot, device, "NTP failed: "@ + reason@),
            ..before
        },
    }
}

/// What is reported of setting a clock, which is then in the state `after`.
pub open spec fn reported(
    after: SignageClockView,
    answer: Result<NtpResult, String>,
    r: ClockSyncResult,
) -> bool {
    &&& r.success == (answer is Ok)
    &&& r.snapshot@ == after.snapshot
    &&& r.round_trip_millis == (match answer {
        Ok(result) => Some(result.round_trip_millis),
        Err(_) => None,
    })
}

/// Whether a clock that was in the state `before` showed `shown` when the machine's own clock said
/// `device`: as far past the time it was set to as the monotonic clock measured.
pub open spec fn showed(before: SignageClockView, shown: i64, device: i64) -> bool {
    &&& told_by_device(device)
    &&& exists|since: i64|
        since >= 0 && #[trigger] measured(before.base, since) && shown == time_of(
            before,
            since as int,
            device,
        )
}

/// Whether asking a time server, which took `elapsed`, has brought a clock from one state to another:
/// by what it showed then, and from then on.
pub open spec fn set_by(
    before: SignageClockView,
    after: SignageClockView,
    server: Seq<char>,
    answer: Result<NtpResult, String>,
    elapsed: int,
    r: ClockSyncResult,
) -> bool {
    &&& reported(after, answer, r)
    &&& exists|shown: i64, device: i64, base: std::time::Instant|
        showed(before, shown, device) && drawn(base) && after == #[trigger] answered(
            before,
            server,
            answer,
            elapsed,
            shown,
            device,
            base,
        )
}

/// The state of a clock that the content management system has set.
pub open spec fn server_estimated(millis: i64) -> ClockSnapshotView {
    ClockSnapshotView {
        offset_millis: millis,
        confidence: ClockConfidence::ServerEstimated,
        last_sync_epoch_millis: Some(millis),
        anchor_instant_nanos: None,
        source: "play_data.server_time"@,
        warning: None,
    }
}

/// The state of a clock that was never set.
pub fn device_clock_snapshot(device: i64, reason: &str) -> (r: ClockSnapshot)
    ensures
        r@ == device_snapshot(device, reason@),
{
    ClockSnapshot {
        offset_millis: device,
        confidence: ClockConfidence::DeviceClock,
        last_sync_epoch_millis: None,
        anchor_instant_nanos: None,
        source: "device_clock".to_owned(),
        warning: Some(reason.to_owned()),
    }
}

/// The state of a clock that was stored when the player last ran.
pub fn restore_snapshot(snapshot: ClockSnapshot) -> (r: ClockSnapshot)
    ensures
        r@ == restored(snapshot@),
{
    let mut snapshot: ClockSnapshot = snapshot;
    if snapshot.confidence == ClockConfidence::Synced || snapshot.confidence
        == ClockConfidence::ServerEstimated {
        snapshot.confidence = ClockConfidence::Stale;
        snapshot.warning = Some("Restored persisted clock offset".to_owned());
    }
    snapshot
}

/// The state of a clock that a time server has set.
pub fn synced_snapshot(
    confidence: ClockConfidence,
    before: i64,
    after: i64,
    server: &str,
    result: NtpResult,
) -> (r: ClockSnapshot)
    ensures
        r@ == synced(confidence, before, after, server@, result),
{
    let known: bool = confidence != ClockConfidence::DeviceClock && confidence
        != ClockConfidence::Unusable;
    let change: i128 = before as i128 - after as i128;
    let limit: i128 = LARGE_OFFSET_CHANGE_MS as i128;
    let warning: Option<String> = if known && (change > limit || change < -limit) {
        let mut text: String = "Large clock offset change: ".to_owned();
        text.append(i64_text(before).as_str());
        text.append(" -> ");
        text.append(i64_text(after).as_str());
        Some(text)
    } else {
        None
    };
    ClockSnapshot {
        offset_millis: after,
        confidence: ClockConfidence::Synced,
        last_sync_epoch_millis: Some(result.epoch_millis),
        anchor_instant_nanos: None,
        source: server.to_owned(),
        warning,
    }
}

/// The clock of the player. All playback goes by it.
#[derive(Debug)]
pub struct SignageClock {
    epoch_at_base: i64,
    base_instant: std::time::Instant,
    snapshot: ClockSnapshot,
}

impl View for SignageClock {
    type V = SignageClockView;

    closed spec fn view(&self) -> SignageClockView {
        SignageClockView {
            epoch: self.epoch_at_base,
            base: self.base_instant,
            snapshot: self.snapshot@,
        }
    }
}

impl SignageClock {
    /// A clock in the state that was stored when the player last ran, if any. Until it is set, it
    /// counts on from the time by the machine's own clock.
    pub fn new(persisted: Option<ClockSnapshot>) -> (r: SignageClock)
        ensures
            drawn(r@.base),
            told_by_device(r@.epoch),
            match persisted {
                Some(snapshot) => r@.snapshot == restored(snapshot@),
                None => exists|device: i64|
                    told_by_device(device) && r@.snapshot == #[trigger] device_snapshot(
                        device,
                        "No persisted clock offset"@,
                    ),
            },
    {
        let snapshot: ClockSnapshot = match persisted {
            Some(snapshot) => restore_snapshot(snapshot),
            None => device_clock_snapshot(device_now_millis(), "No persisted clock offset"),
        };
        SignageClock::with_snapshot(snapshot)
    }

    /// A clock in this state, which counts on from the time by the machine's own clock.
    pub fn with_snapshot(snapshot: ClockSnapshot) -> (r: SignageClock)
        ensures
            drawn(r@.base),
            told_by_device(r@.epoch),
            r@.snapshot == snapshot@,
    {
        let device: i64 = device_now_millis();
        SignageClock::started_at(snapshot, device, instant_now())
    }

    /// A clock in this state that counts on from `device_millis` at the point `base`.
    pub fn started_at(
        snapshot: ClockSnapshot,
        device_millis: i64,
        base: std::time::Instant,
    ) -> (r: SignageClock)
        ensures
            r@ == (SignageClockView { epoch: device_millis, base, snapshot: snapshot@ }),
    {
        SignageClock { epoch_at_base: device_millis, base_instant: base, snapshot }
    }

    /// The time, where the clock was set `elapsed` ago and the machine's own clock says `device`.
    pub fn time_after(&self, elapsed: i64, device: i64) -> (r: i64)
        ensures
            r == time_of(self@, elapsed as int, device),
    {
        match self.snapshot.confidence {
            ClockConfidence::DeviceClock | ClockConfidence::Unusable => device,
            _ => add_clamped(self.epoch_at_base, elapsed),
        }
    }

    /// Has the clock count on from `epoch_millis` at the point `base`.
    pub fn set_at(&mut self, epoch_millis: i64, base: std::time::Instant, snapshot: ClockSnapshot)
        ensures
            final(self)@ == (SignageClockView { epoch: epoch_millis, base, snapshot: snapshot@ }),
    {
        self.epoch_at_base = epoch_millis;
        self.base_instant = base;
        self.snapshot = snapshot;
    }

    /// Sets the clock by a time server's answer, which took `elapsed` and came at the point `base`,
    /// when the clock showed `shown`.
    pub fn apply_ntp_result_at(
        &mut self,
        server: &str,
        result: NtpResult,
        elapsed: i64,
        shown: i64,
        base: std::time::Instant,
    ) -> (r: ClockSyncResult)
        requires
            elapsed >= 0,
        ensures
            final(self)@ == ntp_set(old(self)@, server@, result, elapsed as int, shown, base),
            reported(final(self)@, Ok(result), r),
    {
        let after: i64 = add_clamped(result.epoch_millis, elapsed / 2);
        let snapshot: ClockSnapshot = synced_snapshot(
            self.snapshot.confidence,
            shown,
            after,
            server,
            result,
        );
        let copy: ClockSnapshot = snapshot.clone();
        assert(after == corrected(result, elapsed as int));
        self.set_at(after, base, snapshot);
        ClockSyncResult {
            snapshot: copy,
            round_trip_millis: Some(result.round_trip_millis),
            success: true,
        }
    }

    /// What the clock shows, and the machine's own clock.
    fn look(&self) -> (r: (i64, i64))
        ensures
            showed(self@, r.0, r.1),
    {
        let since: i64 = elapsed_millis(&self.base_instant);
        let device: i64 = device_now_millis();
        assert(measured(self@.base, since));
        (self.time_after(since, device), device)
    }

    /// Sets the clock by a time server's answer, which took `elapsed`.
    pub fn apply_ntp_result(&mut self, server: &str, result: NtpResult, elapsed: i64) -> (r:
        ClockSyncResult)
        requires
            elapsed >= 0,
        ensures
            set_by(old(self)@, final(self)@, server@, Ok(result), elapsed as int, r),
    {
        self.apply_ntp_answer(server, Ok(result), elapsed)
    }

    /// Lets a clock that could not be set run on as it is, where the machine's own clock says
    /// `device`.
    pub fn mark_stale_at(&mut self, reason: &str, device: i64) -> (r: ClockSnapshot)
        ensures
            r@ == final(self)@.snapshot,
            final(self)@ == (SignageClockView {
                snapshot: stale(old(self)@.snapshot, device, reason@),
                ..old(self)@
            }),
    {
        let snapshot: ClockSnapshot = match self.snapshot.confidence {
            ClockConfidence::DeviceClock | ClockConfidence::Unusable => device_clock_snapshot(
                device,
                reason,
            ),
            _ => ClockSnapshot {
                offset_millis: self.snapshot.offset_millis,
                confidence: ClockConfidence::Stale,
                last_sync_epoch_millis: self.snapshot.last_sync_epoch_millis,
                anchor_instant_nanos: self.snapshot.anchor_instant_nanos,
                source: self.snapshot.source.clone(),
                warning: Some(reason.to_owned()),
            },
        };
        let copy: ClockSnapshot = snapshot.clone();
        assert(snapshot@ =~= stale(self@.snapshot, device, reason@));
        self.snapshot = snapshot;
        copy
    }

    /// Lets a clock that could not be set run on as it is.
    pub fn mark_stale(&mut self, reason: &str) -> (r: ClockSnapshot)
        ensures
            r@ == final(self)@.snapshot,
            exists|device: i64|
                told_by_device(device) && final(self)@ == (SignageClockView {
                    snapshot: #[trigger] stale(old(self)@.snapshot, device, reason@),
                    ..old(self)@
                }),
    {
        let device: i64 = device_now_millis();
        self.mark_stale_at(reason, device)
    }

    /// Sets the clock by what came of asking a time server, which took `elapsed` until the point
    /// `base`, when the clock showed `shown` and the machine's own clock `device`. Where there was no
    /// answer, the clock runs on as it is.
    pub fn apply_ntp_answer_at(
        &mut self,
        server: &str,
        answer: Result<NtpResult, String>,
        elapsed: i64,
        shown: i64,
        device: i64,
        base: std::time::Instant,
    ) -> (r: ClockSyncResult)
        requires
            elapsed >= 0,
        ensures
            final(self)@ == answered(
                old(self)@,
                server@,
                answer,
                elapsed as int,
                shown,
                device,
                base,
            ),
            reported(final(self)@, answer, r),
    {
        match answer {
            Ok(result) => self.apply_ntp_result_at(server, result, elapsed, shown, base),
            Err(reason) => {
                let mut text: String = "NTP failed: ".to_owned();
                text.append(reason.as_str());
                ClockSyncResult {
                    snapshot: self.mark_stale_at(text.as_str(), device),
                    round_trip_millis: None,
                    success: false,
                }
            },
        }
    }

    /// Sets the clock by what came of asking a time server, which took `elapsed`. Where there was no
    /// answer, the clock runs on as it is.
    pub fn apply_ntp_answer(
        &mut self,
        server: &str,
        answer: Result<NtpResult, String>,
        elapsed: i64,
    ) -> (r: ClockSyncResult)
        requires
            elapsed >= 0,
        ensures
            set_by(old(self)@, final(self)@, server@, answer, elapsed as int, r),
    {
        let (shown, device): (i64, i64) = self.look();
        self.apply_ntp_answer_at(server, answer, elapsed, shown, device, instant_now())
    }

    /// Sets the clock by a time server; where there is no answer, it runs on as it is.
    pub fn sync_with_ntp<N: NtpClient>(&mut self, client: &N, server: &str) -> (r: ClockSyncResult)
        ensures
            exists|answer: Result<NtpResult, String>, elapsed: i64|
                elapsed >= 0 && timed(elapsed) && call_ensures(
                    N::request_time,
                    (client, server),
                    answer,
                ) && #[trigger] set_by(
                    old(self)@,
                    final(self)@,
                    server@,
                    answer,
                    elapsed as int,
                    r,
                ),
    {
        let started: std::time::Instant = instant_now();
        let answer: Result<NtpResult, String> = client.request_time(server);
        let elapsed: i64 = elapsed_millis(&started);
        assert(drawn(started) && measured(started, elapsed));
        self.apply_ntp_answer(server, answer, elapsed)
    }

    /// Sets the clock to a time that the content management system told, at the point `base`.
    pub fn apply_server_millis_at(&mut self, millis: i64, base: std::time::Instant)
        ensures
            final(self)@ == (SignageClockView {
                epoch: millis,
                base,
                snapshot: server_estimated(millis),
            }),
    {
        let snapshot: ClockSnapshot = ClockSnapshot {
            offset_millis: millis,
            confidence: ClockConfidence::ServerEstimated,
            last_sync_epoch_millis: Some(millis),
            anchor_instant_nanos: None,
            source: "play_data.server_time".to_owned(),
            warning: None,
        };
        assert(snapshot@ =~= server_estimated(millis));
        self.set_at(millis, base, snapshot);
    }

    /// Sets the clock to a time that the content management system told.
    pub fn apply_server_millis(&mut self, millis: i64)
        ensures
            final(self)@.epoch == millis,
            drawn(final(self)@.base),
            final(self)@.snapshot == server_estimated(millis),
    {
        self.apply_server_millis_at(millis, instant_now());
    }

    /// Sets the clock by the time that the content management system told, where it can be read.
    pub fn apply_server_time(&mut self, server_time_iso: &str)
        ensures
            match rfc3339_millis(server_time_iso@) {
                Some(millis) => {
                    &&& final(self)@.epoch == millis
                    &&& drawn(final(self)@.base)
                    &&& final(self)@.snapshot == server_estimated(millis)
                },
                None => final(self)@ == old(self)@,
            },
    {
        match parse_rfc3339(server_time_iso) {
            Some(millis) => self.apply_server_millis(millis),
            None => {},
        }
    }
}

impl Clock for SignageClock {
    /// The time: since the clock was set by the monotonic clock, or by the machine's own where it
    /// never was.
    fn now_millis(&self) -> (r: i64)
        ensures
            exists|device: i64| #[trigger] showed(self@, r, device),
            !unset(self@.snapshot.confidence) ==> r >= self@.epoch,
    {
        let (shown, device): (i64, i64) = self.look();
        assert(showed(self@, shown, device));
        shown
    }

    fn snapshot(&self) -> (r: ClockSnapshot)
        ensures
            r@ == self@.snapshot,
    {
        self.snapshot.clone()
    }
}

/// A clock that stands still, for tests.
#[derive(Debug)]
pub struct MockClock {
    now_millis: i64,
    snapshot: ClockSnapshot,
}

impl MockClock {
    /// The time that the clock shows.
    pub closed spec fn time(self) -> i64 {
        self.now_millis
    }

    /// The state of the clock.
    pub closed spec fn state(self) -> ClockSnapshotView {
        self.snapshot@
    }

    /// A clock that shows this time.
    pub fn at(epoch_millis: i64) -> (r: MockClock)
        ensures
            r.time() == epoch_millis,
            r.state() == (ClockSnapshotView {
                offset_millis: epoch_millis,
                confidence: ClockConfidence::Synced,
                last_sync_epoch_millis: Some(epoch_millis),
                anchor_instant_nanos: None,
                source: "mock"@,
                warning: None,
            }),
    {
        MockClock {
            now_millis: epoch_millis,
            snapshot: ClockSnapshot {
                offset_millis: epoch_millis,
                confidence: ClockConfidence::Synced,
                last_sync_epoch_millis: Some(epoch_millis),
                anchor_instant_nanos: None,
                source: "mock".to_owned(),
                warning: None,
            },
        }
    }

    /// Puts the clock forward.
    pub fn advance(&mut self, delta_ms: i64)
        requires
            i64::MIN <= old(self).time() + delta_ms <= i64::MAX,
        ensures
            final(self).time() == old(self).time() + delta_ms,
            final(self).state() == old(self).state(),
    {
        self.now_millis = self.now_millis + delta_ms;
    }
}

impl Clock for MockClock {
    fn now_millis(&self) -> (r: i64)
        ensures
            r == self.time(),
    {
        self.now_millis
    }

    fn snapshot(&self) -> (r: ClockSnapshot)
        ensures
            r@ == self.state(),
    {
        self.snapshot.clone()
    }
}

/// A time server that always gives the same answer, for tests.
#[derive(Debug)]
pub struct FixedNtpClient {
    pub result: NtpResult,
}

impl NtpClient for FixedNtpClient {
    fn request_time(&self, server: &str) -> (r: Result<NtpResult, String>)
        ensures
            r == Ok::<NtpResult, String>(self.result),
    {
        Ok(self.result)
    }
}

/// A clock that could not be set keeps the time that it was set to, and is never trusted more than
/// before.
pub proof fn failed_syncs_keep_the_time(
    clock: SignageClockView,
    device: i64,
    reason: Seq<char>,
    elapsed: int,
)
    ensures
        ({
            let after = SignageClockView {
                snapshot: stale(clock.snapshot, device, reason),
                ..clock
            };
            &&& time_of(after, elapsed, device) == time_of(clock, elapsed, device)
            &&& after.snapshot.confidence != ClockConfidence::Synced
            &&& unset(clock.snapshot.confidence) <==> unset(after.snapshot.confidence)
        }),
{
}

/// The time never goes back between two settings of the clock.
pub proof fn time_does_not_go_back(clock: SignageClockView, a: int, b: int, device: i64)
    requires
        a <= b,
        !unset(clock.snapshot.confidence),
    ensures
        time_of(clock, a, device) <= time_of(clock, b, device),
{
}

/// The machine's own clock plays no part once a clock is set.
pub proof fn device_clock_does_not_matter(clock: SignageClockView, elapsed: int, a: i64, b: i64)
    requires
        !unset(clock.snapshot.confidence),
    ensures
        time_of(clock, elapsed, a) == time_of(clock, elapsed, b),
{
}

/// A clock that was set counts on from the time it was set to: so long after the point at which it
/// was set it shows that much more, whatever it showed before and whatever the machine's own clock
/// says.
pub proof fn a_set_clock_counts_on(
    before: SignageClockView,
    server: Seq<char>,
    result: NtpResult,
    elapsed: int,
    shown: i64,
    base: std::time::Instant,
    since: int,
    device: i64,
)
    ensures
        ntp_set(before, server, result, elapsed, shown, base).base == base,
        time_of(ntp_set(before, server, result, elapsed, shown, base), since, device) == clamped_sum(
            corrected(result, elapsed) as int,
            since,
        ),
{
}

/// A jump is warned of exactly where the clock was set before and is off by more than a second.
pub proof fn jumps_are_warned_of(
    before: SignageClockView,
    server: Seq<char>,
    result: NtpResult,
    elapsed: int,
    shown: i64,
    base: std::time::Instant,
)
    ensures
        ({
            let off = shown - corrected(result, elapsed);
            ntp_set(before, server, result, elapsed, shown, base).snapshot.warning is Some <==> !unset(
                before.snapshot.confidence,
            ) && (off > LARGE_OFFSET_CHANGE_MS || off < -LARGE_OFFSET_CHANGE_MS)
        }),
{
}

/// A clock that was set when the player last ran comes back as one that was set, but is not certain.
pub proof fn stored_clocks_are_stale(snapshot: ClockSnapshotView)
    requires
        !unset(snapshot.confidence),
    ensures
        restored(snapshot).confidence == ClockConfidence::Stale,
        restored(snapshot).offset_millis == snapshot.offset_millis,
        restored(snapshot).last_sync_epoch_millis == snapshot.last_sync_epoch_millis,
        restored(snapshot).source == snapshot.source,
{
}

/// A clock that a time server has set shows, from then on, the time that the server told, half of how
/// long the answer took, and the time that has passed since. It is known to be set by that server.
pub proof fn time_is_the_servers_and_half_the_trip(
    before: SignageClockView,
    server: Seq<char>,
    result: NtpResult,
    elapsed: int,
    shown: i64,
    base: std::time::Instant,
    since: int,
    device: i64,
)
    requires
        elapsed >= 0,
        since >= 0,
        result.epoch_millis + elapsed + since <= i64::MAX,
    ensures
        ({
            let after = ntp_set(before, server, result, elapsed, shown, base);
            &&& time_of(after, since, device) == result.epoch_millis + elapsed / 2 + since
            &&& after.epoch == result.epoch_millis + elapsed / 2
            &&& after.base == base
            &&& after.snapshot.offset_millis == result.epoch_millis + elapsed / 2
            &&& after.snapshot.confidence == ClockConfidence::Synced
            &&& after.snapshot.last_sync_epoch_millis == Some(result.epoch_millis)
            &&& after.snapshot.source == server
            &&& (before.snapshot.confidence != ClockConfidence::DeviceClock
                && before.snapshot.confidence != ClockConfidence::Unusable && (shown - (
            result.epoch_millis + elapsed / 2) > 1_000 || (result.epoch_millis + elapsed / 2)
                - shown > 1_000)) <==> after.snapshot.warning is Some
            &&& after.snapshot.warning matches Some(text) ==> text
                == "Large clock offset change: "@ + signed_decimal(shown as int) + " -> "@
                + signed_decimal(result.epoch_millis + elapsed / 2)
        }),
{
}

/// A clock that was never set shows the machine's own time; any other counts on from the time that it
/// was set to.
pub proof fn unset_clocks_show_the_machines_time(clock: SignageClockView, since: int, device: i64)
    ensures
        clock.snapshot.confidence == ClockConfidence::DeviceClock || clock.snapshot.confidence
            == ClockConfidence::Unusable ==> time_of(clock, since, device) == device,
        (clock.snapshot.confidence == ClockConfidence::Synced || clock.snapshot.confidence
            == ClockConfidence::Stale || clock.snapshot.confidence
            == ClockConfidence::ServerEstimated) && i64::MIN <= clock.epoch + since <= i64::MAX
            ==> time_of(clock, since, device) == clock.epoch + since,
{
}

/// A clock that could not be set is what it was, but for how far it is trusted and what is warned of:
/// one that was set before is stale, one that never was goes by the machine's own.
pub proof fn failed_syncs_change_only_the_trust(
    before: SignageClockView,
    server: Seq<char>,
    reason: String,
    elapsed: int,
    shown: i64,
    device: i64,
    base: std::time::Instant,
)
    ensures
        ({
            let after = answered(before, server, Err(reason), elapsed, shown, device, base);
            &&& after.epoch == before.epoch
            &&& after.base == before.base
            &&& after.snapshot.warning == Some("NTP failed: "@ + reason@)
            &&& !unset(before.snapshot.confidence) ==> {
                &&& after.snapshot.confidence == ClockConfidence::Stale
                &&& after.snapshot.offset_millis == before.snapshot.offset_millis
                &&& after.snapshot.last_sync_epoch_millis == before.snapshot.last_sync_epoch_millis
                &&& after.snapshot.source == before.snapshot.source
            }
            &&& unset(before.snapshot.confidence) ==> {
                &&& after.snapshot.confidence == ClockConfidence::DeviceClock
                &&& after.snapshot.offset_millis == device
                &&& after.snapshot.last_sync_epoch_millis is None
                &&& after.snapshot.source == "device_clock"@
            }
        }),
{
}

/// A clock that the content management system has set is known to be set by it, at the time that it
/// told.
pub proof fn server_times_are_estimates(millis: i64)
    ensures
        server_estimated(millis).offset_millis == millis,
        server_estimated(millis).last_sync_epoch_millis == Some(millis),
        server_estimated(millis).confidence == ClockConfidence::ServerEstimated,
        server_estimated(millis).source == "play_data.server_time"@,
        server_estimated(millis).warning is None,
{
}

/// What was stored of a clock that was never set comes back as it was; what was stored of one that was
/// set comes back with a warning where it was certain.
pub proof fn stored_clocks_come_back(snapshot: ClockSnapshotView)
    ensures
        unset(snapshot.confidence) ==> restored(snapshot) == snapshot,
        snapshot.confidence == ClockConfidence::Stale ==> restored(snapshot) == snapshot,
        snapshot.confidence == ClockConfidence::Synced || snapshot.confidence
            == ClockConfidence::ServerEstimated ==> restored(snapshot).warning == Some(
            "Restored persisted clock offset"@,
        ),
        restored(snapshot).anchor_instant_nanos == snapshot.anchor_instant_nanos,
{
}

/// What is reported of a sync is whether the server answered, what the clock then is, and how long the
/// answer took.
pub proof fn syncs_report_how_they_went(
    after: SignageClockView,
    answer: Result<NtpResult, String>,
    r: ClockSyncResult,
)
    requires
        reported(after, answer, r),
    ensures
        answer is Ok <==> r.success,
        r.snapshot@ == after.snapshot,
        answer matches Ok(result) ==> r.round_trip_millis == Some(result.round_trip_millis),
        answer is Err ==> r.round_trip_millis is None,
{
}
} // verus!
