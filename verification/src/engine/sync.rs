//! Keeping up with the schedule: one sync, and putting a timeline into effect.

use vstd::prelude::*;

use super::assets::{
    auctioned_part, scheduled_part, slots_need_the_files_of_their_scenes, slots_needing,
    slots_that_need, split_assets,
};
use crate::clock::signage::{device_time, told_by_device};
use crate::cms::PlaybackDataDto;
use crate::config::{DEFAULT_ZONE_ID, TIMELINE_REFRESH_THRESHOLD_MS};
use crate::text::{same_text, texts};
use crate::timeline::calendar::DATE_FORMAT;
use crate::timeline::models::{asset_views, AssetRefView, SceneView, TimelineView};
use crate::timeline::query::has_key;
use crate::timeline::{AssetRef, PlaybackTimeline};

verus! {

/// The date at an instant in a time zone, as `chrono` writes it in a format; nothing where the
/// instant cannot be represented or the zone is not known.
pub uninterp spec fn date_text_at(millis: i64, zone: Seq<char>, format: Seq<char>) -> Option<
    Seq<char>,
>;

/// `chrono::TimeZone::timestamp_millis_opt`, `with_timezone` and `format`: the date at an instant in
/// a time zone. The format has to be one that `chrono` can write: an invalid one panics.
#[verifier::external_body]
fn format_date(millis: i64, zone: &str, format: &str) -> (r: Option<String>)
    requires
        format@ == DATE_FORMAT@,
    ensures
        date_text_at(millis, zone@, format@) == (match r {
            Some(text) => Some(text@),
            None => None,
        }),
{
    let zone = zone.parse::<chrono_tz::Tz>().ok()?;
    let instant = chrono::DateTime::from_timestamp_millis(millis)?;
    Some(instant.with_timezone(&zone).format(format).to_string())
}

/// The date at an instant in the default time zone; nothing where that cannot be written.
pub open spec fn date_text_or_empty(millis: i64) -> Seq<char> {
    match date_text_at(millis, DEFAULT_ZONE_ID@, DATE_FORMAT@) {
        Some(text) => text,
        None => Seq::empty(),
    }
}

/// The date whose schedule is asked for at `now_millis`: that of the default time zone. Where the
/// instant cannot be represented, today's by the machine's clock.
pub fn playback_date(now_millis: i64) -> (r: String)
    ensures
        match date_text_at(now_millis, DEFAULT_ZONE_ID@, DATE_FORMAT@) {
            Some(text) => r@ == text,
            None => exists|device: i64|
                told_by_device(device) && r@ == #[trigger] date_text_or_empty(device),
        },
{
    match format_date(now_millis, DEFAULT_ZONE_ID, DATE_FORMAT) {
        Some(text) => text,
        None => {
            let device: i64 = device_time();
            let r: String = match format_date(device, DEFAULT_ZONE_ID, DATE_FORMAT) {
                Some(text) => text,
                None => String::new(),
            };
            assert(r@ =~= date_text_or_empty(device));
            r
        },
    }
}

/// Whether the revision that is shown is the one that came.
pub fn same_revision(last: &Option<String>, data: &PlaybackDataDto) -> (r: bool)
    ensures
        r == (crate::text::opt_text(*last) == Some(data.revision@)),
{
    match last {
        Some(revision) => same_text(revision.as_str(), data.revision.as_str()),
        None => false,
    }
}

/// Whether a timeline has to be built anew though the revision is the same: there is none, it is
/// another day's, or its last scene starts within the threshold.
pub open spec fn needs_refresh(active: Option<TimelineView>, date: Seq<char>, now: int) -> bool {
    match active {
        None => true,
        Some(timeline) => timeline.date != date || timeline.scenes.len() == 0
            || timeline.scenes.last().start - now < TIMELINE_REFRESH_THRESHOLD_MS,
    }
}

/// Whether a timeline has to be built anew though the revision is the same.
pub fn timeline_needs_refresh(
    active: Option<&PlaybackTimeline>,
    data: &PlaybackDataDto,
    now: i64,
) -> (r: bool)
    ensures
        r == needs_refresh(
            match active {
                Some(timeline) => Some(timeline@),
                None => None,
            },
            data.date@,
            now as int,
        ),
{
    match active {
        None => true,
        Some(timeline) => {
            if !same_text(timeline.date.as_str(), data.date.as_str()) {
                return true;
            }
            let n: usize = timeline.scenes.len();
            if n == 0 {
                return true;
            }
            let start: i64 = timeline.scenes[n - 1].start_time_millis;
            assert(timeline@.scenes.last() == timeline.scenes@[n - 1]@);
            (start as i128 - now as i128) < TIMELINE_REFRESH_THRESHOLD_MS as i128
        },
    }
}

/// Where one sync stands.
#[derive(Debug, Clone, Copy, PartialEq, Eq, Structural)]
pub enum SyncPhase {
    /// The clock is set; where that fails, it runs on as it is.
    Clock,
    /// The schedule is fetched.
    Fetch,
    /// The server's time is handed to the clock.
    ServerTime,
    /// Assets that are needed soon and missing are downloaded.
    TopUp,
    /// A timeline is built.
    Build,
    /// The schedule is stored, to start from without a network.
    Store,
    /// The timeline is put into effect.
    Apply,
    /// The sync has gone well.
    Done,
    /// The sync has failed; the next one tries again.
    Failed,
}

/// What one sync is told.
#[derive(Debug, Clone, Copy, PartialEq, Eq, Structural)]
pub enum SyncEvent {
    /// The clock was set, or not.
    ClockTried,
    /// The schedule came: whether its revision is the one that is shown, and whether it says what
    /// time it is.
    Fetched { same_revision: bool, server_time: bool },
    /// The clock has got the server's time.
    ServerTimeApplied,
    /// The missing assets are there: whether the timeline has to be built anew nevertheless.
    ToppedUp { needs_refresh: bool },
    /// The timeline was built.
    Built,
    /// The schedule was stored.
    Stored,
    /// The timeline was put into effect.
    Applied,
    /// What was asked for failed.
    Failed,
}

/// Model of a [`SyncRun`].
pub struct SyncView {
    pub phase: SyncPhase,
    pub same_revision: bool,
}

/// The step after the schedule came and the clock got its time.
pub open spec fn after_fetch(same_revision: bool) -> SyncPhase {
    if same_revision {
        SyncPhase::TopUp
    } else {
        SyncPhase::Build
    }
}

/// The course of one sync. An event that does not fit the step changes nothing.
pub open spec fn sync_next(state: SyncView, event: SyncEvent) -> SyncView {
    match (state.phase, event) {
        (SyncPhase::Clock, SyncEvent::ClockTried) => SyncView { phase: SyncPhase::Fetch, ..state },
        (
            SyncPhase::Fetch,
            SyncEvent::Fetched { same_revision, server_time },
        ) => SyncView {
            phase: if server_time {
                SyncPhase::ServerTime
            } else {
                after_fetch(same_revision)
            },
            same_revision,
        },
        (SyncPhase::ServerTime, SyncEvent::ServerTimeApplied) => SyncView {
            phase: after_fetch(state.same_revision),
            ..state
        },
        (SyncPhase::TopUp, SyncEvent::ToppedUp { needs_refresh }) => SyncView {
            phase: if needs_refresh {
                SyncPhase::Build
            } else {
                SyncPhase::Done
            },
            ..state
        },
        (SyncPhase::Build, SyncEvent::Built) => SyncView {
            phase: if state.same_revision {
                SyncPhase::Apply
            } else {
                SyncPhase::Store
            },
            ..state
        },
        (SyncPhase::Store, SyncEvent::Stored) => SyncView { phase: SyncPhase::Apply, ..state },
        (SyncPhase::Apply, SyncEvent::Applied) => SyncView { phase: SyncPhase::Done, ..state },
        (SyncPhase::Fetch, SyncEvent::Failed) => SyncView { phase: SyncPhase::Failed, ..state },
        (SyncPhase::TopUp, SyncEvent::Failed) => SyncView { phase: SyncPhase::Failed, ..state },
        (SyncPhase::Build, SyncEvent::Failed) => SyncView { phase: SyncPhase::Failed, ..state },
        (SyncPhase::Store, SyncEvent::Failed) => SyncView { phase: SyncPhase::Failed, ..state },
        (SyncPhase::Apply, SyncEvent::Failed) => SyncView { phase: SyncPhase::Failed, ..state },
        _ => state,
    }
}

/// One sync: the clock is set, the schedule fetched, and what came put into effect.
#[derive(Debug)]
pub struct SyncRun {
    phase: SyncPhase,
    same_revision: bool,
}

impl View for SyncRun {
    type V = SyncView;

    closed spec fn view(&self) -> SyncView {
        SyncView { phase: self.phase, same_revision: self.same_revision }
    }
}

impl SyncRun {
    /// A sync that begins.
    pub fn new() -> (r: SyncRun)
        ensures
            r@ == (SyncView { phase: SyncPhase::Clock, same_revision: false }),
    {
        SyncRun { phase: SyncPhase::Clock, same_revision: false }
    }

    /// The step that has to be done.
    pub fn phase(&self) -> (r: SyncPhase)
        ensures
            r == self@.phase,
    {
        self.phase
    }

    /// Tells the sync what came of the step, and returns the next one.
    pub fn advance(&mut self, event: SyncEvent) -> (r: SyncPhase)
        ensures
            final(self)@ == sync_next(old(self)@, event),
            r == final(self)@.phase,
    {
        match (self.phase, event) {
            (SyncPhase::Clock, SyncEvent::ClockTried) => {
                self.phase = SyncPhase::Fetch;
            },
            (SyncPhase::Fetch, SyncEvent::Fetched { same_revision, server_time }) => {
                self.same_revision = same_revision;
                self.phase = if server_time {
                    SyncPhase::ServerTime
                } else if same_revision {
                    SyncPhase::TopUp
                } else {
                    SyncPhase::Build
                };
            },
            (SyncPhase::ServerTime, SyncEvent::ServerTimeApplied) => {
                self.phase = if self.same_revision {
                    SyncPhase::TopUp
                } else {
                    SyncPhase::Build
                };
            },
            (SyncPhase::TopUp, SyncEvent::ToppedUp { needs_refresh }) => {
                self.phase = if needs_refresh {
                    SyncPhase::Build
                } else {
                    SyncPhase::Done
                };
            },
            (SyncPhase::Build, SyncEvent::Built) => {
                self.phase = if self.same_revision {
                    SyncPhase::Apply
                } else {
                    SyncPhase::Store
                };
            },
            (SyncPhase::Store, SyncEvent::Stored) => {
                self.phase = SyncPhase::Apply;
            },
            (SyncPhase::Apply, SyncEvent::Applied) => {
                self.phase = SyncPhase::Done;
            },
            (SyncPhase::Fetch, SyncEvent::Failed) => {
                self.phase = SyncPhase::Failed;
            },
            (SyncPhase::TopUp, SyncEvent::Failed) => {
                self.phase = SyncPhase::Failed;
            },
            (SyncPhase::Build, SyncEvent::Failed) => {
                self.phase = SyncPhase::Failed;
            },
            (SyncPhase::Store, SyncEvent::Failed) => {
                self.phase = SyncPhase::Failed;
            },
            (SyncPhase::Apply, SyncEvent::Failed) => {
                self.phase = SyncPhase::Failed;
            },
            _ => {},
        }
        self.phase
    }
}

/// Where a sync stands after some events.
pub open spec fn sync_after(events: Seq<SyncEvent>) -> SyncView
    decreases events.len(),
{
    if events.len() == 0 {
        SyncView { phase: SyncPhase::Clock, same_revision: false }
    } else {
        sync_next(sync_after(events.drop_last()), events.last())
    }
}

/// Whether the schedule is among what came: with this revision.
pub open spec fn came(events: Seq<SyncEvent>, same_revision: bool) -> bool {
    exists|i: int|
        0 <= i < events.len() && (#[trigger] events[i] matches SyncEvent::Fetched {
            same_revision: same,
            ..
        } && same == same_revision)
}

/// What is known of the course of a sync at each step.
pub open spec fn sync_history(state: SyncView, events: Seq<SyncEvent>) -> bool {
    match state.phase {
        SyncPhase::Clock | SyncPhase::Fetch => true,
        SyncPhase::ServerTime => came(events, state.same_revision),
        SyncPhase::TopUp => came(events, true) && state.same_revision,
        SyncPhase::Build => came(events, state.same_revision),
        SyncPhase::Store => came(events, false) && !state.same_revision && events.contains(
            SyncEvent::Built,
        ),
        SyncPhase::Apply => came(events, state.same_revision) && events.contains(SyncEvent::Built)
            && (!state.same_revision ==> events.contains(SyncEvent::Stored)),
        SyncPhase::Done => came(events, state.same_revision) && (!state.same_revision
            ==> events.contains(SyncEvent::Stored) && events.contains(SyncEvent::Applied)),
        SyncPhase::Failed => events.contains(SyncEvent::Failed),
    }
}

/// A sync goes well only where the schedule came; where its revision is new, only once it was
/// stored and then put into effect. It fails only where something failed, and a clock that could
/// not be set is no such thing.
pub proof fn sync_goes_in_order(events: Seq<SyncEvent>)
    ensures
        sync_history(sync_after(events), events),
    decreases events.len(),
{
    if events.len() > 0 {
        let before = events.drop_last();
        sync_goes_in_order(before);
        assert(events[events.len() - 1] == events.last());
        assert forall|same: bool| came(before, same) implies came(events, same) by {
            let i = choose|i: int|
                0 <= i < before.len() && (#[trigger] before[i] matches SyncEvent::Fetched {
                    same_revision: s,
                    ..
                } && s == same);
            assert(events[i] == before[i]);
        }
        assert forall|e: SyncEvent| #[trigger] before.contains(e) implies events.contains(e) by {
            let i = choose|i: int| 0 <= i < before.len() && before[i] == e;
            assert(events[i] == e);
        }
        assert(events.contains(events.last()));
        assert(came(before, true) ==> came(events, true));
        assert(came(before, false) ==> came(events, false));
    }
}

/// Where putting a timeline into effect stands.
#[derive(Debug, Clone, Copy, PartialEq, Eq, Structural)]
pub enum ApplyPhase {
    /// The assets that the schedule itself needs are made ready.
    Scheduled,
    /// The asset at this index of those that only auctioned scenes need is made ready.
    Auctioned(usize),
    /// The timeline takes effect.
    Activate,
    /// The timeline does not take effect.
    Abort,
}

/// Model of an [`ApplyRun`].
#[verifier::ext_equal]
pub struct ApplyView {
    pub scheduled: Seq<AssetRefView>,
    pub auctioned: Seq<AssetRefView>,
    pub phase: ApplyPhase,
    pub failed: Seq<Seq<char>>,
}

/// The step at the asset `index` of those that only auctioned scenes need.
pub open spec fn auctioned_step(index: int, count: nat) -> ApplyPhase {
    if index < count {
        ApplyPhase::Auctioned(index as usize)
    } else {
        ApplyPhase::Activate
    }
}

/// The course of putting a timeline into effect: without the assets of the schedule itself it does
/// not take effect; where an auctioned asset is missing, the slots that need it fail and nothing
/// else.
pub open spec fn apply_next(state: ApplyView, scenes: Seq<SceneView>, ready: bool) -> ApplyView {
    match state.phase {
        ApplyPhase::Scheduled => ApplyView {
            phase: if ready {
                auctioned_step(0, state.auctioned.len())
            } else {
                ApplyPhase::Abort
            },
            ..state
        },
        ApplyPhase::Auctioned(i) => ApplyView {
            phase: auctioned_step(i + 1, state.auctioned.len()),
            failed: if ready {
                state.failed
            } else {
                state.failed + slots_needing(scenes, state.auctioned[i as int].key())
            },
            ..state
        },
        _ => state,
    }
}

/// Putting a timeline into effect: first the assets that have to be there are made ready.
#[derive(Debug)]
pub struct ApplyRun {
    scheduled: Vec<AssetRef>,
    auctioned: Vec<AssetRef>,
    phase: ApplyPhase,
    failed: Vec<String>,
}

impl View for ApplyRun {
    type V = ApplyView;

    closed spec fn view(&self) -> ApplyView {
        ApplyView {
            scheduled: asset_views(self.scheduled@),
            auctioned: asset_views(self.auctioned@),
            phase: self.phase,
            failed: texts(self.failed@),
        }
    }
}

impl ApplyRun {
    /// Whether the asset that is made ready is one of those that are to be.
    pub open spec fn valid(self) -> bool {
        self@.phase matches ApplyPhase::Auctioned(i) ==> i < self@.auctioned.len()
    }

    /// Begins to put `timeline` into effect, for which the assets `blocking` have to be there. No
    /// auctioned slot has failed.
    pub fn new(timeline: &PlaybackTimeline, blocking: &Vec<AssetRef>) -> (r: ApplyRun)
        ensures
            r.valid(),
            r@ == (ApplyView {
                scheduled: scheduled_part(asset_views(blocking@), timeline@.scenes),
                auctioned: auctioned_part(asset_views(blocking@), timeline@.scenes),
                phase: ApplyPhase::Scheduled,
                failed: Seq::empty(),
            }),
    {
        let parts: (Vec<AssetRef>, Vec<AssetRef>) = split_assets(timeline, blocking);
        let run: ApplyRun = ApplyRun {
            scheduled: parts.0,
            auctioned: parts.1,
            phase: ApplyPhase::Scheduled,
            failed: Vec::new(),
        };
        assert(run@.failed =~= Seq::empty());
        run
    }

    /// The step that has to be done.
    pub fn phase(&self) -> (r: ApplyPhase)
        ensures
            r == self@.phase,
    {
        self.phase
    }

    /// The assets that the schedule itself needs.
    pub fn scheduled(&self) -> (r: &Vec<AssetRef>)
        ensures
            asset_views(r@) == self@.scheduled,
    {
        &self.scheduled
    }

    /// The assets that only auctioned scenes need.
    pub fn auctioned(&self) -> (r: &Vec<AssetRef>)
        ensures
            asset_views(r@) == self@.auctioned,
    {
        &self.auctioned
    }

    /// The auctioned slots that have failed.
    pub fn failed_slots(&self) -> (r: &Vec<String>)
        ensures
            texts(r@) == self@.failed,
    {
        &self.failed
    }

    /// Tells whether the assets of the step are ready.
    pub fn report(&mut self, timeline: &PlaybackTimeline, ready: bool) -> (r: ApplyPhase)
        requires
            old(self).valid(),
        ensures
            final(self)@ == apply_next(old(self)@, timeline@.scenes, ready),
            final(self).valid(),
            r == final(self)@.phase,
    {
        match self.phase {
            ApplyPhase::Scheduled => {
                self.phase = if !ready {
                    ApplyPhase::Abort
                } else if self.auctioned.len() > 0 {
                    ApplyPhase::Auctioned(0)
                } else {
                    ApplyPhase::Activate
                };
            },
            ApplyPhase::Auctioned(i) => {
                let ghost before = texts(self.failed@);
                if !ready {
                    let mut slots: Vec<String> = slots_that_need(timeline, &self.auctioned[i]);
                    let ghost more = texts(slots@);
                    assert(texts(self.failed@ + slots@) =~= before + more);
                    self.failed.append(&mut slots);
                }
                self.phase = if i < self.auctioned.len() - 1 {
                    ApplyPhase::Auctioned(i + 1)
                } else {
                    ApplyPhase::Activate
                };
            },
            _ => {},
        }
        self.phase
    }
}

/// Missing assets of auctioned scenes never keep a timeline from taking effect; missing assets of
/// the schedule itself do.
pub proof fn auctions_never_block_the_schedule(
    state: ApplyView,
    scenes: Seq<SceneView>,
    ready: bool,
)
    ensures
        apply_next(state, scenes, ready).phase == ApplyPhase::Abort <==> state.phase
            == ApplyPhase::Abort || (state.phase == ApplyPhase::Scheduled && !ready),
        state.failed.len() <= apply_next(state, scenes, ready).failed.len(),
        ready ==> apply_next(state, scenes, ready).failed == state.failed,
{
}

/// Why a stored schedule is not played.
#[derive(Debug, Clone, Copy, PartialEq, Eq, Structural)]
pub enum CacheRefusal {
    /// There is none.
    Missing,
    /// It belongs to another device.
    OtherDevice,
}

impl CacheRefusal {
    /// What is reported.
    pub fn message(self) -> (r: &'static str)
        ensures
            r@ == (match self {
                CacheRefusal::Missing => "no cached playback"@,
                CacheRefusal::OtherDevice => "cached device mismatch"@,
            }),
    {
        match self {
            CacheRefusal::Missing => "no cached playback",
            CacheRefusal::OtherDevice => "cached device mismatch",
        }
    }
}

/// Whether a stored schedule is this device's.
pub fn check_cached_schedule(data: Option<&PlaybackDataDto>, device_id: &str) -> (r: Result<
    (),
    CacheRefusal,
>)
    ensures
        r == (match data {
            None => Err(CacheRefusal::Missing),
            Some(d) => if d.device_id@ == device_id@ {
                Ok(())
            } else {
                Err(CacheRefusal::OtherDevice)
            },
        }),
{
    match data {
        None => Err(CacheRefusal::Missing),
        Some(d) => if same_text(d.device_id.as_str(), device_id) {
            Ok(())
        } else {
            Err(CacheRefusal::OtherDevice)
        },
    }
}

/// A timeline whose revision has not changed is built anew exactly where there is none, where it is of
/// another day, where it has no scenes, or where its last scene starts in less than two minutes.
pub proof fn timelines_are_refreshed_two_minutes_ahead(
    active: Option<TimelineView>,
    date: Seq<char>,
    now: int,
)
    ensures
        active is None ==> needs_refresh(active, date, now),
        active matches Some(timeline) ==> (needs_refresh(active, date, now) <==> {
            ||| timeline.date != date
            ||| timeline.scenes.len() == 0
            ||| timeline.scenes[timeline.scenes.len() - 1].start - now < 120_000
        }),
{
}

/// A schedule of a new revision is built, then stored, then put into effect, after the clock was set
/// and, where the schedule says what time it is, got that time. Then the sync is over.
pub proof fn a_new_schedule_is_stored_and_put_into_effect(server_time: bool)
    ensures
        ({
            let begun = SyncView { phase: SyncPhase::Clock, same_revision: false };
            let asked = sync_next(begun, SyncEvent::ClockTried);
            let came = sync_next(
                asked,
                SyncEvent::Fetched { same_revision: false, server_time },
            );
            let timed = if server_time {
                sync_next(came, SyncEvent::ServerTimeApplied)
            } else {
                came
            };
            let built = sync_next(timed, SyncEvent::Built);
            let stored = sync_next(built, SyncEvent::Stored);
            let applied = sync_next(stored, SyncEvent::Applied);
            &&& asked.phase == SyncPhase::Fetch
            &&& server_time ==> came.phase == SyncPhase::ServerTime
            &&& timed.phase == SyncPhase::Build
            &&& built.phase == SyncPhase::Store
            &&& stored.phase == SyncPhase::Apply
            &&& applied.phase == SyncPhase::Done
        }),
{
}

/// For a schedule of the revision that is shown, missing files are downloaded. Where the timeline has
/// to be built anew nevertheless, it is built and put into effect, and not stored again; else the sync
/// is over.
pub proof fn a_known_schedule_is_topped_up(server_time: bool, needs_refresh: bool)
    ensures
        ({
            let asked = SyncView { phase: SyncPhase::Fetch, same_revision: false };
            let came = sync_next(asked, SyncEvent::Fetched { same_revision: true, server_time });
            let timed = if server_time {
                sync_next(came, SyncEvent::ServerTimeApplied)
            } else {
                came
            };
            let filled = sync_next(timed, SyncEvent::ToppedUp { needs_refresh });
            &&& timed.phase == SyncPhase::TopUp
            &&& !needs_refresh ==> filled.phase == SyncPhase::Done
            &&& needs_refresh ==> {
                let built = sync_next(filled, SyncEvent::Built);
                &&& filled.phase == SyncPhase::Build
                &&& built.phase == SyncPhase::Apply
                &&& sync_next(built, SyncEvent::Applied).phase == SyncPhase::Done
            }
        }),
{
}

/// A sync fails when fetching, topping up, building, storing or putting into effect fails. One that is
/// over stays so, whatever comes.
pub proof fn syncs_fail_where_a_step_fails(state: SyncView, event: SyncEvent)
    ensures
        (state.phase == SyncPhase::Fetch || state.phase == SyncPhase::TopUp || state.phase
            == SyncPhase::Build || state.phase == SyncPhase::Store || state.phase
            == SyncPhase::Apply) ==> sync_next(state, SyncEvent::Failed).phase
            == SyncPhase::Failed,
        state.phase == SyncPhase::Clock ==> sync_next(state, SyncEvent::Failed).phase
            == SyncPhase::Clock,
        state.phase == SyncPhase::Done || state.phase == SyncPhase::Failed ==> sync_next(
            state,
            event,
        ) == state,
{
}

/// Putting a timeline into effect: once the files of the schedule itself are ready, the files that
/// auctioned scenes alone need are made ready one after the other, and then it takes effect. The slots
/// that need a file that could not be made ready have failed, and no others.
pub proof fn timelines_take_effect_after_their_files(
    state: ApplyView,
    scenes: Seq<SceneView>,
    ready: bool,
    slot: Seq<char>,
)
    ensures
        state.phase == ApplyPhase::Scheduled ==> {
            &&& !ready ==> apply_next(state, scenes, ready).phase == ApplyPhase::Abort
            &&& ready && state.auctioned.len() == 0 ==> apply_next(state, scenes, ready).phase
                == ApplyPhase::Activate
            &&& ready && state.auctioned.len() > 0 ==> apply_next(state, scenes, ready).phase
                == ApplyPhase::Auctioned(0)
        },
        state.phase matches ApplyPhase::Auctioned(i) ==> {
            &&& i + 1 == state.auctioned.len() ==> apply_next(state, scenes, ready).phase
                == ApplyPhase::Activate
            &&& i + 1 < state.auctioned.len() <= usize::MAX ==> apply_next(
                state,
                scenes,
                ready,
            ).phase == ApplyPhase::Auctioned((i + 1) as usize)
            &&& apply_next(state, scenes, ready).failed.contains(slot) <==> state.failed.contains(
                slot,
            ) || (!ready && exists|k: int|
                0 <= k < scenes.len() && has_key(
                    (#[trigger] scenes[k]).asset_refs,
                    state.auctioned[i as int].key(),
                ) && (scenes[k].rtb matches Some(sold) && sold.slot_id == slot))
        },
        apply_next(state, scenes, ready).scheduled == state.scheduled,
        apply_next(state, scenes, ready).auctioned == state.auctioned,
{
    if let ApplyPhase::Auctioned(i) = state.phase {
        let key = state.auctioned[i as int].key();
        slots_need_the_files_of_their_scenes(scenes, key, slot);
        let more = slots_needing(scenes, key);
        let all = state.failed + more;
        if state.failed.contains(slot) {
            let k = choose|k: int| 0 <= k < state.failed.len() && state.failed[k] == slot;
            assert(all[k] == slot);
        }
        if more.contains(slot) {
            let k = choose|k: int| 0 <= k < more.len() && more[k] == slot;
            assert(all[state.failed.len() + k] == slot);
        }
        if all.contains(slot) {
            let k = choose|k: int| 0 <= k < all.len() && all[k] == slot;
            if k < state.failed.len() {
                assert(state.failed[k] == slot);
            } else {
                assert(more[k - state.failed.len()] == slot);
            }
        }
    }
}

/// The day of a schedule is that of the moment in Seoul, year before month before day. Where the
/// moment has none nothing is said.
pub proof fn days_are_those_in_seoul(millis: i64)
    ensures
        date_text_or_empty(millis) == match date_text_at(millis, "Asia/Seoul"@, "%Y-%m-%d"@) {
            Some(text) => text,
            None => Seq::empty(),
        },
{
}
} // verus!
