//! From a day's schedule to its timeline.

use vstd::prelude::*;

use super::auction::{auction_between, auction_fits, auction_has_room, build_rtb_scenes};
use super::calendar::{
    date_of, instant_of, is_today, resolve_date, resolve_timezone, time_range, time_range_of,
    zone_of, DATE_FORMAT,
};
use super::models::{scene_views, PlaybackScene, PlaybackTimeline, SceneView, TimelineView};
use super::overlay::{
    in_start_order, overlaid, overlay_rtb_scenes, sort_by_start, sorted_scene_views,
};
use super::scenes::{layouts_of_slots, LayoutCache};
use super::slots::{build_slot_scenes, scenes_of_slot, slot_fits, slot_has_room, window_fits};
use crate::cms::{PlaybackDataDto, PlaybackSlotDto, RtbSlotDto};
use crate::config::{DEFAULT_ZONE_ID, TIMELINE_FUTURE_WINDOW_MS, TIMELINE_PAST_WINDOW_MS};
use crate::sort::{sorted_by_keys, stable_order, stable_order_is_stable, stable_sort, SortKey};
use crate::text::opt_text;

verus! {

/// Turns schedules into timelines.
pub struct TimelineBuilder;

/// Whether the times that a schedule adds up are numbers that can be held.
pub open spec fn schedule_fits(data: PlaybackDataDto) -> bool {
    &&& forall|i: int| 0 <= i < data.slots@.len() ==> slot_fits(#[trigger] data.slots@[i])
    &&& forall|i: int| 0 <= i < data.rtb_slots@.len() ==> auction_fits(#[trigger] data.rtb_slots@[i])
}

/// Whether every slot ends less than an `i64` after it starts.
pub open spec fn ranges_fit(ranges: Seq<(i64, i64)>) -> bool {
    forall|i: int| 0 <= i < ranges.len() ==> (#[trigger] ranges[i]).1 - ranges[i].0 <= i64::MAX
}

/// The scenes of the first `n` slots, which run where `ranges` says.
pub open spec fn scenes_of_slots(
    data: PlaybackDataDto,
    ranges: Seq<(i64, i64)>,
    now: int,
    n: int,
) -> Seq<SceneView>
    decreases n,
{
    if n <= 0 {
        Seq::empty()
    } else {
        scenes_of_slots(data, ranges, now, n - 1) + scenes_of_slot(
            data,
            data.slots@[n - 1],
            ranges[n - 1].0 as int,
            ranges[n - 1].1 as int,
            now,
        )
    }
}

/// The scenes of the schedule's own slots, in order of their start.
pub open spec fn baseline_of(data: PlaybackDataDto, ranges: Seq<(i64, i64)>, now: int) -> Seq<
    SceneView,
> {
    in_start_order(scenes_of_slots(data, ranges, now, data.slots@.len() as int))
}

/// The keys by which the scenes of a timeline are sorted: start, end, schedule.
pub open spec fn timeline_keys(scenes: Seq<SceneView>) -> Seq<SortKey> {
    Seq::new(scenes.len(), |i: int| (scenes[i].start, scenes[i].end, scenes[i].schedule_id))
}

/// Scenes in the order of a timeline.
pub open spec fn in_timeline_order(scenes: Seq<SceneView>) -> Seq<SceneView> {
    sorted_by_keys(scenes, timeline_keys(scenes))
}

/// The scenes of a schedule whose slots run where the two lists of ranges say.
pub open spec fn timeline_scenes(
    data: PlaybackDataDto,
    ranges: Seq<(i64, i64)>,
    auction_ranges: Seq<(i64, i64)>,
    now: int,
) -> Seq<SceneView> {
    let baseline = baseline_of(data, ranges, now);
    in_timeline_order(overlaid(baseline, auction_between(data, auction_ranges, baseline, now)))
}

/// The timeline of a schedule whose slots run where the two lists of ranges say.
pub open spec fn timeline_between(
    data: PlaybackDataDto,
    ranges: Seq<(i64, i64)>,
    auction_ranges: Seq<(i64, i64)>,
    now: int,
) -> TimelineView {
    TimelineView {
        device_id: data.device_id@,
        date: data.date@,
        revision: data.revision@,
        server_time: opt_text(data.server_time),
        generated_at: opt_text(data.generated_at),
        timezone: match data.timezone {
            Some(zone) => zone@,
            None => DEFAULT_ZONE_ID@,
        },
        scenes: timeline_scenes(data, ranges, auction_ranges, now),
    }
}

/// From where to where the slots of a schedule run: through the second of their end.
pub open spec fn slot_ranges(slots: Seq<PlaybackSlotDto>, date: i32, zone: Seq<char>) -> Seq<
    (i64, i64),
> {
    Seq::new(
        slots.len(),
        |i: int|
            {
                let range = time_range_of(
                    instant_of(slots[i].start_time@, date, zone),
                    instant_of(slots[i].end_time@, date, zone),
                    true,
                );
                (range.0 as i64, range.1 as i64)
            },
    )
}

/// From where to where auctioned slots run: up to their end.
pub open spec fn auction_ranges(slots: Seq<RtbSlotDto>, date: i32, zone: Seq<char>) -> Seq<
    (i64, i64),
> {
    Seq::new(
        slots.len(),
        |i: int|
            {
                let range = time_range_of(
                    instant_of(slots[i].start_time@, date, zone),
                    instant_of(slots[i].end_time@, date, zone),
                    false,
                );
                (range.0 as i64, range.1 as i64)
            },
    )
}

/// The timeline of a schedule for a date.
pub open spec fn timeline_on(data: PlaybackDataDto, date: i32, now: int) -> TimelineView {
    timeline_between(
        data,
        slot_ranges(data.slots@, date, zone_of(data)),
        auction_ranges(data.rtb_slots@, date, zone_of(data)),
        now,
    )
}

/// Whether every slot of a schedule ends less than an `i64` after it starts, on a date.
pub open spec fn slots_fit_on(data: PlaybackDataDto, date: i32) -> bool {
    &&& ranges_fit(slot_ranges(data.slots@, date, zone_of(data)))
    &&& ranges_fit(auction_ranges(data.rtb_slots@, date, zone_of(data)))
}

fn resolve_slot_ranges(slots: &Vec<PlaybackSlotDto>, date: i32, zone: &str) -> (r: Vec<(i64, i64)>)
    ensures
        r@ == slot_ranges(slots@, date, zone@),
        ranges_fit(r@),
{
    let mut ranges: Vec<(i64, i64)> = Vec::new();
    let mut i: usize = 0;
    while i < slots.len()
        invariant
            i <= slots@.len(),
            ranges@.len() == i,
            forall|j: int| 0 <= j < i ==> #[trigger] ranges@[j] == slot_ranges(slots@, date, zone@)[j],
            ranges_fit(ranges@),
        decreases slots@.len() - i,
    {
        let range: (i64, i64) = time_range(
            slots[i].start_time.as_str(),
            slots[i].end_time.as_str(),
            date,
            zone,
            true,
        );
        ranges.push(range);
        i = i + 1;
    }
    ranges
}

fn resolve_auction_ranges(slots: &Vec<RtbSlotDto>, date: i32, zone: &str) -> (r: Vec<(i64, i64)>)
    ensures
        r@ == auction_ranges(slots@, date, zone@),
        ranges_fit(r@),
{
    let mut ranges: Vec<(i64, i64)> = Vec::new();
    let mut i: usize = 0;
    while i < slots.len()
        invariant
            i <= slots@.len(),
            ranges@.len() == i,
            forall|j: int|
                0 <= j < i ==> #[trigger] ranges@[j] == auction_ranges(slots@, date, zone@)[j],
            ranges_fit(ranges@),
        decreases slots@.len() - i,
    {
        let range: (i64, i64) = time_range(
            slots[i].start_time.as_str(),
            slots[i].end_time.as_str(),
            date,
            zone,
            false,
        );
        ranges.push(range);
        i = i + 1;
    }
    ranges
}

fn build_baseline(data: &PlaybackDataDto, ranges: &Vec<(i64, i64)>, now_millis: i64) -> (r: Vec<
    PlaybackScene,
>)
    requires
        schedule_fits(*data),
        ranges@.len() == data.slots@.len(),
        ranges_fit(ranges@),
        window_fits(now_millis as int),
    ensures
        scene_views(r@) == baseline_of(*data, ranges@, now_millis as int),
{
    let layout_cache: LayoutCache = LayoutCache::of_slots(&data.slots);
    let mut scenes: Vec<PlaybackScene> = Vec::new();
    let mut i: usize = 0;
    assert(scene_views(scenes@) =~= Seq::empty());
    while i < data.slots.len()
        invariant
            i <= data.slots@.len(),
            schedule_fits(*data),
            ranges@.len() == data.slots@.len(),
            ranges_fit(ranges@),
            window_fits(now_millis as int),
            layout_cache.holds(layouts_of_slots(data.slots@)),
            scene_views(scenes@) == scenes_of_slots(
                *data,
                ranges@,
                now_millis as int,
                i as int,
            ),
        decreases data.slots@.len() - i,
    {
        let range: (i64, i64) = ranges[i];
        assert(slot_fits(data.slots@[i as int]));
        assert(ranges@[i as int].1 - ranges@[i as int].0 <= i64::MAX);
        let mut more: Vec<PlaybackScene> = build_slot_scenes(
            data,
            &layout_cache,
            &data.slots[i],
            range.0,
            range.1,
            now_millis,
        );
        assert(scene_views(scenes@ + more@) =~= scene_views(scenes@) + scene_views(more@));
        scenes.append(&mut more);
        i = i + 1;
    }
    sort_by_start(scenes)
}

fn sort_timeline(scenes: Vec<PlaybackScene>) -> (r: Vec<PlaybackScene>)
    ensures
        scene_views(r@) == in_timeline_order(scene_views(scenes@)),
{
    let mut keys: Vec<SortKey> = Vec::new();
    let mut i: usize = 0;
    while i < scenes.len()
        invariant
            i <= scenes@.len(),
            keys@.len() == i,
            forall|j: int|
                0 <= j < i ==> #[trigger] keys@[j] == timeline_keys(scene_views(scenes@))[j],
        decreases scenes@.len() - i,
    {
        keys.push(
            (scenes[i].start_time_millis, scenes[i].end_time_millis, scenes[i].schedule_id),
        );
        i = i + 1;
    }
    proof {
        assert(keys@ =~= timeline_keys(scene_views(scenes@)));
        sorted_scene_views(scenes@, keys@);
    }
    stable_sort(scenes, &keys)
}

impl TimelineBuilder {
    /// Whether a timeline can be built: the times that it adds up are numbers that can be held.
    pub fn can_build(data: &PlaybackDataDto, now_millis: i64) -> (r: bool)
        ensures
            r == (schedule_fits(*data) && window_fits(now_millis as int)),
    {
        if now_millis < i64::MIN + TIMELINE_PAST_WINDOW_MS || now_millis > i64::MAX
            - TIMELINE_FUTURE_WINDOW_MS {
            return false;
        }
        let mut i: usize = 0;
        while i < data.slots.len()
            invariant
                i <= data.slots@.len(),
                forall|j: int| 0 <= j < i ==> slot_fits(#[trigger] data.slots@[j]),
            decreases data.slots@.len() - i,
        {
            if !slot_has_room(&data.slots[i]) {
                assert(!slot_fits(data.slots@[i as int]));
                return false;
            }
            i = i + 1;
        }
        let mut k: usize = 0;
        while k < data.rtb_slots.len()
            invariant
                k <= data.rtb_slots@.len(),
                forall|j: int| 0 <= j < k ==> auction_fits(#[trigger] data.rtb_slots@[j]),
            decreases data.rtb_slots@.len() - k,
        {
            if !auction_has_room(&data.rtb_slots[k]) {
                assert(!auction_fits(data.rtb_slots@[k as int]));
                return false;
            }
            k = k + 1;
        }
        true
    }

    /// Builds the timeline of a schedule whose slots run where `ranges` says, and its auctioned
    /// slots where `rtb_ranges` says.
    pub fn build_between(
        data: &PlaybackDataDto,
        ranges: &Vec<(i64, i64)>,
        rtb_ranges: &Vec<(i64, i64)>,
        now_millis: i64,
    ) -> (r: PlaybackTimeline)
        requires
            schedule_fits(*data),
            window_fits(now_millis as int),
            ranges@.len() == data.slots@.len(),
            rtb_ranges@.len() == data.rtb_slots@.len(),
            ranges_fit(ranges@),
            ranges_fit(rtb_ranges@),
        ensures
            r@ == timeline_between(*data, ranges@, rtb_ranges@, now_millis as int),
            r.device_id@ == data.device_id@,
            r.date@ == data.date@,
            r.revision@ == data.revision@,
    {
        let baseline: Vec<PlaybackScene> = build_baseline(data, ranges, now_millis);
        let auctioned: Vec<PlaybackScene> = build_rtb_scenes(
            data,
            rtb_ranges,
            &baseline,
            now_millis,
        );
        let scenes: Vec<PlaybackScene> = overlay_rtb_scenes(&baseline, auctioned);
        PlaybackTimeline {
            device_id: data.device_id.clone(),
            date: data.date.clone(),
            revision: data.revision.clone(),
            server_time: data.server_time.clone(),
            generated_at: data.generated_at.clone(),
            timezone: match &data.timezone {
                Some(zone) => zone.clone(),
                None => DEFAULT_ZONE_ID.to_owned(),
            },
            scenes: sort_timeline(scenes),
        }
    }

    /// Builds the timeline of a schedule for a date.
    pub fn build_on(data: &PlaybackDataDto, date: i32, now_millis: i64) -> (r: PlaybackTimeline)
        requires
            schedule_fits(*data),
            window_fits(now_millis as int),
        ensures
            r@ == timeline_on(*data, date, now_millis as int),
            slots_fit_on(*data, date),
    {
        let zone: String = resolve_timezone(data);
        let ranges: Vec<(i64, i64)> = resolve_slot_ranges(&data.slots, date, zone.as_str());
        let rtb_ranges: Vec<(i64, i64)> = resolve_auction_ranges(
            &data.rtb_slots,
            date,
            zone.as_str(),
        );
        Self::build_between(data, &ranges, &rtb_ranges, now_millis)
    }

    /// Builds the timeline of a schedule for its date, or for today where its date cannot be read.
    /// Items that take turns are written out around `now_millis` alone.
    pub fn build(data: &PlaybackDataDto, now_millis: i64) -> (r: PlaybackTimeline)
        requires
            schedule_fits(*data),
            window_fits(now_millis as int),
        ensures
            match date_of(data.date@, DATE_FORMAT@) {
                Some(date) => {
                    &&& r@ == timeline_on(*data, date, now_millis as int)
                    &&& slots_fit_on(*data, date)
                },
                None => exists|date: i32|
                    {
                        &&& is_today(date)
                        &&& r@ == #[trigger] timeline_on(*data, date, now_millis as int)
                        &&& slots_fit_on(*data, date)
                    },
            },
    {
        let date: i32 = resolve_date(data);
        Self::build_on(data, date, now_millis)
    }
}

proof fn lemma_scenes_of_slots(
    data: PlaybackDataDto,
    ranges: Seq<(i64, i64)>,
    now: int,
    n: int,
    scene: SceneView,
)
    ensures
        scenes_of_slots(data, ranges, now, n).contains(scene) <==> exists|s: int|
            0 <= s < n && #[trigger] scenes_of_slot(
                data,
                data.slots@[s],
                ranges[s].0 as int,
                ranges[s].1 as int,
                now,
            ).contains(scene),
    decreases n,
{
    if n > 0 {
        let before = scenes_of_slots(data, ranges, now, n - 1);
        let more = scenes_of_slot(
            data,
            data.slots@[n - 1],
            ranges[n - 1].0 as int,
            ranges[n - 1].1 as int,
            now,
        );
        let all = scenes_of_slots(data, ranges, now, n);
        lemma_scenes_of_slots(data, ranges, now, n - 1, scene);
        if before.contains(scene) {
            let i = choose|i: int| 0 <= i < before.len() && before[i] == scene;
            assert(all[i] == scene);
        }
        if more.contains(scene) {
            let i = choose|i: int| 0 <= i < more.len() && more[i] == scene;
            assert(all[before.len() + i] == scene);
        }
        if all.contains(scene) {
            let i = choose|i: int| 0 <= i < all.len() && all[i] == scene;
            if i < before.len() {
                assert(before[i] == scene);
            } else {
                assert(more[i - before.len()] == scene);
            }
        }
        if exists|s: int|
            0 <= s < n && #[trigger] scenes_of_slot(
                data,
                data.slots@[s],
                ranges[s].0 as int,
                ranges[s].1 as int,
                now,
            ).contains(scene) {
            let s = choose|s: int|
                0 <= s < n && #[trigger] scenes_of_slot(
                    data,
                    data.slots@[s],
                    ranges[s].0 as int,
                    ranges[s].1 as int,
                    now,
                ).contains(scene);
            if s == n - 1 {
                assert(more.contains(scene));
            }
        }
    }
}

/// The schedule's own scenes are those of its slots, each slot over the time that it runs: all of
/// them and no others.
pub proof fn every_slot_is_played(
    data: PlaybackDataDto,
    ranges: Seq<(i64, i64)>,
    now: int,
    scene: SceneView,
)
    ensures
        baseline_of(data, ranges, now).contains(scene) <==> exists|s: int|
            0 <= s < data.slots@.len() && #[trigger] scenes_of_slot(
                data,
                data.slots@[s],
                ranges[s].0 as int,
                ranges[s].1 as int,
                now,
            ).contains(scene),
{
    let own = scenes_of_slots(data, ranges, now, data.slots@.len() as int);
    lemma_scenes_of_slots(data, ranges, now, data.slots@.len() as int, scene);
    let keys = super::overlay::by_start(own);
    let out = baseline_of(data, ranges, now);
    let order = stable_order(keys);
    stable_order_is_stable(keys);
    if own.contains(scene) {
        let i = choose|i: int| 0 <= i < own.len() && own[i] == scene;
        assert(order.contains(i));
        let j = choose|j: int| 0 <= j < order.len() && order[j] == i;
        assert(out[j] == scene);
    }
    if out.contains(scene) {
        let j = choose|j: int| 0 <= j < out.len() && out[j] == scene;
        assert(0 <= order[j] < own.len());
        assert(own[order[j]] == scene);
    }
}

/// A slot of the schedule runs from its start through the second of its end, an auctioned one up to
/// its end, both on the date and in the zone of the schedule.
pub proof fn slots_run_at_their_times(data: PlaybackDataDto, date: i32, zone: Seq<char>)
    ensures
        slot_ranges(data.slots@, date, zone).len() == data.slots@.len(),
        forall|i: int|
            0 <= i < data.slots@.len() ==> {
                let slot = data.slots@[i];
                let range = #[trigger] slot_ranges(data.slots@, date, zone)[i];
                instant_of(slot.start_time@, date, zone) matches Some(start) ==> (instant_of(
                    slot.end_time@,
                    date,
                    zone,
                ) matches Some(end) ==> {
                    &&& range.0 == start
                    &&& start < end + 1_000 <= i64::MAX ==> range.1 == end + 1_000
                    &&& end + 1_000 <= start && end + 1_000 + 86_400_000 <= i64::MAX ==> range.1
                        == end + 1_000 + 86_400_000
                })
            },
        auction_ranges(data.rtb_slots@, date, zone).len() == data.rtb_slots@.len(),
        forall|i: int|
            0 <= i < data.rtb_slots@.len() ==> {
                let slot = data.rtb_slots@[i];
                let range = #[trigger] auction_ranges(data.rtb_slots@, date, zone)[i];
                instant_of(slot.start_time@, date, zone) matches Some(start) ==> (instant_of(
                    slot.end_time@,
                    date,
                    zone,
                ) matches Some(end) ==> {
                    &&& range.0 == start
                    &&& start < end ==> range.1 == end
                    &&& end <= start && end + 86_400_000 <= i64::MAX ==> range.1 == end + 86_400_000
                })
            },
{
}

/// A timeline names the device, the date, the revision, the times and the zone that its schedule
/// does; where that names no zone, it is that of Seoul.
pub proof fn timelines_name_their_schedule(data: PlaybackDataDto, date: i32, now: int)
    ensures
        ({
            let timeline = timeline_on(data, date, now);
            &&& timeline.device_id == data.device_id@
            &&& timeline.date == data.date@
            &&& timeline.revision == data.revision@
            &&& match data.server_time {
                Some(text) => timeline.server_time == Some(text@),
                None => timeline.server_time is None,
            }
            &&& match data.generated_at {
                Some(text) => timeline.generated_at == Some(text@),
                None => timeline.generated_at is None,
            }
            &&& match data.timezone {
                Some(text) => timeline.timezone == text@,
                None => timeline.timezone == "Asia/Seoul"@,
            }
            &&& timeline.scenes == timeline_scenes(
                data,
                slot_ranges(data.slots@, date, zone_of(data)),
                auction_ranges(data.rtb_slots@, date, zone_of(data)),
                now,
            )
        }),
{
}

} // verus!
