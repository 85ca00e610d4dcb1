//! What holds of every timeline.

use vstd::prelude::*;

use super::auction::{
    auction_between, auction_fits, auctioned_scenes_are_in_order, is_on_but_fallback, one_by_one,
    rebuilding_keeps_auctions, start_keys,
};
use super::builder::{
    baseline_of, in_timeline_order, ranges_fit, schedule_fits, scenes_of_slots, timeline_keys,
    timeline_scenes,
};
use super::models::SceneView;
use super::overlay::{
    apart, auctioned_scenes_take_precedence, by_start, covered, in_start_order, is_on, lasting,
    on_screen, overlaid, overlay_keeps_scenes_apart, remains, same_content, shown,
    sorting_keeps_scenes,
};
use super::slots::{
    in_window, rebuilding_keeps_the_slot, scenes_of_slot, slot_fits, slot_is_in_order,
};
use crate::cms::PlaybackDataDto;
use crate::sort::{
    arranged, key_lt, precedes, sorted_by_keys, sorting_permutes, stable_order,
    stable_order_is_stable, SortKey,
};

verus! {

/// Whether scenes come in order of start, then end, then schedule.
pub open spec fn in_order(scenes: Seq<SceneView>) -> bool {
    forall|i: int, j: int|
        0 <= i < j < scenes.len() ==> {
            let a = #[trigger] scenes[i];
            let b = #[trigger] scenes[j];
            !key_lt((b.start, b.end, b.schedule_id), (a.start, a.end, a.schedule_id))
        }
}

/// Putting scenes in the order of a timeline neither adds nor drops any.
pub proof fn timeline_order_is_sorted(scenes: Seq<SceneView>)
    ensures
        in_order(in_timeline_order(scenes)),
        in_timeline_order(scenes).to_multiset() == scenes.to_multiset(),
{
    let keys = timeline_keys(scenes);
    let order = stable_order(keys);
    stable_order_is_stable(keys);
    sorting_permutes(scenes, keys);
    let out = in_timeline_order(scenes);
    assert forall|i: int, j: int| 0 <= i < j < out.len() implies {
        let a = #[trigger] out[i];
        let b = #[trigger] out[j];
        !key_lt((b.start, b.end, b.schedule_id), (a.start, a.end, a.schedule_id))
    } by {
        assert(0 <= order[i] < scenes.len() && 0 <= order[j] < scenes.len());
        assert(precedes(keys, order[i], order[j]));
    }
}

/// The scenes of a timeline come in order of start, then end, then schedule.
pub proof fn timeline_is_sorted(
    data: PlaybackDataDto,
    ranges: Seq<(i64, i64)>,
    auction_ranges: Seq<(i64, i64)>,
    now: int,
)
    ensures
        in_order(timeline_scenes(data, ranges, auction_ranges, now)),
{
    let baseline = baseline_of(data, ranges, now);
    timeline_order_is_sorted(
        overlaid(baseline, auction_between(data, auction_ranges, baseline, now)),
    );
}

proof fn lemma_auction_in_order(
    data: PlaybackDataDto,
    auction_ranges: Seq<(i64, i64)>,
    baseline: Seq<SceneView>,
    now: int,
)
    requires
        schedule_fits(data),
        auction_ranges.len() == data.rtb_slots@.len(),
        ranges_fit(auction_ranges),
    ensures
        lasting(auction_between(data, auction_ranges, baseline, now)),
        apart(auction_between(data, auction_ranges, baseline, now)),
{
    let keys = start_keys(auction_ranges);
    let order = stable_order(keys);
    stable_order_is_stable(keys);
    let slots = arranged(data.rtb_slots@, order);
    let ranges = arranged(auction_ranges, order);
    assert forall|i: int| 0 <= i < slots.len() implies auction_fits(#[trigger] slots[i]) by {
        assert(0 <= order[i] < data.rtb_slots@.len());
        assert(auction_fits(data.rtb_slots@[order[i]]));
    }
    assert forall|i: int| 0 <= i < ranges.len() implies (#[trigger] ranges[i]).1 - ranges[i].0
        <= i64::MAX by {
        assert(0 <= order[i] < auction_ranges.len());
        assert(auction_ranges[order[i]].1 - auction_ranges[order[i]].0 <= i64::MAX);
    }
    auctioned_scenes_are_in_order(data, slots, ranges, baseline, now);
    let out = auction_between(data, auction_ranges, baseline, now);
    assert(one_by_one(out));
    assert forall|i: int, j: int|
        0 <= i < out.len() && 0 <= j < out.len() && i != j implies (#[trigger] out[i]).end <= (
    #[trigger] out[j]).start || out[j].end <= out[i].start by {
        if i < j {
            assert(out[i].end <= out[j].start);
        } else {
            assert(out[j].end <= out[i].start);
        }
    }
}

/// Whether no two slots run at the same time.
pub open spec fn disjoint(ranges: Seq<(i64, i64)>) -> bool {
    forall|i: int, j: int|
        0 <= i < j < ranges.len() ==> (#[trigger] ranges[i]).1 <= (#[trigger] ranges[j]).0
            || ranges[j].1 <= ranges[i].0
}

/// Whether every slot with one item ends after it starts.
pub open spec fn slots_last(data: PlaybackDataDto, ranges: Seq<(i64, i64)>) -> bool {
    forall|i: int|
        0 <= i < ranges.len() && data.slots@[i].items@.len() == 1 ==> (#[trigger] ranges[i]).0
            < ranges[i].1
}

spec fn in_a_range(scene: SceneView, ranges: Seq<(i64, i64)>, n: int) -> bool {
    exists|i: int|
        0 <= i < n && (#[trigger] ranges[i]).0 <= scene.start && scene.end <= ranges[i].1
}

proof fn lemma_slots_apart(data: PlaybackDataDto, ranges: Seq<(i64, i64)>, now: int, n: int)
    requires
        schedule_fits(data),
        ranges.len() == data.slots@.len(),
        ranges_fit(ranges),
        slots_last(data, ranges),
        disjoint(ranges),
        0 <= n <= ranges.len(),
    ensures
        ({
            let scenes = scenes_of_slots(data, ranges, now, n);
            &&& lasting(scenes)
            &&& apart(scenes)
            &&& forall|i: int|
                0 <= i < scenes.len() ==> in_a_range(#[trigger] scenes[i], ranges, n)
        }),
    decreases n,
{
    if n > 0 {
        lemma_slots_apart(data, ranges, now, n - 1);
        let range = ranges[n - 1];
        assert(slot_fits(data.slots@[n - 1]));
        slot_is_in_order(data, data.slots@[n - 1], range.0, range.1, now);
        let before = scenes_of_slots(data, ranges, now, n - 1);
        let more = scenes_of_slot(data, data.slots@[n - 1], range.0 as int, range.1 as int, now);
        let all = scenes_of_slots(data, ranges, now, n);
        assert forall|i: int| 0 <= i < all.len() implies in_a_range(#[trigger] all[i], ranges, n)
            && all[i].start < all[i].end by {
            if i < before.len() {
                assert(all[i] == before[i]);
                assert(in_a_range(before[i], ranges, n - 1));
            } else {
                assert(all[i] == more[i - before.len()]);
                assert(ranges[n - 1].0 <= all[i].start && all[i].end <= ranges[n - 1].1);
            }
        }
        assert forall|i: int, j: int|
            0 <= i < all.len() && 0 <= j < all.len() && i != j implies (#[trigger] all[i]).end <= (
        #[trigger] all[j]).start || all[j].end <= all[i].start by {
            if i < before.len() && j < before.len() {
                assert(all[i] == before[i] && all[j] == before[j]);
            } else if i >= before.len() && j >= before.len() {
                assert(all[i] == more[i - before.len()] && all[j] == more[j - before.len()]);
            } else {
                let (old_one, new_one) = if i < before.len() {
                    (before[i], more[j - before.len()])
                } else {
                    (before[j], more[i - before.len()])
                };
                assert(in_a_range(old_one, ranges, n - 1));
                let k = choose|k: int|
                    0 <= k < n - 1 && (#[trigger] ranges[k]).0 <= old_one.start && old_one.end
                        <= ranges[k].1;
                assert(ranges[k].1 <= ranges[n - 1].0 || ranges[n - 1].1 <= ranges[k].0);
            }
        }
    }
}

/// Where no two of the schedule's own slots run at the same time, and those with one item, which take
/// the whole slot, last, no two scenes of the timeline are on at the same time: each ends before the
/// next one starts.
pub proof fn timeline_scenes_do_not_overlap(
    data: PlaybackDataDto,
    ranges: Seq<(i64, i64)>,
    auction_ranges: Seq<(i64, i64)>,
    now: int,
)
    requires
        schedule_fits(data),
        ranges.len() == data.slots@.len(),
        auction_ranges.len() == data.rtb_slots@.len(),
        ranges_fit(ranges),
        ranges_fit(auction_ranges),
        slots_last(data, ranges),
        disjoint(ranges),
    ensures
        one_by_one(timeline_scenes(data, ranges, auction_ranges, now)),
{
    let own = scenes_of_slots(data, ranges, now, data.slots@.len() as int);
    lemma_slots_apart(data, ranges, now, data.slots@.len() as int);
    sorting_keeps_scenes(own, by_start(own));
    let baseline = baseline_of(data, ranges, now);
    let auctioned = auction_between(data, auction_ranges, baseline, now);
    lemma_auction_in_order(data, auction_ranges, baseline, now);
    overlay_keeps_scenes_apart(baseline, auctioned);
    let both = overlaid(baseline, auctioned);
    sorting_keeps_scenes(both, timeline_keys(both));
    timeline_order_is_sorted(both);
    let out = timeline_scenes(data, ranges, auction_ranges, now);
    assert forall|i: int, j: int| 0 <= i < j < out.len() implies (#[trigger] out[i]).end <= (
    #[trigger] out[j]).start by {
        assert(out[i].end <= out[j].start || out[j].end <= out[i].start);
        assert(out[i].start <= out[j].start);
        assert(out[i].start < out[i].end && out[j].start < out[j].end);
    }
}

/// At every time the timeline shows what an auction sold, where it sold that time, and what the
/// schedule's own slots say, at their own time, where it did not.
pub proof fn timeline_shows_auctions_over_schedule(
    data: PlaybackDataDto,
    ranges: Seq<(i64, i64)>,
    auction_ranges: Seq<(i64, i64)>,
    now: int,
    time: int,
    like: SceneView,
)
    requires
        schedule_fits(data),
        auction_ranges.len() == data.rtb_slots@.len(),
        ranges_fit(auction_ranges),
    ensures
        ({
            let baseline = baseline_of(data, ranges, now);
            let auctioned = auction_between(data, auction_ranges, baseline, now);
            shown(timeline_scenes(data, ranges, auction_ranges, now), time, like) <==> if covered(
                auctioned,
                time,
            ) {
                shown(auctioned, time, like)
            } else {
                shown(baseline, time, like)
            }
        }),
{
    let baseline = baseline_of(data, ranges, now);
    let auctioned = auction_between(data, auction_ranges, baseline, now);
    lemma_auction_in_order(data, auction_ranges, baseline, now);
    auctioned_scenes_take_precedence(baseline, auctioned, time, like);
    let both = overlaid(baseline, auctioned);
    sorting_keeps_scenes(both, timeline_keys(both));
    assert(shown(both, time, like) <==> shown(in_timeline_order(both), time, like));
}

/// A schedule without auctioned slots shows its own slots alone.
pub proof fn without_auctions_the_schedule_stands(
    data: PlaybackDataDto,
    ranges: Seq<(i64, i64)>,
    now: int,
)
    requires
        data.rtb_slots@.len() == 0,
    ensures
        timeline_scenes(data, ranges, Seq::empty(), now) == in_timeline_order(
            baseline_of(data, ranges, now),
        ),
{
    let keys = start_keys(Seq::empty());
    stable_order_is_stable(keys);
    assert(arranged(data.rtb_slots@, stable_order(keys)).len() == 0);
}

proof fn lemma_sorting_keeps_on(scenes: Seq<SceneView>, keys: Seq<SortKey>, time: int)
    requires
        scenes.len() == keys.len(),
    ensures
        forall|scene: SceneView|
            #[trigger] is_on(sorted_by_keys(scenes, keys), time, scene) <==> is_on(
                scenes,
                time,
                scene,
            ),
{
    stable_order_is_stable(keys);
    let order = stable_order(keys);
    let out = sorted_by_keys(scenes, keys);
    assert forall|scene: SceneView| #[trigger] is_on(out, time, scene) <==> is_on(
        scenes,
        time,
        scene,
    ) by {
        if out.contains(scene) {
            let j = choose|j: int| 0 <= j < out.len() && out[j] == scene;
            assert(0 <= order[j] < scenes.len());
            assert(scenes[order[j]] == scene);
        }
        if scenes.contains(scene) {
            let i = choose|i: int| 0 <= i < scenes.len() && scenes[i] == scene;
            assert(order.contains(i));
            let j = choose|j: int| 0 <= j < order.len() && order[j] == i;
            assert(out[j] == scene);
        }
    }
}

proof fn lemma_on_either(a: Seq<SceneView>, b: Seq<SceneView>, time: int, scene: SceneView)
    ensures
        is_on(a + b, time, scene) <==> is_on(a, time, scene) || is_on(b, time, scene),
{
    let c = a + b;
    if a.contains(scene) {
        let i = choose|i: int| 0 <= i < a.len() && a[i] == scene;
        assert(c[i] == scene);
    }
    if b.contains(scene) {
        let i = choose|i: int| 0 <= i < b.len() && b[i] == scene;
        assert(c[a.len() + i] == scene);
    }
    if c.contains(scene) {
        let i = choose|i: int| 0 <= i < c.len() && c[i] == scene;
        if i < a.len() {
            assert(a[i] == scene);
        } else {
            assert(b[i - a.len()] == scene);
        }
    }
}

proof fn lemma_slots_rebuilt(
    data: PlaybackDataDto,
    ranges: Seq<(i64, i64)>,
    now: int,
    later: int,
    time: int,
    n: int,
)
    requires
        schedule_fits(data),
        ranges.len() == data.slots@.len(),
        ranges_fit(ranges),
        in_window(now, time),
        in_window(later, time),
        0 <= n <= ranges.len(),
    ensures
        forall|scene: SceneView|
            #[trigger] is_on(scenes_of_slots(data, ranges, now, n), time, scene) <==> is_on(
                scenes_of_slots(data, ranges, later, n),
                time,
                scene,
            ),
    decreases n,
{
    if n > 0 {
        let slot = data.slots@[n - 1];
        let range = ranges[n - 1];
        let from = range.0 as int;
        let to = range.1 as int;
        assert(slot_fits(slot));
        lemma_slots_rebuilt(data, ranges, now, later, time, n - 1);
        rebuilding_keeps_the_slot(data, slot, range.0, range.1, now, later, time);
        assert forall|scene: SceneView|
            #[trigger] is_on(scenes_of_slots(data, ranges, now, n), time, scene) <==> is_on(
                scenes_of_slots(data, ranges, later, n),
                time,
                scene,
            ) by {
            lemma_on_either(
                scenes_of_slots(data, ranges, now, n - 1),
                scenes_of_slot(data, slot, from, to, now),
                time,
                scene,
            );
            lemma_on_either(
                scenes_of_slots(data, ranges, later, n - 1),
                scenes_of_slot(data, slot, from, to, later),
                time,
                scene,
            );
            assert(is_on(scenes_of_slots(data, ranges, now, n - 1), time, scene) <==> is_on(
                scenes_of_slots(data, ranges, later, n - 1),
                time,
                scene,
            ));
            assert(is_on(scenes_of_slot(data, slot, from, to, now), time, scene) <==> is_on(
                scenes_of_slot(data, slot, from, to, later),
                time,
                scene,
            ));
        }
    }
}

proof fn lemma_baseline_rebuilt(
    data: PlaybackDataDto,
    ranges: Seq<(i64, i64)>,
    now: int,
    later: int,
    time: int,
)
    requires
        schedule_fits(data),
        ranges.len() == data.slots@.len(),
        ranges_fit(ranges),
        in_window(now, time),
        in_window(later, time),
    ensures
        forall|scene: SceneView|
            #[trigger] is_on(baseline_of(data, ranges, now), time, scene) <==> is_on(
                baseline_of(data, ranges, later),
                time,
                scene,
            ),
{
    let n = data.slots@.len() as int;
    let before = scenes_of_slots(data, ranges, now, n);
    let after = scenes_of_slots(data, ranges, later, n);
    lemma_slots_rebuilt(data, ranges, now, later, time, n);
    lemma_sorting_keeps_on(before, by_start(before), time);
    lemma_sorting_keeps_on(after, by_start(after), time);
    assert forall|scene: SceneView|
        #[trigger] is_on(baseline_of(data, ranges, now), time, scene) <==> is_on(
            baseline_of(data, ranges, later),
            time,
            scene,
        ) by {
        assert(is_on(baseline_of(data, ranges, now), time, scene) <==> is_on(before, time, scene));
        assert(is_on(before, time, scene) <==> is_on(after, time, scene));
        assert(is_on(baseline_of(data, ranges, later), time, scene) <==> is_on(after, time, scene));
    }
}

proof fn lemma_slot_of_scene(
    data: PlaybackDataDto,
    ranges: Seq<(i64, i64)>,
    now: int,
    n: int,
    time: int,
    scene: SceneView,
) -> (k: int)
    requires
        schedule_fits(data),
        ranges.len() == data.slots@.len(),
        ranges_fit(ranges),
        0 <= n <= ranges.len(),
        is_on(scenes_of_slots(data, ranges, now, n), time, scene),
    ensures
        0 <= k < n,
        ranges[k].0 <= time < ranges[k].1,
        is_on(
            scenes_of_slot(data, data.slots@[k], ranges[k].0 as int, ranges[k].1 as int, now),
            time,
            scene,
        ),
    decreases n,
{
    let range = ranges[n - 1];
    let before = scenes_of_slots(data, ranges, now, n - 1);
    let more = scenes_of_slot(data, data.slots@[n - 1], range.0 as int, range.1 as int, now);
    lemma_on_either(before, more, time, scene);
    if is_on(before, time, scene) {
        lemma_slot_of_scene(data, ranges, now, n - 1, time, scene)
    } else {
        assert(slot_fits(data.slots@[n - 1]));
        if range.0 < range.1 {
            slot_is_in_order(data, data.slots@[n - 1], range.0, range.1, now);
        }
        let i = choose|i: int| 0 <= i < more.len() && more[i] == scene;
        assert(range.0 <= more[i].start && more[i].end <= range.1);
        n - 1
    }
}

proof fn lemma_one_at_a_time(
    data: PlaybackDataDto,
    ranges: Seq<(i64, i64)>,
    now: int,
    time: int,
    one: SceneView,
    other: SceneView,
)
    requires
        schedule_fits(data),
        ranges.len() == data.slots@.len(),
        ranges_fit(ranges),
        disjoint(ranges),
        is_on(baseline_of(data, ranges, now), time, one),
        is_on(baseline_of(data, ranges, now), time, other),
    ensures
        one == other,
{
    let n = data.slots@.len() as int;
    let own = scenes_of_slots(data, ranges, now, n);
    lemma_sorting_keeps_on(own, by_start(own), time);
    let a = lemma_slot_of_scene(data, ranges, now, n, time, one);
    let b = lemma_slot_of_scene(data, ranges, now, n, time, other);
    if a < b {
        assert(ranges[a].1 <= ranges[b].0 || ranges[b].1 <= ranges[a].0);
    } else if b < a {
        assert(ranges[b].1 <= ranges[a].0 || ranges[a].1 <= ranges[b].0);
    }
    let range = ranges[a];
    assert(slot_fits(data.slots@[a]));
    slot_is_in_order(data, data.slots@[a], range.0, range.1, now);
    let scenes = scenes_of_slot(data, data.slots@[a], range.0 as int, range.1 as int, now);
    let i = choose|i: int| 0 <= i < scenes.len() && scenes[i] == one;
    let j = choose|j: int| 0 <= j < scenes.len() && scenes[j] == other;
    if i != j {
        assert(scenes[i].end <= scenes[j].start || scenes[j].end <= scenes[i].start);
    }
}

/// At a time that the windows of two builds of a schedule without auctioned slots both hold, both
/// timelines have the same scenes on, equal in everything, their identity included. Where no two
/// slots run at the same time, that is the same one scene, or none in both. Building anew neither
/// shifts whose turn it is nor renames a scene.
pub proof fn rebuilding_keeps_the_timeline(
    data: PlaybackDataDto,
    ranges: Seq<(i64, i64)>,
    auction_ranges: Seq<(i64, i64)>,
    now: int,
    later: int,
    time: int,
)
    requires
        schedule_fits(data),
        data.rtb_slots@.len() == 0,
        auction_ranges.len() == 0,
        ranges.len() == data.slots@.len(),
        ranges_fit(ranges),
        in_window(now, time),
        in_window(later, time),
    ensures
        ({
            let before = timeline_scenes(data, ranges, auction_ranges, now);
            let after = timeline_scenes(data, ranges, auction_ranges, later);
            &&& covered(before, time) <==> covered(after, time)
            &&& forall|scene: SceneView|
                #[trigger] is_on(before, time, scene) <==> is_on(after, time, scene)
            &&& disjoint(ranges) ==> forall|i: int, j: int|
                0 <= i < before.len() && 0 <= j < after.len() && on_screen(
                    #[trigger] before[i],
                    time,
                ) && on_screen(#[trigger] after[j], time) ==> before[i] == after[j]
        }),
{
    let one = baseline_of(data, ranges, now);
    let other = baseline_of(data, ranges, later);
    let before = timeline_scenes(data, ranges, auction_ranges, now);
    let after = timeline_scenes(data, ranges, auction_ranges, later);
    assert(auction_ranges =~= Seq::empty());
    without_auctions_the_schedule_stands(data, ranges, now);
    without_auctions_the_schedule_stands(data, ranges, later);
    lemma_baseline_rebuilt(data, ranges, now, later, time);
    lemma_sorting_keeps_on(one, timeline_keys(one), time);
    lemma_sorting_keeps_on(other, timeline_keys(other), time);
    assert forall|scene: SceneView| #[trigger] is_on(before, time, scene) <==> is_on(
        after,
        time,
        scene,
    ) by {
        assert(is_on(before, time, scene) <==> is_on(one, time, scene));
        assert(is_on(one, time, scene) <==> is_on(other, time, scene));
        assert(is_on(after, time, scene) <==> is_on(other, time, scene));
    }
    if covered(before, time) {
        let i = choose|i: int| 0 <= i < before.len() && on_screen(#[trigger] before[i], time);
        assert(is_on(before, time, before[i]));
        let j = choose|j: int| 0 <= j < after.len() && after[j] == before[i];
        assert(on_screen(after[j], time));
    }
    if covered(after, time) {
        let j = choose|j: int| 0 <= j < after.len() && on_screen(#[trigger] after[j], time);
        assert(is_on(after, time, after[j]));
        assert(is_on(before, time, after[j]));
        let i = choose|i: int| 0 <= i < before.len() && before[i] == after[j];
        assert(on_screen(before[i], time));
    }
    if disjoint(ranges) {
        assert forall|i: int, j: int|
            0 <= i < before.len() && 0 <= j < after.len() && on_screen(#[trigger] before[i], time)
                && on_screen(#[trigger] after[j], time) implies before[i] == after[j] by {
            assert(is_on(before, time, before[i]));
            assert(is_on(after, time, after[j]));
            assert(is_on(before, time, after[j]));
            assert(is_on(one, time, before[i]) && is_on(one, time, after[j]));
            lemma_one_at_a_time(data, ranges, now, time, before[i], after[j]);
        }
    }
}

/// Whether some scene is on at `time` and shows what `like` shows, whatever is shown in its place
/// where it cannot be.
pub open spec fn shows(scenes: Seq<SceneView>, time: int, like: SceneView) -> bool {
    exists|i: int|
        0 <= i < scenes.len() && on_screen(#[trigger] scenes[i], time) && same_content(
            (SceneView { fallback: like.fallback, ..scenes[i] }),
            like,
        )
}

proof fn lemma_still_shows(
    data: PlaybackDataDto,
    ranges: Seq<(i64, i64)>,
    auction_ranges: Seq<(i64, i64)>,
    now: int,
    later: int,
    time: int,
    like: SceneView,
)
    requires
        schedule_fits(data),
        ranges.len() == data.slots@.len(),
        auction_ranges.len() == data.rtb_slots@.len(),
        ranges_fit(ranges),
        ranges_fit(auction_ranges),
        in_window(now, time),
        in_window(later, time),
        shows(timeline_scenes(data, ranges, auction_ranges, now), time, like),
    ensures
        shows(timeline_scenes(data, ranges, auction_ranges, later), time, like),
{
    let one = baseline_of(data, ranges, now);
    let other = baseline_of(data, ranges, later);
    let sold = auction_between(data, auction_ranges, one, now);
    let later_sold = auction_between(data, auction_ranges, other, later);
    let before = timeline_scenes(data, ranges, auction_ranges, now);
    let after = timeline_scenes(data, ranges, auction_ranges, later);
    lemma_baseline_rebuilt(data, ranges, now, later, time);
    assert forall|i: int| 0 <= i < auction_ranges.len() implies (#[trigger] auction_ranges[i]).1
        - auction_ranges[i].0 <= i64::MAX by {}
    rebuilding_keeps_auctions(data, auction_ranges, one, now, other, later, time);
    let i = choose|i: int|
        0 <= i < before.len() && on_screen(#[trigger] before[i], time) && same_content(
            (SceneView { fallback: like.fallback, ..before[i] }),
            like,
        );
    let scene = before[i];
    assert(shown(before, time, scene));
    timeline_shows_auctions_over_schedule(data, ranges, auction_ranges, now, time, scene);
    if covered(sold, time) {
        let j = choose|j: int|
            0 <= j < sold.len() && on_screen(#[trigger] sold[j], time) && same_content(
                sold[j],
                scene,
            );
        assert(is_on_but_fallback(sold, time, sold[j]));
        assert(is_on_but_fallback(later_sold, time, sold[j]));
        let k = choose|k: int|
            0 <= k < later_sold.len() && sold[j] == (SceneView {
                fallback: sold[j].fallback,
                ..#[trigger] later_sold[k]
            });
        let found = later_sold[k];
        assert(on_screen(later_sold[k], time));
        assert(shown(later_sold, time, found));
        timeline_shows_auctions_over_schedule(data, ranges, auction_ranges, later, time, found);
        let m = choose|m: int|
            0 <= m < after.len() && on_screen(#[trigger] after[m], time) && same_content(
                after[m],
                found,
            );
        assert(on_screen(after[m], time));
    } else {
        if covered(later_sold, time) {
            let k = choose|k: int|
                0 <= k < later_sold.len() && on_screen(#[trigger] later_sold[k], time);
            assert(is_on_but_fallback(later_sold, time, later_sold[k]));
            assert(is_on_but_fallback(sold, time, later_sold[k]));
            let j = choose|j: int|
                0 <= j < sold.len() && later_sold[k] == (SceneView {
                    fallback: later_sold[k].fallback,
                    ..#[trigger] sold[j]
                });
            assert(on_screen(sold[j], time));
        }
        let j = choose|j: int|
            0 <= j < one.len() && on_screen(#[trigger] one[j], time) && same_content(
                one[j],
                scene,
            );
        assert(is_on(one, time, one[j]));
        assert(is_on(other, time, one[j]));
        let k = choose|k: int| 0 <= k < other.len() && other[k] == one[j];
        let found = other[k];
        assert(on_screen(other[k], time));
        assert(shown(other, time, found));
        timeline_shows_auctions_over_schedule(data, ranges, auction_ranges, later, time, found);
        let m = choose|m: int|
            0 <= m < after.len() && on_screen(#[trigger] after[m], time) && same_content(
                after[m],
                found,
            );
        assert(on_screen(after[m], time));
    }
}

/// At a time that the windows of two builds of a schedule both hold, both timelines show the same,
/// whatever was sold in auctions, or both show nothing. What was sold keeps its identity too; only
/// what is shown in its place where it cannot be may be another.
pub proof fn rebuilding_keeps_what_is_shown(
    data: PlaybackDataDto,
    ranges: Seq<(i64, i64)>,
    auction_ranges: Seq<(i64, i64)>,
    now: int,
    later: int,
    time: int,
)
    requires
        schedule_fits(data),
        ranges.len() == data.slots@.len(),
        auction_ranges.len() == data.rtb_slots@.len(),
        ranges_fit(ranges),
        ranges_fit(auction_ranges),
        in_window(now, time),
        in_window(later, time),
    ensures
        ({
            let before = timeline_scenes(data, ranges, auction_ranges, now);
            let after = timeline_scenes(data, ranges, auction_ranges, later);
            let sold = auction_between(
                data,
                auction_ranges,
                baseline_of(data, ranges, now),
                now,
            );
            &&& covered(before, time) <==> covered(after, time)
            &&& forall|like: SceneView|
                #[trigger] shows(before, time, like) <==> shows(after, time, like)
            &&& forall|scene: SceneView| #[trigger] is_on_but_fallback(sold, time, scene) ==> {
                &&& is_on_but_fallback(before, time, scene)
                &&& is_on_but_fallback(after, time, scene)
            }
        }),
{
    let one = baseline_of(data, ranges, now);
    let other = baseline_of(data, ranges, later);
    let sold = auction_between(data, auction_ranges, one, now);
    let later_sold = auction_between(data, auction_ranges, other, later);
    let before = timeline_scenes(data, ranges, auction_ranges, now);
    let after = timeline_scenes(data, ranges, auction_ranges, later);
    assert forall|like: SceneView| #[trigger] shows(before, time, like) <==> shows(
        after,
        time,
        like,
    ) by {
        if shows(before, time, like) {
            lemma_still_shows(data, ranges, auction_ranges, now, later, time, like);
        }
        if shows(after, time, like) {
            lemma_still_shows(data, ranges, auction_ranges, later, now, time, like);
        }
    }
    if covered(before, time) {
        let i = choose|i: int| 0 <= i < before.len() && on_screen(#[trigger] before[i], time);
        assert(shows(before, time, before[i]));
        assert(shows(after, time, before[i]));
    }
    if covered(after, time) {
        let j = choose|j: int| 0 <= j < after.len() && on_screen(#[trigger] after[j], time);
        assert(shows(after, time, after[j]));
        assert(shows(before, time, after[j]));
    }
    rebuilding_keeps_auctions(data, auction_ranges, one, now, other, later, time);
    assert forall|scene: SceneView| #[trigger] is_on_but_fallback(sold, time, scene) implies {
        &&& is_on_but_fallback(before, time, scene)
        &&& is_on_but_fallback(after, time, scene)
    } by {
        lemma_sold_is_on(one, sold, time, scene);
        assert(is_on_but_fallback(later_sold, time, scene));
        lemma_sold_is_on(other, later_sold, time, scene);
    }
}

proof fn lemma_sold_is_on(
    baseline: Seq<SceneView>,
    sold: Seq<SceneView>,
    time: int,
    scene: SceneView,
)
    requires
        is_on_but_fallback(sold, time, scene),
    ensures
        is_on_but_fallback(in_timeline_order(overlaid(baseline, sold)), time, scene),
{
    let j = choose|j: int|
        0 <= j < sold.len() && scene == (SceneView {
            fallback: scene.fallback,
            ..#[trigger] sold[j]
        });
    let found = sold[j];
    let overs = in_start_order(sold);
    let left = remains(baseline, overs);
    let both = overlaid(baseline, sold);
    lemma_sorting_keeps_on(sold, by_start(sold), time);
    assert(is_on(sold, time, found));
    assert(is_on(overs, time, found));
    lemma_on_either(left, overs, time, found);
    assert(both == left + overs);
    lemma_sorting_keeps_on(both, timeline_keys(both), time);
    let out = in_timeline_order(both);
    assert(is_on(out, time, found));
    let k = choose|k: int| 0 <= k < out.len() && out[k] == found;
    assert(scene == (SceneView { fallback: scene.fallback, ..out[k] }));
}

/// The scenes of a timeline come by their starts. Of two that start together the one that ends first
/// comes first, and of two that also end together the one of the lower schedule.
pub proof fn scenes_come_by_their_starts(
    data: PlaybackDataDto,
    ranges: Seq<(i64, i64)>,
    auction_ranges: Seq<(i64, i64)>,
    now: int,
    i: int,
    j: int,
)
    requires
        0 <= i < j < timeline_scenes(data, ranges, auction_ranges, now).len(),
    ensures
        ({
            let a = timeline_scenes(data, ranges, auction_ranges, now)[i];
            let b = timeline_scenes(data, ranges, auction_ranges, now)[j];
            &&& a.start <= b.start
            &&& a.start == b.start ==> a.end <= b.end
            &&& a.start == b.start && a.end == b.end ==> a.schedule_id <= b.schedule_id
        }),
{
    timeline_is_sorted(data, ranges, auction_ranges, now);
}
} // verus!
