//! Which auctioned slots are shown, and when their items play.

use vstd::prelude::*;

use super::expand::{
    a_play_is_on, expand_spans, expansion, expansion_covers_window, of_seconds,
    play_of_the_turn, plays_do_not_depend_on_window, plays_follow_one_another, positive, total,
    Span,
};
use super::models::{scene_views, PlaybackScene, SceneView};
use super::overlay::on_screen;
use super::rtb::{build_rtb_scene, item_fault, rtb_scene_of, validate_rtb_item};
use super::slots::{expansion_window, in_window, window_fits, window_of};
use crate::cms::{PlaybackDataDto, RtbItemDto, RtbSlotDto};
use crate::config::ONE_SECOND_MS;
use crate::sort::{
    arranged, precedes, sorted_by_keys, sorting_permutes, stable_order, stable_order_is_stable,
    stable_sort, SortKey,
};
use crate::text::{is_blank, trimmed};

verus! {

/// The keys by which auctioned items take turns.
pub open spec fn turn_keys(items: Seq<RtbItemDto>) -> Seq<SortKey> {
    Seq::new(items.len(), |i: int| (items[i].position as i64, 0i64, 0i64))
}

/// The items in the order in which they take turns.
pub open spec fn in_turn_order(items: Seq<RtbItemDto>) -> Seq<RtbItemDto> {
    sorted_by_keys(items, turn_keys(items))
}

/// The time that all items take together.
pub open spec fn auction_round(items: Seq<RtbItemDto>) -> int
    decreases items.len(),
{
    if items.len() == 0 {
        0
    } else {
        auction_round(items.drop_last()) + items.last().asset.duration_seconds * ONE_SECOND_MS
    }
}

/// The durations of the items.
pub open spec fn auction_durations(items: Seq<RtbItemDto>) -> Seq<i64> {
    Seq::new(items.len(), |i: int| (items[i].asset.duration_seconds * ONE_SECOND_MS) as i64)
}

/// Whether a slot can be shown: it has an id and items, and each item can be shown.
pub open spec fn slot_valid(slot: RtbSlotDto) -> bool {
    &&& trimmed(slot.id@).len() > 0
    &&& slot.items@.len() > 0
    &&& forall|i: int| 0 <= i < slot.items@.len() ==> item_fault(#[trigger] slot.items@[i]) is None
}

/// Whether the time that the items of a slot take together is a number that can be held.
pub open spec fn auction_fits(slot: RtbSlotDto) -> bool {
    slot_valid(slot) ==> auction_round(in_turn_order(slot.items@)) <= i64::MAX
}

/// The scenes of the plays `spans`.
pub open spec fn auction_scenes_of_spans(
    data: PlaybackDataDto,
    slot: RtbSlotDto,
    items: Seq<RtbItemDto>,
    spans: Seq<Span>,
    baseline: Seq<SceneView>,
) -> Seq<SceneView> {
    Seq::new(
        spans.len(),
        |k: int|
            rtb_scene_of(
                data,
                slot,
                items[spans[k].index as int],
                spans[k].start,
                spans[k].end,
                baseline,
            ),
    )
}

/// The scenes of an auctioned slot that runs from `from` to `to`; nothing where it cannot be shown.
pub open spec fn scenes_of_auction(
    data: PlaybackDataDto,
    slot: RtbSlotDto,
    baseline: Seq<SceneView>,
    from: int,
    to: int,
    now: int,
) -> Option<Seq<SceneView>> {
    let items = in_turn_order(slot.items@);
    let window = window_of(from, to, now);
    if !slot_valid(slot) || from >= to {
        None
    } else if window.0 >= window.1 {
        Some(Seq::empty())
    } else {
        Some(
            auction_scenes_of_spans(
                data,
                slot,
                items,
                expansion(auction_durations(items), from, to, window.0, window.1),
                baseline,
            ),
        )
    }
}

/// The scenes of the slots that are accepted, and where the last of these slots ends. A slot that
/// begins before the end of one accepted earlier is left out, and so is one that cannot be shown.
pub open spec fn accepted(
    data: PlaybackDataDto,
    slots: Seq<RtbSlotDto>,
    ranges: Seq<(i64, i64)>,
    baseline: Seq<SceneView>,
    now: int,
) -> (Seq<SceneView>, int)
    decreases slots.len(),
{
    if slots.len() == 0 {
        (Seq::empty(), i64::MIN as int)
    } else {
        let before = accepted(data, slots.drop_last(), ranges.drop_last(), baseline, now);
        let range = ranges.last();
        if range.0 < before.1 {
            before
        } else {
            match scenes_of_auction(
                data,
                slots.last(),
                baseline,
                range.0 as int,
                range.1 as int,
                now,
            ) {
                Some(scenes) => (before.0 + scenes, range.1 as int),
                None => before,
            }
        }
    }
}

/// The keys by which slots are considered: those that begin first, first.
pub open spec fn start_keys(ranges: Seq<(i64, i64)>) -> Seq<SortKey> {
    Seq::new(ranges.len(), |i: int| (ranges[i].0, 0i64, 0i64))
}

/// The auctioned scenes of a schedule whose auctioned slots run where `ranges` says.
pub open spec fn auction_between(
    data: PlaybackDataDto,
    ranges: Seq<(i64, i64)>,
    baseline: Seq<SceneView>,
    now: int,
) -> Seq<SceneView> {
    let order = stable_order(start_keys(ranges));
    accepted(data, arranged(data.rtb_slots@, order), arranged(ranges, order), baseline, now).0
}

proof fn lemma_valid_in_order(slot: RtbSlotDto)
    ensures
        in_turn_order(slot.items@).len() == slot.items@.len(),
        (forall|i: int|
            0 <= i < slot.items@.len() ==> item_fault(#[trigger] slot.items@[i]) is None) <==> (
        forall|i: int|
            0 <= i < slot.items@.len() ==> item_fault(#[trigger] in_turn_order(slot.items@)[i])
                is None),
{
    let keys = turn_keys(slot.items@);
    stable_order_is_stable(keys);
    let order = stable_order(keys);
    let items = in_turn_order(slot.items@);
    if forall|i: int| 0 <= i < slot.items@.len() ==> item_fault(#[trigger] slot.items@[i]) is None {
        assert forall|i: int| 0 <= i < slot.items@.len() implies item_fault(#[trigger] items[i])
            is None by {
            assert(0 <= order[i] < slot.items@.len());
            assert(items[i] == slot.items@[order[i]]);
        }
    }
    if forall|i: int| 0 <= i < slot.items@.len() ==> item_fault(#[trigger] items[i]) is None {
        assert forall|i: int| 0 <= i < slot.items@.len() implies item_fault(
            #[trigger] slot.items@[i],
        ) is None by {
            assert(order.contains(i));
            let j = choose|j: int| 0 <= j < order.len() && order[j] == i;
            assert(items[j] == slot.items@[i]);
        }
    }
}

proof fn lemma_auction_round(items: Seq<RtbItemDto>)
    requires
        auction_round(items) <= i64::MAX,
        forall|i: int| 0 <= i < items.len() ==> item_fault(#[trigger] items[i]) is None,
    ensures
        auction_round(items) >= 0,
        total(auction_durations(items)) == auction_round(items),
        positive(auction_durations(items)),
        of_seconds(auction_durations(items)),
        forall|i: int|
            0 <= i < items.len() ==> 0 < (#[trigger] items[i]).asset.duration_seconds
                * ONE_SECOND_MS <= i64::MAX,
    decreases items.len(),
{
    if items.len() > 0 {
        assert(item_fault(items[items.len() - 1]) is None);
        let shorter = items.drop_last();
        assert forall|i: int| 0 <= i < shorter.len() implies item_fault(#[trigger] shorter[i])
            is None by {
            assert(shorter[i] == items[i]);
        }
        assert(auction_round(shorter) <= i64::MAX);
        lemma_auction_round(shorter);
        assert(auction_durations(items).drop_last() =~= auction_durations(shorter));
        assert forall|i: int| 0 <= i < items.len() implies 0 < (
        #[trigger] items[i]).asset.duration_seconds * ONE_SECOND_MS <= i64::MAX by {
            if i < items.len() - 1 {
                assert(shorter[i] == items[i]);
            }
        }
    }
}

/// The items of a slot in the order in which they take turns.
fn ordered_auction_items(items: &Vec<RtbItemDto>) -> (r: Vec<&RtbItemDto>)
    ensures
        r@.len() == items@.len(),
        in_turn_order(items@).len() == items@.len(),
        forall|i: int| 0 <= i < r@.len() ==> *(#[trigger] r@[i]) == in_turn_order(items@)[i],
{
    let mut refs: Vec<&RtbItemDto> = Vec::new();
    let mut keys: Vec<SortKey> = Vec::new();
    let mut i: usize = 0;
    while i < items.len()
        invariant
            i <= items@.len(),
            refs@.len() == i,
            keys@.len() == i,
            forall|j: int| 0 <= j < i ==> *(#[trigger] refs@[j]) == items@[j],
            forall|j: int| 0 <= j < i ==> #[trigger] keys@[j] == turn_keys(items@)[j],
        decreases items@.len() - i,
    {
        refs.push(&items[i]);
        keys.push((items[i].position as i64, 0i64, 0i64));
        i = i + 1;
    }
    proof {
        assert(keys@ =~= turn_keys(items@));
        stable_order_is_stable(keys@);
    }
    let ghost unsorted = refs@;
    let out: Vec<&RtbItemDto> = stable_sort(refs, &keys);
    proof {
        let order = stable_order(keys@);
        assert forall|j: int| 0 <= j < out@.len() implies *(#[trigger] out@[j]) == in_turn_order(
            items@,
        )[j] by {
            assert(0 <= order[j] < items@.len());
            assert(out@[j] == unsorted[order[j]]);
        }
    }
    out
}

/// Whether a slot can be shown.
pub fn is_slot_valid(slot: &RtbSlotDto) -> (r: bool)
    ensures
        r == slot_valid(*slot),
{
    if is_blank(slot.id.as_str()) || slot.items.len() == 0 {
        return false;
    }
    let mut i: usize = 0;
    while i < slot.items.len()
        invariant
            i <= slot.items@.len(),
            forall|j: int| 0 <= j < i ==> item_fault(#[trigger] slot.items@[j]) is None,
        decreases slot.items@.len() - i,
    {
        if validate_rtb_item(&slot.items[i]).is_err() {
            assert(item_fault(slot.items@[i as int]) is Some);
            return false;
        }
        i = i + 1;
    }
    true
}

/// Whether the time that the items of a slot take together is a number that can be held.
pub fn auction_has_room(slot: &RtbSlotDto) -> (r: bool)
    ensures
        r == auction_fits(*slot),
{
    if !is_slot_valid(slot) {
        return true;
    }
    let items: Vec<&RtbItemDto> = ordered_auction_items(&slot.items);
    let ghost all = in_turn_order(slot.items@);
    proof {
        lemma_valid_in_order(*slot);
    }
    let mut sum: i128 = 0;
    let mut i: usize = 0;
    while i < items.len()
        invariant
            i <= items@.len(),
            slot_valid(*slot),
            all == in_turn_order(slot.items@),
            items@.len() == all.len(),
            forall|j: int| 0 <= j < items@.len() ==> *(#[trigger] items@[j]) == all[j],
            forall|j: int| 0 <= j < all.len() ==> item_fault(#[trigger] all[j]) is None,
            sum == auction_round(all.take(i as int)),
            0 <= sum <= i64::MAX,
        decreases items@.len() - i,
    {
        let seconds: i64 = items[i].asset.duration_seconds;
        proof {
            assert(all.take(i + 1).drop_last() =~= all.take(i as int));
            assert(*items@[i as int] == all[i as int]);
            assert(item_fault(all[i as int]) is None);
        }
        sum = sum + (seconds as i128) * (ONE_SECOND_MS as i128);
        i = i + 1;
        if sum > i64::MAX as i128 {
            proof {
                lemma_auction_round_grows(all, i as int);
            }
            return false;
        }
    }
    assert(all.take(i as int) =~= all);
    true
}

proof fn lemma_auction_round_grows(items: Seq<RtbItemDto>, n: int)
    requires
        0 <= n <= items.len(),
        forall|i: int| 0 <= i < items.len() ==> item_fault(#[trigger] items[i]) is None,
    ensures
        auction_round(items.take(n)) <= auction_round(items),
    decreases items.len() - n,
{
    if n == items.len() {
        assert(items.take(n) =~= items);
    } else {
        lemma_auction_round_grows(items, n + 1);
        assert(items.take(n + 1).drop_last() =~= items.take(n));
        assert(item_fault(items[n]) is None);
    }
}

/// The scenes of an auctioned slot that runs from `slot_start` to `slot_end`; nothing where it
/// cannot be shown.
pub fn build_rtb_slot_scenes(
    data: &PlaybackDataDto,
    slot: &RtbSlotDto,
    baseline: &Vec<PlaybackScene>,
    slot_start: i64,
    slot_end: i64,
    now_millis: i64,
) -> (r: Option<Vec<PlaybackScene>>)
    requires
        auction_fits(*slot),
        window_fits(now_millis as int),
        slot_end - slot_start <= i64::MAX,
    ensures
        scenes_of_auction(
            *data,
            *slot,
            scene_views(baseline@),
            slot_start as int,
            slot_end as int,
            now_millis as int,
        ) == (match r {
            Some(scenes) => Some(scene_views(scenes@)),
            None => None,
        }),
{
    if !is_slot_valid(slot) || slot_start >= slot_end {
        return None;
    }
    let ghost views = scene_views(baseline@);
    let mut scenes: Vec<PlaybackScene> = Vec::new();
    let window: (i64, i64) = expansion_window(slot_start, slot_end, now_millis);
    if window.0 >= window.1 {
        assert(scene_views(scenes@) =~= Seq::empty());
        return Some(scenes);
    }
    let items: Vec<&RtbItemDto> = ordered_auction_items(&slot.items);
    let ghost all = in_turn_order(slot.items@);
    proof {
        lemma_valid_in_order(*slot);
        lemma_auction_round(all);
    }
    let mut durations: Vec<i64> = Vec::new();
    let mut i: usize = 0;
    while i < items.len()
        invariant
            i <= items@.len(),
            items@.len() == all.len(),
            forall|j: int| 0 <= j < items@.len() ==> *(#[trigger] items@[j]) == all[j],
            forall|j: int|
                0 <= j < all.len() ==> 0 < (#[trigger] all[j]).asset.duration_seconds
                    * ONE_SECOND_MS <= i64::MAX,
            durations@.len() == i,
            forall|j: int| 0 <= j < i ==> #[trigger] durations@[j] == auction_durations(all)[j],
        decreases items@.len() - i,
    {
        assert(*items@[i as int] == all[i as int]);
        let seconds: i64 = items[i].asset.duration_seconds;
        durations.push(seconds * ONE_SECOND_MS);
        i = i + 1;
    }
    proof {
        assert(durations@ =~= auction_durations(all));
    }
    let spans: Vec<Span> = expand_spans(&durations, slot_start, slot_end, window.0, window.1);
    let count: usize = items.len();
    proof {
        expansion_covers_window(
            durations@,
            slot_start as int,
            slot_end as int,
            window.0 as int,
            window.1 as int,
        );
    }
    let mut k: usize = 0;
    while k < spans.len()
        invariant
            k <= spans@.len(),
            scenes@.len() == k,
            views == scene_views(baseline@),
            items@.len() == count,
            items@.len() == all.len(),
            forall|j: int| 0 <= j < items@.len() ==> *(#[trigger] items@[j]) == all[j],
            forall|j: int| 0 <= j < spans@.len() ==> (#[trigger] spans@[j]).index < count,
            forall|j: int|
                0 <= j < k ==> (#[trigger] scenes@[j])@ == auction_scenes_of_spans(
                    *data,
                    *slot,
                    all,
                    spans@,
                    views,
                )[j],
        decreases spans@.len() - k,
    {
        let span: Span = spans[k];
        assert(*items@[span.index as int] == all[span.index as int]);
        scenes.push(
            build_rtb_scene(data, slot, items[span.index], span.start, span.end, baseline),
        );
        k = k + 1;
    }
    assert(scene_views(scenes@) =~= auction_scenes_of_spans(*data, *slot, all, spans@, views));
    Some(scenes)
}

proof fn lemma_more_scenes(a: Seq<PlaybackScene>, b: Seq<PlaybackScene>)
    ensures
        scene_views(a + b) == scene_views(a) + scene_views(b),
{
    assert(scene_views(a + b) =~= scene_views(a) + scene_views(b));
}

/// The auctioned scenes of a schedule whose auctioned slots run where `ranges` says.
pub fn build_rtb_scenes(
    data: &PlaybackDataDto,
    ranges: &Vec<(i64, i64)>,
    baseline: &Vec<PlaybackScene>,
    now_millis: i64,
) -> (r: Vec<PlaybackScene>)
    requires
        ranges@.len() == data.rtb_slots@.len(),
        forall|i: int| 0 <= i < ranges@.len() ==> (#[trigger] ranges@[i]).1 - ranges@[i].0 <= i64::MAX,
        forall|i: int| 0 <= i < data.rtb_slots@.len() ==> auction_fits(#[trigger] data.rtb_slots@[i]),
        window_fits(now_millis as int),
    ensures
        scene_views(r@) == auction_between(
            *data,
            ranges@,
            scene_views(baseline@),
            now_millis as int,
        ),
{
    let mut keys: Vec<SortKey> = Vec::new();
    let mut indices: Vec<usize> = Vec::new();
    let mut i: usize = 0;
    while i < ranges.len()
        invariant
            i <= ranges@.len(),
            keys@.len() == i,
            indices@.len() == i,
            forall|j: int| 0 <= j < i ==> #[trigger] keys@[j] == start_keys(ranges@)[j],
            forall|j: int| 0 <= j < i ==> #[trigger] indices@[j] == j,
        decreases ranges@.len() - i,
    {
        keys.push((ranges[i].0, 0i64, 0i64));
        indices.push(i);
        i = i + 1;
    }
    let ghost order = stable_order(keys@);
    let ghost plain = indices@;
    proof {
        assert(keys@ =~= start_keys(ranges@));
        stable_order_is_stable(keys@);
    }
    let indices: Vec<usize> = stable_sort(indices, &keys);
    let ghost slots_in_order = arranged(data.rtb_slots@, order);
    let ghost ranges_in_order = arranged(ranges@, order);
    let ghost views = scene_views(baseline@);
    let mut result: Vec<PlaybackScene> = Vec::new();
    let mut accepted_end: i64 = i64::MIN;
    let mut k: usize = 0;
    proof {
        assert forall|j: int| 0 <= j < indices@.len() implies #[trigger] indices@[j] == order[j] by {
            assert(0 <= order[j] < plain.len());
            assert(indices@[j] == plain[order[j]]);
        }
        assert(slots_in_order.take(0) =~= Seq::empty());
        assert(scene_views(result@) =~= Seq::empty());
    }
    while k < indices.len()
        invariant
            k <= indices@.len(),
            indices@.len() == ranges@.len(),
            ranges@.len() == data.rtb_slots@.len(),
            order.len() == indices@.len(),
            forall|j: int| 0 <= j < indices@.len() ==> #[trigger] indices@[j] == order[j],
            forall|j: int| 0 <= j < indices@.len() ==> 0 <= #[trigger] order[j] < ranges@.len(),
            forall|i: int|
                0 <= i < ranges@.len() ==> (#[trigger] ranges@[i]).1 - ranges@[i].0 <= i64::MAX,
            forall|i: int|
                0 <= i < data.rtb_slots@.len() ==> auction_fits(#[trigger] data.rtb_slots@[i]),
            window_fits(now_millis as int),
            slots_in_order == arranged(data.rtb_slots@, order),
            ranges_in_order == arranged(ranges@, order),
            views == scene_views(baseline@),
            accepted(
                *data,
                slots_in_order.take(k as int),
                ranges_in_order.take(k as int),
                views,
                now_millis as int,
            ) == (scene_views(result@), accepted_end as int),
        decreases indices@.len() - k,
    {
        let index: usize = indices[k];
        let range: (i64, i64) = ranges[index];
        proof {
            assert(slots_in_order.take(k + 1).drop_last() =~= slots_in_order.take(k as int));
            assert(ranges_in_order.take(k + 1).drop_last() =~= ranges_in_order.take(k as int));
            assert(slots_in_order.take(k + 1).last() == data.rtb_slots@[index as int]);
            assert(ranges_in_order.take(k + 1).last() == range);
        }
        if range.0 >= accepted_end {
            let built: Option<Vec<PlaybackScene>> = build_rtb_slot_scenes(
                data,
                &data.rtb_slots[index],
                baseline,
                range.0,
                range.1,
                now_millis,
            );
            match built {
                Some(scenes) => {
                    let mut scenes: Vec<PlaybackScene> = scenes;
                    proof {
                        lemma_more_scenes(result@, scenes@);
                    }
                    result.append(&mut scenes);
                    accepted_end = range.1;
                },
                None => {},
            }
        }
        k = k + 1;
    }
    proof {
        assert(slots_in_order.take(k as int) =~= slots_in_order);
        assert(ranges_in_order.take(k as int) =~= ranges_in_order);
    }
    result
}

/// Whether a scene was sold in an auction, and what is shown in its place where it cannot be has
/// the same time and was not sold itself.
pub open spec fn auctioned_well(scene: SceneView) -> bool {
    &&& scene.rtb is Some
    &&& scene.layout is Some
    &&& scene.asset_refs.len() == 1
    &&& scene.fallback matches Some(f) ==> {
        &&& f.start == scene.start
        &&& f.end == scene.end
        &&& f.rtb is None
        &&& f.fallback is None
    }
}

/// Whether scenes follow one another: each ends after it starts and before the next one starts.
pub open spec fn one_by_one(scenes: Seq<SceneView>) -> bool {
    &&& forall|i: int| 0 <= i < scenes.len() ==> (#[trigger] scenes[i]).start < scenes[i].end
    &&& forall|i: int, j: int|
        0 <= i < j < scenes.len() ==> (#[trigger] scenes[i]).end <= (#[trigger] scenes[j]).start
}

/// The scenes of an auctioned slot follow one another within the slot.
pub proof fn auctioned_slot_is_in_order(
    data: PlaybackDataDto,
    slot: RtbSlotDto,
    baseline: Seq<SceneView>,
    from: i64,
    to: i64,
    now: int,
)
    requires
        auction_fits(slot),
        to - from <= i64::MAX,
    ensures
        scenes_of_auction(data, slot, baseline, from as int, to as int, now) matches Some(scenes)
            ==> {
            &&& from < to
            &&& one_by_one(scenes)
            &&& forall|i: int|
                0 <= i < scenes.len() ==> {
                    &&& from <= (#[trigger] scenes[i]).start
                    &&& scenes[i].end <= to
                    &&& auctioned_well(scenes[i])
                    &&& scenes[i].rtb->0.slot_id == slot.id@
                }
        },
{
    let window = window_of(from as int, to as int, now);
    if slot_valid(slot) && from < to && window.0 < window.1 {
        let items = in_turn_order(slot.items@);
        let durations = auction_durations(items);
        lemma_valid_in_order(slot);
        lemma_auction_round(items);
        assert(slot.items@.len() == slot.items.len());
        let spans = expansion(durations, from as int, to as int, window.0, window.1);
        expansion_covers_window(durations, from as int, to as int, window.0, window.1);
        let scenes = auction_scenes_of_spans(data, slot, items, spans, baseline);
        assert forall|i: int| 0 <= i < scenes.len() implies {
            &&& from <= (#[trigger] scenes[i]).start < scenes[i].end
            &&& scenes[i].end <= to
            &&& auctioned_well(scenes[i])
            &&& scenes[i].rtb->0.slot_id == slot.id@
        } by {
            assert(scenes[i].start == spans[i].start && scenes[i].end == spans[i].end);
        }
        assert forall|i: int, j: int| 0 <= i < j < scenes.len() implies (#[trigger] scenes[i]).end
            <= (#[trigger] scenes[j]).start by {
            plays_follow_one_another(durations, spans, i, j);
            assert(scenes[i].end == spans[i].end && scenes[j].start == spans[j].start);
        }
    }
}

/// The auctioned scenes of a schedule follow one another, whichever slots overlap: no two of them
/// are ever on at the same time.
pub proof fn auctioned_scenes_are_in_order(
    data: PlaybackDataDto,
    slots: Seq<RtbSlotDto>,
    ranges: Seq<(i64, i64)>,
    baseline: Seq<SceneView>,
    now: int,
)
    requires
        slots.len() == ranges.len(),
        forall|i: int| 0 <= i < slots.len() ==> auction_fits(#[trigger] slots[i]),
        forall|i: int| 0 <= i < ranges.len() ==> (#[trigger] ranges[i]).1 - ranges[i].0 <= i64::MAX,
    ensures
        one_by_one(accepted(data, slots, ranges, baseline, now).0),
        forall|i: int|
            0 <= i < accepted(data, slots, ranges, baseline, now).0.len() ==> {
                &&& auctioned_well(#[trigger] accepted(data, slots, ranges, baseline, now).0[i])
                &&& accepted(data, slots, ranges, baseline, now).0[i].end <= accepted(
                    data,
                    slots,
                    ranges,
                    baseline,
                    now,
                ).1
            },
    decreases slots.len(),
{
    if slots.len() > 0 {
        let n = slots.len() - 1;
        assert forall|i: int| 0 <= i < n implies auction_fits(#[trigger] slots.drop_last()[i]) by {
            assert(slots.drop_last()[i] == slots[i]);
        }
        assert forall|i: int| 0 <= i < n implies (#[trigger] ranges.drop_last()[i]).1
            - ranges.drop_last()[i].0 <= i64::MAX by {
            assert(ranges.drop_last()[i] == ranges[i]);
        }
        auctioned_scenes_are_in_order(data, slots.drop_last(), ranges.drop_last(), baseline, now);
        let before = accepted(data, slots.drop_last(), ranges.drop_last(), baseline, now);
        let out = accepted(data, slots, ranges, baseline, now);
        let range = ranges[n];
        assert(auction_fits(slots[n]));
        auctioned_slot_is_in_order(data, slots[n], baseline, range.0, range.1, now);
        match scenes_of_auction(
            data,
            slots[n],
            baseline,
            range.0 as int,
            range.1 as int,
            now,
        ) {
            Some(more) => if range.0 >= before.1 {
                assert(out == (before.0 + more, range.1 as int));
                assert forall|i: int, j: int| 0 <= i < j < out.0.len() implies (
                #[trigger] out.0[i]).end <= (#[trigger] out.0[j]).start by {
                    if j < before.0.len() {
                        assert(out.0[i] == before.0[i] && out.0[j] == before.0[j]);
                    } else if i < before.0.len() {
                        assert(out.0[i] == before.0[i]);
                        assert(out.0[j] == more[j - before.0.len()]);
                    } else {
                        assert(out.0[i] == more[i - before.0.len()]);
                        assert(out.0[j] == more[j - before.0.len()]);
                    }
                }
                assert forall|i: int| 0 <= i < out.0.len() implies auctioned_well(
                    #[trigger] out.0[i],
                ) && out.0[i].end <= out.1 && out.0[i].start < out.0[i].end by {
                    if i < before.0.len() {
                        assert(out.0[i] == before.0[i]);
                    } else {
                        assert(out.0[i] == more[i - before.0.len()]);
                    }
                }
            },
            None => {},
        }
    }
}

/// A slot that can be shown and begins only when those before it are over is shown, whatever other
/// slots there are; those that cannot be shown do not stand in its way.
pub proof fn undisputed_slot_is_shown(
    data: PlaybackDataDto,
    slots: Seq<RtbSlotDto>,
    ranges: Seq<(i64, i64)>,
    baseline: Seq<SceneView>,
    now: int,
    k: int,
)
    requires
        slots.len() == ranges.len(),
        0 <= k < slots.len(),
        forall|j: int|
            0 <= j < k && slot_valid(#[trigger] slots[j]) ==> ranges[j].1 <= ranges[k].0,
    ensures
        scenes_of_auction(
            data,
            slots[k],
            baseline,
            ranges[k].0 as int,
            ranges[k].1 as int,
            now,
        ) matches Some(scenes) ==> forall|i: int|
            0 <= i < scenes.len() ==> accepted(data, slots, ranges, baseline, now).0.contains(
                #[trigger] scenes[i],
            ),
    decreases slots.len(),
{
    let out = accepted(data, slots, ranges, baseline, now);
    let before = accepted(data, slots.drop_last(), ranges.drop_last(), baseline, now);
    match scenes_of_auction(
        data,
        slots[k],
        baseline,
        ranges[k].0 as int,
        ranges[k].1 as int,
        now,
    ) {
        Some(scenes) => {
            if k < slots.len() - 1 {
                assert forall|j: int| 0 <= j < k && slot_valid(
                    #[trigger] slots.drop_last()[j],
                ) implies ranges.drop_last()[j].1 <= ranges.drop_last()[k].0 by {
                    assert(slot_valid(slots[j]));
                }
                undisputed_slot_is_shown(
                    data,
                    slots.drop_last(),
                    ranges.drop_last(),
                    baseline,
                    now,
                    k,
                );
                assert forall|i: int| 0 <= i < scenes.len() implies out.0.contains(
                    #[trigger] scenes[i],
                ) by {
                    assert(before.0.contains(scenes[i]));
                    let j = choose|j: int| 0 <= j < before.0.len() && before.0[j] == scenes[i];
                    assert(out.0[j] == scenes[i]);
                }
            } else {
                lemma_accepted_end(
                    data,
                    slots.drop_last(),
                    ranges.drop_last(),
                    baseline,
                    now,
                    ranges[k].0 as int,
                );
                assert(out.0 == before.0 + scenes);
                assert forall|i: int| 0 <= i < scenes.len() implies out.0.contains(
                    #[trigger] scenes[i],
                ) by {
                    assert(out.0[before.0.len() + i] == scenes[i]);
                }
            }
        },
        None => {},
    }
}

proof fn lemma_accepted_end(
    data: PlaybackDataDto,
    slots: Seq<RtbSlotDto>,
    ranges: Seq<(i64, i64)>,
    baseline: Seq<SceneView>,
    now: int,
    limit: int,
)
    requires
        slots.len() == ranges.len(),
        i64::MIN <= limit,
        forall|j: int|
            0 <= j < slots.len() && slot_valid(#[trigger] slots[j]) ==> ranges[j].1 <= limit,
    ensures
        accepted(data, slots, ranges, baseline, now).1 <= limit,
    decreases slots.len(),
{
    if slots.len() > 0 {
        let n = slots.len() - 1;
        assert forall|j: int| 0 <= j < n && slot_valid(
            #[trigger] slots.drop_last()[j],
        ) implies ranges.drop_last()[j].1 <= limit by {
            assert(slot_valid(slots[j]));
        }
        lemma_accepted_end(data, slots.drop_last(), ranges.drop_last(), baseline, now, limit);
        assert(slots[n] == slots.last());
        if slot_valid(slots[n]) {
            assert(ranges[n].1 <= limit);
        }
    }
}

/// A timeline that is built anew later has the same auctioned scene of a slot on at the same time,
/// under the same identity: what is on screen goes on. What replaces it may be another.
pub proof fn rebuilding_keeps_auctioned_scenes(
    data: PlaybackDataDto,
    slot: RtbSlotDto,
    from: i64,
    to: i64,
    baseline: Seq<SceneView>,
    now: int,
    later_baseline: Seq<SceneView>,
    later: int,
    a: int,
    b: int,
    time: int,
)
    requires
        auction_fits(slot),
        to - from <= i64::MAX,
        scenes_of_auction(data, slot, baseline, from as int, to as int, now) matches Some(before)
            && 0 <= a < before.len() && before[a].start <= time < before[a].end,
        scenes_of_auction(data, slot, later_baseline, from as int, to as int, later) matches Some(
            after,
        ) && 0 <= b < after.len() && after[b].start <= time < after[b].end,
    ensures
        ({
            let before = scenes_of_auction(data, slot, baseline, from as int, to as int, now)->0[a];
            let after = scenes_of_auction(
                data,
                slot,
                later_baseline,
                from as int,
                to as int,
                later,
            )->0[b];
            after == (SceneView { fallback: after.fallback, ..before })
        }),
{
    let items = in_turn_order(slot.items@);
    let durations = auction_durations(items);
    lemma_valid_in_order(slot);
    lemma_auction_round(items);
    assert(slot.items@.len() == slot.items.len());
    plays_do_not_depend_on_window(
        durations,
        from as int,
        to as int,
        window_of(from as int, to as int, now),
        window_of(from as int, to as int, later),
        a,
        b,
        time,
    );
}

/// Whether `scene` is, but for what is shown in its place where it cannot be, one of the scenes, and
/// on at `time`.
pub open spec fn is_on_but_fallback(scenes: Seq<SceneView>, time: int, scene: SceneView) -> bool {
    on_screen(scene, time) && exists|i: int|
        0 <= i < scenes.len() && scene == (SceneView {
            fallback: scene.fallback,
            ..#[trigger] scenes[i]
        })
}

proof fn lemma_auction_stays(
    data: PlaybackDataDto,
    slot: RtbSlotDto,
    range: (i64, i64),
    baseline: Seq<SceneView>,
    now: int,
    later_baseline: Seq<SceneView>,
    later: int,
    time: int,
    scene: SceneView,
)
    requires
        auction_fits(slot),
        range.1 - range.0 <= i64::MAX,
        in_window(later, time),
        scenes_of_auction(data, slot, baseline, range.0 as int, range.1 as int, now) matches Some(
            before,
        ) && is_on_but_fallback(before, time, scene),
    ensures
        scenes_of_auction(
            data,
            slot,
            later_baseline,
            range.0 as int,
            range.1 as int,
            later,
        ) matches Some(after) && is_on_but_fallback(after, time, scene),
{
    let from = range.0 as int;
    let to = range.1 as int;
    let before = scenes_of_auction(data, slot, baseline, from, to, now)->0;
    let after = scenes_of_auction(data, slot, later_baseline, from, to, later)->0;
    let a = choose|i: int|
        0 <= i < before.len() && scene == (SceneView {
            fallback: scene.fallback,
            ..#[trigger] before[i]
        });
    auctioned_slot_is_in_order(data, slot, baseline, range.0, range.1, now);
    let items = in_turn_order(slot.items@);
    let window = window_of(from, to, later);
    lemma_valid_in_order(slot);
    lemma_auction_round(items);
    assert(slot.items@.len() == slot.items.len());
    let b = a_play_is_on(auction_durations(items), from, to, window.0, window.1, time);
    assert(on_screen(after[b], time));
    rebuilding_keeps_auctioned_scenes(
        data,
        slot,
        range.0,
        range.1,
        baseline,
        now,
        later_baseline,
        later,
        a,
        b,
        time,
    );
    assert(scene == (SceneView { fallback: scene.fallback, ..after[b] }));
}

proof fn lemma_accepted_alike(
    data: PlaybackDataDto,
    slots: Seq<RtbSlotDto>,
    ranges: Seq<(i64, i64)>,
    baseline: Seq<SceneView>,
    now: int,
    later_baseline: Seq<SceneView>,
    later: int,
)
    ensures
        accepted(data, slots, ranges, baseline, now).1 == accepted(
            data,
            slots,
            ranges,
            later_baseline,
            later,
        ).1,
    decreases slots.len(),
{
    if slots.len() > 0 {
        lemma_accepted_alike(
            data,
            slots.drop_last(),
            ranges.drop_last(),
            baseline,
            now,
            later_baseline,
            later,
        );
    }
}

proof fn lemma_accepted_stay(
    data: PlaybackDataDto,
    slots: Seq<RtbSlotDto>,
    ranges: Seq<(i64, i64)>,
    baseline: Seq<SceneView>,
    now: int,
    later_baseline: Seq<SceneView>,
    later: int,
    time: int,
    scene: SceneView,
)
    requires
        slots.len() == ranges.len(),
        forall|i: int| 0 <= i < slots.len() ==> auction_fits(#[trigger] slots[i]),
        forall|i: int| 0 <= i < ranges.len() ==> (#[trigger] ranges[i]).1 - ranges[i].0 <= i64::MAX,
        in_window(later, time),
        is_on_but_fallback(accepted(data, slots, ranges, baseline, now).0, time, scene),
    ensures
        is_on_but_fallback(
            accepted(data, slots, ranges, later_baseline, later).0,
            time,
            scene,
        ),
    decreases slots.len(),
{
    let n = slots.len() - 1;
    let short = slots.drop_last();
    let short_ranges = ranges.drop_last();
    let old_scenes = accepted(data, slots, ranges, baseline, now).0;
    let new_scenes = accepted(data, slots, ranges, later_baseline, later).0;
    let before = accepted(data, short, short_ranges, baseline, now);
    let after = accepted(data, short, short_ranges, later_baseline, later);
    lemma_accepted_alike(data, short, short_ranges, baseline, now, later_baseline, later);
    let a = choose|i: int|
        0 <= i < old_scenes.len() && scene == (SceneView {
            fallback: scene.fallback,
            ..#[trigger] old_scenes[i]
        });
    if a < before.0.len() {
        assert(old_scenes[a] == before.0[a]);
        assert forall|i: int| 0 <= i < n implies auction_fits(#[trigger] short[i]) by {
            assert(short[i] == slots[i]);
        }
        assert forall|i: int| 0 <= i < n implies (#[trigger] short_ranges[i]).1 - short_ranges[i].0
            <= i64::MAX by {
            assert(short_ranges[i] == ranges[i]);
        }
        lemma_accepted_stay(
            data,
            short,
            short_ranges,
            baseline,
            now,
            later_baseline,
            later,
            time,
            scene,
        );
        let b = choose|i: int|
            0 <= i < after.0.len() && scene == (SceneView {
                fallback: scene.fallback,
                ..#[trigger] after.0[i]
            });
        assert(new_scenes[b] == after.0[b]);
    } else {
        let range = ranges[n];
        assert(auction_fits(slots[n]));
        let more = scenes_of_auction(
            data,
            slots[n],
            baseline,
            range.0 as int,
            range.1 as int,
            now,
        )->0;
        assert(old_scenes[a] == more[a - before.0.len()]);
        assert(is_on_but_fallback(more, time, scene));
        lemma_auction_stays(
            data,
            slots[n],
            range,
            baseline,
            now,
            later_baseline,
            later,
            time,
            scene,
        );
        let other = scenes_of_auction(
            data,
            slots[n],
            later_baseline,
            range.0 as int,
            range.1 as int,
            later,
        )->0;
        let b = choose|i: int|
            0 <= i < other.len() && scene == (SceneView {
                fallback: scene.fallback,
                ..#[trigger] other[i]
            });
        assert(new_scenes[after.0.len() + b] == other[b]);
    }
}

/// At a time that the windows of two builds both hold, both have the same auctioned scene on, but
/// for what is shown in its place where it cannot be, or both have none on.
pub proof fn rebuilding_keeps_auctions(
    data: PlaybackDataDto,
    ranges: Seq<(i64, i64)>,
    baseline: Seq<SceneView>,
    now: int,
    later_baseline: Seq<SceneView>,
    later: int,
    time: int,
)
    requires
        ranges.len() == data.rtb_slots@.len(),
        forall|i: int|
            0 <= i < data.rtb_slots@.len() ==> auction_fits(#[trigger] data.rtb_slots@[i]),
        forall|i: int| 0 <= i < ranges.len() ==> (#[trigger] ranges[i]).1 - ranges[i].0 <= i64::MAX,
        in_window(now, time),
        in_window(later, time),
    ensures
        forall|scene: SceneView|
            #[trigger] is_on_but_fallback(
                auction_between(data, ranges, baseline, now),
                time,
                scene,
            ) <==> is_on_but_fallback(
                auction_between(data, ranges, later_baseline, later),
                time,
                scene,
            ),
{
    let keys = start_keys(ranges);
    let order = stable_order(keys);
    stable_order_is_stable(keys);
    let slots = arranged(data.rtb_slots@, order);
    let ordered = arranged(ranges, order);
    assert forall|i: int| 0 <= i < slots.len() implies auction_fits(#[trigger] slots[i]) by {
        assert(0 <= order[i] < data.rtb_slots@.len());
        assert(auction_fits(data.rtb_slots@[order[i]]));
    }
    assert forall|i: int| 0 <= i < ordered.len() implies (#[trigger] ordered[i]).1 - ordered[i].0
        <= i64::MAX by {
        assert(0 <= order[i] < ranges.len());
        assert(ranges[order[i]].1 - ranges[order[i]].0 <= i64::MAX);
    }
    let before = auction_between(data, ranges, baseline, now);
    let after = auction_between(data, ranges, later_baseline, later);
    assert forall|scene: SceneView|
        #[trigger] is_on_but_fallback(before, time, scene) <==> is_on_but_fallback(
            after,
            time,
            scene,
        ) by {
        if is_on_but_fallback(before, time, scene) {
            lemma_accepted_stay(
                data,
                slots,
                ordered,
                baseline,
                now,
                later_baseline,
                later,
                time,
                scene,
            );
        }
        if is_on_but_fallback(after, time, scene) {
            lemma_accepted_stay(
                data,
                slots,
                ordered,
                later_baseline,
                later,
                baseline,
                now,
                time,
                scene,
            );
        }
    }
}

/// Auctioned items take turns by their position: in ascending order of it, those of one position in
/// the order in which the slot lists them. Each item has a turn, and there are no others.
pub proof fn bids_take_turns_by_position(items: Seq<RtbItemDto>)
    ensures
        in_turn_order(items).len() == items.len(),
        in_turn_order(items).to_multiset() == items.to_multiset(),
        forall|i: int, j: int|
            0 <= i < j < items.len() ==> (#[trigger] in_turn_order(items)[i]).position <= (
            #[trigger] in_turn_order(items)[j]).position,
{
    let keys = turn_keys(items);
    let order = stable_order(keys);
    let out = in_turn_order(items);
    sorting_permutes(items, keys);
    stable_order_is_stable(keys);
    assert forall|i: int, j: int| 0 <= i < j < items.len() implies (#[trigger] out[i]).position <= (
    #[trigger] out[j]).position by {
        assert(0 <= order[i] < items.len() && 0 <= order[j] < items.len());
        assert(precedes(keys, order[i], order[j]));
    }
}

proof fn lemma_auction_round_part(items: Seq<RtbItemDto>, n: int)
    requires
        auction_round(items) <= i64::MAX,
        forall|i: int| 0 <= i < items.len() ==> item_fault(#[trigger] items[i]) is None,
        0 <= n <= items.len(),
    ensures
        total(auction_durations(items).take(n)) == auction_round(items.take(n)),
    decreases items.len(),
{
    lemma_auction_round(items);
    if n == items.len() {
        assert(items.take(n) =~= items);
        assert(auction_durations(items).take(n) =~= auction_durations(items));
    } else {
        let shorter = items.drop_last();
        assert forall|i: int| 0 <= i < shorter.len() implies item_fault(#[trigger] shorter[i])
            is None by {
            assert(shorter[i] == items[i]);
        }
        assert(item_fault(items[items.len() - 1]) is None);
        lemma_auction_round_part(shorter, n);
        assert(shorter.take(n) =~= items.take(n));
        assert(auction_durations(shorter).take(n) =~= auction_durations(items).take(n));
    }
}

/// Which item of an auctioned slot that can be shown is on at a time: the items take turns by
/// position from the start of the slot on, each for the time of its asset, over and over. The scene
/// that is on belongs to the item whose turn it is, starts when the turn does, and ends when the turn
/// or the slot does.
pub proof fn the_bid_whose_turn_it_is_is_on(
    data: PlaybackDataDto,
    slot: RtbSlotDto,
    baseline: Seq<SceneView>,
    from: i64,
    to: i64,
    now: int,
    round: int,
    turn: int,
    time: int,
)
    requires
        auction_fits(slot),
        slot_valid(slot),
        to - from <= i64::MAX,
        0 <= turn < slot.items@.len(),
        round >= 0,
        in_window(now, time),
        from <= time < to,
        ({
            let items = in_turn_order(slot.items@);
            let begin = from + round * auction_round(items) + auction_round(items.take(turn));
            begin <= time < begin + items[turn].asset.duration_seconds * 1_000
        }),
    ensures
        ({
            let items = in_turn_order(slot.items@);
            let begin = from + round * auction_round(items) + auction_round(items.take(turn));
            let over = begin + items[turn].asset.duration_seconds * 1_000;
            scenes_of_auction(data, slot, baseline, from as int, to as int, now) matches Some(
                scenes,
            ) && exists|k: int|
                {
                    let scene = #[trigger] scenes[k];
                    &&& 0 <= k < scenes.len()
                    &&& scene.start == begin
                    &&& scene.end == if over <= to {
                        over
                    } else {
                        to as int
                    }
                    &&& scene.rtb matches Some(sold) && sold.slot_id == slot.id@ && sold.bid_id
                        == items[turn].bid_id@ && sold.creative_id == items[turn].creative_id@
                    &&& scene == rtb_scene_of(
                        data,
                        slot,
                        items[turn],
                        scene.start,
                        scene.end,
                        baseline,
                    )
                }
        }),
{
    let items = in_turn_order(slot.items@);
    let durations = auction_durations(items);
    let window = window_of(from as int, to as int, now);
    lemma_valid_in_order(slot);
    lemma_auction_round(items);
    lemma_auction_round_part(items, turn);
    assert(slot.items@.len() == slot.items.len());
    assert(durations[turn] == items[turn].asset.duration_seconds * ONE_SECOND_MS);
    let k = play_of_the_turn(
        durations,
        from as int,
        to as int,
        window.0,
        window.1,
        round,
        turn,
        time,
    );
    let spans = expansion(durations, from as int, to as int, window.0, window.1);
    let scenes = scenes_of_auction(data, slot, baseline, from as int, to as int, now)->0;
    assert(scenes[k] == rtb_scene_of(
        data,
        slot,
        items[spans[k].index as int],
        spans[k].start,
        spans[k].end,
        baseline,
    ));
}

/// The time that auctioned items take together is the sum of the times of their assets, in seconds
/// times a thousand.
pub proof fn an_auctioned_round_is_the_sum_of_its_turns(items: Seq<RtbItemDto>, n: int)
    requires
        0 <= n < items.len(),
    ensures
        auction_round(items.take(0)) == 0,
        auction_round(items.take(n + 1)) == auction_round(items.take(n))
            + items[n].asset.duration_seconds * 1_000,
{
    assert(items.take(n + 1).drop_last() =~= items.take(n));
}

/// A slot can be shown exactly where it has an id and items, and each item can be shown.
pub proof fn slots_are_shown_whole_or_not_at_all(slot: RtbSlotDto)
    ensures
        slot_valid(slot) <==> trimmed(slot.id@).len() > 0 && slot.items@.len() > 0 && forall|i: int|
            0 <= i < slot.items@.len() ==> item_fault(#[trigger] slot.items@[i]) is None,
{
}

/// Of two auctioned slots that can be shown and run at the same time, the one that begins first is
/// shown, and of two that begin together the one that is listed first; the other is left out.
pub proof fn the_first_of_two_slots_is_shown(
    data: PlaybackDataDto,
    ranges: Seq<(i64, i64)>,
    baseline: Seq<SceneView>,
    now: int,
    first: int,
    second: int,
)
    requires
        data.rtb_slots@.len() == 2,
        ranges.len() == 2,
        (first == 0 && second == 1 && ranges[0].0 <= ranges[1].0) || (first == 1 && second == 0
            && ranges[1].0 < ranges[0].0),
        slot_valid(data.rtb_slots@[first]),
        ranges[first].0 < ranges[first].1,
        ranges[second].0 < ranges[first].1,
    ensures
        Some(auction_between(data, ranges, baseline, now)) == scenes_of_auction(
            data,
            data.rtb_slots@[first],
            baseline,
            ranges[first].0 as int,
            ranges[first].1 as int,
            now,
        ),
{
    let keys = start_keys(ranges);
    let order = stable_order(keys);
    stable_order_is_stable(keys);
    assert(order[0] == first && order[1] == second) by {
        assert(0 <= order[0] < 2 && 0 <= order[1] < 2);
        assert(precedes(keys, order[0], order[1]));
    }
    let slots = arranged(data.rtb_slots@, order);
    let ordered = arranged(ranges, order);
    let one = slots.drop_last();
    let one_range = ordered.drop_last();
    assert(one.drop_last() =~= Seq::empty());
    assert(one.last() == data.rtb_slots@[first] && one_range.last() == ranges[first]);
    assert(slots.last() == data.rtb_slots@[second] && ordered.last() == ranges[second]);
    assert(accepted(data, one.drop_last(), one_range.drop_last(), baseline, now) == (
        Seq::<SceneView>::empty(),
        i64::MIN as int,
    ));
    let shown = scenes_of_auction(
        data,
        data.rtb_slots@[first],
        baseline,
        ranges[first].0 as int,
        ranges[first].1 as int,
        now,
    );
    assert(Seq::<SceneView>::empty() + shown->0 =~= shown->0);
    assert(accepted(data, one, one_range, baseline, now) == (shown->0, ranges[first].1 as int));
}

} // verus!
