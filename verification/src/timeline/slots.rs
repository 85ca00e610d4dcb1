//! The scenes of a slot.

use vstd::prelude::*;

use super::expand::{
    a_play_is_on, expand_spans, expandable, expansion, expansion_covers_window, of_seconds,
    play_of_the_turn, plays_do_not_depend_on_window, plays_follow_one_another, positive, total,
    Span,
};
use super::models::{scene_views, PlaybackScene, SceneView};
use super::overlay::{apart, is_on, lasting, on_screen};
use super::scenes::{
    build_scene, item_duration_millis, item_duration_seconds, item_millis, item_seconds,
    layouts_of_slots, scene_of, LayoutCache,
};
use crate::cms::{PlaybackDataDto, PlaybackItemDto, PlaybackSlotDto};
use crate::config::{ONE_SECOND_MS, TIMELINE_FUTURE_WINDOW_MS, TIMELINE_PAST_WINDOW_MS};
use crate::sort::{
    precedes, sorted_by_keys, sorting_permutes, stable_order, stable_order_is_stable, stable_sort,
    SortKey,
};

verus! {

/// The keys by which items take turns.
pub open spec fn position_keys(items: Seq<PlaybackItemDto>) -> Seq<SortKey> {
    Seq::new(items.len(), |i: int| (items[i].position as i64, 0i64, 0i64))
}

/// The items in the order in which they take turns.
pub open spec fn in_position_order(items: Seq<PlaybackItemDto>) -> Seq<PlaybackItemDto> {
    sorted_by_keys(items, position_keys(items))
}

/// The time that all items take together.
pub open spec fn round_millis(items: Seq<PlaybackItemDto>) -> int
    decreases items.len(),
{
    if items.len() == 0 {
        0
    } else {
        round_millis(items.drop_last()) + item_millis(items.last())
    }
}

/// The durations of the items.
pub open spec fn durations_of(items: Seq<PlaybackItemDto>) -> Seq<i64> {
    Seq::new(items.len(), |i: int| item_millis(items[i]) as i64)
}

/// Whether the time that the items of a slot take together is a number that can be held. Where
/// there is only one item, nothing has to be.
pub open spec fn slot_fits(slot: PlaybackSlotDto) -> bool {
    slot.items@.len() >= 2 ==> round_millis(in_position_order(slot.items@)) <= i64::MAX
}

/// The window within which timelines are expanded, cut to a slot.
pub open spec fn window_of(from: int, to: int, now: int) -> (int, int) {
    let past = now - TIMELINE_PAST_WINDOW_MS;
    let future = now + TIMELINE_FUTURE_WINDOW_MS;
    (if past >= from {
        past
    } else {
        from
    }, if future <= to {
        future
    } else {
        to
    })
}

/// Whether a time leaves room for the window around it.
pub open spec fn window_fits(now: int) -> bool {
    i64::MIN + TIMELINE_PAST_WINDOW_MS <= now <= i64::MAX - TIMELINE_FUTURE_WINDOW_MS
}

/// Whether a time lies in the window of a timeline that is built at `now`.
pub open spec fn in_window(now: int, time: int) -> bool {
    now - TIMELINE_PAST_WINDOW_MS <= time < now + TIMELINE_FUTURE_WINDOW_MS
}

/// The window within which timelines are expanded, cut to a slot.
pub fn expansion_window(from: i64, to: i64, now_millis: i64) -> (r: (i64, i64))
    requires
        window_fits(now_millis as int),
    ensures
        (r.0 as int, r.1 as int) == window_of(from as int, to as int, now_millis as int),
{
    let past: i64 = now_millis - TIMELINE_PAST_WINDOW_MS;
    let future: i64 = now_millis + TIMELINE_FUTURE_WINDOW_MS;
    (if past >= from {
        past
    } else {
        from
    }, if future <= to {
        future
    } else {
        to
    })
}

/// The scenes of the plays `spans`.
pub open spec fn scenes_of_spans(
    data: PlaybackDataDto,
    slot: PlaybackSlotDto,
    items: Seq<PlaybackItemDto>,
    spans: Seq<Span>,
) -> Seq<SceneView> {
    Seq::new(
        spans.len(),
        |k: int|
            scene_of(
                data,
                slot.schedule_id,
                slot.playlist_id,
                items[spans[k].index as int],
                spans[k].start,
                spans[k].end,
            ),
    )
}

/// The scenes of a slot that runs from `from` to `to`: none without items, one for the whole slot
/// with one item, and otherwise the plays of the items within the window.
pub open spec fn scenes_of_slot(
    data: PlaybackDataDto,
    slot: PlaybackSlotDto,
    from: int,
    to: int,
    now: int,
) -> Seq<SceneView> {
    let items = in_position_order(slot.items@);
    let window = window_of(from, to, now);
    if items.len() == 0 {
        Seq::empty()
    } else if items.len() == 1 {
        seq![
            scene_of(data, slot.schedule_id, slot.playlist_id, items[0], from as i64, to as i64),
        ]
    } else if window.0 >= window.1 {
        Seq::empty()
    } else {
        scenes_of_spans(
            data,
            slot,
            items,
            expansion(durations_of(items), from, to, window.0, window.1),
        )
    }
}

proof fn lemma_round(items: Seq<PlaybackItemDto>)
    requires
        round_millis(items) <= i64::MAX,
    ensures
        round_millis(items) >= 0,
        total(durations_of(items)) == round_millis(items),
        positive(durations_of(items)),
        of_seconds(durations_of(items)),
        forall|i: int| 0 <= i < items.len() ==> 0 < item_millis(#[trigger] items[i]) <= i64::MAX,
    decreases items.len(),
{
    if items.len() > 0 {
        assert(item_seconds(items.last()) > 0);
        lemma_round(items.drop_last());
        assert(durations_of(items).drop_last() =~= durations_of(items.drop_last()));
        assert forall|i: int| 0 <= i < items.len() implies 0 < item_millis(
            #[trigger] items[i],
        ) <= i64::MAX by {
            if i < items.len() - 1 {
                assert(items.drop_last()[i] == items[i]);
            }
        }
    }
}

/// The items of a slot in the order in which they take turns.
fn ordered_items(items: &Vec<PlaybackItemDto>) -> (r: Vec<&PlaybackItemDto>)
    ensures
        r@.len() == items@.len(),
        in_position_order(items@).len() == items@.len(),
        forall|i: int| 0 <= i < r@.len() ==> *(#[trigger] r@[i]) == in_position_order(items@)[i],
{
    let mut refs: Vec<&PlaybackItemDto> = Vec::new();
    let mut keys: Vec<SortKey> = Vec::new();
    let mut i: usize = 0;
    while i < items.len()
        invariant
            i <= items@.len(),
            refs@.len() == i,
            keys@.len() == i,
            forall|j: int| 0 <= j < i ==> *(#[trigger] refs@[j]) == items@[j],
            forall|j: int| 0 <= j < i ==> #[trigger] keys@[j] == position_keys(items@)[j],
        decreases items@.len() - i,
    {
        refs.push(&items[i]);
        keys.push((items[i].position as i64, 0i64, 0i64));
        i = i + 1;
    }
    proof {
        assert(keys@ =~= position_keys(items@));
        stable_order_is_stable(keys@);
    }
    let ghost unsorted = refs@;
    let out: Vec<&PlaybackItemDto> = stable_sort(refs, &keys);
    proof {
        let order = stable_order(keys@);
        assert forall|j: int| 0 <= j < out@.len() implies *(#[trigger] out@[j])
            == in_position_order(items@)[j] by {
            assert(0 <= order[j] < items@.len());
            assert(out@[j] == unsorted[order[j]]);
        }
    }
    out
}

/// Whether the time that the items of a slot take together is a number that can be held.
pub fn slot_has_room(slot: &PlaybackSlotDto) -> (r: bool)
    ensures
        r == slot_fits(*slot),
{
    if slot.items.len() < 2 {
        return true;
    }
    let items: Vec<&PlaybackItemDto> = ordered_items(&slot.items);
    let ghost all = in_position_order(slot.items@);
    let mut sum: i128 = 0;
    let mut i: usize = 0;
    while i < items.len()
        invariant
            i <= items@.len(),
            items@.len() == all.len(),
            forall|j: int| 0 <= j < items@.len() ==> *(#[trigger] items@[j]) == all[j],
            all == in_position_order(slot.items@),
            slot.items@.len() >= 2,
            sum == round_millis(all.take(i as int)),
            0 <= sum <= i64::MAX,
        decreases items@.len() - i,
    {
        let seconds: i64 = item_duration_seconds(items[i]);
        proof {
            assert(all.take(i + 1).drop_last() =~= all.take(i as int));
        }
        sum = sum + (seconds as i128) * (ONE_SECOND_MS as i128);
        i = i + 1;
        if sum > i64::MAX as i128 {
            proof {
                lemma_round_grows(all, i as int);
            }
            return false;
        }
    }
    assert(all.take(i as int) =~= all);
    true
}

proof fn lemma_round_grows(items: Seq<PlaybackItemDto>, n: int)
    requires
        0 <= n <= items.len(),
    ensures
        0 <= round_millis(items.take(n)) <= round_millis(items),
    decreases items.len(),
{
    if n == items.len() {
        assert(items.take(n) =~= items);
        if n > 0 {
            lemma_round_grows(items.drop_last(), n - 1);
            assert(items.drop_last().take(n - 1) =~= items.drop_last());
            assert(item_seconds(items.last()) > 0);
        }
    } else {
        assert(items.drop_last().take(n) =~= items.take(n));
        lemma_round_grows(items.drop_last(), n);
        assert(item_seconds(items.last()) > 0);
    }
}

/// The scenes of the plays of several items within a window.
pub fn expand_slot_scenes(
    data: &PlaybackDataDto,
    layout_cache: &LayoutCache,
    slot: &PlaybackSlotDto,
    items: &Vec<&PlaybackItemDto>,
    durations: &Vec<i64>,
    range: (i64, i64),
    window: (i64, i64),
) -> (r: Vec<PlaybackScene>)
    requires
        layout_cache.holds(layouts_of_slots(data.slots@)),
        items@.len() == durations@.len(),
        expandable(
            durations@,
            range.0 as int,
            range.1 as int,
            window.0 as int,
            window.1 as int,
        ),
    ensures
        scene_views(r@) == scenes_of_spans(
            *data,
            *slot,
            Seq::new(items@.len(), |i: int| *items@[i]),
            expansion(
                durations@,
                range.0 as int,
                range.1 as int,
                window.0 as int,
                window.1 as int,
            ),
        ),
{
    let spans: Vec<Span> = expand_spans(durations, range.0, range.1, window.0, window.1);
    let count: usize = durations.len();
    let ghost plain = Seq::new(items@.len(), |i: int| *items@[i]);
    proof {
        expansion_covers_window(
            durations@,
            range.0 as int,
            range.1 as int,
            window.0 as int,
            window.1 as int,
        );
    }
    let mut scenes: Vec<PlaybackScene> = Vec::new();
    let mut k: usize = 0;
    while k < spans.len()
        invariant
            k <= spans@.len(),
            layout_cache.holds(layouts_of_slots(data.slots@)),
            scenes@.len() == k,
            items@.len() == count,
            plain == Seq::new(items@.len(), |i: int| *items@[i]),
            forall|j: int| 0 <= j < spans@.len() ==> (#[trigger] spans@[j]).index < count,
            forall|j: int|
                0 <= j < k ==> (#[trigger] scenes@[j])@ == scenes_of_spans(
                    *data,
                    *slot,
                    plain,
                    spans@,
                )[j],
        decreases spans@.len() - k,
    {
        let span: Span = spans[k];
        scenes.push(
            build_scene(
                data,
                layout_cache,
                slot.schedule_id,
                slot.playlist_id,
                items[span.index],
                span.start,
                span.end,
            ),
        );
        k = k + 1;
    }
    assert(scene_views(scenes@) =~= scenes_of_spans(*data, *slot, plain, spans@));
    scenes
}

/// The scenes of a slot that runs from `from` to `to`.
pub fn build_slot_scenes(
    data: &PlaybackDataDto,
    layout_cache: &LayoutCache,
    slot: &PlaybackSlotDto,
    from: i64,
    to: i64,
    now_millis: i64,
) -> (r: Vec<PlaybackScene>)
    requires
        layout_cache.holds(layouts_of_slots(data.slots@)),
        slot_fits(*slot),
        window_fits(now_millis as int),
        to - from <= i64::MAX,
    ensures
        scene_views(r@) == scenes_of_slot(
            *data,
            *slot,
            from as int,
            to as int,
            now_millis as int,
        ),
{
    let items: Vec<&PlaybackItemDto> = ordered_items(&slot.items);
    let ghost all = in_position_order(slot.items@);
    let mut scenes: Vec<PlaybackScene> = Vec::new();
    if items.len() == 0 {
        assert(scene_views(scenes@) =~= Seq::empty());
        return scenes;
    }
    if items.len() == 1 {
        scenes.push(
            build_scene(
                data,
                layout_cache,
                slot.schedule_id,
                slot.playlist_id,
                items[0],
                from,
                to,
            ),
        );
        assert(*items@[0] == all[0]);
        assert(scene_views(scenes@) =~= scenes_of_slot(
            *data,
            *slot,
            from as int,
            to as int,
            now_millis as int,
        ));
        return scenes;
    }
    let window: (i64, i64) = expansion_window(from, to, now_millis);
    if window.0 >= window.1 {
        assert(scene_views(scenes@) =~= Seq::empty());
        return scenes;
    }
    proof {
        lemma_round(all);
    }
    let mut durations: Vec<i64> = Vec::new();
    let mut i: usize = 0;
    while i < items.len()
        invariant
            i <= items@.len(),
            items@.len() == all.len(),
            forall|j: int| 0 <= j < items@.len() ==> *(#[trigger] items@[j]) == all[j],
            forall|j: int| 0 <= j < all.len() ==> 0 < item_millis(#[trigger] all[j]) <= i64::MAX,
            durations@.len() == i,
            forall|j: int| 0 <= j < i ==> #[trigger] durations@[j] == durations_of(all)[j],
        decreases items@.len() - i,
    {
        assert(*items@[i as int] == all[i as int]);
        durations.push(item_duration_millis(items[i]));
        i = i + 1;
    }
    proof {
        assert(durations@ =~= durations_of(all));
        assert(Seq::new(items@.len(), |i: int| *items@[i]) =~= all);
    }
    expand_slot_scenes(data, layout_cache, slot, &items, &durations, (from, to), window)
}

/// A timeline that is built anew later has the same scene of a slot on at the same time, under the
/// same identity: what is on screen goes on.
pub proof fn rebuilding_keeps_scenes(
    data: PlaybackDataDto,
    slot: PlaybackSlotDto,
    from: i64,
    to: i64,
    now: int,
    later: int,
    a: int,
    b: int,
    time: int,
)
    requires
        slot_fits(slot),
        to - from <= i64::MAX,
        ({
            let before = scenes_of_slot(data, slot, from as int, to as int, now);
            0 <= a < before.len() && before[a].start <= time < before[a].end
        }),
        ({
            let after = scenes_of_slot(data, slot, from as int, to as int, later);
            0 <= b < after.len() && after[b].start <= time < after[b].end
        }),
    ensures
        scenes_of_slot(data, slot, from as int, to as int, now)[a] == scenes_of_slot(
            data,
            slot,
            from as int,
            to as int,
            later,
        )[b],
{
    let items = in_position_order(slot.items@);
    stable_order_is_stable(position_keys(slot.items@));
    if items.len() > 1 {
        lemma_round(items);
        assert(slot.items@.len() == slot.items.len());
        plays_do_not_depend_on_window(
            durations_of(items),
            from as int,
            to as int,
            window_of(from as int, to as int, now),
            window_of(from as int, to as int, later),
            a,
            b,
            time,
        );
    }
}

/// The scenes of a slot follow one another within the slot. The one scene of a slot with one item
/// takes the whole slot, which has to last.
pub proof fn slot_is_in_order(
    data: PlaybackDataDto,
    slot: PlaybackSlotDto,
    from: i64,
    to: i64,
    now: int,
)
    requires
        slot_fits(slot),
        slot.items@.len() == 1 ==> from < to,
        to - from <= i64::MAX,
    ensures
        ({
            let scenes = scenes_of_slot(data, slot, from as int, to as int, now);
            &&& lasting(scenes)
            &&& apart(scenes)
            &&& forall|i: int|
                0 <= i < scenes.len() ==> from <= (#[trigger] scenes[i]).start && scenes[i].end
                    <= to
        }),
{
    let items = in_position_order(slot.items@);
    stable_order_is_stable(position_keys(slot.items@));
    let window = window_of(from as int, to as int, now);
    if items.len() > 1 && window.0 < window.1 {
        lemma_round(items);
        assert(slot.items@.len() == slot.items.len());
        let durations = durations_of(items);
        let spans = expansion(durations, from as int, to as int, window.0, window.1);
        expansion_covers_window(durations, from as int, to as int, window.0, window.1);
        let scenes = scenes_of_slot(data, slot, from as int, to as int, now);
        assert forall|i: int| 0 <= i < scenes.len() implies {
            &&& from <= (#[trigger] scenes[i]).start < scenes[i].end
            &&& scenes[i].end <= to
        } by {
            assert(scenes[i].start == spans[i].start && scenes[i].end == spans[i].end);
        }
        assert forall|i: int, j: int|
            0 <= i < scenes.len() && 0 <= j < scenes.len() && i != j implies (
        #[trigger] scenes[i]).end <= (#[trigger] scenes[j]).start || scenes[j].end
            <= scenes[i].start by {
            assert(scenes[i].start == spans[i].start && scenes[i].end == spans[i].end);
            assert(scenes[j].start == spans[j].start && scenes[j].end == spans[j].end);
            if i < j {
                plays_follow_one_another(durations, spans, i, j);
            } else {
                plays_follow_one_another(durations, spans, j, i);
            }
        }
    }
}

/// A slot with items has a scene on at every time that lies in the slot and in the window.
pub proof fn slot_has_scene_on(
    data: PlaybackDataDto,
    slot: PlaybackSlotDto,
    from: i64,
    to: i64,
    now: int,
    time: int,
) -> (k: int)
    requires
        slot_fits(slot),
        to - from <= i64::MAX,
        slot.items@.len() > 0,
        from <= time < to,
        in_window(now, time),
    ensures
        ({
            let scenes = scenes_of_slot(data, slot, from as int, to as int, now);
            0 <= k < scenes.len() && on_screen(scenes[k], time)
        }),
{
    let items = in_position_order(slot.items@);
    stable_order_is_stable(position_keys(slot.items@));
    let window = window_of(from as int, to as int, now);
    if items.len() > 1 {
        lemma_round(items);
        assert(slot.items@.len() == slot.items.len());
        a_play_is_on(durations_of(items), from as int, to as int, window.0, window.1, time)
    } else {
        0
    }
}

proof fn lemma_slot_scene_stays(
    data: PlaybackDataDto,
    slot: PlaybackSlotDto,
    from: i64,
    to: i64,
    now: int,
    later: int,
    time: int,
    scene: SceneView,
)
    requires
        slot_fits(slot),
        to - from <= i64::MAX,
        in_window(later, time),
        is_on(scenes_of_slot(data, slot, from as int, to as int, now), time, scene),
    ensures
        is_on(scenes_of_slot(data, slot, from as int, to as int, later), time, scene),
{
    let before = scenes_of_slot(data, slot, from as int, to as int, now);
    let after = scenes_of_slot(data, slot, from as int, to as int, later);
    let a = choose|a: int| 0 <= a < before.len() && before[a] == scene;
    stable_order_is_stable(position_keys(slot.items@));
    if from < to {
        slot_is_in_order(data, slot, from, to, now);
        assert(from <= before[a].start && before[a].end <= to);
    }
    let b = slot_has_scene_on(data, slot, from, to, later, time);
    rebuilding_keeps_scenes(data, slot, from, to, now, later, a, b, time);
    assert(after[b] == scene);
}

/// At a time that the windows of two builds both hold, both have the same scene of a slot on, or
/// both have none on.
pub proof fn rebuilding_keeps_the_slot(
    data: PlaybackDataDto,
    slot: PlaybackSlotDto,
    from: i64,
    to: i64,
    now: int,
    later: int,
    time: int,
)
    requires
        slot_fits(slot),
        to - from <= i64::MAX,
        in_window(now, time),
        in_window(later, time),
    ensures
        forall|scene: SceneView|
            #[trigger] is_on(
                scenes_of_slot(data, slot, from as int, to as int, now),
                time,
                scene,
            ) <==> is_on(
                scenes_of_slot(data, slot, from as int, to as int, later),
                time,
                scene,
            ),
{
    let before = scenes_of_slot(data, slot, from as int, to as int, now);
    let after = scenes_of_slot(data, slot, from as int, to as int, later);
    assert forall|scene: SceneView| #[trigger] is_on(before, time, scene) <==> is_on(
        after,
        time,
        scene,
    ) by {
        if is_on(before, time, scene) {
            lemma_slot_scene_stays(data, slot, from, to, now, later, time, scene);
        }
        if is_on(after, time, scene) {
            lemma_slot_scene_stays(data, slot, from, to, later, now, time, scene);
        }
    }
}

/// Items take turns by their position: in ascending order of it, those of one position in the order
/// in which the schedule lists them. Each item has a turn, and there are no others.
pub proof fn items_take_turns_by_position(items: Seq<PlaybackItemDto>)
    ensures
        in_position_order(items).len() == items.len(),
        in_position_order(items).to_multiset() == items.to_multiset(),
        forall|i: int, j: int|
            0 <= i < j < items.len() ==> (#[trigger] in_position_order(items)[i]).position <= (
            #[trigger] in_position_order(items)[j]).position,
        forall|a: int, b: int|
            #![trigger items[a], items[b]]
            0 <= a < b < items.len() && items[a].position <= items[b].position ==> exists|
                i: int,
                j: int,
            |
                0 <= i < j < items.len() && #[trigger] in_position_order(items)[i] == items[a]
                    && #[trigger] in_position_order(items)[j] == items[b],
{
    let keys = position_keys(items);
    let order = stable_order(keys);
    let out = in_position_order(items);
    sorting_permutes(items, keys);
    stable_order_is_stable(keys);
    assert forall|i: int, j: int| 0 <= i < j < items.len() implies (#[trigger] out[i]).position <= (
    #[trigger] out[j]).position by {
        assert(0 <= order[i] < items.len() && 0 <= order[j] < items.len());
        assert(precedes(keys, order[i], order[j]));
    }
    assert forall|a: int, b: int|
        #![trigger items[a], items[b]]
        0 <= a < b < items.len() && items[a].position <= items[b].position implies exists|
        i: int,
        j: int,
    |
        0 <= i < j < items.len() && #[trigger] out[i] == items[a] && #[trigger] out[j]
            == items[b] by {
        assert(order.contains(a) && order.contains(b));
        let i = choose|i: int| 0 <= i < order.len() && order[i] == a;
        let j = choose|j: int| 0 <= j < order.len() && order[j] == b;
        if j < i {
            assert(precedes(keys, order[j], order[i]));
        }
        assert(out[i] == items[a] && out[j] == items[b]);
    }
}

/// The one item of a slot is on for the whole slot, whatever its duration and whenever the timeline
/// is built.
pub proof fn a_single_item_takes_the_whole_slot(
    data: PlaybackDataDto,
    slot: PlaybackSlotDto,
    from: i64,
    to: i64,
    now: int,
)
    requires
        slot.items@.len() == 1,
    ensures
        ({
            let scenes = scenes_of_slot(data, slot, from as int, to as int, now);
            &&& scenes.len() == 1
            &&& scenes[0].start == from
            &&& scenes[0].end == to
            &&& scenes[0].item_id == slot.items@[0].id
            &&& scenes[0].schedule_id == slot.schedule_id
            &&& scenes[0].playlist_id == slot.playlist_id
        }),
{
    stable_order_is_stable(position_keys(slot.items@));
    let order = stable_order(position_keys(slot.items@));
    assert(0 <= order[0] < 1);
}

/// Which item of a slot is on at a time: the items take turns by position from the start of the slot
/// on, each for its duration, over and over. The scene that is on belongs to the item whose turn it
/// is, starts when the turn does, and ends when the turn or the slot does.
pub proof fn the_item_whose_turn_it_is_is_on(
    data: PlaybackDataDto,
    slot: PlaybackSlotDto,
    from: i64,
    to: i64,
    now: int,
    round: int,
    turn: int,
    time: int,
)
    requires
        slot_fits(slot),
        to - from <= i64::MAX,
        slot.items@.len() >= 2,
        0 <= turn < slot.items@.len(),
        round >= 0,
        in_window(now, time),
        from <= time < to,
        ({
            let items = in_position_order(slot.items@);
            let begin = from + round * round_millis(items) + round_millis(items.take(turn));
            begin <= time < begin + item_seconds(items[turn]) * 1_000
        }),
    ensures
        ({
            let items = in_position_order(slot.items@);
            let begin = from + round * round_millis(items) + round_millis(items.take(turn));
            let over = begin + item_seconds(items[turn]) * 1_000;
            let scenes = scenes_of_slot(data, slot, from as int, to as int, now);
            exists|k: int|
                {
                    let scene = #[trigger] scenes[k];
                    &&& 0 <= k < scenes.len()
                    &&& scene.start == begin
                    &&& scene.end == if over <= to {
                        over
                    } else {
                        to as int
                    }
                    &&& scene.item_id == items[turn].id
                    &&& scene.schedule_id == slot.schedule_id
                    &&& scene.playlist_id == slot.playlist_id
                    &&& scene == scene_of(
                        data,
                        slot.schedule_id,
                        slot.playlist_id,
                        items[turn],
                        scene.start,
                        scene.end,
                    )
                }
        }),
{
    let items = in_position_order(slot.items@);
    stable_order_is_stable(position_keys(slot.items@));
    lemma_round(items);
    assert(slot.items@.len() == slot.items.len());
    let durations = durations_of(items);
    let window = window_of(from as int, to as int, now);
    lemma_round_part(items, turn);
    assert(durations[turn] == item_millis(items[turn]));
    let k = play_of_the_turn(
        durations,
        from as int,
        to as int,
        window.0,
        window.1,
        round,
        turn,
        time,
    );
    let scenes = scenes_of_slot(data, slot, from as int, to as int, now);
    let spans = expansion(durations, from as int, to as int, window.0, window.1);
    assert(scenes[k] == scene_of(
        data,
        slot.schedule_id,
        slot.playlist_id,
        items[spans[k].index as int],
        spans[k].start,
        spans[k].end,
    ));
}

proof fn lemma_round_part(items: Seq<PlaybackItemDto>, n: int)
    requires
        round_millis(items) <= i64::MAX,
        0 <= n <= items.len(),
    ensures
        total(durations_of(items).take(n)) == round_millis(items.take(n)),
{
    lemma_round_grows(items, n);
    lemma_round(items.take(n));
    assert(durations_of(items).take(n) =~= durations_of(items.take(n)));
}

/// The time that items take together is the sum of the times that each takes, in seconds times a
/// thousand.
pub proof fn a_round_is_the_sum_of_its_turns(items: Seq<PlaybackItemDto>, n: int)
    requires
        0 <= n < items.len(),
    ensures
        round_millis(items.take(0)) == 0,
        round_millis(items.take(n + 1)) == round_millis(items.take(n)) + item_seconds(items[n])
            * 1_000,
{
    assert(items.take(n + 1).drop_last() =~= items.take(n));
}

/// A timeline is written out from two minutes before the time at which it is built to thirty minutes
/// after it.
pub proof fn windows_reach_from_two_minutes_back_to_thirty_ahead(
    from: int,
    to: int,
    now: int,
    time: int,
)
    ensures
        in_window(now, time) <==> now - 120_000 <= time < now + 1_800_000,
        window_of(from, to, now).0 <= time < window_of(from, to, now).1 <==> from <= time < to
            && now - 120_000 <= time < now + 1_800_000,
{
}

} // verus!
