//! Auctioned scenes over the scenes of the schedule.

use vstd::prelude::*;
use vstd::string::*;

use super::models::{copy_scenes, scene_views, PlaybackScene, SceneView};
use crate::sort::{
    precedes, sorted_by_keys, sorting_permutes, stable_order, stable_order_is_stable, stable_sort,
    SortKey,
};
use crate::text::{i64_text, signed_decimal};

verus! {

/// The identity of a part of a scene that begins at `start`.
pub open spec fn segment_id(scene_id: Seq<char>, start: i64) -> Seq<char> {
    scene_id + ":segment:"@ + signed_decimal(start as int)
}

/// What is left of a scene where another takes its place: the part before it and the part after.
pub open spec fn cut(scene: SceneView, over: SceneView) -> Seq<SceneView> {
    if over.end <= scene.start || over.start >= scene.end {
        seq![scene]
    } else {
        let before = if scene.start < over.start {
            seq![
                SceneView {
                    end: over.start,
                    scene_id: segment_id(scene.scene_id, scene.start),
                    ..scene
                },
            ]
        } else {
            Seq::empty()
        };
        let after = if scene.end > over.end {
            seq![
                SceneView {
                    start: over.end,
                    scene_id: segment_id(scene.scene_id, over.end),
                    ..scene
                },
            ]
        } else {
            Seq::empty()
        };
        before + after
    }
}

/// What is left of some scenes where another takes their place.
pub open spec fn cut_each(scenes: Seq<SceneView>, over: SceneView) -> Seq<SceneView>
    decreases scenes.len(),
{
    if scenes.len() == 0 {
        Seq::empty()
    } else {
        cut_each(scenes.drop_last(), over) + cut(scenes.last(), over)
    }
}

/// What is left of a scene where others take its place.
pub open spec fn cut_by_all(scene: SceneView, overs: Seq<SceneView>) -> Seq<SceneView>
    decreases overs.len(),
{
    if overs.len() == 0 {
        seq![scene]
    } else {
        cut_each(cut_by_all(scene, overs.drop_last()), overs.last())
    }
}

/// What is left of a schedule where other scenes take its place.
pub open spec fn remains(baseline: Seq<SceneView>, overs: Seq<SceneView>) -> Seq<SceneView>
    decreases baseline.len(),
{
    if baseline.len() == 0 {
        Seq::empty()
    } else {
        remains(baseline.drop_last(), overs) + cut_by_all(baseline.last(), overs)
    }
}

/// The keys by which scenes come in order of their start.
pub open spec fn by_start(scenes: Seq<SceneView>) -> Seq<SortKey> {
    Seq::new(scenes.len(), |i: int| (scenes[i].start, 0i64, 0i64))
}

/// Scenes in order of their start.
pub open spec fn in_start_order(scenes: Seq<SceneView>) -> Seq<SceneView> {
    sorted_by_keys(scenes, by_start(scenes))
}

/// A schedule with auctioned scenes in the place of what they displace.
pub open spec fn overlaid(baseline: Seq<SceneView>, auctioned: Seq<SceneView>) -> Seq<SceneView> {
    if auctioned.len() == 0 {
        baseline
    } else {
        remains(baseline, in_start_order(auctioned)) + in_start_order(auctioned)
    }
}

/// Sorting models is sorting what they are models of.
pub proof fn sorted_scene_views(scenes: Seq<PlaybackScene>, keys: Seq<SortKey>)
    requires
        scenes.len() == keys.len(),
    ensures
        scene_views(sorted_by_keys(scenes, keys)) == sorted_by_keys(scene_views(scenes), keys),
{
    stable_order_is_stable(keys);
    let order = stable_order(keys);
    assert forall|j: int| 0 <= j < order.len() implies sorted_by_keys(scenes, keys)[j]@
        == scene_views(scenes)[order[j]] by {
        assert(0 <= order[j] < scenes.len());
    }
    assert(scene_views(sorted_by_keys(scenes, keys)) =~= sorted_by_keys(scene_views(scenes), keys));
}

/// Sorts scenes by their start.
pub fn sort_by_start(scenes: Vec<PlaybackScene>) -> (r: Vec<PlaybackScene>)
    ensures
        scene_views(r@) == in_start_order(scene_views(scenes@)),
{
    let mut keys: Vec<SortKey> = Vec::new();
    let mut i: usize = 0;
    while i < scenes.len()
        invariant
            i <= scenes@.len(),
            keys@.len() == i,
            forall|j: int| 0 <= j < i ==> #[trigger] keys@[j] == by_start(scene_views(scenes@))[j],
        decreases scenes@.len() - i,
    {
        keys.push((scenes[i].start_time_millis, 0i64, 0i64));
        i = i + 1;
    }
    proof {
        assert(keys@ =~= by_start(scene_views(scenes@)));
        sorted_scene_views(scenes@, keys@);
    }
    stable_sort(scenes, &keys)
}

proof fn lemma_more(a: Seq<PlaybackScene>, b: Seq<PlaybackScene>)
    ensures
        scene_views(a + b) == scene_views(a) + scene_views(b),
{
    assert(scene_views(a + b) =~= scene_views(a) + scene_views(b));
}

fn segment(scene: &PlaybackScene, start: i64, end: i64) -> (r: PlaybackScene)
    ensures
        r@ == (SceneView { start, end, scene_id: segment_id(scene@.scene_id, start), ..scene@ }),
{
    let mut part: PlaybackScene = scene.clone();
    let mut id: String = scene.scene_id.clone();
    id.append(":segment:");
    id.append(i64_text(start).as_str());
    part.scene_id = id;
    part.start_time_millis = start;
    part.end_time_millis = end;
    part
}

fn cut_scene(scene: &PlaybackScene, over: &PlaybackScene, out: &mut Vec<PlaybackScene>)
    ensures
        scene_views(final(out)@) == scene_views(old(out)@) + cut(scene@, over@),
{
    let ghost before = scene_views(out@);
    if over.end_time_millis <= scene.start_time_millis || over.start_time_millis
        >= scene.end_time_millis {
        out.push(scene.clone());
        assert(scene_views(out@) =~= before + cut(scene@, over@));
        return;
    }
    if scene.start_time_millis < over.start_time_millis {
        out.push(segment(scene, scene.start_time_millis, over.start_time_millis));
    }
    if scene.end_time_millis > over.end_time_millis {
        out.push(segment(scene, over.end_time_millis, scene.end_time_millis));
    }
    assert(scene_views(out@) =~= before + cut(scene@, over@));
}

fn cut_scenes(scenes: &Vec<PlaybackScene>, over: &PlaybackScene) -> (r: Vec<PlaybackScene>)
    ensures
        scene_views(r@) == cut_each(scene_views(scenes@), over@),
{
    let ghost views = scene_views(scenes@);
    let mut out: Vec<PlaybackScene> = Vec::new();
    let mut i: usize = 0;
    assert(scene_views(out@) =~= cut_each(views.take(0), over@));
    while i < scenes.len()
        invariant
            i <= scenes@.len(),
            views == scene_views(scenes@),
            scene_views(out@) == cut_each(views.take(i as int), over@),
        decreases scenes@.len() - i,
    {
        assert(views.take(i + 1).drop_last() =~= views.take(i as int));
        cut_scene(&scenes[i], over, &mut out);
        i = i + 1;
    }
    assert(views.take(i as int) =~= views);
    out
}

/// Puts auctioned scenes in the place of what they displace.
pub fn overlay_rtb_scenes(
    baseline: &Vec<PlaybackScene>,
    rtb_scenes: Vec<PlaybackScene>,
) -> (r: Vec<PlaybackScene>)
    ensures
        scene_views(r@) == overlaid(scene_views(baseline@), scene_views(rtb_scenes@)),
{
    if rtb_scenes.len() == 0 {
        return copy_scenes(baseline);
    }
    let mut overs: Vec<PlaybackScene> = sort_by_start(rtb_scenes);
    let ghost base = scene_views(baseline@);
    let ghost over_views = scene_views(overs@);
    let mut result: Vec<PlaybackScene> = Vec::new();
    let mut i: usize = 0;
    assert(scene_views(result@) =~= remains(base.take(0), over_views));
    while i < baseline.len()
        invariant
            i <= baseline@.len(),
            base == scene_views(baseline@),
            over_views == scene_views(overs@),
            scene_views(result@) == remains(base.take(i as int), over_views),
        decreases baseline@.len() - i,
    {
        let mut fragments: Vec<PlaybackScene> = Vec::new();
        fragments.push(baseline[i].clone());
        let mut k: usize = 0;
        assert(scene_views(fragments@) =~= cut_by_all(base[i as int], over_views.take(0)));
        while k < overs.len()
            invariant
                k <= overs@.len(),
                over_views == scene_views(overs@),
                scene_views(fragments@) == cut_by_all(base[i as int], over_views.take(k as int)),
            decreases overs@.len() - k,
        {
            assert(over_views.take(k + 1).drop_last() =~= over_views.take(k as int));
            fragments = cut_scenes(&fragments, &overs[k]);
            k = k + 1;
        }
        proof {
            assert(over_views.take(k as int) =~= over_views);
            assert(base.take(i + 1).drop_last() =~= base.take(i as int));
            lemma_more(result@, fragments@);
        }
        result.append(&mut fragments);
        i = i + 1;
    }
    proof {
        assert(base.take(i as int) =~= base);
        lemma_more(result@, overs@);
    }
    result.append(&mut overs);
    result
}

/// Whether a scene is on at `time`.
pub open spec fn on_screen(scene: SceneView, time: int) -> bool {
    scene.start <= time < scene.end
}

/// Whether `scene` is one of the scenes, and on at `time`.
pub open spec fn is_on(scenes: Seq<SceneView>, time: int, scene: SceneView) -> bool {
    on_screen(scene, time) && scenes.contains(scene)
}

/// Whether two scenes show the same: they differ at most in their identity and their time.
pub open spec fn same_content(a: SceneView, b: SceneView) -> bool {
    (SceneView { scene_id: b.scene_id, start: b.start, end: b.end, ..a }) == b
}

/// Whether some scene is on at `time` and shows what `like` shows.
pub open spec fn shown(scenes: Seq<SceneView>, time: int, like: SceneView) -> bool {
    exists|i: int|
        0 <= i < scenes.len() && on_screen(#[trigger] scenes[i], time) && same_content(
            scenes[i],
            like,
        )
}

/// Whether some scene is on at `time`.
pub open spec fn covered(scenes: Seq<SceneView>, time: int) -> bool {
    exists|i: int| 0 <= i < scenes.len() && on_screen(#[trigger] scenes[i], time)
}

/// Whether every scene ends after it starts.
pub open spec fn lasting(scenes: Seq<SceneView>) -> bool {
    forall|i: int| 0 <= i < scenes.len() ==> (#[trigger] scenes[i]).start < scenes[i].end
}

/// Whether no two scenes are on at the same time.
pub open spec fn apart(scenes: Seq<SceneView>) -> bool {
    forall|i: int, j: int|
        0 <= i < scenes.len() && 0 <= j < scenes.len() && i != j ==> (#[trigger] scenes[i]).end
            <= (#[trigger] scenes[j]).start || scenes[j].end <= scenes[i].start
}

proof fn lemma_shown_concat(a: Seq<SceneView>, b: Seq<SceneView>, time: int, like: SceneView)
    ensures
        shown(a + b, time, like) <==> shown(a, time, like) || shown(b, time, like),
{
    let c = a + b;
    if shown(a, time, like) {
        let i = choose|i: int|
            0 <= i < a.len() && on_screen(#[trigger] a[i], time) && same_content(a[i], like);
        assert(c[i] == a[i]);
    }
    if shown(b, time, like) {
        let i = choose|i: int|
            0 <= i < b.len() && on_screen(#[trigger] b[i], time) && same_content(b[i], like);
        assert(c[a.len() + i] == b[i]);
    }
    if shown(c, time, like) {
        let i = choose|i: int|
            0 <= i < c.len() && on_screen(#[trigger] c[i], time) && same_content(c[i], like);
        if i < a.len() {
            assert(a[i] == c[i]);
        } else {
            assert(b[i - a.len()] == c[i]);
        }
    }
}

proof fn lemma_cut_shows(scene: SceneView, over: SceneView, time: int, like: SceneView)
    requires
        over.start < over.end,
    ensures
        shown(cut(scene, over), time, like) <==> on_screen(scene, time) && same_content(scene, like)
            && !on_screen(over, time),
{
    let parts = cut(scene, over);
    if over.end <= scene.start || over.start >= scene.end {
        assert(parts[0] == scene);
    } else {
        let first = SceneView {
            end: over.start,
            scene_id: segment_id(scene.scene_id, scene.start),
            ..scene
        };
        let second = SceneView {
            start: over.end,
            scene_id: segment_id(scene.scene_id, over.end),
            ..scene
        };
        let n = if scene.start < over.start { 1int } else { 0int };
        if scene.start < over.start {
            assert(parts[0] == first);
        }
        if scene.end > over.end {
            assert(parts[n] == second);
        }
        assert forall|i: int| 0 <= i < parts.len() implies parts[i] == first || parts[i]
            == second by {}
    }
}

proof fn lemma_cut_each_shows(scenes: Seq<SceneView>, over: SceneView, time: int, like: SceneView)
    requires
        over.start < over.end,
    ensures
        shown(cut_each(scenes, over), time, like) <==> shown(scenes, time, like) && !on_screen(
            over,
            time,
        ),
    decreases scenes.len(),
{
    if scenes.len() > 0 {
        let shorter = scenes.drop_last();
        lemma_cut_each_shows(shorter, over, time, like);
        lemma_cut_shows(scenes.last(), over, time, like);
        lemma_shown_concat(cut_each(shorter, over), cut(scenes.last(), over), time, like);
        lemma_shown_concat(shorter, seq![scenes.last()], time, like);
        assert(scenes =~= shorter + seq![scenes.last()]);
        assert(seq![scenes.last()][0] == scenes.last());
    }
}

proof fn lemma_cut_by_all_shows(
    scene: SceneView,
    overs: Seq<SceneView>,
    time: int,
    like: SceneView,
)
    requires
        lasting(overs),
    ensures
        shown(cut_by_all(scene, overs), time, like) <==> on_screen(scene, time) && same_content(
            scene,
            like,
        ) && !covered(overs, time),
    decreases overs.len(),
{
    if overs.len() == 0 {
        assert(cut_by_all(scene, overs)[0] == scene);
    } else {
        let shorter = overs.drop_last();
        assert(lasting(shorter)) by {
            assert forall|i: int| 0 <= i < shorter.len() implies (#[trigger] shorter[i]).start
                < shorter[i].end by {
                assert(shorter[i] == overs[i]);
            }
        }
        lemma_cut_by_all_shows(scene, shorter, time, like);
        assert(overs[overs.len() - 1].start < overs[overs.len() - 1].end);
        lemma_cut_each_shows(cut_by_all(scene, shorter), overs.last(), time, like);
        if covered(shorter, time) {
            let i = choose|i: int| 0 <= i < shorter.len() && on_screen(#[trigger] shorter[i], time);
            assert(overs[i] == shorter[i]);
        }
        if covered(overs, time) {
            let i = choose|i: int| 0 <= i < overs.len() && on_screen(#[trigger] overs[i], time);
            if i < shorter.len() {
                assert(shorter[i] == overs[i]);
            }
        }
        if on_screen(overs.last(), time) {
            assert(on_screen(overs[overs.len() - 1], time));
        }
    }
}

proof fn lemma_remains_show(
    baseline: Seq<SceneView>,
    overs: Seq<SceneView>,
    time: int,
    like: SceneView,
)
    requires
        lasting(overs),
    ensures
        shown(remains(baseline, overs), time, like) <==> shown(baseline, time, like) && !covered(
            overs,
            time,
        ),
    decreases baseline.len(),
{
    if baseline.len() > 0 {
        let shorter = baseline.drop_last();
        lemma_remains_show(shorter, overs, time, like);
        lemma_cut_by_all_shows(baseline.last(), overs, time, like);
        lemma_shown_concat(
            remains(shorter, overs),
            cut_by_all(baseline.last(), overs),
            time,
            like,
        );
        lemma_shown_concat(shorter, seq![baseline.last()], time, like);
        assert(baseline =~= shorter + seq![baseline.last()]);
        assert(seq![baseline.last()][0] == baseline.last());
    }
}

/// Sorting changes neither what is on at any time nor whether scenes overlap.
pub proof fn sorting_keeps_scenes(scenes: Seq<SceneView>, keys: Seq<SortKey>)
    requires
        scenes.len() == keys.len(),
    ensures
        sorted_by_keys(scenes, keys).len() == scenes.len(),
        lasting(scenes) <==> lasting(sorted_by_keys(scenes, keys)),
        apart(scenes) ==> apart(sorted_by_keys(scenes, keys)),
        forall|time: int|
            #[trigger] covered(scenes, time) <==> covered(sorted_by_keys(scenes, keys), time),
        forall|time: int, like: SceneView|
            #[trigger] shown(scenes, time, like) <==> shown(
                sorted_by_keys(scenes, keys),
                time,
                like,
            ),
{
    stable_order_is_stable(keys);
    let order = stable_order(keys);
    let out = sorted_by_keys(scenes, keys);
    assert forall|i: int| 0 <= i < out.len() implies 0 <= order[i] < scenes.len() && #[trigger] out[i]
        == scenes[order[i]] by {}
    assert forall|i: int| 0 <= i < scenes.len() implies out.contains(#[trigger] scenes[i]) by {
        assert(order.contains(i));
        let j = choose|j: int| 0 <= j < order.len() && order[j] == i;
        assert(out[j] == scenes[i]);
    }
    if apart(scenes) {
        assert forall|i: int, j: int|
            0 <= i < out.len() && 0 <= j < out.len() && i != j implies (#[trigger] out[i]).end <= (
        #[trigger] out[j]).start || out[j].end <= out[i].start by {
            let x = order[i];
            let y = order[j];
            assert(x != y) by {
                if i < j {
                    assert(crate::sort::precedes(keys, order[i], order[j]));
                } else {
                    assert(crate::sort::precedes(keys, order[j], order[i]));
                }
            }
            assert(scenes[x].end <= scenes[y].start || scenes[y].end <= scenes[x].start);
        }
    }
    if lasting(out) {
        assert forall|i: int| 0 <= i < scenes.len() implies (#[trigger] scenes[i]).start
            < scenes[i].end by {
            let j = choose|j: int| 0 <= j < out.len() && out[j] == scenes[i];
            assert(out[j].start < out[j].end);
        }
    }
    assert forall|time: int| #[trigger] covered(scenes, time) <==> covered(out, time) by {
        if covered(scenes, time) {
            let i = choose|i: int| 0 <= i < scenes.len() && on_screen(#[trigger] scenes[i], time);
            let j = choose|j: int| 0 <= j < out.len() && out[j] == scenes[i];
            assert(on_screen(out[j], time));
        }
        if covered(out, time) {
            let j = choose|j: int| 0 <= j < out.len() && on_screen(#[trigger] out[j], time);
            assert(on_screen(scenes[order[j]], time));
        }
    }
    assert forall|time: int, like: SceneView|
        #[trigger] shown(scenes, time, like) <==> shown(out, time, like) by {
        if shown(scenes, time, like) {
            let i = choose|i: int|
                0 <= i < scenes.len() && on_screen(#[trigger] scenes[i], time) && same_content(
                    scenes[i],
                    like,
                );
            let j = choose|j: int| 0 <= j < out.len() && out[j] == scenes[i];
            assert(on_screen(out[j], time));
        }
        if shown(out, time, like) {
            let j = choose|j: int|
                0 <= j < out.len() && on_screen(#[trigger] out[j], time) && same_content(
                    out[j],
                    like,
                );
            assert(on_screen(scenes[order[j]], time));
        }
    }
}

/// At every time, what an auction sold is on where it sold that time, and what the schedule says is
/// on, at its own time, where it did not.
pub proof fn auctioned_scenes_take_precedence(
    baseline: Seq<SceneView>,
    auctioned: Seq<SceneView>,
    time: int,
    like: SceneView,
)
    requires
        lasting(auctioned),
    ensures
        shown(overlaid(baseline, auctioned), time, like) <==> if covered(auctioned, time) {
            shown(auctioned, time, like)
        } else {
            shown(baseline, time, like)
        },
{
    if auctioned.len() > 0 {
        let overs = in_start_order(auctioned);
        sorting_keeps_scenes(auctioned, by_start(auctioned));
        assert(covered(auctioned, time) <==> covered(overs, time));
        assert(shown(auctioned, time, like) <==> shown(overs, time, like));
        lemma_remains_show(baseline, overs, time, like);
        lemma_shown_concat(remains(baseline, overs), overs, time, like);
        if shown(overs, time, like) {
            let i = choose|i: int|
                0 <= i < overs.len() && on_screen(#[trigger] overs[i], time) && same_content(
                    overs[i],
                    like,
                );
            assert(on_screen(overs[i], time));
        }
    }
}

/// The scenes of `inner` lie within `outer`, and where they do not, within none of `overs`.
spec fn within(inner: Seq<SceneView>, outer: SceneView) -> bool {
    forall|i: int|
        0 <= i < inner.len() ==> outer.start <= (#[trigger] inner[i]).start && inner[i].end
            <= outer.end
}

spec fn clear_of(scenes: Seq<SceneView>, over: SceneView) -> bool {
    forall|i: int|
        0 <= i < scenes.len() ==> over.end <= (#[trigger] scenes[i]).start || over.start
            >= scenes[i].end
}

proof fn lemma_cut_each_apart(scenes: Seq<SceneView>, outer: SceneView, over: SceneView)
    requires
        apart(scenes),
        lasting(scenes),
        within(scenes, outer),
        over.start < over.end,
    ensures
        apart(cut_each(scenes, over)),
        lasting(cut_each(scenes, over)),
        within(cut_each(scenes, over), outer),
        clear_of(cut_each(scenes, over), over),
        forall|i: int|
            0 <= i < cut_each(scenes, over).len() ==> exists|j: int|
                0 <= j < scenes.len() && (#[trigger] scenes[j]).start <= (
                #[trigger] cut_each(scenes, over)[i]).start && cut_each(scenes, over)[i].end
                    <= scenes[j].end,
    decreases scenes.len(),
{
    if scenes.len() > 0 {
        let shorter = scenes.drop_last();
        let last = scenes.last();
        assert(last == scenes[scenes.len() - 1]);
        assert forall|i: int| 0 <= i < shorter.len() implies #[trigger] shorter[i] == scenes[i] by {}
        lemma_cut_each_apart(shorter, outer, over);
        let a = cut_each(shorter, over);
        let b = cut(last, over);
        let c = cut_each(scenes, over);
        assert(c =~= a + b);
        assert forall|i: int| 0 <= i < b.len() implies last.start <= (#[trigger] b[i]).start
            && b[i].end <= last.end && b[i].start < b[i].end && (over.end <= b[i].start
            || over.start >= b[i].end) by {}
        assert forall|i: int| 0 <= i < c.len() implies exists|j: int|
            0 <= j < scenes.len() && (#[trigger] scenes[j]).start <= (#[trigger] c[i]).start
                && c[i].end <= scenes[j].end by {
            if i < a.len() {
                assert(c[i] == a[i]);
                let j = choose|j: int|
                    0 <= j < shorter.len() && (#[trigger] shorter[j]).start <= a[i].start
                        && a[i].end <= shorter[j].end;
                assert(scenes[j] == shorter[j]);
            } else {
                assert(c[i] == b[i - a.len()]);
                assert(scenes[scenes.len() - 1] == last);
            }
        }
        assert forall|i: int, j: int|
            0 <= i < c.len() && 0 <= j < c.len() && i != j implies (#[trigger] c[i]).end <= (
        #[trigger] c[j]).start || c[j].end <= c[i].start by {
            if i < a.len() && j < a.len() {
                assert(c[i] == a[i] && c[j] == a[j]);
            } else if i >= a.len() && j >= a.len() {
                assert(c[i] == b[i - a.len()] && c[j] == b[j - a.len()]);
            } else if i < a.len() {
                assert(c[i] == a[i] && c[j] == b[j - a.len()]);
                let k = choose|k: int|
                    0 <= k < shorter.len() && (#[trigger] shorter[k]).start <= a[i].start
                        && a[i].end <= shorter[k].end;
                assert(scenes[k] == shorter[k]);
                assert(scenes[k].end <= last.start || last.end <= scenes[k].start);
            } else {
                assert(c[j] == a[j] && c[i] == b[i - a.len()]);
                let k = choose|k: int|
                    0 <= k < shorter.len() && (#[trigger] shorter[k]).start <= a[j].start
                        && a[j].end <= shorter[k].end;
                assert(scenes[k] == shorter[k]);
                assert(scenes[k].end <= last.start || last.end <= scenes[k].start);
            }
        }
        assert forall|i: int| 0 <= i < c.len() implies outer.start <= (#[trigger] c[i]).start
            && c[i].end <= outer.end && c[i].start < c[i].end && (over.end <= c[i].start
            || over.start >= c[i].end) by {
            if i < a.len() {
                assert(c[i] == a[i]);
            } else {
                assert(c[i] == b[i - a.len()]);
            }
        }
    }
}

proof fn lemma_cut_by_all_apart(scene: SceneView, overs: Seq<SceneView>)
    requires
        scene.start < scene.end,
        lasting(overs),
    ensures
        apart(cut_by_all(scene, overs)),
        lasting(cut_by_all(scene, overs)),
        within(cut_by_all(scene, overs), scene),
        forall|k: int|
            0 <= k < overs.len() ==> clear_of(cut_by_all(scene, overs), #[trigger] overs[k]),
    decreases overs.len(),
{
    if overs.len() > 0 {
        let shorter = overs.drop_last();
        assert forall|i: int| 0 <= i < shorter.len() implies #[trigger] shorter[i] == overs[i] by {}
        lemma_cut_by_all_apart(scene, shorter);
        let before = cut_by_all(scene, shorter);
        let over = overs[overs.len() - 1];
        lemma_cut_each_apart(before, scene, over);
        let out = cut_by_all(scene, overs);
        assert forall|k: int| 0 <= k < overs.len() implies clear_of(out, #[trigger] overs[k]) by {
            if k < shorter.len() {
                assert(clear_of(before, shorter[k]));
                assert forall|i: int| 0 <= i < out.len() implies overs[k].end <= (
                #[trigger] out[i]).start || overs[k].start >= out[i].end by {
                    let j = choose|j: int|
                        0 <= j < before.len() && (#[trigger] before[j]).start <= out[i].start
                            && out[i].end <= before[j].end;
                    assert(overs[k].end <= before[j].start || overs[k].start >= before[j].end);
                }
            }
        }
    }
}

proof fn lemma_remains_apart(baseline: Seq<SceneView>, overs: Seq<SceneView>)
    requires
        lasting(baseline),
        apart(baseline),
        lasting(overs),
    ensures
        lasting(remains(baseline, overs)),
        apart(remains(baseline, overs)),
        forall|k: int|
            0 <= k < overs.len() ==> clear_of(remains(baseline, overs), #[trigger] overs[k]),
        forall|i: int|
            0 <= i < remains(baseline, overs).len() ==> exists|j: int|
                0 <= j < baseline.len() && (#[trigger] baseline[j]).start <= (#[trigger] remains(
                    baseline,
                    overs,
                )[i]).start && remains(baseline, overs)[i].end <= baseline[j].end,
    decreases baseline.len(),
{
    if baseline.len() > 0 {
        let shorter = baseline.drop_last();
        let last = baseline[baseline.len() - 1];
        assert forall|i: int| 0 <= i < shorter.len() implies #[trigger] shorter[i] == baseline[i] by {}
        lemma_remains_apart(shorter, overs);
        lemma_cut_by_all_apart(last, overs);
        let a = remains(shorter, overs);
        let b = cut_by_all(last, overs);
        let c = remains(baseline, overs);
        assert(c =~= a + b);
        assert forall|i: int| 0 <= i < c.len() implies exists|j: int|
            0 <= j < baseline.len() && (#[trigger] baseline[j]).start <= (#[trigger] c[i]).start
                && c[i].end <= baseline[j].end by {
            if i < a.len() {
                assert(c[i] == a[i]);
                let j = choose|j: int|
                    0 <= j < shorter.len() && (#[trigger] shorter[j]).start <= a[i].start
                        && a[i].end <= shorter[j].end;
                assert(baseline[j] == shorter[j]);
            } else {
                assert(c[i] == b[i - a.len()]);
                assert(baseline[baseline.len() - 1] == last);
            }
        }
        assert forall|i: int, j: int|
            0 <= i < c.len() && 0 <= j < c.len() && i != j implies (#[trigger] c[i]).end <= (
        #[trigger] c[j]).start || c[j].end <= c[i].start by {
            if i < a.len() && j < a.len() {
                assert(c[i] == a[i] && c[j] == a[j]);
            } else if i >= a.len() && j >= a.len() {
                assert(c[i] == b[i - a.len()] && c[j] == b[j - a.len()]);
            } else {
                let (x, y) = if i < a.len() { (i, j) } else { (j, i) };
                assert(c[x] == a[x] && c[y] == b[y - a.len()]);
                let k = choose|k: int|
                    0 <= k < shorter.len() && (#[trigger] shorter[k]).start <= a[x].start
                        && a[x].end <= shorter[k].end;
                assert(baseline[k] == shorter[k]);
                assert(baseline[k].end <= last.start || last.end <= baseline[k].start);
            }
        }
        assert forall|k: int| 0 <= k < overs.len() implies clear_of(c, #[trigger] overs[k]) by {
            assert(clear_of(a, overs[k]) && clear_of(b, overs[k]));
            assert forall|i: int| 0 <= i < c.len() implies overs[k].end <= (#[trigger] c[i]).start
                || overs[k].start >= c[i].end by {
                if i < a.len() {
                    assert(c[i] == a[i]);
                } else {
                    assert(c[i] == b[i - a.len()]);
                }
            }
        }
        assert forall|i: int| 0 <= i < c.len() implies (#[trigger] c[i]).start < c[i].end by {
            if i < a.len() {
                assert(c[i] == a[i]);
            } else {
                assert(c[i] == b[i - a.len()]);
            }
        }
    }
}

/// Where the scenes of the schedule are on at different times, and so are the auctioned ones, the
/// two together are too.
pub proof fn overlay_keeps_scenes_apart(baseline: Seq<SceneView>, auctioned: Seq<SceneView>)
    requires
        lasting(baseline),
        apart(baseline),
        lasting(auctioned),
        apart(auctioned),
    ensures
        lasting(overlaid(baseline, auctioned)),
        apart(overlaid(baseline, auctioned)),
{
    if auctioned.len() > 0 {
        let overs = in_start_order(auctioned);
        sorting_keeps_scenes(auctioned, by_start(auctioned));
        lemma_remains_apart(baseline, overs);
        let a = remains(baseline, overs);
        let c = overlaid(baseline, auctioned);
        assert(c =~= a + overs);
        assert forall|i: int, j: int|
            0 <= i < c.len() && 0 <= j < c.len() && i != j implies (#[trigger] c[i]).end <= (
        #[trigger] c[j]).start || c[j].end <= c[i].start by {
            if i < a.len() && j < a.len() {
                assert(c[i] == a[i] && c[j] == a[j]);
            } else if i >= a.len() && j >= a.len() {
                assert(c[i] == overs[i - a.len()] && c[j] == overs[j - a.len()]);
            } else {
                let (x, y) = if i < a.len() { (i, j) } else { (j, i) };
                assert(c[x] == a[x] && c[y] == overs[y - a.len()]);
                assert(clear_of(a, overs[y - a.len()]));
            }
        }
        assert forall|i: int| 0 <= i < c.len() implies (#[trigger] c[i]).start < c[i].end by {
            if i < a.len() {
                assert(c[i] == a[i]);
            } else {
                assert(c[i] == overs[i - a.len()]);
            }
        }
    }
}

/// What is left of a scene that an auctioned one overlaps is what comes before that and what comes
/// after: each the scene itself but for its time and its name, which tells where it starts. A scene
/// that does not overlap stays as it is.
pub proof fn scenes_are_cut_around_auctioned_ones(scene: SceneView, over: SceneView)
    ensures
        over.end <= scene.start || scene.end <= over.start ==> cut(scene, over) == seq![scene],
        forall|k: int|
            0 <= k < cut(scene, over).len() ==> {
                let part = #[trigger] cut(scene, over)[k];
                &&& scene.start <= part.start
                &&& part.end <= scene.end
                &&& over.start < over.end ==> part.end <= over.start || over.end <= part.start
                &&& part.schedule_id == scene.schedule_id
                &&& part.playlist_id == scene.playlist_id
                &&& part.item_id == scene.item_id
                &&& part.transition == scene.transition
                &&& part.loop_playback == scene.loop_playback
                &&& part.layout == scene.layout
                &&& part.asset_refs == scene.asset_refs
                &&& part.rtb == scene.rtb
                &&& part.fallback == scene.fallback
                &&& part == scene || part.scene_id == scene.scene_id + ":segment:"@
                    + signed_decimal(part.start as int)
            },
        scene.start < over.start < scene.end && scene.start < over.end ==> cut(scene, over).len()
            > 0 && cut(scene, over)[0].start == scene.start && cut(scene, over)[0].end
            == over.start,
        scene.start < over.end < scene.end && over.start < scene.end ==> cut(scene, over).len() > 0
            && cut(scene, over).last().start == over.end && cut(scene, over).last().end
            == scene.end,
        over.start <= scene.start < scene.end <= over.end ==> cut(scene, over).len() == 0,
{
}

/// Scenes that are put in order come by their starts; of two that start together the one that was
/// first stays first. None is lost and none comes twice.
pub proof fn scenes_are_put_in_order_of_their_starts(scenes: Seq<SceneView>)
    ensures
        in_start_order(scenes).len() == scenes.len(),
        in_start_order(scenes).to_multiset() == scenes.to_multiset(),
        forall|i: int, j: int|
            0 <= i < j < scenes.len() ==> (#[trigger] in_start_order(scenes)[i]).start <= (
            #[trigger] in_start_order(scenes)[j]).start,
{
    let keys = by_start(scenes);
    stable_order_is_stable(keys);
    sorting_permutes(scenes, keys);
    assert forall|i: int, j: int| 0 <= i < j < scenes.len() implies (
    #[trigger] in_start_order(scenes)[i]).start <= (#[trigger] in_start_order(scenes)[j]).start by {
        assert(precedes(keys, stable_order(keys)[i], stable_order(keys)[j]));
    }
}

/// Two scenes show the same where they differ in nothing but their name and their times.
pub proof fn scenes_show_the_same_but_for_name_and_times(a: SceneView, b: SceneView)
    ensures
        same_content(a, b) <==> {
            &&& a.schedule_id == b.schedule_id
            &&& a.playlist_id == b.playlist_id
            &&& a.item_id == b.item_id
            &&& a.transition == b.transition
            &&& a.loop_playback == b.loop_playback
            &&& a.layout == b.layout
            &&& a.asset_refs == b.asset_refs
            &&& a.rtb == b.rtb
            &&& a.fallback == b.fallback
        },
{
}
} // verus!
