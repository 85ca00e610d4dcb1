//! Which assets are needed when.

use vstd::prelude::*;

use crate::config::FILE_CACHE_WARM_WINDOW_MS;
use crate::text::{same_text, text_lt, texts};
use crate::timeline::models::{asset_views, AssetRefView, SceneView};
use crate::timeline::query::{
    a_time_holds_the_scenes_on_in_it, ascending, bisection_stays_within, distinct_refs, has_key,
    index_after, index_at, insert_distinct, is_first, next_scene_follows_the_current,
    refs_of_scenes, scenes_between,
};
use crate::timeline::{AssetRef, PlaybackScene, PlaybackTimeline};

verus! {

/// The assets of a scene and of what replaces it.
pub open spec fn refs_of_scene(scene: SceneView) -> Seq<AssetRefView> {
    match scene.fallback {
        Some(f) => scene.asset_refs + f.asset_refs,
        None => scene.asset_refs,
    }
}

/// The assets of scenes and of what replaces them.
pub open spec fn refs_with_fallbacks(scenes: Seq<SceneView>) -> Seq<AssetRefView>
    decreases scenes.len(),
{
    if scenes.len() == 0 {
        Seq::empty()
    } else {
        refs_with_fallbacks(scenes.drop_last()) + refs_of_scene(scenes.last())
    }
}

/// The assets of the scene at an index, where there is one.
pub open spec fn refs_at(scenes: Seq<SceneView>, index: Option<int>) -> Seq<AssetRefView> {
    match index {
        Some(i) => refs_of_scene(scenes[i]),
        None => Seq::empty(),
    }
}

/// The assets that are needed from `now` to `to`: those of the scenes in that time, of the scene
/// that is on and of the next.
pub open spec fn needed_refs(scenes: Seq<SceneView>, now: int, to: int) -> Seq<AssetRefView> {
    refs_with_fallbacks(scenes_between(scenes, now, to)) + refs_at(scenes, index_at(scenes, now))
        + refs_at(scenes, index_after(scenes, now))
}

fn add_refs(distinct: &mut Vec<AssetRef>, refs: &Vec<AssetRef>, Ghost(so_far): Ghost<Seq<AssetRefView>>)
    requires
        distinct_refs(asset_views(old(distinct)@), so_far),
    ensures
        distinct_refs(asset_views(final(distinct)@), so_far + asset_views(refs@)),
{
    let ghost own = asset_views(refs@);
    let mut k: usize = 0;
    assert(so_far + own.take(0) =~= so_far);
    while k < refs.len()
        invariant
            k <= refs@.len(),
            own == asset_views(refs@),
            distinct_refs(asset_views(distinct@), so_far + own.take(k as int)),
        decreases refs@.len() - k,
    {
        insert_distinct(distinct, &refs[k], Ghost(so_far + own.take(k as int)));
        assert((so_far + own.take(k as int)).push(own[k as int]) =~= so_far + own.take(k + 1));
        k = k + 1;
    }
    assert(own.take(k as int) =~= own);
}

fn add_scene_refs(
    distinct: &mut Vec<AssetRef>,
    scene: &PlaybackScene,
    Ghost(so_far): Ghost<Seq<AssetRefView>>,
)
    requires
        distinct_refs(asset_views(old(distinct)@), so_far),
    ensures
        distinct_refs(asset_views(final(distinct)@), so_far + refs_of_scene(scene@)),
{
    add_refs(distinct, &scene.asset_refs, Ghost(so_far));
    match &scene.fallback_scene {
        Some(f) => {
            add_refs(distinct, &f.asset_refs, Ghost(so_far + scene@.asset_refs));
            assert(so_far + scene@.asset_refs + f@.asset_refs =~= so_far + refs_of_scene(scene@));
        },
        None => {},
    }
}

/// The assets that have to be there before playback goes on: those that are needed within
/// `preload_millis`, each once.
pub fn preload_window_assets(
    timeline: &PlaybackTimeline,
    now: i64,
    preload_millis: i64,
) -> (r: Vec<AssetRef>)
    requires
        i64::MIN <= now + preload_millis <= i64::MAX,
    ensures
        distinct_refs(
            asset_views(r@),
            needed_refs(timeline@.scenes, now as int, now + preload_millis),
        ),
{
    let to: i64 = now + preload_millis;
    let ghost all = timeline@.scenes;
    let ghost within = scenes_between(all, now as int, to as int);
    let window: Vec<&PlaybackScene> = timeline.scenes_in_window(now, to);
    let mut out: Vec<AssetRef> = Vec::new();
    let mut i: usize = 0;
    assert(refs_with_fallbacks(within.take(0)) =~= Seq::empty());
    while i < window.len()
        invariant
            i <= window@.len(),
            within == crate::timeline::query::scene_ref_views(window@),
            distinct_refs(asset_views(out@), refs_with_fallbacks(within.take(i as int))),
        decreases window@.len() - i,
    {
        assert(within.take(i + 1).drop_last() =~= within.take(i as int));
        assert(within[i as int] == window@[i as int]@);
        add_scene_refs(&mut out, window[i], Ghost(refs_with_fallbacks(within.take(i as int))));
        i = i + 1;
    }
    assert(within.take(i as int) =~= within);
    let ghost base = refs_with_fallbacks(within);
    let ghost here = refs_at(all, index_at(all, now as int));
    match timeline.current_scene(now) {
        Some(scene) => {
            add_scene_refs(&mut out, scene, Ghost(base));
        },
        None => {
            assert(base + here =~= base);
        },
    }
    match timeline.next_scene(now) {
        Some(scene) => {
            add_scene_refs(&mut out, scene, Ghost(base + here));
        },
        None => {
            assert(base + here + refs_at(all, index_after(all, now as int)) =~= base + here);
        },
    }
    out
}

/// Whether an asset is kept under this name.
pub fn keeps(refs: &Vec<AssetRef>, key: &str) -> (r: bool)
    ensures
        r == has_key(asset_views(refs@), key@),
{
    let ghost views = asset_views(refs@);
    let mut i: usize = 0;
    while i < refs.len()
        invariant
            i <= refs@.len(),
            views == asset_views(refs@),
            forall|j: int| 0 <= j < i ==> (#[trigger] views[j]).key() != key@,
        decreases refs@.len() - i,
    {
        assert(views[i as int] == refs@[i as int]@);
        if same_text(refs[i].cache_key().as_str(), key) {
            return true;
        }
        i = i + 1;
    }
    false
}

/// Whether a scene of the schedule itself, or what replaces an auctioned one, needs this asset.
pub open spec fn scheduled_key(scenes: Seq<SceneView>, key: Seq<char>) -> bool {
    exists|i: int|
        0 <= i < scenes.len() && {
            ||| (#[trigger] scenes[i]).rtb is None && has_key(scenes[i].asset_refs, key)
            ||| scenes[i].fallback matches Some(f) && has_key(f.asset_refs, key)
        }
}

fn is_scheduled_key(timeline: &PlaybackTimeline, key: &str) -> (r: bool)
    ensures
        r == scheduled_key(timeline@.scenes, key@),
{
    let ghost views = timeline@.scenes;
    let mut i: usize = 0;
    while i < timeline.scenes.len()
        invariant
            i <= timeline.scenes@.len(),
            views == timeline@.scenes,
            forall|j: int|
                0 <= j < i ==> !((#[trigger] views[j]).rtb is None && has_key(
                    views[j].asset_refs,
                    key@,
                )) && !(views[j].fallback matches Some(f) && has_key(f.asset_refs, key@)),
        decreases timeline.scenes@.len() - i,
    {
        let scene: &PlaybackScene = &timeline.scenes[i];
        assert(views[i as int] == scene@);
        if scene.rtb.is_none() && keeps(&scene.asset_refs, key) {
            return true;
        }
        match &scene.fallback_scene {
            Some(f) => {
                assert(f@.asset_refs == asset_views(f.asset_refs@));
                if keeps(&f.asset_refs, key) {
                    return true;
                }
            },
            None => {},
        }
        i = i + 1;
    }
    false
}

/// The assets that the schedule itself needs, out of `refs`.
pub open spec fn scheduled_part(refs: Seq<AssetRefView>, scenes: Seq<SceneView>) -> Seq<AssetRefView>
    decreases refs.len(),
{
    if refs.len() == 0 {
        Seq::empty()
    } else if scheduled_key(scenes, refs.last().key()) {
        scheduled_part(refs.drop_last(), scenes).push(refs.last())
    } else {
        scheduled_part(refs.drop_last(), scenes)
    }
}

/// The assets that only auctioned scenes need, out of `refs`.
pub open spec fn auctioned_part(refs: Seq<AssetRefView>, scenes: Seq<SceneView>) -> Seq<AssetRefView>
    decreases refs.len(),
{
    if refs.len() == 0 {
        Seq::empty()
    } else if scheduled_key(scenes, refs.last().key()) {
        auctioned_part(refs.drop_last(), scenes)
    } else {
        auctioned_part(refs.drop_last(), scenes).push(refs.last())
    }
}

/// Tells the assets that the schedule itself needs from those that only auctioned scenes need.
pub fn split_assets(timeline: &PlaybackTimeline, refs: &Vec<AssetRef>) -> (r: (
    Vec<AssetRef>,
    Vec<AssetRef>,
))
    ensures
        asset_views(r.0@) == scheduled_part(asset_views(refs@), timeline@.scenes),
        asset_views(r.1@) == auctioned_part(asset_views(refs@), timeline@.scenes),
{
    let ghost views = asset_views(refs@);
    let ghost scenes = timeline@.scenes;
    let mut scheduled: Vec<AssetRef> = Vec::new();
    let mut auctioned: Vec<AssetRef> = Vec::new();
    let mut i: usize = 0;
    proof {
        assert(asset_views(scheduled@) =~= scheduled_part(views.take(0), scenes));
        assert(asset_views(auctioned@) =~= auctioned_part(views.take(0), scenes));
    }
    while i < refs.len()
        invariant
            i <= refs@.len(),
            views == asset_views(refs@),
            scenes == timeline@.scenes,
            asset_views(scheduled@) == scheduled_part(views.take(i as int), scenes),
            asset_views(auctioned@) == auctioned_part(views.take(i as int), scenes),
        decreases refs@.len() - i,
    {
        let ghost a = asset_views(scheduled@);
        let ghost b = asset_views(auctioned@);
        proof {
            assert(views.take(i + 1).drop_last() =~= views.take(i as int));
            assert(views[i as int] == refs@[i as int]@);
        }
        if is_scheduled_key(timeline, refs[i].cache_key().as_str()) {
            scheduled.push(refs[i].clone());
            assert(asset_views(scheduled@) =~= a.push(views[i as int]));
        } else {
            auctioned.push(refs[i].clone());
            assert(asset_views(auctioned@) =~= b.push(views[i as int]));
        }
        i = i + 1;
    }
    assert(views.take(i as int) =~= views);
    (scheduled, auctioned)
}

/// The auctioned slots that need this asset, in the order of their scenes.
pub open spec fn slots_needing(scenes: Seq<SceneView>, key: Seq<char>) -> Seq<Seq<char>>
    decreases scenes.len(),
{
    if scenes.len() == 0 {
        Seq::empty()
    } else {
        let before = slots_needing(scenes.drop_last(), key);
        match scenes.last().rtb {
            Some(rtb) => if has_key(scenes.last().asset_refs, key) {
                before.push(rtb.slot_id)
            } else {
                before
            },
            None => before,
        }
    }
}

/// The auctioned slots that need an asset.
pub fn slots_that_need(timeline: &PlaybackTimeline, asset: &AssetRef) -> (r: Vec<String>)
    ensures
        texts(r@) == slots_needing(timeline@.scenes, asset@.key()),
{
    let ghost views = timeline@.scenes;
    let key: String = asset.cache_key();
    let mut out: Vec<String> = Vec::new();
    let mut i: usize = 0;
    assert(texts(out@) =~= slots_needing(views.take(0), key@));
    while i < timeline.scenes.len()
        invariant
            i <= timeline.scenes@.len(),
            views == timeline@.scenes,
            texts(out@) == slots_needing(views.take(i as int), key@),
        decreases timeline.scenes@.len() - i,
    {
        let ghost before = texts(out@);
        let scene: &PlaybackScene = &timeline.scenes[i];
        proof {
            assert(views.take(i + 1).drop_last() =~= views.take(i as int));
            assert(views[i as int] == scene@);
        }
        match &scene.rtb {
            Some(rtb) => if keeps(&scene.asset_refs, key.as_str()) {
                out.push(rtb.slot_id.clone());
                assert(texts(out@) =~= before.push(rtb.slot_id@));
            },
            None => {},
        }
        i = i + 1;
    }
    assert(views.take(i as int) =~= views);
    out
}

/// Whether `rest` holds, in ascending order of their names, exactly the assets of `refs` that are
/// the first of their name and not among `others`.
pub open spec fn distinct_refs_except(
    rest: Seq<AssetRefView>,
    refs: Seq<AssetRefView>,
    others: Seq<AssetRefView>,
) -> bool {
    &&& ascending(rest)
    &&& forall|i: int|
        0 <= i < rest.len() ==> is_first(refs, #[trigger] rest[i]) && !has_key(
            others,
            rest[i].key(),
        )
    &&& forall|n: int|
        0 <= n < refs.len() && !has_key(others, (#[trigger] refs[n]).key()) ==> has_key(
            rest,
            refs[n].key(),
        )
}

/// The assets of the timeline that are not among `blocking`, each once.
pub fn background_assets(timeline: &PlaybackTimeline, blocking: &Vec<AssetRef>) -> (r: Vec<AssetRef>)
    ensures
        distinct_refs_except(
            asset_views(r@),
            refs_of_scenes(timeline@.scenes),
            asset_views(blocking@),
        ),
{
    let all: Vec<AssetRef> = timeline.all_asset_refs();
    let ghost views = asset_views(all@);
    let ghost refs = refs_of_scenes(timeline@.scenes);
    let ghost others = asset_views(blocking@);
    let mut out: Vec<AssetRef> = Vec::new();
    let mut i: usize = 0;
    while i < all.len()
        invariant
            i <= all@.len(),
            views == asset_views(all@),
            others == asset_views(blocking@),
            distinct_refs(views, refs),
            ascending(asset_views(out@)),
            forall|j: int|
                0 <= j < out@.len() ==> is_first(refs, (#[trigger] out@[j])@) && !has_key(
                    others,
                    out@[j]@.key(),
                ) && exists|k: int| 0 <= k < i && #[trigger] views[k] == out@[j]@,
            forall|k: int|
                0 <= k < i && !has_key(others, (#[trigger] views[k]).key()) ==> has_key(
                    asset_views(out@),
                    views[k].key(),
                ),
        decreases all@.len() - i,
    {
        let ghost before = asset_views(out@);
        let key: String = all[i].cache_key();
        assert(views[i as int] == all@[i as int]@);
        if !keeps(blocking, key.as_str()) {
            let ghost old_out = out@;
            out.push(all[i].clone());
            proof {
                let after = asset_views(out@);
                assert(after =~= before.push(views[i as int]));
                assert forall|a: int, b: int| 0 <= a < b < after.len() implies crate::text::text_lt(
                    (#[trigger] after[a]).key(),
                    (#[trigger] after[b]).key(),
                ) by {
                    if b == before.len() {
                        assert(old_out[a]@ == after[a]);
                        let k = choose|k: int| 0 <= k < i && #[trigger] views[k] == old_out[a]@;
                        assert(crate::text::text_lt(views[k].key(), views[i as int].key()));
                    } else {
                        assert(after[a] == before[a] && after[b] == before[b]);
                    }
                }
                assert forall|j: int| 0 <= j < out@.len() implies is_first(
                    refs,
                    (#[trigger] out@[j])@,
                ) && !has_key(others, out@[j]@.key()) && exists|k: int|
                    0 <= k < i + 1 && #[trigger] views[k] == out@[j]@ by {
                    if j == old_out.len() {
                        assert(views[i as int] == out@[j]@);
                        assert(is_first(refs, views[i as int]));
                    } else {
                        assert(out@[j] == old_out[j]);
                        let k = choose|k: int| 0 <= k < i && #[trigger] views[k] == old_out[j]@;
                        assert(views[k] == out@[j]@);
                    }
                }
                assert forall|k: int|
                    0 <= k < i + 1 && !has_key(others, (#[trigger] views[k]).key()) implies has_key(
                    after,
                    views[k].key(),
                ) by {
                    if k == i {
                        assert(after[before.len() as int].key() == views[k].key());
                    } else {
                        assert(has_key(before, views[k].key()));
                        let m = choose|m: int|
                            0 <= m < before.len() && (#[trigger] before[m]).key() == views[k].key();
                        assert(after[m].key() == views[k].key());
                    }
                }
            }
        }
        i = i + 1;
    }
    proof {
        let rest = asset_views(out@);
        assert forall|n: int|
            0 <= n < refs.len() && !has_key(others, (#[trigger] refs[n]).key()) implies has_key(
            rest,
            refs[n].key(),
        ) by {
            assert(has_key(views, refs[n].key()));
            let k = choose|k: int|
                0 <= k < views.len() && (#[trigger] views[k]).key() == refs[n].key();
            assert(has_key(rest, views[k].key()));
        }
        assert forall|j: int| 0 <= j < rest.len() implies is_first(refs, #[trigger] rest[j])
            && !has_key(others, rest[j].key()) by {
            assert(rest[j] == out@[j]@);
        }
    }
    out
}

/// Whether a file must not be deleted: a scene needs it that is on, is next, or is on within the
/// time in which the cache is kept warm.
pub open spec fn protects(scenes: Seq<SceneView>, now: int, key: Seq<char>) -> bool {
    ||| index_at(scenes, now) matches Some(i) && has_key(scenes[i].asset_refs, key)
    ||| index_after(scenes, now) matches Some(i) && has_key(scenes[i].asset_refs, key)
    ||| exists|i: int|
        0 <= i < scenes.len() && (#[trigger] scenes[i]).end > now && scenes[i].start < now
            + FILE_CACHE_WARM_WINDOW_MS && has_key(scenes[i].asset_refs, key)
}

fn add_keys(keys: &mut Vec<String>, scene: &PlaybackScene)
    ensures
        forall|key: Seq<char>| #[trigger]
            texts(final(keys)@).contains(key) <==> texts(old(keys)@).contains(key) || has_key(
                scene@.asset_refs,
                key,
            ),
{
    let ghost before = texts(keys@);
    let ghost views = scene@.asset_refs;
    let mut i: usize = 0;
    assert(forall|key: Seq<char>| !has_key(views.take(0), key));
    while i < scene.asset_refs.len()
        invariant
            i <= scene.asset_refs@.len(),
            views == asset_views(scene.asset_refs@),
            forall|key: Seq<char>| #[trigger]
                texts(keys@).contains(key) <==> before.contains(key) || has_key(
                    views.take(i as int),
                    key,
                ),
        decreases scene.asset_refs@.len() - i,
    {
        let ghost so_far = texts(keys@);
        let name: String = scene.asset_refs[i].cache_key();
        let ghost text = name@;
        keys.push(name);
        proof {
            let now_keys = texts(keys@);
            assert(now_keys =~= so_far.push(text));
            assert(views[i as int].key() == text);
            assert forall|key: Seq<char>| #[trigger]
                now_keys.contains(key) <==> before.contains(key) || has_key(
                    views.take(i + 1),
                    key,
                ) by {
                if now_keys.contains(key) {
                    let j = choose|j: int| 0 <= j < now_keys.len() && now_keys[j] == key;
                    if j < so_far.len() {
                        assert(so_far[j] == key);
                        assert(so_far.contains(key));
                        if has_key(views.take(i as int), key) {
                            let m = choose|m: int|
                                0 <= m < i && (#[trigger] views.take(i as int)[m]).key() == key;
                            assert(views.take(i + 1)[m].key() == key);
                        }
                    } else {
                        assert(views.take(i + 1)[i as int].key() == key);
                    }
                }
                if before.contains(key) || has_key(views.take(i + 1), key) {
                    if has_key(views.take(i + 1), key) && !has_key(views.take(i as int), key) {
                        let m = choose|m: int|
                            0 <= m < i + 1 && (#[trigger] views.take(i + 1)[m]).key() == key;
                        if m < i {
                            assert(views.take(i as int)[m].key() == key);
                        }
                        assert(now_keys[so_far.len() as int] == key);
                    } else {
                        assert(so_far.contains(key));
                        let j = choose|j: int| 0 <= j < so_far.len() && so_far[j] == key;
                        assert(now_keys[j] == key);
                    }
                }
            }
        }
        i = i + 1;
    }
    assert(views.take(i as int) =~= views);
}

/// The names of the files that must not be deleted.
pub fn protected_keys(timeline: &PlaybackTimeline, now: i64) -> (r: Vec<String>)
    requires
        now + FILE_CACHE_WARM_WINDOW_MS <= i64::MAX,
    ensures
        forall|key: Seq<char>| #[trigger]
            texts(r@).contains(key) <==> protects(timeline@.scenes, now as int, key),
{
    let ghost scenes = timeline@.scenes;
    let mut keys: Vec<String> = Vec::new();
    assert(forall|key: Seq<char>| !texts(keys@).contains(key));
    match timeline.current_scene(now) {
        Some(scene) => add_keys(&mut keys, scene),
        None => {},
    }
    match timeline.next_scene(now) {
        Some(scene) => add_keys(&mut keys, scene),
        None => {},
    }
    let ghost base = texts(keys@);
    let to: i64 = now + FILE_CACHE_WARM_WINDOW_MS;
    let mut i: usize = 0;
    while i < timeline.scenes.len()
        invariant
            i <= timeline.scenes@.len(),
            scenes == timeline@.scenes,
            to == now + FILE_CACHE_WARM_WINDOW_MS,
            forall|key: Seq<char>| #[trigger]
                texts(keys@).contains(key) <==> base.contains(key) || exists|j: int|
                    0 <= j < i && (#[trigger] scenes[j]).end > now && scenes[j].start < to && has_key(
                        scenes[j].asset_refs,
                        key,
                    ),
        decreases timeline.scenes@.len() - i,
    {
        let ghost before = texts(keys@);
        let scene: &PlaybackScene = &timeline.scenes[i];
        assert(scenes[i as int] == scene@);
        if scene.end_time_millis > now && scene.start_time_millis < to {
            add_keys(&mut keys, scene);
        }
        proof {
            assert forall|key: Seq<char>| #[trigger]
                texts(keys@).contains(key) <==> base.contains(key) || exists|j: int|
                    0 <= j < i + 1 && (#[trigger] scenes[j]).end > now && scenes[j].start < to
                        && has_key(scenes[j].asset_refs, key) by {
                assert(before.contains(key) <==> base.contains(key) || exists|j: int|
                    0 <= j < i && (#[trigger] scenes[j]).end > now && scenes[j].start < to && has_key(
                        scenes[j].asset_refs,
                        key,
                    ));
            }
        }
        i = i + 1;
    }
    keys
}

proof fn lemma_refs_with_fallbacks(scenes: Seq<SceneView>, file: AssetRefView)
    ensures
        refs_with_fallbacks(scenes).contains(file) <==> exists|i: int|
            0 <= i < scenes.len() && ((#[trigger] scenes[i]).asset_refs.contains(file) || (
            scenes[i].fallback matches Some(f) && f.asset_refs.contains(file))),
    decreases scenes.len(),
{
    if scenes.len() > 0 {
        let shorter = scenes.drop_last();
        let n = scenes.len() - 1;
        lemma_refs_with_fallbacks(shorter, file);
        lemma_either_holds(refs_with_fallbacks(shorter), refs_of_scene(scenes.last()), file);
        lemma_refs_of_scene(scenes.last(), file);
        if refs_with_fallbacks(shorter).contains(file) {
            let i = choose|i: int|
                0 <= i < shorter.len() && ((#[trigger] shorter[i]).asset_refs.contains(file) || (
                shorter[i].fallback matches Some(f) && f.asset_refs.contains(file)));
            assert(scenes[i] == shorter[i]);
        }
        if refs_of_scene(scenes.last()).contains(file) {
            assert(scenes[n] == scenes.last());
        }
        if exists|i: int|
            0 <= i < scenes.len() && ((#[trigger] scenes[i]).asset_refs.contains(file) || (
            scenes[i].fallback matches Some(f) && f.asset_refs.contains(file))) {
            let i = choose|i: int|
                0 <= i < scenes.len() && ((#[trigger] scenes[i]).asset_refs.contains(file) || (
                scenes[i].fallback matches Some(f) && f.asset_refs.contains(file)));
            if i < n {
                assert(shorter[i] == scenes[i]);
            }
        }
    }
}

proof fn lemma_either_holds(a: Seq<AssetRefView>, b: Seq<AssetRefView>, file: AssetRefView)
    ensures
        (a + b).contains(file) <==> a.contains(file) || b.contains(file),
{
    let c = a + b;
    if a.contains(file) {
        let i = choose|i: int| 0 <= i < a.len() && a[i] == file;
        assert(c[i] == file);
    }
    if b.contains(file) {
        let i = choose|i: int| 0 <= i < b.len() && b[i] == file;
        assert(c[a.len() + i] == file);
    }
    if c.contains(file) {
        let i = choose|i: int| 0 <= i < c.len() && c[i] == file;
        if i < a.len() {
            assert(a[i] == file);
        } else {
            assert(b[i - a.len()] == file);
        }
    }
}

proof fn lemma_refs_of_scene(scene: SceneView, file: AssetRefView)
    ensures
        refs_of_scene(scene).contains(file) <==> scene.asset_refs.contains(file) || (
        scene.fallback matches Some(f) && f.asset_refs.contains(file)),
{
    if let Some(f) = scene.fallback {
        lemma_either_holds(scene.asset_refs, f.asset_refs, file);
    }
}

/// The files that have to be there from now on to a time are those of the scenes that are on in that
/// time, of the scene that is on now and of the next one, and of what replaces these scenes: all of
/// them and no others.
pub proof fn files_are_needed_by_the_scenes_ahead(
    scenes: Seq<SceneView>,
    now: int,
    to: int,
    file: AssetRefView,
)
    ensures
        needed_refs(scenes, now, to).contains(file) <==> exists|i: int|
            0 <= i < scenes.len() && ((#[trigger] scenes[i]).asset_refs.contains(file) || (
            scenes[i].fallback matches Some(f) && f.asset_refs.contains(file))) && {
                ||| now < scenes[i].end && scenes[i].start < to
                ||| index_at(scenes, now) == Some(i)
                ||| now < scenes[i].start && forall|j: int|
                    0 <= j < i ==> (#[trigger] scenes[j]).start <= now
            },
{
    let within = scenes_between(scenes, now, to);
    let a = refs_with_fallbacks(within);
    let b = refs_at(scenes, index_at(scenes, now));
    let c = refs_at(scenes, index_after(scenes, now));
    lemma_either_holds(a + b, c, file);
    lemma_either_holds(a, b, file);
    lemma_refs_with_fallbacks(within, file);
    a_time_holds_the_scenes_on_in_it(scenes, now, to);
    next_scene_follows_the_current(scenes, now);
    bisection_stays_within(scenes, now);
    if let Some(i) = index_at(scenes, now) {
        lemma_refs_of_scene(scenes[i], file);
    }
    if let Some(i) = index_after(scenes, now) {
        lemma_refs_of_scene(scenes[i], file);
    }
    if a.contains(file) {
        let k = choose|k: int|
            0 <= k < within.len() && ((#[trigger] within[k]).asset_refs.contains(file) || (
            within[k].fallback matches Some(f) && f.asset_refs.contains(file)));
        assert(within.contains(within[k]));
        let i = choose|i: int| 0 <= i < scenes.len() && scenes[i] == within[k];
        assert(scenes[i].asset_refs.contains(file) || (scenes[i].fallback matches Some(f)
            && f.asset_refs.contains(file)));
    }
    if exists|i: int|
        0 <= i < scenes.len() && ((#[trigger] scenes[i]).asset_refs.contains(file) || (
        scenes[i].fallback matches Some(f) && f.asset_refs.contains(file))) && {
            ||| now < scenes[i].end && scenes[i].start < to
            ||| index_at(scenes, now) == Some(i)
            ||| now < scenes[i].start && forall|j: int|
                0 <= j < i ==> (#[trigger] scenes[j]).start <= now
        } {
        let i = choose|i: int|
            0 <= i < scenes.len() && ((#[trigger] scenes[i]).asset_refs.contains(file) || (
            scenes[i].fallback matches Some(f) && f.asset_refs.contains(file))) && {
                ||| now < scenes[i].end && scenes[i].start < to
                ||| index_at(scenes, now) == Some(i)
                ||| now < scenes[i].start && forall|j: int|
                    0 <= j < i ==> (#[trigger] scenes[j]).start <= now
            };
        if now < scenes[i].end && scenes[i].start < to {
            assert(scenes.contains(scenes[i]));
            assert(within.contains(scenes[i]));
            let k = choose|k: int| 0 <= k < within.len() && within[k] == scenes[i];
            assert(within[k].asset_refs.contains(file) || (within[k].fallback matches Some(f)
                && f.asset_refs.contains(file)));
        } else if index_at(scenes, now) != Some(i) {
            let k = index_after(scenes, now)->0;
            if k < i {
                assert(scenes[k].start <= now);
            } else if i < k {
                assert(scenes[i].start <= now);
            }
        }
    }
}

/// The files that must not be deleted are those of the scene that is on, of the next one, and of every
/// scene that is on within the next twenty minutes: those and no others.
pub proof fn files_of_the_next_twenty_minutes_are_kept(
    scenes: Seq<SceneView>,
    now: int,
    key: Seq<char>,
)
    ensures
        protects(scenes, now, key) <==> exists|i: int|
            0 <= i < scenes.len() && has_key((#[trigger] scenes[i]).asset_refs, key) && {
                ||| now < scenes[i].end && scenes[i].start < now + 1_200_000
                ||| index_at(scenes, now) == Some(i)
                ||| now < scenes[i].start && forall|j: int|
                    0 <= j < i ==> (#[trigger] scenes[j]).start <= now
            },
{
    next_scene_follows_the_current(scenes, now);
    bisection_stays_within(scenes, now);
    if exists|i: int|
        0 <= i < scenes.len() && has_key((#[trigger] scenes[i]).asset_refs, key) && now
            < scenes[i].start && forall|j: int|
            0 <= j < i ==> (#[trigger] scenes[j]).start <= now {
        let i = choose|i: int|
            0 <= i < scenes.len() && has_key((#[trigger] scenes[i]).asset_refs, key) && now
                < scenes[i].start && forall|j: int|
                0 <= j < i ==> (#[trigger] scenes[j]).start <= now;
        let k = index_after(scenes, now)->0;
        if k < i {
            assert(scenes[k].start <= now);
        } else if i < k {
            assert(scenes[i].start <= now);
        }
    }
}

/// The files that have to be there fall into those that a scene of the schedule itself needs, or what
/// replaces an auctioned one, and those that auctioned scenes alone need. Each is in one of the two.
pub proof fn files_are_of_the_schedule_or_of_auctions(
    refs: Seq<AssetRefView>,
    scenes: Seq<SceneView>,
    file: AssetRefView,
)
    ensures
        scheduled_part(refs, scenes).contains(file) <==> refs.contains(file) && exists|i: int|
            0 <= i < scenes.len() && {
                ||| (#[trigger] scenes[i]).rtb is None && has_key(
                    scenes[i].asset_refs,
                    file.key(),
                )
                ||| scenes[i].fallback matches Some(f) && has_key(f.asset_refs, file.key())
            },
        auctioned_part(refs, scenes).contains(file) <==> refs.contains(file) && !scheduled_part(
            refs,
            scenes,
        ).contains(file),
        scheduled_part(refs, scenes).len() + auctioned_part(refs, scenes).len() == refs.len(),
    decreases refs.len(),
{
    if refs.len() > 0 {
        let shorter = refs.drop_last();
        let n = refs.len() - 1;
        files_are_of_the_schedule_or_of_auctions(shorter, scenes, file);
        let a = scheduled_part(shorter, scenes);
        let b = auctioned_part(shorter, scenes);
        let last = refs.last();
        lemma_either_holds(shorter, seq![last], file);
        lemma_either_holds(a, seq![last], file);
        lemma_either_holds(b, seq![last], file);
        assert(shorter + seq![last] =~= refs);
        assert(a + seq![last] =~= a.push(last));
        assert(b + seq![last] =~= b.push(last));
        assert(seq![last].contains(file) <==> file == last) by {
            assert(seq![last][0] == last);
        }
    }
}

/// The auctioned slots that need a file are those of the scenes that need it: all of them and no
/// others.
pub proof fn slots_need_the_files_of_their_scenes(
    scenes: Seq<SceneView>,
    key: Seq<char>,
    slot: Seq<char>,
)
    ensures
        slots_needing(scenes, key).contains(slot) <==> exists|i: int|
            0 <= i < scenes.len() && has_key((#[trigger] scenes[i]).asset_refs, key) && (
            scenes[i].rtb matches Some(sold) && sold.slot_id == slot),
    decreases scenes.len(),
{
    if scenes.len() > 0 {
        let shorter = scenes.drop_last();
        let n = scenes.len() - 1;
        let before = slots_needing(shorter, key);
        let out = slots_needing(scenes, key);
        slots_need_the_files_of_their_scenes(shorter, key, slot);
        if before.contains(slot) {
            let i = choose|i: int|
                0 <= i < shorter.len() && has_key((#[trigger] shorter[i]).asset_refs, key) && (
                shorter[i].rtb matches Some(sold) && sold.slot_id == slot);
            assert(scenes[i] == shorter[i]);
            let k = choose|k: int| 0 <= k < before.len() && before[k] == slot;
            assert(out[k] == slot);
        }
        if out.contains(slot) && !before.contains(slot) {
            let k = choose|k: int| 0 <= k < out.len() && out[k] == slot;
            if k < before.len() {
                assert(before[k] == slot);
            }
            assert(scenes[n] == scenes.last());
            assert(has_key(scenes[n].asset_refs, key));
        }
        if exists|i: int|
            0 <= i < scenes.len() && has_key((#[trigger] scenes[i]).asset_refs, key) && (
            scenes[i].rtb matches Some(sold) && sold.slot_id == slot) {
            let i = choose|i: int|
                0 <= i < scenes.len() && has_key((#[trigger] scenes[i]).asset_refs, key) && (
                scenes[i].rtb matches Some(sold) && sold.slot_id == slot);
            if i < n {
                assert(shorter[i] == scenes[i]);
            } else {
                assert(out[before.len() as int] == slot);
            }
        }
    }
}

/// The files that are listed besides others come by ascending keys. Each is the first of its key in
/// the list, and none of the others has its key.
pub proof fn files_that_others_have_are_left_out(
    rest: Seq<AssetRefView>,
    refs: Seq<AssetRefView>,
    others: Seq<AssetRefView>,
    i: int,
) -> (n: int)
    requires
        distinct_refs_except(rest, refs, others),
        0 <= i < rest.len(),
    ensures
        0 <= n < refs.len(),
        refs[n] == rest[i],
        forall|m: int| 0 <= m < n ==> (#[trigger] refs[m]).key() != rest[i].key(),
        forall|j: int| 0 <= j < others.len() ==> (#[trigger] others[j]).key() != rest[i].key(),
        forall|j: int|
            i < j < rest.len() ==> text_lt(rest[i].key(), (#[trigger] rest[j]).key()),
{
    assert(is_first(refs, rest[i]));
    assert(!has_key(others, rest[i].key()));
    let n = choose|n: int|
        0 <= n < refs.len() && #[trigger] refs[n] == rest[i] && !has_key(
            refs.take(n),
            rest[i].key(),
        );
    assert forall|m: int| 0 <= m < n implies (#[trigger] refs[m]).key() != rest[i].key() by {
        assert(refs.take(n)[m] == refs[m]);
    }
    n
}

/// Every file of a list whose key none of the others has is listed besides them.
pub proof fn files_that_no_other_has_are_listed(
    rest: Seq<AssetRefView>,
    refs: Seq<AssetRefView>,
    others: Seq<AssetRefView>,
    n: int,
) -> (i: int)
    requires
        distinct_refs_except(rest, refs, others),
        0 <= n < refs.len(),
        forall|j: int| 0 <= j < others.len() ==> (#[trigger] others[j]).key() != refs[n].key(),
    ensures
        0 <= i < rest.len(),
        rest[i].key() == refs[n].key(),
{
    assert(!has_key(others, refs[n].key()));
    assert(has_key(rest, refs[n].key()));
    choose|i: int| 0 <= i < rest.len() && (#[trigger] rest[i]).key() == refs[n].key()
}

} // verus!
