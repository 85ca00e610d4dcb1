//! What a timeline is asked.

use vstd::prelude::*;
use vstd::string::*;

use super::auction::one_by_one;
use super::layouts::is_video;
use super::models::{
    asset_views, element_views, AssetRef, AssetRefView, LayoutElement, LayoutElementView,
    PlaybackScene, PlaybackTimeline, SceneView,
};
use crate::text::{
    has_prefix, i64_text, number_and_text_tell_apart, same_text, signed_decimal, starts_with,
    text_less, text_lt, text_order_is_total, text_order_is_transitive,
};

verus! {

impl AssetRefView {
    /// The name under which a file is kept: its id and its revision.
    pub open spec fn key(self) -> Seq<char> {
        signed_decimal(self.file_id as int) + "_"@ + self.revision
    }
}

/// Files with different ids or revisions are kept under different names.
pub proof fn cache_keys_tell_files_apart(a: AssetRefView, b: AssetRefView)
    requires
        a.key() == b.key(),
    ensures
        a.file_id == b.file_id,
        a.revision == b.revision,
{
    reveal_strlit("_");
    assert("_"@ =~= seq!['_']);
    number_and_text_tell_apart(a.file_id as int, b.file_id as int, '_', a.revision, b.revision);
}

impl AssetRef {
    /// The name under which the file is kept: its id and its revision.
    pub fn cache_key(&self) -> (r: String)
        ensures
            r@ == self@.key(),
            r@ == signed_decimal(self.file_id as int) + "_"@ + self.revision@,
    {
        let mut out: String = i64_text(self.file_id);
        out.append("_");
        out.append(self.revision.as_str());
        out
    }
}

/// Whether a file is a video.
pub open spec fn is_video_file(asset: AssetRefView) -> bool {
    asset.mime_type matches Some(mime) && has_prefix(mime, "video/"@)
}

/// Whether an element shows a video: it is one, or its file is.
pub open spec fn shows_video(element: LayoutElementView, assets: Seq<AssetRefView>) -> bool {
    is_video(element) || exists|k: int|
        0 <= k < assets.len() && element.file_id == Some((#[trigger] assets[k]).file_id)
            && is_video_file(assets[k])
}

impl SceneView {
    /// Whether the scene shows a video.
    pub open spec fn video(self) -> bool {
        self.layout matches Some(layout) && exists|i: int|
            0 <= i < layout.elements.len() && shows_video(
                #[trigger] layout.elements[i],
                self.asset_refs,
            )
    }
}

fn element_shows_video(element: &LayoutElement, assets: &Vec<AssetRef>) -> (r: bool)
    ensures
        r == shows_video(element@, asset_views(assets@)),
{
    if same_text(element.element_type.as_str(), "video") {
        return true;
    }
    let ghost views = asset_views(assets@);
    let mut k: usize = 0;
    while k < assets.len()
        invariant
            k <= assets@.len(),
            views == asset_views(assets@),
            forall|j: int|
                0 <= j < k ==> !(element.file_id == Some((#[trigger] views[j]).file_id)
                    && is_video_file(views[j])),
        decreases assets@.len() - k,
    {
        let refers: bool = match element.file_id {
            Some(id) => id == assets[k].file_id,
            None => false,
        };
        let video: bool = match &assets[k].mime_type {
            Some(mime) => starts_with(mime.as_str(), "video/"),
            None => false,
        };
        assert(views[k as int] == assets@[k as int]@);
        if refers && video {
            return true;
        }
        k = k + 1;
    }
    false
}

impl PlaybackScene {
    /// Whether the scene shows a video.
    pub fn has_video(&self) -> (r: bool)
        ensures
            r == self@.video(),
    {
        match &self.layout {
            Some(layout) => {
                let ghost views = element_views(layout.elements@);
                let mut i: usize = 0;
                while i < layout.elements.len()
                    invariant
                        i <= layout.elements@.len(),
                        views == element_views(layout.elements@),
                        self@.layout == Some((**layout)@),
                        forall|j: int|
                            0 <= j < i ==> !shows_video(
                                #[trigger] views[j],
                                asset_views(self.asset_refs@),
                            ),
                    decreases layout.elements@.len() - i,
                {
                    assert(views[i as int] == layout.elements@[i as int]@);
                    if element_shows_video(&layout.elements[i], &self.asset_refs) {
                        assert(shows_video(
                            self@.layout->0.elements[i as int],
                            self@.asset_refs,
                        ));
                        return true;
                    }
                    i = i + 1;
                }
                false
            },
            None => false,
        }
    }

    /// How long the scene is on screen.
    pub fn duration_ms(&self) -> (r: i64)
        requires
            i64::MIN <= self.end_time_millis - self.start_time_millis <= i64::MAX,
        ensures
            r == self@.end - self@.start,
            r == self.end_time_millis - self.start_time_millis,
    {
        self.end_time_millis - self.start_time_millis
    }
}

/// Where bisection of the scenes from `low` to `high` finds one that is on at `time`.
pub open spec fn bisect(scenes: Seq<SceneView>, time: int, low: int, high: int) -> Option<int>
    decreases high - low,
{
    if low >= high {
        None
    } else {
        let mid = low + (high - low) / 2;
        if time < scenes[mid].start {
            bisect(scenes, time, low, mid)
        } else if time >= scenes[mid].end {
            bisect(scenes, time, mid + 1, high)
        } else {
            Some(mid)
        }
    }
}

/// The index of the scene that is on at `time`.
pub open spec fn index_at(scenes: Seq<SceneView>, time: int) -> Option<int> {
    bisect(scenes, time, 0, scenes.len() as int)
}

/// The index of the first scene that starts after `time`.
pub open spec fn index_after(scenes: Seq<SceneView>, time: int) -> Option<int>
    decreases scenes.len(),
{
    if scenes.len() == 0 {
        None
    } else {
        match index_after(scenes.drop_last(), time) {
            Some(i) => Some(i),
            None => if scenes.last().start > time {
                Some(scenes.len() - 1)
            } else {
                None
            },
        }
    }
}

/// The scenes that are on at some time from `from` to `to`.
pub open spec fn scenes_between(scenes: Seq<SceneView>, from: int, to: int) -> Seq<SceneView>
    decreases scenes.len(),
{
    if scenes.len() == 0 {
        Seq::empty()
    } else {
        let before = scenes_between(scenes.drop_last(), from, to);
        if scenes.last().end > from && scenes.last().start < to {
            before.push(scenes.last())
        } else {
            before
        }
    }
}

/// The models of a list of references to scenes.
pub open spec fn scene_ref_views(scenes: Seq<&PlaybackScene>) -> Seq<SceneView> {
    Seq::new(scenes.len(), |i: int| (*scenes[i])@)
}

/// The assets of all scenes, in order.
pub open spec fn refs_of_scenes(scenes: Seq<SceneView>) -> Seq<AssetRefView>
    decreases scenes.len(),
{
    if scenes.len() == 0 {
        Seq::empty()
    } else {
        refs_of_scenes(scenes.drop_last()) + scenes.last().asset_refs
    }
}

/// Whether some asset is kept under this name.
pub open spec fn has_key(refs: Seq<AssetRefView>, key: Seq<char>) -> bool {
    exists|i: int| 0 <= i < refs.len() && (#[trigger] refs[i]).key() == key
}

/// Whether `asset` is the first one that is kept under its name.
pub open spec fn is_first(refs: Seq<AssetRefView>, asset: AssetRefView) -> bool {
    exists|n: int|
        0 <= n < refs.len() && #[trigger] refs[n] == asset && !has_key(refs.take(n), asset.key())
}

/// Whether assets come in ascending order of the names they are kept under.
pub open spec fn ascending(refs: Seq<AssetRefView>) -> bool {
    forall|i: int, j: int|
        0 <= i < j < refs.len() ==> text_lt((#[trigger] refs[i]).key(), (#[trigger] refs[j]).key())
}

/// Whether `distinct` holds, in ascending order of their names, exactly the assets of `refs` that
/// are the first of their name.
pub open spec fn distinct_refs(distinct: Seq<AssetRefView>, refs: Seq<AssetRefView>) -> bool {
    &&& ascending(distinct)
    &&& forall|i: int| 0 <= i < distinct.len() ==> is_first(refs, #[trigger] distinct[i])
    &&& forall|n: int| 0 <= n < refs.len() ==> has_key(distinct, (#[trigger] refs[n]).key())
}

proof fn lemma_first_stays_first(refs: Seq<AssetRefView>, more: AssetRefView, asset: AssetRefView)
    requires
        is_first(refs, asset),
    ensures
        is_first(refs.push(more), asset),
{
    let n = choose|n: int|
        0 <= n < refs.len() && #[trigger] refs[n] == asset && !has_key(refs.take(n), asset.key());
    let longer = refs.push(more);
    assert(longer[n] == asset);
    assert(longer.take(n) =~= refs.take(n));
}

/// Adds an asset to a list of distinct ones, unless one of its name is there.
pub(crate) fn insert_distinct(distinct: &mut Vec<AssetRef>, asset: &AssetRef, Ghost(refs): Ghost<Seq<AssetRefView>>)
    requires
        distinct_refs(asset_views(old(distinct)@), refs),
    ensures
        distinct_refs(asset_views(final(distinct)@), refs.push(asset@)),
{
    let ghost before = asset_views(distinct@);
    let ghost longer = refs.push(asset@);
    let key: String = asset.cache_key();
    let mut p: usize = 0;
    while p < distinct.len() && text_less(distinct[p].cache_key().as_str(), key.as_str())
        invariant
            p <= distinct@.len(),
            before == asset_views(distinct@),
            key@ == asset@.key(),
            forall|j: int| 0 <= j < p ==> text_lt((#[trigger] before[j]).key(), key@),
        decreases distinct@.len() - p,
    {
        assert(before[p as int] == distinct@[p as int]@);
        p = p + 1;
    }
    let known: bool = p < distinct.len() && same_text(
        distinct[p].cache_key().as_str(),
        key.as_str(),
    );
    if p < distinct.len() {
        assert(before[p as int] == distinct@[p as int]@);
    }
    if known {
        proof {
            assert forall|i: int| 0 <= i < before.len() implies is_first(
                longer,
                #[trigger] before[i],
            ) by {
                lemma_first_stays_first(refs, asset@, before[i]);
            }
            assert forall|n: int| 0 <= n < longer.len() implies has_key(
                before,
                (#[trigger] longer[n]).key(),
            ) by {
                if n < refs.len() {
                    assert(longer[n] == refs[n]);
                } else {
                    assert(before[p as int].key() == asset@.key());
                }
            }
        }
        return;
    }
    distinct.insert(p, asset.clone());
    proof {
        let after = asset_views(distinct@);
        assert(after =~= before.insert(p as int, asset@));
        assert forall|j: int| p <= j < before.len() implies text_lt(
            key@,
            (#[trigger] before[j]).key(),
        ) by {
            text_order_is_total(before[p as int].key(), key@);
            if j > p {
                assert(text_lt(before[p as int].key(), before[j].key()));
                text_order_is_transitive(key@, before[p as int].key(), before[j].key());
            }
        }
        assert forall|i: int, j: int| 0 <= i < j < after.len() implies text_lt(
            (#[trigger] after[i]).key(),
            (#[trigger] after[j]).key(),
        ) by {
            let x = if i < p { i } else { i - 1 };
            let y = if j < p { j } else { j - 1 };
            if i != p {
                assert(after[i] == before[x]);
            }
            if j != p {
                assert(after[j] == before[y]);
            }
        }
        assert(!has_key(refs, key@)) by {
            if has_key(refs, key@) {
                let n = choose|n: int| 0 <= n < refs.len() && (#[trigger] refs[n]).key() == key@;
                assert(has_key(before, refs[n].key()));
                let i = choose|i: int| 0 <= i < before.len() && (#[trigger] before[i]).key() == key@;
                text_order_is_total(before[i].key(), key@);
                assert(i >= p);
                assert(text_lt(key@, before[i].key()));
            }
        }
        assert(longer.take(refs.len() as int) =~= refs);
        assert(longer[refs.len() as int] == asset@);
        assert(is_first(longer, asset@));
        assert forall|i: int| 0 <= i < after.len() implies is_first(longer, #[trigger] after[i]) by {
            if i != p {
                let x = if i < p { i } else { i - 1 };
                assert(after[i] == before[x]);
                assert(is_first(refs, before[x]));
                lemma_first_stays_first(refs, asset@, before[x]);
            }
        }
        assert forall|n: int| 0 <= n < longer.len() implies has_key(
            after,
            (#[trigger] longer[n]).key(),
        ) by {
            if n < refs.len() {
                assert(longer[n] == refs[n]);
                assert(has_key(before, refs[n].key()));
                let i = choose|i: int|
                    0 <= i < before.len() && (#[trigger] before[i]).key() == refs[n].key();
                assert(after[if i < p { i } else { i + 1 }] == before[i]);
            } else {
                assert(after[p as int] == asset@);
            }
        }
    }
}

impl PlaybackTimeline {
    /// The index of the scene that is on at `now_millis`, by bisection.
    pub fn find_scene_index(&self, now_millis: i64) -> (r: Option<usize>)
        ensures
            index_at(self@.scenes, now_millis as int) == (match r {
                Some(i) => Some(i as int),
                None => None,
            }),
            r matches Some(i) ==> i < self.scenes@.len() && self.scenes@[i as int].start_time_millis
                <= now_millis < self.scenes@[i as int].end_time_millis,
    {
        let mut low: usize = 0;
        let mut high: usize = self.scenes.len();
        while low < high
            invariant
                low <= high <= self.scenes@.len(),
                index_at(self@.scenes, now_millis as int) == bisect(
                    self@.scenes,
                    now_millis as int,
                    low as int,
                    high as int,
                ),
            decreases high - low,
        {
            let mid: usize = low + (high - low) / 2;
            let scene: &PlaybackScene = &self.scenes[mid];
            assert(self@.scenes[mid as int] == scene@);
            if now_millis < scene.start_time_millis {
                high = mid;
            } else if now_millis >= scene.end_time_millis {
                low = mid + 1;
            } else {
                return Some(mid);
            }
        }
        None
    }

    /// The scene that is on at `now_millis`.
    pub fn current_scene(&self, now_millis: i64) -> (r: Option<&PlaybackScene>)
        ensures
            match r {
                Some(scene) => index_at(self@.scenes, now_millis as int) matches Some(i)
                    && *scene == self.scenes@[i] && 0 <= i < self.scenes@.len(),
                None => index_at(self@.scenes, now_millis as int) is None,
            },
    {
        match self.find_scene_index(now_millis) {
            Some(i) => Some(&self.scenes[i]),
            None => None,
        }
    }

    /// The index of the first scene that starts after `now_millis`.
    pub fn next_scene_index(&self, now_millis: i64) -> (r: Option<usize>)
        ensures
            index_after(self@.scenes, now_millis as int) == (match r {
                Some(i) => Some(i as int),
                None => None,
            }),
            r matches Some(i) ==> i < self.scenes@.len() && self.scenes@[i as int].start_time_millis
                > now_millis && forall|j: int|
                0 <= j < i ==> (#[trigger] self.scenes@[j]).start_time_millis <= now_millis,
            r is None ==> forall|j: int|
                0 <= j < self.scenes@.len() ==> (#[trigger] self.scenes@[j]).start_time_millis
                    <= now_millis,
    {
        let ghost views = self@.scenes;
        let mut i: usize = 0;
        assert(views.take(0) =~= Seq::empty());
        while i < self.scenes.len()
            invariant
                i <= self.scenes@.len(),
                views == self@.scenes,
                index_after(views.take(i as int), now_millis as int) is None,
                forall|j: int|
                    0 <= j < i ==> (#[trigger] self.scenes@[j]).start_time_millis <= now_millis,
            decreases self.scenes@.len() - i,
        {
            assert(views.take(i + 1).drop_last() =~= views.take(i as int));
            assert(views[i as int] == self.scenes@[i as int]@);
            if self.scenes[i].start_time_millis > now_millis {
                proof {
                    lemma_index_after_stays(views, now_millis as int, i + 1);
                }
                return Some(i);
            }
            i = i + 1;
        }
        assert(views.take(i as int) =~= views);
        None
    }

    /// The first scene that starts after `now_millis`.
    pub fn next_scene(&self, now_millis: i64) -> (r: Option<&PlaybackScene>)
        ensures
            match r {
                Some(scene) => index_after(self@.scenes, now_millis as int) matches Some(i)
                    && *scene == self.scenes@[i] && 0 <= i < self.scenes@.len(),
                None => index_after(self@.scenes, now_millis as int) is None,
            },
    {
        match self.next_scene_index(now_millis) {
            Some(i) => Some(&self.scenes[i]),
            None => None,
        }
    }

    /// The scenes that are on at some time from `start_ms` to `end_ms`.
    pub fn scenes_in_window(&self, start_ms: i64, end_ms: i64) -> (r: Vec<&PlaybackScene>)
        ensures
            scene_ref_views(r@) == scenes_between(self@.scenes, start_ms as int, end_ms as int),
    {
        let ghost views = self@.scenes;
        let mut out: Vec<&PlaybackScene> = Vec::new();
        let mut i: usize = 0;
        assert(scene_ref_views(out@) =~= scenes_between(
            views.take(0),
            start_ms as int,
            end_ms as int,
        ));
        while i < self.scenes.len()
            invariant
                i <= self.scenes@.len(),
                views == self@.scenes,
                scene_ref_views(out@) == scenes_between(
                    views.take(i as int),
                    start_ms as int,
                    end_ms as int,
                ),
            decreases self.scenes@.len() - i,
        {
            let ghost before = scene_ref_views(out@);
            let scene: &PlaybackScene = &self.scenes[i];
            proof {
                assert(views.take(i + 1).drop_last() =~= views.take(i as int));
                assert(views[i as int] == scene@);
            }
            if scene.end_time_millis > start_ms && scene.start_time_millis < end_ms {
                out.push(scene);
                assert(scene_ref_views(out@) =~= before.push(scene@));
            }
            i = i + 1;
        }
        assert(views.take(i as int) =~= views);
        out
    }

    /// The assets of all scenes, each once, in ascending order of the names they are kept under.
    pub fn all_asset_refs(&self) -> (r: Vec<AssetRef>)
        ensures
            distinct_refs(asset_views(r@), refs_of_scenes(self@.scenes)),
    {
        let ghost views = self@.scenes;
        let mut out: Vec<AssetRef> = Vec::new();
        let mut i: usize = 0;
        assert(views.take(0) =~= Seq::empty());
        while i < self.scenes.len()
            invariant
                i <= self.scenes@.len(),
                views == self@.scenes,
                distinct_refs(asset_views(out@), refs_of_scenes(views.take(i as int))),
            decreases self.scenes@.len() - i,
        {
            let refs: &Vec<AssetRef> = &self.scenes[i].asset_refs;
            let ghost base = refs_of_scenes(views.take(i as int));
            let ghost own = asset_views(refs@);
            let mut k: usize = 0;
            assert(base + own.take(0) =~= base);
            while k < refs.len()
                invariant
                    k <= refs@.len(),
                    own == asset_views(refs@),
                    distinct_refs(asset_views(out@), base + own.take(k as int)),
                decreases refs@.len() - k,
            {
                insert_distinct(&mut out, &refs[k], Ghost(base + own.take(k as int)));
                assert((base + own.take(k as int)).push(own[k as int]) =~= base + own.take(k + 1));
                k = k + 1;
            }
            proof {
                assert(own.take(k as int) =~= own);
                assert(views.take(i + 1).drop_last() =~= views.take(i as int));
                assert(views[i as int] == self.scenes@[i as int]@);
            }
            i = i + 1;
        }
        assert(views.take(i as int) =~= views);
        out
    }
}

proof fn lemma_index_after_stays(scenes: Seq<SceneView>, time: int, n: int)
    requires
        0 <= n <= scenes.len(),
        index_after(scenes.take(n), time) is Some,
    ensures
        index_after(scenes, time) == index_after(scenes.take(n), time),
    decreases scenes.len(),
{
    if n == scenes.len() {
        assert(scenes.take(n) =~= scenes);
    } else {
        assert(scenes.drop_last().take(n) =~= scenes.take(n));
        lemma_index_after_stays(scenes.drop_last(), time, n);
    }
}

proof fn lemma_bisect(scenes: Seq<SceneView>, time: int, low: int, high: int, k: int)
    requires
        one_by_one(scenes),
        0 <= low <= k < high <= scenes.len(),
        scenes[k].start <= time < scenes[k].end,
    ensures
        bisect(scenes, time, low, high) == Some(k),
    decreases high - low,
{
    let mid = low + (high - low) / 2;
    if k < mid {
        assert(scenes[k].end <= scenes[mid].start);
        lemma_bisect(scenes, time, low, mid, k);
    } else if mid < k {
        assert(scenes[mid].end <= scenes[k].start);
        lemma_bisect(scenes, time, mid + 1, high, k);
    }
}

proof fn lemma_bisect_finds(scenes: Seq<SceneView>, time: int, low: int, high: int)
    requires
        0 <= low <= high <= scenes.len(),
    ensures
        bisect(scenes, time, low, high) matches Some(i) ==> low <= i < high && scenes[i].start
            <= time < scenes[i].end,
    decreases high - low,
{
    if low < high {
        let mid = low + (high - low) / 2;
        if time < scenes[mid].start {
            lemma_bisect_finds(scenes, time, low, mid);
        } else if time >= scenes[mid].end {
            lemma_bisect_finds(scenes, time, mid + 1, high);
        }
    }
}

/// Bisection finds a scene that is on, if any.
pub proof fn bisection_stays_within(scenes: Seq<SceneView>, time: int)
    ensures
        index_at(scenes, time) matches Some(i) ==> 0 <= i < scenes.len() && scenes[i].start <= time
            < scenes[i].end,
{
    lemma_bisect_finds(scenes, time, 0, scenes.len() as int);
}

/// Where scenes follow one another, bisection finds the scene that is on, and finds none only where
/// none is.
pub proof fn bisection_finds_the_current_scene(scenes: Seq<SceneView>, time: int, k: int)
    requires
        one_by_one(scenes),
        0 <= k < scenes.len(),
    ensures
        index_at(scenes, time) == Some(k) <==> scenes[k].start <= time < scenes[k].end,
{
    lemma_bisect_finds(scenes, time, 0, scenes.len() as int);
    if scenes[k].start <= time < scenes[k].end {
        lemma_bisect(scenes, time, 0, scenes.len() as int, k);
    }
}

proof fn lemma_index_after(scenes: Seq<SceneView>, time: int)
    ensures
        match index_after(scenes, time) {
            Some(i) => 0 <= i < scenes.len() && scenes[i].start > time && forall|j: int|
                0 <= j < i ==> (#[trigger] scenes[j]).start <= time,
            None => forall|j: int| 0 <= j < scenes.len() ==> (#[trigger] scenes[j]).start <= time,
        },
    decreases scenes.len(),
{
    if scenes.len() > 0 {
        let shorter = scenes.drop_last();
        lemma_index_after(shorter, time);
        assert forall|j: int| 0 <= j < shorter.len() implies #[trigger] shorter[j] == scenes[j] by {}
        assert forall|j: int|
            0 <= j < scenes.len() && index_after(scenes, time) is None implies (
        #[trigger] scenes[j]).start <= time by {
            if j < shorter.len() {
                assert(shorter[j].start <= time);
            }
        }
        if index_after(shorter, time) is None && scenes.last().start > time {
            assert forall|j: int| 0 <= j < scenes.len() - 1 implies (#[trigger] scenes[j]).start
                <= time by {
                assert(shorter[j].start <= time);
            }
        } else if index_after(shorter, time) is Some {
            let i = index_after(shorter, time)->0;
            assert forall|j: int| 0 <= j < i implies (#[trigger] scenes[j]).start <= time by {
                assert(shorter[j].start <= time);
            }
        }
    }
}

/// The next scene starts after the given time, and none before it in the timeline does. It is there
/// whenever some scene starts later, also where no scene is on. Where scenes follow one another, it
/// is the one behind the scene that is on.
pub proof fn next_scene_follows_the_current(scenes: Seq<SceneView>, time: int)
    ensures
        match index_after(scenes, time) {
            Some(i) => 0 <= i < scenes.len() && scenes[i].start > time && forall|j: int|
                0 <= j < i ==> (#[trigger] scenes[j]).start <= time,
            None => forall|j: int| 0 <= j < scenes.len() ==> (#[trigger] scenes[j]).start <= time,
        },
        one_by_one(scenes) && index_at(scenes, time) is Some ==> {
            let here = index_at(scenes, time)->0;
            index_after(scenes, time) == if here + 1 < scenes.len() {
                Some(here + 1)
            } else {
                None
            }
        },
{
    lemma_index_after(scenes, time);
    if one_by_one(scenes) && index_at(scenes, time) is Some {
        lemma_bisect_finds(scenes, time, 0, scenes.len() as int);
        let here = index_at(scenes, time)->0;
        match index_after(scenes, time) {
            Some(i) => {
                if i < here {
                    assert(scenes[i].end <= scenes[here].start);
                } else if i > here + 1 {
                    assert(scenes[here].end <= scenes[here + 1].start);
                }
            },
            None => {
                if here + 1 < scenes.len() {
                    assert(scenes[here].end <= scenes[here + 1].start);
                }
            },
        }
    }
}

proof fn lemma_scenes_between(scenes: Seq<SceneView>, from: int, to: int)
    ensures
        forall|k: int|
            0 <= k < scenes_between(scenes, from, to).len() ==> {
                let s = #[trigger] scenes_between(scenes, from, to)[k];
                scenes.contains(s) && s.start < to && from < s.end
            },
        forall|i: int|
            0 <= i < scenes.len() && (#[trigger] scenes[i]).start < to && from < scenes[i].end
                ==> scenes_between(scenes, from, to).contains(scenes[i]),
    decreases scenes.len(),
{
    if scenes.len() > 0 {
        let shorter = scenes.drop_last();
        let n = scenes.len() - 1;
        let before = scenes_between(shorter, from, to);
        let out = scenes_between(scenes, from, to);
        lemma_scenes_between(shorter, from, to);
        assert forall|k: int| 0 <= k < out.len() implies {
            let s = #[trigger] out[k];
            scenes.contains(s) && s.start < to && from < s.end
        } by {
            if k < before.len() {
                assert(out[k] == before[k]);
                assert(shorter.contains(before[k]));
                let i = choose|i: int| 0 <= i < shorter.len() && shorter[i] == before[k];
                assert(scenes[i] == out[k]);
            } else {
                assert(scenes[n] == out[k]);
            }
        }
        assert forall|i: int|
            0 <= i < scenes.len() && (#[trigger] scenes[i]).start < to && from < scenes[i].end
            implies out.contains(scenes[i]) by {
            if i < n {
                assert(shorter[i] == scenes[i]);
                assert(before.contains(scenes[i]));
                let k = choose|k: int| 0 <= k < before.len() && before[k] == scenes[i];
                assert(out[k] == scenes[i]);
            } else {
                assert(out[before.len() as int] == scenes[i]);
            }
        }
    }
}

/// The scenes of a time are those of the timeline that are on at some moment of it: those that start
/// before its end and end after its start, all of them and no others.
pub proof fn a_time_holds_the_scenes_on_in_it(scenes: Seq<SceneView>, from: int, to: int)
    ensures
        forall|s: SceneView|
            #[trigger] scenes_between(scenes, from, to).contains(s) <==> scenes.contains(s)
                && s.start < to && from < s.end,
{
    lemma_scenes_between(scenes, from, to);
    let out = scenes_between(scenes, from, to);
    assert forall|s: SceneView|
        #[trigger] out.contains(s) <==> scenes.contains(s) && s.start < to && from < s.end by {
        if out.contains(s) {
            let k = choose|k: int| 0 <= k < out.len() && out[k] == s;
            assert(scenes.contains(out[k]));
        }
        if scenes.contains(s) && s.start < to && from < s.end {
            let i = choose|i: int| 0 <= i < scenes.len() && scenes[i] == s;
            assert(out.contains(scenes[i]));
        }
    }
}

/// The files of a timeline are those of its scenes: each file of each scene, and no other.
pub proof fn a_timeline_needs_the_files_of_its_scenes(scenes: Seq<SceneView>, file: AssetRefView)
    ensures
        refs_of_scenes(scenes).contains(file) <==> exists|i: int|
            0 <= i < scenes.len() && (#[trigger] scenes[i]).asset_refs.contains(file),
    decreases scenes.len(),
{
    if scenes.len() > 0 {
        let shorter = scenes.drop_last();
        let n = scenes.len() - 1;
        let before = refs_of_scenes(shorter);
        let own = scenes.last().asset_refs;
        let out = refs_of_scenes(scenes);
        a_timeline_needs_the_files_of_its_scenes(shorter, file);
        if before.contains(file) {
            let i = choose|i: int|
                0 <= i < shorter.len() && (#[trigger] shorter[i]).asset_refs.contains(file);
            assert(scenes[i] == shorter[i]);
            let k = choose|k: int| 0 <= k < before.len() && before[k] == file;
            assert(out[k] == file);
        }
        if own.contains(file) {
            assert(scenes[n].asset_refs.contains(file));
            let k = choose|k: int| 0 <= k < own.len() && own[k] == file;
            assert(out[before.len() + k] == file);
        }
        if out.contains(file) {
            let k = choose|k: int| 0 <= k < out.len() && out[k] == file;
            if k < before.len() {
                assert(before[k] == file);
            } else {
                assert(own[k - before.len()] == file);
            }
        }
        if exists|i: int| 0 <= i < scenes.len() && (#[trigger] scenes[i]).asset_refs.contains(file) {
            let i = choose|i: int|
                0 <= i < scenes.len() && (#[trigger] scenes[i]).asset_refs.contains(file);
            if i < n {
                assert(shorter[i] == scenes[i]);
            }
        }
    }
}

/// A scene shows a video exactly where an element of its layout is one, or shows a file of the scene
/// whose MIME type begins with `video/`.
pub proof fn scenes_show_videos_by_their_elements(scene: SceneView)
    ensures
        scene.video() <==> scene.layout is Some && exists|i: int|
            0 <= i < scene.layout->0.elements.len() && {
                let e = #[trigger] scene.layout->0.elements[i];
                ||| e.element_type == "video"@
                ||| exists|k: int|
                    0 <= k < scene.asset_refs.len() && e.file_id == Some(
                        (#[trigger] scene.asset_refs[k]).file_id,
                    ) && (scene.asset_refs[k].mime_type matches Some(mime) && "video/"@.len()
                        <= mime.len() && mime.take("video/"@.len() as int) == "video/"@)
            },
{
    if let Some(layout) = scene.layout {
        assert forall|i: int| 0 <= i < layout.elements.len() implies (shows_video(
            #[trigger] layout.elements[i],
            scene.asset_refs,
        ) <==> {
            let e = layout.elements[i];
            ||| e.element_type == "video"@
            ||| exists|k: int|
                0 <= k < scene.asset_refs.len() && e.file_id == Some(
                    (#[trigger] scene.asset_refs[k]).file_id,
                ) && (scene.asset_refs[k].mime_type matches Some(mime) && "video/"@.len()
                    <= mime.len() && mime.take("video/"@.len() as int) == "video/"@)
        }) by {
            assert forall|k: int| 0 <= k < scene.asset_refs.len() implies (is_video_file(
                #[trigger] scene.asset_refs[k],
            ) <==> (scene.asset_refs[k].mime_type matches Some(mime) && "video/"@.len()
                <= mime.len() && mime.take("video/"@.len() as int) == "video/"@)) by {}
        }
    }
}

/// Files that are listed once each come by ascending keys, and every one is a file of the list: of
/// several with one key the first.
pub proof fn listed_files_are_the_first_of_their_keys(
    distinct: Seq<AssetRefView>,
    refs: Seq<AssetRefView>,
    i: int,
) -> (n: int)
    requires
        distinct_refs(distinct, refs),
        0 <= i < distinct.len(),
    ensures
        0 <= n < refs.len(),
        refs[n] == distinct[i],
        forall|m: int| 0 <= m < n ==> (#[trigger] refs[m]).key() != distinct[i].key(),
        forall|j: int|
            i < j < distinct.len() ==> text_lt(distinct[i].key(), (#[trigger] distinct[j]).key()),
{
    assert(is_first(refs, distinct[i]));
    let n = choose|n: int|
        0 <= n < refs.len() && #[trigger] refs[n] == distinct[i] && !has_key(
            refs.take(n),
            distinct[i].key(),
        );
    assert forall|m: int| 0 <= m < n implies (#[trigger] refs[m]).key() != distinct[i].key() by {
        assert(refs.take(n)[m] == refs[m]);
    }
    n
}

/// Every file of a list is among those that are listed once each, by its key.
pub proof fn every_file_is_listed(
    distinct: Seq<AssetRefView>,
    refs: Seq<AssetRefView>,
    n: int,
) -> (i: int)
    requires
        distinct_refs(distinct, refs),
        0 <= n < refs.len(),
    ensures
        0 <= i < distinct.len(),
        distinct[i].key() == refs[n].key(),
        forall|j: int|
            0 <= j < distinct.len() && j != i ==> (#[trigger] distinct[j]).key() != refs[n].key(),
{
    assert(has_key(distinct, refs[n].key()));
    let i = choose|i: int|
        0 <= i < distinct.len() && (#[trigger] distinct[i]).key() == refs[n].key();
    assert forall|j: int| 0 <= j < distinct.len() && j != i implies (#[trigger] distinct[j]).key()
        != refs[n].key() by {
        text_order_is_total(distinct[i].key(), distinct[j].key());
        if i < j {
            assert(text_lt(distinct[i].key(), distinct[j].key()));
        } else {
            assert(text_lt(distinct[j].key(), distinct[i].key()));
        }
    }
    i
}

/// A file is known by its id and its revision, with a low line between them. Files are of videos by
/// their kind.
pub proof fn files_are_known_by_id_and_revision(file: AssetRefView)
    ensures
        file.key() == signed_decimal(file.file_id as int) + "_"@ + file.revision,
        file.mime_type is None ==> !is_video_file(file),
        file.mime_type matches Some(mime) ==> (is_video_file(file) <==> mime.len() >= 6
            && mime.take(6) == seq!['v', 'i', 'd', 'e', 'o', '/']),
{
    reveal_strlit("video/");
    assert("video/"@ =~= seq!['v', 'i', 'd', 'e', 'o', '/']);
    if let Some(mime) = file.mime_type {
        if mime.len() >= 6 {
            assert(mime.take(6) =~= mime.subrange(0, 6));
        }
    }
}
} // verus!
