//! From the slots of a schedule to scenes.

use std::sync::Arc;

use vstd::prelude::*;
use vstd::string::*;

use super::layouts::{layout_of, layout_to_domain};
use super::models::{
    asset_views, share_layout, AssetRef, AssetRefView, LayoutDefinition, LayoutDefinitionView,
    PlaybackScene, SceneView,
};
use crate::cms::{
    FileDownloadDto, LayoutDto, LayoutElementDto, PlaybackAssetDto, PlaybackDataDto,
    PlaybackItemDto, PlaybackSlotDto,
};
use crate::config::{DEFAULT_ITEM_DURATION_SECONDS, ONE_SECOND_MS};
use crate::text::{i64_text, opt_text, signed_decimal};

verus! {

/// The first of two optional values that is there.
pub open spec fn either<A>(a: Option<A>, b: Option<A>) -> Option<A> {
    match a {
        Some(x) => Some(x),
        None => b,
    }
}

/// A number, where it is positive.
pub open spec fn if_positive(n: Option<i64>) -> Option<i64> {
    match n {
        Some(v) => if v > 0 {
            Some(v)
        } else {
            None
        },
        None => None,
    }
}

/// How many seconds an item is on screen: what the item says, else its playback settings, else its
/// layout, else the default. Only positive numbers count.
pub open spec fn item_seconds(item: PlaybackItemDto) -> i64 {
    let settings = match item.playback_data {
        Some(d) => d.duration,
        None => None,
    };
    let layout = match item.layout {
        Some(l) => l.default_duration,
        None => None,
    };
    match either(
        if_positive(Some(item.duration_seconds)),
        either(if_positive(settings), if_positive(layout)),
    ) {
        Some(seconds) => seconds,
        None => DEFAULT_ITEM_DURATION_SECONDS,
    }
}

/// How many milliseconds an item is on screen.
pub open spec fn item_millis(item: PlaybackItemDto) -> int {
    item_seconds(item) * ONE_SECOND_MS
}

/// How many seconds an item is on screen.
pub fn item_duration_seconds(item: &PlaybackItemDto) -> (r: i64)
    ensures
        r == item_seconds(*item),
        r > 0,
{
    if item.duration_seconds > 0 {
        return item.duration_seconds;
    }
    match &item.playback_data {
        Some(d) => match d.duration {
            Some(v) => if v > 0 {
                return v;
            },
            None => {},
        },
        None => {},
    }
    match &item.layout {
        Some(l) => match l.default_duration {
            Some(v) => if v > 0 {
                return v;
            },
            None => {},
        },
        None => {},
    }
    DEFAULT_ITEM_DURATION_SECONDS
}

/// How many milliseconds an item is on screen.
pub fn item_duration_millis(item: &PlaybackItemDto) -> (r: i64)
    requires
        item_millis(*item) <= i64::MAX,
    ensures
        r == item_millis(*item),
        r > 0,
{
    let seconds: i64 = item_duration_seconds(item);
    seconds * ONE_SECOND_MS
}

/// What the schedule knows of a file; the last entry counts.
pub open spec fn asset_with_id(assets: Seq<PlaybackAssetDto>, file_id: i64) -> Option<
    PlaybackAssetDto,
>
    decreases assets.len(),
{
    if assets.len() == 0 {
        None
    } else if assets.last().file_id == file_id {
        Some(assets.last())
    } else {
        asset_with_id(assets.drop_last(), file_id)
    }
}

/// What the schedule knows of a file; the last entry counts.
pub fn find_asset(assets: &Vec<PlaybackAssetDto>, file_id: i64) -> (r: Option<&PlaybackAssetDto>)
    ensures
        match r {
            Some(a) => asset_with_id(assets@, file_id) == Some(*a),
            None => asset_with_id(assets@, file_id) is None,
        },
{
    let mut i: usize = assets.len();
    assert(assets@.take(i as int) =~= assets@);
    while i > 0
        invariant
            i <= assets@.len(),
            asset_with_id(assets@, file_id) == asset_with_id(assets@.take(i as int), file_id),
        decreases i,
    {
        assert(assets@.take(i as int).drop_last() =~= assets@.take(i - 1));
        if assets[i - 1].file_id == file_id {
            return Some(&assets[i - 1]);
        }
        i = i - 1;
    }
    None
}

/// The asset of a download: what the download leaves open, the schedule's entry for the file says,
/// and in the end the revision of the schedule.
pub open spec fn download_ref(
    fd: FileDownloadDto,
    revision: Seq<char>,
    asset: Option<PlaybackAssetDto>,
) -> AssetRefView {
    AssetRefView {
        file_id: fd.file_id,
        revision: match either(
            opt_text(fd.revision),
            match asset {
                Some(a) => opt_text(a.revision),
                None => None,
            },
        ) {
            Some(r) => r,
            None => revision,
        },
        download_url: fd.download_url@,
        mime_type: either(
            opt_text(fd.mime_type),
            match asset {
                Some(a) => opt_text(a.mime_type),
                None => None,
            },
        ),
        size_bytes: either(
            fd.size_bytes,
            match asset {
                Some(a) => a.size_bytes,
                None => None,
            },
        ),
        checksum: either(
            opt_text(fd.checksum),
            match asset {
                Some(a) => opt_text(a.checksum),
                None => None,
            },
        ),
    }
}

/// The asset of an entry of the schedule.
pub open spec fn asset_ref(asset: PlaybackAssetDto, revision: Seq<char>) -> AssetRefView {
    AssetRefView {
        file_id: asset.file_id,
        revision: match asset.revision {
            Some(r) => r@,
            None => revision,
        },
        download_url: asset.download_url@,
        mime_type: opt_text(asset.mime_type),
        size_bytes: asset.size_bytes,
        checksum: opt_text(asset.checksum),
    }
}

fn either_text(a: &Option<String>, b: Option<&Option<String>>) -> (r: Option<String>)
    ensures
        opt_text(r) == either(
            opt_text(*a),
            match b {
                Some(t) => opt_text(*t),
                None => None,
            },
        ),
{
    match a {
        Some(t) => Some(t.clone()),
        None => match b {
            Some(t) => t.clone(),
            None => None,
        },
    }
}

/// The asset of a download.
pub fn file_download_to_ref(
    fd: &FileDownloadDto,
    timeline_revision: &str,
    asset: Option<&PlaybackAssetDto>,
) -> (r: AssetRef)
    ensures
        r@ == download_ref(
            *fd,
            timeline_revision@,
            match asset {
                Some(a) => Some(*a),
                None => None,
            },
        ),
        r.file_id == fd.file_id,
        r.download_url@ == fd.download_url@,
{
    let revision: Option<String> = either_text(
        &fd.revision,
        match asset {
            Some(a) => Some(&a.revision),
            None => None,
        },
    );
    AssetRef {
        file_id: fd.file_id,
        revision: match revision {
            Some(r) => r,
            None => timeline_revision.to_owned(),
        },
        download_url: fd.download_url.clone(),
        mime_type: either_text(
            &fd.mime_type,
            match asset {
                Some(a) => Some(&a.mime_type),
                None => None,
            },
        ),
        size_bytes: match fd.size_bytes {
            Some(n) => Some(n),
            None => match asset {
                Some(a) => a.size_bytes,
                None => None,
            },
        },
        checksum: either_text(
            &fd.checksum,
            match asset {
                Some(a) => Some(&a.checksum),
                None => None,
            },
        ),
    }
}

/// The asset of an entry of the schedule.
pub fn asset_to_ref(asset: &PlaybackAssetDto, timeline_revision: &str) -> (r: AssetRef)
    ensures
        r@ == asset_ref(*asset, timeline_revision@),
        r.file_id == asset.file_id,
        r.download_url@ == asset.download_url@,
{
    AssetRef {
        file_id: asset.file_id,
        revision: match &asset.revision {
            Some(r) => r.clone(),
            None => timeline_revision.to_owned(),
        },
        download_url: asset.download_url.clone(),
        mime_type: asset.mime_type.clone(),
        size_bytes: asset.size_bytes,
        checksum: asset.checksum.clone(),
    }
}

/// The assets that the elements of a layout refer to, as far as the schedule knows them.
pub open spec fn layout_refs(
    elements: Seq<LayoutElementDto>,
    assets: Seq<PlaybackAssetDto>,
    revision: Seq<char>,
) -> Seq<AssetRefView>
    decreases elements.len(),
{
    if elements.len() == 0 {
        Seq::empty()
    } else {
        let before = layout_refs(elements.drop_last(), assets, revision);
        match elements.last().file_id {
            Some(id) => match asset_with_id(assets, id) {
                Some(a) => before.push(asset_ref(a, revision)),
                None => before,
            },
            None => before,
        }
    }
}

/// The assets that an item needs: those of its downloads, or of its layout where it has none.
pub open spec fn item_refs(data: PlaybackDataDto, item: PlaybackItemDto) -> Seq<AssetRefView> {
    if item.file_downloads@.len() > 0 {
        Seq::new(
            item.file_downloads@.len(),
            |i: int|
                download_ref(
                    item.file_downloads@[i],
                    data.revision@,
                    asset_with_id(data.assets@, item.file_downloads@[i].file_id),
                ),
        )
    } else {
        match item.layout {
            Some(l) => layout_refs(l.layout@, data.assets@, data.revision@),
            None => Seq::empty(),
        }
    }
}

/// The assets that an item needs.
pub fn collect_asset_refs(data: &PlaybackDataDto, item: &PlaybackItemDto) -> (r: Vec<AssetRef>)
    ensures
        asset_views(r@) == item_refs(*data, *item),
        item.file_downloads@.len() > 0 ==> r@.len() == item.file_downloads@.len() && forall|i: int|
            0 <= i < r@.len() ==> {
                &&& (#[trigger] r@[i]).file_id == item.file_downloads@[i].file_id
                &&& r@[i].download_url@ == item.file_downloads@[i].download_url@
            },
{
    let mut refs: Vec<AssetRef> = Vec::new();
    if item.file_downloads.len() > 0 {
        let mut i: usize = 0;
        while i < item.file_downloads.len()
            invariant
                i <= item.file_downloads@.len(),
                item.file_downloads@.len() > 0,
                refs@.len() == i,
                forall|j: int| 0 <= j < i ==> (#[trigger] refs@[j])@ == item_refs(*data, *item)[j],
                forall|j: int|
                    0 <= j < i ==> {
                        &&& (#[trigger] refs@[j]).file_id == item.file_downloads@[j].file_id
                        &&& refs@[j].download_url@ == item.file_downloads@[j].download_url@
                    },
            decreases item.file_downloads@.len() - i,
        {
            let fd: &FileDownloadDto = &item.file_downloads[i];
            refs.push(
                file_download_to_ref(
                    fd,
                    data.revision.as_str(),
                    find_asset(&data.assets, fd.file_id),
                ),
            );
            i = i + 1;
        }
        assert(asset_views(refs@) =~= item_refs(*data, *item));
        return refs;
    }
    match &item.layout {
        Some(l) => {
            let mut i: usize = 0;
            assert(asset_views(refs@) =~= layout_refs(
                l.layout@.take(0),
                data.assets@,
                data.revision@,
            ));
            while i < l.layout.len()
                invariant
                    i <= l.layout@.len(),
                    asset_views(refs@) == layout_refs(
                        l.layout@.take(i as int),
                        data.assets@,
                        data.revision@,
                    ),
                decreases l.layout@.len() - i,
            {
                let ghost before = asset_views(refs@);
                assert(l.layout@.take(i + 1).drop_last() =~= l.layout@.take(i as int));
                match l.layout[i].file_id {
                    Some(id) => match find_asset(&data.assets, id) {
                        Some(a) => {
                            refs.push(asset_to_ref(a, data.revision.as_str()));
                            assert(asset_views(refs@) =~= before.push(
                                asset_ref(*a, data.revision@),
                            ));
                        },
                        None => {},
                    },
                    None => {},
                }
                i = i + 1;
            }
            assert(l.layout@.take(i as int) =~= l.layout@);
        },
        None => {
            assert(asset_views(refs@) =~= Seq::empty());
        },
    }
    refs
}

/// The layouts of a slot's items.
pub open spec fn layouts_of_items(items: Seq<PlaybackItemDto>) -> Seq<LayoutDto>
    decreases items.len(),
{
    if items.len() == 0 {
        Seq::empty()
    } else {
        match items.last().layout {
            Some(l) => layouts_of_items(items.drop_last()).push(l),
            None => layouts_of_items(items.drop_last()),
        }
    }
}

/// The layouts of all slots, in the order in which the schedule lists them.
pub open spec fn layouts_of_slots(slots: Seq<PlaybackSlotDto>) -> Seq<LayoutDto>
    decreases slots.len(),
{
    if slots.len() == 0 {
        Seq::empty()
    } else {
        layouts_of_slots(slots.drop_last()) + layouts_of_items(slots.last().items@)
    }
}

/// The layout of this id; the first one counts.
pub open spec fn layout_with_id(layouts: Seq<LayoutDto>, id: i64) -> Option<LayoutDefinitionView>
    decreases layouts.len(),
{
    if layouts.len() == 0 {
        None
    } else {
        match layout_with_id(layouts.drop_last(), id) {
            Some(l) => Some(l),
            None => if layouts.last().id == id {
                Some(layout_of(layouts.last()))
            } else {
                None
            },
        }
    }
}

/// The layouts of a schedule, each converted once and shared by the scenes that show it.
pub struct LayoutCache {
    entries: Vec<Arc<LayoutDefinition>>,
}

impl LayoutCache {
    spec fn entry(entries: Seq<Arc<LayoutDefinition>>, id: i64) -> Option<LayoutDefinitionView>
        decreases entries.len(),
    {
        if entries.len() == 0 {
            None
        } else {
            match Self::entry(entries.drop_last(), id) {
                Some(l) => Some(l),
                None => if entries.last().id == id {
                    Some((*entries.last())@)
                } else {
                    None
                },
            }
        }
    }

    /// Whether the cache holds exactly these layouts.
    pub closed spec fn holds(self, layouts: Seq<LayoutDto>) -> bool {
        forall|id: i64| #[trigger] Self::entry(self.entries@, id) == layout_with_id(layouts, id)
    }

    /// A cache without layouts.
    pub fn new() -> (r: LayoutCache)
        ensures
            r.holds(Seq::empty()),
    {
        LayoutCache { entries: Vec::new() }
    }

    /// The layout of this id.
    pub fn get(&self, id: i64) -> (r: Option<Arc<LayoutDefinition>>)
        ensures
            forall|layouts: Seq<LayoutDto>| #[trigger]
                self.holds(layouts) ==> layout_with_id(layouts, id) == (match r {
                    Some(l) => Some((*l)@),
                    None => None,
                }),
    {
        let mut i: usize = 0;
        assert(self.entries@.take(0) =~= Seq::empty());
        while i < self.entries.len()
            invariant
                i <= self.entries@.len(),
                Self::entry(self.entries@.take(i as int), id) is None,
            decreases self.entries@.len() - i,
        {
            assert(self.entries@.take(i + 1).drop_last() =~= self.entries@.take(i as int));
            if self.entries[i].id == id {
                let r: Arc<LayoutDefinition> = share_layout(&self.entries[i]);
                proof {
                    Self::lemma_entry_stays(self.entries@, i + 1, id);
                    assert forall|layouts: Seq<LayoutDto>| #[trigger]
                        self.holds(layouts) implies layout_with_id(layouts, id) == Some((*r)@) by {
                        assert(Self::entry(self.entries@, id) == layout_with_id(layouts, id));
                    }
                }
                return Some(r);
            }
            i = i + 1;
        }
        proof {
            assert(self.entries@.take(i as int) =~= self.entries@);
            assert forall|layouts: Seq<LayoutDto>| #[trigger]
                self.holds(layouts) implies layout_with_id(layouts, id) is None by {
                assert(Self::entry(self.entries@, id) == layout_with_id(layouts, id));
            }
        }
        None
    }

    proof fn lemma_entry_stays(entries: Seq<Arc<LayoutDefinition>>, n: int, id: i64)
        requires
            0 <= n <= entries.len(),
            Self::entry(entries.take(n), id) is Some,
        ensures
            Self::entry(entries, id) == Self::entry(entries.take(n), id),
        decreases entries.len(),
    {
        if n == entries.len() {
            assert(entries.take(n) =~= entries);
        } else {
            assert(entries.drop_last().take(n) =~= entries.take(n));
            Self::lemma_entry_stays(entries.drop_last(), n, id);
        }
    }

    /// Adds a layout, unless there is one of its id.
    pub fn insert(&mut self, dto: &LayoutDto)
        ensures
            forall|layouts: Seq<LayoutDto>| #[trigger]
                old(self).holds(layouts) ==> final(self).holds(layouts.push(*dto)),
    {
        let ghost before = self.entries@;
        let known: Option<Arc<LayoutDefinition>> = self.get(dto.id);
        if known.is_none() {
            let layout: LayoutDefinition = layout_to_domain(dto);
            self.entries.push(Arc::new(layout));
            assert(self.entries@.drop_last() =~= before);
        }
        proof {
            assert forall|layouts: Seq<LayoutDto>| #[trigger]
                old(self).holds(layouts) implies self.holds(layouts.push(*dto)) by {
                let more = layouts.push(*dto);
                assert(more.drop_last() =~= layouts);
                assert forall|id: i64| #[trigger]
                    Self::entry(self.entries@, id) == layout_with_id(more, id) by {
                    assert(Self::entry(before, id) == layout_with_id(layouts, id));
                    assert(Self::entry(before, dto.id) == layout_with_id(layouts, dto.id));
                }
            }
        }
    }

    /// The layouts of a schedule.
    pub fn of_slots(slots: &Vec<PlaybackSlotDto>) -> (r: LayoutCache)
        ensures
            r.holds(layouts_of_slots(slots@)),
    {
        let mut cache: LayoutCache = LayoutCache::new();
        let mut i: usize = 0;
        assert(layouts_of_slots(slots@.take(0)) =~= Seq::empty());
        while i < slots.len()
            invariant
                i <= slots@.len(),
                cache.holds(layouts_of_slots(slots@.take(i as int))),
            decreases slots@.len() - i,
        {
            let items: &Vec<PlaybackItemDto> = &slots[i].items;
            let ghost base = layouts_of_slots(slots@.take(i as int));
            let mut j: usize = 0;
            assert(base + layouts_of_items(items@.take(0)) =~= base);
            while j < items.len()
                invariant
                    j <= items@.len(),
                    cache.holds(base + layouts_of_items(items@.take(j as int))),
                decreases items@.len() - j,
            {
                let ghost so_far = base + layouts_of_items(items@.take(j as int));
                assert(items@.take(j + 1).drop_last() =~= items@.take(j as int));
                match &items[j].layout {
                    Some(l) => {
                        cache.insert(l);
                        assert(so_far.push(*l) =~= base + layouts_of_items(items@.take(j + 1)));
                    },
                    None => {},
                }
                j = j + 1;
            }
            proof {
                assert(items@.take(j as int) =~= items@);
                assert(slots@.take(i + 1).drop_last() =~= slots@.take(i as int));
            }
            i = i + 1;
        }
        assert(slots@.take(i as int) =~= slots@);
        cache
    }
}

/// The identity of a scene.
pub open spec fn scene_id_of(revision: Seq<char>, schedule_id: i64, item_id: i64, start: i64) -> Seq<
    char,
> {
    revision + ":"@ + signed_decimal(schedule_id as int) + ":"@ + signed_decimal(item_id as int)
        + ":"@ + signed_decimal(start as int)
}

/// The layout that an item shows.
pub open spec fn item_layout(data: PlaybackDataDto, item: PlaybackItemDto) -> Option<
    LayoutDefinitionView,
> {
    match item.layout {
        Some(l) => layout_with_id(layouts_of_slots(data.slots@), l.id),
        None => None,
    }
}

/// The scene of an item.
pub open spec fn scene_of(
    data: PlaybackDataDto,
    schedule_id: i64,
    playlist_id: i64,
    item: PlaybackItemDto,
    start: i64,
    end: i64,
) -> SceneView {
    SceneView {
        scene_id: scene_id_of(data.revision@, schedule_id, item.id, start),
        schedule_id,
        playlist_id,
        item_id: item.id,
        start,
        end,
        transition: either(
            opt_text(item.transition),
            match item.playback_data {
                Some(d) => opt_text(d.transition),
                None => None,
            },
        ),
        loop_playback: item.loops(),
        layout: item_layout(data, item),
        asset_refs: item_refs(data, item),
        rtb: None,
        fallback: None,
    }
}

/// The scene of an item.
pub fn build_scene(
    data: &PlaybackDataDto,
    layout_cache: &LayoutCache,
    schedule_id: i64,
    playlist_id: i64,
    item: &PlaybackItemDto,
    start_millis: i64,
    end_millis: i64,
) -> (r: PlaybackScene)
    requires
        layout_cache.holds(layouts_of_slots(data.slots@)),
    ensures
        r@ == scene_of(*data, schedule_id, playlist_id, *item, start_millis, end_millis),
        r.schedule_id == schedule_id,
        r.playlist_id == playlist_id,
        r.item_id == item.id,
        r.start_time_millis == start_millis,
        r.end_time_millis == end_millis,
{
    let asset_refs: Vec<AssetRef> = collect_asset_refs(data, item);
    let mut scene_id: String = data.revision.clone();
    scene_id.append(":");
    scene_id.append(i64_text(schedule_id).as_str());
    scene_id.append(":");
    scene_id.append(i64_text(item.id).as_str());
    scene_id.append(":");
    scene_id.append(i64_text(start_millis).as_str());
    let transition: Option<String> = either_text(
        &item.transition,
        match &item.playback_data {
            Some(d) => Some(&d.transition),
            None => None,
        },
    );
    let layout: Option<Arc<LayoutDefinition>> = match &item.layout {
        Some(l) => layout_cache.get(l.id),
        None => None,
    };
    PlaybackScene {
        scene_id,
        schedule_id,
        playlist_id,
        item_id: item.id,
        start_time_millis: start_millis,
        end_time_millis: end_millis,
        transition,
        loop_playback: item.loop_enabled(),
        layout,
        asset_refs,
        rtb: None,
        fallback_scene: None,
    }
}

/// How long an item is on screen: what the item says, where that is a time at all; else what its
/// playback settings say; else what its layout says; else fifteen seconds.
pub proof fn items_last_as_scheduled(item: PlaybackItemDto)
    ensures
        item_millis(item) == item_seconds(item) * 1_000,
        item.duration_seconds > 0 ==> item_seconds(item) == item.duration_seconds,
        item.duration_seconds <= 0 ==> {
            &&& item.playback_data matches Some(d) ==> (d.duration matches Some(n) ==> (n > 0
                ==> item_seconds(item) == n))
            &&& (item.playback_data matches Some(d) ==> (d.duration matches Some(n) ==> n <= 0))
                ==> {
                &&& item.layout matches Some(l) ==> (l.default_duration matches Some(n) ==> (n > 0
                    ==> item_seconds(item) == n))
                &&& (item.layout matches Some(l) ==> (l.default_duration matches Some(n) ==> n
                    <= 0)) ==> item_seconds(item) == 15
            }
        },
{
}

/// What the schedule knows of a file is its last entry for the file; it knows nothing only where it
/// has none.
pub proof fn the_last_entry_of_a_file_counts(assets: Seq<PlaybackAssetDto>, file_id: i64)
    ensures
        match asset_with_id(assets, file_id) {
            Some(a) => exists|i: int|
                0 <= i < assets.len() && #[trigger] assets[i] == a && a.file_id == file_id
                    && forall|j: int|
                    i < j < assets.len() ==> (#[trigger] assets[j]).file_id != file_id,
            None => forall|i: int|
                0 <= i < assets.len() ==> (#[trigger] assets[i]).file_id != file_id,
        },
    decreases assets.len(),
{
    if assets.len() > 0 {
        let shorter = assets.drop_last();
        let n = assets.len() - 1;
        if assets.last().file_id == file_id {
            assert(assets[n] == assets.last());
        } else {
            the_last_entry_of_a_file_counts(shorter, file_id);
            match asset_with_id(shorter, file_id) {
                Some(a) => {
                    let i = choose|i: int|
                        0 <= i < shorter.len() && #[trigger] shorter[i] == a && a.file_id == file_id
                            && forall|j: int|
                            i < j < shorter.len() ==> (#[trigger] shorter[j]).file_id != file_id;
                    assert(assets[i] == a);
                    assert forall|j: int| i < j < assets.len() implies (
                    #[trigger] assets[j]).file_id != file_id by {
                        if j < n {
                            assert(shorter[j] == assets[j]);
                        }
                    }
                },
                None => {
                    assert forall|j: int| 0 <= j < assets.len() implies (
                    #[trigger] assets[j]).file_id != file_id by {
                        if j < n {
                            assert(shorter[j] == assets[j]);
                        }
                    }
                },
            }
        }
    }
}

/// An item with downloads needs as many files as it has downloads, in their order. Each is the file
/// that the download names, fetched from the URL that the download names, whatever else the schedule
/// says of the file. What the download says of the file counts before what the schedule says.
pub proof fn downloads_are_fetched_from_their_urls(data: PlaybackDataDto, item: PlaybackItemDto)
    requires
        item.file_downloads@.len() > 0,
    ensures
        item_refs(data, item).len() == item.file_downloads@.len(),
        forall|i: int|
            0 <= i < item.file_downloads@.len() ==> {
                let file = #[trigger] item_refs(data, item)[i];
                let fd = item.file_downloads@[i];
                &&& file.file_id == fd.file_id
                &&& file.download_url == fd.download_url@
                &&& fd.revision matches Some(text) ==> file.revision == text@
                &&& fd.mime_type matches Some(text) ==> file.mime_type == Some(text@)
                &&& fd.size_bytes matches Some(n) ==> file.size_bytes == Some(n)
                &&& fd.checksum matches Some(text) ==> file.checksum == Some(text@)
            },
{
}

/// What a download leaves open is taken from the schedule's last entry for the file; where that
/// leaves it open too, the revision is that of the schedule, and the rest stays open.
pub proof fn entries_complete_downloads(
    data: PlaybackDataDto,
    item: PlaybackItemDto,
    i: int,
    entry: int,
)
    requires
        0 <= i < item.file_downloads@.len(),
        0 <= entry < data.assets@.len(),
        data.assets@[entry].file_id == item.file_downloads@[i].file_id,
        forall|j: int|
            entry < j < data.assets@.len() ==> (#[trigger] data.assets@[j]).file_id
                != item.file_downloads@[i].file_id,
    ensures
        ({
            let file = item_refs(data, item)[i];
            let fd = item.file_downloads@[i];
            let known = data.assets@[entry];
            &&& fd.revision is None ==> match known.revision {
                Some(text) => file.revision == text@,
                None => file.revision == data.revision@,
            }
            &&& fd.mime_type is None ==> match known.mime_type {
                Some(text) => file.mime_type == Some(text@),
                None => file.mime_type is None,
            }
            &&& fd.size_bytes is None ==> file.size_bytes == known.size_bytes
            &&& fd.checksum is None ==> match known.checksum {
                Some(text) => file.checksum == Some(text@),
                None => file.checksum is None,
            }
        }),
{
    let id = item.file_downloads@[i].file_id;
    the_last_entry_of_a_file_counts(data.assets@, id);
    assert(asset_with_id(data.assets@, id) == Some(data.assets@[entry])) by {
        assert(data.assets@[entry].file_id == id);
        let a = asset_with_id(data.assets@, id)->0;
        let k = choose|k: int|
            0 <= k < data.assets@.len() && #[trigger] data.assets@[k] == a && a.file_id == id
                && forall|j: int|
                k < j < data.assets@.len() ==> (#[trigger] data.assets@[j]).file_id != id;
        assert(k == entry);
    }
}

/// Where the schedule has no entry for the file of a download, the revision of the file is that of
/// the download or of the schedule, and what the download leaves open stays open.
pub proof fn unlisted_downloads_stay_as_they_are(data: PlaybackDataDto, item: PlaybackItemDto, i: int)
    requires
        0 <= i < item.file_downloads@.len(),
        forall|j: int|
            0 <= j < data.assets@.len() ==> (#[trigger] data.assets@[j]).file_id
                != item.file_downloads@[i].file_id,
    ensures
        ({
            let file = item_refs(data, item)[i];
            let fd = item.file_downloads@[i];
            &&& fd.revision is None ==> file.revision == data.revision@
            &&& fd.mime_type is None ==> file.mime_type is None
            &&& fd.size_bytes is None ==> file.size_bytes is None
            &&& fd.checksum is None ==> file.checksum is None
        }),
{
    the_last_entry_of_a_file_counts(data.assets@, item.file_downloads@[i].file_id);
}

proof fn lemma_layout_refs(
    elements: Seq<LayoutElementDto>,
    assets: Seq<PlaybackAssetDto>,
    revision: Seq<char>,
)
    ensures
        forall|k: int|
            0 <= k < layout_refs(elements, assets, revision).len() ==> {
                let file = #[trigger] layout_refs(elements, assets, revision)[k];
                &&& asset_with_id(assets, file.file_id) matches Some(a) && file == asset_ref(
                    a,
                    revision,
                )
                &&& exists|j: int|
                    0 <= j < elements.len() && (#[trigger] elements[j]).file_id == Some(
                        file.file_id,
                    )
            },
        forall|j: int|
            0 <= j < elements.len() && (#[trigger] elements[j]).file_id is Some && asset_with_id(
                assets,
                elements[j].file_id->0,
            ) is Some ==> layout_refs(elements, assets, revision).contains(
                asset_ref(asset_with_id(assets, elements[j].file_id->0)->0, revision),
            ),
    decreases elements.len(),
{
    if elements.len() > 0 {
        let shorter = elements.drop_last();
        let n = elements.len() - 1;
        let before = layout_refs(shorter, assets, revision);
        let out = layout_refs(elements, assets, revision);
        lemma_layout_refs(shorter, assets, revision);
        assert forall|k: int| 0 <= k < out.len() implies {
            let file = #[trigger] out[k];
            &&& asset_with_id(assets, file.file_id) matches Some(a) && file == asset_ref(
                a,
                revision,
            )
            &&& exists|j: int|
                0 <= j < elements.len() && (#[trigger] elements[j]).file_id == Some(file.file_id)
        } by {
            if k < before.len() {
                assert(out[k] == before[k]);
                let j = choose|j: int|
                    0 <= j < shorter.len() && (#[trigger] shorter[j]).file_id == Some(
                        before[k].file_id,
                    );
                assert(elements[j] == shorter[j]);
            } else {
                the_last_entry_of_a_file_counts(assets, elements[n].file_id->0);
                assert(elements[n].file_id == Some(out[k].file_id));
            }
        }
        assert forall|j: int|
            0 <= j < elements.len() && (#[trigger] elements[j]).file_id is Some && asset_with_id(
                assets,
                elements[j].file_id->0,
            ) is Some implies out.contains(
            asset_ref(asset_with_id(assets, elements[j].file_id->0)->0, revision),
        ) by {
            let file = asset_ref(asset_with_id(assets, elements[j].file_id->0)->0, revision);
            if j < n {
                assert(shorter[j] == elements[j]);
                assert(before.contains(file));
                let k = choose|k: int| 0 <= k < before.len() && before[k] == file;
                assert(out[k] == file);
            } else {
                assert(out[before.len() as int] == file);
            }
        }
    }
}

/// An item without downloads needs the files of its layout's elements: each file that it needs is one
/// that an element shows and that the schedule lists, fetched from where the schedule's last entry
/// for it says, and no file that an element shows and the schedule lists is left out.
pub proof fn layouts_need_the_files_of_their_elements(data: PlaybackDataDto, item: PlaybackItemDto)
    requires
        item.file_downloads@.len() == 0,
    ensures
        item.layout is None ==> item_refs(data, item).len() == 0,
        item.layout matches Some(layout) ==> {
            &&& forall|k: int|
                0 <= k < item_refs(data, item).len() ==> {
                    let file = #[trigger] item_refs(data, item)[k];
                    &&& exists|j: int|
                        0 <= j < layout.layout@.len() && (
                        #[trigger] layout.layout@[j]).file_id == Some(file.file_id)
                    &&& exists|i: int|
                        {
                            let known = #[trigger] data.assets@[i];
                            &&& 0 <= i < data.assets@.len()
                            &&& known.file_id == file.file_id
                            &&& forall|later: int|
                                i < later < data.assets@.len() ==> (
                                #[trigger] data.assets@[later]).file_id != file.file_id
                            &&& file.download_url == known.download_url@
                            &&& match known.revision {
                                Some(text) => file.revision == text@,
                                None => file.revision == data.revision@,
                            }
                            &&& match known.mime_type {
                                Some(text) => file.mime_type == Some(text@),
                                None => file.mime_type is None,
                            }
                            &&& file.size_bytes == known.size_bytes
                            &&& match known.checksum {
                                Some(text) => file.checksum == Some(text@),
                                None => file.checksum is None,
                            }
                        }
                }
            &&& forall|j: int, i: int|
                0 <= j < layout.layout@.len() && 0 <= i < data.assets@.len() && (
                #[trigger] layout.layout@[j]).file_id == Some((#[trigger] data.assets@[i]).file_id)
                    ==> exists|k: int|
                    0 <= k < item_refs(data, item).len() && (
                    #[trigger] item_refs(data, item)[k]).file_id == data.assets@[i].file_id
        },
{
    if let Some(layout) = item.layout {
        let refs = item_refs(data, item);
        lemma_layout_refs(layout.layout@, data.assets@, data.revision@);
        assert forall|k: int| 0 <= k < refs.len() implies {
            let file = #[trigger] refs[k];
            exists|i: int|
                {
                    let known = #[trigger] data.assets@[i];
                    &&& 0 <= i < data.assets@.len()
                    &&& known.file_id == file.file_id
                    &&& forall|later: int|
                        i < later < data.assets@.len() ==> (
                        #[trigger] data.assets@[later]).file_id != file.file_id
                    &&& file == asset_ref(known, data.revision@)
                }
        } by {
            the_last_entry_of_a_file_counts(data.assets@, refs[k].file_id);
        }
        assert forall|j: int, i: int|
            0 <= j < layout.layout@.len() && 0 <= i < data.assets@.len() && (
            #[trigger] layout.layout@[j]).file_id == Some((#[trigger] data.assets@[i]).file_id)
            implies exists|k: int|
            0 <= k < refs.len() && (#[trigger] refs[k]).file_id == data.assets@[i].file_id by {
            let id = data.assets@[i].file_id;
            the_last_entry_of_a_file_counts(data.assets@, id);
            let file = asset_ref(asset_with_id(data.assets@, id)->0, data.revision@);
            assert(refs.contains(file));
            let k = choose|k: int| 0 <= k < refs.len() && refs[k] == file;
            assert(refs[k].file_id == id);
        }
    }
}

/// A scene is on for the time that it is given, belongs to the schedule, the playlist and the item
/// that it is made of, and is known by the revision, the schedule, the item and its start.
pub proof fn scenes_say_what_they_are_made_of(
    data: PlaybackDataDto,
    schedule_id: i64,
    playlist_id: i64,
    item: PlaybackItemDto,
    start: i64,
    end: i64,
)
    ensures
        ({
            let scene = scene_of(data, schedule_id, playlist_id, item, start, end);
            &&& scene.start == start
            &&& scene.end == end
            &&& scene.schedule_id == schedule_id
            &&& scene.playlist_id == playlist_id
            &&& scene.item_id == item.id
            &&& scene.scene_id == data.revision@ + ":"@ + signed_decimal(schedule_id as int) + ":"@
                + signed_decimal(item.id as int) + ":"@ + signed_decimal(start as int)
            &&& match item.transition {
                Some(text) => scene.transition == Some(text@),
                None => match item.playback_data {
                    Some(d) => match d.transition {
                        Some(text) => scene.transition == Some(text@),
                        None => scene.transition is None,
                    },
                    None => scene.transition is None,
                },
            }
            &&& scene.loop_playback <==> item.loop_playback || (item.playback_data matches Some(d)
                && d.loop_playback == Some(true))
            &&& scene.rtb is None
            &&& scene.fallback is None
            &&& item.file_downloads@.len() > 0 ==> scene.asset_refs.len()
                == item.file_downloads@.len() && forall|i: int|
                0 <= i < item.file_downloads@.len() ==> {
                    &&& (#[trigger] scene.asset_refs[i]).file_id == item.file_downloads@[i].file_id
                    &&& scene.asset_refs[i].download_url == item.file_downloads@[i].download_url@
                }
        }),
{
}

proof fn lemma_layout_with_id(layouts: Seq<LayoutDto>, id: i64)
    ensures
        match layout_with_id(layouts, id) {
            Some(l) => exists|i: int|
                0 <= i < layouts.len() && (#[trigger] layouts[i]).id == id && l == layout_of(
                    layouts[i],
                ) && forall|j: int| 0 <= j < i ==> (#[trigger] layouts[j]).id != id,
            None => forall|i: int| 0 <= i < layouts.len() ==> (#[trigger] layouts[i]).id != id,
        },
    decreases layouts.len(),
{
    if layouts.len() > 0 {
        let shorter = layouts.drop_last();
        let n = layouts.len() - 1;
        lemma_layout_with_id(shorter, id);
        match layout_with_id(shorter, id) {
            Some(l) => {
                let i = choose|i: int|
                    0 <= i < shorter.len() && (#[trigger] shorter[i]).id == id && l == layout_of(
                        shorter[i],
                    ) && forall|j: int| 0 <= j < i ==> (#[trigger] shorter[j]).id != id;
                assert(layouts[i] == shorter[i]);
                assert forall|j: int| 0 <= j < i implies (#[trigger] layouts[j]).id != id by {
                    assert(shorter[j] == layouts[j]);
                }
            },
            None => {
                assert forall|j: int| 0 <= j < n implies (#[trigger] layouts[j]).id != id by {
                    assert(shorter[j] == layouts[j]);
                }
                assert(layouts[n] == layouts.last());
            },
        }
    }
}

proof fn lemma_layout_listed(items: Seq<PlaybackItemDto>, i: int) -> (k: int)
    requires
        0 <= i < items.len(),
        items[i].layout is Some,
    ensures
        0 <= k < layouts_of_items(items).len(),
        layouts_of_items(items)[k] == items[i].layout->0,
    decreases items.len(),
{
    let shorter = items.drop_last();
    if i < shorter.len() {
        assert(shorter[i] == items[i]);
        let k = lemma_layout_listed(shorter, i);
        assert(layouts_of_items(items)[k] == layouts_of_items(shorter)[k]);
        k
    } else {
        layouts_of_items(shorter).len() as int
    }
}

proof fn lemma_layout_scheduled(slots: Seq<PlaybackSlotDto>, s: int, i: int) -> (k: int)
    requires
        0 <= s < slots.len(),
        0 <= i < slots[s].items@.len(),
        slots[s].items@[i].layout is Some,
    ensures
        0 <= k < layouts_of_slots(slots).len(),
        layouts_of_slots(slots)[k] == slots[s].items@[i].layout->0,
    decreases slots.len(),
{
    let shorter = slots.drop_last();
    let before = layouts_of_slots(shorter);
    if s < shorter.len() {
        assert(shorter[s] == slots[s]);
        let k = lemma_layout_scheduled(shorter, s, i);
        assert(layouts_of_slots(slots)[k] == before[k]);
        k
    } else {
        let k = lemma_layout_listed(slots[s].items@, i);
        assert(layouts_of_slots(slots)[before.len() + k] == layouts_of_items(slots[s].items@)[k]);
        before.len() + k
    }
}

proof fn lemma_listed_by_an_item(items: Seq<PlaybackItemDto>, k: int) -> (i: int)
    requires
        0 <= k < layouts_of_items(items).len(),
    ensures
        0 <= i < items.len(),
        items[i].layout == Some(layouts_of_items(items)[k]),
    decreases items.len(),
{
    let shorter = items.drop_last();
    let before = layouts_of_items(shorter);
    if k < before.len() {
        let i = lemma_listed_by_an_item(shorter, k);
        assert(layouts_of_items(items)[k] == before[k]);
        assert(items[i] == shorter[i]);
        i
    } else {
        items.len() - 1
    }
}

proof fn lemma_listed_by_a_slot(slots: Seq<PlaybackSlotDto>, k: int) -> (r: (int, int))
    requires
        0 <= k < layouts_of_slots(slots).len(),
    ensures
        0 <= r.0 < slots.len(),
        0 <= r.1 < slots[r.0].items@.len(),
        slots[r.0].items@[r.1].layout == Some(layouts_of_slots(slots)[k]),
    decreases slots.len(),
{
    let shorter = slots.drop_last();
    let before = layouts_of_slots(shorter);
    if k < before.len() {
        let r = lemma_listed_by_a_slot(shorter, k);
        assert(layouts_of_slots(slots)[k] == before[k]);
        assert(slots[r.0] == shorter[r.0]);
        r
    } else {
        let i = lemma_listed_by_an_item(slots.last().items@, k - before.len());
        (slots.len() - 1, i)
    }
}

/// An item of the schedule shows the layout of the id that it names, as some item of the schedule
/// lists it: as large as that says, under its name. An item without layout shows none.
pub proof fn items_show_their_layout(data: PlaybackDataDto, s: int, i: int)
    requires
        0 <= s < data.slots@.len(),
        0 <= i < data.slots@[s].items@.len(),
    ensures
        ({
            let item = data.slots@[s].items@[i];
            match item.layout {
                Some(own) => {
                    &&& item_layout(data, item) matches Some(shown) && shown.id == own.id && exists|
                        t: int,
                        j: int,
                    |
                        {
                            let listed = #[trigger] data.slots@[t].items@[j].layout;
                            &&& 0 <= t < data.slots@.len()
                            &&& 0 <= j < data.slots@[t].items@.len()
                            &&& listed matches Some(dto) && dto.id == own.id && shown == layout_of(
                                dto,
                            ) && shown.width == dto.width && shown.height == dto.height
                                && shown.name == dto.name@
                        }
                },
                None => item_layout(data, item) is None,
            }
        }),
{
    let item = data.slots@[s].items@[i];
    if let Some(own) = item.layout {
        let layouts = layouts_of_slots(data.slots@);
        let k = lemma_layout_scheduled(data.slots@, s, i);
        assert(layouts[k] == own);
        lemma_layout_with_id(layouts, own.id);
        let shown = layout_with_id(layouts, own.id)->0;
        let first = choose|first: int|
            0 <= first < layouts.len() && (#[trigger] layouts[first]).id == own.id && shown
                == layout_of(layouts[first]) && forall|j: int|
                0 <= j < first ==> (#[trigger] layouts[j]).id != own.id;
        let r = lemma_listed_by_a_slot(data.slots@, first);
        assert(data.slots@[r.0].items@[r.1].layout == Some(layouts[first]));
    }
}

/// Where the schedule lists a layout of an id only once, or always alike, the items that name the id
/// show that layout.
pub proof fn items_show_the_layout_of_their_id(
    data: PlaybackDataDto,
    s: int,
    i: int,
    dto: LayoutDto,
)
    requires
        0 <= s < data.slots@.len(),
        0 <= i < data.slots@[s].items@.len(),
        data.slots@[s].items@[i].layout == Some(dto),
        forall|t: int, j: int|
            0 <= t < data.slots@.len() && 0 <= j < data.slots@[t].items@.len() ==> (
            #[trigger] data.slots@[t].items@[j].layout matches Some(other) ==> (other.id == dto.id
                ==> other == dto)),
    ensures
        item_layout(data, data.slots@[s].items@[i]) == Some(layout_of(dto)),
{
    items_show_their_layout(data, s, i);
}

} // verus!
