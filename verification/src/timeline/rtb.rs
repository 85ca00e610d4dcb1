//! Slots that were sold in an auction.

use std::sync::Arc;

use vstd::prelude::*;
use vstd::string::*;
use vstd::utf8::encode_utf8;

use super::models::{
    asset_views, element_views, scene_views, tracking_names_parse_back, tracking_views, AssetRef,
    AssetRefView, LayoutDefinition, LayoutDefinitionView, LayoutElement, LayoutElementView,
    PlaybackScene, RtbSceneMetadata, RtbSceneMetadataView, SceneView, TrackingEvent, TrackingUrl,
    TrackingUrlView,
};
use super::query::cache_keys_tell_files_apart;
use crate::cms::{PlaybackDataDto, RtbItemDto, RtbSlotDto, TrackingUrlDto};
use crate::digest::{sha256, stable_id, stable_id_of, stable_ids_are_negative};
use crate::text::{
    has_prefix, i64_text, is_blank, opt_text, same_text, signed_decimal, starts_with, trimmed,
};

verus! {

/// Whether assets of this type and MIME type can be shown.
pub open spec fn supported(asset_type: Seq<char>, mime_type: Seq<char>) -> bool {
    ||| asset_type == "video"@ && mime_type == "video/mp4"@
    ||| asset_type == "image"@ && mime_type == "image/jpeg"@
    ||| asset_type == "image"@ && mime_type == "image/png"@
}

/// Why an item cannot be shown.
pub open spec fn item_fault(item: RtbItemDto) -> Option<Seq<char>> {
    let asset = item.asset;
    if !supported(asset.asset_type@, asset.mime_type@) {
        Some("unsupported_asset_type_or_mime"@)
    } else if trimmed(item.bid_id@).len() == 0 {
        Some("empty_bid_id"@)
    } else if trimmed(item.creative_id@).len() == 0 {
        Some("empty_creative_id"@)
    } else if !has_prefix(asset.download_url@, "https://"@) {
        Some("asset_url_must_be_https"@)
    } else if asset.width <= 0 || asset.height <= 0 {
        Some("non_positive_asset_dimensions"@)
    } else if asset.duration_seconds <= 0 {
        Some("non_positive_asset_duration"@)
    } else if asset.size_bytes matches Some(size) && size <= 0 {
        Some("non_positive_asset_size"@)
    } else {
        None
    }
}

/// Why an item cannot be shown, where it cannot.
pub fn validate_rtb_item(item: &RtbItemDto) -> (r: Result<(), &'static str>)
    ensures
        match r {
            Ok(_) => item_fault(*item) is None,
            Err(reason) => item_fault(*item) == Some(reason@),
        },
{
    let asset = &item.asset;
    let kind: &str = asset.asset_type.as_str();
    let mime: &str = asset.mime_type.as_str();
    let fits: bool = (same_text(kind, "video") && same_text(mime, "video/mp4")) || (same_text(
        kind,
        "image",
    ) && same_text(mime, "image/jpeg")) || (same_text(kind, "image") && same_text(
        mime,
        "image/png",
    ));
    if !fits {
        return Err("unsupported_asset_type_or_mime");
    }
    if is_blank(item.bid_id.as_str()) {
        return Err("empty_bid_id");
    }
    if is_blank(item.creative_id.as_str()) {
        return Err("empty_creative_id");
    }
    if !starts_with(asset.download_url.as_str(), "https://") {
        return Err("asset_url_must_be_https");
    }
    if asset.width <= 0 || asset.height <= 0 {
        return Err("non_positive_asset_dimensions");
    }
    if asset.duration_seconds <= 0 {
        return Err("non_positive_asset_duration");
    }
    match asset.size_bytes {
        Some(size) => if size <= 0 {
            return Err("non_positive_asset_size");
        },
        None => {},
    }
    Ok(())
}

/// The first index whose scene satisfies `p`.
pub open spec fn first_where(scenes: Seq<SceneView>, p: spec_fn(SceneView) -> bool) -> Option<int>
    decreases scenes.len(),
{
    if scenes.len() == 0 {
        None
    } else {
        match first_where(scenes.drop_last(), p) {
            Some(i) => Some(i),
            None => if p(scenes.last()) {
                Some(scenes.len() - 1)
            } else {
                None
            },
        }
    }
}

/// The predicate that holds of scenes that are on at `time`.
pub open spec fn on_at(time: int) -> spec_fn(SceneView) -> bool {
    |s: SceneView| s.start <= time && s.end > time
}

/// The predicate that holds of scenes that are on at some time from `from` to `to`.
pub open spec fn on_between(from: int, to: int) -> spec_fn(SceneView) -> bool {
    |s: SceneView| s.end > from && s.start < to
}

/// The scene that would have been on without the auction: the one that is on at the start, else
/// the first that is on before the end.
pub open spec fn displaced(baseline: Seq<SceneView>, start: int, end: int) -> Option<int> {
    match first_where(baseline, on_at(start)) {
        Some(i) => Some(i),
        None => first_where(baseline, on_between(start, end)),
    }
}

/// What is shown from `start` to `end` where the scene `scene_id` cannot be.
pub open spec fn fallback_of(
    baseline: Seq<SceneView>,
    scene_id: Seq<char>,
    start: i64,
    end: i64,
) -> Option<Box<SceneView>> {
    match displaced(baseline, start as int, end as int) {
        Some(i) => Some(
            Box::new(
                SceneView {
                    scene_id: "fallback:"@ + scene_id + ":"@ + baseline[i].scene_id,
                    start,
                    end,
                    rtb: None,
                    fallback: None,
                    ..baseline[i]
                },
            ),
        ),
        None => None,
    }
}

/// The tracking URLs that can be called: of known events, over HTTP or HTTPS.
pub open spec fn tracking_of(entries: Seq<TrackingUrlDto>) -> Seq<TrackingUrlView>
    decreases entries.len(),
{
    if entries.len() == 0 {
        Seq::empty()
    } else {
        let before = tracking_of(entries.drop_last());
        let entry = entries.last();
        match TrackingEvent::named(entry.event@) {
            Some(event) => if has_prefix(entry.url@, "https://"@) || has_prefix(
                entry.url@,
                "http://"@,
            ) {
                before.push(TrackingUrlView { event, url: entry.url@ })
            } else {
                before
            },
            None => before,
        }
    }
}

/// The identity of an auctioned scene.
pub open spec fn rtb_scene_id(
    revision: Seq<char>,
    slot_id: Seq<char>,
    bid_id: Seq<char>,
    start: i64,
) -> Seq<char> {
    revision + ":rtb:"@ + slot_id + ":"@ + bid_id + ":"@ + signed_decimal(start as int)
}

/// The identity of an auctioned file.
pub open spec fn rtb_file_id(creative_id: Seq<char>) -> i64 {
    stable_id_of("rtb-file:"@ + creative_id)
}

/// The layout of an auctioned scene: its asset alone, over the whole screen, on black.
pub open spec fn rtb_layout(item: RtbItemDto) -> LayoutDefinitionView {
    LayoutDefinitionView {
        id: stable_id_of("rtb-layout:"@ + item.creative_id@),
        name: "RTB "@ + item.creative_id@,
        group_name: Some("rtb"@),
        width: item.asset.width,
        height: item.asset.height,
        elements: seq![
            LayoutElementView {
                id: "rtb-asset-"@ + item.creative_id@,
                x: 0,
                y: 0,
                width: item.asset.width,
                height: item.asset.height,
                element_type: item.asset.asset_type@,
                keep_aspect_ratio: true,
                file_id: Some(rtb_file_id(item.creative_id@)),
                content: None,
                font: None,
                font_size: None,
                bold: false,
                italic: false,
                underline: false,
                strikethrough: false,
                background_color: Some("#000000"@),
                text_color: None,
                border_color: None,
                border_width: None,
                z_index: Some(0),
            },
        ],
        default_duration: Some(item.asset.duration_seconds),
    }
}

/// The asset of an auctioned scene.
pub open spec fn rtb_asset(item: RtbItemDto) -> AssetRefView {
    AssetRefView {
        file_id: rtb_file_id(item.creative_id@),
        revision: item.creative_id@,
        download_url: item.asset.download_url@,
        mime_type: Some(item.asset.mime_type@),
        size_bytes: item.asset.size_bytes,
        checksum: opt_text(item.asset.checksum),
    }
}

/// What an auctioned scene carries along.
pub open spec fn rtb_metadata(slot: RtbSlotDto, item: RtbItemDto) -> RtbSceneMetadataView {
    RtbSceneMetadataView {
        slot_id: slot.id@,
        request_id: opt_text(slot.request_id),
        bid_id: item.bid_id@,
        imp_id: item.imp_id@,
        ad_id: item.ad_id@,
        creative_id: item.creative_id@,
        price: item.price,
        currency: match slot.currency {
            Some(c) => c@,
            None => "KRW"@,
        },
        tracking: tracking_of(item.tracking@),
    }
}

/// The scene of an auctioned item.
pub open spec fn rtb_scene_of(
    data: PlaybackDataDto,
    slot: RtbSlotDto,
    item: RtbItemDto,
    start: i64,
    end: i64,
    baseline: Seq<SceneView>,
) -> SceneView {
    let scene_id = rtb_scene_id(data.revision@, slot.id@, item.bid_id@, start);
    SceneView {
        scene_id,
        schedule_id: stable_id_of("rtb-schedule:"@ + slot.id@),
        playlist_id: stable_id_of("rtb-playlist:"@ + slot.id@),
        item_id: stable_id_of("rtb-item:"@ + item.bid_id@),
        start,
        end,
        transition: None,
        loop_playback: false,
        layout: Some(rtb_layout(item)),
        asset_refs: seq![rtb_asset(item)],
        rtb: Some(rtb_metadata(slot, item)),
        fallback: fallback_of(baseline, scene_id, start, end),
    }
}

fn prefixed(prefix: &str, rest: &str) -> (r: String)
    ensures
        r@ == prefix@ + rest@,
{
    let mut out: String = prefix.to_owned();
    out.append(rest);
    out
}

fn find_displaced(baseline: &Vec<PlaybackScene>, start: i64, end: i64) -> (r: Option<usize>)
    ensures
        displaced(scene_views(baseline@), start as int, end as int) == (match r {
            Some(i) => Some(i as int),
            None => None,
        }),
        r matches Some(i) ==> i < baseline@.len(),
{
    let ghost views = scene_views(baseline@);
    let mut during: Option<usize> = None;
    let mut i: usize = 0;
    assert(views.take(0) =~= Seq::empty());
    while i < baseline.len()
        invariant
            i <= baseline@.len(),
            views == scene_views(baseline@),
            first_where(views.take(i as int), on_at(start as int)) is None,
            first_where(views.take(i as int), on_between(start as int, end as int)) == (
            match during {
                Some(k) => Some(k as int),
                None => None,
            }),
            during matches Some(k) ==> k < i,
        decreases baseline@.len() - i,
    {
        proof {
            assert(views.take(i + 1).drop_last() =~= views.take(i as int));
            assert(views[i as int] == baseline@[i as int]@);
        }
        let s: i64 = baseline[i].start_time_millis;
        let e: i64 = baseline[i].end_time_millis;
        if s <= start && e > start {
            proof {
                lemma_first_stays(views, on_at(start as int), i + 1);
            }
            return Some(i);
        }
        if during.is_none() && e > start && s < end {
            during = Some(i);
        }
        i = i + 1;
    }
    assert(views.take(i as int) =~= views);
    during
}

proof fn lemma_first_stays(scenes: Seq<SceneView>, p: spec_fn(SceneView) -> bool, n: int)
    requires
        0 <= n <= scenes.len(),
        first_where(scenes.take(n), p) is Some,
    ensures
        first_where(scenes, p) == first_where(scenes.take(n), p),
    decreases scenes.len(),
{
    if n == scenes.len() {
        assert(scenes.take(n) =~= scenes);
    } else {
        assert(scenes.drop_last().take(n) =~= scenes.take(n));
        lemma_first_stays(scenes.drop_last(), p, n);
    }
}

fn build_fallback(
    baseline: &Vec<PlaybackScene>,
    scene_id: &str,
    start: i64,
    end: i64,
) -> (r: Option<Box<PlaybackScene>>)
    ensures
        fallback_of(scene_views(baseline@), scene_id@, start, end) == (match r {
            Some(f) => Some(Box::new((*f)@)),
            None => None,
        }),
{
    match find_displaced(baseline, start, end) {
        Some(i) => {
            let mut id: String = prefixed("fallback:", scene_id);
            id.append(":");
            id.append(baseline[i].scene_id.as_str());
            let mut scene: PlaybackScene = baseline[i].clone();
            assert(scene_views(baseline@)[i as int] == baseline@[i as int]@);
            scene.scene_id = id;
            scene.start_time_millis = start;
            scene.end_time_millis = end;
            scene.rtb = None;
            scene.fallback_scene = None;
            Some(Box::new(scene))
        },
        None => None,
    }
}

fn build_tracking(entries: &Vec<TrackingUrlDto>) -> (r: Vec<TrackingUrl>)
    ensures
        tracking_views(r@) == tracking_of(entries@),
{
    let mut out: Vec<TrackingUrl> = Vec::new();
    let mut i: usize = 0;
    assert(tracking_views(out@) =~= tracking_of(entries@.take(0)));
    while i < entries.len()
        invariant
            i <= entries@.len(),
            tracking_views(out@) == tracking_of(entries@.take(i as int)),
        decreases entries@.len() - i,
    {
        let ghost before = tracking_views(out@);
        let entry: &TrackingUrlDto = &entries[i];
        assert(entries@.take(i + 1).drop_last() =~= entries@.take(i as int));
        match TrackingEvent::parse(entry.event.as_str()) {
            Some(event) => if starts_with(entry.url.as_str(), "https://") || starts_with(
                entry.url.as_str(),
                "http://",
            ) {
                let entry_url: TrackingUrl = TrackingUrl { event, url: entry.url.clone() };
                let ghost view = entry_url@;
                out.push(entry_url);
                assert(tracking_views(out@) =~= before.push(view));
            },
            None => {},
        }
        i = i + 1;
    }
    assert(entries@.take(i as int) =~= entries@);
    out
}

fn build_rtb_layout(item: &RtbItemDto) -> (r: LayoutDefinition)
    ensures
        r@ == rtb_layout(*item),
{
    let creative: &str = item.creative_id.as_str();
    let element: LayoutElement = LayoutElement {
        id: prefixed("rtb-asset-", creative),
        x: 0,
        y: 0,
        width: item.asset.width,
        height: item.asset.height,
        element_type: item.asset.asset_type.clone(),
        keep_aspect_ratio: true,
        file_id: Some(stable_id(prefixed("rtb-file:", creative).as_str())),
        content: None,
        font: None,
        font_size: None,
        bold: false,
        italic: false,
        underline: false,
        strikethrough: false,
        background_color: Some("#000000".to_owned()),
        text_color: None,
        border_color: None,
        border_width: None,
        z_index: Some(0),
    };
    let mut elements: Vec<LayoutElement> = Vec::new();
    elements.push(element);
    assert(element_views(elements@) =~= rtb_layout(*item).elements);
    LayoutDefinition {
        id: stable_id(prefixed("rtb-layout:", creative).as_str()),
        name: prefixed("RTB ", creative),
        group_name: Some("rtb".to_owned()),
        width: item.asset.width,
        height: item.asset.height,
        elements,
        default_duration: Some(item.asset.duration_seconds),
    }
}

/// The scene of an auctioned item.
pub fn build_rtb_scene(
    data: &PlaybackDataDto,
    slot: &RtbSlotDto,
    item: &RtbItemDto,
    start_millis: i64,
    end_millis: i64,
    baseline: &Vec<PlaybackScene>,
) -> (r: PlaybackScene)
    ensures
        r@ == rtb_scene_of(
            *data,
            *slot,
            *item,
            start_millis,
            end_millis,
            scene_views(baseline@),
        ),
        r.start_time_millis == start_millis,
        r.end_time_millis == end_millis,
        r.asset_refs@.len() == 1 && r.asset_refs@[0].download_url@ == item.asset.download_url@,
        r.rtb matches Some(sold) && sold.slot_id@ == slot.id@ && sold.bid_id@ == item.bid_id@
            && sold.creative_id@ == item.creative_id@,
{
    let creative: &str = item.creative_id.as_str();
    let mut scene_id: String = data.revision.clone();
    scene_id.append(":rtb:");
    scene_id.append(slot.id.as_str());
    scene_id.append(":");
    scene_id.append(item.bid_id.as_str());
    scene_id.append(":");
    scene_id.append(i64_text(start_millis).as_str());
    let fallback_scene: Option<Box<PlaybackScene>> = build_fallback(
        baseline,
        scene_id.as_str(),
        start_millis,
        end_millis,
    );
    let asset: AssetRef = AssetRef {
        file_id: stable_id(prefixed("rtb-file:", creative).as_str()),
        revision: item.creative_id.clone(),
        download_url: item.asset.download_url.clone(),
        mime_type: Some(item.asset.mime_type.clone()),
        size_bytes: item.asset.size_bytes,
        checksum: item.asset.checksum.clone(),
    };
    let mut asset_refs: Vec<AssetRef> = Vec::new();
    asset_refs.push(asset);
    assert(asset_views(asset_refs@) =~= seq![rtb_asset(*item)]);
    let metadata: RtbSceneMetadata = RtbSceneMetadata {
        slot_id: slot.id.clone(),
        request_id: slot.request_id.clone(),
        bid_id: item.bid_id.clone(),
        imp_id: item.imp_id.clone(),
        ad_id: item.ad_id.clone(),
        creative_id: item.creative_id.clone(),
        price: item.price,
        currency: match &slot.currency {
            Some(c) => c.clone(),
            None => "KRW".to_owned(),
        },
        tracking: build_tracking(&item.tracking),
    };
    PlaybackScene {
        scene_id,
        schedule_id: stable_id(prefixed("rtb-schedule:", slot.id.as_str()).as_str()),
        playlist_id: stable_id(prefixed("rtb-playlist:", slot.id.as_str()).as_str()),
        item_id: stable_id(prefixed("rtb-item:", item.bid_id.as_str()).as_str()),
        start_time_millis: start_millis,
        end_time_millis: end_millis,
        transition: None,
        loop_playback: false,
        layout: Some(Arc::new(build_rtb_layout(item))),
        asset_refs,
        rtb: Some(metadata),
        fallback_scene,
    }
}

/// An auctioned file and a file of the content management system, whose ids are not negative, are
/// never kept under the same name.
pub proof fn auctioned_files_are_kept_apart(item: RtbItemDto, file: AssetRefView)
    requires
        file.file_id >= 0,
    ensures
        rtb_asset(item).file_id < 0,
        rtb_asset(item).key() != file.key(),
{
    stable_ids_are_negative(sha256(encode_utf8("rtb-file:"@ + item.creative_id@)));
    if rtb_asset(item).key() == file.key() {
        cache_keys_tell_files_apart(rtb_asset(item), file);
    }
}

proof fn lemma_first_where(scenes: Seq<SceneView>, p: spec_fn(SceneView) -> bool)
    ensures
        match first_where(scenes, p) {
            Some(i) => 0 <= i < scenes.len() && p(scenes[i]) && forall|j: int|
                0 <= j < i ==> !p(#[trigger] scenes[j]),
            None => forall|j: int| 0 <= j < scenes.len() ==> !p(#[trigger] scenes[j]),
        },
    decreases scenes.len(),
{
    if scenes.len() > 0 {
        let shorter = scenes.drop_last();
        lemma_first_where(shorter, p);
        match first_where(shorter, p) {
            Some(i) => {
                assert forall|j: int| 0 <= j < i implies !p(#[trigger] scenes[j]) by {
                    assert(shorter[j] == scenes[j]);
                }
            },
            None => {
                assert forall|j: int| 0 <= j < shorter.len() implies !p(#[trigger] scenes[j]) by {
                    assert(shorter[j] == scenes[j]);
                }
            },
        }
    }
}

/// Where some scene of the schedule is on when an auctioned scene starts, that is what is shown in
/// its place: the first of the schedule's scenes whose time holds the start, with its item, layout
/// and files, for the time of the auctioned scene.
pub proof fn the_scene_on_at_the_start_is_the_fallback(
    data: PlaybackDataDto,
    slot: RtbSlotDto,
    item: RtbItemDto,
    start: i64,
    end: i64,
    baseline: Seq<SceneView>,
    on: int,
)
    requires
        0 <= on < baseline.len(),
        baseline[on].start <= start < baseline[on].end,
    ensures
        ({
            let scene = rtb_scene_of(data, slot, item, start, end, baseline);
            scene.fallback matches Some(instead) && exists|i: int|
                {
                    let own = #[trigger] baseline[i];
                    &&& 0 <= i <= on
                    &&& own.start <= start < own.end
                    &&& forall|j: int|
                        0 <= j < i ==> !((#[trigger] baseline[j]).start <= start < baseline[j].end)
                    &&& instead.scene_id == "fallback:"@ + scene.scene_id + ":"@ + own.scene_id
                    &&& instead.schedule_id == own.schedule_id
                    &&& instead.playlist_id == own.playlist_id
                    &&& instead.item_id == own.item_id
                    &&& instead.transition == own.transition
                    &&& instead.loop_playback == own.loop_playback
                    &&& instead.layout == own.layout
                    &&& instead.asset_refs == own.asset_refs
                    &&& instead.start == start
                    &&& instead.end == end
                    &&& instead.rtb is None
                    &&& instead.fallback is None
                }
        }),
{
    lemma_first_where(baseline, on_at(start as int));
    let i = first_where(baseline, on_at(start as int))->0;
    assert(on_at(start as int)(baseline[on]));
    assert(on_at(start as int)(baseline[i]));
    assert forall|j: int| 0 <= j < i implies !((#[trigger] baseline[j]).start <= start
        < baseline[j].end) by {
        assert(!on_at(start as int)(baseline[j]));
    }
}

/// Where no scene of the schedule is on when an auctioned scene starts, the first that is on before
/// it ends is shown in its place; and nothing where none is on at any time of it.
pub proof fn the_next_scene_is_the_fallback(
    data: PlaybackDataDto,
    slot: RtbSlotDto,
    item: RtbItemDto,
    start: i64,
    end: i64,
    baseline: Seq<SceneView>,
)
    requires
        forall|j: int|
            0 <= j < baseline.len() ==> !((#[trigger] baseline[j]).start <= start
                < baseline[j].end),
    ensures
        ({
            let scene = rtb_scene_of(data, slot, item, start, end, baseline);
            match scene.fallback {
                Some(instead) => exists|i: int|
                    {
                        let own = #[trigger] baseline[i];
                        &&& 0 <= i < baseline.len()
                        &&& start < own.end && own.start < end
                        &&& forall|j: int|
                            0 <= j < i ==> !(start < (#[trigger] baseline[j]).end
                                && baseline[j].start < end)
                        &&& instead.scene_id == "fallback:"@ + scene.scene_id + ":"@ + own.scene_id
                        &&& instead.schedule_id == own.schedule_id
                        &&& instead.playlist_id == own.playlist_id
                        &&& instead.item_id == own.item_id
                        &&& instead.transition == own.transition
                        &&& instead.loop_playback == own.loop_playback
                        &&& instead.rtb is None
                        &&& instead.fallback is None
                        &&& instead.layout == own.layout
                        &&& instead.asset_refs == own.asset_refs
                        &&& instead.start == start
                        &&& instead.end == end
                    },
                None => forall|j: int|
                    0 <= j < baseline.len() ==> !(start < (#[trigger] baseline[j]).end
                        && baseline[j].start < end),
            }
        }),
{
    lemma_first_where(baseline, on_at(start as int));
    let p = on_between(start as int, end as int);
    lemma_first_where(baseline, p);
    if let Some(i) = first_where(baseline, on_at(start as int)) {
        assert(on_at(start as int)(baseline[i]));
    }
    assert forall|j: int|
        0 <= j < baseline.len() && !p(#[trigger] baseline[j]) implies !(start < baseline[j].end
        && baseline[j].start < end) by {}
    if let Some(i) = first_where(baseline, p) {
        assert(p(baseline[i]));
    }
}

/// A bid is shown exactly where it is a video of type MP4 or an image of type JPEG or PNG, has a bid
/// and a creative, comes over HTTPS, and its size and time, and its length where that is told, are
/// positive.
pub proof fn bids_are_shown_where_they_can_be(item: RtbItemDto)
    ensures
        item_fault(item) is None <==> {
            &&& {
                ||| item.asset.asset_type@ == "video"@ && item.asset.mime_type@ == "video/mp4"@
                ||| item.asset.asset_type@ == "image"@ && (item.asset.mime_type@ == "image/jpeg"@
                    || item.asset.mime_type@ == "image/png"@)
            }
            &&& trimmed(item.bid_id@).len() > 0
            &&& trimmed(item.creative_id@).len() > 0
            &&& "https://"@.len() <= item.asset.download_url@.len()
            &&& item.asset.download_url@.take("https://"@.len() as int) == "https://"@
            &&& item.asset.width > 0
            &&& item.asset.height > 0
            &&& item.asset.duration_seconds > 0
            &&& item.asset.size_bytes matches Some(n) ==> n > 0
        },
{
}

proof fn lemma_tracking(entries: Seq<TrackingUrlDto>)
    ensures
        tracking_of(entries).len() <= entries.len(),
        forall|k: int|
            0 <= k < tracking_of(entries).len() ==> exists|j: int|
                0 <= j < entries.len() && (#[trigger] entries[j]).url@ == (
                #[trigger] tracking_of(entries)[k]).url && TrackingEvent::named(entries[j].event@)
                    == Some(tracking_of(entries)[k].event) && (has_prefix(
                    entries[j].url@,
                    "https://"@,
                ) || has_prefix(entries[j].url@, "http://"@)),
        forall|j: int|
            0 <= j < entries.len() && (has_prefix((#[trigger] entries[j]).url@, "https://"@)
                || has_prefix(entries[j].url@, "http://"@)) ==> match TrackingEvent::named(
                entries[j].event@,
            ) {
                Some(event) => tracking_of(entries).contains(
                    TrackingUrlView { event, url: entries[j].url@ },
                ),
                None => true,
            },
    decreases entries.len(),
{
    if entries.len() > 0 {
        let shorter = entries.drop_last();
        let n = entries.len() - 1;
        let before = tracking_of(shorter);
        let out = tracking_of(entries);
        lemma_tracking(shorter);
        assert forall|k: int| 0 <= k < out.len() implies exists|j: int|
            0 <= j < entries.len() && (#[trigger] entries[j]).url@ == (#[trigger] out[k]).url
                && TrackingEvent::named(entries[j].event@) == Some(out[k].event) && (has_prefix(
                entries[j].url@,
                "https://"@,
            ) || has_prefix(entries[j].url@, "http://"@)) by {
            if k < before.len() {
                assert(out[k] == before[k]);
                let j = choose|j: int|
                    0 <= j < shorter.len() && (#[trigger] shorter[j]).url@ == before[k].url
                        && TrackingEvent::named(shorter[j].event@) == Some(before[k].event) && (
                    has_prefix(shorter[j].url@, "https://"@) || has_prefix(
                        shorter[j].url@,
                        "http://"@,
                    ));
                assert(entries[j] == shorter[j]);
            } else {
                assert(entries[n].url@ == out[k].url);
            }
        }
        assert forall|j: int|
            0 <= j < entries.len() && (has_prefix((#[trigger] entries[j]).url@, "https://"@)
                || has_prefix(entries[j].url@, "http://"@)) implies match TrackingEvent::named(
            entries[j].event@,
        ) {
            Some(event) => out.contains(TrackingUrlView { event, url: entries[j].url@ }),
            None => true,
        } by {
            if let Some(event) = TrackingEvent::named(entries[j].event@) {
                let entry = TrackingUrlView { event, url: entries[j].url@ };
                if j < n {
                    assert(shorter[j] == entries[j]);
                    assert(before.contains(entry));
                    let k = choose|k: int| 0 <= k < before.len() && before[k] == entry;
                    assert(out[k] == entry);
                } else {
                    assert(out[before.len() as int] == entry);
                }
            }
        }
    }
}

/// What is reported of an auctioned scene: the URLs that the bid names, each at the event that it is
/// named for. None is made up, and none over HTTP or HTTPS for a known event is left out.
pub proof fn tracking_urls_are_those_of_the_bid(slot: RtbSlotDto, item: RtbItemDto)
    ensures
        forall|k: int|
            0 <= k < rtb_metadata(slot, item).tracking.len() ==> exists|j: int|
                0 <= j < item.tracking@.len() && (#[trigger] item.tracking@[j]).url@ == (
                #[trigger] rtb_metadata(slot, item).tracking[k]).url && item.tracking@[j].event@
                    == rtb_metadata(slot, item).tracking[k].event.name(),
        forall|j: int, event: TrackingEvent|
            0 <= j < item.tracking@.len() && (#[trigger] item.tracking@[j]).event@
                == #[trigger] event.name() && (has_prefix(item.tracking@[j].url@, "https://"@)
                || has_prefix(item.tracking@[j].url@, "http://"@)) ==> rtb_metadata(
                slot,
                item,
            ).tracking.contains(TrackingUrlView { event, url: item.tracking@[j].url@ }),
{
    lemma_tracking(item.tracking@);
    let out = tracking_of(item.tracking@);
    assert forall|k: int| 0 <= k < out.len() implies exists|j: int|
        0 <= j < item.tracking@.len() && (#[trigger] item.tracking@[j]).url@ == (
        #[trigger] out[k]).url && item.tracking@[j].event@ == out[k].event.name() by {
        let j = choose|j: int|
            0 <= j < item.tracking@.len() && (#[trigger] item.tracking@[j]).url@ == out[k].url
                && TrackingEvent::named(item.tracking@[j].event@) == Some(out[k].event) && (
            has_prefix(item.tracking@[j].url@, "https://"@) || has_prefix(
                item.tracking@[j].url@,
                "http://"@,
            ));
        assert(item.tracking@[j].event@ == out[k].event.name());
    }
    assert forall|j: int, event: TrackingEvent|
        0 <= j < item.tracking@.len() && (#[trigger] item.tracking@[j]).event@
            == #[trigger] event.name() && (has_prefix(item.tracking@[j].url@, "https://"@)
            || has_prefix(item.tracking@[j].url@, "http://"@)) implies out.contains(
        TrackingUrlView { event, url: item.tracking@[j].url@ },
    ) by {
        tracking_names_parse_back(event);
    }
}

/// An auctioned scene is on for the time that it is given and shows the bid's asset alone: over the
/// whole of a layout of the asset's size, fetched from the bid's URL and kept under the file that the
/// layout shows. It carries along which slot, bid and creative it is.
pub proof fn auctioned_scenes_show_the_bid(
    data: PlaybackDataDto,
    slot: RtbSlotDto,
    item: RtbItemDto,
    start: i64,
    end: i64,
    baseline: Seq<SceneView>,
)
    ensures
        ({
            let scene = rtb_scene_of(data, slot, item, start, end, baseline);
            &&& scene.start == start
            &&& scene.end == end
            &&& scene.scene_id == data.revision@ + ":rtb:"@ + slot.id@ + ":"@ + item.bid_id@ + ":"@
                + signed_decimal(start as int)
            &&& scene.schedule_id == stable_id_of("rtb-schedule:"@ + slot.id@)
            &&& scene.playlist_id == stable_id_of("rtb-playlist:"@ + slot.id@)
            &&& scene.item_id == stable_id_of("rtb-item:"@ + item.bid_id@)
            &&& scene.transition is None
            &&& !scene.loop_playback
            &&& scene.asset_refs.len() == 1
            &&& scene.asset_refs[0].file_id == stable_id_of("rtb-file:"@ + item.creative_id@)
            &&& scene.asset_refs[0].revision == item.creative_id@
            &&& scene.asset_refs[0].download_url == item.asset.download_url@
            &&& scene.asset_refs[0].mime_type == Some(item.asset.mime_type@)
            &&& scene.asset_refs[0].size_bytes == item.asset.size_bytes
            &&& match item.asset.checksum {
                Some(text) => scene.asset_refs[0].checksum == Some(text@),
                None => scene.asset_refs[0].checksum is None,
            }
            &&& scene.layout matches Some(layout) && {
                &&& layout.id == stable_id_of("rtb-layout:"@ + item.creative_id@)
                &&& layout.name == "RTB "@ + item.creative_id@
                &&& layout.group_name == Some("rtb"@)
                &&& layout.width == item.asset.width
                &&& layout.height == item.asset.height
                &&& layout.default_duration == Some(item.asset.duration_seconds)
                &&& layout.elements.len() == 1
                &&& layout.elements[0].id == "rtb-asset-"@ + item.creative_id@
                &&& layout.elements[0].x == 0
                &&& layout.elements[0].y == 0
                &&& layout.elements[0].width == item.asset.width
                &&& layout.elements[0].height == item.asset.height
                &&& layout.elements[0].element_type == item.asset.asset_type@
                &&& layout.elements[0].keep_aspect_ratio
                &&& layout.elements[0].file_id == Some(scene.asset_refs[0].file_id)
                &&& layout.elements[0].background_color == Some("#000000"@)
                &&& layout.elements[0].z_index == Some(0i32)
                &&& layout.elements[0].content is None
                &&& layout.elements[0].font is None
                &&& layout.elements[0].font_size is None
                &&& !layout.elements[0].bold
                &&& !layout.elements[0].italic
                &&& !layout.elements[0].underline
                &&& !layout.elements[0].strikethrough
                &&& layout.elements[0].text_color is None
                &&& layout.elements[0].border_color is None
                &&& layout.elements[0].border_width is None
            }
            &&& scene.rtb matches Some(sold) && {
                &&& sold.slot_id == slot.id@
                &&& match slot.request_id {
                    Some(text) => sold.request_id == Some(text@),
                    None => sold.request_id is None,
                }
                &&& sold.bid_id == item.bid_id@
                &&& sold.imp_id == item.imp_id@
                &&& sold.ad_id == item.ad_id@
                &&& sold.creative_id == item.creative_id@
                &&& sold.price == item.price
                &&& match slot.currency {
                    Some(text) => sold.currency == text@,
                    None => sold.currency == "KRW"@,
                }
            }
        }),
{
}

/// A bid that cannot be shown is refused for the first thing that is wrong with it: what it is, its
/// bid, its creative, its URL, its size, its time, and its length, in this order.
pub proof fn bids_are_refused_for_what_is_wrong(item: RtbItemDto)
    ensures
        ({
            let fault = item_fault(item);
            let asset = item.asset;
            let known = {
                ||| asset.asset_type@ == "video"@ && asset.mime_type@ == "video/mp4"@
                ||| asset.asset_type@ == "image"@ && (asset.mime_type@ == "image/jpeg"@
                    || asset.mime_type@ == "image/png"@)
            };
            let named = trimmed(item.bid_id@).len() > 0;
            let made = trimmed(item.creative_id@).len() > 0;
            let safe = has_prefix(asset.download_url@, "https://"@);
            let sized = asset.width > 0 && asset.height > 0;
            let lasts = asset.duration_seconds > 0;
            &&& !known ==> fault == Some("unsupported_asset_type_or_mime"@)
            &&& known && !named ==> fault == Some("empty_bid_id"@)
            &&& known && named && !made ==> fault == Some("empty_creative_id"@)
            &&& known && named && made && !safe ==> fault == Some("asset_url_must_be_https"@)
            &&& known && named && made && safe && !sized ==> fault == Some(
                "non_positive_asset_dimensions"@,
            )
            &&& known && named && made && safe && sized && !lasts ==> fault == Some(
                "non_positive_asset_duration"@,
            )
            &&& known && named && made && safe && sized && lasts && fault is Some ==> fault == Some(
                "non_positive_asset_size"@,
            )
        }),
{
}

/// The URLs of a bid are reported in the order in which it names them. One over neither HTTP nor HTTPS,
/// or for an event that is not known, is left out.
pub proof fn tracking_urls_keep_their_order(entries: Seq<TrackingUrlDto>, next: TrackingUrlDto)
    ensures
        ({
            let before = tracking_of(entries);
            let after = tracking_of(entries.push(next));
            let called = has_prefix(next.url@, "https://"@) || has_prefix(next.url@, "http://"@);
            &&& !called ==> after == before
            &&& TrackingEvent::named(next.event@) is None ==> after == before
            &&& called && TrackingEvent::named(next.event@) is Some ==> {
                &&& after.len() == before.len() + 1
                &&& after.drop_last() == before
                &&& after.last().url == next.url@
                &&& Some(after.last().event) == TrackingEvent::named(next.event@)
            }
        }),
{
    assert(entries.push(next).drop_last() =~= entries);
    let before = tracking_of(entries);
    let after = tracking_of(entries.push(next));
    if after.len() == before.len() + 1 {
        assert(after.drop_last() =~= before);
    }
}
} // verus!
