use oneplayer::cms::{
    FileDownloadDto, LayoutDto, LayoutElementDto, PlaybackAssetDto, PlaybackDataDto,
    PlaybackItemDataDto, PlaybackItemDto, PlaybackSlotDto, RtbAssetDto, RtbItemDto, RtbSlotDto,
    TrackingUrlDto,
};
use oneplayer::timeline::calendar::{resolve_timezone, time_range, time_range_between};
use oneplayer::timeline::expand::expand_spans;
use oneplayer::timeline::layouts::layout_to_domain;
use oneplayer::timeline::overlay::{overlay_rtb_scenes, sort_by_start};
use oneplayer::timeline::rtb::validate_rtb_item;
use oneplayer::timeline::scenes::{collect_asset_refs, item_duration_millis};
use oneplayer::timeline::{PlaybackScene, TimelineBuilder, TrackingEvent};

fn item(id: i64, position: i32, duration_seconds: i64) -> PlaybackItemDto {
    PlaybackItemDto {
        id,
        playlist_id: 20,
        position,
        item_type: "image".to_string(),
        ref_id: 1,
        duration_seconds,
        transition: None,
        loop_playback: false,
        layout: None,
        playback_data: None,
        playback_data_b64: None,
        file_downloads: vec![],
    }
}

fn slot(start: &str, end: &str, items: Vec<PlaybackItemDto>) -> PlaybackSlotDto {
    PlaybackSlotDto {
        start_time: start.to_string(),
        end_time: end.to_string(),
        schedule_id: 101,
        playlist_id: 20,
        playlist_name: None,
        items,
    }
}

fn data(date: &str, slots: Vec<PlaybackSlotDto>) -> PlaybackDataDto {
    PlaybackDataDto {
        api_version: None,
        device_id: "DV-1001".to_string(),
        date: date.to_string(),
        revision: "rev1".to_string(),
        contact_ip: None,
        server_time: None,
        generated_at: None,
        timezone: Some("Asia/Seoul".to_string()),
        slots,
        assets: vec![],
        rtb_slots: vec![],
        override_data: None,
    }
}

fn element(id: &str, element_type: &str, z_index: Option<i32>) -> LayoutElementDto {
    LayoutElementDto {
        id: id.to_string(),
        x: 0,
        y: 0,
        width: 1080,
        height: 1920,
        element_type: element_type.to_string(),
        lock: false,
        keep_aspect_ratio: true,
        file_id: Some(38),
        content_group_id: None,
        content_id: None,
        duration_type: None,
        url_address: None,
        content: None,
        font: None,
        font_size: None,
        bold: false,
        italic: false,
        underline: false,
        strikethrough: false,
        background_color: None,
        text_color: None,
        border_color: None,
        border_width: None,
        z_index,
    }
}

fn layout(id: i64, elements: Vec<LayoutElementDto>) -> LayoutDto {
    LayoutDto {
        id,
        name: "layout".to_string(),
        group_name: None,
        width: 1080,
        height: 1920,
        layout: elements,
        default_duration: Some(20),
    }
}

fn rtb_item(position: i32, asset_type: &str, mime_type: &str, creative_id: &str) -> RtbItemDto {
    RtbItemDto {
        position,
        bid_id: "bid-1".to_string(),
        imp_id: "1".to_string(),
        ad_id: "ad-1".to_string(),
        creative_id: creative_id.to_string(),
        price: Some(1200.0f64.to_bits()),
        expires_in_seconds: Some(3600),
        asset: RtbAssetDto {
            asset_type: asset_type.to_string(),
            mime_type: mime_type.to_string(),
            download_url: "https://cdn.example.com/ad".to_string(),
            width: 1080,
            height: 1920,
            duration_seconds: 15,
            size_bytes: Some(1024),
            checksum: None,
        },
        tracking: vec![
            TrackingUrlDto {
                event: "impression".to_string(),
                url: "https://tracker.example.com/impression".to_string(),
            },
            TrackingUrlDto {
                event: "unheard-of".to_string(),
                url: "https://tracker.example.com/other".to_string(),
            },
        ],
    }
}

fn rtb_slot(id: &str, start: &str, end: &str, items: Vec<RtbItemDto>) -> RtbSlotDto {
    RtbSlotDto {
        id: id.to_string(),
        start_time: start.to_string(),
        end_time: end.to_string(),
        request_id: Some("request-1".to_string()),
        currency: None,
        items,
    }
}

/// Two auctioned slots on an hour of schedule: thirty seconds of a video and an image, and a minute
/// of an image.
fn auctioned_day() -> PlaybackDataDto {
    let mut day = data(
        "2026-07-21",
        vec![slot("14:00:00", "15:00:00", vec![item(1, 0, 15), item(2, 1, 15)])],
    );
    day.api_version = Some("1.1.0".to_string());
    day.rtb_slots = vec![
        rtb_slot(
            "slot-1",
            "14:10:30",
            "14:11:00",
            vec![
                rtb_item(1, "image", "image/jpeg", "creative-image"),
                rtb_item(0, "video", "video/mp4", "creative-video"),
            ],
        ),
        rtb_slot(
            "slot-2",
            "14:20:00",
            "14:21:00",
            vec![rtb_item(0, "image", "image/png", "creative-png")],
        ),
    ];
    day
}

fn millis(text: &str) -> i64 {
    chrono::DateTime::parse_from_rfc3339(text)
        .expect("parse time")
        .timestamp_millis()
}

fn build(day: &PlaybackDataDto, now: i64) -> oneplayer::timeline::PlaybackTimeline {
    assert!(TimelineBuilder::can_build(day, now));
    TimelineBuilder::build(day, now)
}

#[test]
fn single_item_slot_produces_one_scene() {
    let day = data("2026-05-20", vec![slot("14:10:00", "14:15:00", vec![item(1, 0, 10)])]);
    let timeline = build(&day, 1_700_000_000_000);
    assert_eq!(timeline.scenes.len(), 1);
    assert_eq!(timeline.scenes[0].item_id, 1);
}

#[test]
fn golden_timeline_expands_multi_item_slot() {
    let mut day = data(
        "2026-05-20",
        vec![slot(
            "14:10:00",
            "14:15:00",
            vec![item(1, 0, 10), item(2, 1, 20)],
        )],
    );
    day.revision = "golden-rev-1".to_string();
    let now = millis("2026-05-20T14:12:00+09:00");
    let timeline = build(&day, now);
    assert!(!timeline.scenes.is_empty());
    assert_eq!(timeline.device_id, "DV-1001");
    assert_eq!(timeline.revision, "golden-rev-1");
    assert!(timeline.scenes.len() >= 2);
    assert!(timeline
        .scenes
        .windows(2)
        .all(|w| w[0].end_time_millis <= w[1].start_time_millis));
}

#[test]
fn v1_1_contract_builds_rtb_overlays_with_fallbacks() {
    let day = auctioned_day();
    assert_eq!(day.api_version.as_deref(), Some("1.1.0"));
    assert_eq!(day.rtb_slots.len(), 2);

    let now = millis("2026-07-21T14:10:35+09:00");
    let timeline = build(&day, now);
    let rtb: Vec<_> = timeline
        .scenes
        .iter()
        .filter(|scene| scene.rtb.is_some())
        .collect();

    assert_eq!(rtb.len(), 6);
    assert!(rtb.iter().all(|scene| scene.fallback_scene.is_some()));
    assert!(rtb.iter().any(|scene| scene.has_video()));
    assert!(rtb.iter().any(|scene| {
        scene.layout.as_ref().is_some_and(|layout| {
            layout
                .elements
                .iter()
                .any(|element| element.element_type == "image")
        })
    }));
    assert!(timeline
        .scenes
        .windows(2)
        .all(|window| window[0].end_time_millis <= window[1].start_time_millis));
}

#[test]
fn overlapping_rtb_slot_is_ignored_after_first_valid_slot() {
    let mut day = auctioned_day();
    day.rtb_slots.push(rtb_slot(
        "overlap",
        "14:10:45",
        "14:11:15",
        vec![rtb_item(0, "image", "image/png", "creative-png")],
    ));
    let now = millis("2026-07-21T14:10:35+09:00");
    let timeline = build(&day, now);

    assert!(timeline
        .scenes
        .iter()
        .filter_map(|scene| scene.rtb.as_ref())
        .all(|rtb| rtb.slot_id != "overlap"));
}

#[test]
fn rtb_slot_can_cross_midnight() {
    let mut day = auctioned_day();
    day.slots[0].start_time = "23:00:00".to_string();
    day.slots[0].end_time = "00:59:59".to_string();
    day.rtb_slots.truncate(1);
    day.rtb_slots[0].id = "midnight".to_string();
    day.rtb_slots[0].start_time = "23:59:50".to_string();
    day.rtb_slots[0].end_time = "00:00:20".to_string();
    let now = millis("2026-07-21T23:59:55+09:00");
    let timeline = build(&day, now);
    let rtb: Vec<_> = timeline
        .scenes
        .iter()
        .filter(|scene| scene.rtb.is_some())
        .collect();

    assert_eq!(rtb.len(), 2);
    assert_eq!(
        rtb.iter().map(|scene| scene.duration_ms()).sum::<i64>(),
        30_000
    );
    assert!(rtb.iter().all(|scene| scene.fallback_scene.is_some()));
}

#[test]
fn items_play_by_position_over_and_over() {
    let day = data(
        "2026-05-20",
        vec![slot(
            "14:10:00",
            "14:10:49",
            vec![item(2, 1, 20), item(1, 0, 10)],
        )],
    );
    let timeline = build(&day, millis("2026-05-20T14:10:00+09:00"));
    let start = millis("2026-05-20T14:10:00+09:00");
    let spans: Vec<(i64, i64, i64)> = timeline
        .scenes
        .iter()
        .map(|s| (s.item_id, s.start_time_millis - start, s.end_time_millis - start))
        .collect();
    assert_eq!(
        spans,
        vec![
            (1, 0, 10_000),
            (2, 10_000, 30_000),
            (1, 30_000, 40_000),
            (2, 40_000, 50_000),
        ]
    );
    assert_eq!(
        timeline.scenes[1].scene_id,
        format!("rev1:101:2:{}", start + 10_000)
    );
}

#[test]
fn only_a_window_of_a_long_slot_is_expanded() {
    let day = data(
        "2026-05-20",
        vec![slot("00:00:00", "23:59:59", vec![item(1, 0, 15), item(2, 1, 15)])],
    );
    let now = millis("2026-05-20T12:00:00+09:00");
    let timeline = build(&day, now);
    assert!(timeline.scenes.first().unwrap().end_time_millis > now - 2 * 60 * 1_000);
    assert!(timeline.scenes.first().unwrap().start_time_millis <= now - 2 * 60 * 1_000);
    assert!(timeline.scenes.last().unwrap().start_time_millis < now + 30 * 60 * 1_000);
    assert_eq!(timeline.scenes.len(), 32 * 4);
}

#[test]
fn the_last_second_of_a_slot_belongs_to_it() {
    let day = data("2026-05-20", vec![slot("14:10:00", "14:15:00", vec![item(1, 0, 10)])]);
    let timeline = build(&day, millis("2026-05-20T14:12:00+09:00"));
    assert_eq!(timeline.scenes[0].start_time_millis, millis("2026-05-20T14:10:00+09:00"));
    assert_eq!(timeline.scenes[0].end_time_millis, millis("2026-05-20T14:15:01+09:00"));
}

#[test]
fn an_unknown_zone_is_that_of_seoul() {
    let mut day = data("2026-05-20", vec![]);
    day.timezone = Some("Nowhere/Land".to_string());
    assert_eq!(resolve_timezone(&day), "Asia/Seoul");
    day.timezone = None;
    assert_eq!(resolve_timezone(&day), "Asia/Seoul");
    day.timezone = Some("Europe/Paris".to_string());
    assert_eq!(resolve_timezone(&day), "Europe/Paris");
}

#[test]
fn a_slot_may_run_past_midnight() {
    assert_eq!(time_range_between(Some(1_000), Some(5_000), false), (1_000, 5_000));
    assert_eq!(time_range_between(Some(1_000), Some(5_000), true), (1_000, 6_000));
    assert_eq!(
        time_range_between(Some(5_000), Some(1_000), false),
        (5_000, 1_000 + 24 * 60 * 60 * 1_000)
    );
}

#[test]
fn times_of_day_are_those_of_the_zone() {
    // The day number of 2026-05-20, counted from the first day of the era.
    let mut day = data("2026-05-20", vec![slot("09:00:00", "10:00:00", vec![item(1, 0, 10)])]);
    day.timezone = Some("Europe/Paris".to_string());
    let timeline = build(&day, millis("2026-05-20T09:30:00+02:00"));
    assert_eq!(timeline.scenes[0].start_time_millis, millis("2026-05-20T09:00:00+02:00"));
    let (start, end) = time_range("09:00:00", "08:00:00", 739_756, "Asia/Seoul", false);
    assert_eq!(end - start, 23 * 60 * 60 * 1_000);
}

#[test]
fn spans_cover_the_window() {
    let spans = expand_spans(&vec![10, 20], 100, 200, 125, 165);
    let found: Vec<(usize, i64, i64)> = spans.iter().map(|s| (s.index, s.start, s.end)).collect();
    assert_eq!(found, vec![(1, 110, 130), (0, 130, 140), (1, 140, 160), (0, 160, 170)]);
    let moved = expand_spans(&vec![10, 20], 100, 200, 141, 150);
    assert_eq!(
        moved.iter().map(|s| (s.index, s.start, s.end)).collect::<Vec<_>>(),
        vec![(1, 140, 160)]
    );
}

#[test]
fn the_time_of_an_item_comes_from_where_it_is_given() {
    assert_eq!(item_duration_millis(&item(1, 0, 10)), 10_000);
    let mut own = item(1, 0, 0);
    own.playback_data = Some(PlaybackItemDataDto {
        duration: Some(7),
        transition: None,
        loop_playback: Some(true),
    });
    assert_eq!(item_duration_millis(&own), 7_000);
    assert!(own.loop_enabled());
    let mut by_layout = item(1, 0, 0);
    by_layout.layout = Some(layout(1, vec![]));
    assert_eq!(item_duration_millis(&by_layout), 20_000);
    assert_eq!(item_duration_millis(&item(1, 0, 0)), 15_000);
    assert!(!item(1, 0, 0).loop_enabled());
}

#[test]
fn assets_of_an_item_are_its_downloads() {
    let mut day = data("2026-05-20", vec![]);
    day.assets.push(PlaybackAssetDto {
        file_id: 38,
        revision: Some("file-rev".to_string()),
        download_url: "/api/v1/content-files/38/file".to_string(),
        mime_type: Some("image/png".to_string()),
        size_bytes: Some(7),
        checksum: Some("abc".to_string()),
    });
    let mut with_file = item(1, 0, 10);
    with_file.file_downloads.push(FileDownloadDto {
        file_id: 38,
        download_url: "/api/v1/content-files/38/file".to_string(),
        revision: None,
        mime_type: None,
        size_bytes: None,
        checksum: None,
    });
    let refs = collect_asset_refs(&day, &with_file);
    assert_eq!(refs.len(), 1);
    assert_eq!(refs[0].file_id, 38);
    assert_eq!(refs[0].cache_key(), "38_file-rev");
    assert_eq!(refs[0].size_bytes, Some(7));
}

#[test]
fn a_layout_keeps_its_uppermost_video() {
    let dto = layout(
        5,
        vec![
            element("low", "video", Some(1)),
            element("text", "text", Some(3)),
            element("high", "video", Some(2)),
            element("image", "image", None),
        ],
    );
    let domain = layout_to_domain(&dto);
    let ids: Vec<&str> = domain.elements.iter().map(|e| e.id.as_str()).collect();
    assert_eq!(ids, vec!["image", "high", "text"]);
}

#[test]
fn bids_are_checked() {
    let good = rtb_item(0, "video", "video/mp4", "c");
    assert!(validate_rtb_item(&good).is_ok());
    let mut bad = rtb_item(0, "video", "image/png", "c");
    assert!(validate_rtb_item(&bad).is_err());
    bad = rtb_item(0, "image", "image/png", "");
    assert!(validate_rtb_item(&bad).is_err());
    bad = rtb_item(0, "image", "image/png", "c");
    bad.bid_id = "  ".to_string();
    assert!(validate_rtb_item(&bad).is_err());
    bad = rtb_item(0, "image", "image/png", "c");
    bad.asset.download_url = "http://cdn.example.com/ad".to_string();
    assert!(validate_rtb_item(&bad).is_err());
    bad = rtb_item(0, "image", "image/png", "c");
    bad.asset.width = 0;
    assert!(validate_rtb_item(&bad).is_err());
    bad = rtb_item(0, "image", "image/png", "c");
    bad.asset.duration_seconds = 0;
    assert!(validate_rtb_item(&bad).is_err());
    bad = rtb_item(0, "image", "image/png", "c");
    bad.asset.size_bytes = Some(0);
    assert!(validate_rtb_item(&bad).is_err());
}

#[test]
fn auctioned_scenes_carry_what_was_sold() {
    let timeline = build(&auctioned_day(), millis("2026-07-21T14:10:35+09:00"));
    let first = timeline.scenes.iter().find(|s| s.rtb.is_some()).unwrap();
    let sold = first.rtb.as_ref().unwrap();
    assert_eq!(first.start_time_millis, millis("2026-07-21T14:10:30+09:00"));
    assert_eq!(sold.slot_id, "slot-1");
    assert_eq!(sold.creative_id, "creative-video");
    assert_eq!(sold.currency, "KRW");
    assert_eq!(sold.tracking.len(), 1);
    assert_eq!(sold.tracking[0].event, TrackingEvent::Impression);
    let asset = &first.asset_refs[0];
    assert!(asset.file_id < 0);
    assert_eq!(asset.revision, "creative-video");
    let shown = first.layout.as_ref().unwrap();
    assert_eq!((shown.width, shown.height), (1080, 1920));
    assert!(shown.elements[0].keep_aspect_ratio);
    let instead = first.fallback_scene.as_ref().unwrap();
    assert_eq!(instead.start_time_millis, first.start_time_millis);
    assert_eq!(instead.end_time_millis, first.end_time_millis);
    assert!(instead.rtb.is_none());
}

#[test]
fn an_invalid_bid_loses_its_slot_alone() {
    let mut day = auctioned_day();
    day.rtb_slots[0].items[0].asset.mime_type = "image/gif".to_string();
    let timeline = build(&day, millis("2026-07-21T14:10:35+09:00"));
    let slots: Vec<&str> = timeline
        .scenes
        .iter()
        .filter_map(|s| s.rtb.as_ref())
        .map(|m| m.slot_id.as_str())
        .collect();
    assert_eq!(slots, vec!["slot-2"; 4]);
}

fn plain_scene(id: &str, start: i64, end: i64) -> PlaybackScene {
    let mut scene = oneplayer::sample::sample_scene(id, start, end, "#000000");
    scene.layout = None;
    scene
}

#[test]
fn auctions_cut_the_schedule() {
    let baseline = vec![plain_scene("a", 0, 100), plain_scene("b", 100, 200)];
    let sold = vec![plain_scene("x", 40, 120)];
    let out = sort_by_start(overlay_rtb_scenes(&baseline, sold));
    let spans: Vec<(&str, i64, i64)> = out
        .iter()
        .map(|s| (s.scene_id.as_str(), s.start_time_millis, s.end_time_millis))
        .collect();
    assert_eq!(spans.len(), 3);
    assert_eq!((spans[0].1, spans[0].2), (0, 40));
    assert_eq!(spans[1], ("x", 40, 120));
    assert_eq!(spans[2], ("b:segment:120", 120, 200));
}

#[test]
fn the_scene_at_a_time_is_found() {
    let day = data("2026-05-20", vec![slot("14:10:00", "14:10:49", vec![item(1, 0, 10), item(2, 1, 20)])]);
    let start = millis("2026-05-20T14:10:00+09:00");
    let timeline = build(&day, start);
    assert_eq!(timeline.find_scene_index(start - 1), None);
    assert_eq!(timeline.find_scene_index(start), Some(0));
    assert_eq!(timeline.find_scene_index(start + 10_000), Some(1));
    assert_eq!(timeline.find_scene_index(start + 50_000), None);
    assert_eq!(timeline.current_scene(start + 35_000).unwrap().item_id, 1);
    assert_eq!(timeline.next_scene_index(start - 1), Some(0));
    assert_eq!(timeline.next_scene(start).unwrap().item_id, 2);
    assert!(timeline.next_scene(start + 45_000).is_none());
    assert_eq!(timeline.scenes_in_window(start + 5_000, start + 15_000).len(), 2);
}

#[test]
fn a_gap_does_not_hide_what_follows() {
    let day = data(
        "2026-05-20",
        vec![
            slot("10:00:00", "10:00:59", vec![item(1, 0, 10)]),
            slot("12:00:00", "12:00:59", vec![item(2, 0, 10)]),
        ],
    );
    let timeline = build(&day, millis("2026-05-20T11:00:00+09:00"));
    let next = timeline.next_scene(millis("2026-05-20T11:00:00+09:00")).unwrap();
    assert_eq!(next.item_id, 2);
    assert!(timeline.current_scene(millis("2026-05-20T11:00:00+09:00")).is_none());
}

#[test]
fn tracking_events_are_called_by_name() {
    for event in [
        TrackingEvent::Impression,
        TrackingEvent::Start,
        TrackingEvent::FirstQuartile,
        TrackingEvent::Midpoint,
        TrackingEvent::ThirdQuartile,
        TrackingEvent::Complete,
    ] {
        assert_eq!(TrackingEvent::parse(event.as_str()), Some(event));
    }
    assert_eq!(TrackingEvent::parse("Start"), None);
}

#[test]
fn the_same_files_are_listed_once() {
    let mut day = data("2026-05-20", vec![slot("14:10:00", "14:10:49", vec![item(1, 0, 10), item(2, 1, 20)])]);
    for it in day.slots[0].items.iter_mut() {
        it.file_downloads.push(FileDownloadDto {
            file_id: 38,
            download_url: "/f".to_string(),
            revision: Some("r".to_string()),
            mime_type: None,
            size_bytes: None,
            checksum: None,
        });
    }
    let timeline = build(&day, millis("2026-05-20T14:10:00+09:00"));
    assert_eq!(timeline.scenes.len(), 4);
    assert_eq!(timeline.all_asset_refs().len(), 1);
}

#[test]
fn without_auctions_the_schedule_is_as_it_was() {
    let mut day = auctioned_day();
    let now = millis("2026-07-21T14:10:35+09:00");
    day.rtb_slots.clear();
    let plain = build(&day, now);
    assert!(plain.scenes.iter().all(|s| s.rtb.is_none()));
    assert_eq!(plain.scenes.len(), (2 + 30) * 4 + 1);
}

#[test]
fn a_timeline_that_is_built_anew_shows_the_same() {
    let day = auctioned_day();
    let mut with_turns = day.clone();
    with_turns.slots = vec![slot("00:00:00", "23:59:59", vec![item(1, 0, 7), item(2, 1, 11)])];
    let now = millis("2026-07-21T14:05:00+09:00");
    let before = build(&with_turns, now);
    let after = build(&with_turns, now + 600_000);
    for step in 0..300 {
        let time = now + 490_000 + step * 1_700;
        let a = before.current_scene(time).unwrap();
        let b = after.current_scene(time).unwrap();
        assert_eq!(a.scene_id, b.scene_id);
        assert_eq!(a.start_time_millis, b.start_time_millis);
    }
}

#[test]
fn auctioned_files_have_names_of_their_own() {
    let timeline = build(&auctioned_day(), millis("2026-07-21T14:05:00+09:00"));
    assert!(timeline.scenes.iter().any(|scene| scene.rtb.is_some()));
    for scene in timeline.scenes.iter().filter(|scene| scene.rtb.is_some()) {
        for asset in &scene.asset_refs {
            assert!(asset.file_id < 0);
            assert!(asset.cache_key().starts_with('-'));
        }
    }
}

#[test]
fn an_empty_auction_is_ignored_without_losing_the_schedule() {
    let mut day = auctioned_day();
    day.rtb_slots.push(rtb_slot("broken", "14:30:00", "14:30:10", vec![]));
    assert_eq!(day.slots.len(), 1);
    let timeline = build(&day, millis("2026-07-21T14:10:35+09:00"));
    let sold = |id: &str| timeline.scenes.iter().any(|s| s.rtb.as_ref().is_some_and(|r| r.slot_id == id));
    assert!(sold("slot-1") && sold("slot-2") && !sold("broken"));
    assert!(timeline.scenes.iter().any(|s| s.rtb.is_none()));
}

#[test]
fn videos_of_one_name_are_still_one() {
    let dto = layout(
        5,
        vec![
            element("same", "video", Some(4)),
            element("text", "text", Some(9)),
            element("same", "video", Some(4)),
            element("same", "video", Some(3)),
        ],
    );
    let domain = layout_to_domain(&dto);
    let kinds: Vec<(&str, Option<i32>)> = domain
        .elements
        .iter()
        .map(|e| (e.element_type.as_str(), e.z_index))
        .collect();
    assert_eq!(kinds, vec![("video", Some(4)), ("text", Some(9))]);
}

fn on_at(timeline: &oneplayer::timeline::PlaybackTimeline, time: i64) -> Vec<(String, i64, i64, i64)> {
    timeline
        .scenes
        .iter()
        .filter(|scene| scene.start_time_millis <= time && time < scene.end_time_millis)
        .map(|scene| {
            (
                scene.scene_id.clone(),
                scene.item_id,
                scene.start_time_millis,
                scene.end_time_millis,
            )
        })
        .collect()
}

#[test]
fn two_builds_agree_wherever_both_look() {
    let day = data(
        "2026-05-20",
        vec![
            slot("14:00:00", "14:09:59", vec![item(1, 0, 7), item(2, 1, 1)]),
            slot("14:15:00", "14:19:59", vec![item(3, 0, 30)]),
            slot("14:30:00", "18:59:59", vec![item(4, 0, 1), item(5, 1, 1)]),
        ],
    );
    let now = millis("2026-05-20T14:05:00+09:00");
    let later = now + 1_600_000;
    let before = build(&day, now);
    let after = build(&day, later);
    let mut shown = 0;
    let mut empty = 0;
    let mut time = later - 120_000;
    while time < now + 1_800_000 {
        let on = on_at(&before, time);
        assert_eq!(on, on_at(&after, time));
        assert!(on.len() <= 1);
        if on.is_empty() {
            empty += 1;
        } else {
            shown += 1;
        }
        time += 500;
    }
    assert_eq!((shown, empty), (600, 40));
}

#[test]
fn a_full_window_of_seconds_is_written_out() {
    let day = data(
        "2026-05-20",
        vec![slot("08:00:00", "19:59:59", vec![item(1, 0, 1), item(2, 1, 1)])],
    );
    let now = millis("2026-05-20T14:00:00+09:00") + 500;
    let timeline = build(&day, now);
    assert_eq!(timeline.scenes.len(), 1_921);
    assert_eq!(on_at(&timeline, now + 1_799_999).len(), 1);
}

#[test]
fn scenes_of_separate_slots_follow_one_another() {
    let mut day = auctioned_day();
    day.slots.push(slot("15:30:00", "15:39:59", vec![item(8, 0, 5), item(9, 1, 6)]));
    let timeline = build(&day, millis("2026-07-21T14:10:35+09:00"));
    assert!(timeline.scenes.len() > 2);
    for pair in timeline.scenes.windows(2) {
        assert!(pair[0].start_time_millis < pair[0].end_time_millis);
        assert!(pair[0].end_time_millis <= pair[1].start_time_millis);
    }
}

#[test]
fn two_builds_agree_on_what_was_sold() {
    let day = auctioned_day();
    let now = millis("2026-07-21T14:10:35+09:00");
    let before = build(&day, now);
    let after = build(&day, now + 4_000);
    let mut time = now - 116_000;
    while time < now + 1_800_000 {
        let kept = |timeline: &oneplayer::timeline::PlaybackTimeline| -> Vec<(i64, Option<String>)> {
            timeline
                .scenes
                .iter()
                .filter(|scene| scene.start_time_millis <= time && time < scene.end_time_millis)
                .map(|scene| {
                    (
                        scene.item_id,
                        scene.rtb.as_ref().map(|_| scene.scene_id.clone()),
                    )
                })
                .collect()
        };
        assert_eq!(kept(&before), kept(&after));
        time += 1_000;
    }
}
