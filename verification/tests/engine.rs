use oneplayer::cms::{PlaybackDataDto, PlaybackLogItem};
use oneplayer::engine::assets::{
    background_assets, keeps, preload_window_assets, protected_keys, slots_that_need, split_assets,
};
use oneplayer::engine::playback::{LoopAction, LoopPhase, Plan, Wake};
use oneplayer::engine::playback_log::{ActivePlaybackLog, PlaybackLogReporter, PlaybackLogScene};
use oneplayer::engine::screen::switch_command;
use oneplayer::engine::sync::{
    check_cached_schedule, playback_date, same_revision, timeline_needs_refresh, ApplyPhase,
    ApplyRun, CacheRefusal, SyncEvent, SyncPhase, SyncRun,
};
use oneplayer::engine::{EngineEvent, EngineState, PlaybackEngine, PlaybackLoop, StateMachine};
use oneplayer::sample::sample_scene;
use oneplayer::timeline::{
    AssetRef, PlaybackScene, PlaybackTimeline, RtbSceneMetadata, TrackingEvent, TrackingUrl,
};
use oneplayer::timing_log::{record_entries, JsonScalar, TimingValue};
use oneplayer::tracking::{
    after_attempt, tracking_delay, tracking_waits, was_completed, RetryStep, TrackingReporter,
};

fn asset(file_id: i64) -> AssetRef {
    AssetRef {
        file_id,
        revision: "r".to_string(),
        download_url: "/f".to_string(),
        mime_type: None,
        size_bytes: None,
        checksum: None,
    }
}

fn scene(id: &str, start: i64, end: i64, files: Vec<i64>) -> PlaybackScene {
    let mut scene = sample_scene(id, start, end, "#000000");
    scene.asset_refs = files.into_iter().map(asset).collect();
    scene
}

fn ad(id: &str, start: i64, end: i64, files: Vec<i64>, slot: &str) -> PlaybackScene {
    let mut ad = scene(id, start, end, files);
    ad.rtb = Some(metadata(slot));
    ad.fallback_scene = Some(Box::new(scene("instead", start, end, vec![1])));
    ad
}

fn metadata(slot: &str) -> RtbSceneMetadata {
    RtbSceneMetadata {
        slot_id: slot.to_string(),
        request_id: None,
        bid_id: "bid-1".to_string(),
        imp_id: "1".to_string(),
        ad_id: "ad-1".to_string(),
        creative_id: "creative-1".to_string(),
        price: None,
        currency: "KRW".to_string(),
        tracking: vec![
            TrackingUrl {
                event: TrackingEvent::Start,
                url: "http://127.0.0.1/start".to_string(),
            },
            TrackingUrl {
                event: TrackingEvent::Complete,
                url: "http://127.0.0.1/complete".to_string(),
            },
        ],
    }
}

fn timeline(scenes: Vec<PlaybackScene>) -> PlaybackTimeline {
    PlaybackTimeline {
        device_id: "d".to_string(),
        date: "2026-05-20".to_string(),
        revision: "r".to_string(),
        server_time: None,
        generated_at: None,
        timezone: "Asia/Seoul".to_string(),
        scenes,
    }
}

fn data(date: &str, revision: &str) -> PlaybackDataDto {
    PlaybackDataDto {
        api_version: None,
        device_id: "d".to_string(),
        date: date.to_string(),
        revision: revision.to_string(),
        contact_ip: None,
        server_time: None,
        generated_at: None,
        timezone: None,
        slots: vec![],
        assets: vec![],
        rtb_slots: vec![],
        override_data: None,
    }
}

fn wake(now: i64, shown: Option<&str>) -> Wake {
    Wake {
        now,
        generation: 1,
        shown: shown.map(|s| s.to_string()),
        failed: vec![],
    }
}

#[test]
fn a_scene_is_prepared_twelve_seconds_ahead() {
    let day = timeline(vec![scene("a", 100_000, 110_000, vec![1]), scene("b", 110_000, 120_000, vec![])]);
    let mut run = PlaybackLoop::new(1);
    assert_eq!(run.on_wake(&day, &wake(50_000, None)), LoopAction::Sleep(38_000));
    let plan = Plan {
        index: 0,
        fallback: false,
        target: 100_000,
    };
    assert_eq!(run.on_wake(&day, &wake(88_000, None)), LoopAction::CheckAssets(plan));
    assert_eq!(run.phase(), LoopPhase::Assets(plan));
    assert_eq!(run.on_assets(&day, false, 88_000), LoopAction::Sleep(5_000));
    assert_eq!(run.on_wake(&day, &wake(93_000, None)), LoopAction::CheckAssets(plan));
    assert_eq!(run.on_assets(&day, true, 93_000), LoopAction::Prepare(plan, 0));
    assert_eq!(run.on_prerolled(), LoopAction::Send(plan));
    assert_eq!(run.on_sent(&day, true, 93_000), LoopAction::Play(5_000));
    assert_eq!(run.on_wake(&day, &wake(100_500, Some("a"))), LoopAction::CheckAssets(Plan {
        index: 1,
        fallback: false,
        target: 110_000,
    }));
}

#[test]
fn a_scene_that_should_be_on_is_switched_to_at_once() {
    let day = timeline(vec![scene("a", 100_000, 200_000, vec![])]);
    let mut run = PlaybackLoop::new(1);
    let plan = Plan {
        index: 0,
        fallback: false,
        target: 150_000,
    };
    assert_eq!(run.on_wake(&day, &wake(150_000, None)), LoopAction::CheckAssets(plan));
    let mut other = PlaybackLoop::new(1);
    assert!(matches!(other.on_wake(&day, &wake(150_000, Some("a"))), LoopAction::Idle(5_000)));
}

#[test]
fn a_stale_loop_stops() {
    let day = timeline(vec![]);
    let mut run = PlaybackLoop::new(0);
    assert_eq!(run.on_wake(&day, &wake(0, None)), LoopAction::Stop);
    assert_eq!(run.phase(), LoopPhase::Stopped);
}

#[test]
fn a_failed_slot_is_replaced() {
    let day = timeline(vec![ad("ad", 100_000, 110_000, vec![-5], "slot-1")]);
    let mut run = PlaybackLoop::new(1);
    let plan = Plan {
        index: 0,
        fallback: false,
        target: 100_000,
    };
    assert_eq!(run.on_wake(&day, &wake(90_000, None)), LoopAction::CheckAssets(plan));
    assert_eq!(run.on_assets(&day, false, 90_000), LoopAction::DisableSlot(0));
    let mut failed = wake(90_000, None);
    failed.failed = vec!["slot-1".to_string()];
    assert_eq!(run.on_wake(&day, &failed), LoopAction::CheckAssets(Plan {
        index: 0,
        fallback: true,
        target: 100_000,
    }));
}

#[test]
fn a_command_leads_to_the_files_of_its_scene() {
    let shown = scene("a", 0, 10, vec![5, 6]);
    let command = switch_command(&shown, 7, vec!["/5".to_string(), "/6".to_string()]);
    assert_eq!(command.target_time_millis, 7);
    assert_eq!(command.scene.scene_id, "a");
    assert_eq!(command.local_files, vec![(5, "/5".to_string()), (6, "/6".to_string())]);
}

#[test]
fn what_is_needed_soon_comes_first() {
    let day = timeline(vec![
        scene("a", 0, 100, vec![1]),
        ad("b", 100, 200, vec![-2], "slot-1"),
        scene("c", 900_000, 900_100, vec![3]),
    ]);
    let soon = preload_window_assets(&day, 50, 1_000);
    let ids: Vec<i64> = soon.iter().map(|a| a.file_id).collect();
    assert!(ids.contains(&1) && ids.contains(&-2) && !ids.contains(&3));
    let (scheduled, auctioned) = split_assets(&day, &soon);
    assert_eq!(scheduled.iter().map(|a| a.file_id).collect::<Vec<_>>(), vec![1]);
    assert_eq!(auctioned.iter().map(|a| a.file_id).collect::<Vec<_>>(), vec![-2]);
    assert_eq!(slots_that_need(&day, &asset(-2)), vec!["slot-1"]);
    let later = background_assets(&day, &soon);
    assert_eq!(later.iter().map(|a| a.file_id).collect::<Vec<_>>(), vec![3]);
    assert!(keeps(&soon, "1_r") && !keeps(&soon, "3_r"));
    let kept = protected_keys(&day, 50);
    assert!(kept.contains(&"1_r".to_string()) && kept.contains(&"-2_r".to_string()));
    assert!(kept.contains(&"3_r".to_string()));
    let far = timeline(vec![scene("a", 0, 100, vec![1]), scene("n", 100, 200, vec![2]), scene("c", 9_000_000, 9_000_100, vec![3])]);
    assert!(!protected_keys(&far, 50).contains(&"3_r".to_string()));
}

#[test]
fn states_are_reported_when_they_change() {
    let mut machine = StateMachine::new();
    assert_eq!(machine.state(), EngineState::Idle);
    assert!(machine.set_state(EngineState::Idle).is_none());
    assert!(matches!(
        machine.set_state(EngineState::Syncing),
        Some(EngineEvent::StateChanged(EngineState::Syncing))
    ));
    assert!(machine.set_state(EngineState::Syncing).is_none());
}

#[test]
fn a_timeline_is_built_anew_in_time() {
    let today = data("2026-05-20", "r");
    let day = timeline(vec![scene("a", 0, 100, vec![]), scene("b", 1_000_000, 1_000_100, vec![])]);
    assert!(!timeline_needs_refresh(Some(&day), &today, 0));
    assert!(timeline_needs_refresh(Some(&day), &today, 900_000));
    assert!(timeline_needs_refresh(None, &today, 0));
    assert!(timeline_needs_refresh(Some(&day), &data("2026-05-21", "r"), 0));
    assert!(same_revision(&Some("r".to_string()), &today));
    assert!(!same_revision(&None, &today));
}

#[test]
fn the_date_is_that_of_seoul() {
    // Midnight in Seoul is three in the afternoon at Greenwich.
    assert_eq!(playback_date(1_779_202_800_000), "2026-05-20");
    assert_eq!(playback_date(1_779_202_799_999), "2026-05-19");
}

#[test]
fn a_sync_goes_its_course() {
    let mut run = SyncRun::new();
    assert_eq!(run.phase(), SyncPhase::Clock);
    assert_eq!(run.advance(SyncEvent::ClockTried), SyncPhase::Fetch);
    assert_eq!(
        run.advance(SyncEvent::Fetched {
            same_revision: false,
            server_time: true,
        }),
        SyncPhase::ServerTime
    );
    assert_eq!(run.advance(SyncEvent::ServerTimeApplied), SyncPhase::Build);
    assert_eq!(run.advance(SyncEvent::Built), SyncPhase::Store);
    assert_eq!(run.advance(SyncEvent::Stored), SyncPhase::Apply);
    assert_eq!(run.advance(SyncEvent::Applied), SyncPhase::Done);
    let mut same = SyncRun::new();
    same.advance(SyncEvent::ClockTried);
    assert_eq!(
        same.advance(SyncEvent::Fetched {
            same_revision: true,
            server_time: false,
        }),
        SyncPhase::TopUp
    );
    assert_eq!(same.advance(SyncEvent::ToppedUp { needs_refresh: false }), SyncPhase::Done);
    let mut failed = SyncRun::new();
    failed.advance(SyncEvent::ClockTried);
    assert_eq!(failed.advance(SyncEvent::Failed), SyncPhase::Failed);
}

#[test]
fn auctions_do_not_hold_a_timeline_up() {
    let day = timeline(vec![scene("a", 0, 100, vec![1]), ad("b", 100, 200, vec![-2], "slot-1")]);
    let blocking = vec![asset(1), asset(-2)];
    let mut run = ApplyRun::new(&day, &blocking);
    assert_eq!(run.phase(), ApplyPhase::Scheduled);
    assert_eq!(run.report(&day, true), ApplyPhase::Auctioned(0));
    assert_eq!(run.report(&day, false), ApplyPhase::Activate);
    assert_eq!(run.failed_slots(), &vec!["slot-1".to_string()]);
    let mut aborted = ApplyRun::new(&day, &blocking);
    assert_eq!(aborted.report(&day, false), ApplyPhase::Abort);
}

#[test]
fn a_stored_schedule_is_this_devices() {
    let stored = data("2026-05-20", "r");
    assert_eq!(check_cached_schedule(Some(&stored), "d"), Ok(()));
    assert_eq!(check_cached_schedule(Some(&stored), "x"), Err(CacheRefusal::OtherDevice));
    assert_eq!(check_cached_schedule(None, "d"), Err(CacheRefusal::Missing));
}

#[test]
fn a_playback_is_logged_with_its_times() {
    let shown = scene("s", 1_000, 2_000, vec![]);
    let log = ActivePlaybackLog::new(PlaybackLogScene::from_scene(&shown).unwrap(), 1_700_000_000_000);
    assert_eq!(log.scene_id(), "s");
    assert_eq!(log.end_time_millis(), 2_000);
    let item = log.into_item("DV-1001", 1_700_000_001_500, true).unwrap();
    assert_eq!(item.content_type, "layout");
    assert_eq!(item.content_id, 1);
    assert_eq!(item.started_at, "2023-11-14T22:13:20.000Z");
    assert_eq!(item.ended_at, "2023-11-14T22:13:21.500Z");
    assert!(item.completed);
    assert_eq!(item.extra.scheduled_end_time_millis, 2_000);
    let early = ActivePlaybackLog::new(PlaybackLogScene::from_scene(&shown).unwrap(), 5_000);
    let cut = early.into_item("d", 4_000, false).unwrap();
    assert_eq!(cut.started_at, cut.ended_at);
    let never = ActivePlaybackLog::new(PlaybackLogScene::from_scene(&shown).unwrap(), i64::MAX);
    assert!(never.into_item("d", i64::MAX, false).is_none());
    let mut bare = scene("s", 0, 1, vec![]);
    bare.layout = None;
    assert!(PlaybackLogScene::from_scene(&bare).is_none());
}

fn log_item(n: i64) -> PlaybackLogItem {
    let shown = scene("s", n, n + 1, vec![]);
    ActivePlaybackLog::new(PlaybackLogScene::from_scene(&shown).unwrap(), n)
        .into_item("d", n, true)
        .unwrap()
}

#[test]
fn logs_are_sent_ten_at_a_time() {
    let mut reporter = PlaybackLogReporter::new();
    for n in 0..9 {
        assert!(!reporter.record(log_item(n)));
    }
    assert!(reporter.record(log_item(9)));
    assert!(reporter.record(log_item(10)));
    let batch = reporter.batch();
    assert_eq!(batch.len(), 10);
    assert_eq!(batch[0].extra.scheduled_start_time_millis, 0);
    reporter.batch_sent();
    let rest = reporter.batch();
    assert_eq!(rest.len(), 1);
    assert_eq!(rest[0].extra.scheduled_start_time_millis, 10);
    for n in 0..1_005 {
        reporter.record(log_item(n));
    }
    assert_eq!(reporter.batch()[0].extra.scheduled_start_time_millis, 5);
}

#[test]
fn switches_end_what_was_on() {
    let mut engine = PlaybackEngine::new();
    let first = scene("a", 1_000, 2_000, vec![]);
    let report = engine.on_scene_switched(&first, 1_000, 1_015);
    assert!(matches!(report.event, EngineEvent::SceneSwitched { delay_millis: 15, .. }));
    assert!(report.ended.is_none() && !report.ad_started);
    assert_eq!(engine.last_switched().as_deref(), Some("a"));
    assert!(engine.on_scene_switched(&first, 1_500, 1_500).ended.is_none());
    let sold = ad("b", 2_000, 4_000, vec![], "slot-1");
    let next = engine.on_scene_switched(&sold, 2_000, 2_010);
    let (log, completed) = next.ended.unwrap();
    assert_eq!(log.scene_id(), "a");
    assert!(completed && next.ad_started);
    let cut = engine.on_scene_switched(&first, 3_000, 3_000);
    let (left, seen) = cut.ended_ad.unwrap();
    assert_eq!((left.scene_id.as_str(), left.started_millis, left.duration_millis), ("b", 2_010, 2_000));
    assert!(!seen);
    let (_, whole) = cut.ended.unwrap();
    assert!(!whole);
}

#[test]
fn shutting_down_happens_once() {
    let mut engine = PlaybackEngine::new();
    assert_eq!(engine.next_generation(), 1);
    assert!(engine.begin_shutdown());
    assert!(!engine.begin_shutdown());
    assert_eq!(engine.generation(), 2);
}

#[test]
fn each_report_is_sent_once() {
    let mut reporter = TrackingReporter::new();
    let sold = metadata("slot-1");
    let request = reporter.record(&sold, "scene-1", TrackingEvent::Start, 0).unwrap();
    assert_eq!(request.url, "http://127.0.0.1/start");
    assert!(reporter.record(&sold, "scene-1", TrackingEvent::Start, 0).is_none());
    assert!(reporter.record(&sold, "scene-1", TrackingEvent::Start, 1).is_none());
    assert!(reporter.record(&sold, "scene-2", TrackingEvent::Start, 0).is_some());
    reporter.reject(request.key.as_str());
    assert!(reporter.record(&sold, "scene-1", TrackingEvent::Start, 0).is_some());
}

#[test]
fn an_event_is_reported_to_each_url_once() {
    let mut reporter = TrackingReporter::new();
    let mut sold = metadata("slot-1");
    for url in ["http://127.0.0.1/second", "http://127.0.0.1/start"] {
        sold.tracking.push(TrackingUrl {
            event: TrackingEvent::Start,
            url: url.to_string(),
        });
    }
    let sent: Vec<(String, String)> = reporter
        .record_all(&sold, "scene-1", TrackingEvent::Start)
        .into_iter()
        .map(|request| (request.key, request.url))
        .collect();
    assert_eq!(
        sent,
        vec![
            (
                "slot-1|scene-1|start|http://127.0.0.1/start".to_string(),
                "http://127.0.0.1/start".to_string()
            ),
            (
                "slot-1|scene-1|start|http://127.0.0.1/second".to_string(),
                "http://127.0.0.1/second".to_string()
            ),
        ]
    );
    assert!(reporter.record_all(&sold, "scene-1", TrackingEvent::Start).is_empty());
    reporter.reject(&sent[1].0);
    let again = reporter.record_all(&sold, "scene-1", TrackingEvent::Start);
    assert_eq!(again.len(), 1);
    assert_eq!(again[0].url, "http://127.0.0.1/second");
    assert!(reporter.record_all(&sold, "scene-1", TrackingEvent::Midpoint).is_empty());
}

#[test]
fn a_report_is_tried_three_times() {
    assert_eq!(after_attempt(1, true), RetryStep::Sent);
    assert_eq!(after_attempt(1, false), RetryStep::Retry(250));
    assert_eq!(after_attempt(2, false), RetryStep::Retry(500));
    assert_eq!(after_attempt(3, false), RetryStep::GiveUp);
    assert_eq!(after_attempt(3, true), RetryStep::Sent);
}

#[test]
fn reports_come_by_quarters() {
    assert_eq!(tracking_delay(TrackingEvent::Impression, 15_000), 0);
    assert_eq!(tracking_delay(TrackingEvent::Start, 15_000), 0);
    assert_eq!(tracking_delay(TrackingEvent::FirstQuartile, 15_000), 3_750);
    assert_eq!(tracking_delay(TrackingEvent::Midpoint, 15_000), 7_500);
    assert_eq!(tracking_delay(TrackingEvent::ThirdQuartile, 15_000), 11_250);
    assert_eq!(tracking_delay(TrackingEvent::Complete, 15_000), 15_000);
    assert_eq!(
        tracking_waits(15_001),
        vec![
            (TrackingEvent::FirstQuartile, 3_750),
            (TrackingEvent::Midpoint, 3_750),
            (TrackingEvent::ThirdQuartile, 3_750),
            (TrackingEvent::Complete, 3_751),
        ]
    );
    assert!(was_completed(100, 15_100, 15_000));
    assert!(!was_completed(100, 15_099, 15_000));
}

#[test]
fn a_line_says_how_far_the_target_is() {
    let entries = record_entries(
        "t",
        "INFO",
        "6",
        "LAYOUT_PLAN_DONE",
        Some("s"),
        Some(1_000),
        Some(900),
        vec![
            ("element_count".to_string(), TimingValue::from(3u64)),
            ("path".to_string(), TimingValue::text("/x")),
            ("is_video".to_string(), TimingValue::from(true)),
            ("duration_ms".to_string(), TimingValue::from(7u128)),
        ],
    );
    let names: Vec<&str> = entries.iter().map(|e| e.0.as_str()).collect();
    assert_eq!(
        names,
        vec![
            "ts",
            "level",
            "step",
            "event",
            "scene_id",
            "target_time_millis",
            "now_millis",
            "time_to_target_ms",
            "element_count",
            "path",
            "is_video",
            "duration_ms",
        ]
    );
    assert!(matches!(entries[7].1, JsonScalar::Signed(100)));
    assert!(matches!(entries[8].1, JsonScalar::Unsigned(3)));
    assert!(matches!(entries[10].1, JsonScalar::Flag(true)));
}

#[test]
fn a_sync_whose_timeline_cannot_be_built_fails() {
    let mut run = SyncRun::new();
    run.advance(SyncEvent::ClockTried);
    let fetched = SyncEvent::Fetched {
        same_revision: false,
        server_time: true,
    };
    assert_eq!(run.advance(fetched), SyncPhase::ServerTime);
    assert_eq!(run.advance(SyncEvent::ServerTimeApplied), SyncPhase::Build);
    assert_eq!(run.advance(SyncEvent::Failed), SyncPhase::Failed);
}

#[test]
fn a_scene_that_is_over_is_forgotten() {
    let day = timeline(vec![scene("a", 100_000, 110_000, vec![]), scene("b", 900_000, 910_000, vec![])]);
    let plan = |target: i64| Plan {
        index: 0,
        fallback: false,
        target,
    };
    let mut run = PlaybackLoop::new(1);
    assert_eq!(run.on_wake(&day, &wake(100_000, None)), LoopAction::CheckAssets(plan(100_000)));
    run.on_assets(&day, true, 100_000);
    run.on_prerolled();
    run.on_sent(&day, true, 100_000);
    assert!(matches!(run.on_wake(&day, &wake(101_000, None)), LoopAction::Sleep(_)));
    assert!(matches!(run.on_wake(&day, &wake(111_000, None)), LoopAction::Sleep(_)));
    assert_eq!(run.on_wake(&day, &wake(101_000, None)), LoopAction::CheckAssets(plan(101_000)));
}
