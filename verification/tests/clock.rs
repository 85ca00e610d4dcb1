use oneplayer::clock::signage::{device_clock_snapshot, restore_snapshot};
use oneplayer::clock::sntp::NTP_TO_UNIX_SECONDS;
use oneplayer::clock::{
    Clock, ClockConfidence, ClockSnapshot, FixedNtpClient, MockClock, NtpClient, NtpResult,
    SignageClock, SntpClient,
};

fn snapshot(confidence: ClockConfidence) -> ClockSnapshot {
    ClockSnapshot {
        offset_millis: 0,
        confidence,
        last_sync_epoch_millis: None,
        anchor_instant_nanos: None,
        source: "test".to_string(),
        warning: None,
    }
}

struct Silent;

impl NtpClient for Silent {
    fn request_time(&self, _server: &str) -> Result<NtpResult, String> {
        Err("no answer".to_string())
    }
}

#[test]
fn ntp_sync_updates_offset() {
    let mut clock = SignageClock::with_snapshot(snapshot(ClockConfidence::Stale));
    let client = FixedNtpClient {
        result: NtpResult {
            epoch_millis: 1_700_000_000_000,
            round_trip_millis: 10,
        },
    };
    let result = clock.sync_with_ntp(&client, "time.example.com");
    assert!(result.success);
    assert_eq!(result.snapshot.confidence, ClockConfidence::Synced);
    assert_eq!(result.round_trip_millis, Some(10));
    let now = clock.now_millis();
    assert!((1_700_000_000_000..1_700_000_005_000).contains(&now));
}

#[test]
fn read_transmit_time_parses_epoch() {
    let mut buf = [0u8; 48];
    let unix_seconds = 1_700_000_000i64 + NTP_TO_UNIX_SECONDS;
    buf[40] = ((unix_seconds >> 24) & 0xff) as u8;
    buf[41] = ((unix_seconds >> 16) & 0xff) as u8;
    buf[42] = ((unix_seconds >> 8) & 0xff) as u8;
    buf[43] = (unix_seconds & 0xff) as u8;
    assert_eq!(SntpClient::read_transmit_time(&buf), 1_700_000_000_000);
}

#[test]
fn fractions_of_seconds_count() {
    let mut buf = [0u8; 48];
    let seconds = 1_700_000_000i64 + NTP_TO_UNIX_SECONDS;
    for k in 0..4 {
        buf[40 + k] = ((seconds >> (24 - 8 * k)) & 0xff) as u8;
    }
    buf[44] = 0x80;
    assert_eq!(SntpClient::read_transmit_time(&buf), 1_700_000_000_500);
}

#[test]
fn a_short_answer_is_refused() {
    let buf = [0u8; 48];
    assert!(SntpClient::read_answer(&buf, 47).is_err());
    assert!(SntpClient::read_answer(&buf, 48).is_ok());
    let request = SntpClient::request_packet();
    assert_eq!(request.len(), 48);
    assert_eq!(request[0], 0x23);
}

#[test]
fn a_failed_sync_keeps_the_time() {
    let mut clock = SignageClock::with_snapshot(snapshot(ClockConfidence::Stale));
    clock.apply_ntp_result(
        "s",
        NtpResult {
            epoch_millis: 1_700_000_000_000,
            round_trip_millis: 0,
        },
        0,
    );
    let before = clock.time_after(250, 9);
    let result = clock.sync_with_ntp(&Silent, "time.example.com");
    assert!(!result.success);
    assert_eq!(result.snapshot.confidence, ClockConfidence::Stale);
    assert!(clock.time_after(250, 9) >= before);
}

#[test]
fn the_clock_runs_by_elapsed_time_alone() {
    let mut clock = SignageClock::with_snapshot(snapshot(ClockConfidence::Stale));
    clock.apply_server_millis(5_000);
    assert_eq!(clock.snapshot().confidence, ClockConfidence::ServerEstimated);
    assert_eq!(clock.time_after(70, 1), clock.time_after(70, 999_999));
    assert_eq!(clock.time_after(70, 1) - clock.time_after(0, 1), 70);
}

#[test]
fn the_servers_time_sets_the_clock() {
    let mut unset = SignageClock::with_snapshot(device_clock_snapshot(0, "never set"));
    unset.apply_server_time("not a time");
    assert_eq!(unset.snapshot().confidence, ClockConfidence::DeviceClock);
    unset.apply_server_time("2020-01-01T00:00:00+00:00");
    assert_eq!(unset.snapshot().confidence, ClockConfidence::ServerEstimated);
    assert_eq!(unset.snapshot().source, "play_data.server_time");
    assert!((1_577_836_800_000..1_577_836_805_000).contains(&unset.now_millis()));
}

#[test]
fn half_of_the_way_back_is_added() {
    let mut clock = SignageClock::with_snapshot(snapshot(ClockConfidence::Stale));
    let answer = NtpResult {
        epoch_millis: 1_700_000_000_000,
        round_trip_millis: 10,
    };
    let result = clock.apply_ntp_result("s", answer, 41);
    assert_eq!(result.snapshot.offset_millis, 1_700_000_000_020);
    assert_eq!(result.snapshot.last_sync_epoch_millis, Some(1_700_000_000_000));
}

#[test]
fn a_stored_time_is_stale() {
    let restored = restore_snapshot(snapshot(ClockConfidence::Synced));
    assert_eq!(restored.confidence, ClockConfidence::Stale);
    let clock = SignageClock::new(None);
    assert_eq!(clock.snapshot().confidence, ClockConfidence::DeviceClock);
}

#[test]
fn marking_stale_tells_why() {
    let mut clock = SignageClock::with_snapshot(snapshot(ClockConfidence::Synced));
    let marked = clock.mark_stale("offline");
    assert_eq!(marked.confidence, ClockConfidence::Stale);
    assert_eq!(marked.warning.as_deref(), Some("offline"));
}

#[test]
fn a_large_jump_is_warned_of() {
    let mut clock = SignageClock::with_snapshot(snapshot(ClockConfidence::Stale));
    let near = NtpResult {
        epoch_millis: 1_700_000_000_000,
        round_trip_millis: 0,
    };
    clock.apply_ntp_result("s", near, 0);
    let far = NtpResult {
        epoch_millis: 1_700_000_060_000,
        round_trip_millis: 0,
    };
    let result = clock.apply_ntp_result("s", far, 0);
    assert!(result.snapshot.warning.is_some());
}

#[test]
fn a_mock_clock_stands_still() {
    let mut clock = MockClock::at(1_000);
    assert_eq!(clock.now_millis(), 1_000);
    clock.advance(500);
    assert_eq!(clock.now_millis(), 1_500);
}

#[test]
fn a_time_client_waits_for_so_long() {
    assert_eq!(SntpClient::new(1_500).timeout_ms(), 1_500);
    assert_eq!(SntpClient::default().timeout_ms(), 3_000);
}

#[test]
fn an_answer_sets_the_clock_and_none_leaves_it() {
    let mut clock = SignageClock::with_snapshot(snapshot(ClockConfidence::Stale));
    let answer = Ok(NtpResult {
        epoch_millis: 1_700_000_000_000,
        round_trip_millis: 40,
    });
    let set = clock.apply_ntp_answer("time.example.com", answer, 100);
    assert!(set.success);
    assert_eq!(set.round_trip_millis, Some(40));
    let failed = clock.apply_ntp_answer("time.example.com", Err("no route".to_string()), 100);
    assert!(!failed.success);
    assert_eq!(failed.snapshot.confidence, ClockConfidence::Stale);
    assert!(failed.snapshot.warning.unwrap().contains("no route"));
}

#[test]
fn whatever_was_set_comes_back_stale() {
    for confidence in [
        ClockConfidence::Synced,
        ClockConfidence::ServerEstimated,
        ClockConfidence::Stale,
    ] {
        let mut stored = snapshot(confidence);
        stored.offset_millis = 77;
        stored.last_sync_epoch_millis = Some(5);
        let clock = SignageClock::new(Some(stored));
        let restored = clock.snapshot();
        assert_eq!(restored.confidence, ClockConfidence::Stale);
        assert_eq!(restored.offset_millis, 77);
        assert_eq!(restored.last_sync_epoch_millis, Some(5));
        assert_eq!(restored.source, "test");
    }
    let unset = restore_snapshot(snapshot(ClockConfidence::DeviceClock));
    assert_eq!(unset.confidence, ClockConfidence::DeviceClock);
}

#[test]
fn a_clock_counts_on_from_where_it_was_set() {
    let base = std::time::Instant::now();
    let mut clock = SignageClock::started_at(snapshot(ClockConfidence::Stale), 1_000, base);
    assert_eq!(clock.time_after(250, 9), 1_250);
    assert!((1_000..6_000).contains(&clock.now_millis()));
    let answer = NtpResult {
        epoch_millis: 50_000,
        round_trip_millis: 8,
    };
    let near = clock.apply_ntp_result_at("s", answer, 20, 50_500, base);
    assert_eq!(near.snapshot.warning, None);
    assert_eq!(clock.time_after(5, 9), 50_015);
    let far = clock.apply_ntp_result_at("s", answer, 20, 51_011, base);
    assert_eq!(
        far.snapshot.warning.as_deref(),
        Some("Large clock offset change: 51011 -> 50010")
    );
    clock.apply_server_millis_at(70_000, base);
    assert_eq!(clock.time_after(1, 9), 70_001);
    let failed = clock.apply_ntp_answer_at("s", Err("x".to_string()), 0, 0, 3, base);
    assert_eq!(failed.snapshot.warning.as_deref(), Some("NTP failed: x"));
    assert_eq!(clock.time_after(1, 9), 70_001);
}

#[test]
fn a_clock_starts_from_the_machines_time() {
    let before = chrono::Utc::now().timestamp_millis();
    let clock = SignageClock::new(Some(snapshot(ClockConfidence::Synced)));
    let after = chrono::Utc::now().timestamp_millis();
    let shown = clock.now_millis();
    assert!(shown >= before && shown <= after + 5_000);
}
