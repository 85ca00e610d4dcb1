use oneplayer::cms::client::{
    body_preview, check_get_answer, check_post_answer, request_token,
};
use oneplayer::cms::CmsApiClient;
use oneplayer::config::PolicyConfig;
use oneplayer::panel::{
    build_settings, cursor_visible, settings_change, sync_draft_from_settings, SettingsAction,
    SettingsPanel,
};
use oneplayer::sample::{create_sample_schedule, sample_a};
use oneplayer::settings::{default_ffmpeg_hwaccel, AppSettings, SettingsError};
use oneplayer::startup::{config_file, sample_mode};

#[test]
fn default_settings_validate() {
    AppSettings::default().validate().unwrap();
}

#[test]
fn device_id_env_override_uses_non_empty_value() {
    let mut settings = AppSettings::default();
    settings.apply_device_id_override(Some(" DEVICE-ENV ".into()));
    assert_eq!(settings.device_id, "DEVICE-ENV");
}

#[test]
fn device_id_env_override_ignores_blank_value() {
    let mut settings = AppSettings::default();
    let original = settings.device_id.clone();
    settings.apply_device_id_override(Some("  ".into()));
    assert_eq!(settings.device_id, original);
}

#[test]
fn defaults_are_those_of_the_readme() {
    let settings = AppSettings::default();
    assert_eq!(settings.device_id, "DV-1001");
    assert_eq!(settings.cms_base_url, "https://kn.jdone.co.kr/api");
    assert_eq!(settings.ntp_server, "101.79.18.207");
    assert_eq!((settings.canvas_width, settings.canvas_height), (1080, 1920));
    assert!(settings.fullscreen);
    assert_eq!(default_ffmpeg_hwaccel(true), "d3d11va");
    assert_eq!(default_ffmpeg_hwaccel(false), "");
    assert_eq!(AppSettings::for_platform(true).ffmpeg_hwaccel, "d3d11va");
    let here = if std::path::MAIN_SEPARATOR == '\\' { "d3d11va" } else { "" };
    assert_eq!(settings.ffmpeg_hwaccel, here);
}

#[test]
fn each_blank_value_is_told() {
    let mut settings = AppSettings::default();
    settings.ntp_server = " ".to_string();
    assert_eq!(settings.validate(), Err(SettingsError::NtpServerMissing));
    settings.cms_base_url = "".to_string();
    assert_eq!(settings.validate(), Err(SettingsError::CmsBaseUrlMissing));
    settings.device_id = "\t".to_string();
    assert_eq!(settings.validate(), Err(SettingsError::DeviceIdMissing));
    assert_eq!(SettingsError::DeviceIdMissing.message(), "device_id is required");
    assert_eq!(SettingsError::CmsBaseUrlMissing.message(), "cms_base_url is required");
    assert_eq!(SettingsError::NtpServerMissing.message(), "ntp_server is required");
}

#[test]
fn data_lies_where_it_is_said_to() {
    let mut settings = AppSettings::default();
    let path = settings.data_dir_in(Some("/local".to_string()));
    assert_eq!((path.root.as_str(), path.segments), ("/local", vec!["OnePlayer".to_string()]));
    assert_eq!(settings.data_dir_in(None).root, ".");
    settings.data_dir = Some("%LOCALAPPDATA%/player".to_string());
    assert_eq!(settings.data_dir_in(Some("C:/x".to_string())).root, "C:/x/player");
    settings.data_dir = Some("/fixed".to_string());
    assert_eq!(settings.resolve_data_dir().root, "/fixed");
    assert_eq!(settings.assets_dir().segments, vec!["assets"]);
    assert_eq!(settings.logs_dir().segments, vec!["logs"]);
    assert_eq!(settings.max_cache_size_bytes(), 1024 * 1024 * 1024);
    assert_eq!(settings.asset_preload_window_ms(), 5 * 60 * 1_000);
    assert_eq!(settings.sync_interval_ms(), 300_000);
}

#[test]
fn without_a_data_directory_the_machines_is_used() {
    let path = AppSettings::default().resolve_data_dir();
    assert_eq!(path.segments, vec!["OnePlayer"]);
    assert!(!path.root.is_empty());
}

#[test]
fn policy_has_its_times() {
    let policy = PolicyConfig::default();
    let text = format!("{:?}", policy);
    assert!(text.contains("12000"));
}

#[test]
fn schedules_are_asked_for_by_device_and_date() {
    let mut settings = AppSettings::default();
    let client = CmsApiClient::new(&settings);
    assert_eq!(
        client.play_data_url("DV 1001/한", "2026-05-20"),
        "https://kn.jdone.co.kr/api/v1/playback/play_data?device_id=DV%201001%2F%ED%95%9C&date=2026-05-20"
    );
    assert_eq!(
        client.playback_logs_url(),
        "https://kn.jdone.co.kr/api/v1/playback-logs/batch"
    );
    assert_eq!(client.authorization(), None);
    settings.cms_base_url = "https://kn.jdone.co.kr/".to_string();
    settings.auth_token = "token".to_string();
    let other = CmsApiClient::new(&settings);
    assert_eq!(other.api_root(), "https://kn.jdone.co.kr/api");
    assert_eq!(other.authorization(), Some("Bearer token".to_string()));
    assert_eq!(request_token("  "), None);
}

#[test]
fn refused_requests_are_told() {
    assert_eq!(check_get_answer(200, "200 OK", ""), Ok(()));
    let failed = check_get_answer(500, "500 Internal Server Error", "oops").unwrap_err();
    assert!(failed.ends_with("500 Internal Server Error oops"));
    assert!(check_post_answer(404, "404 Not Found", "").is_err());
    assert!(check_post_answer(204, "204 No Content", "").is_ok());
}

#[test]
fn answers_are_logged_in_part() {
    assert_eq!(body_preview("a\r\nb"), "a  b");
    let long = "x".repeat(600);
    let preview = body_preview(long.as_str());
    assert_eq!(preview.chars().count(), 513);
}

#[test]
fn an_untouched_panel_saves_the_same() {
    let settings = AppSettings::default();
    let draft = sync_draft_from_settings(&settings);
    assert_eq!(draft.canvas_width, "1080");
    let saved = build_settings(&settings, &draft).unwrap();
    assert_eq!(format!("{:?}", saved), format!("{:?}", settings));
}

#[test]
fn a_draft_is_checked() {
    let settings = AppSettings::default();
    let mut draft = sync_draft_from_settings(&settings);
    draft.canvas_width = "wide".to_string();
    assert_eq!(
        build_settings(&settings, &draft).unwrap_err(),
        "캔버스 너비는 숫자여야 합니다."
    );
    draft.canvas_width = " +640 ".to_string();
    draft.canvas_height = "4294967296".to_string();
    assert_eq!(
        build_settings(&settings, &draft).unwrap_err(),
        "캔버스 높이는 숫자여야 합니다."
    );
    draft.canvas_height = "0".to_string();
    assert_eq!(
        build_settings(&settings, &draft).unwrap_err(),
        "캔버스 크기는 0보다 커야 합니다."
    );
    draft.canvas_height = "480".to_string();
    draft.device_id = " ".to_string();
    assert_eq!(build_settings(&settings, &draft).unwrap_err(), "device_id is required");
    draft.device_id = " DV-7 ".to_string();
    let saved = build_settings(&settings, &draft).unwrap();
    assert_eq!((saved.canvas_width, saved.canvas_height), (640, 480));
    assert_eq!(saved.device_id, "DV-7");
}

#[test]
fn the_panel_opens_saves_and_closes() {
    let settings = AppSettings::default();
    let mut panel = SettingsPanel::new(&settings);
    assert!(!panel.is_panel_open());
    panel.open_panel(&settings);
    panel.draft.device_id = "DV-9".to_string();
    match panel.save(&settings) {
        SettingsAction::Save(saved) => assert_eq!(saved.device_id, "DV-9"),
        SettingsAction::Nothing => panic!("not saved"),
    }
    assert_eq!(panel.status.as_deref(), Some("저장되었습니다."));
    panel.draft.canvas_width = "".to_string();
    assert!(matches!(panel.save(&settings), SettingsAction::Nothing));
    panel.close_panel(&settings);
    assert_eq!(panel.draft.device_id, "DV-1001");
    assert!(panel.status.is_none());
    panel.sync_from_settings(&settings);
}

#[test]
fn the_pointer_is_shown_where_it_is_wanted() {
    let mut settings = AppSettings::default();
    let panel = SettingsPanel::new(&settings);
    assert!(cursor_visible(Some(&panel), &settings, false));
    settings.settings_button_transparent = true;
    assert!(!cursor_visible(Some(&panel), &settings, false));
    assert!(cursor_visible(Some(&panel), &settings, true));
    assert!(!cursor_visible(None, &settings, true));
    settings.fullscreen = false;
    assert!(cursor_visible(None, &settings, false));
}

#[test]
fn changes_that_take_effect_are_found() {
    let before = AppSettings::default();
    let mut after = before.clone();
    after.canvas_height = 1;
    let change = settings_change(&before, &after);
    assert!(change.canvas && !change.fullscreen);
    after = before.clone();
    after.fullscreen = false;
    let other = settings_change(&before, &after);
    assert!(!other.canvas && other.fullscreen);
}

#[test]
fn arguments_choose_settings_and_demonstration() {
    assert_eq!(config_file(None), "config.toml");
    assert_eq!(config_file(Some("--sample".to_string())), "config.toml");
    assert_eq!(config_file(Some("my.toml".to_string())), "my.toml");
    assert!(sample_mode(&vec!["player".to_string(), "--sample".to_string()]));
    assert!(!sample_mode(&vec!["player".to_string()]));
}

#[test]
fn the_demonstration_has_two_scenes() {
    let first = sample_a(1_000);
    assert_eq!((first.start_time_millis, first.end_time_millis), (11_000, 21_000));
    let mut schedule = create_sample_schedule(1_000);
    assert_eq!(schedule.switch_b_at, 21_000);
    assert_eq!(schedule.scene_b.scene_id, "sample-b");
    assert_eq!(schedule.scene_b.end_time_millis, 41_000);
    assert!(!schedule.prepare_due(8_999));
    assert!(schedule.prepare_due(9_000));
    schedule.mark_prepared();
    assert!(!schedule.prepare_due(9_000));
    let layout = first.layout.unwrap();
    assert_eq!(layout.elements[0].background_color.as_deref(), Some("#2244aa"));
    assert_eq!(layout.elements[0].content.as_deref(), Some("OnePlayer sample sample-a"));
}
