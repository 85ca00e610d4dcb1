//! Playback policy. Every number that a rule depends on stands here.

use vstd::prelude::*;

verus! {

/// Time between two syncs of clock and schedule.
pub const SYNC_INTERVAL_MS: i64 = 5 * 60 * 1_000;

/// How long before its start a scene is prepared.
pub const SCENE_PREPARE_WINDOW_MS: i64 = 12 * 1_000;

/// Warm-up window right after start.
pub const STARTUP_WARMUP_WINDOW_MS: i64 = 60 * 1_000;

/// Least time that the playback loop waits.
pub const MIN_PLAYBACK_LOOP_DELAY_MS: i64 = 50;

/// A timeline that ends within this time is built anew.
pub const TIMELINE_REFRESH_THRESHOLD_MS: i64 = 2 * 60 * 1_000;

/// How far ahead assets are downloaded before playback goes on.
pub const ASSET_PRELOAD_WINDOW_MS: i64 = 5 * 60 * 1_000;

/// Assets that play within this time are never deleted.
pub const FILE_CACHE_WARM_WINDOW_MS: i64 = 20 * 60 * 1_000;

/// From this time before a switch on, the render loop watches the clock.
pub const PRECISE_WINDOW_MS: i64 = 1_000;

/// How long before its start a video is decoded, muted.
pub const VIDEO_PREROLL_WINDOW_MS: i64 = 8 * 1_000;

/// Time reserved for the switch of a video.
pub const VIDEO_SWITCH_RESERVE_MS: i64 = 700;

/// How long past its target a switch waits for a video's first frame.
pub const VIDEO_FIRST_FRAME_WAIT_MS: i64 = 2_000;

/// A jump of the clock's offset above this is worth a warning.
pub const LARGE_OFFSET_CHANGE_MS: i64 = 1_000;

/// Default limit of the asset cache.
pub const DEFAULT_MAX_CACHE_SIZE_BYTES: u64 = 1_024 * 1_024 * 1_024;

/// Age above which an unfinished download is removed.
pub const STALE_PART_MAX_AGE_MS: i64 = 30 * 60 * 1_000;

/// An asset is kept this long after its last use.
pub const SCHEDULE_END_GRACE_MS: i64 = 5 * 60 * 1_000;

/// How far back a timeline is expanded.
pub const TIMELINE_PAST_WINDOW_MS: i64 = 2 * 60 * 1_000;

/// How far ahead a timeline is expanded.
pub const TIMELINE_FUTURE_WINDOW_MS: i64 = 30 * 60 * 1_000;

/// Most scenes that one slot is expanded to.
pub const MAX_EXPANDED_SCENES: usize = 2_000;

/// Duration of an item that names none.
pub const DEFAULT_ITEM_DURATION_SECONDS: i64 = 15;

/// One second.
pub const ONE_SECOND_MS: i64 = 1_000;

/// One day.
pub const DAY_MS: i64 = 24 * 60 * 60 * 1_000;

/// Time zone of slots that name none, or one that is not known.
pub const DEFAULT_ZONE_ID: &'static str = "Asia/Seoul";

/// Time between two tries where no scene can be shown.
pub const NO_SCENE_RETRY_MS: i64 = 5_000;

/// The policy values that can be tuned at run time.
#[derive(Debug, Clone)]
pub struct PolicyConfig {
    pub sync_interval_ms: i64,
    pub scene_prepare_window_ms: i64,
    pub asset_preload_window_ms: i64,
    pub max_cache_size_bytes: u64,
    pub precise_window_ms: i64,
    pub video_preroll_window_ms: i64,
}

impl Default for PolicyConfig {
    /// The values of the policy.
    fn default() -> (r: Self)
        ensures
            r == (PolicyConfig {
                sync_interval_ms: SYNC_INTERVAL_MS,
                scene_prepare_window_ms: SCENE_PREPARE_WINDOW_MS,
                asset_preload_window_ms: ASSET_PRELOAD_WINDOW_MS,
                max_cache_size_bytes: DEFAULT_MAX_CACHE_SIZE_BYTES,
                precise_window_ms: PRECISE_WINDOW_MS,
                video_preroll_window_ms: VIDEO_PREROLL_WINDOW_MS,
            }),
            r.sync_interval_ms == 300_000,
            r.scene_prepare_window_ms == 12_000,
            r.asset_preload_window_ms == 300_000,
            r.max_cache_size_bytes == 1_073_741_824,
            r.precise_window_ms == 1_000,
            r.video_preroll_window_ms == 8_000,
    {
        PolicyConfig {
            sync_interval_ms: SYNC_INTERVAL_MS,
            scene_prepare_window_ms: SCENE_PREPARE_WINDOW_MS,
            asset_preload_window_ms: ASSET_PRELOAD_WINDOW_MS,
            max_cache_size_bytes: DEFAULT_MAX_CACHE_SIZE_BYTES,
            precise_window_ms: PRECISE_WINDOW_MS,
            video_preroll_window_ms: VIDEO_PREROLL_WINDOW_MS,
        }
    }
}

/// The player syncs every five minutes and downloads five minutes ahead. It prepares a scene twelve
/// seconds and decodes a video eight seconds ahead, and waits two seconds for a first frame. A
/// timeline reaches from two minutes back to thirty ahead.
pub proof fn players_keep_these_times()
    ensures
        SYNC_INTERVAL_MS == 300_000,
        ASSET_PRELOAD_WINDOW_MS == 300_000,
        SCHEDULE_END_GRACE_MS == 300_000,
        SCENE_PREPARE_WINDOW_MS == 12_000,
        VIDEO_PREROLL_WINDOW_MS == 8_000,
        VIDEO_SWITCH_RESERVE_MS == 700,
        VIDEO_FIRST_FRAME_WAIT_MS == 2_000,
        STARTUP_WARMUP_WINDOW_MS == 60_000,
        MIN_PLAYBACK_LOOP_DELAY_MS == 50,
        NO_SCENE_RETRY_MS == 5_000,
        TIMELINE_REFRESH_THRESHOLD_MS == 120_000,
        TIMELINE_PAST_WINDOW_MS == 120_000,
        TIMELINE_FUTURE_WINDOW_MS == 1_800_000,
        STALE_PART_MAX_AGE_MS == 1_800_000,
        FILE_CACHE_WARM_WINDOW_MS == 1_200_000,
        PRECISE_WINDOW_MS == 1_000,
        LARGE_OFFSET_CHANGE_MS == 1_000,
        MAX_EXPANDED_SCENES == 2_000,
        DEFAULT_ITEM_DURATION_SECONDS == 15,
        DAY_MS == 86_400_000,
        DEFAULT_MAX_CACHE_SIZE_BYTES == 1_073_741_824,
{
}
} // verus!
