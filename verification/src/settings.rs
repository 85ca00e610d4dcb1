//! The settings of the player, and what follows from them.

use vstd::prelude::*;
use vstd::string::*;

use crate::config::DEFAULT_MAX_CACHE_SIZE_BYTES;
use crate::text::{is_blank, opt_text, replace_text, replaced, texts, trim, trimmed};

verus! {

/// The place in a path that stands for the directory of local application data.
pub const LOCAL_DATA_VARIABLE: &'static str = "%LOCALAPPDATA%";

/// A path: a root, and what is joined to it, one after the other.
#[derive(Debug)]
pub struct DataPath {
    pub root: String,
    pub segments: Vec<String>,
}

/// Model of a [`DataPath`].
#[verifier::ext_equal]
pub struct DataPathView {
    pub root: Seq<char>,
    pub segments: Seq<Seq<char>>,
}

impl View for DataPath {
    type V = DataPathView;

    open spec fn view(&self) -> DataPathView {
        DataPathView { root: self.root@, segments: texts(self.segments@) }
    }
}

impl DataPathView {
    /// The path with one more segment.
    pub open spec fn with(self, segment: Seq<char>) -> DataPathView {
        DataPathView { segments: self.segments.push(segment), ..self }
    }
}

impl DataPath {
    /// A path that is a root alone.
    pub fn new(root: String) -> (r: DataPath)
        ensures
            r@ == (DataPathView { root: root@, segments: Seq::empty() }),
    {
        let path: DataPath = DataPath { root, segments: Vec::new() };
        assert(path@.segments =~= Seq::empty());
        path
    }

    /// The path with one more segment.
    pub fn join(self, segment: &str) -> (r: DataPath)
        ensures
            r@ == self@.with(segment@),
    {
        let mut path: DataPath = self;
        let ghost before = path@.segments;
        path.segments.push(segment.to_owned());
        assert(path@.segments =~= before.push(segment@));
        path
    }
}

/// The settings of the player.
#[derive(Debug)]
pub struct AppSettings {
    /// Identity of the device, by which its schedule is asked for.
    pub device_id: String,
    /// Address of the content management system, with or without `/api`.
    pub cms_base_url: String,
    /// Token for the content management system; none where it is blank.
    pub auth_token: String,
    pub ntp_server: String,
    /// Where data is kept; the directory of local application data where there is none.
    pub data_dir: Option<String>,
    pub schedule_sync_interval_sec: u64,
    pub asset_preload_minutes: u64,
    pub max_cache_size_mb: u64,
    pub canvas_width: u32,
    pub canvas_height: u32,
    pub fullscreen: bool,
    /// Shown where nothing else can be.
    pub fallback_image_path: Option<String>,
    /// How videos are decoded by hardware; `none` for not at all.
    pub ffmpeg_hwaccel: String,
    /// Whether the settings button is invisible while the panel is closed.
    pub settings_button_transparent: bool,
}

/// Model of [`AppSettings`].
#[verifier::ext_equal]
pub struct AppSettingsView {
    pub device_id: Seq<char>,
    pub cms_base_url: Seq<char>,
    pub auth_token: Seq<char>,
    pub ntp_server: Seq<char>,
    pub data_dir: Option<Seq<char>>,
    pub schedule_sync_interval_sec: u64,
    pub asset_preload_minutes: u64,
    pub max_cache_size_mb: u64,
    pub canvas_width: u32,
    pub canvas_height: u32,
    pub fullscreen: bool,
    pub fallback_image_path: Option<Seq<char>>,
    pub ffmpeg_hwaccel: Seq<char>,
    pub settings_button_transparent: bool,
}

impl View for AppSettings {
    type V = AppSettingsView;

    open spec fn view(&self) -> AppSettingsView {
        AppSettingsView {
            device_id: self.device_id@,
            cms_base_url: self.cms_base_url@,
            auth_token: self.auth_token@,
            ntp_server: self.ntp_server@,
            data_dir: opt_text(self.data_dir),
            schedule_sync_interval_sec: self.schedule_sync_interval_sec,
            asset_preload_minutes: self.asset_preload_minutes,
            max_cache_size_mb: self.max_cache_size_mb,
            canvas_width: self.canvas_width,
            canvas_height: self.canvas_height,
            fullscreen: self.fullscreen,
            fallback_image_path: opt_text(self.fallback_image_path),
            ffmpeg_hwaccel: self.ffmpeg_hwaccel@,
            settings_button_transparent: self.settings_button_transparent,
        }
    }
}

impl Clone for AppSettings {
    fn clone(&self) -> (r: Self)
        ensures
            r@ == self@,
    {
        AppSettings {
            device_id: self.device_id.clone(),
            cms_base_url: self.cms_base_url.clone(),
            auth_token: self.auth_token.clone(),
            ntp_server: self.ntp_server.clone(),
            data_dir: self.data_dir.clone(),
            schedule_sync_interval_sec: self.schedule_sync_interval_sec,
            asset_preload_minutes: self.asset_preload_minutes,
            max_cache_size_mb: self.max_cache_size_mb,
            canvas_width: self.canvas_width,
            canvas_height: self.canvas_height,
            fullscreen: self.fullscreen,
            fallback_image_path: self.fallback_image_path.clone(),
            ffmpeg_hwaccel: self.ffmpeg_hwaccel.clone(),
            settings_button_transparent: self.settings_button_transparent,
        }
    }
}

/// Seconds between two syncs, by default.
pub fn default_sync_interval() -> (r: u64)
    ensures
        r == 300,
{
    300
}

/// Minutes that assets are downloaded ahead, by default.
pub fn default_preload_minutes() -> (r: u64)
    ensures
        r == 5,
{
    5
}

/// Limit of the cache in megabytes, by default.
pub fn default_max_cache_mb() -> (r: u64)
    ensures
        r == 1024,
{
    1024
}

/// Width of the canvas, by default.
pub fn default_canvas_width() -> (r: u32)
    ensures
        r == 1080,
{
    1080
}

/// Height of the canvas, by default.
pub fn default_canvas_height() -> (r: u32)
    ensures
        r == 1920,
{
    1920
}

/// How videos are decoded by hardware, by default: on Windows with `d3d11va`, elsewhere not.
pub fn default_ffmpeg_hwaccel(windows: bool) -> (r: String)
    ensures
        r@ == (if windows {
            "d3d11va"@
        } else {
            ""@
        }),
{
    if windows {
        "d3d11va".to_owned()
    } else {
        "".to_owned()
    }
}

/// The settings of a player that has not been set up.
pub open spec fn default_settings(windows: bool) -> AppSettingsView {
    AppSettingsView {
        device_id: "DV-1001"@,
        cms_base_url: "https://kn.jdone.co.kr/api"@,
        auth_token: ""@,
        ntp_server: "101.79.18.207"@,
        data_dir: None,
        schedule_sync_interval_sec: 300,
        asset_preload_minutes: 5,
        max_cache_size_mb: 1024,
        canvas_width: 1080,
        canvas_height: 1920,
        fullscreen: true,
        fallback_image_path: None,
        ffmpeg_hwaccel: if windows {
            "d3d11va"@
        } else {
            ""@
        },
        settings_button_transparent: false,
    }
}

/// `std::path::is_separator`: whether a character parts the names of a path on the platform. Nothing
/// is said of which characters do: it depends on the platform.
#[verifier::external_body]
fn parts_names(c: char) -> (r: bool) {
    std::path::is_separator(c)
}

/// Whether the platform, when it was asked, was Windows or was not: there alone a backslash parts the
/// names of a path.
pub closed spec fn is_windows(windows: bool) -> bool {
    call_ensures(parts_names, ('\\',), windows)
}

impl Default for AppSettings {
    /// The settings of a player that has not been set up, on the platform that it runs on.
    fn default() -> (r: Self)
        ensures
            exists|windows: bool|
                is_windows(windows) && r@ == #[trigger] default_settings(windows),
    {
        let windows: bool = parts_names('\\');
        assert(is_windows(windows));
        AppSettings::for_platform(windows)
    }
}

/// Why settings cannot be used.
#[derive(Debug, Clone, Copy, PartialEq, Eq, Structural)]
pub enum SettingsError {
    DeviceIdMissing,
    CmsBaseUrlMissing,
    NtpServerMissing,
}

impl SettingsError {
    /// What is reported.
    pub fn message(self) -> (r: &'static str)
        ensures
            r@ == (match self {
                SettingsError::DeviceIdMissing => "device_id is required"@,
                SettingsError::CmsBaseUrlMissing => "cms_base_url is required"@,
                SettingsError::NtpServerMissing => "ntp_server is required"@,
            }),
    {
        match self {
            SettingsError::DeviceIdMissing => "device_id is required",
            SettingsError::CmsBaseUrlMissing => "cms_base_url is required",
            SettingsError::NtpServerMissing => "ntp_server is required",
        }
    }
}

/// Why settings cannot be used: the first of the values that must not be blank.
pub open spec fn settings_fault(settings: AppSettingsView) -> Option<SettingsError> {
    if trimmed(settings.device_id).len() == 0 {
        Some(SettingsError::DeviceIdMissing)
    } else if trimmed(settings.cms_base_url).len() == 0 {
        Some(SettingsError::CmsBaseUrlMissing)
    } else if trimmed(settings.ntp_server).len() == 0 {
        Some(SettingsError::NtpServerMissing)
    } else {
        None
    }
}

/// `dirs::data_local_dir`: the directory of local application data, where there is one. Nothing is
/// said of which that is: it depends on the machine.
#[verifier::external_body]
fn local_data_dir() -> (r: Option<String>) {
    match dirs::data_local_dir() {
        Some(dir) => Some(dir.to_string_lossy().to_string()),
        None => None,
    }
}

/// Whether the machine, when it was asked, named this directory of local application data.
pub closed spec fn is_local_dir(local: Option<Seq<char>>) -> bool {
    exists|dir: Option<String>|
        #[trigger] call_ensures(local_data_dir, (), dir) && opt_text(dir) == local
}

/// The directory of local application data, or the current one where there is none.
pub open spec fn base_dir(local: Option<Seq<char>>) -> Seq<char> {
    match local {
        Some(dir) => dir,
        None => "."@,
    }
}

/// Where data is kept, on a machine whose local application data is in `local`.
pub open spec fn data_dir_of(settings: AppSettingsView, local: Option<Seq<char>>) -> DataPathView {
    match settings.data_dir {
        Some(dir) => DataPathView {
            root: replaced(dir, LOCAL_DATA_VARIABLE@, base_dir(local)),
            segments: Seq::empty(),
        },
        None => DataPathView { root: base_dir(local), segments: seq!["OnePlayer"@] },
    }
}

impl AppSettings {
    /// The settings of a player that has not been set up.
    pub fn for_platform(windows: bool) -> (r: AppSettings)
        ensures
            r@ == default_settings(windows),
    {
        AppSettings {
            device_id: "DV-1001".to_owned(),
            cms_base_url: "https://kn.jdone.co.kr/api".to_owned(),
            auth_token: "".to_owned(),
            ntp_server: "101.79.18.207".to_owned(),
            data_dir: None,
            schedule_sync_interval_sec: default_sync_interval(),
            asset_preload_minutes: default_preload_minutes(),
            max_cache_size_mb: default_max_cache_mb(),
            canvas_width: default_canvas_width(),
            canvas_height: default_canvas_height(),
            fullscreen: true,
            fallback_image_path: None,
            ffmpeg_hwaccel: default_ffmpeg_hwaccel(windows),
            settings_button_transparent: false,
        }
    }

    /// Whether the settings can be used: the values that must not be blank are not.
    pub fn validate(&self) -> (r: Result<(), SettingsError>)
        ensures
            r == (match settings_fault(self@) {
                Some(fault) => Err(fault),
                None => Ok(()),
            }),
    {
        if is_blank(self.device_id.as_str()) {
            return Err(SettingsError::DeviceIdMissing);
        }
        if is_blank(self.cms_base_url.as_str()) {
            return Err(SettingsError::CmsBaseUrlMissing);
        }
        if is_blank(self.ntp_server.as_str()) {
            return Err(SettingsError::NtpServerMissing);
        }
        Ok(())
    }

    /// Takes over a device id from outside, without white space at its ends, unless it is blank.
    pub fn apply_device_id_override(&mut self, value: Option<String>)
        ensures
            final(self)@ == (AppSettingsView {
                device_id: match value {
                    Some(v) => if trimmed(v@).len() > 0 {
                        trimmed(v@)
                    } else {
                        old(self)@.device_id
                    },
                    None => old(self)@.device_id,
                },
                ..old(self)@
            }),
    {
        match value {
            Some(v) => {
                let id: String = trim(v.as_str());
                if id.as_str().unicode_len() > 0 {
                    self.device_id = id;
                }
            },
            None => {},
        }
    }

    /// Where data is kept, on a machine whose local application data is in `local`.
    pub fn data_dir_in(&self, local: Option<String>) -> (r: DataPath)
        ensures
            r@ == data_dir_of(self@, opt_text(local)),
    {
        let base: String = match local {
            Some(dir) => dir,
            None => ".".to_owned(),
        };
        match &self.data_dir {
            Some(dir) => {
                proof {
                    reveal_strlit("%LOCALAPPDATA%");
                }
                DataPath::new(replace_text(dir.as_str(), LOCAL_DATA_VARIABLE, base.as_str()))
            },
            None => {
                let path: DataPath = DataPath::new(base).join("OnePlayer");
                assert(path@.segments =~= seq!["OnePlayer"@]);
                path
            },
        }
    }

    /// Where data is kept.
    pub fn resolve_data_dir(&self) -> (r: DataPath)
        ensures
            exists|local: Option<Seq<char>>|
                is_local_dir(local) && r@ == #[trigger] data_dir_of(self@, local),
    {
        let local: Option<String> = local_data_dir();
        self.data_dir_in(local)
    }

    /// Where assets are kept.
    pub fn assets_dir(&self) -> (r: DataPath)
        ensures
            exists|local: Option<Seq<char>>|
                is_local_dir(local) && r@ == (#[trigger] data_dir_of(self@, local)).with("assets"@),
    {
        self.resolve_data_dir().join("assets")
    }

    /// Where the last schedule is stored, to start from without a network.
    pub fn playback_cache_path(&self) -> (r: DataPath)
        ensures
            exists|local: Option<Seq<char>>|
                is_local_dir(local) && r@ == (#[trigger] data_dir_of(self@, local)).with("playback_cache.json"@),
    {
        self.resolve_data_dir().join("playback_cache.json")
    }

    /// Where the state of the clock is stored.
    pub fn clock_state_path(&self) -> (r: DataPath)
        ensures
            exists|local: Option<Seq<char>>|
                is_local_dir(local) && r@ == (#[trigger] data_dir_of(self@, local)).with("clock_state.json"@),
    {
        self.resolve_data_dir().join("clock_state.json")
    }

    /// Where logs are kept.
    pub fn logs_dir(&self) -> (r: DataPath)
        ensures
            exists|local: Option<Seq<char>>|
                is_local_dir(local) && r@ == (#[trigger] data_dir_of(self@, local)).with("logs"@),
    {
        self.resolve_data_dir().join("logs")
    }

    /// The limit of the cache in bytes: at most what can be held, at least a thousand and
    /// twenty-four.
    pub fn max_cache_size_bytes(&self) -> (r: u64)
        ensures
            r == ({
                let bytes = self.max_cache_size_mb * 1024 * 1024;
                let least = DEFAULT_MAX_CACHE_SIZE_BYTES / 1024 / 1024;
                if bytes > u64::MAX {
                    u64::MAX as int
                } else if bytes < least {
                    least as int
                } else {
                    bytes
                }
            }),
    {
        let bytes: u128 = self.max_cache_size_mb as u128 * 1024 * 1024;
        let least: u64 = DEFAULT_MAX_CACHE_SIZE_BYTES / 1024 / 1024;
        if bytes > u64::MAX as u128 {
            u64::MAX
        } else if (bytes as u64) < least {
            least
        } else {
            bytes as u64
        }
    }

    /// How far ahead assets are downloaded, in milliseconds.
    pub fn asset_preload_window_ms(&self) -> (r: i64)
        requires
            self.asset_preload_minutes * 60 * 1_000 <= i64::MAX,
        ensures
            r == self.asset_preload_minutes * 60 * 1_000,
    {
        self.asset_preload_minutes as i64 * 60 * 1_000
    }

    /// Time between two syncs, in milliseconds.
    pub fn sync_interval_ms(&self) -> (r: i64)
        requires
            self.schedule_sync_interval_sec * 1_000 <= i64::MAX,
        ensures
            r == self.schedule_sync_interval_sec * 1_000,
    {
        self.schedule_sync_interval_sec as i64 * 1_000
    }
}

proof fn lemma_not_blank(s: Seq<char>)
    requires
        s.len() > 0,
        !crate::text::is_space(s[0]),
    ensures
        trimmed(s).len() > 0,
{
    assert(crate::text::drop_leading(s, crate::text::space()) == s);
    lemma_trailing_keeps_first(s);
}

proof fn lemma_trailing_keeps_first(s: Seq<char>)
    requires
        s.len() > 0,
        !crate::text::is_space(s[0]),
    ensures
        crate::text::drop_trailing(s, crate::text::space()).len() > 0,
    decreases s.len(),
{
    if crate::text::is_space(s.last()) {
        lemma_trailing_keeps_first(s.drop_last());
    }
}

/// The settings of a player that has not been set up can be used.
pub proof fn default_settings_are_valid(windows: bool)
    ensures
        settings_fault(default_settings(windows)) is None,
{
    reveal_strlit("DV-1001");
    reveal_strlit("https://kn.jdone.co.kr/api");
    reveal_strlit("101.79.18.207");
    lemma_not_blank("DV-1001"@);
    lemma_not_blank("https://kn.jdone.co.kr/api"@);
    lemma_not_blank("101.79.18.207"@);
}

/// The model of settings says what the settings say.
pub proof fn settings_models_are_faithful(settings: AppSettings)
    ensures
        settings@.device_id == settings.device_id@,
        settings@.cms_base_url == settings.cms_base_url@,
        settings@.auth_token == settings.auth_token@,
        settings@.ntp_server == settings.ntp_server@,
        settings@.data_dir is Some <==> settings.data_dir is Some,
        settings.data_dir matches Some(text) ==> settings@.data_dir == Some(text@),
        settings@.schedule_sync_interval_sec == settings.schedule_sync_interval_sec,
        settings@.asset_preload_minutes == settings.asset_preload_minutes,
        settings@.max_cache_size_mb == settings.max_cache_size_mb,
        settings@.canvas_width == settings.canvas_width,
        settings@.canvas_height == settings.canvas_height,
        settings@.fullscreen == settings.fullscreen,
        settings@.fallback_image_path is Some <==> settings.fallback_image_path is Some,
        settings.fallback_image_path matches Some(text) ==> settings@.fallback_image_path == Some(
            text@,
        ),
        settings@.ffmpeg_hwaccel == settings.ffmpeg_hwaccel@,
        settings@.settings_button_transparent == settings.settings_button_transparent,
{
}

/// Settings can be used exactly where the device, the address of the content management system and
/// the time server are named: where none of them is blank. What is told is the first that is.
pub proof fn settings_need_device_address_and_time_server(settings: AppSettingsView)
    ensures
        settings_fault(settings) is None <==> trimmed(settings.device_id).len() > 0 && trimmed(
            settings.cms_base_url,
        ).len() > 0 && trimmed(settings.ntp_server).len() > 0,
        trimmed(settings.device_id).len() == 0 ==> settings_fault(settings) == Some(
            SettingsError::DeviceIdMissing,
        ),
        trimmed(settings.device_id).len() > 0 && trimmed(settings.cms_base_url).len() == 0
            ==> settings_fault(settings) == Some(SettingsError::CmsBaseUrlMissing),
        trimmed(settings.device_id).len() > 0 && trimmed(settings.cms_base_url).len() > 0
            && trimmed(settings.ntp_server).len() == 0 ==> settings_fault(settings) == Some(
            SettingsError::NtpServerMissing,
        ),
{
}

/// Data is kept in the directory that the settings name, with the directory of local application data
/// in the place of its variable; where they name none, in `OnePlayer` below that directory. Where the
/// machine has no such directory, the current one stands for it.
pub proof fn data_is_kept_where_the_settings_say(settings: AppSettingsView, local: Seq<char>)
    ensures
        settings.data_dir is None ==> {
            &&& data_dir_of(settings, Some(local)).root == local
            &&& data_dir_of(settings, None).root == "."@
            &&& data_dir_of(settings, Some(local)).segments == seq!["OnePlayer"@]
            &&& data_dir_of(settings, None).segments == seq!["OnePlayer"@]
        },
        settings.data_dir matches Some(dir) ==> {
            &&& data_dir_of(settings, Some(local)).segments.len() == 0
            &&& data_dir_of(settings, Some(local)).root == replaced(dir, "%LOCALAPPDATA%"@, local)
            &&& data_dir_of(settings, None).root == replaced(dir, "%LOCALAPPDATA%"@, "."@)
            &&& !crate::text::occurs(dir, "%LOCALAPPDATA%"@) ==> data_dir_of(
                settings,
                Some(local),
            ).root == dir
        },
{
    if let Some(dir) = settings.data_dir {
        if !crate::text::occurs(dir, "%LOCALAPPDATA%"@) {
            crate::text::replacing_nothing(dir, "%LOCALAPPDATA%"@, local);
        }
    }
}

/// A path with one more segment has that segment behind all that it had, below the same root.
pub proof fn segments_are_joined_at_the_end(path: DataPathView, segment: Seq<char>)
    ensures
        path.with(segment).root == path.root,
        path.with(segment).segments.len() == path.segments.len() + 1,
        path.with(segment).segments.last() == segment,
        path.with(segment).segments.drop_last() == path.segments,
{
    assert(path.with(segment).segments.drop_last() =~= path.segments);
}

/// A player that has not been set up: its screen stands upright, it syncs every five minutes, fetches
/// files five minutes ahead, keeps up to a gigabyte, and fills the screen.
pub proof fn players_start_with_these_settings(windows: bool)
    ensures
        default_settings(windows).canvas_width == 1080,
        default_settings(windows).canvas_height == 1920,
        default_settings(windows).schedule_sync_interval_sec == 300,
        default_settings(windows).asset_preload_minutes == 5,
        default_settings(windows).max_cache_size_mb == 1024,
        default_settings(windows).fullscreen,
        !default_settings(windows).settings_button_transparent,
        default_settings(windows).data_dir is None,
        default_settings(windows).fallback_image_path is None,
        default_settings(windows).device_id == "DV-1001"@,
        default_settings(windows).cms_base_url == "https://kn.jdone.co.kr/api"@,
        default_settings(windows).ntp_server == "101.79.18.207"@,
        default_settings(windows).auth_token == ""@,
        windows ==> default_settings(windows).ffmpeg_hwaccel == "d3d11va"@,
        !windows ==> default_settings(windows).ffmpeg_hwaccel == ""@,
{
}

/// A path is modelled by its root and what is joined to it.
pub proof fn path_models_are_faithful(path: DataPath)
    ensures
        path@.root == path.root@,
        path@.segments.len() == path.segments@.len(),
        forall|i: int|
            0 <= i < path.segments@.len() ==> #[trigger] path@.segments[i] == path.segments@[i]@,
{
}
} // verus!
