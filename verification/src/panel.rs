//! The settings panel: what is typed into it, and what saving makes of it.

use vstd::prelude::*;

use crate::settings::{settings_fault, AppSettings, AppSettingsView, SettingsError};
use crate::text::{
    decimal, decimal_reads_back, opt_text, parse_u32, trim, trimmed, u32_of, u64_text,
};

verus! {

/// Shown once settings were saved.
pub const SAVED_MESSAGE: &'static str = "저장되었습니다.";

/// Shown where the width of the canvas is no number.
pub const WIDTH_MESSAGE: &'static str = "캔버스 너비는 숫자여야 합니다.";

/// Shown where the height of the canvas is no number.
pub const HEIGHT_MESSAGE: &'static str = "캔버스 높이는 숫자여야 합니다.";

/// Shown where the canvas has no size.
pub const SIZE_MESSAGE: &'static str = "캔버스 크기는 0보다 커야 합니다.";

/// What the panel asks for.
#[derive(Debug)]
pub enum SettingsAction {
    Nothing,
    /// To save these settings.
    Save(AppSettings),
}

/// What is typed into the panel.
#[derive(Debug)]
pub struct SettingsDraft {
    pub cms_base_url: String,
    pub device_id: String,
    pub ntp_server: String,
    pub canvas_width: String,
    pub canvas_height: String,
    pub settings_button_transparent: bool,
}

/// Model of a [`SettingsDraft`].
#[verifier::ext_equal]
pub struct DraftView {
    pub cms_base_url: Seq<char>,
    pub device_id: Seq<char>,
    pub ntp_server: Seq<char>,
    pub canvas_width: Seq<char>,
    pub canvas_height: Seq<char>,
    pub settings_button_transparent: bool,
}

impl View for SettingsDraft {
    type V = DraftView;

    open spec fn view(&self) -> DraftView {
        DraftView {
            cms_base_url: self.cms_base_url@,
            device_id: self.device_id@,
            ntp_server: self.ntp_server@,
            canvas_width: self.canvas_width@,
            canvas_height: self.canvas_height@,
            settings_button_transparent: self.settings_button_transparent,
        }
    }
}

/// The draft that settings are shown as.
pub open spec fn draft_of(settings: AppSettingsView) -> DraftView {
    DraftView {
        cms_base_url: settings.cms_base_url,
        device_id: settings.device_id,
        ntp_server: settings.ntp_server,
        canvas_width: decimal(settings.canvas_width as nat),
        canvas_height: decimal(settings.canvas_height as nat),
        settings_button_transparent: settings.settings_button_transparent,
    }
}

/// The draft that settings are shown as.
pub fn sync_draft_from_settings(settings: &AppSettings) -> (r: SettingsDraft)
    ensures
        r@ == draft_of(settings@),
{
    SettingsDraft {
        cms_base_url: settings.cms_base_url.as_str().to_owned(),
        device_id: settings.device_id.as_str().to_owned(),
        ntp_server: settings.ntp_server.as_str().to_owned(),
        canvas_width: u64_text(settings.canvas_width as u64),
        canvas_height: u64_text(settings.canvas_height as u64),
        settings_button_transparent: settings.settings_button_transparent,
    }
}

/// Settings with what was typed, where the canvas has this size.
pub open spec fn with_draft(
    base: AppSettingsView,
    draft: DraftView,
    width: u32,
    height: u32,
) -> AppSettingsView {
    AppSettingsView {
        cms_base_url: trimmed(draft.cms_base_url),
        device_id: trimmed(draft.device_id),
        ntp_server: trimmed(draft.ntp_server),
        canvas_width: width,
        canvas_height: height,
        settings_button_transparent: draft.settings_button_transparent,
        ..base
    }
}

/// What a fault of settings is reported as.
pub open spec fn fault_text(fault: SettingsError) -> Seq<char> {
    match fault {
        SettingsError::DeviceIdMissing => "device_id is required"@,
        SettingsError::CmsBaseUrlMissing => "cms_base_url is required"@,
        SettingsError::NtpServerMissing => "ntp_server is required"@,
    }
}

/// The settings that a draft makes of others, or what is wrong with it: the size of the canvas, or
/// else a value that must not be blank.
pub open spec fn settings_from(base: AppSettingsView, draft: DraftView) -> Result<
    AppSettingsView,
    Seq<char>,
> {
    match (u32_of(trimmed(draft.canvas_width)), u32_of(trimmed(draft.canvas_height))) {
        (None, _) => Err(WIDTH_MESSAGE@),
        (Some(_), None) => Err(HEIGHT_MESSAGE@),
        (Some(width), Some(height)) => if width == 0 || height == 0 {
            Err(SIZE_MESSAGE@)
        } else {
            let updated = with_draft(base, draft, width, height);
            match settings_fault(updated) {
                Some(fault) => Err(fault_text(fault)),
                None => Ok(updated),
            }
        },
    }
}

/// The settings that a draft makes of others, or what is wrong with it.
pub fn build_settings(base: &AppSettings, draft: &SettingsDraft) -> (r: Result<AppSettings, String>)
    ensures
        match r {
            Ok(updated) => settings_from(base@, draft@) == Ok::<AppSettingsView, Seq<char>>(
                updated@,
            ),
            Err(message) => settings_from(base@, draft@) == Err::<AppSettingsView, Seq<char>>(
                message@,
            ),
        },
{
    let canvas_width: u32 = match parse_u32(trim(draft.canvas_width.as_str()).as_str()) {
        Some(width) => width,
        None => {
            return Err(WIDTH_MESSAGE.to_owned());
        },
    };
    let canvas_height: u32 = match parse_u32(trim(draft.canvas_height.as_str()).as_str()) {
        Some(height) => height,
        None => {
            return Err(HEIGHT_MESSAGE.to_owned());
        },
    };
    if canvas_width == 0 || canvas_height == 0 {
        return Err(SIZE_MESSAGE.to_owned());
    }
    let mut updated: AppSettings = base.clone();
    updated.cms_base_url = trim(draft.cms_base_url.as_str());
    updated.device_id = trim(draft.device_id.as_str());
    updated.ntp_server = trim(draft.ntp_server.as_str());
    updated.canvas_width = canvas_width;
    updated.canvas_height = canvas_height;
    updated.settings_button_transparent = draft.settings_button_transparent;
    assert(updated@ =~= with_draft(base@, draft@, canvas_width, canvas_height));
    match updated.validate() {
        Ok(()) => Ok(updated),
        Err(fault) => Err(fault.message().to_owned()),
    }
}

/// Model of a [`SettingsPanel`].
#[verifier::ext_equal]
pub struct PanelView {
    pub open: bool,
    pub draft: DraftView,
    pub status: Option<Seq<char>>,
}

/// The settings panel.
#[derive(Debug)]
pub struct SettingsPanel {
    pub open: bool,
    pub draft: SettingsDraft,
    /// What is told below the fields.
    pub status: Option<String>,
}

impl View for SettingsPanel {
    type V = PanelView;

    open spec fn view(&self) -> PanelView {
        PanelView { open: self.open, draft: self.draft@, status: opt_text(self.status) }
    }
}

impl SettingsPanel {
    /// A closed panel that shows settings.
    pub fn new(settings: &AppSettings) -> (r: SettingsPanel)
        ensures
            r@ == (PanelView { open: false, draft: draft_of(settings@), status: None }),
    {
        SettingsPanel { open: false, draft: sync_draft_from_settings(settings), status: None }
    }

    /// Shows settings.
    pub fn sync_from_settings(&mut self, settings: &AppSettings)
        ensures
            final(self)@ == (PanelView { draft: draft_of(settings@), ..old(self)@ }),
    {
        self.draft = sync_draft_from_settings(settings);
    }

    /// Whether the panel is open.
    pub fn is_panel_open(&self) -> (r: bool)
        ensures
            r == self@.open,
    {
        self.open
    }

    /// Whether the panel or its button takes the pointer.
    pub fn wants_pointer(&self, settings: &AppSettings, pointer_active: bool) -> (r: bool)
        ensures
            r == (self@.open || pointer_active || !settings@.settings_button_transparent),
    {
        self.open || pointer_active || !settings.settings_button_transparent
    }

    /// Opens the panel: it shows the settings, whatever was typed before.
    pub fn open_panel(&mut self, settings: &AppSettings)
        ensures
            final(self)@ == (PanelView { open: true, draft: draft_of(settings@), status: None }),
    {
        self.open = true;
        self.status = None;
        self.draft = sync_draft_from_settings(settings);
    }

    /// Closes the panel: what was typed is dropped.
    pub fn close_panel(&mut self, settings: &AppSettings)
        ensures
            final(self)@ == (PanelView { open: false, draft: draft_of(settings@), status: None }),
    {
        self.open = false;
        self.status = None;
        self.draft = sync_draft_from_settings(settings);
    }

    /// Saves what was typed, or tells what is wrong with it.
    pub fn save(&mut self, settings: &AppSettings) -> (r: SettingsAction)
        ensures
            match settings_from(settings@, old(self)@.draft) {
                Ok(updated) => {
                    &&& r matches SettingsAction::Save(saved) && saved@ == updated
                    &&& final(self)@ == (PanelView {
                        status: Some(SAVED_MESSAGE@),
                        ..old(self)@
                    })
                },
                Err(message) => {
                    &&& r is Nothing
                    &&& final(self)@ == (PanelView { status: Some(message), ..old(self)@ })
                },
            },
    {
        match build_settings(settings, &self.draft) {
            Ok(updated) => {
                self.status = Some(SAVED_MESSAGE.to_owned());
                SettingsAction::Save(updated)
            },
            Err(message) => {
                self.status = Some(message);
                SettingsAction::Nothing
            },
        }
    }
}

/// What differs between two settings that takes effect at once.
#[derive(Debug, Clone, Copy, PartialEq, Eq, Structural)]
pub struct SettingsChange {
    pub canvas: bool,
    pub fullscreen: bool,
}

/// What differs between two settings that takes effect at once.
pub fn settings_change(before: &AppSettings, after: &AppSettings) -> (r: SettingsChange)
    ensures
        r.canvas == (before@.canvas_width != after@.canvas_width || before@.canvas_height
            != after@.canvas_height),
        r.fullscreen == (before@.fullscreen != after@.fullscreen),
{
    SettingsChange {
        canvas: before.canvas_width != after.canvas_width || before.canvas_height
            != after.canvas_height,
        fullscreen: before.fullscreen != after.fullscreen,
    }
}

/// Whether the pointer is shown: where it is wanted, or where the player does not fill the screen.
pub fn cursor_visible(panel: Option<&SettingsPanel>, settings: &AppSettings, pointer_active: bool) -> (r:
    bool)
    ensures
        r == (!settings@.fullscreen || (panel matches Some(p) && (p@.open || pointer_active
            || !settings@.settings_button_transparent))),
{
    let wanted: bool = match panel {
        Some(p) => p.wants_pointer(settings, pointer_active) || p.is_panel_open(),
        None => false,
    };
    wanted || !settings.fullscreen
}

/// Settings that are saved as they were shown stay as they are, but for space around the values that
/// can be typed.
pub proof fn an_untouched_panel_changes_nothing(settings: AppSettingsView)
    requires
        settings.canvas_width > 0,
        settings.canvas_height > 0,
        settings_fault(
            with_draft(
                settings,
                draft_of(settings),
                settings.canvas_width,
                settings.canvas_height,
            ),
        ) is None,
    ensures
        settings_from(settings, draft_of(settings)) == Ok::<AppSettingsView, Seq<char>>(
            AppSettingsView {
                cms_base_url: trimmed(settings.cms_base_url),
                device_id: trimmed(settings.device_id),
                ntp_server: trimmed(settings.ntp_server),
                ..settings
            },
        ),
{
    decimal_reads_back(settings.canvas_width);
    decimal_reads_back(settings.canvas_height);
}

/// Whatever is typed, settings that are saved can be used, and only what the panel shows differs.
pub proof fn saved_settings_are_valid(base: AppSettingsView, draft: DraftView)
    ensures
        settings_from(base, draft) matches Ok(updated) ==> {
            &&& settings_fault(updated) is None
            &&& updated.canvas_width > 0
            &&& updated.canvas_height > 0
            &&& updated == (AppSettingsView {
                cms_base_url: updated.cms_base_url,
                device_id: updated.device_id,
                ntp_server: updated.ntp_server,
                canvas_width: updated.canvas_width,
                canvas_height: updated.canvas_height,
                settings_button_transparent: updated.settings_button_transparent,
                ..base
            })
        },
{
}

/// The panel shows settings as they are, numbers in digits.
pub proof fn panels_show_the_settings(settings: AppSettingsView, draft: SettingsDraft)
    ensures
        draft_of(settings).cms_base_url == settings.cms_base_url,
        draft_of(settings).device_id == settings.device_id,
        draft_of(settings).ntp_server == settings.ntp_server,
        u32_of(draft_of(settings).canvas_width) == Some(settings.canvas_width),
        u32_of(draft_of(settings).canvas_height) == Some(settings.canvas_height),
        draft_of(settings).settings_button_transparent == settings.settings_button_transparent,
        draft@.cms_base_url == draft.cms_base_url@,
        draft@.device_id == draft.device_id@,
        draft@.ntp_server == draft.ntp_server@,
        draft@.canvas_width == draft.canvas_width@,
        draft@.canvas_height == draft.canvas_height@,
        draft@.settings_button_transparent == draft.settings_button_transparent,
{
    decimal_reads_back(settings.canvas_width);
    decimal_reads_back(settings.canvas_height);
}

/// What is saved is what was typed, each value into its own setting and without the white space
/// around it.
pub proof fn what_was_typed_is_saved(base: AppSettingsView, draft: DraftView)
    ensures
        settings_from(base, draft) matches Ok(updated) ==> {
            &&& updated.cms_base_url == trimmed(draft.cms_base_url)
            &&& updated.device_id == trimmed(draft.device_id)
            &&& updated.ntp_server == trimmed(draft.ntp_server)
            &&& u32_of(trimmed(draft.canvas_width)) == Some(updated.canvas_width)
            &&& u32_of(trimmed(draft.canvas_height)) == Some(updated.canvas_height)
            &&& updated.settings_button_transparent == draft.settings_button_transparent
        },
{
}

/// What is wrong with a draft is told for the width of the canvas before its height, and for its size
/// before the values that must not be blank.
pub proof fn drafts_are_refused_for_what_is_wrong(base: AppSettingsView, draft: DraftView)
    ensures
        ({
            let width = u32_of(trimmed(draft.canvas_width));
            let height = u32_of(trimmed(draft.canvas_height));
            let refusal = settings_from(base, draft)->Err_0;
            &&& width is None ==> settings_from(base, draft) is Err && refusal
                == "캔버스 너비는 숫자여야 합니다."@
            &&& width is Some && height is None ==> settings_from(base, draft) is Err && refusal
                == "캔버스 높이는 숫자여야 합니다."@
            &&& width is Some && height is Some && (width->0 == 0 || height->0 == 0)
                ==> settings_from(base, draft) is Err && refusal
                == "캔버스 크기는 0보다 커야 합니다."@
            &&& width is Some && height is Some && width->0 > 0 && height->0 > 0 ==> match settings_fault(
                with_draft(base, draft, width->0, height->0),
            ) {
                Some(SettingsError::DeviceIdMissing) => settings_from(base, draft) is Err && refusal
                    == "device_id is required"@,
                Some(SettingsError::CmsBaseUrlMissing) => settings_from(base, draft) is Err
                    && refusal == "cms_base_url is required"@,
                Some(SettingsError::NtpServerMissing) => settings_from(base, draft) is Err
                    && refusal == "ntp_server is required"@,
                None => settings_from(base, draft) is Ok,
            }
        }),
{
}

/// The panel is modelled by whether it is open, what is typed into it and what it tells.
pub proof fn panel_models_are_faithful(panel: SettingsPanel)
    ensures
        panel@.open == panel.open,
        panel@.draft == panel.draft@,
        panel.status matches Some(text) ==> panel@.status == Some(text@),
        panel.status is None ==> panel@.status is None,
        SAVED_MESSAGE@ == "저장되었습니다."@,
{
}
} // verus!
