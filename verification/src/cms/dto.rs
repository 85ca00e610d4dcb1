//! The answers of the content management system.

use vstd::prelude::*;

verus! {

/// The envelope of a `play_data` answer.
#[derive(Debug, Clone)]
pub struct PlaybackDataResponse {
    pub message: String,
    pub data: PlaybackDataDto,
}

/// The schedule of one day.
#[derive(Debug, Clone)]
pub struct PlaybackDataDto {
    /// Version of the answer's format; absent before slots were auctioned.
    pub api_version: Option<String>,
    pub device_id: String,
    /// The day that the slots belong to (`YYYY-MM-DD`).
    pub date: String,
    pub revision: String,
    pub contact_ip: Option<String>,
    pub server_time: Option<String>,
    pub generated_at: Option<String>,
    pub timezone: Option<String>,
    pub slots: Vec<PlaybackSlotDto>,
    pub assets: Vec<PlaybackAssetDto>,
    /// Slots that were sold in an auction and take precedence over `slots`.
    pub rtb_slots: Vec<RtbSlotDto>,
    /// Emergency programming, kept as the JSON text that came.
    pub override_data: Option<String>,
}

/// What is known of a file.
#[derive(Debug, Clone)]
pub struct PlaybackAssetDto {
    pub file_id: i64,
    pub revision: Option<String>,
    pub download_url: String,
    pub mime_type: Option<String>,
    pub size_bytes: Option<i64>,
    pub checksum: Option<String>,
}

/// A part of the day and the items that play in it.
#[derive(Debug, Clone)]
pub struct PlaybackSlotDto {
    /// `HH:MM:SS`.
    pub start_time: String,
    /// `HH:MM:SS`; not later than the start where the slot runs past midnight.
    pub end_time: String,
    pub schedule_id: i64,
    pub playlist_id: i64,
    pub playlist_name: Option<String>,
    pub items: Vec<PlaybackItemDto>,
}

/// One piece of content in a slot.
#[derive(Debug, Clone)]
pub struct PlaybackItemDto {
    pub id: i64,
    pub playlist_id: i64,
    /// The item's turn within the slot.
    pub position: i32,
    pub item_type: String,
    pub ref_id: i64,
    /// Seconds on screen; 0 where `playback_data` or the layout says it.
    pub duration_seconds: i64,
    pub transition: Option<String>,
    pub loop_playback: bool,
    pub layout: Option<LayoutDto>,
    pub playback_data: Option<PlaybackItemDataDto>,
    pub playback_data_b64: Option<String>,
    pub file_downloads: Vec<FileDownloadDto>,
}

impl PlaybackItemDto {
    /// Whether the item or its playback settings ask for looping.
    pub open spec fn loops(self) -> bool {
        self.loop_playback || match self.playback_data {
            Some(d) => d.loop_playback == Some(true),
            None => false,
        }
    }

    /// Whether the item or its playback settings ask for looping.
    pub fn loop_enabled(&self) -> (r: bool)
        ensures
            r == self.loops(),
    {
        if self.loop_playback {
            return true;
        }
        match &self.playback_data {
            Some(d) => match d.loop_playback {
                Some(b) => b,
                None => false,
            },
            None => false,
        }
    }
}

/// Playback settings within an item.
#[derive(Debug, Clone)]
pub struct PlaybackItemDataDto {
    pub duration: Option<i64>,
    pub transition: Option<String>,
    pub loop_playback: Option<bool>,
}

/// Where an item's file is downloaded from.
#[derive(Debug, Clone)]
pub struct FileDownloadDto {
    pub file_id: i64,
    pub download_url: String,
    pub revision: Option<String>,
    pub mime_type: Option<String>,
    pub size_bytes: Option<i64>,
    pub checksum: Option<String>,
}

/// How a screen is composed.
#[derive(Debug, Clone)]
pub struct LayoutDto {
    pub id: i64,
    pub name: String,
    pub group_name: Option<String>,
    pub width: i32,
    pub height: i32,
    pub layout: Vec<LayoutElementDto>,
    pub default_duration: Option<i64>,
}

/// One element of a layout.
#[derive(Debug, Clone)]
pub struct LayoutElementDto {
    pub id: String,
    pub x: i32,
    pub y: i32,
    pub width: i32,
    pub height: i32,
    pub element_type: String,
    pub lock: bool,
    pub keep_aspect_ratio: bool,
    pub file_id: Option<i64>,
    pub content_group_id: Option<i64>,
    pub content_id: Option<i64>,
    pub duration_type: Option<String>,
    pub url_address: Option<String>,
    pub content: Option<String>,
    pub font: Option<String>,
    pub font_size: Option<i32>,
    pub bold: bool,
    pub italic: bool,
    pub underline: bool,
    pub strikethrough: bool,
    pub background_color: Option<String>,
    pub text_color: Option<String>,
    pub border_color: Option<String>,
    pub border_width: Option<i32>,
    pub z_index: Option<i32>,
}

/// A part of the day that was sold in an auction: `[start_time, end_time)`.
#[derive(Debug, Clone)]
pub struct RtbSlotDto {
    pub id: String,
    /// `HH:MM:SS`.
    pub start_time: String,
    /// `HH:MM:SS`; not later than the start where the slot runs past midnight.
    pub end_time: String,
    pub request_id: Option<String>,
    pub currency: Option<String>,
    pub items: Vec<RtbItemDto>,
}

/// One bid that was won.
#[derive(Debug, Clone)]
pub struct RtbItemDto {
    /// The item's turn within the slot.
    pub position: i32,
    pub bid_id: String,
    pub imp_id: String,
    pub ad_id: String,
    pub creative_id: String,
    /// The price, as the bits of a double.
    pub price: Option<u64>,
    pub expires_in_seconds: Option<i64>,
    pub asset: RtbAssetDto,
    pub tracking: Vec<TrackingUrlDto>,
}

/// The single asset of a bid.
#[derive(Debug, Clone)]
pub struct RtbAssetDto {
    pub asset_type: String,
    pub mime_type: String,
    pub download_url: String,
    pub width: i32,
    pub height: i32,
    pub duration_seconds: i64,
    pub size_bytes: Option<i64>,
    pub checksum: Option<String>,
}

/// A URL to call at an event.
#[derive(Debug, Clone)]
pub struct TrackingUrlDto {
    pub event: String,
    pub url: String,
}

} // verus!
