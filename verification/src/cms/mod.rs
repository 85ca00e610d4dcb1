//! The content management system: what it sends, and how it is asked.

pub mod client;
mod dto;

pub use client::{CmsApiClient, PlaybackLogExtra, PlaybackLogItem};
pub use dto::{
    FileDownloadDto, LayoutDto, LayoutElementDto, PlaybackAssetDto, PlaybackDataDto,
    PlaybackDataResponse, PlaybackItemDataDto, PlaybackItemDto, PlaybackSlotDto, RtbAssetDto,
    RtbItemDto, RtbSlotDto, TrackingUrlDto,
};
