//! The playback timeline: which scene is on screen at which time.

pub mod auction;
pub mod builder;
pub mod calendar;
pub mod expand;
pub mod laws;
pub mod layouts;
pub mod models;
pub mod overlay;
pub mod query;
pub mod rtb;
pub mod scenes;
pub mod slots;

pub use builder::TimelineBuilder;
pub use models::{
    AssetRef, LayoutDefinition, LayoutElement, PlaybackScene, PlaybackTimeline, RtbSceneMetadata,
    TrackingEvent, TrackingUrl,
};
