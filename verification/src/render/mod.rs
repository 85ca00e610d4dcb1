//! Preparing scenes and putting them on screen.

pub mod compositor;
pub mod ffmpeg;
pub mod image;
pub mod layout;
pub mod scene;
pub mod switching;
pub mod text;
pub mod video;

pub use compositor::{DoubleBufferCompositor, SwitchResult};
pub use image::{ImageCache, RgbaBitmap};
pub use layout::{LayoutRenderer, RenderElement, RenderPlan};
pub use scene::{PreparedScene, ScenePreparer};
pub use video::{VideoDecoder, VideoFrame};
