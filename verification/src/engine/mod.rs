//! The playback engine: when schedules are fetched, assets downloaded and scenes switched.
//!
//! Each part is a machine that is told what happened and says what to do next. The work itself,
//! over the network and on disk, is done elsewhere.

pub mod assets;
pub mod playback;
pub mod playback_log;
pub mod screen;
pub mod state;
pub mod sync;

pub use playback::PlaybackLoop;
pub use screen::PlaybackEngine;
pub use state::{EngineEvent, EngineState, StateMachine, SwitchCommand};
