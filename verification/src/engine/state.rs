//! The states of the engine, and what it reports.

use vstd::prelude::*;

use crate::timeline::PlaybackScene;

verus! {

/// What the engine is doing.
#[derive(Debug, Clone, Copy, PartialEq, Eq, Structural)]
pub enum EngineState {
    /// Not started.
    Idle,
    /// Setting the clock and fetching the schedule.
    Syncing,
    /// Downloading assets.
    Downloading,
    /// Preparing a scene.
    Preparing,
    /// Prepared, waiting for the switch.
    Ready,
    /// Showing a scene.
    Playing,
    /// Failed; the next sync tries again.
    Error,
}

/// What the engine reports.
#[derive(Debug)]
pub enum EngineEvent {
    StateChanged(EngineState),
    TimelineUpdated { revision: String, scene_count: usize },
    ScenePrepared { scene_id: String, target_time_millis: i64 },
    SceneSwitched {
        scene_id: String,
        target_time_millis: i64,
        actual_time_millis: i64,
        delay_millis: i64,
    },
    SwitchFailed { scene_id: String, reason: String },
    Error(String),
    Status(String),
}

/// The command to put a scene on screen.
#[derive(Debug)]
pub struct SwitchCommand {
    pub scene: PlaybackScene,
    /// Milliseconds since the epoch.
    pub target_time_millis: i64,
    /// The file of each file id that the scene refers to.
    pub local_files: Vec<(i64, String)>,
}

/// Keeps the state of the engine and reports changes of it.
#[derive(Debug)]
pub struct StateMachine {
    state: EngineState,
}

impl StateMachine {
    /// The state.
    pub closed spec fn current(self) -> EngineState {
        self.state
    }

    /// An engine that has not been started.
    pub fn new() -> (r: StateMachine)
        ensures
            r.current() == EngineState::Idle,
    {
        StateMachine { state: EngineState::Idle }
    }

    /// The state.
    pub fn state(&self) -> (r: EngineState)
        ensures
            r == self.current(),
    {
        self.state
    }

    /// Changes the state, and reports it where it was another.
    pub fn set_state(&mut self, next: EngineState) -> (r: Option<EngineEvent>)
        ensures
            final(self).current() == next,
            old(self).current() == next ==> r is None,
            old(self).current() != next ==> r == Some(EngineEvent::StateChanged(next)),
    {
        if self.state != next {
            self.state = next;
            Some(EngineEvent::StateChanged(next))
        } else {
            None
        }
    }
}

} // verus!
