//! From the commands of the engine to what is on screen: scenes are prepared apart from the drawing,
//! each once at a time, and what is prepared waits on the hidden layer for its time.

use vstd::prelude::*;

use super::compositor::{
    delay_fits, due, lease_of, preloaded, switch_result, switched, CompositorView,
    DoubleBufferCompositor, SwitchResult,
};
use super::scene::{PreparedScene, PreparedSceneView};
use super::video::Lease;
use crate::engine::SwitchCommand;
use crate::text::{contains_text, others_stay, remove_text, taken_out_is_gone, texts, without_first};

verus! {

/// What came of the preparation of a scene.
#[derive(Debug)]
pub enum PrepareOutcome {
    Ready { scene: PreparedScene, target_time_millis: i64 },
    Failed { scene_id: String, target_time_millis: i64, reason: String },
}

/// What is done after a preparation.
#[derive(Debug)]
pub enum OutcomeStep {
    /// The scene is on the hidden layer. The decoder of the one that was there is to be stopped and
    /// given back.
    Preloaded { scene_id: String, freed: Option<Lease> },
    /// The engine is to be told that the scene cannot be shown.
    Report { scene_id: String, reason: String },
}

/// What is done with a command of the engine.
#[derive(Debug, Clone, Copy, PartialEq, Eq, Structural)]
pub enum CommandStep {
    /// Scenes cannot be prepared yet: no more commands are looked at for now.
    Stop,
    /// The scene is being prepared already.
    Skip,
    /// The scene is to be prepared.
    Prepare,
}

/// Model of a [`SwitchCoordinator`].
#[verifier::ext_equal]
pub struct CoordinatorView {
    /// The scenes that are being prepared.
    pub preparing: Seq<Seq<char>>,
    pub compositor: CompositorView,
}

/// Takes the engine's commands to the screen.
#[derive(Debug)]
pub struct SwitchCoordinator {
    preparing: Vec<String>,
    compositor: DoubleBufferCompositor,
}

impl View for SwitchCoordinator {
    type V = CoordinatorView;

    closed spec fn view(&self) -> CoordinatorView {
        CoordinatorView { preparing: texts(self.preparing@), compositor: self.compositor@ }
    }
}

/// What is done with the command for a scene.
pub open spec fn command_step(c: CoordinatorView, can_prepare: bool, id: Seq<char>) -> CommandStep {
    if !can_prepare {
        CommandStep::Stop
    } else if c.preparing.contains(id) {
        CommandStep::Skip
    } else {
        CommandStep::Prepare
    }
}

/// The coordinator after a command for a scene.
pub open spec fn after_command(c: CoordinatorView, can_prepare: bool, id: Seq<char>) -> CoordinatorView {
    if command_step(c, can_prepare, id) is Prepare {
        CoordinatorView { preparing: c.preparing.push(id), ..c }
    } else {
        c
    }
}

/// The coordinator once a scene was prepared: it waits on the hidden layer for its time.
pub open spec fn after_ready(
    c: CoordinatorView,
    scene: PreparedSceneView,
    target: i64,
) -> CoordinatorView {
    CoordinatorView {
        preparing: without_first(c.preparing, scene.scene.scene_id),
        compositor: CompositorView {
            pending: Some(target),
            ..preloaded(c.compositor, scene)
        },
    }
}

/// The coordinator once a scene could not be prepared: what is on screen stays.
pub open spec fn after_failed(c: CoordinatorView, id: Seq<char>) -> CoordinatorView {
    CoordinatorView { preparing: without_first(c.preparing, id), ..c }
}

impl SwitchCoordinator {
    /// Nothing is being prepared, and nothing is on screen.
    pub fn new() -> (r: SwitchCoordinator)
        ensures
            r@.preparing == Seq::<Seq<char>>::empty(),
            r@.compositor.front.scene is None,
            r@.compositor.back.scene is None,
            !r@.compositor.front.visible,
            !r@.compositor.back.visible,
            r@.compositor.pending is None,
            r.front_index() == 0,
    {
        let r: SwitchCoordinator = SwitchCoordinator {
            preparing: Vec::new(),
            compositor: DoubleBufferCompositor::new(),
        };
        assert(r@.preparing =~= Seq::empty());
        r
    }

    /// Which of the two layers is the one on screen.
    pub closed spec fn front_index(self) -> int {
        self.compositor.front_index()
    }

    /// The layers.
    pub fn compositor(&self) -> (r: &DoubleBufferCompositor)
        ensures
            r@ == self@.compositor,
            r.front_index() == self.front_index(),
    {
        &self.compositor
    }

    /// What is done with a command. A scene that is being prepared is not prepared a second time.
    pub fn on_command(&mut self, can_prepare: bool, command: &SwitchCommand) -> (r: CommandStep)
        ensures
            r == command_step(old(self)@, can_prepare, command.scene@.scene_id),
            final(self)@ == after_command(old(self)@, can_prepare, command.scene@.scene_id),
            final(self).front_index() == old(self).front_index(),
    {
        if !can_prepare {
            return CommandStep::Stop;
        }
        if contains_text(&self.preparing, command.scene.scene_id.as_str()) {
            return CommandStep::Skip;
        }
        let ghost before = self@.preparing;
        self.preparing.push(command.scene.scene_id.as_str().to_owned());
        assert(self@.preparing =~= before.push(command.scene@.scene_id));
        CommandStep::Prepare
    }

    /// What is done after a preparation.
    pub fn on_outcome(&mut self, outcome: PrepareOutcome) -> (r: OutcomeStep)
        ensures
            final(self).front_index() == old(self).front_index(),
            match outcome {
                PrepareOutcome::Ready { scene, target_time_millis } => {
                    &&& final(self)@ == after_ready(old(self)@, scene@, target_time_millis)
                    &&& r matches OutcomeStep::Preloaded { scene_id, freed } && scene_id@
                        == scene@.scene.scene_id && freed == lease_of(old(self)@.compositor.back)
                },
                PrepareOutcome::Failed { scene_id, target_time_millis, reason } => {
                    &&& final(self)@ == after_failed(old(self)@, scene_id@)
                    &&& r matches OutcomeStep::Report { scene_id: id, reason: why } && id@
                        == scene_id@ && why@ == reason@
                },
            },
    {
        match outcome {
            PrepareOutcome::Ready { scene, target_time_millis } => {
                let scene_id: String = scene.scene.scene_id.as_str().to_owned();
                remove_text(&mut self.preparing, scene_id.as_str());
                let freed: Option<Lease> = self.compositor.preload(scene);
                self.compositor.switch_at(target_time_millis);
                OutcomeStep::Preloaded { scene_id, freed }
            },
            PrepareOutcome::Failed { scene_id, target_time_millis: _, reason } => {
                remove_text(&mut self.preparing, scene_id.as_str());
                OutcomeStep::Report { scene_id, reason }
            },
        }
    }

    /// Has the layers change places where that is due.
    pub fn tick(&mut self, now: i64, said: Option<bool>) -> (r: Option<(SwitchResult, Option<Lease>)>)
        requires
            delay_fits(old(self)@.compositor, now),
        ensures
            match r {
                Some((result, freed)) => {
                    &&& due(old(self)@.compositor, now, said)
                    &&& final(self)@ == (CoordinatorView {
                        compositor: switched(old(self)@.compositor),
                        ..old(self)@
                    })
                    &&& final(self).front_index() == 1 - old(self).front_index()
                    &&& result@ == switch_result(old(self)@.compositor, now)
                    &&& freed == lease_of(old(self)@.compositor.front)
                },
                None => {
                    &&& !due(old(self)@.compositor, now, said)
                    &&& *final(self) == *old(self)
                },
            },
    {
        self.compositor.tick(now, said)
    }
}

/// A scene is prepared once at a time: after a command for it, another is passed over until the
/// preparation has come to an end, and is then not.
pub proof fn scenes_are_prepared_once_at_a_time(
    c: CoordinatorView,
    id: Seq<char>,
    other: Seq<char>,
    scene: PreparedSceneView,
    target: i64,
)
    requires
        c.preparing.no_duplicates(),
    ensures
        ({
            let during = after_command(c, true, id);
            &&& during.preparing.no_duplicates()
            &&& command_step(during, true, id) is Skip
            &&& command_step(after_failed(during, id), true, id) is Prepare
            &&& scene.scene.scene_id == id ==> command_step(
                after_ready(during, scene, target),
                true,
                id,
            ) is Prepare
            &&& other != id && during.preparing.contains(other) ==> command_step(
                after_failed(during, id),
                true,
                other,
            ) is Skip
        }),
{
    let during = after_command(c, true, id);
    if !c.preparing.contains(id) {
        assert(during.preparing[c.preparing.len() as int] == id);
        assert forall|i: int, j: int|
            0 <= i < j < during.preparing.len() implies during.preparing[i]
            != during.preparing[j] by {
            if j == c.preparing.len() {
                assert(c.preparing.contains(c.preparing[i]));
            }
        }
    }
    taken_out_is_gone(during.preparing, id);
    if other != id && during.preparing.contains(other) {
        others_stay(during.preparing, id, other);
    }
}

/// A scene that could not be prepared leaves the screen, and what waits behind it, as they were. One
/// that was prepared is shown at its time.
pub proof fn failures_keep_the_screen(
    c: CoordinatorView,
    id: Seq<char>,
    scene: PreparedSceneView,
    target: i64,
)
    ensures
        after_failed(c, id).compositor == c.compositor,
        after_ready(c, scene, target).compositor.front == c.compositor.front,
        !scene.is_video ==> due(after_ready(c, scene, target).compositor, target, None),
        switched(after_ready(c, scene, target).compositor).front.scene == Some(scene),
{
}

/// A command is put off while scenes cannot be prepared, and changes nothing then. Otherwise its scene
/// is prepared unless it is being prepared; the others go on.
pub proof fn commands_have_their_scene_prepared(
    c: CoordinatorView,
    can_prepare: bool,
    id: Seq<char>,
    other: Seq<char>,
)
    ensures
        !can_prepare ==> command_step(c, can_prepare, id) is Stop && after_command(
            c,
            can_prepare,
            id,
        ) == c,
        can_prepare && c.preparing.contains(id) ==> command_step(c, can_prepare, id) is Skip
            && after_command(c, can_prepare, id) == c,
        can_prepare && !c.preparing.contains(id) ==> {
            let after = after_command(c, can_prepare, id);
            &&& command_step(c, can_prepare, id) is Prepare
            &&& after.preparing.contains(id)
            &&& other != id ==> (after.preparing.contains(other) <==> c.preparing.contains(other))
            &&& after.compositor == c.compositor
        },
{
    if can_prepare && !c.preparing.contains(id) {
        let after = after_command(c, can_prepare, id).preparing;
        assert(after[c.preparing.len() as int] == id);
        if c.preparing.contains(other) {
            let i = choose|i: int| 0 <= i < c.preparing.len() && c.preparing[i] == other;
            assert(after[i] == other);
        }
        if after.contains(other) && other != id {
            let i = choose|i: int| 0 <= i < after.len() && after[i] == other;
            assert(c.preparing[i] == other);
        }
    }
}

/// A scene that was prepared waits hidden for the time that was set for it, and nothing else waits
/// with it.
pub proof fn prepared_scenes_wait_for_their_time(
    c: CoordinatorView,
    scene: PreparedSceneView,
    target: i64,
    now: i64,
)
    requires
        delay_fits(after_ready(c, scene, target).compositor, now),
    ensures
        ({
            let after = after_ready(c, scene, target).compositor;
            &&& after.pending == Some(target)
            &&& after.back.scene == Some(scene)
            &&& !after.back.visible
            &&& switch_result(after, now).target == target
            &&& switch_result(after, now).scene_id == scene.scene.scene_id
            &&& switch_result(after, now).delay == now - target
        }),
{
}
} // verus!
