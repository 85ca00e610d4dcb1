//! The playback loop: which scene is prepared next, and when it is switched to.
//!
//! A scene is prepared twelve seconds before it starts, a video eight. Nothing is downloaded at
//! that time: a scene whose assets are missing is not switched to. A scene that should be on but is
//! not is switched to at once, and again every five seconds until it is on.

use vstd::prelude::*;

use crate::config::{
    MIN_PLAYBACK_LOOP_DELAY_MS, NO_SCENE_RETRY_MS, SCENE_PREPARE_WINDOW_MS, VIDEO_PREROLL_WINDOW_MS,
};
use crate::text::{contains_text, same_text, texts};
use crate::timeline::auction::one_by_one;
use crate::timeline::models::SceneView;
use crate::timeline::query::{index_after, index_at};
use crate::timeline::{PlaybackScene, PlaybackTimeline};

verus! {

/// A scene to be switched to.
#[derive(Debug, Clone, Copy, PartialEq, Eq, Structural)]
pub struct Plan {
    /// The scene's index in the timeline.
    pub index: usize,
    /// Whether what replaces the scene is shown in its place.
    pub fallback: bool,
    /// Milliseconds since the epoch.
    pub target: i64,
}

/// Where the loop stands.
#[derive(Debug, Clone, Copy, PartialEq, Eq, Structural)]
pub enum LoopPhase {
    /// Looking for the next scene.
    Select,
    /// Waiting to hear whether the assets of a scene are there.
    Assets(Plan),
    /// Waiting for a scene's turn to be sent.
    Preroll(Plan),
    /// Waiting to hear whether a scene was sent.
    Sending(Plan),
    /// Over.
    Stopped,
}

/// What the loop asks for.
#[derive(Debug, Clone, Copy, PartialEq, Eq, Structural)]
pub enum LoopAction {
    /// The loop is over.
    Stop,
    /// There is no scene ahead: report it, and wake the loop after this time.
    Idle(i64),
    /// Wake the loop after this time.
    Sleep(i64),
    /// Say whether the assets of the scene are there.
    CheckAssets(Plan),
    /// The assets of an auctioned scene are missing: its slot has failed. Wake the loop.
    DisableSlot(usize),
    /// Report that the scene is being prepared, and come back after this time.
    Prepare(Plan, i64),
    /// Send the scene to be switched to, and say whether that went well.
    Send(Plan),
    /// The scene was sent. Wake the loop after this time.
    Play(i64),
}

/// A scene that was sent.
#[derive(Debug)]
pub struct Dispatch {
    pub scene_id: String,
    pub end: i64,
    /// The time it was last meant to be on from.
    pub tried_at: i64,
}

/// Model of a [`Dispatch`].
#[verifier::ext_equal]
pub struct DispatchView {
    pub scene_id: Seq<char>,
    pub end: i64,
    pub tried_at: i64,
}

impl View for Dispatch {
    type V = DispatchView;

    open spec fn view(&self) -> DispatchView {
        DispatchView { scene_id: self.scene_id@, end: self.end, tried_at: self.tried_at }
    }
}

/// The models of a list of sent scenes.
pub open spec fn dispatch_views(list: Seq<Dispatch>) -> Seq<DispatchView> {
    Seq::new(list.len(), |i: int| list[i]@)
}

/// How long to wait until `at`: at least the least delay.
pub open spec fn wait_until(at: int, now: int) -> i64 {
    if at - now < MIN_PLAYBACK_LOOP_DELAY_MS {
        MIN_PLAYBACK_LOOP_DELAY_MS
    } else if at - now > i64::MAX {
        i64::MAX
    } else {
        (at - now) as i64
    }
}

fn delay_until(at: i128, now: i64) -> (r: i64)
    requires
        -0x1_0000_0000_0000_0000 <= at <= 0x1_0000_0000_0000_0000,
    ensures
        r == wait_until(at as int, now as int),
{
    let delay: i128 = at - now as i128;
    if delay < MIN_PLAYBACK_LOOP_DELAY_MS as i128 {
        MIN_PLAYBACK_LOOP_DELAY_MS
    } else if delay > i64::MAX as i128 {
        i64::MAX
    } else {
        delay as i64
    }
}

/// The smaller of two times.
pub open spec fn earlier(a: int, b: int) -> int {
    if a <= b {
        a
    } else {
        b
    }
}

/// When the scene that follows `scene` in the timeline has to be prepared.
pub open spec fn following_prepare(scenes: Seq<SceneView>, scene: SceneView) -> Option<int> {
    match index_after(scenes, scene.start as int) {
        Some(i) => Some(scenes[i].start - SCENE_PREPARE_WINDOW_MS),
        None => None,
    }
}

/// When to look again once `scene` has been sent: when the one that follows has to be prepared, or
/// right before the scene ends where none follows.
pub open spec fn wake_after(scenes: Seq<SceneView>, scene: SceneView, now: int) -> int {
    match following_prepare(scenes, scene) {
        Some(at) => at,
        None => {
            let end_at = scene.end - MIN_PLAYBACK_LOOP_DELAY_MS;
            let soon = now + MIN_PLAYBACK_LOOP_DELAY_MS;
            if end_at >= soon {
                end_at
            } else {
                soon
            }
        },
    }
}

fn next_wake_at(timeline: &PlaybackTimeline, scene: &PlaybackScene, now: i64) -> (r: i128)
    ensures
        r == wake_after(timeline@.scenes, scene@, now as int),
        i64::MIN - 60_000 <= r <= i64::MAX + 60_000,
{
    match timeline.next_scene(scene.start_time_millis) {
        Some(following) => following.start_time_millis as i128 - SCENE_PREPARE_WINDOW_MS as i128,
        None => {
            let end_at: i128 = scene.end_time_millis as i128 - MIN_PLAYBACK_LOOP_DELAY_MS as i128;
            let soon: i128 = now as i128 + MIN_PLAYBACK_LOOP_DELAY_MS as i128;
            if end_at >= soon {
                end_at
            } else {
                soon
            }
        },
    }
}

/// Whether a scene stands for itself, is replaced, or cannot be shown at all: an auctioned scene
/// whose slot has failed is replaced by its fallback.
pub open spec fn effective(scene: SceneView, failed: Seq<Seq<char>>) -> Option<bool> {
    if scene.rtb matches Some(rtb) && failed.contains(rtb.slot_id) {
        if scene.fallback is Some {
            Some(true)
        } else {
            None
        }
    } else {
        Some(false)
    }
}

fn effective_scene(scene: &PlaybackScene, failed: &Vec<String>) -> (r: Option<bool>)
    ensures
        r == effective(scene@, texts(failed@)),
{
    match &scene.rtb {
        Some(rtb) => if contains_text(failed, rtb.slot_id.as_str()) {
            if scene.fallback_scene.is_some() {
                Some(true)
            } else {
                None
            }
        } else {
            Some(false)
        },
        None => Some(false),
    }
}

/// The scene of the timeline, or what replaces it.
pub open spec fn resolved(scene: SceneView, fallback: bool) -> SceneView {
    if fallback && scene.fallback is Some {
        *(scene.fallback->0)
    } else {
        scene
    }
}

fn resolve(scene: &PlaybackScene, fallback: bool) -> (r: &PlaybackScene)
    ensures
        r@ == resolved(scene@, fallback),
{
    if fallback {
        match &scene.fallback_scene {
            Some(f) => &**f,
            None => scene,
        }
    } else {
        scene
    }
}

/// The scene that a plan is about.
pub open spec fn planned(scenes: Seq<SceneView>, plan: Plan) -> SceneView {
    resolved(scenes[plan.index as int], plan.fallback)
}

/// What is known of a scene that was sent; the last entry counts.
pub open spec fn dispatch_of(list: Seq<DispatchView>, scene_id: Seq<char>) -> Option<DispatchView>
    decreases list.len(),
{
    if list.len() == 0 {
        None
    } else if list.last().scene_id == scene_id {
        Some(list.last())
    } else {
        dispatch_of(list.drop_last(), scene_id)
    }
}

fn find_dispatch(list: &Vec<Dispatch>, scene_id: &str) -> (r: Option<i64>)
    ensures
        match r {
            Some(tried_at) => dispatch_of(dispatch_views(list@), scene_id@) matches Some(d)
                && d.tried_at == tried_at,
            None => dispatch_of(dispatch_views(list@), scene_id@) is None,
        },
{
    let ghost views = dispatch_views(list@);
    let mut i: usize = list.len();
    assert(views.take(i as int) =~= views);
    while i > 0
        invariant
            i <= list@.len(),
            views == dispatch_views(list@),
            dispatch_of(views, scene_id@) == dispatch_of(views.take(i as int), scene_id@),
        decreases i,
    {
        assert(views.take(i as int).drop_last() =~= views.take(i - 1));
        assert(views[i - 1] == list@[i - 1]@);
        if same_text(list[i - 1].scene_id.as_str(), scene_id) {
            return Some(list[i - 1].tried_at);
        }
        i = i - 1;
    }
    None
}

/// The sent scenes that are not over.
pub open spec fn still_running(list: Seq<DispatchView>, now: int) -> Seq<DispatchView>
    decreases list.len(),
{
    if list.len() == 0 {
        Seq::empty()
    } else if list.last().end > now {
        still_running(list.drop_last(), now).push(list.last())
    } else {
        still_running(list.drop_last(), now)
    }
}

/// Model of a [`PlaybackLoop`].
#[verifier::ext_equal]
pub struct LoopView {
    pub generation: u64,
    pub phase: LoopPhase,
    pub dispatched: Seq<DispatchView>,
}

/// What the loop is told when it wakes.
#[verifier::ext_equal]
pub struct WakeView {
    pub now: i64,
    pub generation: u64,
    pub shown: Option<Seq<char>>,
    pub failed: Seq<Seq<char>>,
}

/// What the loop is told when it wakes.
#[derive(Debug)]
pub struct Wake {
    pub now: i64,
    /// The generation of the loop that is wanted.
    pub generation: u64,
    /// The scene that is on screen.
    pub shown: Option<String>,
    /// The auctioned slots that have failed.
    pub failed: Vec<String>,
}

impl View for Wake {
    type V = WakeView;

    open spec fn view(&self) -> WakeView {
        WakeView {
            now: self.now,
            generation: self.generation,
            shown: crate::text::opt_text(self.shown),
            failed: texts(self.failed@),
        }
    }
}

/// Whether a scene should be on by now, is not, and was not tried within the last five seconds.
pub open spec fn overdue(
    dispatched: Seq<DispatchView>,
    scene_id: Seq<char>,
    wake: WakeView,
) -> bool {
    wake.shown != Some(scene_id) && (dispatch_of(dispatched, scene_id) matches Some(d) ==> wake.now
        - d.tried_at >= NO_SCENE_RETRY_MS)
}

/// The scene that should be on, where it has to be switched to at once.
pub open spec fn recovery(
    scenes: Seq<SceneView>,
    dispatched: Seq<DispatchView>,
    wake: WakeView,
) -> Option<Plan> {
    match index_at(scenes, wake.now as int) {
        Some(i) => match effective(scenes[i], wake.failed) {
            Some(fallback) => if overdue(
                dispatched,
                resolved(scenes[i], fallback).scene_id,
                wake,
            ) {
                Some(Plan { index: i as usize, fallback, target: wake.now })
            } else {
                None
            },
            None => None,
        },
        None => None,
    }
}

/// Whether the scene that should be on is.
pub open spec fn settled(scenes: Seq<SceneView>, wake: WakeView) -> bool {
    match index_at(scenes, wake.now as int) {
        Some(i) => match effective(scenes[i], wake.failed) {
            Some(fallback) => wake.shown == Some(resolved(scenes[i], fallback).scene_id),
            None => true,
        },
        None => true,
    }
}

/// A delay, cut to the time between two tries while the scene that should be on is not.
pub open spec fn patient(scenes: Seq<SceneView>, wake: WakeView, delay: i64) -> i64 {
    if settled(scenes, wake) || delay <= NO_SCENE_RETRY_MS {
        delay
    } else {
        NO_SCENE_RETRY_MS
    }
}

/// What the loop does about the next scene.
pub open spec fn upcoming(
    scenes: Seq<SceneView>,
    dispatched: Seq<DispatchView>,
    wake: WakeView,
) -> (LoopPhase, LoopAction) {
    match index_after(scenes, wake.now as int) {
        None => (LoopPhase::Select, LoopAction::Idle(NO_SCENE_RETRY_MS)),
        Some(i) => {
            let now = wake.now as int;
            match effective(scenes[i], wake.failed) {
                None => (
                    LoopPhase::Select,
                    LoopAction::Sleep(
                        patient(
                            scenes,
                            wake,
                            wait_until(wake_after(scenes, scenes[i], now), now),
                        ),
                    ),
                ),
                Some(fallback) => {
                    let scene = resolved(scenes[i], fallback);
                    let prepare_at = scene.start - SCENE_PREPARE_WINDOW_MS;
                    if dispatch_of(dispatched, scene.scene_id) is Some {
                        (
                            LoopPhase::Select,
                            LoopAction::Sleep(
                                patient(
                                    scenes,
                                    wake,
                                    wait_until(
                                        earlier(
                                            wake_after(scenes, scene, now),
                                            scene.start + NO_SCENE_RETRY_MS,
                                        ),
                                        now,
                                    ),
                                ),
                            ),
                        )
                    } else if now < prepare_at {
                        (
                            LoopPhase::Select,
                            LoopAction::Sleep(patient(scenes, wake, wait_until(prepare_at, now))),
                        )
                    } else {
                        let plan = Plan { index: i as usize, fallback, target: scene.start };
                        (LoopPhase::Assets(plan), LoopAction::CheckAssets(plan))
                    }
                },
            }
        },
    }
}

/// What the loop does when it wakes.
pub open spec fn woken(state: LoopView, scenes: Seq<SceneView>, wake: WakeView) -> (
    LoopView,
    LoopAction,
) {
    let dispatched = still_running(state.dispatched, wake.now as int);
    if wake.generation != state.generation {
        (LoopView { phase: LoopPhase::Stopped, ..state }, LoopAction::Stop)
    } else {
        match recovery(scenes, dispatched, wake) {
            Some(plan) => (
                LoopView { phase: LoopPhase::Assets(plan), dispatched, ..state },
                LoopAction::CheckAssets(plan),
            ),
            None => {
                let next = upcoming(scenes, dispatched, wake);
                (LoopView { phase: next.0, dispatched, ..state }, next.1)
            },
        }
    }
}

/// What the loop does when it hears whether the assets of a scene are there.
pub open spec fn assets_known(
    state: LoopView,
    plan: Plan,
    scenes: Seq<SceneView>,
    ready: bool,
    now: int,
) -> (LoopView, LoopAction) {
    let scene = planned(scenes, plan);
    if !ready {
        (
            LoopView { phase: LoopPhase::Select, ..state },
            if scene.rtb is Some {
                LoopAction::DisableSlot(plan.index)
            } else {
                LoopAction::Sleep(NO_SCENE_RETRY_MS)
            },
        )
    } else {
        let preroll_at = plan.target - VIDEO_PREROLL_WINDOW_MS;
        let delay = if scene.video() && now < preroll_at {
            wait_until(preroll_at, now)
        } else {
            0
        };
        (
            LoopView { phase: LoopPhase::Preroll(plan), ..state },
            LoopAction::Prepare(plan, delay),
        )
    }
}

/// What the loop does when it hears whether a scene was sent.
pub open spec fn sending_known(
    state: LoopView,
    plan: Plan,
    scenes: Seq<SceneView>,
    sent: bool,
    now: int,
) -> (LoopView, LoopAction) {
    let scene = planned(scenes, plan);
    if !sent {
        (LoopView { phase: LoopPhase::Stopped, ..state }, LoopAction::Stop)
    } else {
        let wake_at = earlier(
            wake_after(scenes, scene, now),
            plan.target + NO_SCENE_RETRY_MS,
        );
        (
            LoopView {
                phase: LoopPhase::Select,
                dispatched: state.dispatched.push(
                    DispatchView { scene_id: scene.scene_id, end: scene.end, tried_at: plan.target },
                ),
                ..state
            },
            LoopAction::Play(
                if wake_at > now {
                    wait_until(wake_at, now)
                } else {
                    0
                },
            ),
        )
    }
}

/// The playback loop of one timeline.
#[derive(Debug)]
pub struct PlaybackLoop {
    generation: u64,
    phase: LoopPhase,
    dispatched: Vec<Dispatch>,
}

impl View for PlaybackLoop {
    type V = LoopView;

    closed spec fn view(&self) -> LoopView {
        LoopView {
            generation: self.generation,
            phase: self.phase,
            dispatched: dispatch_views(self.dispatched@),
        }
    }
}

impl PlaybackLoop {
    /// A loop of this generation that has sent nothing.
    pub fn new(generation: u64) -> (r: PlaybackLoop)
        ensures
            r@ == (LoopView { generation, phase: LoopPhase::Select, dispatched: Seq::empty() }),
    {
        let r: PlaybackLoop = PlaybackLoop {
            generation,
            phase: LoopPhase::Select,
            dispatched: Vec::new(),
        };
        assert(r@.dispatched =~= Seq::empty());
        r
    }

    /// Where the loop stands.
    pub fn phase(&self) -> (r: LoopPhase)
        ensures
            r == self@.phase,
    {
        self.phase
    }

    fn forget_finished(&mut self, now: i64)
        ensures
            final(self)@ == (LoopView {
                dispatched: still_running(old(self)@.dispatched, now as int),
                ..old(self)@
            }),
    {
        let ghost views = dispatch_views(self.dispatched@);
        let mut kept: Vec<Dispatch> = Vec::new();
        let mut i: usize = 0;
        assert(dispatch_views(kept@) =~= still_running(views.take(0), now as int));
        while i < self.dispatched.len()
            invariant
                i <= self.dispatched@.len(),
                views == dispatch_views(self.dispatched@),
                dispatch_views(kept@) == still_running(views.take(i as int), now as int),
            decreases self.dispatched@.len() - i,
        {
            let ghost before = dispatch_views(kept@);
            let d: &Dispatch = &self.dispatched[i];
            proof {
                assert(views.take(i + 1).drop_last() =~= views.take(i as int));
                assert(views[i as int] == d@);
            }
            if d.end > now {
                kept.push(
                    Dispatch { scene_id: d.scene_id.clone(), end: d.end, tried_at: d.tried_at },
                );
                assert(dispatch_views(kept@) =~= before.push(d@));
            }
            i = i + 1;
        }
        assert(views.take(i as int) =~= views);
        self.dispatched = kept;
    }

    fn recovery_plan(&self, timeline: &PlaybackTimeline, wake: &Wake) -> (r: Option<Plan>)
        ensures
            r == recovery(timeline@.scenes, self@.dispatched, wake@),
            r matches Some(plan) ==> plan.index < timeline.scenes@.len(),
    {
        match timeline.find_scene_index(wake.now) {
            Some(i) => {
                let scene: &PlaybackScene = &timeline.scenes[i];
                assert(timeline@.scenes[i as int] == scene@);
                match effective_scene(scene, &wake.failed) {
                    Some(fallback) => {
                        let target: &PlaybackScene = resolve(scene, fallback);
                        let shown: bool = match &wake.shown {
                            Some(id) => same_text(id.as_str(), target.scene_id.as_str()),
                            None => false,
                        };
                        let recent: bool = match find_dispatch(
                            &self.dispatched,
                            target.scene_id.as_str(),
                        ) {
                            Some(tried_at) => (wake.now as i128 - tried_at as i128)
                                < NO_SCENE_RETRY_MS as i128,
                            None => false,
                        };
                        if !shown && !recent {
                            Some(Plan { index: i, fallback, target: wake.now })
                        } else {
                            None
                        }
                    },
                    None => None,
                }
            },
            None => None,
        }
    }

    /// Wakes a loop that is looking for the next scene.
    pub fn on_wake(&mut self, timeline: &PlaybackTimeline, wake: &Wake) -> (r: LoopAction)
        requires
            old(self)@.phase == LoopPhase::Select,
        ensures
            (final(self)@, r) == woken(old(self)@, timeline@.scenes, wake@),
            final(self)@.phase matches LoopPhase::Assets(plan) ==> plan.index
                < timeline.scenes@.len(),
    {
        if wake.generation != self.generation {
            self.phase = LoopPhase::Stopped;
            return LoopAction::Stop;
        }
        self.forget_finished(wake.now);
        match self.recovery_plan(timeline, wake) {
            Some(plan) => {
                self.phase = LoopPhase::Assets(plan);
                return LoopAction::CheckAssets(plan);
            },
            None => {},
        }
        let next: (LoopPhase, LoopAction) = self.next_scene_step(timeline, wake);
        self.phase = next.0;
        next.1
    }

    fn next_scene_step(&self, timeline: &PlaybackTimeline, wake: &Wake) -> (r: (
        LoopPhase,
        LoopAction,
    ))
        ensures
            r == upcoming(timeline@.scenes, self@.dispatched, wake@),
            r.0 matches LoopPhase::Assets(plan) ==> plan.index < timeline.scenes@.len(),
    {
        let index: usize = match timeline.next_scene_index(wake.now) {
            Some(i) => i,
            None => {
                return (LoopPhase::Select, LoopAction::Idle(NO_SCENE_RETRY_MS));
            },
        };
        let scene: &PlaybackScene = &timeline.scenes[index];
        assert(timeline@.scenes[index as int] == scene@);
        let fallback: bool = match effective_scene(scene, &wake.failed) {
            Some(fallback) => fallback,
            None => {
                let delay: i64 = delay_until(next_wake_at(timeline, scene, wake.now), wake.now);
                return (LoopPhase::Select, LoopAction::Sleep(shorten(timeline, wake, delay)));
            },
        };
        let target: &PlaybackScene = resolve(scene, fallback);
        if find_dispatch(&self.dispatched, target.scene_id.as_str()).is_some() {
            let wake_at: i128 = next_wake_at(timeline, target, wake.now);
            let check_at: i128 = target.start_time_millis as i128 + NO_SCENE_RETRY_MS as i128;
            let delay: i64 = delay_until(
                if wake_at <= check_at {
                    wake_at
                } else {
                    check_at
                },
                wake.now,
            );
            return (LoopPhase::Select, LoopAction::Sleep(shorten(timeline, wake, delay)));
        }
        let prepare_at: i128 = target.start_time_millis as i128 - SCENE_PREPARE_WINDOW_MS as i128;
        if (wake.now as i128) < prepare_at {
            let delay: i64 = delay_until(prepare_at, wake.now);
            return (LoopPhase::Select, LoopAction::Sleep(shorten(timeline, wake, delay)));
        }
        let plan: Plan = Plan { index, fallback, target: target.start_time_millis };
        (LoopPhase::Assets(plan), LoopAction::CheckAssets(plan))
    }

    /// Tells a loop that waits for it whether the assets of the scene are there.
    pub fn on_assets(&mut self, timeline: &PlaybackTimeline, ready: bool, now: i64) -> (r: LoopAction)
        requires
            old(self)@.phase matches LoopPhase::Assets(plan) && plan.index < timeline.scenes@.len(),
        ensures
            (final(self)@, r) == assets_known(
                old(self)@,
                old(self)@.phase->Assets_0,
                timeline@.scenes,
                ready,
                now as int,
            ),
    {
        let plan: Plan = match self.phase {
            LoopPhase::Assets(plan) => plan,
            _ => {
                return LoopAction::Stop;
            },
        };
        let listed: &PlaybackScene = &timeline.scenes[plan.index];
        assert(timeline@.scenes[plan.index as int] == listed@);
        let scene: &PlaybackScene = resolve(listed, plan.fallback);
        if !ready {
            self.phase = LoopPhase::Select;
            return if scene.rtb.is_some() {
                LoopAction::DisableSlot(plan.index)
            } else {
                LoopAction::Sleep(NO_SCENE_RETRY_MS)
            };
        }
        let preroll_at: i128 = plan.target as i128 - VIDEO_PREROLL_WINDOW_MS as i128;
        let delay: i64 = if scene.has_video() && (now as i128) < preroll_at {
            delay_until(preroll_at, now)
        } else {
            0
        };
        self.phase = LoopPhase::Preroll(plan);
        LoopAction::Prepare(plan, delay)
    }

    /// Tells a loop that waits for it that the scene's turn has come.
    pub fn on_prerolled(&mut self) -> (r: LoopAction)
        requires
            old(self)@.phase is Preroll,
        ensures
            final(self)@ == (LoopView {
                phase: LoopPhase::Sending(old(self)@.phase->Preroll_0),
                ..old(self)@
            }),
            r == LoopAction::Send(old(self)@.phase->Preroll_0),
    {
        match self.phase {
            LoopPhase::Preroll(plan) => {
                self.phase = LoopPhase::Sending(plan);
                LoopAction::Send(plan)
            },
            _ => LoopAction::Stop,
        }
    }

    /// Tells a loop that waits for it whether the scene was sent.
    pub fn on_sent(&mut self, timeline: &PlaybackTimeline, sent: bool, now: i64) -> (r: LoopAction)
        requires
            old(self)@.phase matches LoopPhase::Sending(plan) && plan.index < timeline.scenes@.len(),
        ensures
            (final(self)@, r) == sending_known(
                old(self)@,
                old(self)@.phase->Sending_0,
                timeline@.scenes,
                sent,
                now as int,
            ),
    {
        let plan: Plan = match self.phase {
            LoopPhase::Sending(plan) => plan,
            _ => {
                return LoopAction::Stop;
            },
        };
        if !sent {
            self.phase = LoopPhase::Stopped;
            return LoopAction::Stop;
        }
        let listed: &PlaybackScene = &timeline.scenes[plan.index];
        assert(timeline@.scenes[plan.index as int] == listed@);
        let scene: &PlaybackScene = resolve(listed, plan.fallback);
        let ghost before = self@.dispatched;
        let entry: Dispatch = Dispatch {
            scene_id: scene.scene_id.clone(),
            end: scene.end_time_millis,
            tried_at: plan.target,
        };
        let ghost view = entry@;
        self.dispatched.push(entry);
        assert(dispatch_views(self.dispatched@) =~= before.push(view));
        let wake_at: i128 = next_wake_at(timeline, scene, now);
        let check_at: i128 = plan.target as i128 + NO_SCENE_RETRY_MS as i128;
        let at: i128 = if wake_at <= check_at {
            wake_at
        } else {
            check_at
        };
        self.phase = LoopPhase::Select;
        LoopAction::Play(
            if at > now as i128 {
                delay_until(at, now)
            } else {
                0
            },
        )
    }
}

fn is_settled(timeline: &PlaybackTimeline, wake: &Wake) -> (r: bool)
    ensures
        r == settled(timeline@.scenes, wake@),
{
    match timeline.find_scene_index(wake.now) {
        Some(i) => {
            let scene: &PlaybackScene = &timeline.scenes[i];
            assert(timeline@.scenes[i as int] == scene@);
            match effective_scene(scene, &wake.failed) {
                Some(fallback) => {
                    let target: &PlaybackScene = resolve(scene, fallback);
                    match &wake.shown {
                        Some(id) => same_text(id.as_str(), target.scene_id.as_str()),
                        None => false,
                    }
                },
                None => true,
            }
        },
        None => true,
    }
}

fn shorten(timeline: &PlaybackTimeline, wake: &Wake, delay: i64) -> (r: i64)
    ensures
        r == patient(timeline@.scenes, wake@, delay),
{
    if delay <= NO_SCENE_RETRY_MS || is_settled(timeline, wake) {
        delay
    } else {
        NO_SCENE_RETRY_MS
    }
}

/// A loop never plans a scene too early, nor one that it has sent: what it plans is either the next
/// scene, at its own start, not before the time to prepare it and not sent so far, or the scene that
/// should be on and is not, at once, and not within five seconds of the last try.
pub proof fn plans_are_timely(state: LoopView, scenes: Seq<SceneView>, wake: WakeView)
    requires
        scenes.len() <= usize::MAX,
        woken(state, scenes, wake).1 is CheckAssets,
    ensures
        ({
            let plan = woken(state, scenes, wake).1->CheckAssets_0;
            let scene = planned(scenes, plan);
            let dispatched = still_running(state.dispatched, wake.now as int);
            &&& wake.generation == state.generation
            &&& woken(state, scenes, wake).0.phase == LoopPhase::Assets(plan)
            &&& ({
                ||| plan.target == scene.start && wake.now >= scene.start - SCENE_PREPARE_WINDOW_MS
                    && dispatch_of(dispatched, scene.scene_id) is None
                ||| plan.target == wake.now && overdue(dispatched, scene.scene_id, wake)
                    && index_at(scenes, wake.now as int) == Some(plan.index as int)
            })
        }),
{
    lemma_indices(scenes, wake.now as int);
}

proof fn lemma_indices(scenes: Seq<SceneView>, now: int)
    requires
        scenes.len() <= usize::MAX,
    ensures
        index_at(scenes, now) matches Some(i) ==> 0 <= i < scenes.len(),
        index_after(scenes, now) matches Some(i) ==> 0 <= i < scenes.len(),
{
    crate::timeline::query::next_scene_follows_the_current(scenes, now);
    crate::timeline::query::bisection_stays_within(scenes, now);
}

/// A loop that is told to sleep sleeps at least for the least delay, and no longer than five seconds
/// while the scene that should be on is not. It is idle only where no scene is ahead.
pub proof fn sleep_is_bounded(state: LoopView, scenes: Seq<SceneView>, wake: WakeView)
    ensures
        woken(state, scenes, wake).1 matches LoopAction::Sleep(millis) ==> {
            &&& millis >= MIN_PLAYBACK_LOOP_DELAY_MS
            &&& !settled(scenes, wake) ==> millis <= NO_SCENE_RETRY_MS
        },
        woken(state, scenes, wake).1 matches LoopAction::Idle(millis) ==> {
            &&& millis == NO_SCENE_RETRY_MS
            &&& index_after(scenes, wake.now as int) is None
        },
{
}

/// A loop of a generation that is no longer wanted stops, and sends nothing.
pub proof fn stale_loops_stop(state: LoopView, scenes: Seq<SceneView>, wake: WakeView)
    requires
        wake.generation != state.generation,
    ensures
        woken(state, scenes, wake) == (
            LoopView { phase: LoopPhase::Stopped, ..state },
            LoopAction::Stop,
        ),
{
}

/// A scene whose assets are missing is not prepared, let alone sent: an auctioned one gives up its
/// slot, another one is looked at again after five seconds.
pub proof fn missing_assets_hold_a_scene_back(
    state: LoopView,
    plan: Plan,
    scenes: Seq<SceneView>,
    now: int,
)
    ensures
        ({
            let r = assets_known(state, plan, scenes, false, now);
            &&& r.0 == (LoopView { phase: LoopPhase::Select, ..state })
            &&& r.1 == if planned(scenes, plan).rtb is Some {
                LoopAction::DisableSlot(plan.index)
            } else {
                LoopAction::Sleep(NO_SCENE_RETRY_MS)
            }
        }),
{
}

/// Once an auctioned slot has failed, its scenes are never planned: what replaces them is.
pub proof fn failed_slots_are_replaced(state: LoopView, scenes: Seq<SceneView>, wake: WakeView)
    requires
        woken(state, scenes, wake).1 is CheckAssets,
        scenes.len() <= usize::MAX,
    ensures
        ({
            let plan = woken(state, scenes, wake).1->CheckAssets_0;
            let scene = scenes[plan.index as int];
            (scene.rtb matches Some(rtb) && wake.failed.contains(rtb.slot_id)) ==> plan.fallback
                && scene.fallback is Some && planned(scenes, plan) == *(scene.fallback->0)
        }),
{
    lemma_indices(scenes, wake.now as int);
}

proof fn lemma_still_running(list: Seq<DispatchView>, now: int)
    ensures
        still_running(list, now).len() <= list.len(),
        forall|d: DispatchView|
            still_running(list, now).contains(d) <==> #[trigger] list.contains(d) && d.end > now,
    decreases list.len(),
{
    if list.len() > 0 {
        let shorter = list.drop_last();
        lemma_still_running(shorter, now);
        let kept = still_running(shorter, now);
        assert forall|d: DispatchView|
            still_running(list, now).contains(d) <==> #[trigger] list.contains(d) && d.end > now by {
            if list.contains(d) {
                let i = choose|i: int| 0 <= i < list.len() && list[i] == d;
                if i < shorter.len() {
                    assert(shorter[i] == d);
                    assert(shorter.contains(d));
                }
            }
            if shorter.contains(d) {
                let i = choose|i: int| 0 <= i < shorter.len() && shorter[i] == d;
                assert(list[i] == d);
            }
            if list.last().end > now {
                let out = kept.push(list.last());
                assert(out[out.len() - 1] == list.last());
                if kept.contains(d) {
                    let i = choose|i: int| 0 <= i < kept.len() && kept[i] == d;
                    assert(out[i] == d);
                }
                if out.contains(d) {
                    let i = choose|i: int| 0 <= i < out.len() && out[i] == d;
                    if i < kept.len() {
                        assert(kept[i] == d);
                    }
                }
            }
        }
    }
}

/// What a loop remembers of the scenes that it sent does not grow for ever: when it wakes, it
/// forgets those that are over, and no others.
pub proof fn sent_scenes_are_forgotten(state: LoopView, scenes: Seq<SceneView>, wake: WakeView)
    requires
        wake.generation == state.generation,
    ensures
        forall|d: DispatchView|
            woken(state, scenes, wake).0.dispatched.contains(d) <==> #[trigger] state.dispatched.contains(
                d,
            ) && d.end > wake.now,
{
    lemma_still_running(state.dispatched, wake.now as int);
}

/// Once its files are there, a scene is sent ahead of its target. A video whose target is more than
/// eight seconds ahead is sent eight seconds before it, or after the least delay of fifty
/// milliseconds where that is later; a video whose target is nearer, and a scene without video, is
/// sent at once.
pub proof fn videos_are_sent_eight_seconds_ahead(
    state: LoopView,
    plan: Plan,
    scenes: Seq<SceneView>,
    now: i64,
)
    ensures
        ({
            let r = assets_known(state, plan, scenes, true, now as int);
            let scene = if plan.fallback && scenes[plan.index as int].fallback is Some {
                *(scenes[plan.index as int].fallback->0)
            } else {
                scenes[plan.index as int]
            };
            &&& r.0 == (LoopView { phase: LoopPhase::Preroll(plan), ..state })
            &&& r.1 matches LoopAction::Prepare(sent, delay) && {
                &&& sent == plan
                &&& scene.video() && plan.target - 8_000 >= now + 50 && plan.target - now
                    <= i64::MAX ==> now + delay == plan.target - 8_000
                &&& scene.video() && now < plan.target - 8_000 < now + 50 ==> delay == 50
                &&& scene.video() && plan.target - 8_000 <= now ==> delay == 0
                &&& !scene.video() ==> delay == 0
            }
        }),
{
}

/// A scene that was sent is remembered with its end and the time it was meant for. The loop looks
/// again five seconds after that time, or twelve seconds before the next scene starts where that is
/// earlier, and not sooner than after the least delay. A scene that could not be sent ends the loop.
pub proof fn the_loop_looks_again_in_time(
    state: LoopView,
    plan: Plan,
    scenes: Seq<SceneView>,
    now: i64,
)
    requires
        0 <= plan.index < scenes.len(),
    ensures
        sending_known(state, plan, scenes, false, now as int) == (
            LoopView { phase: LoopPhase::Stopped, ..state },
            LoopAction::Stop,
        ),
        ({
            let r = sending_known(state, plan, scenes, true, now as int);
            let scene = if plan.fallback && scenes[plan.index as int].fallback is Some {
                *(scenes[plan.index as int].fallback->0)
            } else {
                scenes[plan.index as int]
            };
            &&& r.0.phase == LoopPhase::Select
            &&& r.0.generation == state.generation
            &&& r.0.dispatched.len() == state.dispatched.len() + 1
            &&& r.0.dispatched.drop_last() == state.dispatched
            &&& r.0.dispatched.last().scene_id == scene.scene_id
            &&& r.0.dispatched.last().end == scene.end
            &&& r.0.dispatched.last().tried_at == plan.target
            &&& r.1 matches LoopAction::Play(delay) && {
                &&& delay == 0 || delay >= 50
                &&& plan.target + 5_000 >= now + 50 ==> now + delay <= plan.target + 5_000
                &&& plan.target + 5_000 <= now ==> delay == 0
                &&& forall|i: int|
                    0 <= i < scenes.len() && (#[trigger] scenes[i]).start > scene.start && (
                    forall|j: int| 0 <= j < i ==> (#[trigger] scenes[j]).start <= scene.start) ==> {
                        &&& scenes[i].start - 12_000 >= now + 50 ==> now + delay <= scenes[i].start
                            - 12_000
                        &&& scenes[i].start - 12_000 <= now ==> delay == 0
                        &&& now + 50 <= scenes[i].start - 12_000 <= plan.target + 5_000
                            && scenes[i].start - now <= i64::MAX ==> now + delay
                            == scenes[i].start - 12_000
                        &&& now + 50 <= plan.target + 5_000 <= scenes[i].start - 12_000
                            && plan.target + 5_000 - now <= i64::MAX ==> now + delay == plan.target
                            + 5_000
                    }
                &&& (forall|j: int|
                    0 <= j < scenes.len() ==> (#[trigger] scenes[j]).start <= scene.start)
                    && scene.end - 50 >= now + 50 && scene.end - now <= i64::MAX && scene.end - 50
                    <= plan.target + 5_000 ==> now + delay == scene.end - 50
            }
        }),
{
    let scene = planned(scenes, plan);
    crate::timeline::query::next_scene_follows_the_current(scenes, scene.start as int);
    let r = sending_known(state, plan, scenes, true, now as int);
    assert(r.0.dispatched.drop_last() =~= state.dispatched);
    assert forall|i: int|
        0 <= i < scenes.len() && (#[trigger] scenes[i]).start > scene.start && (forall|j: int|
            0 <= j < i ==> (#[trigger] scenes[j]).start <= scene.start) implies index_after(
        scenes,
        scene.start as int,
    ) == Some(i) by {
        let k = index_after(scenes, scene.start as int)->0;
        if k < i {
            assert(scenes[k].start <= scene.start);
        } else if i < k {
            assert(scenes[i].start <= scene.start);
        }
    }
    if forall|j: int| 0 <= j < scenes.len() ==> (#[trigger] scenes[j]).start <= scene.start {
        if let Some(k) = index_after(scenes, scene.start as int) {
            assert(scenes[k].start <= scene.start);
        }
    }
}

proof fn lemma_not_sent(list: Seq<DispatchView>, id: Seq<char>)
    ensures
        dispatch_of(list, id) is Some <==> exists|i: int|
            0 <= i < list.len() && (#[trigger] list[i]).scene_id == id,
        dispatch_of(list, id) matches Some(d) ==> list.contains(d) && d.scene_id == id,
    decreases list.len(),
{
    if list.len() > 0 {
        let shorter = list.drop_last();
        lemma_not_sent(shorter, id);
        if list.last().scene_id == id {
            assert(list[list.len() - 1].scene_id == id);
        } else {
            if exists|i: int| 0 <= i < list.len() && (#[trigger] list[i]).scene_id == id {
                let i = choose|i: int| 0 <= i < list.len() && (#[trigger] list[i]).scene_id == id;
                assert(shorter[i] == list[i]);
            }
            if let Some(d) = dispatch_of(shorter, id) {
                assert(shorter.contains(d));
                let i = choose|i: int| 0 <= i < shorter.len() && shorter[i] == d;
                assert(list[i] == d);
            }
        }
    }
}

proof fn lemma_not_running(list: Seq<DispatchView>, now: int, id: Seq<char>)
    requires
        forall|i: int|
            0 <= i < list.len() && (#[trigger] list[i]).scene_id == id ==> list[i].end <= now,
    ensures
        dispatch_of(still_running(list, now), id) is None,
{
    let kept = still_running(list, now);
    lemma_not_sent(kept, id);
    lemma_still_running(list, now);
    if let Some(d) = dispatch_of(kept, id) {
        assert(kept.contains(d));
        assert(list.contains(d));
        let i = choose|i: int| 0 <= i < list.len() && list[i] == d;
        assert(list[i].scene_id == id);
    }
}

/// A scene that should be on, is not on screen and was never sent is switched to at once: its files
/// are asked for, and its target is now.
pub proof fn a_missing_scene_is_switched_to_at_once(
    state: LoopView,
    scenes: Seq<SceneView>,
    wake: WakeView,
    k: int,
)
    requires
        wake.generation == state.generation,
        one_by_one(scenes),
        scenes.len() <= usize::MAX,
        0 <= k < scenes.len(),
        scenes[k].start <= wake.now < scenes[k].end,
        scenes[k].rtb is None,
        wake.shown != Some(scenes[k].scene_id),
        forall|i: int|
            0 <= i < state.dispatched.len() && (#[trigger] state.dispatched[i]).scene_id
                == scenes[k].scene_id ==> state.dispatched[i].end <= wake.now,
    ensures
        woken(state, scenes, wake).1 == LoopAction::CheckAssets(
            Plan { index: k as usize, fallback: false, target: wake.now },
        ),
        woken(state, scenes, wake).0.phase == LoopPhase::Assets(
            Plan { index: k as usize, fallback: false, target: wake.now },
        ),
{
    crate::timeline::query::bisection_finds_the_current_scene(scenes, wake.now as int, k);
    lemma_not_running(state.dispatched, wake.now as int, scenes[k].scene_id);
}

/// While a scene should be on and is not, it is tried again as soon as five seconds have passed since
/// the last try, and not before.
pub proof fn a_missing_scene_is_tried_every_five_seconds(
    state: LoopView,
    scenes: Seq<SceneView>,
    wake: WakeView,
    k: int,
    sent: int,
)
    requires
        wake.generation == state.generation,
        one_by_one(scenes),
        scenes.len() <= usize::MAX,
        0 <= k < scenes.len(),
        scenes[k].start <= wake.now < scenes[k].end,
        scenes[k].rtb is None,
        wake.shown != Some(scenes[k].scene_id),
        0 <= sent < state.dispatched.len(),
        state.dispatched[sent].scene_id == scenes[k].scene_id,
        state.dispatched[sent].end > wake.now,
        forall|i: int|
            0 <= i < state.dispatched.len() && (#[trigger] state.dispatched[i]).scene_id
                == scenes[k].scene_id ==> state.dispatched[i].tried_at
                == state.dispatched[sent].tried_at,
    ensures
        wake.now - state.dispatched[sent].tried_at >= 5_000 ==> woken(state, scenes, wake).1
            == LoopAction::CheckAssets(
            Plan { index: k as usize, fallback: false, target: wake.now },
        ),
        wake.now - state.dispatched[sent].tried_at < 5_000 ==> woken(state, scenes, wake).1
            != LoopAction::CheckAssets(
            Plan { index: k as usize, fallback: false, target: wake.now },
        ),
{
    let list = state.dispatched;
    let id = scenes[k].scene_id;
    let kept = still_running(list, wake.now as int);
    crate::timeline::query::bisection_finds_the_current_scene(scenes, wake.now as int, k);
    crate::timeline::query::next_scene_follows_the_current(scenes, wake.now as int);
    lemma_still_running(list, wake.now as int);
    lemma_not_sent(kept, id);
    assert(list.contains(list[sent]));
    assert(kept.contains(list[sent]));
    let i = choose|i: int| 0 <= i < kept.len() && kept[i] == list[sent];
    assert(kept[i].scene_id == id);
    let d = dispatch_of(kept, id)->0;
    assert(kept.contains(d));
    assert(list.contains(d));
    let j = choose|j: int| 0 <= j < list.len() && list[j] == d;
    assert(list[j].scene_id == id);
}

/// Where the scene that should be on is on screen, or none should be, the loop sleeps until twelve
/// seconds before the next scene that it has not sent; from then on it asks for the scene's files,
/// for the scene's own start.
pub proof fn the_next_scene_is_prepared_twelve_seconds_ahead(
    state: LoopView,
    scenes: Seq<SceneView>,
    wake: WakeView,
    next: int,
)
    requires
        wake.generation == state.generation,
        one_by_one(scenes),
        scenes.len() <= usize::MAX,
        0 <= next < scenes.len(),
        wake.now < scenes[next].start,
        forall|j: int| 0 <= j < next ==> (#[trigger] scenes[j]).start <= wake.now,
        scenes[next].rtb is None,
        forall|j: int|
            0 <= j < scenes.len() && (#[trigger] scenes[j]).start <= wake.now < scenes[j].end ==> {
                &&& scenes[j].rtb is None
                &&& wake.shown == Some(scenes[j].scene_id)
            },
        forall|i: int|
            0 <= i < state.dispatched.len() ==> (#[trigger] state.dispatched[i]).scene_id
                != scenes[next].scene_id,
    ensures
        scenes[next].start - 12_000 <= wake.now ==> woken(state, scenes, wake).1
            == LoopAction::CheckAssets(
            Plan { index: next as usize, fallback: false, target: scenes[next].start },
        ),
        wake.now < scenes[next].start - 12_000 ==> {
            &&& woken(state, scenes, wake).0.phase == LoopPhase::Select
            &&& woken(state, scenes, wake).1 matches LoopAction::Sleep(delay) && {
                &&& delay >= 50
                &&& wake.now + 50 <= scenes[next].start - 12_000 && scenes[next].start - wake.now
                    <= i64::MAX ==> wake.now + delay == scenes[next].start - 12_000
            }
        },
{
    let now = wake.now as int;
    crate::timeline::query::next_scene_follows_the_current(scenes, now);
    crate::timeline::query::bisection_stays_within(scenes, now);
    let i = index_after(scenes, now)->0;
    if i < next {
        assert(scenes[i].start <= wake.now);
    } else if next < i {
        assert(scenes[next].start <= wake.now);
    }
    assert(index_after(scenes, now) == Some(next));
    if let Some(j) = index_at(scenes, now) {
        assert(scenes[j].start <= wake.now < scenes[j].end);
    }
    lemma_not_running(state.dispatched, now, scenes[next].scene_id);
}

/// What the loop is told, and what it has sent, is modelled field by field.
pub proof fn loop_models_are_faithful(wake: Wake, sent: Seq<Dispatch>)
    ensures
        wake@.now == wake.now,
        wake@.generation == wake.generation,
        wake.shown matches Some(id) ==> wake@.shown == Some(id@),
        wake.shown is None ==> wake@.shown is None,
        wake@.failed.len() == wake.failed@.len(),
        forall|i: int|
            0 <= i < wake.failed@.len() ==> #[trigger] wake@.failed[i] == wake.failed@[i]@,
        dispatch_views(sent).len() == sent.len(),
        forall|i: int|
            0 <= i < sent.len() ==> {
                let d = #[trigger] dispatch_views(sent)[i];
                &&& d.scene_id == sent[i].scene_id@
                &&& d.end == sent[i].end
                &&& d.tried_at == sent[i].tried_at
            },
{
}
} // verus!
