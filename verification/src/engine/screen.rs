//! What the engine does when a scene came on screen, or could not be put there.

use vstd::prelude::*;

use super::playback_log::{
    log_scene_of, ActiveLogView, ActivePlaybackLog, PlaybackLogScene,
};
use super::state::{EngineEvent, SwitchCommand};
use crate::render::layout::{file_of, file_views};
use crate::text::{opt_text, same_text};
use crate::timeline::models::{RtbSceneMetadataView, SceneView};
use crate::timeline::{PlaybackScene, PlaybackTimeline, RtbSceneMetadata};
use crate::tracking::was_completed;

verus! {

/// An advertisement that is on screen.
#[derive(Debug)]
pub struct ActiveAd {
    pub metadata: RtbSceneMetadata,
    pub scene_id: String,
    /// When it really came on screen: milliseconds since the epoch.
    pub started_millis: i64,
    pub duration_millis: i64,
}

/// Model of an [`ActiveAd`].
#[verifier::ext_equal]
pub struct ActiveAdView {
    pub metadata: RtbSceneMetadataView,
    pub scene_id: Seq<char>,
    pub started: i64,
    pub duration: i64,
}

impl View for ActiveAd {
    type V = ActiveAdView;

    open spec fn view(&self) -> ActiveAdView {
        ActiveAdView {
            metadata: self.metadata@,
            scene_id: self.scene_id@,
            started: self.started_millis,
            duration: self.duration_millis,
        }
    }
}

/// Model of a [`PlaybackEngine`].
#[verifier::ext_equal]
pub struct EngineView {
    pub last_switched: Option<Seq<char>>,
    pub log: Option<ActiveLogView>,
    pub ad: Option<ActiveAdView>,
    pub generation: u64,
    pub shutting_down: bool,
}

/// What the engine knows of the screen.
#[derive(Debug)]
pub struct PlaybackEngine {
    /// The scene that came on screen last.
    last_switched: Option<String>,
    log: Option<ActivePlaybackLog>,
    ad: Option<ActiveAd>,
    /// The number of the playback loop that may send scenes.
    generation: u64,
    shutting_down: bool,
}

impl View for PlaybackEngine {
    type V = EngineView;

    closed spec fn view(&self) -> EngineView {
        EngineView {
            last_switched: opt_text(self.last_switched),
            log: match self.log {
                Some(log) => Some(log@),
                None => None,
            },
            ad: match self.ad {
                Some(ad) => Some(ad@),
                None => None,
            },
            generation: self.generation,
            shutting_down: self.shutting_down,
        }
    }
}

/// Whether the log that is open is that of `scene`.
pub open spec fn same_log(log: Option<ActiveLogView>, scene: SceneView) -> bool {
    match (log, log_scene_of(scene)) {
        (Some(open), Some(next)) => open.scene.scene_id == next.scene_id,
        _ => false,
    }
}

/// Whether the advertisement on screen is `scene`.
pub open spec fn same_ad(ad: Option<ActiveAdView>, scene: SceneView) -> bool {
    match (ad, scene.rtb) {
        (Some(shown), Some(_)) => shown.scene_id == scene.scene_id,
        _ => false,
    }
}

/// The engine once a scene came on screen at `actual`. A scene that was there already goes on.
pub open spec fn after_switch(engine: EngineView, scene: SceneView, actual: i64) -> EngineView {
    EngineView {
        last_switched: Some(scene.scene_id),
        log: if same_log(engine.log, scene) {
            engine.log
        } else {
            match log_scene_of(scene) {
                Some(next) => Some(ActiveLogView { scene: next, started_at: actual }),
                None => None,
            }
        },
        ad: if same_ad(engine.ad, scene) {
            engine.ad
        } else {
            match scene.rtb {
                Some(metadata) => Some(
                    ActiveAdView {
                        metadata,
                        scene_id: scene.scene_id,
                        started: actual,
                        duration: (scene.end - scene.start) as i64,
                    },
                ),
                None => None,
            }
        },
        ..engine
    }
}

/// The log that ends when a scene comes on screen.
pub open spec fn ended_log(engine: EngineView, scene: SceneView) -> Option<ActiveLogView> {
    if same_log(engine.log, scene) {
        None
    } else {
        engine.log
    }
}

/// The advertisement that leaves the screen when a scene comes on.
pub open spec fn ended_ad(engine: EngineView, scene: SceneView) -> Option<ActiveAdView> {
    if same_ad(engine.ad, scene) {
        None
    } else {
        engine.ad
    }
}

/// What follows from a scene having come on screen.
#[derive(Debug)]
pub struct SwitchReport {
    pub event: EngineEvent,
    /// The playback that ended, and whether it was one to its end.
    pub ended: Option<(ActivePlaybackLog, bool)>,
    /// The advertisement that left the screen, and whether it was seen to its end. The reports that
    /// were still to come of it are called off.
    pub ended_ad: Option<(ActiveAd, bool)>,
    /// Whether the reports of an advertisement start.
    pub ad_started: bool,
}

/// What follows from a scene not having come on screen.
#[derive(Debug)]
pub struct FailureReport {
    pub event: EngineEvent,
    /// The slot of the auction that has failed.
    pub failed_slot: Option<String>,
    /// What is put on screen instead, at the same time.
    pub fallback: Option<PlaybackScene>,
}

/// The scene of this id, from the `from`th on.
pub open spec fn scene_called(scenes: Seq<SceneView>, id: Seq<char>, from: int) -> Option<int>
    decreases scenes.len() - from,
{
    if from >= scenes.len() {
        None
    } else if scenes[from].scene_id == id {
        Some(from)
    } else {
        scene_called(scenes, id, from + 1)
    }
}

/// The auctioned scene of this id.
pub open spec fn auctioned_called(scenes: Seq<SceneView>, id: Seq<char>) -> Option<SceneView> {
    match scene_called(scenes, id, 0) {
        Some(i) => if scenes[i].rtb is Some {
            Some(scenes[i])
        } else {
            None
        },
        None => None,
    }
}

impl PlaybackEngine {
    /// Nothing has been on screen.
    pub fn new() -> (r: PlaybackEngine)
        ensures
            r@ == (EngineView {
                last_switched: None,
                log: None,
                ad: None,
                generation: 0,
                shutting_down: false,
            }),
    {
        PlaybackEngine {
            last_switched: None,
            log: None,
            ad: None,
            generation: 0,
            shutting_down: false,
        }
    }

    /// The scene that came on screen last.
    pub fn last_switched(&self) -> (r: &Option<String>)
        ensures
            opt_text(*r) == self@.last_switched,
    {
        &self.last_switched
    }

    /// The number of the playback loop that may send scenes.
    pub fn generation(&self) -> (r: u64)
        ensures
            r == self@.generation,
    {
        self.generation
    }

    /// Starts a new playback loop: the one before ends when it finds that its number is no longer
    /// the current one.
    pub fn next_generation(&mut self) -> (r: u64)
        ensures
            r == final(self)@.generation,
            r == (old(self)@.generation + 1) % 0x1_0000_0000_0000_0000,
            final(self)@ == (EngineView { generation: r, ..old(self)@ }),
    {
        self.generation = self.generation.wrapping_add(1);
        self.generation
    }

    /// Begins to shut down, once: no playback loop may send scenes, and the reports of an
    /// advertisement are called off.
    pub fn begin_shutdown(&mut self) -> (r: bool)
        ensures
            r == !old(self)@.shutting_down,
            r ==> final(self)@ == (EngineView {
                ad: None,
                generation: ((old(self)@.generation + 1) % 0x1_0000_0000_0000_0000) as u64,
                shutting_down: true,
                ..old(self)@
            }),
            !r ==> final(self)@ == old(self)@,
    {
        if self.shutting_down {
            return false;
        }
        self.shutting_down = true;
        self.generation = self.generation.wrapping_add(1);
        self.ad = None;
        true
    }

    /// Notes that a scene came on screen. The log of the one before ends; it is one of a whole
    /// playback where the scene was on until its end. Where the scene is an advertisement, its
    /// reports start, counted from when it really came on.
    pub fn on_scene_switched(
        &mut self,
        scene: &PlaybackScene,
        target_time_millis: i64,
        actual_time_millis: i64,
    ) -> (r: SwitchReport)
        requires
            i64::MIN <= actual_time_millis - target_time_millis <= i64::MAX,
            i64::MIN <= scene.end_time_millis - scene.start_time_millis <= i64::MAX,
        ensures
            final(self)@ == after_switch(old(self)@, scene@, actual_time_millis),
            r.event matches EngineEvent::SceneSwitched {
                scene_id,
                target_time_millis: target,
                actual_time_millis: actual,
                delay_millis,
            } && scene_id@ == scene@.scene_id && target == target_time_millis && actual
                == actual_time_millis && delay_millis == actual_time_millis - target_time_millis,
            match r.ended {
                Some((log, completed)) => ended_log(old(self)@, scene@) == Some(log@) && completed
                    == (actual_time_millis >= log@.scene.end),
                None => ended_log(old(self)@, scene@) is None,
            },
            match r.ended_ad {
                Some((ad, completed)) => ended_ad(old(self)@, scene@) == Some(ad@) && completed == (
                actual_time_millis - ad@.started >= ad@.duration),
                None => ended_ad(old(self)@, scene@) is None,
            },
            r.ad_started == (scene@.rtb is Some && !same_ad(old(self)@.ad, scene@)),
    {
        let ghost before = self@;
        let event: EngineEvent = EngineEvent::SceneSwitched {
            scene_id: scene.scene_id.as_str().to_owned(),
            target_time_millis,
            actual_time_millis,
            delay_millis: actual_time_millis - target_time_millis,
        };
        let next_log: Option<PlaybackLogScene> = PlaybackLogScene::from_scene(scene);
        let keep_log: bool = match (&self.log, &next_log) {
            (Some(open), Some(next)) => same_text(open.scene_id(), next.scene_id.as_str()),
            _ => false,
        };
        assert(keep_log == same_log(before.log, scene@));
        let mut ended: Option<(ActivePlaybackLog, bool)> = None;
        if !keep_log {
            let mut log: Option<ActivePlaybackLog> = match next_log {
                Some(next) => Some(ActivePlaybackLog::new(next, actual_time_millis)),
                None => None,
            };
            std::mem::swap(&mut log, &mut self.log);
            ended =
            match log {
                Some(open) => {
                    let completed: bool = actual_time_millis >= open.end_time_millis();
                    Some((open, completed))
                },
                None => None,
            };
        }
        let keep_ad: bool = match (&self.ad, &scene.rtb) {
            (Some(shown), Some(_)) => same_text(shown.scene_id.as_str(), scene.scene_id.as_str()),
            _ => false,
        };
        assert(keep_ad == same_ad(before.ad, scene@));
        let mut ended_ad: Option<(ActiveAd, bool)> = None;
        if !keep_ad {
            let mut ad: Option<ActiveAd> = match &scene.rtb {
                Some(metadata) => Some(
                    ActiveAd {
                        metadata: metadata.clone(),
                        scene_id: scene.scene_id.as_str().to_owned(),
                        started_millis: actual_time_millis,
                        duration_millis: scene.duration_ms(),
                    },
                ),
                None => None,
            };
            std::mem::swap(&mut ad, &mut self.ad);
            ended_ad =
            match ad {
                Some(shown) => {
                    let completed: bool = was_completed(
                        shown.started_millis,
                        actual_time_millis,
                        shown.duration_millis,
                    );
                    Some((shown, completed))
                },
                None => None,
            };
        }
        self.last_switched = Some(scene.scene_id.as_str().to_owned());
        let ad_started: bool = scene.rtb.is_some() && !keep_ad;
        assert(self@ =~= after_switch(before, scene@, actual_time_millis));
        SwitchReport { event, ended, ended_ad, ad_started }
    }
}

/// What follows from a scene not having come on screen. What is on screen stays; where the scene is
/// an auctioned one, its slot has failed, and what it took the place of is put on screen instead.
pub fn on_switch_failed(timeline: &PlaybackTimeline, scene_id: &str, reason: &str) -> (r:
    FailureReport)
    ensures
        r.event matches EngineEvent::SwitchFailed { scene_id: id, reason: why } && id@ == scene_id@
            && why@ == reason@,
        match auctioned_called(timeline@.scenes, scene_id@) {
            Some(scene) => {
                &&& opt_text(r.failed_slot) == Some(scene.rtb->0.slot_id)
                &&& match r.fallback {
                    Some(fallback) => scene.fallback == Some(Box::new(fallback@)),
                    None => scene.fallback is None,
                }
            },
            None => r.failed_slot is None && r.fallback is None,
        },
{
    let event: EngineEvent = EngineEvent::SwitchFailed {
        scene_id: scene_id.to_owned(),
        reason: reason.to_owned(),
    };
    let ghost views = timeline@.scenes;
    let count: usize = timeline.scenes.len();
    let mut i: usize = 0;
    while i < count
        invariant
            count == timeline.scenes@.len(),
            i <= count,
            views == timeline@.scenes,
            event matches EngineEvent::SwitchFailed { scene_id: id, reason: why } && id@
                == scene_id@ && why@ == reason@,
            scene_called(views, scene_id@, 0) == scene_called(views, scene_id@, i as int),
        decreases count - i,
    {
        let scene: &PlaybackScene = &timeline.scenes[i];
        assert(views[i as int] == scene@);
        if same_text(scene.scene_id.as_str(), scene_id) {
            return match &scene.rtb {
                Some(metadata) => {
                    let fallback: Option<PlaybackScene> = match &scene.fallback_scene {
                        Some(f) => {
                            let copy: PlaybackScene = (&**f).clone();
                            assert(scene@.fallback == Some(Box::new(f@)));
                            Some(copy)
                        },
                        None => None,
                    };
                    FailureReport {
                        event,
                        failed_slot: Some(metadata.slot_id.as_str().to_owned()),
                        fallback,
                    }
                },
                None => FailureReport { event, failed_slot: None, fallback: None },
            };
        }
        i = i + 1;
    }
    FailureReport { event, failed_slot: None, fallback: None }
}

/// The files of the assets of a scene, by id.
pub open spec fn files_of(scene: SceneView, paths: Seq<Seq<char>>) -> Seq<(i64, Seq<char>)> {
    Seq::new(scene.asset_refs.len(), |i: int| (scene.asset_refs[i].file_id, paths[i]))
}

/// The command to put a scene on screen, with the file of each of its assets.
pub fn switch_command(scene: &PlaybackScene, target_time_millis: i64, paths: Vec<String>) -> (r:
    SwitchCommand)
    requires
        paths@.len() == scene.asset_refs@.len(),
    ensures
        r.scene@ == scene@,
        r.target_time_millis == target_time_millis,
        file_views(r.local_files@) == files_of(scene@, crate::text::texts(paths@)),
        r.local_files@.len() == scene.asset_refs@.len(),
        forall|i: int|
            0 <= i < r.local_files@.len() ==> {
                &&& (#[trigger] r.local_files@[i]).0 == scene.asset_refs@[i].file_id
                &&& r.local_files@[i].1@ == paths@[i]@
            },
{
    let mut local_files: Vec<(i64, String)> = Vec::new();
    let ghost names = crate::text::texts(paths@);
    let mut i: usize = 0;
    while i < paths.len()
        invariant
            i <= paths@.len(),
            paths@.len() == scene.asset_refs@.len(),
            names == crate::text::texts(paths@),
            local_files@.len() == i,
            forall|j: int|
                0 <= j < i ==> (#[trigger] local_files@[j]).0 == scene.asset_refs@[j].file_id
                    && local_files@[j].1@ == names[j],
        decreases paths@.len() - i,
    {
        local_files.push((scene.asset_refs[i].file_id, paths[i].as_str().to_owned()));
        i = i + 1;
    }
    assert(file_views(local_files@) =~= files_of(scene@, names));
    SwitchCommand { scene: scene.clone(), target_time_millis, local_files }
}

/// The file that a scene shows is the one of its own asset: where no two assets of a scene have one
/// id, each id leads to the file of the asset that has it.
pub proof fn scenes_show_their_own_files(scene: SceneView, paths: Seq<Seq<char>>, i: int)
    requires
        paths.len() == scene.asset_refs.len(),
        0 <= i < scene.asset_refs.len(),
        forall|a: int, b: int|
            0 <= a < b < scene.asset_refs.len() ==> (#[trigger] scene.asset_refs[a]).file_id != (
            #[trigger] scene.asset_refs[b]).file_id,
    ensures
        file_of(files_of(scene, paths), scene.asset_refs[i].file_id) == Some(paths[i]),
{
    let files = files_of(scene, paths);
    assert forall|a: int, b: int| 0 <= a < b < files.len() implies (#[trigger] files[a]).0 != (
    #[trigger] files[b]).0 by {
        assert(scene.asset_refs[a].file_id != scene.asset_refs[b].file_id);
    }
    lemma_file_of(files, i);
}

proof fn lemma_file_of(files: Seq<(i64, Seq<char>)>, i: int)
    requires
        0 <= i < files.len(),
        forall|a: int, b: int|
            0 <= a < b < files.len() ==> (#[trigger] files[a]).0 != (#[trigger] files[b]).0,
    ensures
        file_of(files, files[i].0) == Some(files[i].1),
    decreases files.len(),
{
    if i < files.len() - 1 {
        assert(files[i].0 != files[files.len() - 1].0);
        lemma_file_of(files.drop_last(), i);
    }
}

/// A playback is logged once: a scene that comes on screen again while it is there ends nothing, and
/// any other ends what was there. An advertisement that did not have its time was not seen to its
/// end.
pub proof fn each_playback_ends_once(engine: EngineView, scene: SceneView, next: SceneView, at: i64, then: i64)
    requires
        scene.layout is Some,
    ensures
        ({
            let shown = after_switch(engine, scene, at);
            &&& ended_log(shown, scene) is None
            &&& after_switch(shown, scene, then).log == shown.log
            &&& next.scene_id != scene.scene_id ==> ended_log(shown, next) is Some && ended_log(
                shown,
                next,
            )->0.scene.scene_id == scene.scene_id
            &&& next.scene_id != scene.scene_id && !same_log(engine.log, scene) ==> ended_log(
                shown,
                next,
            )->0.started_at == at
        }),
{
}

/// A scene with a layout that comes on screen is logged from when it really came on, on its layout,
/// unless its log is open already. A scene without layout is not logged.
pub proof fn playbacks_are_logged_from_when_they_came(
    engine: EngineView,
    scene: SceneView,
    actual: i64,
)
    requires
        engine.log matches Some(open) ==> open.scene.scene_id != scene.scene_id,
    ensures
        after_switch(engine, scene, actual).last_switched == Some(scene.scene_id),
        after_switch(engine, scene, actual).generation == engine.generation,
        after_switch(engine, scene, actual).shutting_down == engine.shutting_down,
        ended_log(engine, scene) == engine.log,
        match scene.layout {
            Some(layout) => after_switch(engine, scene, actual).log matches Some(log) && {
                &&& log.started_at == actual
                &&& log.scene.scene_id == scene.scene_id
                &&& log.scene.content_id == layout.id
                &&& log.scene.schedule_id == scene.schedule_id
                &&& log.scene.playlist_id == scene.playlist_id
                &&& log.scene.item_id == scene.item_id
                &&& log.scene.start == scene.start
                &&& log.scene.end == scene.end
            },
            None => after_switch(engine, scene, actual).log is None,
        },
{
}

/// A scene that comes on screen while its log is open goes on: the log stays as it is, and ends not.
pub proof fn a_scene_that_is_on_goes_on(engine: EngineView, scene: SceneView, actual: i64)
    requires
        engine.log matches Some(open) && open.scene.scene_id == scene.scene_id,
        scene.layout is Some,
    ensures
        after_switch(engine, scene, actual).log == engine.log,
        ended_log(engine, scene) is None,
{
}

/// An advertisement is reported from when it really came on screen, for the time that it is
/// scheduled, by its own slot and bid. It ends when another scene comes on, and goes on where it is
/// on already.
pub proof fn advertisements_are_reported_from_when_they_came(
    engine: EngineView,
    scene: SceneView,
    actual: i64,
)
    requires
        i64::MIN <= scene.end - scene.start <= i64::MAX,
    ensures
        scene.rtb is None ==> after_switch(engine, scene, actual).ad is None && ended_ad(
            engine,
            scene,
        ) == engine.ad,
        scene.rtb matches Some(sold) ==> {
            &&& (engine.ad matches Some(shown) ==> shown.scene_id != scene.scene_id) ==> {
                &&& ended_ad(engine, scene) == engine.ad
                &&& after_switch(engine, scene, actual).ad matches Some(ad) && {
                    &&& ad.metadata == sold
                    &&& ad.scene_id == scene.scene_id
                    &&& ad.started == actual
                    &&& ad.duration == scene.end - scene.start
                }
            }
            &&& engine.ad matches Some(shown) ==> (shown.scene_id == scene.scene_id ==> {
                &&& ended_ad(engine, scene) is None
                &&& after_switch(engine, scene, actual).ad == engine.ad
            })
        },
{
}

proof fn lemma_scene_called(scenes: Seq<SceneView>, id: Seq<char>, from: int)
    requires
        0 <= from,
    ensures
        match scene_called(scenes, id, from) {
            Some(i) => from <= i < scenes.len() && scenes[i].scene_id == id && forall|j: int|
                from <= j < i ==> (#[trigger] scenes[j]).scene_id != id,
            None => forall|j: int|
                from <= j < scenes.len() ==> (#[trigger] scenes[j]).scene_id != id,
        },
    decreases scenes.len() - from,
{
    if from < scenes.len() && scenes[from].scene_id != id {
        lemma_scene_called(scenes, id, from + 1);
    }
}

/// What fails where a scene could not be put on screen is that scene: the first of the timeline under
/// its name, where it was sold in an auction; and nothing where there is none of that name or it was
/// not sold.
pub proof fn failures_are_those_of_the_scene(scenes: Seq<SceneView>, id: Seq<char>)
    ensures
        match auctioned_called(scenes, id) {
            Some(scene) => exists|i: int|
                0 <= i < scenes.len() && #[trigger] scenes[i] == scene && scene.scene_id == id
                    && scene.rtb is Some && forall|j: int|
                    0 <= j < i ==> (#[trigger] scenes[j]).scene_id != id,
            None => forall|i: int|
                0 <= i < scenes.len() && (#[trigger] scenes[i]).scene_id == id && (forall|j: int|
                    0 <= j < i ==> (#[trigger] scenes[j]).scene_id != id) ==> scenes[i].rtb is None,
        },
{
    lemma_scene_called(scenes, id, 0);
    if auctioned_called(scenes, id) is None {
        assert forall|i: int|
            0 <= i < scenes.len() && (#[trigger] scenes[i]).scene_id == id && (forall|j: int|
                0 <= j < i ==> (#[trigger] scenes[j]).scene_id != id) implies scenes[i].rtb
            is None by {
            let k = scene_called(scenes, id, 0)->0;
            if k < i {
                assert(scenes[k].scene_id != id);
            }
        }
    }
}

/// An advertisement that is on is modelled field by field.
pub proof fn advertisement_models_are_faithful(ad: ActiveAd)
    ensures
        ad@.metadata == ad.metadata@,
        ad@.scene_id == ad.scene_id@,
        ad@.started == ad.started_millis,
        ad@.duration == ad.duration_millis,
{
}
} // verus!
