//! Preparing scenes.
//!
//! What takes long is done before a scene starts: its images are decoded, its video is opened and
//! prerolled. The scene is then only switched to.

use vstd::prelude::*;
use vstd::string::*;

use super::image::{
    decode_image, image_fault, image_of, image_views, with_images, with_room, BitmapView,
    CacheEntry, ImageCache, ImageCacheView, RgbaBitmap, TRIM_TARGET_BYTES,
};
use super::layout::{
    as_indices, every_image_is_decoded_once, file_views, image_elements, images_to_decode, is_image,
    only_images_are_decoded, plan_of, scene_render_plan, the_first_video_with_a_file_is_played,
    video_element, video_to_play, RenderPlan, RenderPlanView,
};
use super::video::{after_acquire, after_release, Lease, PoolView, VideoDecoderPool, POOL_SIZE};
use crate::render::ffmpeg::normalized;
use crate::timeline::models::SceneView;
use crate::timeline::PlaybackScene;

verus! {

/// Where the preparation of a scene stands.
#[derive(Debug, Clone, Copy, PartialEq, Eq, Structural)]
pub enum PreparePhase {
    /// Its images are being decoded.
    Images,
    /// It is being looked whether the file of its video is there.
    Checking,
    /// Its video is being opened.
    Opening,
    /// Its video is being prerolled.
    Prerolling,
    /// It can be shown.
    Done,
    /// It cannot be shown.
    Failed,
}

/// What has come of a step of the preparation.
#[derive(Debug)]
pub enum PrepareEvent {
    ImageDecoded(RgbaBitmap),
    FileFound(bool),
    Opened,
    Prerolled,
    Failed(String),
}

/// Model of a [`PrepareEvent`].
#[verifier::ext_equal]
pub enum PrepareEventView {
    ImageDecoded(BitmapView),
    FileFound(bool),
    Opened,
    Prerolled,
    Failed(Seq<char>),
}

impl View for PrepareEvent {
    type V = PrepareEventView;

    open spec fn view(&self) -> PrepareEventView {
        match self {
            PrepareEvent::ImageDecoded(image) => PrepareEventView::ImageDecoded(image@),
            PrepareEvent::FileFound(found) => PrepareEventView::FileFound(*found),
            PrepareEvent::Opened => PrepareEventView::Opened,
            PrepareEvent::Prerolled => PrepareEventView::Prerolled,
            PrepareEvent::Failed(reason) => PrepareEventView::Failed(reason@),
        }
    }
}

/// What is to be done next for a scene. Elements are named by where they stand in the plan.
#[derive(Debug, Clone, Copy, PartialEq, Eq, Structural)]
pub enum PrepareAction {
    /// To decode the file of an image.
    DecodeImage(usize),
    /// To look whether the file of a video is there.
    CheckFile(usize),
    /// To open a video.
    Open(usize),
    /// To preroll a video.
    Preroll(usize),
    /// Nothing: the scene can be shown.
    Done,
    /// Nothing: the scene cannot be shown.
    Fail,
}

/// Model of a [`PrepareRun`].
#[verifier::ext_equal]
pub struct PrepareRunView {
    pub scene: SceneView,
    pub plan: RenderPlanView,
    /// The elements whose files are decoded, in order.
    pub order: Seq<int>,
    /// What was decoded.
    pub images: Seq<CacheEntry>,
    /// The element of the video.
    pub video: Option<int>,
    pub lease: Option<Lease>,
    pub phase: PreparePhase,
    /// Why the scene cannot be shown.
    pub failure: Seq<char>,
    /// Milliseconds since the epoch.
    pub prepared_at: i64,
}

/// The preparation of a scene.
#[derive(Debug)]
pub struct PrepareRun {
    scene: PlaybackScene,
    plan: RenderPlan,
    order: Vec<usize>,
    images: Vec<(String, RgbaBitmap)>,
    video: Option<usize>,
    lease: Option<Lease>,
    phase: PreparePhase,
    failure: String,
    prepared_at: i64,
}

/// The index that an option of `usize` holds.
pub open spec fn as_index(index: Option<usize>) -> Option<int> {
    match index {
        Some(i) => Some(i as int),
        None => None,
    }
}

impl View for PrepareRun {
    type V = PrepareRunView;

    closed spec fn view(&self) -> PrepareRunView {
        PrepareRunView {
            scene: self.scene@,
            plan: self.plan@,
            order: as_indices(self.order@),
            images: image_views(self.images@),
            video: as_index(self.video),
            lease: self.lease,
            phase: self.phase,
            failure: self.failure@,
            prepared_at: self.prepared_at,
        }
    }
}

/// Whether an element of a plan has a file.
pub open spec fn has_file(plan: RenderPlanView, index: int) -> bool {
    0 <= index < plan.elements.len() && plan.elements[index].image_path is Some
}

/// Whether a preparation can stand as it does.
pub open spec fn run_valid(run: PrepareRunView) -> bool {
    &&& run.order == images_to_decode(run.plan.elements)
    &&& run.video == video_to_play(run.plan.elements, 0)
    &&& forall|k: int| 0 <= k < run.order.len() ==> has_file(run.plan, #[trigger] run.order[k])
    &&& run.images.len() <= run.order.len()
    &&& forall|k: int|
        0 <= k < run.images.len() ==> {
            &&& Some((#[trigger] run.images[k]).0) == run.plan.elements[run.order[k]].image_path
            &&& run.images[k].1.rgba.len() == run.images[k].1.bytes()
        }
    &&& run.video matches Some(v) ==> has_file(run.plan, v)
    &&& match run.phase {
        PreparePhase::Images => run.images.len() < run.order.len() && run.lease is None,
        PreparePhase::Checking => run.images.len() == run.order.len() && run.video is Some
            && run.lease is None,
        PreparePhase::Opening | PreparePhase::Prerolling => run.images.len() == run.order.len()
            && run.video is Some && run.lease is Some,
        PreparePhase::Done => run.images.len() == run.order.len() && (run.video is Some
            <==> run.lease is Some),
        PreparePhase::Failed => run.lease is None,
    }
}

/// What is to be done next.
pub open spec fn action_of(run: PrepareRunView) -> PrepareAction {
    match run.phase {
        PreparePhase::Images => PrepareAction::DecodeImage(
            run.order[run.images.len() as int] as usize,
        ),
        PreparePhase::Checking => PrepareAction::CheckFile(run.video->0 as usize),
        PreparePhase::Opening => PrepareAction::Open(run.video->0 as usize),
        PreparePhase::Prerolling => PrepareAction::Preroll(run.video->0 as usize),
        PreparePhase::Done => PrepareAction::Done,
        PreparePhase::Failed => PrepareAction::Fail,
    }
}

/// Model of a [`ScenePreparer`].
#[verifier::ext_equal]
pub struct PreparerView {
    pub canvas_width: u32,
    pub canvas_height: u32,
    pub cache: ImageCacheView,
    pub pool: PoolView,
}

/// The preparation once all images were decoded: they are kept in memory, and the video follows, if
/// there is one.
pub open spec fn images_done(preparer: PreparerView, run: PrepareRunView) -> (
    PreparerView,
    PrepareRunView,
) {
    (
        PreparerView { cache: with_images(preparer.cache, run.images), ..preparer },
        PrepareRunView {
            phase: if run.video is Some {
                PreparePhase::Checking
            } else {
                PreparePhase::Done
            },
            ..run
        },
    )
}

/// The preparation of a scene with a layout, as it starts.
pub open spec fn started(
    preparer: PreparerView,
    scene: SceneView,
    plan: RenderPlanView,
    now: i64,
) -> (PreparerView, PrepareRunView) {
    let run = PrepareRunView {
        scene,
        plan,
        order: images_to_decode(plan.elements),
        images: Seq::empty(),
        video: video_to_play(plan.elements, 0),
        lease: None,
        phase: PreparePhase::Images,
        failure: Seq::empty(),
        prepared_at: now,
    };
    if run.order.len() == 0 {
        images_done(preparer, run)
    } else {
        (preparer, run)
    }
}

/// The preparation once it failed: a decoder that it was lent goes back.
pub open spec fn run_failed(
    preparer: PreparerView,
    run: PrepareRunView,
    reason: Seq<char>,
) -> (PreparerView, PrepareRunView) {
    (
        match run.lease {
            Some(lease) => PreparerView {
                pool: after_release(preparer.pool, lease),
                ..preparer
            },
            None => preparer,
        },
        PrepareRunView { lease: None, phase: PreparePhase::Failed, failure: reason, ..run },
    )
}

/// What is said of a file whose image cannot be shown.
pub open spec fn decode_failure(path: Seq<char>, reason: Seq<char>) -> Seq<char> {
    "image decode failed: "@ + path + ": "@ + reason
}

/// The preparation after a step. What is not waited for changes nothing.
pub open spec fn run_step(
    preparer: PreparerView,
    run: PrepareRunView,
    event: PrepareEventView,
) -> (PreparerView, PrepareRunView) {
    match (run.phase, event) {
        (PreparePhase::Images, PrepareEventView::ImageDecoded(image)) => {
            let path = run.plan.elements[run.order[run.images.len() as int]].image_path->0;
            let next = PrepareRunView { images: run.images.push((path, image)), ..run };
            if next.images.len() == next.order.len() {
                images_done(preparer, next)
            } else {
                (preparer, next)
            }
        },
        (PreparePhase::Checking, PrepareEventView::FileFound(found)) => if found {
            let (pool, lease) = after_acquire(preparer.pool);
            (
                PreparerView { pool, ..preparer },
                PrepareRunView { lease: Some(lease), phase: PreparePhase::Opening, ..run },
            )
        } else {
            run_failed(
                preparer,
                run,
                "video asset file missing: "@
                    + run.plan.elements[run.video->0].image_path->0,
            )
        },
        (PreparePhase::Opening, PrepareEventView::Opened) => (
            preparer,
            PrepareRunView { phase: PreparePhase::Prerolling, ..run },
        ),
        (PreparePhase::Prerolling, PrepareEventView::Prerolled) => (
            preparer,
            PrepareRunView { phase: PreparePhase::Done, ..run },
        ),
        (PreparePhase::Images, PrepareEventView::Failed(reason)) => run_failed(
            preparer,
            run,
            decode_failure(
                run.plan.elements[run.order[run.images.len() as int]].image_path->0,
                reason,
            ),
        ),
        (PreparePhase::Opening, PrepareEventView::Failed(reason)) => run_failed(
            preparer,
            run,
            reason,
        ),
        (PreparePhase::Prerolling, PrepareEventView::Failed(reason)) => run_failed(
            preparer,
            run,
            reason,
        ),
        _ => (preparer, run),
    }
}

/// Whether an event can come: a decoded image has four bytes for each pixel.
pub open spec fn event_valid(event: PrepareEventView) -> bool {
    event matches PrepareEventView::ImageDecoded(image) ==> image.rgba.len() == image.bytes()
}

/// Whatever comes, a preparation stays as it can stand.
pub proof fn preparations_stay_valid(
    preparer: PreparerView,
    run: PrepareRunView,
    event: PrepareEventView,
)
    requires
        run_valid(run),
        event_valid(event),
    ensures
        run_valid(run_step(preparer, run, event).1),
{
    let next = run_step(preparer, run, event).1;
    assert forall|k: int| 0 <= k < next.images.len() implies {
        &&& Some((#[trigger] next.images[k]).0) == next.plan.elements[next.order[k]].image_path
        &&& next.images[k].1.rgba.len() == next.images[k].1.bytes()
    } by {
        if k < run.images.len() {
            assert(next.images[k] == run.images[k]);
        } else {
            assert(has_file(run.plan, run.order[k]));
        }
    }
}

/// A scene that can be shown has everything that it shows: the image of every image element that has
/// a file, and a decoder for its video.
pub proof fn prepared_scenes_are_complete(run: PrepareRunView)
    requires
        run_valid(run),
        run.phase is Done,
    ensures
        forall|i: int|
            #![trigger run.plan.elements[i]]
            0 <= i < run.plan.elements.len() && is_image(run.plan.elements[i].element)
                && run.plan.elements[i].image_path is Some ==> exists|k: int|
                0 <= k < run.images.len() && Some((#[trigger] run.images[k]).0)
                    == run.plan.elements[i].image_path,
        run.video is Some <==> run.lease is Some,
{
    let elements = run.plan.elements;
    every_image_is_decoded_once(elements);
    assert forall|i: int|
        #![trigger elements[i]]
        0 <= i < elements.len() && is_image(elements[i].element)
            && elements[i].image_path is Some implies exists|k: int|
        0 <= k < run.images.len() && Some((#[trigger] run.images[k]).0)
            == elements[i].image_path by {
        let path = elements[i].image_path->0;
        let k = choose|k: int|
            0 <= k < run.order.len() && elements[#[trigger] run.order[k]].image_path == Some(path);
        assert(Some(run.images[k].0) == elements[run.order[k]].image_path);
    }
}

/// A preparation that fails keeps no decoder, and the pool has the one that it was lent back. Where an
/// image could not be decoded, what is said names its file.
pub proof fn failures_give_the_decoder_back(
    preparer: PreparerView,
    run: PrepareRunView,
    reason: Seq<char>,
)
    requires
        run_valid(run),
        run.phase is Images || run.phase is Opening || run.phase is Prerolling,
    ensures
        ({
            let (after, failed) = run_step(preparer, run, PrepareEventView::Failed(reason));
            &&& failed.phase is Failed
            &&& failed.failure == if run.phase is Images {
                decode_failure(
                    run.plan.elements[run.order[run.images.len() as int]].image_path->0,
                    reason,
                )
            } else {
                reason
            }
            &&& failed.lease is None
            &&& after.cache == preparer.cache
            &&& match run.lease {
                Some(lease) => after.pool == after_release(preparer.pool, lease),
                None => after.pool == preparer.pool,
            }
        }),
{
}

/// A video is opened only where its file is there, and after all images were decoded.
pub proof fn videos_are_opened_last(
    preparer: PreparerView,
    run: PrepareRunView,
    event: PrepareEventView,
)
    requires
        run_valid(run),
        event_valid(event),
        !(run.phase is Opening),
        run_step(preparer, run, event).1.phase is Opening,
    ensures
        event == PrepareEventView::FileFound(true),
        run.phase is Checking,
        run.images.len() == run.order.len(),
{
}

impl PrepareRun {
    /// Whether the preparation can stand as it does.
    pub open spec fn valid(self) -> bool {
        run_valid(self@)
    }

    /// What is to be done next.
    pub fn next_action(&self) -> (r: PrepareAction)
        requires
            self.valid(),
        ensures
            r == action_of(self@),
    {
        match self.phase {
            PreparePhase::Images => {
                assert(self@.order[self.images@.len() as int] == self.order@[self.images@.len() as int]);
                PrepareAction::DecodeImage(self.order[self.images.len()])
            },
            PreparePhase::Checking => match self.video {
                Some(v) => PrepareAction::CheckFile(v),
                None => PrepareAction::Fail,
            },
            PreparePhase::Opening => match self.video {
                Some(v) => PrepareAction::Open(v),
                None => PrepareAction::Fail,
            },
            PreparePhase::Prerolling => match self.video {
                Some(v) => PrepareAction::Preroll(v),
                None => PrepareAction::Fail,
            },
            PreparePhase::Done => PrepareAction::Done,
            PreparePhase::Failed => PrepareAction::Fail,
        }
    }

    /// The file of the image that is decoded next.
    fn next_image_path(&self) -> (r: String)
        requires
            self.valid(),
            self@.phase is Images,
        ensures
            r@ == self@.plan.elements[self@.order[self@.images.len() as int]].image_path->0,
    {
        let at: usize = self.order[self.images.len()];
        assert(self@.order[self.images@.len() as int] == at);
        assert(has_file(self@.plan, at as int));
        assert(self@.plan.elements[at as int] == self.plan.elements@[at as int]@);
        match &self.plan.elements[at].image_path {
            Some(path) => path.as_str().to_owned(),
            None => "".to_owned(),
        }
    }

    /// The plan that the elements are named after.
    pub fn plan(&self) -> (r: &RenderPlan)
        ensures
            r@ == self@.plan,
    {
        &self.plan
    }

    /// The scene.
    pub fn scene(&self) -> (r: &PlaybackScene)
        ensures
            r@ == self@.scene,
    {
        &self.scene
    }

    /// The decoder that the video was lent.
    pub fn lease(&self) -> (r: Option<Lease>)
        ensures
            r == self@.lease,
    {
        self.lease
    }

    /// Why the scene cannot be shown.
    pub fn failure(&self) -> (r: &str)
        ensures
            r@ == self@.failure,
    {
        self.failure.as_str()
    }

    /// The prepared scene, where it can be shown.
    pub fn finish(self) -> (r: Option<PreparedScene>)
        requires
            self.valid(),
        ensures
            match r {
                Some(prepared) => self@.phase is Done && prepared@ == prepared_of(self@),
                None => !(self@.phase is Done),
            },
    {
        match self.phase {
            PreparePhase::Done => {
                let is_video: bool = self.video.is_some() || self.scene.has_video();
                Some(
                    PreparedScene {
                        scene: self.scene,
                        plan: self.plan,
                        images: self.images,
                        video: self.video,
                        lease: self.lease,
                        prepared_at_millis: self.prepared_at,
                        is_video,
                    },
                )
            },
            _ => None,
        }
    }
}

/// Model of a [`PreparedScene`].
#[verifier::ext_equal]
pub struct PreparedSceneView {
    pub scene: SceneView,
    pub plan: RenderPlanView,
    pub images: Seq<CacheEntry>,
    pub video: Option<int>,
    pub lease: Option<Lease>,
    pub prepared_at: i64,
    pub is_video: bool,
}

/// A scene that can be shown.
#[derive(Debug)]
pub struct PreparedScene {
    pub scene: PlaybackScene,
    pub plan: RenderPlan,
    /// Decoded images, by file.
    pub images: Vec<(String, RgbaBitmap)>,
    /// The element of the video.
    pub video: Option<usize>,
    /// The decoder of the video.
    pub lease: Option<Lease>,
    /// Milliseconds since the epoch.
    pub prepared_at_millis: i64,
    /// Whether the scene shows a video.
    pub is_video: bool,
}

impl View for PreparedScene {
    type V = PreparedSceneView;

    open spec fn view(&self) -> PreparedSceneView {
        PreparedSceneView {
            scene: self.scene@,
            plan: self.plan@,
            images: image_views(self.images@),
            video: as_index(self.video),
            lease: self.lease,
            prepared_at: self.prepared_at_millis,
            is_video: self.is_video,
        }
    }
}

/// The scene that a preparation made ready.
pub open spec fn prepared_of(run: PrepareRunView) -> PreparedSceneView {
    PreparedSceneView {
        scene: run.scene,
        plan: run.plan,
        images: run.images,
        video: run.video,
        lease: run.lease,
        prepared_at: run.prepared_at,
        is_video: run.video is Some || run.scene.video(),
    }
}

/// Whether a scene can be shown without going black: it has no decoder, or its decoder says that the
/// first frame is there. A decoder that is busy says nothing.
pub open spec fn frame_ready(lease: Option<Lease>, said: Option<bool>) -> bool {
    lease is None || said == Some(true)
}

impl PreparedScene {
    /// Whether the first frame can be shown, by what the decoder said.
    pub fn first_frame_ready(&self, said: Option<bool>) -> (r: bool)
        ensures
            r == frame_ready(self@.lease, said),
    {
        match self.lease {
            None => true,
            Some(_) => match said {
                Some(ready) => ready,
                None => false,
            },
        }
    }
}

/// Prepares scenes. It keeps decoded images in memory and lends decoders.
pub struct ScenePreparer {
    canvas_width: u32,
    canvas_height: u32,
    image_cache: ImageCache,
    video_pool: VideoDecoderPool,
}

impl View for ScenePreparer {
    type V = PreparerView;

    closed spec fn view(&self) -> PreparerView {
        PreparerView {
            canvas_width: self.canvas_width,
            canvas_height: self.canvas_height,
            cache: self.image_cache@,
            pool: self.video_pool@,
        }
    }
}

fn copy_images(images: &Vec<(String, RgbaBitmap)>) -> (r: Vec<(String, RgbaBitmap)>)
    ensures
        image_views(r@) == image_views(images@),
{
    let mut out: Vec<(String, RgbaBitmap)> = Vec::new();
    let mut i: usize = 0;
    while i < images.len()
        invariant
            i <= images@.len(),
            out@.len() == i,
            forall|j: int|
                0 <= j < i ==> (#[trigger] out@[j]).0@ == images@[j].0@ && out@[j].1@
                    == images@[j].1@,
        decreases images@.len() - i,
    {
        out.push((images[i].0.as_str().to_owned(), images[i].1.clone()));
        i = i + 1;
    }
    assert(image_views(out@) =~= image_views(images@));
    out
}

impl ScenePreparer {
    /// Whether the images in memory are counted right.
    pub closed spec fn valid(self) -> bool {
        self.image_cache.valid()
    }

    /// Prepares scenes for a canvas of this size.
    pub fn new(canvas_width: u32, canvas_height: u32, ffmpeg_hwaccel: String) -> (r: ScenePreparer)
        ensures
            r.valid(),
            r@ == (PreparerView {
                canvas_width,
                canvas_height,
                cache: ImageCacheView {
                    entries: Seq::empty(),
                    counted: 0,
                    most_bytes: super::image::DEFAULT_CACHE_BYTES as int,
                },
                pool: PoolView {
                    lent: Seq::new(POOL_SIZE as nat, |i: int| false),
                    hwaccel: normalized(ffmpeg_hwaccel@),
                    hw_disabled: false,
                },
            }),
            r@.pool.lent == seq![false, false],
            r@.cache.most_bytes == 67_108_864,
    {
        let preparer: ScenePreparer = ScenePreparer {
            canvas_width,
            canvas_height,
            image_cache: ImageCache::default_sized(),
            video_pool: VideoDecoderPool::new(POOL_SIZE, ffmpeg_hwaccel),
        };
        assert(preparer@.pool.lent =~= Seq::new(POOL_SIZE as nat, |i: int| false));
        preparer
    }

    fn finish_images(&mut self, run: &mut PrepareRun)
        requires
            old(self).valid(),
            forall|k: int|
                0 <= k < old(run)@.images.len() ==> (#[trigger] old(run)@.images[k]).1.rgba.len()
                    == old(run)@.images[k].1.bytes(),
        ensures
            final(self).valid(),
            final(self)@ == images_done(old(self)@, old(run)@).0,
            final(run)@ == images_done(old(self)@, old(run)@).1,
    {
        let copies: Vec<(String, RgbaBitmap)> = copy_images(&run.images);
        assert forall|k: int| 0 <= k < copies@.len() implies (#[trigger] copies@[k]).1@.rgba.len()
            == copies@[k].1@.bytes() by {
            assert(image_views(copies@)[k] == run@.images[k]);
        }
        self.image_cache.preload(copies);
        run.phase = if run.video.is_some() {
            PreparePhase::Checking
        } else {
            PreparePhase::Done
        };
    }

    /// Starts the preparation of a scene. One without a layout cannot be shown.
    pub fn prepare(
        &mut self,
        scene: &PlaybackScene,
        local_files: &Vec<(i64, String)>,
        now_millis: i64,
    ) -> (r: Result<PrepareRun, String>)
        requires
            old(self).valid(),
        ensures
            final(self).valid(),
            match scene@.layout {
                Some(layout) => {
                    let plan = plan_of(
                        layout,
                        old(self)@.canvas_width,
                        old(self)@.canvas_height,
                        file_views(local_files@),
                    );
                    let (after, run) = started(old(self)@, scene@, plan, now_millis);
                    &&& r matches Ok(begun) && begun@ == run && begun.valid()
                    &&& final(self)@ == after
                },
                None => {
                    &&& r matches Err(reason) && reason@ == "scene has no layout"@
                    &&& final(self)@ == old(self)@
                },
            },
    {
        let plan: RenderPlan = match scene_render_plan(
            scene,
            self.canvas_width,
            self.canvas_height,
            local_files,
        ) {
            Some(plan) => plan,
            None => {
                return Err("scene has no layout".to_owned());
            },
        };
        let order: Vec<usize> = image_elements(&plan.elements);
        let video: Option<usize> = video_element(&plan.elements);
        let failure: String = "".to_owned();
        proof {
            reveal_strlit("");
            assert(failure@ =~= Seq::empty());
        }
        let mut run: PrepareRun = PrepareRun {
            scene: scene.clone(),
            plan,
            order,
            images: Vec::new(),
            video,
            lease: None,
            phase: PreparePhase::Images,
            failure,
            prepared_at: now_millis,
        };
        proof {
            assert(run@.images =~= Seq::empty());
            assert forall|k: int| 0 <= k < run@.order.len() implies has_file(
                run@.plan,
                #[trigger] run@.order[k],
            ) by {
                assert(run@.order[k] == run.order@[k]);
                assert(run@.plan.elements[run.order@[k] as int] == run.plan.elements@[run.order@[k] as int]@);
            }
        }
        if run.order.len() == 0 {
            self.finish_images(&mut run);
        }
        Ok(run)
    }

    fn fail(&mut self, run: &mut PrepareRun, reason: String)
        requires
            old(self).valid(),
        ensures
            final(self).valid(),
            final(self)@ == run_failed(old(self)@, old(run)@, reason@).0,
            final(run)@ == run_failed(old(self)@, old(run)@, reason@).1,
    {
        if let Some(lease) = run.lease {
            self.video_pool.release(lease);
        }
        run.lease = None;
        run.phase = PreparePhase::Failed;
        run.failure = reason;
    }

    /// Goes on with a preparation after a step.
    pub fn on_event(&mut self, run: &mut PrepareRun, event: PrepareEvent)
        requires
            old(self).valid(),
            old(run).valid(),
            event_valid(event@),
        ensures
            final(self).valid(),
            final(run).valid(),
            final(self)@ == run_step(old(self)@, old(run)@, event@).0,
            final(run)@ == run_step(old(self)@, old(run)@, event@).1,
    {
        let ghost before = run@;
        proof {
            preparations_stay_valid(self@, run@, event@);
        }
        match (run.phase, event) {
            (PreparePhase::Images, PrepareEvent::ImageDecoded(image)) => {
                let path: String = run.next_image_path();
                let ghost entry = (path@, image@);
                run.images.push((path, image));
                assert(run@.images =~= before.images.push(entry));
                if run.images.len() == run.order.len() {
                    assert forall|k: int| 0 <= k < run@.images.len() implies (
                    #[trigger] run@.images[k]).1.rgba.len() == run@.images[k].1.bytes() by {
                        if k < before.images.len() {
                            assert(run@.images[k] == before.images[k]);
                        }
                    }
                    self.finish_images(run);
                }
            },
            (PreparePhase::Checking, PrepareEvent::FileFound(found)) => {
                if found {
                    let lease: Lease = self.video_pool.acquire();
                    run.lease = Some(lease);
                    run.phase = PreparePhase::Opening;
                } else {
                    let mut reason: String = "video asset file missing: ".to_owned();
                    if let Some(v) = run.video {
                        assert(has_file(run@.plan, v as int));
                        assert(run@.plan.elements[v as int] == run.plan.elements@[v as int]@);
                        if let Some(path) = &run.plan.elements[v].image_path {
                            reason.append(path.as_str());
                        }
                    }
                    self.fail(run, reason);
                }
            },
            (PreparePhase::Opening, PrepareEvent::Opened) => {
                run.phase = PreparePhase::Prerolling;
            },
            (PreparePhase::Prerolling, PrepareEvent::Prerolled) => {
                run.phase = PreparePhase::Done;
            },
            (PreparePhase::Images, PrepareEvent::Failed(reason)) => {
                let mut text: String = "image decode failed: ".to_owned();
                text.append(run.next_image_path().as_str());
                text.append(": ");
                text.append(reason.as_str());
                self.fail(run, text);
            },
            (PreparePhase::Opening, PrepareEvent::Failed(reason)) => {
                self.fail(run, reason);
            },
            (PreparePhase::Prerolling, PrepareEvent::Failed(reason)) => {
                self.fail(run, reason);
            },
            _ => {},
        }
    }

    /// Goes on with a preparation that decodes an image, once the bytes of its file were read: the
    /// picture is brought to the size at which it is shown, where that is known.
    pub fn on_image_bytes(
        &mut self,
        run: &mut PrepareRun,
        bytes: &Vec<u8>,
        width: u32,
        height: u32,
    )
        requires
            old(self).valid(),
            old(run).valid(),
        ensures
            final(self).valid(),
            final(run).valid(),
            match image_of(bytes@, width, height) {
                Some(image) => (final(self)@, final(run)@) == run_step(
                    old(self)@,
                    old(run)@,
                    PrepareEventView::ImageDecoded(image),
                ),
                None => exists|reason: Seq<char>|
                    image_fault(*bytes, reason) && (final(self)@, final(run)@)
                        == #[trigger] run_step(
                        old(self)@,
                        old(run)@,
                        PrepareEventView::Failed(reason),
                    ),
            },
    {
        let event: PrepareEvent = match decode_image(bytes, width, height) {
            Ok(image) => PrepareEvent::ImageDecoded(image),
            Err(reason) => PrepareEvent::Failed(reason),
        };
        self.on_event(run, event);
    }

    /// Takes back what a scene was lent, and cuts the images in memory.
    pub fn release(&mut self, lease: Option<Lease>)
        requires
            old(self).valid(),
        ensures
            final(self).valid(),
            final(self)@ == (PreparerView {
                cache: with_room(old(self)@.cache, TRIM_TARGET_BYTES as int, 0),
                pool: match lease {
                    Some(lent) => after_release(old(self)@.pool, lent),
                    None => old(self)@.pool,
                },
                ..old(self)@
            }),
            final(self)@.cache == with_room(old(self)@.cache, 33_554_432, 0),
    {
        if let Some(lent) = lease {
            self.video_pool.release(lent);
        }
        self.image_cache.partial_trim(TRIM_TARGET_BYTES);
    }

    /// The images in memory.
    pub fn image_cache(&mut self) -> (r: &mut ImageCache)
        requires
            old(self).valid(),
        ensures
            r.valid(),
            r@ == old(self)@.cache,
            final(self)@ == (PreparerView { cache: final(r)@, ..old(self)@ }),
            final(r).valid() ==> final(self).valid(),
    {
        &mut self.image_cache
    }

    /// The decoders.
    pub fn video_pool(&mut self) -> (r: &mut VideoDecoderPool)
        ensures
            r@ == old(self)@.pool,
            final(self)@ == (PreparerView { pool: final(r)@, ..old(self)@ }),
            old(self).valid() ==> final(self).valid(),
    {
        &mut self.video_pool
    }
}

/// A preparation starts with nothing decoded and no decoder, for the scene and the time that it is
/// asked for. Images come first; without any the video follows, and without either the scene can be
/// shown.
pub proof fn preparations_start_with_the_images(
    preparer: PreparerView,
    scene: SceneView,
    plan: RenderPlanView,
    now: i64,
)
    ensures
        ({
            let (after, run) = started(preparer, scene, plan, now);
            &&& run.scene == scene
            &&& run.plan == plan
            &&& run.prepared_at == now
            &&& run.images == Seq::<CacheEntry>::empty()
            &&& run.lease is None
            &&& run.failure == Seq::<char>::empty()
            &&& after.pool == preparer.pool
            &&& after.canvas_width == preparer.canvas_width
            &&& after.canvas_height == preparer.canvas_height
            &&& run.phase is Images <==> exists|i: int|
                0 <= i < plan.elements.len() && is_image((#[trigger] plan.elements[i]).element)
                    && plan.elements[i].image_path is Some
            &&& run.phase is Done ==> forall|i: int|
                0 <= i < plan.elements.len() ==> (#[trigger] plan.elements[i]).image_path is None
                    || (plan.elements[i].element.element_type != "image"@
                    && plan.elements[i].element.element_type != "video"@)
            &&& run.phase is Checking ==> run.video is Some && 0 <= run.video->0
                < plan.elements.len() && plan.elements[run.video->0].element.element_type
                == "video"@ && plan.elements[run.video->0].image_path is Some
            &&& run.phase is Images || run.phase is Checking || run.phase is Done
        }),
{
    let (after, run) = started(preparer, scene, plan, now);
    let elements = plan.elements;
    only_images_are_decoded(elements);
    the_first_video_with_a_file_is_played(elements);
    if run.phase is Images {
        let i = images_to_decode(elements)[0];
        assert(is_image(elements[i].element));
    }
    if exists|i: int|
        0 <= i < elements.len() && is_image((#[trigger] elements[i]).element)
            && elements[i].image_path is Some {
        let i = choose|i: int|
            0 <= i < elements.len() && is_image((#[trigger] elements[i]).element)
                && elements[i].image_path is Some;
        assert(elements[i].element.element_type == "image"@);
    }
    if run.phase is Done {
        assert forall|i: int| 0 <= i < elements.len() implies (
        #[trigger] elements[i]).image_path is None || (elements[i].element.element_type != "image"@
            && elements[i].element.element_type != "video"@) by {
            if elements[i].image_path is Some && elements[i].element.element_type == "image"@ {
                assert(images_to_decode(elements).len() > 0);
            }
        }
    }
}

/// An image that was decoded is kept under the file of the element whose turn it was, after those
/// that were decoded before. The next in turn follows; after the last one all go into memory, and the
/// video is next.
pub proof fn images_are_kept_under_their_files(
    preparer: PreparerView,
    run: PrepareRunView,
    image: BitmapView,
)
    requires
        run_valid(run),
        run.phase is Images,
    ensures
        ({
            let (after, next) = run_step(preparer, run, PrepareEventView::ImageDecoded(image));
            let turn = run.order[run.images.len() as int];
            &&& run.plan.elements[turn].element.element_type == "image"@
            &&& action_of(run) == PrepareAction::DecodeImage(turn as usize)
            &&& next.images.len() == run.images.len() + 1
            &&& next.images.last().1 == image
            &&& Some(next.images.last().0) == run.plan.elements[turn].image_path
            &&& next.images.drop_last() == run.images
            &&& next.scene == run.scene
            &&& next.plan == run.plan
            &&& next.lease is None
            &&& next.prepared_at == run.prepared_at
            &&& after.pool == preparer.pool
            &&& run.images.len() + 1 < run.order.len() ==> next.phase is Images && after == preparer
            &&& run.images.len() + 1 == run.order.len() ==> {
                &&& next.phase is Checking <==> run.video is Some
                &&& next.phase is Done <==> run.video is None
                &&& after.cache == with_images(preparer.cache, next.images)
            }
        }),
{
    let turn = run.order[run.images.len() as int];
    only_images_are_decoded(run.plan.elements);
    assert(has_file(run.plan, turn));
    assert(run.images.push(
        (run.plan.elements[turn].image_path->0, image),
    ).drop_last() =~= run.images);
}

/// A video whose file is there is lent a decoder and opened, then prerolled, and then the scene can
/// be shown. One whose file is not there fails the scene, and what is said names the file; no decoder
/// is lent for it.
pub proof fn videos_are_opened_and_prerolled(preparer: PreparerView, run: PrepareRunView)
    requires
        run_valid(run),
        run.phase is Checking || run.phase is Opening || run.phase is Prerolling,
    ensures
        ({
            let v = run.video->0;
            let (found_at, found) = run_step(preparer, run, PrepareEventView::FileFound(true));
            let (missing_at, missing) = run_step(preparer, run, PrepareEventView::FileFound(false));
            let (opened_at, opened) = run_step(preparer, run, PrepareEventView::Opened);
            let (rolled_at, rolled) = run_step(preparer, run, PrepareEventView::Prerolled);
            &&& run.plan.elements[v].element.element_type == "video"@
            &&& run.phase is Checking ==> {
                &&& action_of(run) == PrepareAction::CheckFile(v as usize)
                &&& found.phase is Opening
                &&& found.lease == Some(after_acquire(preparer.pool).1)
                &&& found_at.pool == after_acquire(preparer.pool).0
                &&& found.images == run.images && found.plan == run.plan && found.scene == run.scene
                &&& found_at.cache == preparer.cache
                &&& missing.phase is Failed
                &&& missing.lease is None
                &&& missing.failure == "video asset file missing: "@
                    + run.plan.elements[v].image_path->0
                &&& missing_at == preparer
            }
            &&& run.phase is Opening ==> {
                &&& action_of(run) == PrepareAction::Open(v as usize)
                &&& opened.phase is Prerolling
                &&& opened.lease == run.lease
                &&& opened.images == run.images
                &&& opened_at == preparer
            }
            &&& run.phase is Prerolling ==> {
                &&& action_of(run) == PrepareAction::Preroll(v as usize)
                &&& rolled.phase is Done
                &&& rolled.lease == run.lease
                &&& rolled.images == run.images
                &&& rolled_at == preparer
            }
        }),
{
    the_first_video_with_a_file_is_played(run.plan.elements);
}

/// What is said of an image that cannot be shown names its file, and then says why.
pub proof fn decode_failures_name_the_file(
    preparer: PreparerView,
    run: PrepareRunView,
    reason: Seq<char>,
)
    requires
        run_valid(run),
        run.phase is Images,
    ensures
        run_step(preparer, run, PrepareEventView::Failed(reason)).1.failure
            == "image decode failed: "@
            + run.plan.elements[run.order[run.images.len() as int]].image_path->0 + ": "@ + reason,
        run_step(preparer, run, PrepareEventView::Failed(reason)).1.scene == run.scene,
        run_step(preparer, run, PrepareEventView::Failed(reason)).0 == preparer,
{
}

/// A preparation that has ended stays as it is, and what is not waited for changes nothing.
pub proof fn ended_preparations_stay(
    preparer: PreparerView,
    run: PrepareRunView,
    event: PrepareEventView,
)
    ensures
        run.phase is Done || run.phase is Failed ==> run_step(preparer, run, event) == (
            preparer,
            run,
        ),
        run.phase is Done ==> action_of(run) == PrepareAction::Done,
        run.phase is Failed ==> action_of(run) == PrepareAction::Fail,
        run.phase is Images && !(event is ImageDecoded || event is Failed) ==> run_step(
            preparer,
            run,
            event,
        ) == (preparer, run),
        run.phase is Checking && !(event is FileFound) ==> run_step(preparer, run, event) == (
            preparer,
            run,
        ),
        run.phase is Opening && !(event is Opened || event is Failed) ==> run_step(
            preparer,
            run,
            event,
        ) == (preparer, run),
        run.phase is Prerolling && !(event is Prerolled || event is Failed) ==> run_step(
            preparer,
            run,
            event,
        ) == (preparer, run),
{
}

/// A prepared scene is what its preparation came to. It counts as one with a video where one of its
/// elements is played, or where the scene itself says that it shows one.
pub proof fn prepared_scenes_are_what_was_prepared(run: PrepareRunView, prepared: PreparedScene)
    ensures
        prepared_of(run).scene == run.scene,
        prepared_of(run).plan == run.plan,
        prepared_of(run).images == run.images,
        prepared_of(run).video == run.video,
        prepared_of(run).lease == run.lease,
        prepared_of(run).prepared_at == run.prepared_at,
        prepared_of(run).is_video <==> run.video is Some || run.scene.video(),
        prepared@.scene == prepared.scene@,
        prepared@.plan == prepared.plan@,
        prepared@.images.len() == prepared.images@.len(),
        forall|i: int|
            0 <= i < prepared.images@.len() ==> (#[trigger] prepared@.images[i]).0
                == prepared.images@[i].0@ && prepared@.images[i].1 == prepared.images@[i].1@,
        prepared.video matches Some(v) ==> prepared@.video == Some(v as int),
        prepared.video is None ==> prepared@.video is None,
        prepared@.lease == prepared.lease,
        prepared@.prepared_at == prepared.prepared_at_millis,
        prepared@.is_video == prepared.is_video,
{
}

/// A scene waits for the first frame exactly while it has a decoder that has not said that the frame
/// is there.
pub proof fn first_frames_are_waited_for(lease: Lease, said: Option<bool>)
    ensures
        frame_ready(None, said),
        frame_ready(Some(lease), Some(true)),
        !frame_ready(Some(lease), Some(false)),
        !frame_ready(Some(lease), None),
{
}

/// What has come of a step is modelled by its name and what it holds.
pub proof fn event_models_are_faithful(event: PrepareEvent)
    ensures
        event matches PrepareEvent::ImageDecoded(image) ==> event@
            == PrepareEventView::ImageDecoded(image@),
        event matches PrepareEvent::FileFound(found) ==> event@ == PrepareEventView::FileFound(
            found,
        ),
        event is Opened ==> event@ is Opened,
        event is Prerolled ==> event@ is Prerolled,
        event matches PrepareEvent::Failed(reason) ==> event@ == PrepareEventView::Failed(reason@),
{
}
} // verus!
