//! Two layers, one on screen and one behind it. The next scene is put on the hidden layer ahead of
//! its time; at its time the layers change places, and nothing else happens.

use vstd::prelude::*;

use super::image::{
    find_key, image_views, the_last_entry_of_a_name_is_found, CacheEntry, RgbaBitmap,
};
use super::layout::{color_of, drawn_views, is_image, is_text, parse_hex_color, RenderElement,
    RenderElementView};
use super::scene::{frame_ready, PreparedScene, PreparedSceneView};
use super::video::Lease;
use crate::config::VIDEO_FIRST_FRAME_WAIT_MS;
use crate::text::same_text;
use crate::timeline::layouts::is_video;

verus! {

/// What a switch of the layers came to.
#[derive(Debug)]
pub struct SwitchResult {
    /// Milliseconds since the epoch.
    pub target_time_millis: i64,
    /// Milliseconds since the epoch.
    pub actual_time_millis: i64,
    /// How late the switch was.
    pub delay_millis: i64,
    pub scene_id: String,
}

/// Model of a [`SwitchResult`].
#[verifier::ext_equal]
pub struct SwitchResultView {
    pub target: i64,
    pub actual: i64,
    pub delay: i64,
    pub scene_id: Seq<char>,
}

impl View for SwitchResult {
    type V = SwitchResultView;

    open spec fn view(&self) -> SwitchResultView {
        SwitchResultView {
            target: self.target_time_millis,
            actual: self.actual_time_millis,
            delay: self.delay_millis,
            scene_id: self.scene_id@,
        }
    }
}

/// A layer: its scene, and whether it is on screen.
#[derive(Debug)]
pub struct Layer {
    pub scene: Option<PreparedScene>,
    pub visible: bool,
}

/// Model of a [`Layer`].
#[verifier::ext_equal]
pub struct LayerView {
    pub scene: Option<PreparedSceneView>,
    pub visible: bool,
}

impl View for Layer {
    type V = LayerView;

    open spec fn view(&self) -> LayerView {
        LayerView {
            scene: match self.scene {
                Some(scene) => Some(scene@),
                None => None,
            },
            visible: self.visible,
        }
    }
}

/// Model of a [`DoubleBufferCompositor`].
#[verifier::ext_equal]
pub struct CompositorView {
    /// The layer that is on screen, or will stay dark until the first switch.
    pub front: LayerView,
    /// The hidden layer.
    pub back: LayerView,
    /// When the layers are to change places.
    pub pending: Option<i64>,
}

/// The two layers.
#[derive(Debug)]
pub struct DoubleBufferCompositor {
    front: Layer,
    back: Layer,
    /// Whether the second layer is the one on screen.
    swapped: bool,
    pending: Option<i64>,
}

impl View for DoubleBufferCompositor {
    type V = CompositorView;

    closed spec fn view(&self) -> CompositorView {
        CompositorView { front: self.front@, back: self.back@, pending: self.pending }
    }
}

/// The decoder of a layer's scene.
pub open spec fn lease_of(layer: LayerView) -> Option<Lease> {
    match layer.scene {
        Some(scene) => scene.lease,
        None => None,
    }
}

/// A layer whose scene has given its decoder back.
pub open spec fn without_decoder(layer: LayerView) -> LayerView {
    LayerView {
        scene: match layer.scene {
            Some(scene) => Some(PreparedSceneView { lease: None, ..scene }),
            None => None,
        },
        ..layer
    }
}

/// The compositor once a scene was put on the hidden layer.
pub open spec fn preloaded(c: CompositorView, scene: PreparedSceneView) -> CompositorView {
    CompositorView { back: LayerView { scene: Some(scene), visible: false }, ..c }
}

/// The compositor once the layers have changed places.
pub open spec fn switched(c: CompositorView) -> CompositorView {
    CompositorView {
        front: LayerView { visible: true, ..c.back },
        back: LayerView { visible: false, ..without_decoder(c.front) },
        pending: None,
    }
}

/// What a switch at `now` comes to.
pub open spec fn switch_result(c: CompositorView, now: i64) -> SwitchResultView {
    let target = match c.pending {
        Some(target) => target,
        None => now,
    };
    SwitchResultView {
        target,
        actual: now,
        delay: (now - target) as i64,
        scene_id: c.back.scene->0.scene.scene_id,
    }
}

/// Whether the layers change places at `now`: the time has come, the hidden layer has a scene, and
/// where that shows a video its first frame is there, or has been waited for long enough.
pub open spec fn due(c: CompositorView, now: i64, said: Option<bool>) -> bool {
    match (c.pending, c.back.scene) {
        (Some(target), Some(scene)) => now >= target && (!scene.is_video || frame_ready(
            scene.lease,
            said,
        ) || now > target + VIDEO_FIRST_FRAME_WAIT_MS),
        _ => false,
    }
}

/// Whether the delay of a switch at `now` can be told.
pub open spec fn delay_fits(c: CompositorView, now: i64) -> bool {
    c.pending matches Some(target) ==> i64::MIN <= now - target <= i64::MAX
}

fn take_lease(layer: &mut Layer) -> (r: Option<Lease>)
    ensures
        r == lease_of(old(layer)@),
        final(layer)@ == without_decoder(old(layer)@),
{
    let mut scene: Option<PreparedScene> = None;
    std::mem::swap(&mut scene, &mut layer.scene);
    match scene {
        Some(mut prepared) => {
            let lease: Option<Lease> = prepared.lease;
            prepared.lease = None;
            layer.scene = Some(prepared);
            lease
        },
        None => None,
    }
}

impl DoubleBufferCompositor {
    /// Two empty layers, neither on screen.
    pub fn new() -> (r: DoubleBufferCompositor)
        ensures
            r@ == (CompositorView {
                front: LayerView { scene: None, visible: false },
                back: LayerView { scene: None, visible: false },
                pending: None,
            }),
            r.front_index() == 0,
    {
        DoubleBufferCompositor {
            front: Layer { scene: None, visible: false },
            back: Layer { scene: None, visible: false },
            swapped: false,
            pending: None,
        }
    }

    /// Which of the two layers is the one on screen.
    pub closed spec fn front_index(self) -> int {
        if self.swapped {
            1
        } else {
            0
        }
    }

    /// Which of the two layers is the one on screen.
    pub fn active(&self) -> (r: usize)
        ensures
            r == self.front_index(),
            r < 2,
    {
        if self.swapped {
            1
        } else {
            0
        }
    }

    /// The layer that is on screen.
    pub fn front(&self) -> (r: &Layer)
        ensures
            r@ == self@.front,
    {
        &self.front
    }

    /// The hidden layer.
    pub fn back(&self) -> (r: &Layer)
        ensures
            r@ == self@.back,
    {
        &self.back
    }

    /// Puts a scene on the hidden layer. The decoder of the scene that it takes the place of is to be
    /// stopped and given back.
    pub fn preload(&mut self, scene: PreparedScene) -> (r: Option<Lease>)
        ensures
            final(self)@ == preloaded(old(self)@, scene@),
            final(self).front_index() == old(self).front_index(),
            r == lease_of(old(self)@.back),
    {
        let freed: Option<Lease> = take_lease(&mut self.back);
        self.back = Layer { scene: Some(scene), visible: false };
        freed
    }

    /// Sets when the layers are to change places.
    pub fn switch_at(&mut self, target_time_millis: i64)
        ensures
            final(self)@ == (CompositorView { pending: Some(target_time_millis), ..old(self)@ }),
            final(self).front_index() == old(self).front_index(),
    {
        self.pending = Some(target_time_millis);
    }

    /// Has the layers change places. Where the hidden layer has no scene nothing happens: what is on
    /// screen stays. The decoder of the scene that went off screen is to be stopped and given back.
    pub fn switch_now(&mut self, now: i64) -> (r: Option<(SwitchResult, Option<Lease>)>)
        requires
            delay_fits(old(self)@, now),
        ensures
            match r {
                Some((result, freed)) => {
                    &&& old(self)@.back.scene is Some
                    &&& final(self)@ == switched(old(self)@)
                    &&& final(self).front_index() == 1 - old(self).front_index()
                    &&& result@ == switch_result(old(self)@, now)
                    &&& freed == lease_of(old(self)@.front)
                },
                None => {
                    &&& old(self)@.back.scene is None
                    &&& *final(self) == *old(self)
                },
            },
    {
        let scene_id: String = match &self.back.scene {
            Some(scene) => scene.scene.scene_id.as_str().to_owned(),
            None => {
                return None;
            },
        };
        let target: i64 = match self.pending {
            Some(target) => target,
            None => now,
        };
        let ghost before = self@;
        assert(before.back.scene->0.scene.scene_id == scene_id@);
        let freed: Option<Lease> = take_lease(&mut self.front);
        std::mem::swap(&mut self.front, &mut self.back);
        self.front.visible = true;
        self.back.visible = false;
        self.swapped = !self.swapped;
        self.pending = None;
        assert(self@ =~= switched(before));
        Some(
            (
                SwitchResult {
                    target_time_millis: target,
                    actual_time_millis: now,
                    delay_millis: now - target,
                    scene_id,
                },
                freed,
            ),
        )
    }

    /// Has the layers change places where that is due. It is called for every frame that is drawn.
    /// `said` is what the decoder of the hidden scene said of its first frame; a decoder that is busy
    /// says nothing.
    pub fn tick(&mut self, now: i64, said: Option<bool>) -> (r: Option<(SwitchResult, Option<Lease>)>)
        requires
            delay_fits(old(self)@, now),
        ensures
            match r {
                Some((result, freed)) => {
                    &&& due(old(self)@, now, said)
                    &&& final(self)@ == switched(old(self)@)
                    &&& final(self).front_index() == 1 - old(self).front_index()
                    &&& result@ == switch_result(old(self)@, now)
                    &&& freed == lease_of(old(self)@.front)
                },
                None => {
                    &&& !due(old(self)@, now, said)
                    &&& *final(self) == *old(self)
                },
            },
    {
        let target: i64 = match self.pending {
            Some(target) => target,
            None => {
                return None;
            },
        };
        if now < target {
            return None;
        }
        match &self.back.scene {
            Some(scene) => {
                if scene.is_video && !scene.first_frame_ready(said) && now as i128 <= target as i128
                    + VIDEO_FIRST_FRAME_WAIT_MS as i128 {
                    return None;
                }
            },
            None => {
                return None;
            },
        }
        self.switch_now(now)
    }
}

/// Where the hidden layer has no scene, what is on screen stays.
pub proof fn unprepared_scenes_are_not_switched_to(
    c: CompositorView,
    now: i64,
    said: Option<bool>,
)
    ensures
        c.back.scene is None ==> !due(c, now, said),
{
}

/// A switch is never early. A scene without a video is switched to at the first frame from its time
/// on; one with a video when its first frame is there, and two seconds late at most for want of it.
pub proof fn switches_are_on_time(c: CompositorView, now: i64, said: Option<bool>)
    requires
        c.pending is Some,
        c.back.scene is Some,
        delay_fits(c, now),
    ensures
        due(c, now, said) ==> switch_result(c, now).delay >= 0,
        now >= c.pending->0 && !c.back.scene->0.is_video ==> due(c, now, said),
        now >= c.pending->0 && said == Some(true) ==> due(c, now, said),
        now > c.pending->0 + VIDEO_FIRST_FRAME_WAIT_MS ==> due(c, now, said),
        c.back.scene->0.is_video && c.back.scene->0.lease is Some && said != Some(true) && now
            <= c.pending->0 + VIDEO_FIRST_FRAME_WAIT_MS ==> !due(c, now, said),
{
}

/// Putting a scene on the hidden layer does not touch what is on screen. A switch shows the scene
/// that was hidden as it was prepared, hides the other, and is done with its time.
pub proof fn switching_only_changes_what_is_visible(
    c: CompositorView,
    scene: PreparedSceneView,
)
    ensures
        preloaded(c, scene).front == c.front,
        !preloaded(c, scene).back.visible,
        preloaded(c, scene).pending == c.pending,
        switched(preloaded(c, scene)).front == (LayerView { scene: Some(scene), visible: true }),
        !switched(c).back.visible,
        switched(c).front.scene == c.back.scene,
        switched(c).pending is None,
        lease_of(switched(c).back) is None,
{
}

/// What is drawn for an element.
#[derive(Debug)]
pub enum ElementDraw {
    /// The image at this place among those that were decoded.
    Image(usize),
    /// A color.
    Fill([u8; 4]),
    /// The frames of the video.
    Video,
}

/// Model of an [`ElementDraw`].
#[verifier::ext_equal]
pub enum ElementDrawView {
    Image(int),
    Fill(Seq<u8>),
    Video,
}

impl View for ElementDraw {
    type V = ElementDrawView;

    open spec fn view(&self) -> ElementDrawView {
        match self {
            ElementDraw::Image(i) => ElementDrawView::Image(*i as int),
            ElementDraw::Fill(color) => ElementDrawView::Fill(color@),
            ElementDraw::Video => ElementDrawView::Video,
        }
    }
}

/// The color of a text whose own cannot be read.
pub open spec fn plain_color() -> Seq<u8> {
    seq![30u8, 30, 30, 255]
}

/// What is drawn for an element: an image that was decoded, the background of a text, the frames of
/// a video that has a file. For anything else nothing is drawn.
pub open spec fn draw_of(e: RenderElementView, images: Seq<CacheEntry>) -> Option<ElementDrawView> {
    if is_image(e.element) {
        match e.image_path {
            Some(path) => match find_key(images, path) {
                Some(i) => Some(ElementDrawView::Image(i)),
                None => None,
            },
            None => None,
        }
    } else if is_text(e.element) {
        match e.element.background_color {
            Some(color) => Some(
                ElementDrawView::Fill(
                    match color_of(color) {
                        Some(c) => c,
                        None => plain_color(),
                    },
                ),
            ),
            None => None,
        }
    } else if is_video(e.element) && e.image_path is Some {
        Some(ElementDrawView::Video)
    } else {
        None
    }
}

/// What is drawn for elements, each with where the element stands.
pub open spec fn draws_of(elements: Seq<RenderElementView>, images: Seq<CacheEntry>) -> Seq<
    (int, ElementDrawView),
>
    decreases elements.len(),
{
    if elements.len() == 0 {
        Seq::empty()
    } else {
        let before = draws_of(elements.drop_last(), images);
        match draw_of(elements.last(), images) {
            Some(draw) => before.push((elements.len() - 1, draw)),
            None => before,
        }
    }
}

/// The models of a list of what is drawn.
pub open spec fn draw_views(draws: Seq<(usize, ElementDraw)>) -> Seq<(int, ElementDrawView)> {
    Seq::new(draws.len(), |i: int| (draws[i].0 as int, draws[i].1@))
}

/// Where the image of this name stands among those that were decoded.
pub fn find_image(images: &Vec<(String, RgbaBitmap)>, key: &str) -> (r: Option<usize>)
    ensures
        match r {
            Some(i) => find_key(image_views(images@), key@) == Some(i as int) && i < images@.len(),
            None => find_key(image_views(images@), key@) is None,
        },
{
    let ghost views = image_views(images@);
    let mut i: usize = images.len();
    assert(views.take(views.len() as int) =~= views);
    while i > 0
        invariant
            i <= images@.len(),
            views == image_views(images@),
            find_key(views, key@) == find_key(views.take(i as int), key@),
        decreases i,
    {
        assert(views.take(i as int).drop_last() =~= views.take(i - 1));
        assert(views.take(i as int).last() == views[i - 1]);
        if same_text(images[i - 1].0.as_str(), key) {
            return Some(i - 1);
        }
        i = i - 1;
    }
    None
}

fn element_draw(e: &RenderElement, images: &Vec<(String, RgbaBitmap)>) -> (r: Option<ElementDraw>)
    ensures
        match r {
            Some(draw) => draw_of(e@, image_views(images@)) == Some(draw@),
            None => draw_of(e@, image_views(images@)) is None,
        },
{
    if same_text(e.element.element_type.as_str(), "image") {
        match &e.image_path {
            Some(path) => match find_image(images, path.as_str()) {
                Some(i) => Some(ElementDraw::Image(i)),
                None => None,
            },
            None => None,
        }
    } else if same_text(e.element.element_type.as_str(), "text") {
        match &e.element.background_color {
            Some(color) => match parse_hex_color(color.as_str()) {
                Some(c) => Some(ElementDraw::Fill(c)),
                None => {
                    let plain: [u8; 4] = [30, 30, 30, 255];
                    assert(plain@ =~= plain_color());
                    Some(ElementDraw::Fill(plain))
                },
            },
            None => None,
        }
    } else if same_text(e.element.element_type.as_str(), "video") && e.image_path.is_some() {
        Some(ElementDraw::Video)
    } else {
        None
    }
}

/// What is drawn for the elements of a scene, in order.
pub fn scene_draws(scene: &PreparedScene) -> (r: Vec<(usize, ElementDraw)>)
    ensures
        draw_views(r@) == draws_of(scene@.plan.elements, scene@.images),
{
    let elements = &scene.plan.elements;
    let ghost views = drawn_views(elements@);
    let ghost images = image_views(scene.images@);
    let mut out: Vec<(usize, ElementDraw)> = Vec::new();
    let mut i: usize = 0;
    assert(views.take(0) =~= Seq::empty());
    assert(draw_views(out@) =~= Seq::empty());
    while i < elements.len()
        invariant
            i <= elements@.len(),
            elements == scene.plan.elements,
            views == drawn_views(elements@),
            images == image_views(scene.images@),
            draw_views(out@) == draws_of(views.take(i as int), images),
        decreases elements@.len() - i,
    {
        let ghost before = draw_views(out@);
        assert(views.take(i + 1).drop_last() =~= views.take(i as int));
        assert(views[i as int] == elements@[i as int]@);
        if let Some(draw) = element_draw(&elements[i], &scene.images) {
            let ghost view = draw@;
            out.push((i, draw));
            assert(draw_views(out@) =~= before.push((i as int, view)));
        }
        i = i + 1;
    }
    assert(views.take(i as int) =~= views);
    out
}

/// What is drawn comes in the order of the elements, and no element is drawn twice.
pub proof fn drawing_keeps_the_order(elements: Seq<RenderElementView>, images: Seq<CacheEntry>)
    ensures
        forall|a: int|
            0 <= a < draws_of(elements, images).len() ==> 0
                <= (#[trigger] draws_of(elements, images)[a]).0 < elements.len()
                && draw_of(elements[draws_of(elements, images)[a].0], images) == Some(
                draws_of(elements, images)[a].1,
            ),
        forall|a: int, b: int|
            0 <= a < b < draws_of(elements, images).len() ==> (#[trigger] draws_of(
                elements,
                images,
            )[a]).0 < (#[trigger] draws_of(elements, images)[b]).0,
    decreases elements.len(),
{
    if elements.len() > 0 {
        let shorter = elements.drop_last();
        let before = draws_of(shorter, images);
        let out = draws_of(elements, images);
        drawing_keeps_the_order(shorter, images);
        assert forall|a: int| 0 <= a < out.len() implies 0 <= (#[trigger] out[a]).0
            < elements.len() && draw_of(elements[out[a].0], images) == Some(out[a].1) by {
            if a < before.len() {
                assert(out[a] == before[a]);
                assert(shorter[before[a].0] == elements[before[a].0]);
            }
        }
        assert forall|a: int, b: int| 0 <= a < b < out.len() implies (#[trigger] out[a]).0 < (
        #[trigger] out[b]).0 by {
            assert(out[a] == before[a]);
            if b < before.len() {
                assert(out[b] == before[b]);
            }
        }
    }
}

/// What a switch came to, and a layer, are modelled field by field.
pub proof fn layer_models_are_faithful(result: SwitchResult, layer: Layer)
    ensures
        result@.target == result.target_time_millis,
        result@.actual == result.actual_time_millis,
        result@.delay == result.delay_millis,
        result@.scene_id == result.scene_id@,
        layer@.visible == layer.visible,
        layer.scene matches Some(scene) ==> layer@.scene == Some(scene@),
        layer.scene is None ==> layer@.scene is None,
{
}

/// A switch names the scene that comes on screen, when it was to come, when it came and how late
/// that was. One without a time is on time.
pub proof fn switches_tell_how_late_they_are(c: CompositorView, now: i64)
    requires
        delay_fits(c, now),
    ensures
        switch_result(c, now).actual == now,
        c.pending matches Some(target) ==> switch_result(c, now).target == target && switch_result(
            c,
            now,
        ).delay == now - target,
        c.pending is None ==> switch_result(c, now).target == now && switch_result(c, now).delay
            == 0,
        c.back.scene matches Some(scene) ==> switch_result(c, now).scene_id
            == scene.scene.scene_id,
        switched(c).front.scene matches Some(scene) ==> switch_result(c, now).scene_id
            == scene.scene.scene_id,
{
}

/// Layers change places from the time that was set on and never without one. A scene with a video
/// waits up to two thousand milliseconds for its first frame.
pub proof fn switches_wait_two_seconds_for_a_frame(
    c: CompositorView,
    now: i64,
    said: Option<bool>,
)
    requires
        c.back.scene is Some,
    ensures
        c.pending is None ==> !due(c, now, said),
        c.pending matches Some(target) ==> {
            let scene = c.back.scene->0;
            let ready = !scene.is_video || scene.lease is None || said == Some(true);
            &&& now < target ==> !due(c, now, said)
            &&& now >= target && ready ==> due(c, now, said)
            &&& target <= now <= target + 2_000 && !ready ==> !due(c, now, said)
            &&& now > target + 2_000 ==> due(c, now, said)
        },
{
}

/// A scene goes off screen as it was, but for the decoder that it gives back. What was hidden comes
/// on screen with the decoder that it had.
pub proof fn scenes_go_off_screen_without_their_decoder(c: CompositorView)
    ensures
        switched(c).front.visible,
        switched(c).front.scene == c.back.scene,
        lease_of(switched(c).front) == lease_of(c.back),
        c.front.scene is None ==> switched(c).back.scene is None,
        c.front.scene matches Some(scene) ==> {
            let off = switched(c).back.scene->0;
            &&& switched(c).back.scene is Some
            &&& lease_of(c.front) == scene.lease
            &&& off.lease is None
            &&& off.scene == scene.scene
            &&& off.plan == scene.plan
            &&& off.images == scene.images
            &&& off.video == scene.video
            &&& off.is_video == scene.is_video
            &&& off.prepared_at == scene.prepared_at
        },
{
}

/// An image shows what was decoded from its own file, a text its background, and a video its frames
/// where it has a file. A background that says no color is dark grey. Nothing else is drawn.
pub proof fn elements_are_drawn_by_their_kind(e: RenderElementView, images: Seq<CacheEntry>)
    ensures
        e.element.element_type == "image"@ ==> match draw_of(e, images) {
            Some(ElementDrawView::Image(i)) => 0 <= i < images.len() && Some(images[i].0)
                == e.image_path,
            None => e.image_path is None || forall|i: int|
                0 <= i < images.len() ==> Some((#[trigger] images[i]).0) != e.image_path,
            _ => false,
        },
        e.element.element_type == "text"@ ==> {
            &&& e.element.background_color is None ==> draw_of(e, images) is None
            &&& e.element.background_color matches Some(color) ==> {
                &&& color_of(color) matches Some(c) ==> draw_of(e, images) == Some(
                    ElementDrawView::Fill(c),
                )
                &&& color_of(color) is None ==> draw_of(e, images) == Some(
                    ElementDrawView::Fill(seq![30u8, 30, 30, 255]),
                )
            }
        },
        e.element.element_type == "video"@ ==> draw_of(e, images) == if e.image_path is Some {
            Some(ElementDrawView::Video)
        } else {
            None
        },
        e.element.element_type != "image"@ && e.element.element_type != "text"@
            && e.element.element_type != "video"@ ==> draw_of(e, images) is None,
{
    reveal_strlit("image");
    reveal_strlit("text");
    reveal_strlit("video");
    assert("text"@.len() != "image"@.len());
    assert("text"@.len() != "video"@.len());
    assert("image"@[0] != "video"@[0]);
    if let Some(path) = e.image_path {
        the_last_entry_of_a_name_is_found(images, path);
    }
}

/// Every element that has something to draw is drawn.
pub proof fn nothing_to_draw_is_left_out(elements: Seq<RenderElementView>, images: Seq<CacheEntry>)
    ensures
        forall|i: int|
            #![trigger elements[i]]
            0 <= i < elements.len() && draw_of(elements[i], images) is Some ==> exists|k: int|
                0 <= k < draws_of(elements, images).len() && (#[trigger] draws_of(
                    elements,
                    images,
                )[k]) == (i, draw_of(elements[i], images)->0),
    decreases elements.len(),
{
    if elements.len() > 0 {
        let shorter = elements.drop_last();
        let before = draws_of(shorter, images);
        let out = draws_of(elements, images);
        nothing_to_draw_is_left_out(shorter, images);
        assert forall|i: int|
            #![trigger elements[i]]
            0 <= i < elements.len() && draw_of(elements[i], images) is Some implies exists|k: int|
            0 <= k < out.len() && (#[trigger] out[k]) == (
                i,
                draw_of(elements[i], images)->0,
            ) by {
            if i < shorter.len() {
                assert(shorter[i] == elements[i]);
                let k = choose|k: int|
                    0 <= k < before.len() && (#[trigger] before[k]) == (
                        i,
                        draw_of(shorter[i], images)->0,
                    );
                assert(out[k] == before[k]);
            } else {
                assert(out[before.len() as int] == (i, draw_of(elements[i], images)->0));
            }
        }
    }
}

/// What is drawn is modelled one by one.
pub proof fn drawing_models_are_faithful(draws: Seq<(usize, ElementDraw)>)
    ensures
        draw_views(draws).len() == draws.len(),
        forall|i: int|
            0 <= i < draws.len() ==> {
                let d = #[trigger] draw_views(draws)[i];
                &&& d.0 == draws[i].0
                &&& draws[i].1 matches ElementDraw::Image(n) ==> d.1 == ElementDrawView::Image(
                    n as int,
                )
                &&& draws[i].1 matches ElementDraw::Fill(color) ==> d.1 == ElementDrawView::Fill(
                    color@,
                )
                &&& draws[i].1 is Video ==> d.1 is Video
            },
{
}
} // verus!
