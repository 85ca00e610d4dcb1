//! A demonstration without a schedule: one scene after ten seconds, another after twenty.

use std::sync::Arc;

use vstd::prelude::*;

use crate::timeline::models::{
    asset_views, element_views, LayoutDefinition, LayoutDefinitionView, LayoutElement,
    LayoutElementView, SceneView,
};
use crate::timeline::PlaybackScene;

verus! {

/// When the first scene starts, counted from the start of the demonstration.
pub const SAMPLE_A_START_MS: i64 = 10_000;

/// When the second scene starts.
pub const SAMPLE_B_START_MS: i64 = 20_000;

/// When the second scene ends.
pub const SAMPLE_B_END_MS: i64 = 40_000;

/// When the second scene is prepared.
pub const SAMPLE_B_PREPARE_MS: i64 = 8_000;

/// The one element of a scene of the demonstration: a text on a ground of some color.
pub open spec fn sample_element(id: Seq<char>, color: Seq<char>) -> LayoutElementView {
    LayoutElementView {
        id: "bg"@,
        x: 0,
        y: 0,
        width: 1080,
        height: 1920,
        element_type: "text"@,
        keep_aspect_ratio: false,
        file_id: None,
        content: Some("OnePlayer sample "@ + id),
        font: None,
        font_size: Some(48i32),
        bold: true,
        italic: false,
        underline: false,
        strikethrough: false,
        background_color: Some(color),
        text_color: Some("#ffffff"@),
        border_color: None,
        border_width: None,
        z_index: Some(1i32),
    }
}

/// A scene of the demonstration.
pub open spec fn sample_view(id: Seq<char>, start: i64, end: i64, color: Seq<char>) -> SceneView {
    SceneView {
        scene_id: id,
        schedule_id: 1,
        playlist_id: 1,
        item_id: 1,
        start,
        end,
        transition: None,
        loop_playback: false,
        layout: Some(
            LayoutDefinitionView {
                id: 1,
                name: id,
                group_name: None,
                width: 1080,
                height: 1920,
                elements: seq![sample_element(id, color)],
                default_duration: Some(10i64),
            },
        ),
        asset_refs: Seq::empty(),
        rtb: None,
        fallback: None,
    }
}

/// A scene of the demonstration.
pub fn sample_scene(id: &str, start: i64, end: i64, color: &str) -> (r: PlaybackScene)
    ensures
        r@ == sample_view(id@, start, end, color@),
        r.start_time_millis == start,
        r.end_time_millis == end,
{
    let mut content: String = "OnePlayer sample ".to_owned();
    content.append(id);
    let mut elements: Vec<LayoutElement> = Vec::new();
    elements.push(
        LayoutElement {
            id: "bg".to_owned(),
            x: 0,
            y: 0,
            width: 1080,
            height: 1920,
            element_type: "text".to_owned(),
            keep_aspect_ratio: false,
            file_id: None,
            content: Some(content),
            font: None,
            font_size: Some(48),
            bold: true,
            italic: false,
            underline: false,
            strikethrough: false,
            background_color: Some(color.to_owned()),
            text_color: Some("#ffffff".to_owned()),
            border_color: None,
            border_width: None,
            z_index: Some(1),
        },
    );
    assert(element_views(elements@) =~= seq![sample_element(id@, color@)]);
    let layout: LayoutDefinition = LayoutDefinition {
        id: 1,
        name: id.to_owned(),
        group_name: None,
        width: 1080,
        height: 1920,
        elements,
        default_duration: Some(10),
    };
    let scene: PlaybackScene = PlaybackScene {
        scene_id: id.to_owned(),
        schedule_id: 1,
        playlist_id: 1,
        item_id: 1,
        start_time_millis: start,
        end_time_millis: end,
        transition: None,
        loop_playback: false,
        layout: Some(Arc::new(layout)),
        asset_refs: Vec::new(),
        rtb: None,
        fallback_scene: None,
    };
    assert(asset_views(scene.asset_refs@) =~= Seq::empty());
    scene
}

/// When the second scene is prepared and switched to.
#[derive(Debug)]
pub struct SampleSchedule {
    pub scene_b: PlaybackScene,
    /// Milliseconds since the epoch.
    pub prepare_b_at: i64,
    /// Milliseconds since the epoch.
    pub switch_b_at: i64,
    /// Whether the scene has been prepared.
    pub b_prepared: bool,
}

/// The first scene of a demonstration that starts at `now`.
pub fn sample_a(now: i64) -> (r: PlaybackScene)
    requires
        now <= i64::MAX - SAMPLE_B_START_MS,
    ensures
        r@ == sample_view(
            "sample-a"@,
            (now + SAMPLE_A_START_MS) as i64,
            (now + SAMPLE_B_START_MS) as i64,
            "#2244aa"@,
        ),
        r.start_time_millis == now + 10_000,
        r.end_time_millis == now + 20_000,
{
    sample_scene("sample-a", now + SAMPLE_A_START_MS, now + SAMPLE_B_START_MS, "#2244aa")
}

/// The schedule of a demonstration that starts at `now`.
pub fn create_sample_schedule(now: i64) -> (r: SampleSchedule)
    requires
        now <= i64::MAX - SAMPLE_B_END_MS,
    ensures
        r.scene_b@ == sample_view(
            "sample-b"@,
            (now + SAMPLE_B_START_MS) as i64,
            (now + SAMPLE_B_END_MS) as i64,
            "#aa4422"@,
        ),
        r.prepare_b_at == now + SAMPLE_B_PREPARE_MS,
        r.switch_b_at == now + SAMPLE_B_START_MS,
        !r.b_prepared,
        r.scene_b.start_time_millis == now + 20_000,
        r.scene_b.end_time_millis == now + 40_000,
        r.prepare_b_at == now + 8_000,
        r.switch_b_at == now + 20_000,
{
    SampleSchedule {
        scene_b: sample_scene(
            "sample-b",
            now + SAMPLE_B_START_MS,
            now + SAMPLE_B_END_MS,
            "#aa4422",
        ),
        prepare_b_at: now + SAMPLE_B_PREPARE_MS,
        switch_b_at: now + SAMPLE_B_START_MS,
        b_prepared: false,
    }
}

impl SampleSchedule {
    /// Whether the second scene is to be prepared now.
    pub fn prepare_due(&self, now: i64) -> (r: bool)
        ensures
            r == (!self.b_prepared && now >= self.prepare_b_at),
    {
        !self.b_prepared && now >= self.prepare_b_at
    }

    /// Notes that the second scene has been prepared.
    pub fn mark_prepared(&mut self)
        ensures
            *final(self) == (SampleSchedule { b_prepared: true, ..*old(self) }),
    {
        self.b_prepared = true;
    }
}

/// A scene of the demonstration runs from its start to its end and fills an upright screen with its
/// color. What it says ends in its id. It needs no file and shows no video.
pub proof fn demonstrations_fill_the_screen_with_a_color(
    id: Seq<char>,
    start: i64,
    end: i64,
    color: Seq<char>,
)
    ensures
        ({
            let scene = sample_view(id, start, end, color);
            let layout = scene.layout->0;
            let e = layout.elements[0];
            &&& scene.scene_id == id
            &&& scene.start == start
            &&& scene.end == end
            &&& scene.asset_refs.len() == 0
            &&& scene.rtb is None
            &&& scene.fallback is None
            &&& !scene.loop_playback
            &&& scene.layout is Some
            &&& scene.schedule_id == 1
            &&& scene.playlist_id == 1
            &&& scene.item_id == 1
            &&& scene.transition is None
            &&& layout.id == 1
            &&& layout.name == id
            &&& layout.group_name is None
            &&& layout.default_duration == Some(10i64)
            &&& layout.width == 1080
            &&& layout.height == 1920
            &&& layout.elements.len() == 1
            &&& e.id == "bg"@
            &&& e.x == 0 && e.y == 0
            &&& e.width == layout.width && e.height == layout.height
            &&& e.element_type == "text"@
            &&& e.background_color == Some(color)
            &&& e.text_color == Some("#ffffff"@)
            &&& e.content == Some("OnePlayer sample "@ + id)
            &&& e.file_id is None
            &&& e.font is None
            &&& e.font_size == Some(48i32)
            &&& e.bold
            &&& !e.italic
            &&& !e.underline
            &&& !e.strikethrough
            &&& !e.keep_aspect_ratio
            &&& e.border_color is None
            &&& e.border_width is None
            &&& e.z_index == Some(1i32)
        }),
{
}
} // verus!
