//! The data of a timeline: assets, layouts, scenes.
//!
//! Each type has a model in which strings and vectors are sequences.

use std::sync::Arc;

use vstd::prelude::*;

use crate::text::{opt_text, same_text};

verus! {

/// A file that has to be downloaded.
#[derive(Debug)]
pub struct AssetRef {
    /// Two revisions of one file are two files.
    pub file_id: i64,
    pub revision: String,
    pub download_url: String,
    pub mime_type: Option<String>,
    pub size_bytes: Option<i64>,
    pub checksum: Option<String>,
}

/// Model of an [`AssetRef`].
#[verifier::ext_equal]
pub struct AssetRefView {
    pub file_id: i64,
    pub revision: Seq<char>,
    pub download_url: Seq<char>,
    pub mime_type: Option<Seq<char>>,
    pub size_bytes: Option<i64>,
    pub checksum: Option<Seq<char>>,
}

impl View for AssetRef {
    type V = AssetRefView;

    open spec fn view(&self) -> AssetRefView {
        AssetRefView {
            file_id: self.file_id,
            revision: self.revision@,
            download_url: self.download_url@,
            mime_type: opt_text(self.mime_type),
            size_bytes: self.size_bytes,
            checksum: opt_text(self.checksum),
        }
    }
}

impl Clone for AssetRef {
    fn clone(&self) -> (r: Self)
        ensures
            r@ == self@,
    {
        AssetRef {
            file_id: self.file_id,
            revision: self.revision.clone(),
            download_url: self.download_url.clone(),
            mime_type: self.mime_type.clone(),
            size_bytes: self.size_bytes,
            checksum: self.checksum.clone(),
        }
    }
}

/// One element of a layout: an image, a video, a text. Coordinates are those of the layout.
#[derive(Debug)]
pub struct LayoutElement {
    pub id: String,
    pub x: i32,
    pub y: i32,
    pub width: i32,
    pub height: i32,
    /// `image`, `video`, `text`, ...
    pub element_type: String,
    pub keep_aspect_ratio: bool,
    /// The file of an image or a video.
    pub file_id: Option<i64>,
    /// What a text says.
    pub content: Option<String>,
    pub font: Option<String>,
    pub font_size: Option<i32>,
    pub bold: bool,
    pub italic: bool,
    pub underline: bool,
    pub strikethrough: bool,
    pub background_color: Option<String>,
    pub text_color: Option<String>,
    pub border_color: Option<String>,
    pub border_width: Option<i32>,
    /// Order of drawing; the highest is on top.
    pub z_index: Option<i32>,
}

/// Model of a [`LayoutElement`].
#[verifier::ext_equal]
pub struct LayoutElementView {
    pub id: Seq<char>,
    pub x: i32,
    pub y: i32,
    pub width: i32,
    pub height: i32,
    pub element_type: Seq<char>,
    pub keep_aspect_ratio: bool,
    pub file_id: Option<i64>,
    pub content: Option<Seq<char>>,
    pub font: Option<Seq<char>>,
    pub font_size: Option<i32>,
    pub bold: bool,
    pub italic: bool,
    pub underline: bool,
    pub strikethrough: bool,
    pub background_color: Option<Seq<char>>,
    pub text_color: Option<Seq<char>>,
    pub border_color: Option<Seq<char>>,
    pub border_width: Option<i32>,
    pub z_index: Option<i32>,
}

impl View for LayoutElement {
    type V = LayoutElementView;

    open spec fn view(&self) -> LayoutElementView {
        LayoutElementView {
            id: self.id@,
            x: self.x,
            y: self.y,
            width: self.width,
            height: self.height,
            element_type: self.element_type@,
            keep_aspect_ratio: self.keep_aspect_ratio,
            file_id: self.file_id,
            content: opt_text(self.content),
            font: opt_text(self.font),
            font_size: self.font_size,
            bold: self.bold,
            italic: self.italic,
            underline: self.underline,
            strikethrough: self.strikethrough,
            background_color: opt_text(self.background_color),
            text_color: opt_text(self.text_color),
            border_color: opt_text(self.border_color),
            border_width: self.border_width,
            z_index: self.z_index,
        }
    }
}

impl Clone for LayoutElement {
    fn clone(&self) -> (r: Self)
        ensures
            r@ == self@,
    {
        LayoutElement {
            id: self.id.clone(),
            x: self.x,
            y: self.y,
            width: self.width,
            height: self.height,
            element_type: self.element_type.clone(),
            keep_aspect_ratio: self.keep_aspect_ratio,
            file_id: self.file_id,
            content: self.content.clone(),
            font: self.font.clone(),
            font_size: self.font_size,
            bold: self.bold,
            italic: self.italic,
            underline: self.underline,
            strikethrough: self.strikethrough,
            background_color: self.background_color.clone(),
            text_color: self.text_color.clone(),
            border_color: self.border_color.clone(),
            border_width: self.border_width,
            z_index: self.z_index,
        }
    }
}

/// The models of a list of elements.
pub open spec fn element_views(elements: Seq<LayoutElement>) -> Seq<LayoutElementView> {
    Seq::new(elements.len(), |i: int| elements[i]@)
}

/// Copies a list of elements.
pub fn copy_elements(elements: &Vec<LayoutElement>) -> (r: Vec<LayoutElement>)
    ensures
        element_views(r@) == element_views(elements@),
{
    let mut out: Vec<LayoutElement> = Vec::new();
    let mut i: usize = 0;
    while i < elements.len()
        invariant
            i <= elements@.len(),
            out@.len() == i,
            forall|j: int| 0 <= j < i ==> (#[trigger] out@[j])@ == elements@[j]@,
        decreases elements@.len() - i,
    {
        out.push(elements[i].clone());
        i = i + 1;
    }
    out
}

/// How a screen is composed.
#[derive(Debug)]
pub struct LayoutDefinition {
    pub id: i64,
    pub name: String,
    pub group_name: Option<String>,
    /// Size that the coordinates of the elements refer to.
    pub width: i32,
    pub height: i32,
    /// In ascending order of `z_index`.
    pub elements: Vec<LayoutElement>,
    pub default_duration: Option<i64>,
}

/// Model of a [`LayoutDefinition`].
#[verifier::ext_equal]
pub struct LayoutDefinitionView {
    pub id: i64,
    pub name: Seq<char>,
    pub group_name: Option<Seq<char>>,
    pub width: i32,
    pub height: i32,
    pub elements: Seq<LayoutElementView>,
    pub default_duration: Option<i64>,
}

impl View for LayoutDefinition {
    type V = LayoutDefinitionView;

    open spec fn view(&self) -> LayoutDefinitionView {
        LayoutDefinitionView {
            id: self.id,
            name: self.name@,
            group_name: opt_text(self.group_name),
            width: self.width,
            height: self.height,
            elements: element_views(self.elements@),
            default_duration: self.default_duration,
        }
    }
}

impl Clone for LayoutDefinition {
    fn clone(&self) -> (r: Self)
        ensures
            r@ == self@,
    {
        LayoutDefinition {
            id: self.id,
            name: self.name.clone(),
            group_name: self.group_name.clone(),
            width: self.width,
            height: self.height,
            elements: copy_elements(&self.elements),
            default_duration: self.default_duration,
        }
    }
}

/// The moments of an advertisement that are reported.
#[derive(Debug, Clone, Copy, PartialEq, Eq, Structural)]
pub enum TrackingEvent {
    Impression,
    Start,
    FirstQuartile,
    Midpoint,
    ThirdQuartile,
    Complete,
}

impl TrackingEvent {
    /// The event's name.
    pub open spec fn name(self) -> Seq<char> {
        match self {
            TrackingEvent::Impression => "impression"@,
            TrackingEvent::Start => "start"@,
            TrackingEvent::FirstQuartile => "firstquartile"@,
            TrackingEvent::Midpoint => "midpoint"@,
            TrackingEvent::ThirdQuartile => "thirdquartile"@,
            TrackingEvent::Complete => "complete"@,
        }
    }

    /// The event that is called `name`.
    pub open spec fn named(name: Seq<char>) -> Option<TrackingEvent> {
        if name == "impression"@ {
            Some(TrackingEvent::Impression)
        } else if name == "start"@ {
            Some(TrackingEvent::Start)
        } else if name == "firstquartile"@ {
            Some(TrackingEvent::FirstQuartile)
        } else if name == "midpoint"@ {
            Some(TrackingEvent::Midpoint)
        } else if name == "thirdquartile"@ {
            Some(TrackingEvent::ThirdQuartile)
        } else if name == "complete"@ {
            Some(TrackingEvent::Complete)
        } else {
            None
        }
    }

    /// The event that is called `name`.
    pub fn parse(name: &str) -> (r: Option<TrackingEvent>)
        ensures
            r == TrackingEvent::named(name@),
    {
        if same_text(name, "impression") {
            Some(TrackingEvent::Impression)
        } else if same_text(name, "start") {
            Some(TrackingEvent::Start)
        } else if same_text(name, "firstquartile") {
            Some(TrackingEvent::FirstQuartile)
        } else if same_text(name, "midpoint") {
            Some(TrackingEvent::Midpoint)
        } else if same_text(name, "thirdquartile") {
            Some(TrackingEvent::ThirdQuartile)
        } else if same_text(name, "complete") {
            Some(TrackingEvent::Complete)
        } else {
            None
        }
    }

    /// The event's name.
    pub fn as_str(self) -> (r: &'static str)
        ensures
            r@ == self.name(),
    {
        match self {
            TrackingEvent::Impression => "impression",
            TrackingEvent::Start => "start",
            TrackingEvent::FirstQuartile => "firstquartile",
            TrackingEvent::Midpoint => "midpoint",
            TrackingEvent::ThirdQuartile => "thirdquartile",
            TrackingEvent::Complete => "complete",
        }
    }
}

/// An event's name parses back to the event.
pub proof fn tracking_names_parse_back(event: TrackingEvent)
    ensures
        TrackingEvent::named(event.name()) == Some(event),
{
    reveal_strlit("impression");
    reveal_strlit("start");
    reveal_strlit("firstquartile");
    reveal_strlit("midpoint");
    reveal_strlit("thirdquartile");
    reveal_strlit("complete");
    assert("impression"@.len() == 10 && "start"@.len() == 5);
    assert("midpoint"@.len() == 8 && "complete"@.len() == 8);
    assert("firstquartile"@.len() == 13 && "thirdquartile"@.len() == 13);
    assert("midpoint"@[0] != "complete"@[0]);
    assert("firstquartile"@[0] != "thirdquartile"@[0]);
}

/// The events by the names that the bids know them by.
pub proof fn tracking_events_have_these_names()
    ensures
        TrackingEvent::Impression.name() == "impression"@,
        TrackingEvent::Start.name() == "start"@,
        TrackingEvent::FirstQuartile.name() == "firstquartile"@,
        TrackingEvent::Midpoint.name() == "midpoint"@,
        TrackingEvent::ThirdQuartile.name() == "thirdquartile"@,
        TrackingEvent::Complete.name() == "complete"@,
        forall|name: Seq<char>, event: TrackingEvent|
            #[trigger] TrackingEvent::named(name) == Some(event) ==> name == #[trigger] event.name(),
{
}

/// A URL to call at an event.
#[derive(Debug)]
pub struct TrackingUrl {
    pub event: TrackingEvent,
    pub url: String,
}

/// Model of a [`TrackingUrl`].
#[verifier::ext_equal]
pub struct TrackingUrlView {
    pub event: TrackingEvent,
    pub url: Seq<char>,
}

impl View for TrackingUrl {
    type V = TrackingUrlView;

    open spec fn view(&self) -> TrackingUrlView {
        TrackingUrlView {
            event: self.event,
            url: self.url@,
        }
    }
}

impl Clone for TrackingUrl {
    fn clone(&self) -> (r: Self)
        ensures
            r@ == self@,
    {
        TrackingUrl {
            event: self.event,
            url: self.url.clone(),
        }
    }
}

/// The models of a list of tracking URLs.
pub open spec fn tracking_views(urls: Seq<TrackingUrl>) -> Seq<TrackingUrlView> {
    Seq::new(urls.len(), |i: int| urls[i]@)
}

/// Copies a list of tracking URLs.
pub fn copy_tracking(urls: &Vec<TrackingUrl>) -> (r: Vec<TrackingUrl>)
    ensures
        tracking_views(r@) == tracking_views(urls@),
{
    let mut out: Vec<TrackingUrl> = Vec::new();
    let mut i: usize = 0;
    while i < urls.len()
        invariant
            i <= urls@.len(),
            out@.len() == i,
            forall|j: int| 0 <= j < i ==> (#[trigger] out@[j])@ == urls@[j]@,
        decreases urls@.len() - i,
    {
        out.push(urls[i].clone());
        i = i + 1;
    }
    out
}

/// What a scene that was sold in an auction carries along.
#[derive(Debug)]
pub struct RtbSceneMetadata {
    pub slot_id: String,
    pub request_id: Option<String>,
    pub bid_id: String,
    pub imp_id: String,
    pub ad_id: String,
    pub creative_id: String,
    /// The price, as the bits of a double.
    pub price: Option<u64>,
    pub currency: String,
    pub tracking: Vec<TrackingUrl>,
}

/// Model of [`RtbSceneMetadata`].
#[verifier::ext_equal]
pub struct RtbSceneMetadataView {
    pub slot_id: Seq<char>,
    pub request_id: Option<Seq<char>>,
    pub bid_id: Seq<char>,
    pub imp_id: Seq<char>,
    pub ad_id: Seq<char>,
    pub creative_id: Seq<char>,
    pub price: Option<u64>,
    pub currency: Seq<char>,
    pub tracking: Seq<TrackingUrlView>,
}

impl View for RtbSceneMetadata {
    type V = RtbSceneMetadataView;

    open spec fn view(&self) -> RtbSceneMetadataView {
        RtbSceneMetadataView {
            slot_id: self.slot_id@,
            request_id: opt_text(self.request_id),
            bid_id: self.bid_id@,
            imp_id: self.imp_id@,
            ad_id: self.ad_id@,
            creative_id: self.creative_id@,
            price: self.price,
            currency: self.currency@,
            tracking: tracking_views(self.tracking@),
        }
    }
}

impl Clone for RtbSceneMetadata {
    fn clone(&self) -> (r: Self)
        ensures
            r@ == self@,
    {
        RtbSceneMetadata {
            slot_id: self.slot_id.clone(),
            request_id: self.request_id.clone(),
            bid_id: self.bid_id.clone(),
            imp_id: self.imp_id.clone(),
            ad_id: self.ad_id.clone(),
            creative_id: self.creative_id.clone(),
            price: self.price,
            currency: self.currency.clone(),
            tracking: copy_tracking(&self.tracking),
        }
    }
}

/// What is on screen from `start_time_millis` to `end_time_millis`.
#[derive(Debug)]
pub struct PlaybackScene {
    /// Identity of the scene: revision, schedule, item and start.
    pub scene_id: String,
    pub schedule_id: i64,
    pub playlist_id: i64,
    pub item_id: i64,
    /// Milliseconds since the epoch.
    pub start_time_millis: i64,
    /// Milliseconds since the epoch.
    pub end_time_millis: i64,
    pub transition: Option<String>,
    pub loop_playback: bool,
    /// Scenes with the same layout share it.
    pub layout: Option<Arc<LayoutDefinition>>,
    pub asset_refs: Vec<AssetRef>,
    /// Present where the scene was sold in an auction.
    pub rtb: Option<RtbSceneMetadata>,
    /// What is shown where an auctioned scene cannot be.
    pub fallback_scene: Option<Box<PlaybackScene>>,
}

/// Model of a [`PlaybackScene`].
#[verifier::ext_equal]
pub struct SceneView {
    pub scene_id: Seq<char>,
    pub schedule_id: i64,
    pub playlist_id: i64,
    pub item_id: i64,
    pub start: i64,
    pub end: i64,
    pub transition: Option<Seq<char>>,
    pub loop_playback: bool,
    pub layout: Option<LayoutDefinitionView>,
    pub asset_refs: Seq<AssetRefView>,
    pub rtb: Option<RtbSceneMetadataView>,
    pub fallback: Option<Box<SceneView>>,
}

impl PlaybackScene {
    /// The model of the scene.
    pub open spec fn model(self) -> SceneView
        decreases self,
    {
        SceneView {
            scene_id: self.scene_id@,
            schedule_id: self.schedule_id,
            playlist_id: self.playlist_id,
            item_id: self.item_id,
            start: self.start_time_millis,
            end: self.end_time_millis,
            transition: opt_text(self.transition),
            loop_playback: self.loop_playback,
            layout: match self.layout {
                Some(l) => Some((*l)@),
                None => None,
            },
            asset_refs: asset_views(self.asset_refs@),
            rtb: match self.rtb {
                Some(m) => Some(m@),
                None => None,
            },
            fallback: match self.fallback_scene {
                Some(f) => Some(Box::new((*f).model())),
                None => None,
            },
        }
    }
}

impl View for PlaybackScene {
    type V = SceneView;

    open spec fn view(&self) -> SceneView {
        self.model()
    }
}

/// The models of a list of assets.
pub open spec fn asset_views(refs: Seq<AssetRef>) -> Seq<AssetRefView> {
    Seq::new(refs.len(), |i: int| refs[i]@)
}

/// The models of a list of scenes.
pub open spec fn scene_views(scenes: Seq<PlaybackScene>) -> Seq<SceneView> {
    Seq::new(scenes.len(), |i: int| scenes[i]@)
}

/// `Arc::clone` hands out the same value again.
#[verifier::external_body]
pub(crate) fn share_layout(layout: &Arc<LayoutDefinition>) -> (r: Arc<LayoutDefinition>)
    ensures
        r == *layout,
{
    Arc::clone(layout)
}

/// Copies a list of assets.
pub fn copy_assets(refs: &Vec<AssetRef>) -> (r: Vec<AssetRef>)
    ensures
        asset_views(r@) == asset_views(refs@),
{
    let mut out: Vec<AssetRef> = Vec::new();
    let mut i: usize = 0;
    while i < refs.len()
        invariant
            i <= refs@.len(),
            out@.len() == i,
            forall|j: int| 0 <= j < i ==> (#[trigger] out@[j])@ == refs@[j]@,
        decreases refs@.len() - i,
    {
        out.push(refs[i].clone());
        i = i + 1;
    }
    out
}

impl Clone for PlaybackScene {
    fn clone(&self) -> (r: Self)
        ensures
            r@ == self@,
        decreases self,
    {
        PlaybackScene {
            scene_id: self.scene_id.clone(),
            schedule_id: self.schedule_id,
            playlist_id: self.playlist_id,
            item_id: self.item_id,
            start_time_millis: self.start_time_millis,
            end_time_millis: self.end_time_millis,
            transition: self.transition.clone(),
            loop_playback: self.loop_playback,
            layout: match &self.layout {
                Some(l) => Some(share_layout(l)),
                None => None,
            },
            asset_refs: copy_assets(&self.asset_refs),
            rtb: match &self.rtb {
                Some(m) => Some(m.clone()),
                None => None,
            },
            fallback_scene: match &self.fallback_scene {
                Some(f) => Some(Box::new((&**f).clone())),
                None => None,
            },
        }
    }
}

/// Scenes in order of their start.
#[derive(Debug)]
pub struct PlaybackTimeline {
    pub device_id: String,
    pub date: String,
    pub revision: String,
    pub server_time: Option<String>,
    pub generated_at: Option<String>,
    pub timezone: String,
    pub scenes: Vec<PlaybackScene>,
}

/// Model of a [`PlaybackTimeline`].
#[verifier::ext_equal]
pub struct TimelineView {
    pub device_id: Seq<char>,
    pub date: Seq<char>,
    pub revision: Seq<char>,
    pub server_time: Option<Seq<char>>,
    pub generated_at: Option<Seq<char>>,
    pub timezone: Seq<char>,
    pub scenes: Seq<SceneView>,
}

impl View for PlaybackTimeline {
    type V = TimelineView;

    open spec fn view(&self) -> TimelineView {
        TimelineView {
            device_id: self.device_id@,
            date: self.date@,
            revision: self.revision@,
            server_time: opt_text(self.server_time),
            generated_at: opt_text(self.generated_at),
            timezone: self.timezone@,
            scenes: scene_views(self.scenes@),
        }
    }
}

/// Copies a list of scenes.
pub fn copy_scenes(scenes: &Vec<PlaybackScene>) -> (r: Vec<PlaybackScene>)
    ensures
        scene_views(r@) == scene_views(scenes@),
{
    let mut out: Vec<PlaybackScene> = Vec::new();
    let mut i: usize = 0;
    while i < scenes.len()
        invariant
            i <= scenes@.len(),
            out@.len() == i,
            forall|j: int| 0 <= j < i ==> (#[trigger] out@[j])@ == scenes@[j]@,
        decreases scenes@.len() - i,
    {
        out.push(scenes[i].clone());
        i = i + 1;
    }
    out
}

impl Clone for PlaybackTimeline {
    fn clone(&self) -> (r: Self)
        ensures
            r@ == self@,
    {
        PlaybackTimeline {
            device_id: self.device_id.clone(),
            date: self.date.clone(),
            revision: self.revision.clone(),
            server_time: self.server_time.clone(),
            generated_at: self.generated_at.clone(),
            timezone: self.timezone.clone(),
            scenes: copy_scenes(&self.scenes),
        }
    }
}

/// The model of a file says what the file says.
pub proof fn asset_models_are_faithful(file: AssetRef)
    ensures
        file@.file_id == file.file_id,
        file@.revision == file.revision@,
        file@.download_url == file.download_url@,
        file@.mime_type is Some <==> file.mime_type is Some,
        file.mime_type matches Some(text) ==> file@.mime_type == Some(text@),
        file@.size_bytes == file.size_bytes,
        file@.checksum is Some <==> file.checksum is Some,
        file.checksum matches Some(text) ==> file@.checksum == Some(text@),
{
}

/// The model of an element says what the element says.
pub proof fn element_models_are_faithful(e: LayoutElement)
    ensures
        e@.id == e.id@,
        e@.x == e.x,
        e@.y == e.y,
        e@.width == e.width,
        e@.height == e.height,
        e@.element_type == e.element_type@,
        e@.keep_aspect_ratio == e.keep_aspect_ratio,
        e@.file_id == e.file_id,
        e@.content is Some <==> e.content is Some,
        e.content matches Some(text) ==> e@.content == Some(text@),
        e@.font is Some <==> e.font is Some,
        e.font matches Some(text) ==> e@.font == Some(text@),
        e@.font_size == e.font_size,
        e@.bold == e.bold,
        e@.italic == e.italic,
        e@.underline == e.underline,
        e@.strikethrough == e.strikethrough,
        e@.background_color is Some <==> e.background_color is Some,
        e.background_color matches Some(text) ==> e@.background_color == Some(text@),
        e@.text_color is Some <==> e.text_color is Some,
        e.text_color matches Some(text) ==> e@.text_color == Some(text@),
        e@.border_color is Some <==> e.border_color is Some,
        e.border_color matches Some(text) ==> e@.border_color == Some(text@),
        e@.border_width == e.border_width,
        e@.z_index == e.z_index,
{
}

/// The model of a layout says what the layout says.
pub proof fn layout_models_are_faithful(layout: LayoutDefinition)
    ensures
        layout@.id == layout.id,
        layout@.name == layout.name@,
        layout@.group_name is Some <==> layout.group_name is Some,
        layout.group_name matches Some(text) ==> layout@.group_name == Some(text@),
        layout@.width == layout.width,
        layout@.height == layout.height,
        layout@.elements.len() == layout.elements@.len(),
        forall|i: int|
            0 <= i < layout.elements@.len() ==> #[trigger] layout@.elements[i]
                == layout.elements@[i]@,
        layout@.default_duration == layout.default_duration,
{
}

/// The model of what an auctioned scene carries along says what that says.
pub proof fn auction_models_are_faithful(sold: RtbSceneMetadata)
    ensures
        sold@.slot_id == sold.slot_id@,
        sold@.request_id is Some <==> sold.request_id is Some,
        sold.request_id matches Some(text) ==> sold@.request_id == Some(text@),
        sold@.bid_id == sold.bid_id@,
        sold@.imp_id == sold.imp_id@,
        sold@.ad_id == sold.ad_id@,
        sold@.creative_id == sold.creative_id@,
        sold@.price == sold.price,
        sold@.currency == sold.currency@,
        sold@.tracking.len() == sold.tracking@.len(),
        forall|i: int|
            0 <= i < sold.tracking@.len() ==> {
                &&& (#[trigger] sold@.tracking[i]).event == sold.tracking@[i].event
                &&& sold@.tracking[i].url == sold.tracking@[i].url@
            },
{
}

/// The model of a scene says what the scene says.
pub proof fn scene_models_are_faithful(scene: PlaybackScene)
    ensures
        scene@.scene_id == scene.scene_id@,
        scene@.schedule_id == scene.schedule_id,
        scene@.playlist_id == scene.playlist_id,
        scene@.item_id == scene.item_id,
        scene@.start == scene.start_time_millis,
        scene@.end == scene.end_time_millis,
        scene@.transition is Some <==> scene.transition is Some,
        scene.transition matches Some(text) ==> scene@.transition == Some(text@),
        scene@.loop_playback == scene.loop_playback,
        scene@.layout is Some <==> scene.layout is Some,
        scene.layout matches Some(layout) ==> scene@.layout == Some((*layout)@),
        scene@.asset_refs.len() == scene.asset_refs@.len(),
        forall|i: int|
            0 <= i < scene.asset_refs@.len() ==> #[trigger] scene@.asset_refs[i]
                == scene.asset_refs@[i]@,
        scene@.rtb is Some <==> scene.rtb is Some,
        scene.rtb matches Some(sold) ==> scene@.rtb == Some(sold@),
        scene@.fallback is Some <==> scene.fallback_scene is Some,
        scene.fallback_scene matches Some(instead) ==> *(scene@.fallback->0) == (*instead)@,
{
}

/// The model of a timeline says what the timeline says.
pub proof fn timeline_models_are_faithful(timeline: PlaybackTimeline)
    ensures
        timeline@.device_id == timeline.device_id@,
        timeline@.date == timeline.date@,
        timeline@.revision == timeline.revision@,
        timeline@.server_time is Some <==> timeline.server_time is Some,
        timeline.server_time matches Some(text) ==> timeline@.server_time == Some(text@),
        timeline@.generated_at is Some <==> timeline.generated_at is Some,
        timeline.generated_at matches Some(text) ==> timeline@.generated_at == Some(text@),
        timeline@.timezone == timeline.timezone@,
        timeline@.scenes.len() == timeline.scenes@.len(),
        forall|i: int|
            0 <= i < timeline.scenes@.len() ==> #[trigger] timeline@.scenes[i]
                == timeline.scenes@[i]@,
{
}

} // verus!
