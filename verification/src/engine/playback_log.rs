//! Logs of what was played, sent in batches.

use std::collections::VecDeque;

use vstd::prelude::*;

use crate::cms::client::{PlaybackLogExtraView, PlaybackLogItemView};
use crate::cms::{PlaybackLogExtra, PlaybackLogItem};
use crate::timeline::models::SceneView;
use crate::timeline::PlaybackScene;

verus! {

/// Most logs that are sent at once.
pub const BATCH_SIZE: usize = 10;

/// Milliseconds after which logs are sent though they do not fill a batch.
pub const FLUSH_INTERVAL_MS: u64 = 30_000;

/// Most logs that wait to be sent.
pub const MAX_QUEUE_ITEMS: usize = 1_000;

/// An instant in RFC 3339 with milliseconds, as `chrono` writes it; nothing where it cannot be
/// represented.
pub uninterp spec fn iso_millis(millis: i64) -> Option<Seq<char>>;

/// `chrono::DateTime::from_timestamp_millis` and `to_rfc3339_opts`: the instant in RFC 3339 with
/// milliseconds and `Z` for the zone, or nothing where it cannot be represented.
#[verifier::external_body]
fn iso8601_millis(millis: i64) -> (r: Option<String>)
    ensures
        iso_millis(millis) == (match r {
            Some(text) => Some(text@),
            None => None,
        }),
{
    let instant = chrono::DateTime::from_timestamp_millis(millis)?;
    Some(instant.to_rfc3339_opts(chrono::SecondsFormat::Millis, true))
}

/// What a log says of a scene.
#[derive(Debug)]
pub struct PlaybackLogScene {
    pub scene_id: String,
    pub content_id: i64,
    pub schedule_id: i64,
    pub playlist_id: i64,
    pub item_id: i64,
    pub start_time_millis: i64,
    pub end_time_millis: i64,
}

/// Model of a [`PlaybackLogScene`].
#[verifier::ext_equal]
pub struct LogSceneView {
    pub scene_id: Seq<char>,
    pub content_id: i64,
    pub schedule_id: i64,
    pub playlist_id: i64,
    pub item_id: i64,
    pub start: i64,
    pub end: i64,
}

impl View for PlaybackLogScene {
    type V = LogSceneView;

    open spec fn view(&self) -> LogSceneView {
        LogSceneView {
            scene_id: self.scene_id@,
            content_id: self.content_id,
            schedule_id: self.schedule_id,
            playlist_id: self.playlist_id,
            item_id: self.item_id,
            start: self.start_time_millis,
            end: self.end_time_millis,
        }
    }
}

/// What a log says of a scene; a scene without layout is not logged.
pub open spec fn log_scene_of(scene: SceneView) -> Option<LogSceneView> {
    match scene.layout {
        Some(layout) => Some(
            LogSceneView {
                scene_id: scene.scene_id,
                content_id: layout.id,
                schedule_id: scene.schedule_id,
                playlist_id: scene.playlist_id,
                item_id: scene.item_id,
                start: scene.start,
                end: scene.end,
            },
        ),
        None => None,
    }
}

impl PlaybackLogScene {
    /// What a log says of a scene; a scene without layout is not logged.
    pub fn from_scene(scene: &PlaybackScene) -> (r: Option<PlaybackLogScene>)
        ensures
            log_scene_of(scene@) == (match r {
                Some(log) => Some(log@),
                None => None,
            }),
            r is Some <==> scene.layout is Some,
            r matches Some(log) ==> {
                &&& log.content_id == scene.layout->0.id
                &&& log.scene_id@ == scene.scene_id@
                &&& log.schedule_id == scene.schedule_id
                &&& log.playlist_id == scene.playlist_id
                &&& log.item_id == scene.item_id
                &&& log.start_time_millis == scene.start_time_millis
                &&& log.end_time_millis == scene.end_time_millis
            },
    {
        match &scene.layout {
            Some(layout) => Some(
                PlaybackLogScene {
                    scene_id: scene.scene_id.clone(),
                    content_id: layout.id,
                    schedule_id: scene.schedule_id,
                    playlist_id: scene.playlist_id,
                    item_id: scene.item_id,
                    start_time_millis: scene.start_time_millis,
                    end_time_millis: scene.end_time_millis,
                },
            ),
            None => None,
        }
    }
}

/// The log of the scene that is on screen.
#[derive(Debug)]
pub struct ActivePlaybackLog {
    scene: PlaybackLogScene,
    started_at_millis: i64,
}

/// Model of an [`ActivePlaybackLog`].
#[verifier::ext_equal]
pub struct ActiveLogView {
    pub scene: LogSceneView,
    pub started_at: i64,
}

impl View for ActivePlaybackLog {
    type V = ActiveLogView;

    closed spec fn view(&self) -> ActiveLogView {
        ActiveLogView { scene: self.scene@, started_at: self.started_at_millis }
    }
}

/// When a playback ended: not before it started.
pub open spec fn ended_at(log: ActiveLogView, millis: i64) -> i64 {
    if millis >= log.started_at {
        millis
    } else {
        log.started_at
    }
}

/// The log of a playback that started and ended at times written like this.
pub open spec fn log_item_of(
    log: ActiveLogView,
    device_id: Seq<char>,
    started: Seq<char>,
    ended: Seq<char>,
    completed: bool,
) -> PlaybackLogItemView {
    PlaybackLogItemView {
        device_id,
        content_type: "layout"@,
        content_id: log.scene.content_id,
        started_at: started,
        ended_at: ended,
        completed,
        extra: PlaybackLogExtraView {
            scene_id: log.scene.scene_id,
            schedule_id: log.scene.schedule_id,
            playlist_id: log.scene.playlist_id,
            item_id: log.scene.item_id,
            scheduled_start_time_millis: log.scene.start,
            scheduled_end_time_millis: log.scene.end,
        },
    }
}

impl ActivePlaybackLog {
    /// The log of a scene that is on screen since `started_at_millis`.
    pub fn new(scene: PlaybackLogScene, started_at_millis: i64) -> (r: ActivePlaybackLog)
        ensures
            r@ == (ActiveLogView { scene: scene@, started_at: started_at_millis }),
            r@.scene.content_id == scene.content_id,
            r@.started_at == started_at_millis,
    {
        ActivePlaybackLog { scene, started_at_millis }
    }

    /// The scene.
    pub fn scene_id(&self) -> (r: &str)
        ensures
            r@ == self@.scene.scene_id,
    {
        self.scene.scene_id.as_str()
    }

    /// When the scene should end.
    pub fn end_time_millis(&self) -> (r: i64)
        ensures
            r == self@.scene.end,
    {
        self.scene.end_time_millis
    }

    /// The log of the playback, where the times at which it started and ended are written like
    /// this.
    pub fn item_with_times(self, device_id: &str, started: String, ended: String, completed: bool) -> (r:
        PlaybackLogItem)
        ensures
            r@ == log_item_of(self@, device_id@, started@, ended@, completed),
            r.content_type@ == "layout"@,
            r.content_id == self@.scene.content_id,
            r.device_id@ == device_id@,
            r.started_at@ == started@,
            r.ended_at@ == ended@,
            r.completed == completed,
            r.extra.scene_id@ == self@.scene.scene_id,
            r.extra.schedule_id == self@.scene.schedule_id,
            r.extra.playlist_id == self@.scene.playlist_id,
            r.extra.item_id == self@.scene.item_id,
            r.extra.scheduled_start_time_millis == self@.scene.start,
            r.extra.scheduled_end_time_millis == self@.scene.end,
    {
        PlaybackLogItem {
            device_id: device_id.to_owned(),
            content_type: "layout".to_owned(),
            content_id: self.scene.content_id,
            started_at: started,
            ended_at: ended,
            completed,
            extra: PlaybackLogExtra {
                scene_id: self.scene.scene_id.clone(),
                schedule_id: self.scene.schedule_id,
                playlist_id: self.scene.playlist_id,
                item_id: self.scene.item_id,
                scheduled_start_time_millis: self.scene.start_time_millis,
                scheduled_end_time_millis: self.scene.end_time_millis,
            },
        }
    }

    /// The log of the playback, which ended at `ended_at_millis`; none where a time of it cannot be
    /// written.
    pub fn into_item(self, device_id: &str, ended_at_millis: i64, completed: bool) -> (r: Option<
        PlaybackLogItem,
    >)
        ensures
            match (iso_millis(self@.started_at), iso_millis(ended_at(self@, ended_at_millis))) {
                (Some(started), Some(ended)) => r matches Some(item) && item@ == log_item_of(
                    self@,
                    device_id@,
                    started,
                    ended,
                    completed,
                ),
                _ => r is None,
            },
            r matches Some(item) ==> {
                &&& item.content_type@ == "layout"@
                &&& item.content_id == self@.scene.content_id
                &&& item.device_id@ == device_id@
                &&& item.completed == completed
                &&& iso_millis(self@.started_at) == Some(item.started_at@)
                &&& iso_millis(
                    if ended_at_millis >= self@.started_at {
                        ended_at_millis
                    } else {
                        self@.started_at
                    },
                ) == Some(item.ended_at@)
            },
    {
        let ended_millis: i64 = if ended_at_millis >= self.started_at_millis {
            ended_at_millis
        } else {
            self.started_at_millis
        };
        match (iso8601_millis(self.started_at_millis), iso8601_millis(ended_millis)) {
            (Some(started), Some(ended)) => Some(
                self.item_with_times(device_id, started, ended, completed),
            ),
            _ => None,
        }
    }
}

/// The models of a list of logs.
pub open spec fn item_views(items: Seq<PlaybackLogItem>) -> Seq<PlaybackLogItemView> {
    Seq::new(items.len(), |i: int| items[i]@)
}

/// The logs that wait to be sent.
#[derive(Debug)]
pub struct PlaybackLogReporter {
    pending: VecDeque<PlaybackLogItem>,
}

/// The logs that wait once one more has come: the oldest ones go where there are too many.
pub open spec fn recorded(pending: Seq<PlaybackLogItemView>, item: PlaybackLogItemView) -> Seq<
    PlaybackLogItemView,
> {
    let more = pending.push(item);
    if more.len() > MAX_QUEUE_ITEMS {
        more.subrange(more.len() - MAX_QUEUE_ITEMS, more.len() as int)
    } else {
        more
    }
}

/// The logs that are sent next.
pub open spec fn batch_of(pending: Seq<PlaybackLogItemView>) -> Seq<PlaybackLogItemView> {
    if pending.len() > BATCH_SIZE {
        pending.take(BATCH_SIZE as int)
    } else {
        pending
    }
}

impl PlaybackLogReporter {
    /// The logs that wait to be sent.
    pub closed spec fn waiting(self) -> Seq<PlaybackLogItemView> {
        item_views(self.pending@)
    }

    /// No logs.
    pub fn new() -> (r: PlaybackLogReporter)
        ensures
            r.waiting() == Seq::<PlaybackLogItemView>::empty(),
    {
        let r: PlaybackLogReporter = PlaybackLogReporter { pending: VecDeque::new() };
        assert(r.waiting() =~= Seq::empty());
        r
    }

    /// Adds a log, and says whether there are enough for a batch. Where too many wait, the oldest go.
    pub fn record(&mut self, item: PlaybackLogItem) -> (r: bool)
        requires
            old(self).waiting().len() < usize::MAX,
        ensures
            final(self).waiting() == recorded(old(self).waiting(), item@),
            r == (final(self).waiting().len() >= BATCH_SIZE),
    {
        let ghost before = self.pending@;
        let ghost view = item@;
        self.pending.push_back(item);
        let ghost more = self.pending@;
        let ghost all = item_views(more);
        proof {
            assert(all =~= item_views(before).push(view));
            assert(more.subrange(0, more.len() as int) =~= more);
        }
        while self.pending.len() > MAX_QUEUE_ITEMS
            invariant
                self.pending@.len() <= more.len(),
                self.pending@ == more.subrange(more.len() - self.pending@.len(), more.len() as int),
                more.len() <= MAX_QUEUE_ITEMS ==> self.pending@.len() == more.len(),
                more.len() > MAX_QUEUE_ITEMS ==> self.pending@.len() >= MAX_QUEUE_ITEMS,
            decreases self.pending@.len(),
        {
            let ghost held = self.pending@;
            let _ = self.pending.pop_front();
            assert(self.pending@ =~= held.subrange(1, held.len() as int));
            assert(self.pending@ =~= more.subrange(
                more.len() - self.pending@.len(),
                more.len() as int,
            ));
        }
        assert(item_views(self.pending@) =~= recorded(item_views(before), view));
        self.pending.len() >= BATCH_SIZE
    }

    /// The logs that are sent next.
    pub fn batch(&self) -> (r: Vec<PlaybackLogItem>)
        ensures
            item_views(r@) == batch_of(self.waiting()),
    {
        let n: usize = if self.pending.len() > BATCH_SIZE {
            BATCH_SIZE
        } else {
            self.pending.len()
        };
        let mut out: Vec<PlaybackLogItem> = Vec::new();
        let mut i: usize = 0;
        while i < n
            invariant
                i <= n <= self.pending@.len(),
                out@.len() == i,
                forall|j: int| 0 <= j < i ==> (#[trigger] out@[j])@ == self.pending@[j]@,
            decreases n - i,
        {
            out.push(self.pending[i].clone());
            i = i + 1;
        }
        assert(item_views(out@) =~= batch_of(self.waiting()));
        out
    }

    /// Takes out the logs of a batch that was sent. Those of one that was not stay.
    pub fn batch_sent(&mut self)
        ensures
            final(self).waiting() == old(self).waiting().skip(
                batch_of(old(self).waiting()).len() as int,
            ),
    {
        let ghost before = self.pending@;
        let n: usize = if self.pending.len() > BATCH_SIZE {
            BATCH_SIZE
        } else {
            self.pending.len()
        };
        let mut i: usize = 0;
        assert(before.skip(0) =~= before);
        while i < n
            invariant
                i <= n <= before.len(),
                self.pending@ == before.skip(i as int),
            decreases n - i,
        {
            let ghost held = self.pending@;
            let _ = self.pending.pop_front();
            assert(self.pending@ =~= held.subrange(1, held.len() as int));
            assert(self.pending@ =~= before.skip(i + 1));
            i = i + 1;
        }
        assert(item_views(self.pending@) =~= item_views(before).skip(n as int));
    }
}

/// No more logs wait than the queue may hold, the newest is always among them, and those that wait
/// keep their order.
pub proof fn log_queue_is_bounded(pending: Seq<PlaybackLogItemView>, item: PlaybackLogItemView)
    requires
        pending.len() <= MAX_QUEUE_ITEMS,
    ensures
        0 < recorded(pending, item).len() <= MAX_QUEUE_ITEMS,
        recorded(pending, item).last() == item,
        pending.len() < MAX_QUEUE_ITEMS ==> recorded(pending, item) == pending.push(item),
        pending.len() == MAX_QUEUE_ITEMS ==> recorded(pending, item) == pending.skip(1).push(item),
{
    if pending.len() == MAX_QUEUE_ITEMS {
        assert(recorded(pending, item) =~= pending.skip(1).push(item));
    }
}

/// A batch and what waits behind it are all logs that waited: sending loses none.
pub proof fn batches_lose_nothing(pending: Seq<PlaybackLogItemView>)
    ensures
        batch_of(pending).len() <= BATCH_SIZE,
        batch_of(pending) + pending.skip(batch_of(pending).len() as int) == pending,
        pending.len() > 0 ==> batch_of(pending).len() > 0,
{
    assert(batch_of(pending) + pending.skip(batch_of(pending).len() as int) =~= pending);
}

/// The log of a playback of a scene with a layout is booked on that layout: its content is the layout,
/// by the layout's id. It names the scene, its schedule, playlist and item, the time it was scheduled
/// for, and the device, and says whether the scene was seen to its end.
pub proof fn playbacks_are_booked_on_the_layout(
    scene: SceneView,
    log: ActiveLogView,
    device_id: Seq<char>,
    started: Seq<char>,
    ended: Seq<char>,
    completed: bool,
)
    requires
        log_scene_of(scene) == Some(log.scene),
    ensures
        scene.layout is Some,
        ({
            let item = log_item_of(log, device_id, started, ended, completed);
            &&& item.content_type == "layout"@
            &&& item.content_id == scene.layout->0.id
            &&& item.device_id == device_id
            &&& item.started_at == started
            &&& item.ended_at == ended
            &&& item.completed == completed
            &&& item.extra.scene_id == scene.scene_id
            &&& item.extra.schedule_id == scene.schedule_id
            &&& item.extra.playlist_id == scene.playlist_id
            &&& item.extra.item_id == scene.item_id
            &&& item.extra.scheduled_start_time_millis == scene.start
            &&& item.extra.scheduled_end_time_millis == scene.end
        }),
{
}

/// A scene is logged exactly where it has a layout, and the log says what the scene says.
pub proof fn scenes_with_a_layout_are_logged(scene: SceneView)
    ensures
        log_scene_of(scene) is Some <==> scene.layout is Some,
        log_scene_of(scene) matches Some(log) ==> {
            &&& log.content_id == scene.layout->0.id
            &&& log.scene_id == scene.scene_id
            &&& log.schedule_id == scene.schedule_id
            &&& log.playlist_id == scene.playlist_id
            &&& log.item_id == scene.item_id
            &&& log.start == scene.start
            &&& log.end == scene.end
        },
{
}

/// A playback does not end before it started, and otherwise when it is said to.
pub proof fn playbacks_end_after_they_started(log: ActiveLogView, millis: i64)
    ensures
        ended_at(log, millis) >= log.started_at,
        millis >= log.started_at ==> ended_at(log, millis) == millis,
        millis < log.started_at ==> ended_at(log, millis) == log.started_at,
{
}

/// Up to a thousand logs wait; beyond that the oldest goes. They are sent ten at a time, the oldest
/// first.
pub proof fn logs_are_sent_ten_at_a_time(
    pending: Seq<PlaybackLogItemView>,
    item: PlaybackLogItemView,
    i: int,
)
    ensures
        pending.len() < 1_000 ==> recorded(pending, item) == pending.push(item),
        pending.len() == 1_000 ==> recorded(pending, item) == pending.skip(1).push(item),
        pending.len() >= 10 ==> batch_of(pending).len() == 10,
        pending.len() < 10 ==> batch_of(pending).len() == pending.len(),
        0 <= i < batch_of(pending).len() ==> batch_of(pending)[i] == pending[i],
{
    if pending.len() == 1_000 {
        log_queue_is_bounded(pending, item);
    }
}

/// What a log says of a scene is modelled field by field.
pub proof fn logged_scene_models_are_faithful(scene: PlaybackLogScene)
    ensures
        scene@.scene_id == scene.scene_id@,
        scene@.content_id == scene.content_id,
        scene@.schedule_id == scene.schedule_id,
        scene@.playlist_id == scene.playlist_id,
        scene@.item_id == scene.item_id,
        scene@.start == scene.start_time_millis,
        scene@.end == scene.end_time_millis,
{
}
} // verus!
