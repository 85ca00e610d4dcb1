//! Reporting what was seen of auctioned scenes.

use vstd::prelude::*;
use vstd::string::*;

use crate::text::{contains_text, others_stay, remove_text, texts, without_first};
use crate::timeline::models::TrackingUrlView;
use crate::timeline::{RtbSceneMetadata, TrackingEvent, TrackingUrl};

verus! {

/// Most reports that wait to be sent.
pub const QUEUE_CAPACITY: usize = 1_024;

/// How long an answer to a report is waited for.
pub const REQUEST_TIMEOUT_MS: u64 = 5_000;

/// How often a report is tried.
pub const MAX_ATTEMPTS: u32 = 3;

/// How long is waited after the first try that failed.
pub const INITIAL_BACKOFF_MS: u64 = 250;

/// How long the reports that wait are given when the player is shut down.
pub const SHUTDOWN_TIMEOUT_MS: u64 = 8_000;

/// A report to be sent.
#[derive(Debug)]
pub struct TrackingRequest {
    pub key: String,
    pub event: TrackingEvent,
    pub url: String,
}

/// What a report is told apart by: slot, scene, event and URL.
pub open spec fn report_key(
    slot_id: Seq<char>,
    scene_id: Seq<char>,
    event: TrackingEvent,
    url: Seq<char>,
) -> Seq<char> {
    slot_id + "|"@ + scene_id + "|"@ + event.name() + "|"@ + url
}

/// What the reports of an event to each of the URLs are told apart by.
pub open spec fn report_keys(
    slot_id: Seq<char>,
    scene_id: Seq<char>,
    event: TrackingEvent,
    urls: Seq<Seq<char>>,
) -> Seq<Seq<char>> {
    Seq::new(urls.len(), |i: int| report_key(slot_id, scene_id, event, urls[i]))
}

/// The URLs that are to be called at an event and were not yet, in the order of the entries, each
/// once.
pub open spec fn unreported(
    handed_out: Seq<Seq<char>>,
    slot_id: Seq<char>,
    scene_id: Seq<char>,
    event: TrackingEvent,
    entries: Seq<TrackingUrlView>,
) -> Seq<Seq<char>>
    decreases entries.len(),
{
    if entries.len() == 0 {
        Seq::empty()
    } else {
        let urls = unreported(handed_out, slot_id, scene_id, event, entries.drop_last());
        let entry = entries.last();
        if entry.event == event && !urls.contains(entry.url) && !handed_out.contains(
            report_key(slot_id, scene_id, event, entry.url),
        ) {
            urls.push(entry.url)
        } else {
            urls
        }
    }
}

proof fn lemma_keys_tell_urls_apart(
    slot_id: Seq<char>,
    scene_id: Seq<char>,
    event: TrackingEvent,
    a: Seq<char>,
    b: Seq<char>,
)
    requires
        report_key(slot_id, scene_id, event, a) == report_key(slot_id, scene_id, event, b),
    ensures
        a == b,
{
    let front = slot_id + "|"@ + scene_id + "|"@ + event.name() + "|"@;
    assert(report_key(slot_id, scene_id, event, a) =~= front + a);
    assert(report_key(slot_id, scene_id, event, b) =~= front + b);
    assert((front + a).skip(front.len() as int) =~= a);
    assert((front + b).skip(front.len() as int) =~= b);
}

proof fn lemma_key_among(
    handed_out: Seq<Seq<char>>,
    slot_id: Seq<char>,
    scene_id: Seq<char>,
    event: TrackingEvent,
    urls: Seq<Seq<char>>,
    url: Seq<char>,
)
    ensures
        (handed_out + report_keys(slot_id, scene_id, event, urls)).contains(
            report_key(slot_id, scene_id, event, url),
        ) <==> urls.contains(url) || handed_out.contains(
            report_key(slot_id, scene_id, event, url),
        ),
{
    let keys = report_keys(slot_id, scene_id, event, urls);
    let all = handed_out + keys;
    let key = report_key(slot_id, scene_id, event, url);
    if urls.contains(url) {
        let i = choose|i: int| 0 <= i < urls.len() && urls[i] == url;
        assert(all[handed_out.len() + i] == key);
    }
    if handed_out.contains(key) {
        let i = choose|i: int| 0 <= i < handed_out.len() && handed_out[i] == key;
        assert(all[i] == key);
    }
    if all.contains(key) {
        let i = choose|i: int| 0 <= i < all.len() && all[i] == key;
        if i < handed_out.len() {
            assert(handed_out[i] == key);
        } else {
            let j = i - handed_out.len();
            assert(keys[j] == report_key(slot_id, scene_id, event, urls[j]));
            lemma_keys_tell_urls_apart(slot_id, scene_id, event, urls[j], url);
        }
    }
}

/// Sees to it that each report is sent once.
#[derive(Debug)]
pub struct TrackingReporter {
    sent: Vec<String>,
}

impl TrackingReporter {
    /// The reports that were handed out.
    pub closed spec fn handed_out(self) -> Seq<Seq<char>> {
        texts(self.sent@)
    }

    /// Nothing has been reported.
    pub fn new() -> (r: TrackingReporter)
        ensures
            r.handed_out() == Seq::<Seq<char>>::empty(),
    {
        let r: TrackingReporter = TrackingReporter { sent: Vec::new() };
        assert(r.handed_out() =~= Seq::empty());
        r
    }

    /// The report of `event` to the URL at `index`, where that URL is to be called at the event and
    /// was not yet.
    pub fn record(
        &mut self,
        metadata: &RtbSceneMetadata,
        scene_id: &str,
        event: TrackingEvent,
        index: usize,
    ) -> (r: Option<TrackingRequest>)
        requires
            index < metadata@.tracking.len(),
        ensures
            ({
                let entry = metadata@.tracking[index as int];
                let key = report_key(metadata@.slot_id, scene_id@, event, entry.url);
                if entry.event == event && !old(self).handed_out().contains(key) {
                    &&& r matches Some(request)
                    &&& request.key@ == key
                    &&& request.event == event
                    &&& request.url@ == entry.url
                    &&& final(self).handed_out() == old(self).handed_out().push(key)
                } else {
                    r is None && final(self).handed_out() == old(self).handed_out()
                }
            }),
    {
        let entry: &TrackingUrl = &metadata.tracking[index];
        assert(metadata@.tracking[index as int] == entry@);
        if entry.event != event {
            return None;
        }
        let mut key: String = metadata.slot_id.clone();
        key.append("|");
        key.append(scene_id);
        key.append("|");
        key.append(event.as_str());
        key.append("|");
        key.append(entry.url.as_str());
        if contains_text(&self.sent, key.as_str()) {
            return None;
        }
        let ghost before = texts(self.sent@);
        self.sent.push(key.clone());
        assert(texts(self.sent@) =~= before.push(key@));
        Some(TrackingRequest { key, event, url: entry.url.clone() })
    }

    /// The reports of `event` to the URLs that are to be called at the event and were not yet.
    pub fn record_all(
        &mut self,
        metadata: &RtbSceneMetadata,
        scene_id: &str,
        event: TrackingEvent,
    ) -> (r: Vec<TrackingRequest>)
        ensures
            ({
                let slot_id = metadata@.slot_id;
                let urls = unreported(
                    old(self).handed_out(),
                    slot_id,
                    scene_id@,
                    event,
                    metadata@.tracking,
                );
                &&& r@.len() == urls.len()
                &&& forall|i: int|
                    0 <= i < r@.len() ==> {
                        &&& (#[trigger] r@[i]).key@ == report_key(
                            slot_id,
                            scene_id@,
                            event,
                            urls[i],
                        )
                        &&& r@[i].event == event
                        &&& r@[i].url@ == urls[i]
                    }
                &&& final(self).handed_out() == old(self).handed_out() + report_keys(
                    slot_id,
                    scene_id@,
                    event,
                    urls,
                )
            }),
    {
        let ghost before = self.handed_out();
        let ghost slot_id = metadata@.slot_id;
        let ghost entries = metadata@.tracking;
        let mut requests: Vec<TrackingRequest> = Vec::new();
        let mut i: usize = 0;
        assert(self.handed_out() =~= before + report_keys(
            slot_id,
            scene_id@,
            event,
            unreported(before, slot_id, scene_id@, event, entries.take(0)),
        ));
        while i < metadata.tracking.len()
            invariant
                i <= metadata.tracking@.len(),
                entries == metadata@.tracking,
                entries.len() == metadata.tracking@.len(),
                slot_id == metadata@.slot_id,
                ({
                    let urls = unreported(
                        before,
                        slot_id,
                        scene_id@,
                        event,
                        entries.take(i as int),
                    );
                    &&& requests@.len() == urls.len()
                    &&& forall|j: int|
                        0 <= j < requests@.len() ==> {
                            &&& (#[trigger] requests@[j]).key@ == report_key(
                                slot_id,
                                scene_id@,
                                event,
                                urls[j],
                            )
                            &&& requests@[j].event == event
                            &&& requests@[j].url@ == urls[j]
                        }
                    &&& self.handed_out() == before + report_keys(slot_id, scene_id@, event, urls)
                }),
            decreases metadata.tracking@.len() - i,
        {
            let ghost urls = unreported(before, slot_id, scene_id@, event, entries.take(i as int));
            proof {
                let url = entries[i as int].url;
                assert(entries.take(i + 1).drop_last() =~= entries.take(i as int));
                lemma_key_among(before, slot_id, scene_id@, event, urls, url);
                assert(report_keys(slot_id, scene_id@, event, urls.push(url)) =~= report_keys(
                    slot_id,
                    scene_id@,
                    event,
                    urls,
                ).push(report_key(slot_id, scene_id@, event, url)));
                assert(before + report_keys(slot_id, scene_id@, event, urls.push(url)) =~= (before
                    + report_keys(slot_id, scene_id@, event, urls)).push(
                    report_key(slot_id, scene_id@, event, url),
                ));
            }
            if let Some(request) = self.record(metadata, scene_id, event, i) {
                requests.push(request);
            }
            i = i + 1;
        }
        assert(entries.take(i as int) =~= entries);
        requests
    }

    /// Takes back a report that could not be put in line, so that it can be handed out again.
    pub fn reject(&mut self, key: &str)
        ensures
            final(self).handed_out() == without_first(old(self).handed_out(), key@),
    {
        remove_text(&mut self.sent, key);
    }
}

/// What happens after a try to send a report.
#[derive(Debug, Clone, Copy, PartialEq, Eq, Structural)]
pub enum RetryStep {
    /// The report was sent.
    Sent,
    /// The report is tried again after this many milliseconds.
    Retry(u64),
    /// The report is given up.
    GiveUp,
}

/// What happens after the try `attempt`: a report is tried three times at most, and the time between
/// two tries doubles.
pub open spec fn retry_after(attempt: u32, ok: bool) -> RetryStep {
    if ok {
        RetryStep::Sent
    } else if attempt == 1 {
        RetryStep::Retry(250)
    } else if attempt == 2 {
        RetryStep::Retry(500)
    } else {
        RetryStep::GiveUp
    }
}

/// What happens after the try `attempt`, the first of which is 1.
pub fn after_attempt(attempt: u32, ok: bool) -> (r: RetryStep)
    requires
        attempt >= 1,
    ensures
        r == retry_after(attempt, ok),
{
    if ok {
        return RetryStep::Sent;
    }
    if attempt >= MAX_ATTEMPTS {
        return RetryStep::GiveUp;
    }
    let mut delay: u64 = INITIAL_BACKOFF_MS;
    if attempt == 2 {
        delay = delay * 2;
    }
    RetryStep::Retry(delay)
}

/// How long after a scene came on screen each event is reported.
pub open spec fn event_delay(event: TrackingEvent, duration: int) -> int {
    match event {
        TrackingEvent::Impression => 0,
        TrackingEvent::Start => 0,
        TrackingEvent::FirstQuartile => duration / 4,
        TrackingEvent::Midpoint => duration / 2,
        TrackingEvent::ThirdQuartile => duration * 3 / 4,
        TrackingEvent::Complete => duration,
    }
}

/// The events of a scene, in the order in which they are reported.
pub open spec fn tracking_order() -> Seq<TrackingEvent> {
    seq![
        TrackingEvent::Impression,
        TrackingEvent::Start,
        TrackingEvent::FirstQuartile,
        TrackingEvent::Midpoint,
        TrackingEvent::ThirdQuartile,
        TrackingEvent::Complete,
    ]
}

/// How long after a scene came on screen an event is reported: counted from when it really did, by
/// the time that it was given.
pub fn tracking_delay(event: TrackingEvent, duration_millis: i64) -> (r: i64)
    requires
        duration_millis >= 0,
    ensures
        r == event_delay(event, duration_millis as int),
        0 <= r <= duration_millis,
{
    match event {
        TrackingEvent::Impression => 0,
        TrackingEvent::Start => 0,
        TrackingEvent::FirstQuartile => duration_millis / 4,
        TrackingEvent::Midpoint => duration_millis / 2,
        TrackingEvent::ThirdQuartile => (duration_millis as i128 * 3 / 4) as i64,
        TrackingEvent::Complete => duration_millis,
    }
}

/// The events that are reported while a scene is on screen, in their order, each with how long is
/// waited for it after the event before it.
pub fn tracking_waits(duration_millis: i64) -> (r: Vec<(TrackingEvent, i64)>)
    requires
        duration_millis >= 0,
    ensures
        r@.len() == tracking_order().len() - 2,
        forall|i: int|
            0 <= i < r@.len() ==> {
                &&& (#[trigger] r@[i]).0 == tracking_order()[i + 2]
                &&& r@[i].1 == event_delay(tracking_order()[i + 2], duration_millis as int)
                    - event_delay(tracking_order()[i + 1], duration_millis as int)
                &&& r@[i].1 >= 0
            },
{
    let first: i64 = tracking_delay(TrackingEvent::FirstQuartile, duration_millis);
    let half: i64 = tracking_delay(TrackingEvent::Midpoint, duration_millis);
    let third: i64 = tracking_delay(TrackingEvent::ThirdQuartile, duration_millis);
    let mut waits: Vec<(TrackingEvent, i64)> = Vec::new();
    waits.push((TrackingEvent::FirstQuartile, first));
    waits.push((TrackingEvent::Midpoint, half - first));
    waits.push((TrackingEvent::ThirdQuartile, third - half));
    waits.push((TrackingEvent::Complete, duration_millis - third));
    waits
}

/// Whether a scene that came on screen at `started` and leaves it at `now` was seen to its end.
pub fn was_completed(started: i64, now: i64, duration_millis: i64) -> (r: bool)
    ensures
        r == (now - started >= duration_millis),
{
    now as i128 - started as i128 >= duration_millis as i128
}

/// Events are reported in order: none comes before the one ahead of it, and the last when the scene
/// is over.
pub proof fn events_come_in_order(duration: int, i: int, j: int)
    requires
        duration >= 0,
        0 <= i < j < tracking_order().len(),
    ensures
        event_delay(tracking_order()[i], duration) <= event_delay(tracking_order()[j], duration),
        event_delay(tracking_order().last(), duration) == duration,
{
}

/// An event that was reported is not reported again: nothing is left of it.
pub proof fn events_are_reported_once(
    handed_out: Seq<Seq<char>>,
    slot_id: Seq<char>,
    scene_id: Seq<char>,
    event: TrackingEvent,
    entries: Seq<TrackingUrlView>,
)
    ensures
        ({
            let urls = unreported(handed_out, slot_id, scene_id, event, entries);
            unreported(
                handed_out + report_keys(slot_id, scene_id, event, urls),
                slot_id,
                scene_id,
                event,
                entries,
            ).len() == 0
        }),
{
    let urls = unreported(handed_out, slot_id, scene_id, event, entries);
    lemma_nothing_left(handed_out, slot_id, scene_id, event, entries, urls);
}

proof fn lemma_nothing_left(
    handed_out: Seq<Seq<char>>,
    slot_id: Seq<char>,
    scene_id: Seq<char>,
    event: TrackingEvent,
    entries: Seq<TrackingUrlView>,
    urls: Seq<Seq<char>>,
)
    requires
        forall|i: int|
            0 <= i < unreported(handed_out, slot_id, scene_id, event, entries).len()
                ==> urls.contains(
                #[trigger] unreported(handed_out, slot_id, scene_id, event, entries)[i],
            ),
    ensures
        unreported(
            handed_out + report_keys(slot_id, scene_id, event, urls),
            slot_id,
            scene_id,
            event,
            entries,
        ).len() == 0,
    decreases entries.len(),
{
    if entries.len() > 0 {
        let all = unreported(handed_out, slot_id, scene_id, event, entries);
        let shorter = unreported(handed_out, slot_id, scene_id, event, entries.drop_last());
        let url = entries.last().url;
        assert forall|i: int| 0 <= i < shorter.len() implies urls.contains(#[trigger] shorter[i]) by {
            assert(all[i] == shorter[i]);
        }
        lemma_nothing_left(handed_out, slot_id, scene_id, event, entries.drop_last(), urls);
        lemma_key_among(handed_out, slot_id, scene_id, event, urls, url);
        if entries.last().event == event {
            if shorter.contains(url) {
                let i = choose|i: int| 0 <= i < shorter.len() && shorter[i] == url;
                assert(urls.contains(shorter[i]));
            } else if !handed_out.contains(report_key(slot_id, scene_id, event, url)) {
                assert(all[all.len() - 1] == url);
            }
        }
    }
}

/// A report that was handed out is not handed out again, unless it was taken back.
pub proof fn reports_are_sent_once(handed_out: Seq<Seq<char>>, key: Seq<char>, other: Seq<char>)
    ensures
        handed_out.push(key).contains(key),
        handed_out.contains(other) ==> handed_out.push(key).contains(other),
        other != key && handed_out.contains(other) ==> without_first(handed_out, key).contains(
            other,
        ),
{
    let more = handed_out.push(key);
    assert(more[handed_out.len() as int] == key);
    if handed_out.contains(other) {
        let i = choose|i: int| 0 <= i < handed_out.len() && handed_out[i] == other;
        assert(more[i] == other);
        if other != key {
            others_stay(handed_out, key, other);
        }
    }
}

/// The URLs that are reported are those of the event that were not reported before, each once.
pub proof fn every_url_of_the_event_is_reported(
    handed_out: Seq<Seq<char>>,
    slot_id: Seq<char>,
    scene_id: Seq<char>,
    event: TrackingEvent,
    entries: Seq<TrackingUrlView>,
)
    ensures
        ({
            let urls = unreported(handed_out, slot_id, scene_id, event, entries);
            &&& forall|i: int|
                #![trigger entries[i]]
                0 <= i < entries.len() && entries[i].event == event && !handed_out.contains(
                    slot_id + "|"@ + scene_id + "|"@ + event.name() + "|"@ + entries[i].url,
                ) ==> urls.contains(entries[i].url)
            &&& forall|k: int|
                0 <= k < urls.len() ==> {
                    &&& !handed_out.contains(
                        slot_id + "|"@ + scene_id + "|"@ + event.name() + "|"@
                            + #[trigger] urls[k],
                    )
                    &&& exists|i: int|
                        0 <= i < entries.len() && (#[trigger] entries[i]).event == event
                            && entries[i].url == urls[k]
                }
            &&& urls.no_duplicates()
        }),
    decreases entries.len(),
{
    if entries.len() > 0 {
        let shorter = entries.drop_last();
        let before = unreported(handed_out, slot_id, scene_id, event, shorter);
        let urls = unreported(handed_out, slot_id, scene_id, event, entries);
        every_url_of_the_event_is_reported(handed_out, slot_id, scene_id, event, shorter);
        assert forall|i: int|
            #![trigger entries[i]]
            0 <= i < entries.len() && entries[i].event == event && !handed_out.contains(
                slot_id + "|"@ + scene_id + "|"@ + event.name() + "|"@ + entries[i].url,
            ) implies urls.contains(entries[i].url) by {
            if i < shorter.len() {
                assert(shorter[i] == entries[i]);
                assert(before.contains(entries[i].url));
                let k = choose|k: int| 0 <= k < before.len() && before[k] == entries[i].url;
                assert(urls[k] == before[k]);
            } else if before.contains(entries[i].url) {
                let k = choose|k: int| 0 <= k < before.len() && before[k] == entries[i].url;
                assert(urls[k] == before[k]);
            } else {
                assert(urls[before.len() as int] == entries[i].url);
            }
        }
        assert forall|k: int| 0 <= k < urls.len() implies {
            &&& !handed_out.contains(
                slot_id + "|"@ + scene_id + "|"@ + event.name() + "|"@ + #[trigger] urls[k],
            )
            &&& exists|i: int|
                0 <= i < entries.len() && (#[trigger] entries[i]).event == event && entries[i].url
                    == urls[k]
        } by {
            if k < before.len() {
                assert(urls[k] == before[k]);
                let i = choose|i: int|
                    0 <= i < shorter.len() && (#[trigger] shorter[i]).event == event
                        && shorter[i].url == before[k];
                assert(entries[i] == shorter[i]);
            } else {
                assert(entries[entries.len() - 1].url == urls[k]);
            }
        }
        assert(urls.no_duplicates());
    }
}

/// URLs are called in the order in which they are listed.
pub proof fn urls_are_called_in_order(
    handed_out: Seq<Seq<char>>,
    slot_id: Seq<char>,
    scene_id: Seq<char>,
    event: TrackingEvent,
    entries: Seq<TrackingUrlView>,
    next: TrackingUrlView,
)
    ensures
        ({
            let before = unreported(handed_out, slot_id, scene_id, event, entries);
            let after = unreported(handed_out, slot_id, scene_id, event, entries.push(next));
            &&& before.len() <= after.len() <= before.len() + 1
            &&& after.take(before.len() as int) == before
            &&& after.len() > before.len() ==> after.last() == next.url
        }),
{
    let before = unreported(handed_out, slot_id, scene_id, event, entries);
    let after = unreported(handed_out, slot_id, scene_id, event, entries.push(next));
    assert(entries.push(next).drop_last() =~= entries);
    assert(after.take(before.len() as int) =~= before);
}

/// A report is told apart by its slot, its scene, its event and its URL, in this order and with a bar
/// between them.
pub proof fn reports_are_named_by_slot_scene_event_and_url(
    slot_id: Seq<char>,
    scene_id: Seq<char>,
    event: TrackingEvent,
    urls: Seq<Seq<char>>,
)
    ensures
        report_keys(slot_id, scene_id, event, urls).len() == urls.len(),
        forall|i: int|
            0 <= i < urls.len() ==> #[trigger] report_keys(slot_id, scene_id, event, urls)[i]
                == slot_id + "|"@ + scene_id + "|"@ + event.name() + "|"@ + urls[i],
{
}

/// A report that was sent is not tried again. One that failed is tried again after a quarter of a
/// second, then after half a second, and is given up after the third try.
pub proof fn reports_are_tried_three_times(attempt: u32)
    requires
        attempt >= 1,
    ensures
        retry_after(attempt, true) is Sent,
        attempt == 1 ==> retry_after(attempt, false) == RetryStep::Retry(250),
        attempt == 2 ==> retry_after(attempt, false) == RetryStep::Retry(500),
        attempt >= 3 ==> retry_after(attempt, false) is GiveUp,
{
}

/// A scene is reported as seen and as started when it comes on screen, and as complete when its time
/// is over. Between them it is reported at a quarter, at half and at three quarters of its time,
/// rounded down.
pub proof fn quartiles_divide_the_time(duration: int)
    requires
        duration >= 0,
    ensures
        event_delay(TrackingEvent::Impression, duration) == 0,
        event_delay(TrackingEvent::Start, duration) == 0,
        event_delay(TrackingEvent::Complete, duration) == duration,
        4 * event_delay(TrackingEvent::FirstQuartile, duration) <= duration < 4 * event_delay(
            TrackingEvent::FirstQuartile,
            duration,
        ) + 4,
        2 * event_delay(TrackingEvent::Midpoint, duration) <= duration < 2 * event_delay(
            TrackingEvent::Midpoint,
            duration,
        ) + 2,
        4 * event_delay(TrackingEvent::ThirdQuartile, duration) <= 3 * duration < 4 * event_delay(
            TrackingEvent::ThirdQuartile,
            duration,
        ) + 4,
{
}

/// A scene is reported six times, first as seen and last as complete.
pub proof fn scenes_are_reported_from_seen_to_complete()
    ensures
        tracking_order().len() == 6,
        tracking_order()[0] is Impression,
        tracking_order()[1] is Start,
        tracking_order()[2] is FirstQuartile,
        tracking_order()[3] is Midpoint,
        tracking_order()[4] is ThirdQuartile,
        tracking_order()[5] is Complete,
{
}
} // verus!
