//! Where the time of a switch goes: one JSON object per line.

use vstd::prelude::*;

verus! {

/// The value of a field.
#[derive(Debug)]
pub enum TimingValue {
    String(String),
    I64(i64),
    U64(u64),
    U128(u128),
    Bool(bool),
}

/// A value as it stands in a line.
#[derive(Debug)]
pub enum JsonScalar {
    Text(String),
    Signed(i64),
    Unsigned(u64),
    Flag(bool),
}

/// Model of a [`JsonScalar`].
#[verifier::ext_equal]
pub enum JsonScalarView {
    Text(Seq<char>),
    Signed(i64),
    Unsigned(u64),
    Flag(bool),
}

impl View for JsonScalar {
    type V = JsonScalarView;

    open spec fn view(&self) -> JsonScalarView {
        match self {
            JsonScalar::Text(text) => JsonScalarView::Text(text@),
            JsonScalar::Signed(n) => JsonScalarView::Signed(*n),
            JsonScalar::Unsigned(n) => JsonScalarView::Unsigned(*n),
            JsonScalar::Flag(b) => JsonScalarView::Flag(*b),
        }
    }
}

/// A value as it stands in a line: a number that is too large is the largest.
pub open spec fn scalar_of(value: TimingValue) -> JsonScalarView {
    match value {
        TimingValue::String(text) => JsonScalarView::Text(text@),
        TimingValue::I64(n) => JsonScalarView::Signed(n),
        TimingValue::U64(n) => JsonScalarView::Unsigned(n),
        TimingValue::U128(n) => JsonScalarView::Unsigned(
            if n <= u64::MAX {
                n as u64
            } else {
                u64::MAX
            },
        ),
        TimingValue::Bool(b) => JsonScalarView::Flag(b),
    }
}

impl TimingValue {
    /// A text.
    pub fn text(value: &str) -> (r: TimingValue)
        ensures
            scalar_of(r) == JsonScalarView::Text(value@),
    {
        TimingValue::String(value.to_owned())
    }

    /// The value as it stands in a line.
    pub fn into_json(self) -> (r: JsonScalar)
        ensures
            r@ == scalar_of(self),
    {
        match self {
            TimingValue::String(text) => JsonScalar::Text(text),
            TimingValue::I64(n) => JsonScalar::Signed(n),
            TimingValue::U64(n) => JsonScalar::Unsigned(n),
            TimingValue::U128(n) => JsonScalar::Unsigned(
                if n <= u64::MAX as u128 {
                    n as u64
                } else {
                    u64::MAX
                },
            ),
            TimingValue::Bool(b) => JsonScalar::Flag(b),
        }
    }
}

impl From<String> for TimingValue {
    fn from(value: String) -> (r: Self) {
        TimingValue::String(value)
    }
}

impl vstd::std_specs::convert::FromSpecImpl<String> for TimingValue {
    open spec fn obeys_from_spec() -> bool {
        true
    }

    open spec fn from_spec(value: String) -> Self {
        TimingValue::String(value)
    }
}

impl From<i64> for TimingValue {
    fn from(value: i64) -> (r: Self) {
        TimingValue::I64(value)
    }
}

impl vstd::std_specs::convert::FromSpecImpl<i64> for TimingValue {
    open spec fn obeys_from_spec() -> bool {
        true
    }

    open spec fn from_spec(value: i64) -> Self {
        TimingValue::I64(value)
    }
}

impl From<u64> for TimingValue {
    fn from(value: u64) -> (r: Self) {
        TimingValue::U64(value)
    }
}

impl vstd::std_specs::convert::FromSpecImpl<u64> for TimingValue {
    open spec fn obeys_from_spec() -> bool {
        true
    }

    open spec fn from_spec(value: u64) -> Self {
        TimingValue::U64(value)
    }
}

impl From<u128> for TimingValue {
    fn from(value: u128) -> (r: Self) {
        TimingValue::U128(value)
    }
}

impl vstd::std_specs::convert::FromSpecImpl<u128> for TimingValue {
    open spec fn obeys_from_spec() -> bool {
        true
    }

    open spec fn from_spec(value: u128) -> Self {
        TimingValue::U128(value)
    }
}

impl From<usize> for TimingValue {
    fn from(value: usize) -> (r: Self) {
        TimingValue::U64(value as u64)
    }
}

impl vstd::std_specs::convert::FromSpecImpl<usize> for TimingValue {
    open spec fn obeys_from_spec() -> bool {
        true
    }

    open spec fn from_spec(value: usize) -> Self {
        TimingValue::U64(value as u64)
    }
}

impl From<bool> for TimingValue {
    fn from(value: bool) -> (r: Self) {
        TimingValue::Bool(value)
    }
}

impl vstd::std_specs::convert::FromSpecImpl<bool> for TimingValue {
    open spec fn obeys_from_spec() -> bool {
        true
    }

    open spec fn from_spec(value: bool) -> Self {
        TimingValue::Bool(value)
    }
}

/// One field of a line.
pub type Entry = (String, JsonScalar);

/// Model of a field.
pub type EntryView = (Seq<char>, JsonScalarView);

/// The models of a list of fields.
pub open spec fn entry_views(entries: Seq<Entry>) -> Seq<EntryView> {
    Seq::new(entries.len(), |i: int| (entries[i].0@, entries[i].1@))
}

/// The fields that a line has of its own.
pub open spec fn head_of(
    ts: Seq<char>,
    level: Seq<char>,
    step: Seq<char>,
    event: Seq<char>,
    scene_id: Option<Seq<char>>,
    target: Option<i64>,
    now: Option<i64>,
) -> Seq<EntryView> {
    let base: Seq<EntryView> = seq![
        ("ts"@, JsonScalarView::Text(ts)),
        ("level"@, JsonScalarView::Text(level)),
        ("step"@, JsonScalarView::Text(step)),
        ("event"@, JsonScalarView::Text(event)),
    ];
    let with_scene = match scene_id {
        Some(id) => base.push(("scene_id"@, JsonScalarView::Text(id))),
        None => base,
    };
    let with_target = match target {
        Some(t) => with_scene.push(("target_time_millis"@, JsonScalarView::Signed(t))),
        None => with_scene,
    };
    match now {
        Some(n) => {
            let with_now = with_target.push(("now_millis"@, JsonScalarView::Signed(n)));
            match target {
                Some(t) => with_now.push(
                    ("time_to_target_ms"@, JsonScalarView::Signed((t - n) as i64)),
                ),
                None => with_now,
            }
        },
        None => with_target,
    }
}

fn add_entry(entries: &mut Vec<Entry>, key: &str, value: JsonScalar)
    ensures
        entry_views(final(entries)@) == entry_views(old(entries)@).push((key@, value@)),
{
    let ghost before = entry_views(entries@);
    let ghost view = value@;
    entries.push((key.to_owned(), value));
    assert(entry_views(entries@) =~= before.push((key@, view)));
}

/// The fields of a line, in order: its own, and then `fields`. Of two fields of one name the later
/// counts.
pub fn record_entries(
    ts: &str,
    level: &str,
    step: &str,
    event: &str,
    scene_id: Option<&str>,
    target_time_millis: Option<i64>,
    now_millis: Option<i64>,
    fields: Vec<(String, TimingValue)>,
) -> (r: Vec<Entry>)
    requires
        target_time_millis is Some && now_millis is Some ==> i64::MIN <= target_time_millis->0
            - now_millis->0 <= i64::MAX,
    ensures
        entry_views(r@) == head_of(
            ts@,
            level@,
            step@,
            event@,
            match scene_id {
                Some(id) => Some(id@),
                None => None,
            },
            target_time_millis,
            now_millis,
        ) + Seq::new(fields@.len(), |i: int| (fields@[i].0@, scalar_of(fields@[i].1))),
{
    let mut entries: Vec<Entry> = Vec::new();
    assert(entry_views(entries@) =~= Seq::empty());
    add_entry(&mut entries, "ts", JsonScalar::Text(ts.to_owned()));
    add_entry(&mut entries, "level", JsonScalar::Text(level.to_owned()));
    add_entry(&mut entries, "step", JsonScalar::Text(step.to_owned()));
    add_entry(&mut entries, "event", JsonScalar::Text(event.to_owned()));
    match scene_id {
        Some(id) => add_entry(&mut entries, "scene_id", JsonScalar::Text(id.to_owned())),
        None => {},
    }
    match target_time_millis {
        Some(t) => add_entry(&mut entries, "target_time_millis", JsonScalar::Signed(t)),
        None => {},
    }
    match now_millis {
        Some(n) => {
            add_entry(&mut entries, "now_millis", JsonScalar::Signed(n));
            match target_time_millis {
                Some(t) => add_entry(
                    &mut entries,
                    "time_to_target_ms",
                    JsonScalar::Signed(t - n),
                ),
                None => {},
            }
        },
        None => {},
    }
    let ghost head = entry_views(entries@);
    let ghost all = fields@;
    let ghost views = Seq::new(all.len(), |i: int| (all[i].0@, scalar_of(all[i].1)));
    assert(head =~= head_of(
        ts@,
        level@,
        step@,
        event@,
        match scene_id {
            Some(id) => Some(id@),
            None => None,
        },
        target_time_millis,
        now_millis,
    ));
    assert(head + views.take(0) =~= head);
    for field in it: fields
        invariant
            it.seq() == all,
            views == Seq::new(all.len(), |i: int| (all[i].0@, scalar_of(all[i].1))),
            entry_views(entries@) == head + views.take(it.index() as int),
    {
        let ghost k = it.index() as int;
        assert(field == all[k]);
        add_entry(&mut entries, field.0.as_str(), field.1.into_json());
        assert((head + views.take(k)).push(views[k]) =~= head + views.take(k + 1));
    }
    assert(views.take(all.len() as int) =~= views);
    entries
}

/// A value stands in a line as it is. A number that a line cannot hold is the largest that it can.
pub proof fn values_stand_as_they_are(value: TimingValue, scalar: JsonScalar)
    ensures
        value matches TimingValue::String(text) ==> scalar_of(value) == JsonScalarView::Text(text@),
        value matches TimingValue::I64(n) ==> scalar_of(value) == JsonScalarView::Signed(n),
        value matches TimingValue::U64(n) ==> scalar_of(value) == JsonScalarView::Unsigned(n),
        value matches TimingValue::U128(n) ==> scalar_of(value) is Unsigned && (n <= u64::MAX
            ==> scalar_of(value)->Unsigned_0 == n) && (n > u64::MAX
            ==> scalar_of(value)->Unsigned_0 == u64::MAX),
        value matches TimingValue::Bool(b) ==> scalar_of(value) == JsonScalarView::Flag(b),
        scalar matches JsonScalar::Text(text) ==> scalar@ == JsonScalarView::Text(text@),
        scalar matches JsonScalar::Signed(n) ==> scalar@ == JsonScalarView::Signed(n),
        scalar matches JsonScalar::Unsigned(n) ==> scalar@ == JsonScalarView::Unsigned(n),
        scalar matches JsonScalar::Flag(b) ==> scalar@ == JsonScalarView::Flag(b),
{
}

/// A line begins with when, how grave, which step and what. The scene, its time and the present time
/// follow where they are known, and where both times are, how long it is from the one to the other:
/// before its time a scene has time left, after it less than none.
pub proof fn lines_tell_the_time_that_is_left(
    ts: Seq<char>,
    level: Seq<char>,
    step: Seq<char>,
    event: Seq<char>,
    id: Seq<char>,
    target: i64,
    now: i64,
)
    requires
        i64::MIN <= target - now <= i64::MAX,
    ensures
        ({
            let full = head_of(ts, level, step, event, Some(id), Some(target), Some(now));
            &&& full.len() == 8
            &&& full[0] == ("ts"@, JsonScalarView::Text(ts))
            &&& full[1] == ("level"@, JsonScalarView::Text(level))
            &&& full[2] == ("step"@, JsonScalarView::Text(step))
            &&& full[3] == ("event"@, JsonScalarView::Text(event))
            &&& full[4] == ("scene_id"@, JsonScalarView::Text(id))
            &&& full[5] == ("target_time_millis"@, JsonScalarView::Signed(target))
            &&& full[6] == ("now_millis"@, JsonScalarView::Signed(now))
            &&& full[7].0 == "time_to_target_ms"@
            &&& full[7].1 matches JsonScalarView::Signed(left) && left == target - now
        }),
        head_of(ts, level, step, event, None, None, None) == head_of(
            ts,
            level,
            step,
            event,
            Some(id),
            Some(target),
            Some(now),
        ).take(4),
        head_of(ts, level, step, event, Some(id), None, None) == head_of(
            ts,
            level,
            step,
            event,
            Some(id),
            Some(target),
            Some(now),
        ).take(5),
        head_of(ts, level, step, event, Some(id), Some(target), None) == head_of(
            ts,
            level,
            step,
            event,
            Some(id),
            Some(target),
            Some(now),
        ).take(6),
        head_of(ts, level, step, event, None, None, Some(now)) == head_of(
            ts,
            level,
            step,
            event,
            None,
            None,
            None,
        ).push(("now_millis"@, JsonScalarView::Signed(now))),
        head_of(ts, level, step, event, None, Some(target), None) == head_of(
            ts,
            level,
            step,
            event,
            None,
            None,
            None,
        ).push(("target_time_millis"@, JsonScalarView::Signed(target))),
{
}

/// The fields of a line are modelled one by one.
pub proof fn line_models_are_faithful(entries: Seq<Entry>)
    ensures
        entry_views(entries).len() == entries.len(),
        forall|i: int|
            0 <= i < entries.len() ==> (#[trigger] entry_views(entries)[i]).0 == entries[i].0@
                && entry_views(entries)[i].1 == entries[i].1@,
{
}
} // verus!
