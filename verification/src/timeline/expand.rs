//! Items that take turns: which of them plays when.
//!
//! From the start of a slot its items play one after the other, each for its duration, over and
//! over until the slot ends. Only the plays that reach into a window are written out.

use vstd::prelude::*;

use crate::config::{
    MAX_EXPANDED_SCENES, ONE_SECOND_MS, TIMELINE_FUTURE_WINDOW_MS, TIMELINE_PAST_WINDOW_MS,
};

verus! {

/// One play of the item `index`.
#[derive(Debug, Clone, Copy)]
pub struct Span {
    pub index: usize,
    pub start: i64,
    pub end: i64,
}

/// The sum of the durations.
pub open spec fn total(durations: Seq<i64>) -> int
    decreases durations.len(),
{
    if durations.len() == 0 {
        0
    } else {
        total(durations.drop_last()) + durations.last()
    }
}

/// Whether every duration is positive.
pub open spec fn positive(durations: Seq<i64>) -> bool {
    forall|i: int| 0 <= i < durations.len() ==> durations[i] > 0
}

/// The first index from `i` on whose turn is not over at `offset` into a round; the last one where
/// there is none.
pub open spec fn locate(durations: Seq<i64>, offset: int, i: int) -> int
    decreases durations.len() - i,
{
    if i + 1 >= durations.len() || offset < total(durations.take(i + 1)) {
        i
    } else {
        locate(durations, offset, i + 1)
    }
}

/// The smaller of two numbers.
pub open spec fn least(a: int, b: int) -> int {
    if a <= b {
        a
    } else {
        b
    }
}

/// The plays from `cursor` on, where it is the turn of `index`: those that start before
/// `window_end`, at most `room` of them, the last one cut at `slot_end`.
pub open spec fn spans_from(
    durations: Seq<i64>,
    slot_end: int,
    window_end: int,
    index: int,
    cursor: int,
    room: nat,
) -> Seq<Span>
    decreases room,
{
    if cursor < window_end && room > 0 {
        let end = least(cursor + durations[index], slot_end);
        seq![Span { index: index as usize, start: cursor as i64, end: end as i64 }] + spans_from(
            durations,
            slot_end,
            window_end,
            (index + 1) % (durations.len() as int),
            end,
            (room - 1) as nat,
        )
    } else {
        Seq::empty()
    }
}

/// The plays of a slot that reach into the window, from the one that is on at the window's start.
pub open spec fn expansion(
    durations: Seq<i64>,
    slot_start: int,
    slot_end: int,
    window_start: int,
    window_end: int,
) -> Seq<Span> {
    let offset = (window_start - slot_start) % total(durations);
    let index = locate(durations, offset, 0);
    spans_from(
        durations,
        slot_end,
        window_end,
        index,
        window_start - (offset - total(durations.take(index))),
        MAX_EXPANDED_SCENES as nat,
    )
}

/// Whether a slot and a window are such that the slot can be expanded.
pub open spec fn expandable(
    durations: Seq<i64>,
    slot_start: int,
    slot_end: int,
    window_start: int,
    window_end: int,
) -> bool {
    &&& durations.len() > 0
    &&& positive(durations)
    &&& total(durations) <= i64::MAX
    &&& i64::MIN <= slot_start <= window_start < window_end <= slot_end <= i64::MAX
    &&& slot_end - slot_start <= i64::MAX
}

/// Sums of the first durations grow with their number.
pub proof fn totals_grow(durations: Seq<i64>, i: int, j: int)
    requires
        positive(durations),
        0 <= i <= j <= durations.len(),
    ensures
        0 <= total(durations.take(i)) <= total(durations.take(j)) <= total(durations),
        i < j ==> total(durations.take(i)) < total(durations.take(j)),
    decreases j,
{
    if j == durations.len() {
        assert(durations.take(j) =~= durations);
    } else {
        lemma_total_step(durations, j);
        totals_grow_to_end(durations, j);
    }
    if i < j {
        lemma_total_step(durations, j - 1);
        totals_grow(durations, i, j - 1);
    } else {
        totals_nonnegative(durations.take(i));
    }
}

proof fn totals_nonnegative(durations: Seq<i64>)
    requires
        positive(durations),
    ensures
        total(durations) >= 0,
        durations.len() > 0 ==> total(durations) > 0,
    decreases durations.len(),
{
    if durations.len() > 0 {
        totals_nonnegative(durations.drop_last());
    }
}

proof fn totals_grow_to_end(durations: Seq<i64>, j: int)
    requires
        positive(durations),
        0 <= j <= durations.len(),
    ensures
        total(durations.take(j)) <= total(durations),
    decreases durations.len() - j,
{
    if j == durations.len() {
        assert(durations.take(j) =~= durations);
    } else {
        lemma_total_step(durations, j);
        totals_grow_to_end(durations, j + 1);
    }
}

proof fn lemma_total_step(durations: Seq<i64>, i: int)
    requires
        0 <= i < durations.len(),
    ensures
        total(durations.take(i + 1)) == total(durations.take(i)) + durations[i],
{
    assert(durations.take(i + 1).drop_last() =~= durations.take(i));
}

proof fn lemma_locate(durations: Seq<i64>, offset: int, i: int)
    requires
        positive(durations),
        0 <= i < durations.len(),
        total(durations.take(i)) <= offset < total(durations),
    ensures
        i <= locate(durations, offset, i) < durations.len(),
        total(durations.take(locate(durations, offset, i))) <= offset,
        offset < total(durations.take(locate(durations, offset, i) + 1)),
    decreases durations.len() - i,
{
    if i + 1 >= durations.len() {
        assert(durations.take(i + 1) =~= durations);
    } else if offset >= total(durations.take(i + 1)) {
        lemma_locate(durations, offset, i + 1);
    }
}

/// What holds of the play that is on at the window's start.
proof fn lemma_first_play(
    durations: Seq<i64>,
    slot_start: int,
    slot_end: int,
    window_start: int,
    window_end: int,
) -> (r: (int, int, int))
    requires
        expandable(durations, slot_start, slot_end, window_start, window_end),
    ensures
        r.0 == (window_start - slot_start) % total(durations),
        r.1 == locate(durations, r.0, 0),
        r.2 == window_start - (r.0 - total(durations.take(r.1))),
        0 <= r.0 < total(durations),
        0 <= r.1 < durations.len(),
        slot_start <= r.2 <= window_start < r.2 + durations[r.1],
        r.2 == slot_start + ((window_start - slot_start) / total(durations)) * total(durations)
            + total(durations.take(r.1)),
{
    totals_nonnegative(durations);
    let cycle = total(durations);
    let lead = window_start - slot_start;
    let offset = lead % cycle;
    assert(0 <= offset < cycle && lead == (lead / cycle) * cycle + offset && lead / cycle >= 0)
        by (nonlinear_arith)
        requires
            cycle > 0,
            lead >= 0,
            offset == lead % cycle,
    ;
    assert((lead / cycle) * cycle >= 0) by (nonlinear_arith)
        requires
            lead / cycle >= 0,
            cycle > 0,
    ;
    assert(total(durations.take(0)) == 0);
    lemma_locate(durations, offset, 0);
    let index = locate(durations, offset, 0);
    lemma_total_step(durations, index);
    totals_grow(durations, index, index);
    (offset, index, window_start - (offset - total(durations.take(index))))
}

/// Writes out the plays of a slot that reach into a window.
pub fn expand_spans(
    durations: &Vec<i64>,
    slot_start: i64,
    slot_end: i64,
    window_start: i64,
    window_end: i64,
) -> (r: Vec<Span>)
    requires
        expandable(
            durations@,
            slot_start as int,
            slot_end as int,
            window_start as int,
            window_end as int,
        ),
    ensures
        r@ == expansion(
            durations@,
            slot_start as int,
            slot_end as int,
            window_start as int,
            window_end as int,
        ),
{
    let mut cycle: i64 = 0;
    let mut k: usize = 0;
    while k < durations.len()
        invariant
            k <= durations@.len(),
            positive(durations@),
            total(durations@) <= i64::MAX,
            cycle == total(durations@.take(k as int)),
        decreases durations@.len() - k,
    {
        proof {
            lemma_total_step(durations@, k as int);
            totals_grow(durations@, k as int, k + 1);
        }
        cycle = cycle + durations[k];
        k = k + 1;
    }
    let ghost first = lemma_first_play(
        durations@,
        slot_start as int,
        slot_end as int,
        window_start as int,
        window_end as int,
    );
    proof {
        assert(durations@.take(k as int) =~= durations@);
        totals_nonnegative(durations@);
        assert(total(durations@.take(0)) == 0);
    }
    let offset: i64 = (window_start - slot_start) % cycle;
    let mut index: usize = 0;
    let mut before: i64 = 0;
    while index < durations.len() - 1 && offset >= before + durations[index]
        invariant
            positive(durations@),
            total(durations@) <= i64::MAX,
            0 <= index < durations@.len(),
            before == total(durations@.take(index as int)),
            before + durations@[index as int] <= i64::MAX,
            0 <= before <= offset,
            locate(durations@, offset as int, 0) == locate(durations@, offset as int, index as int),
        decreases durations@.len() - index,
    {
        proof {
            lemma_total_step(durations@, index as int);
            lemma_total_step(durations@, index + 1);
            totals_grow(durations@, index + 1, index + 2);
        }
        before = before + durations[index];
        index = index + 1;
    }
    proof {
        lemma_total_step(durations@, index as int);
        assert(locate(durations@, offset as int, index as int) == index);
    }
    let mut cursor: i64 = window_start - (offset - before);
    let ghost begin = cursor as int;
    let ghost begin_index = index as int;
    let mut spans: Vec<Span> = Vec::new();
    let ghost whole = spans_from(
        durations@,
        slot_end as int,
        window_end as int,
        begin_index,
        begin,
        MAX_EXPANDED_SCENES as nat,
    );
    while cursor < window_end && spans.len() < MAX_EXPANDED_SCENES
        invariant
            durations@.len() > 0,
            positive(durations@),
            index < durations@.len(),
            slot_start <= cursor <= slot_end,
            window_end <= slot_end,
            slot_end - slot_start <= i64::MAX,
            spans@.len() <= MAX_EXPANDED_SCENES,
            whole == spans@ + spans_from(
                durations@,
                slot_end as int,
                window_end as int,
                index as int,
                cursor as int,
                (MAX_EXPANDED_SCENES - spans@.len()) as nat,
            ),
        decreases MAX_EXPANDED_SCENES - spans@.len(),
    {
        let room: i64 = slot_end - cursor;
        let end: i64 = if durations[index] >= room {
            slot_end
        } else {
            cursor + durations[index]
        };
        let ghost rest = spans_from(
            durations@,
            slot_end as int,
            window_end as int,
            index as int,
            cursor as int,
            (MAX_EXPANDED_SCENES - spans@.len()) as nat,
        );
        let ghost done = spans@;
        let span: Span = Span { index, start: cursor, end };
        spans.push(span);
        cursor = end;
        index = if index == durations.len() - 1 {
            0
        } else {
            index + 1
        };
        proof {
            let n = durations@.len() as int;
            let i = span.index as int;
            assert((i + 1) % n == index) by {
                if i + 1 < n {
                    vstd::arithmetic::div_mod::lemma_small_mod((i + 1) as nat, n as nat);
                } else {
                    vstd::arithmetic::div_mod::lemma_mod_self_0(n);
                }
            }
            assert(rest =~= seq![span] + spans_from(
                durations@,
                slot_end as int,
                window_end as int,
                index as int,
                cursor as int,
                (MAX_EXPANDED_SCENES - spans@.len()) as nat,
            ));
            assert(spans@ =~= done + seq![span]);
        }
    }
    assert(spans@ =~= whole);
    spans
}

/// Whether `span` is one of the slot's plays: its start lies on the grid that the durations lay
/// out from the slot's start, whatever the window.
pub open spec fn on_grid(durations: Seq<i64>, slot_start: int, span: Span) -> bool {
    exists|round: int|
        round >= 0 && span.start == slot_start + #[trigger] (round * total(durations)) + total(
            durations.take(span.index as int),
        )
}

/// Whether a list of plays follows on without gap or overlap, item after item.
pub open spec fn in_turn(durations: Seq<i64>, spans: Seq<Span>) -> bool {
    forall|k: int|
        0 <= k < spans.len() - 1 ==> {
            &&& (#[trigger] spans[k]).end == spans[k + 1].start
            &&& spans[k + 1].index == (spans[k].index + 1) % durations.len() as int
        }
}

/// Whether a play lasts for its item's duration, or to the end of the slot where that comes first.
pub open spec fn play_length(durations: Seq<i64>, slot_end: int, span: Span) -> bool {
    span.end == least(span.start + durations[span.index as int], slot_end)
}

proof fn lemma_spans(
    durations: Seq<i64>,
    slot_start: int,
    slot_end: int,
    window_end: int,
    index: int,
    cursor: int,
    room: nat,
    round: int,
)
    requires
        durations.len() > 0,
        positive(durations),
        0 <= index < durations.len() <= usize::MAX,
        i64::MIN <= slot_start <= cursor,
        cursor <= slot_end,
        window_end <= slot_end <= i64::MAX,
        round >= 0,
        cursor < window_end ==> cursor == slot_start + round * total(durations) + total(
            durations.take(index),
        ),
    ensures
        ({
            let s = spans_from(durations, slot_end, window_end, index, cursor, room);
            &&& s.len() <= room
            &&& s.len() > 0 <==> cursor < window_end && room > 0
            &&& s.len() > 0 ==> s[0].start == cursor && s[0].index == index
            &&& s.len() < room && s.len() > 0 ==> s.last().end >= window_end
            &&& in_turn(durations, s)
            &&& forall|k: int|
                0 <= k < s.len() ==> {
                    &&& (#[trigger] s[k]).index < durations.len()
                    &&& cursor <= s[k].start < s[k].end <= slot_end
                    &&& s[k].start < window_end
                    &&& play_length(durations, slot_end, s[k])
                    &&& on_grid(durations, slot_start, s[k])
                }
        }),
    decreases room,
{
    if cursor < window_end && room > 0 {
        let n = durations.len() as int;
        let end = least(cursor + durations[index], slot_end);
        let next = (index + 1) % n;
        let next_round = if index + 1 == n {
            round + 1
        } else {
            round
        };
        assert(next == if index + 1 == n { 0 } else { index + 1 }) by {
            if index + 1 < n {
                vstd::arithmetic::div_mod::lemma_small_mod((index + 1) as nat, n as nat);
            } else {
                vstd::arithmetic::div_mod::lemma_mod_self_0(n);
            }
        }
        lemma_total_step(durations, index);
        if index + 1 == n {
            assert(durations.take(n) =~= durations);
            assert((round + 1) * total(durations) == round * total(durations) + total(durations))
                by (nonlinear_arith);
            assert(total(durations.take(0)) == 0);
        }
        lemma_spans(
            durations,
            slot_start,
            slot_end,
            window_end,
            next,
            end,
            (room - 1) as nat,
            next_round,
        );
        let head = Span { index: index as usize, start: cursor as i64, end: end as i64 };
        let rest = spans_from(durations, slot_end, window_end, next, end, (room - 1) as nat);
        let s = spans_from(durations, slot_end, window_end, index, cursor, room);
        assert(s == seq![head] + rest);
        assert(s[0] == head);
        assert(head.start == slot_start + round * total(durations) + total(
            durations.take(head.index as int),
        ));
        assert(on_grid(durations, slot_start, head));
        assert forall|k: int| 0 <= k < s.len() implies {
            &&& (#[trigger] s[k]).index < durations.len()
            &&& cursor <= s[k].start < s[k].end <= slot_end
            &&& s[k].start < window_end
            &&& play_length(durations, slot_end, s[k])
            &&& on_grid(durations, slot_start, s[k])
        } by {
            if k > 0 {
                assert(s[k] == rest[k - 1]);
            }
        }
        assert forall|k: int| 0 <= k < s.len() - 1 implies {
            &&& (#[trigger] s[k]).end == s[k + 1].start
            &&& s[k + 1].index == (s[k].index + 1) % durations.len() as int
        } by {
            assert(s[k + 1] == rest[k]);
            if k > 0 {
                assert(s[k] == rest[k - 1]);
            }
        }
        if rest.len() > 0 {
            assert(s.last() == rest.last());
        }
    }
}

/// The plays of a slot: the first is on at the window's start, each begins where the one before
/// ends, the items take turns, each lasts for its duration or to the slot's end, all lie within the
/// slot, and they reach the window's end unless there are as many as a slot may have.
pub proof fn expansion_covers_window(
    durations: Seq<i64>,
    slot_start: int,
    slot_end: int,
    window_start: int,
    window_end: int,
)
    requires
        expandable(durations, slot_start, slot_end, window_start, window_end),
        durations.len() <= usize::MAX,
    ensures
        ({
            let s = expansion(durations, slot_start, slot_end, window_start, window_end);
            &&& 0 < s.len() <= MAX_EXPANDED_SCENES
            &&& s[0].start <= window_start < s[0].end
            &&& s.len() == MAX_EXPANDED_SCENES || s.last().end >= window_end
            &&& in_turn(durations, s)
            &&& forall|k: int|
                0 <= k < s.len() ==> {
                    &&& (#[trigger] s[k]).index < durations.len()
                    &&& slot_start <= s[k].start < s[k].end <= slot_end
                    &&& s[k].start < window_end
                    &&& play_length(durations, slot_end, s[k])
                    &&& on_grid(durations, slot_start, s[k])
                }
        }),
{
    let first = lemma_first_play(durations, slot_start, slot_end, window_start, window_end);
    let round = (window_start - slot_start) / total(durations);
    totals_nonnegative(durations);
    assert(round >= 0) by (nonlinear_arith)
        requires
            round == (window_start - slot_start) / total(durations),
            window_start >= slot_start,
            total(durations) > 0,
    ;
    lemma_spans(
        durations,
        slot_start,
        slot_end,
        window_end,
        first.1,
        first.2,
        MAX_EXPANDED_SCENES as nat,
        round,
    );
    let s = expansion(durations, slot_start, slot_end, window_start, window_end);
    assert(play_length(durations, slot_end, s[0]));
}

/// Whether every duration is a second or more.
pub open spec fn of_seconds(durations: Seq<i64>) -> bool {
    forall|i: int| 0 <= i < durations.len() ==> durations[i] >= ONE_SECOND_MS
}

proof fn lemma_starts_spread(
    durations: Seq<i64>,
    slot_start: int,
    slot_end: int,
    window_start: int,
    window_end: int,
    k: int,
)
    requires
        expandable(durations, slot_start, slot_end, window_start, window_end),
        durations.len() <= usize::MAX,
        of_seconds(durations),
        1 <= k < expansion(durations, slot_start, slot_end, window_start, window_end).len(),
    ensures
        expansion(durations, slot_start, slot_end, window_start, window_end)[k].start
            > window_start + (k - 1) * ONE_SECOND_MS,
    decreases k,
{
    expansion_covers_window(durations, slot_start, slot_end, window_start, window_end);
    let s = expansion(durations, slot_start, slot_end, window_start, window_end);
    assert(s[k - 1].end == s[k - 1 + 1].start);
    if k > 1 {
        lemma_starts_spread(durations, slot_start, slot_end, window_start, window_end, k - 1);
        assert(s[k].start < window_end);
        assert(play_length(durations, slot_end, s[k - 1]));
        assert(durations[s[k - 1].index as int] >= ONE_SECOND_MS);
    }
}

/// Where every item plays for a second or more and the window is no longer than that of a
/// timeline, the plays reach the window's end.
pub proof fn expansion_reaches_window_end(
    durations: Seq<i64>,
    slot_start: int,
    slot_end: int,
    window_start: int,
    window_end: int,
)
    requires
        expandable(durations, slot_start, slot_end, window_start, window_end),
        durations.len() <= usize::MAX,
        of_seconds(durations),
        window_end - window_start <= TIMELINE_PAST_WINDOW_MS + TIMELINE_FUTURE_WINDOW_MS,
    ensures
        expansion(durations, slot_start, slot_end, window_start, window_end).last().end
            >= window_end,
{
    expansion_covers_window(durations, slot_start, slot_end, window_start, window_end);
    let s = expansion(durations, slot_start, slot_end, window_start, window_end);
    if s.len() == MAX_EXPANDED_SCENES {
        let k = s.len() - 1;
        lemma_starts_spread(durations, slot_start, slot_end, window_start, window_end, k);
        assert(s[k].start < window_end);
    }
}

proof fn lemma_play_among(durations: Seq<i64>, spans: Seq<Span>, time: int) -> (k: int)
    requires
        in_turn(durations, spans),
        spans.len() > 0,
        spans[0].start <= time < spans.last().end,
    ensures
        0 <= k < spans.len(),
        spans[k].start <= time < spans[k].end,
    decreases spans.len(),
{
    let last = spans.len() - 1;
    if spans[last].start <= time {
        last
    } else {
        assert(spans[last - 1].end == spans[last - 1 + 1].start);
        let shorter = spans.drop_last();
        assert forall|k: int| 0 <= k < shorter.len() - 1 implies {
            &&& (#[trigger] shorter[k]).end == shorter[k + 1].start
            &&& shorter[k + 1].index == (shorter[k].index + 1) % durations.len() as int
        } by {
            assert(spans[k].end == spans[k + 1].start);
        }
        lemma_play_among(durations, shorter, time)
    }
}

/// At every time within a timeline's window some play is on.
pub proof fn a_play_is_on(
    durations: Seq<i64>,
    slot_start: int,
    slot_end: int,
    window_start: int,
    window_end: int,
    time: int,
) -> (k: int)
    requires
        expandable(durations, slot_start, slot_end, window_start, window_end),
        durations.len() <= usize::MAX,
        of_seconds(durations),
        window_end - window_start <= TIMELINE_PAST_WINDOW_MS + TIMELINE_FUTURE_WINDOW_MS,
        window_start <= time < window_end,
    ensures
        ({
            let s = expansion(durations, slot_start, slot_end, window_start, window_end);
            0 <= k < s.len() && s[k].start <= time < s[k].end
        }),
{
    expansion_covers_window(durations, slot_start, slot_end, window_start, window_end);
    expansion_reaches_window_end(durations, slot_start, slot_end, window_start, window_end);
    lemma_play_among(
        durations,
        expansion(durations, slot_start, slot_end, window_start, window_end),
        time,
    )
}

proof fn lemma_grid_position(durations: Seq<i64>, slot_start: int, slot_end: int, span: Span, time: int)
    requires
        positive(durations),
        span.index < durations.len(),
        play_length(durations, slot_end, span),
        on_grid(durations, slot_start, span),
        span.start <= time < span.end,
    ensures
        total(durations) > 0,
        span.start == slot_start + ((time - slot_start) / total(durations)) * total(durations)
            + total(durations.take(span.index as int)),
        total(durations.take(span.index as int)) <= (time - slot_start) % total(durations),
        (time - slot_start) % total(durations) < total(durations.take(span.index + 1)),
{
    let cycle = total(durations);
    let index = span.index as int;
    let round = choose|round: int|
        round >= 0 && span.start == slot_start + #[trigger] (round * total(durations)) + total(
            durations.take(span.index as int),
        );
    lemma_total_step(durations, index);
    totals_grow(durations, index, index + 1);
    totals_grow(durations, 0, index);
    totals_nonnegative(durations);
    let x = time - slot_start;
    let rest = x - round * cycle;
    assert(0 <= rest < cycle);
    vstd::arithmetic::div_mod::lemma_fundamental_div_mod_converse(x, cycle, round, rest);
}

/// Of two plays the one that comes later begins when the other is over.
pub proof fn plays_follow_one_another(durations: Seq<i64>, spans: Seq<Span>, i: int, j: int)
    requires
        in_turn(durations, spans),
        forall|k: int| 0 <= k < spans.len() ==> (#[trigger] spans[k]).start < spans[k].end,
        0 <= i < j < spans.len(),
    ensures
        spans[i].end <= spans[j].start,
    decreases j,
{
    assert(spans[j - 1].end == spans[j - 1 + 1].start);
    if i < j - 1 {
        plays_follow_one_another(durations, spans, i, j - 1);
    }
}

/// Which play is on at a time does not depend on the window that is looked through: rebuilding a
/// timeline later shows the same at the same time.
pub proof fn plays_do_not_depend_on_window(
    durations: Seq<i64>,
    slot_start: int,
    slot_end: int,
    one: (int, int),
    other: (int, int),
    a: int,
    b: int,
    time: int,
)
    requires
        expandable(durations, slot_start, slot_end, one.0, one.1),
        expandable(durations, slot_start, slot_end, other.0, other.1),
        durations.len() <= usize::MAX,
        ({
            let s = expansion(durations, slot_start, slot_end, one.0, one.1);
            0 <= a < s.len() && s[a].start <= time < s[a].end
        }),
        ({
            let s = expansion(durations, slot_start, slot_end, other.0, other.1);
            0 <= b < s.len() && s[b].start <= time < s[b].end
        }),
    ensures
        expansion(durations, slot_start, slot_end, one.0, one.1)[a] == expansion(
            durations,
            slot_start,
            slot_end,
            other.0,
            other.1,
        )[b],
{
    expansion_covers_window(durations, slot_start, slot_end, one.0, one.1);
    expansion_covers_window(durations, slot_start, slot_end, other.0, other.1);
    let x = expansion(durations, slot_start, slot_end, one.0, one.1)[a];
    let y = expansion(durations, slot_start, slot_end, other.0, other.1)[b];
    lemma_grid_position(durations, slot_start, slot_end, x, time);
    lemma_grid_position(durations, slot_start, slot_end, y, time);
    if x.index < y.index {
        totals_grow(durations, x.index + 1, y.index as int);
    } else if y.index < x.index {
        totals_grow(durations, y.index + 1, x.index as int);
    }
}

/// The play that is on at a time, where the turn of an item within a round of the slot holds that
/// time: it is that item's, starts with the turn, and ends with it or with the slot.
pub proof fn play_of_the_turn(
    durations: Seq<i64>,
    slot_start: int,
    slot_end: int,
    window_start: int,
    window_end: int,
    round: int,
    turn: int,
    time: int,
) -> (k: int)
    requires
        expandable(durations, slot_start, slot_end, window_start, window_end),
        durations.len() <= usize::MAX,
        of_seconds(durations),
        window_end - window_start <= TIMELINE_PAST_WINDOW_MS + TIMELINE_FUTURE_WINDOW_MS,
        window_start <= time < window_end,
        round >= 0,
        0 <= turn < durations.len(),
        ({
            let begin = slot_start + round * total(durations) + total(durations.take(turn));
            begin <= time < begin + durations[turn]
        }),
    ensures
        ({
            let begin = slot_start + round * total(durations) + total(durations.take(turn));
            let s = expansion(durations, slot_start, slot_end, window_start, window_end);
            &&& 0 <= k < s.len()
            &&& s[k].start <= time < s[k].end
            &&& s[k].index == turn
            &&& s[k].start == begin
            &&& s[k].end == least(begin + durations[turn], slot_end)
        }),
{
    let k = a_play_is_on(durations, slot_start, slot_end, window_start, window_end, time);
    expansion_covers_window(durations, slot_start, slot_end, window_start, window_end);
    let s = expansion(durations, slot_start, slot_end, window_start, window_end);
    let x = s[k];
    lemma_grid_position(durations, slot_start, slot_end, x, time);
    let cycle = total(durations);
    totals_nonnegative(durations);
    lemma_total_step(durations, turn);
    totals_grow(durations, turn, turn + 1);
    let rest = time - slot_start - round * cycle;
    assert(0 <= rest < cycle);
    vstd::arithmetic::div_mod::lemma_fundamental_div_mod_converse(
        time - slot_start,
        cycle,
        round,
        rest,
    );
    if x.index < turn {
        totals_grow(durations, x.index + 1, turn);
    } else if turn < x.index {
        totals_grow(durations, turn + 1, x.index as int);
    }
    k
}

} // verus!
