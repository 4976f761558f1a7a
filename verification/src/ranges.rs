//! The range builder: from removal spans, or from a keep/remove decision per
//! chunk, to the final keep ranges.

use vstd::prelude::*;
use crate::timeline::{Segment, Millis, ProcessingMode, covered, gap_between, gap_ms};
use crate::merge::{
    normalized, merged_spans, valid_spans, merge_spans, joins, lemma_normalized_ascending,
    lemma_merged_spans_props,
};
use crate::transcript::{SpeechChunk, flagged, is_flagged};

verus! {

pub open spec fn clamp_to(t: int, total: Millis) -> Millis {
    if t < 0 {
        0
    } else if t <= total {
        t as Millis
    } else {
        total
    }
}

/// Every span ends at or before `total`.
pub open spec fn all_within(s: Seq<Segment>, total: Millis) -> bool {
    forall|i: int| 0 <= i < s.len() ==> (#[trigger] s[i]).end <= total
}

/// Two lists tile the timeline `[0, total)`: every instant lies in a span of
/// exactly one of them.
pub open spec fn tiles(a: Seq<Segment>, b: Seq<Segment>, total: Millis) -> bool {
    forall|t: int| 0 <= t < total ==> (covered(a, t) <==> !covered(b, t))
}

/// Where inversion stands after the first `k` spans: the clamped end of the
/// last of them.
pub open spec fn cursor_after(spans: Seq<Segment>, total: Millis, k: int) -> Millis {
    if k <= 0 {
        0
    } else {
        clamp_to(spans[k - 1].end as int, total)
    }
}

/// The gaps that precede each of the first `k` spans.
pub open spec fn gaps_before(spans: Seq<Segment>, total: Millis, k: int) -> Seq<Segment>
    decreases k,
{
    if k <= 0 {
        Seq::empty()
    } else {
        let prev = gaps_before(spans, total, k - 1);
        let from = cursor_after(spans, total, k - 1);
        let to = clamp_to(spans[k - 1].start as int, total);
        if from < to {
            prev.push(Segment { start: from, end: to })
        } else {
            prev
        }
    }
}

/// The complement of an ascending list of spans within `[0, total)`.
pub open spec fn inverted(spans: Seq<Segment>, total: Millis) -> Seq<Segment> {
    let gaps = gaps_before(spans, total, spans.len() as int);
    let from = cursor_after(spans, total, spans.len() as int);
    if from < total {
        gaps.push(Segment { start: from, end: total })
    } else {
        gaps
    }
}

/// The spans of `s` that last at least `min` milliseconds.
pub open spec fn drop_short(s: Seq<Segment>, min: int) -> Seq<Segment> {
    s.filter(|x: Segment| x.span() >= min)
}

/// The keep ranges that removal spans leave: the complement of the merged
/// removals, without the fragments too short to keep.
pub open spec fn keep_plan(to_remove: Seq<Segment>, total: Millis, mode: ProcessingMode) -> Seq<
    Segment,
> {
    drop_short(
        inverted(merged_spans(to_remove, mode.merge_gap_ms()), total),
        mode.min_keep_ms(),
    )
}

proof fn lemma_gaps_props(spans: Seq<Segment>, total: Millis, k: int)
    requires
        normalized(spans, 0),
        0 <= k <= spans.len(),
    ensures
        normalized(gaps_before(spans, total, k), 0),
        gaps_before(spans, total, k).len() <= k,
        forall|i: int|
            0 <= i < gaps_before(spans, total, k).len() ==> (#[trigger] gaps_before(
                spans,
                total,
                k,
            )[i]).end <= cursor_after(spans, total, k),
        k > 0 && gaps_before(spans, total, k).len() > 0 ==> gaps_before(
            spans,
            total,
            k,
        ).last().end < cursor_after(spans, total, k) || cursor_after(spans, total, k) == total,
        forall|t: int|
            0 <= t < cursor_after(spans, total, k) ==> (covered(gaps_before(spans, total, k), t)
                <==> !covered(spans.take(k), t)),
        forall|t: int| cursor_after(spans, total, k) <= t < total ==> !covered(spans.take(k), t),
    decreases k,
{
    let g = gaps_before(spans, total, k);
    let cur = cursor_after(spans, total, k);
    if k > 0 {
        lemma_gaps_props(spans, total, k - 1);
        let prev = gaps_before(spans, total, k - 1);
        let from = cursor_after(spans, total, k - 1);
        let r = spans[k - 1];
        let to = clamp_to(r.start as int, total);
        assert(r.valid());
        if k > 1 {
            lemma_normalized_ascending(spans, 0, k - 2, k - 1);
        }
        assert(from <= to);
        assert(to <= cur);
        let before = spans.take(k - 1);
        let upto = spans.take(k);
        assert(before =~= upto.drop_last());
        assert(upto.last() == r);
        assert forall|t: int| covered(upto, t) <==> covered(before, t) || r.contains(t) by {
            if covered(upto, t) {
                let j = choose|j: int| 0 <= j < upto.len() && (#[trigger] upto[j]).contains(t);
                if j < k - 1 {
                    assert(before[j].contains(t));
                }
            }
            if covered(before, t) {
                let j = choose|j: int| 0 <= j < before.len() && (#[trigger] before[j]).contains(t);
                assert(upto[j].contains(t));
            }
            if r.contains(t) {
                assert(upto[k - 1].contains(t));
            }
        }
        assert forall|t: int| covered(g, t) <==> covered(prev, t) || from <= t < to by {
            if from < to {
                if covered(g, t) {
                    let j = choose|j: int| 0 <= j < g.len() && (#[trigger] g[j]).contains(t);
                    if j < prev.len() {
                        assert(prev[j].contains(t));
                    }
                }
                if covered(prev, t) {
                    let j = choose|j: int| 0 <= j < prev.len() && (#[trigger] prev[j]).contains(t);
                    assert(g[j].contains(t));
                }
                if from <= t < to {
                    assert(g[g.len() - 1].contains(t));
                }
            }
        }
        assert forall|t: int| from <= t implies !covered(prev, t) by {
            if covered(prev, t) {
                let j = choose|j: int| 0 <= j < prev.len() && (#[trigger] prev[j]).contains(t);
                assert(prev[j].end <= from);
            }
        }
        assert forall|t: int| 0 <= t < from implies !r.contains(t) by {}
        if from < to {
            assert forall|i: int| 0 <= i < g.len() implies (#[trigger] g[i]).valid() by {
                if i < prev.len() {
                    assert(prev[i].valid());
                }
            }
            assert forall|i: int| 0 <= i < g.len() - 1 implies !joins(
                g[i].end as int,
                (#[trigger] g[i + 1]).start as int,
                0,
            ) by {
                if i < prev.len() - 1 {
                    assert(!joins(prev[i].end as int, prev[i + 1].start as int, 0));
                } else {
                    assert(k > 1);
                    assert(prev[i].end <= from);
                    assert(prev.last().end < from || from == total);
                }
            }
            assert forall|i: int| 0 <= i < g.len() implies (#[trigger] g[i]).end <= cur by {
                if i < prev.len() {
                    assert(prev[i].end <= from);
                }
            }
        } else {
            assert forall|i: int| 0 <= i < g.len() implies (#[trigger] g[i]).end <= cur by {
                assert(prev[i].end <= from);
            }
        }
    } else {
        assert(spans.take(0).len() == 0);
    }
}

/// Inverting an ascending list of disjoint spans yields its exact complement
/// in `[0, total)`: the two lists tile the timeline, and the complement is
/// itself ascending, disjoint and inside the timeline.
pub proof fn lemma_inversion_tiles(spans: Seq<Segment>, total: Millis)
    requires
        normalized(spans, 0),
    ensures
        tiles(inverted(spans, total), spans, total),
        normalized(inverted(spans, total), 0),
        all_within(inverted(spans, total), total),
        inverted(spans, total).len() <= spans.len() + 1,
{
    let k = spans.len() as int;
    lemma_gaps_props(spans, total, k);
    let g = gaps_before(spans, total, k);
    let from = cursor_after(spans, total, k);
    let inv = inverted(spans, total);
    assert(spans.take(k) =~= spans);
    assert forall|t: int| from <= t implies !covered(g, t) by {
        if covered(g, t) {
            let j = choose|j: int| 0 <= j < g.len() && (#[trigger] g[j]).contains(t);
            assert(g[j].end <= from);
        }
    }
    if from < total {
        assert forall|t: int| covered(inv, t) <==> covered(g, t) || from <= t < total by {
            if covered(inv, t) {
                let j = choose|j: int| 0 <= j < inv.len() && (#[trigger] inv[j]).contains(t);
                if j < g.len() {
                    assert(g[j].contains(t));
                }
            }
            if covered(g, t) {
                let j = choose|j: int| 0 <= j < g.len() && (#[trigger] g[j]).contains(t);
                assert(inv[j].contains(t));
            }
            if from <= t < total {
                assert(inv[inv.len() - 1].contains(t));
            }
        }
        assert forall|i: int| 0 <= i < inv.len() implies (#[trigger] inv[i]).valid() by {
            if i < g.len() {
                assert(g[i].valid());
            }
        }
        assert forall|i: int| 0 <= i < inv.len() - 1 implies !joins(
            inv[i].end as int,
            (#[trigger] inv[i + 1]).start as int,
            0,
        ) by {
            if i < g.len() - 1 {
                assert(!joins(g[i].end as int, g[i + 1].start as int, 0));
            } else {
                assert(g[i].end <= from);
            }
        }
        assert forall|i: int| 0 <= i < inv.len() implies (#[trigger] inv[i]).end <= total by {
            if i < g.len() {
                assert(g[i].end <= from);
            }
        }
    } else {
        assert forall|i: int| 0 <= i < inv.len() implies (#[trigger] inv[i]).end <= total by {
            assert(g[i].end <= from);
        }
    }
}


/// Dropping spans from a list of ascending disjoint spans leaves such a list,
/// and uncovers instants but never covers new ones.
pub proof fn lemma_drop_short_props(s: Seq<Segment>, min: int)
    requires
        normalized(s, 0),
    ensures
        normalized(drop_short(s, min), 0),
        drop_short(s, min).len() <= s.len(),
        forall|i: int|
            0 <= i < drop_short(s, min).len() ==> s.contains(#[trigger] drop_short(s, min)[i]),
        forall|i: int|
            0 <= i < drop_short(s, min).len() ==> (#[trigger] drop_short(s, min)[i]).span()
                >= min,
        forall|t: int| covered(drop_short(s, min), t) ==> covered(s, t),
    decreases s.len(),
{
    reveal(Seq::filter);
    let r = drop_short(s, min);
    if s.len() > 0 {
        let d = s.drop_last();
        let rd = drop_short(d, min);
        assert(normalized(d, 0)) by {
            assert forall|i: int| 0 <= i < d.len() implies (#[trigger] d[i]).valid() by {
                assert(s[i].valid());
            }
            assert forall|i: int| 0 <= i < d.len() - 1 implies !joins(
                d[i].end as int,
                (#[trigger] d[i + 1]).start as int,
                0,
            ) by {
                assert(!joins(s[i].end as int, s[i + 1].start as int, 0));
            }
        }
        lemma_drop_short_props(d, min);
        assert forall|i: int| 0 <= i < r.len() implies s.contains(#[trigger] r[i]) by {
            if i < rd.len() {
                assert(d.contains(rd[i]));
                let k = choose|k: int| 0 <= k < d.len() && d[k] == rd[i];
                assert(s[k] == rd[i]);
            } else {
                assert(s[s.len() - 1] == r[i]);
            }
        }
        assert forall|t: int| covered(r, t) implies covered(s, t) by {
            let i = choose|i: int| 0 <= i < r.len() && (#[trigger] r[i]).contains(t);
            assert(s.contains(r[i]));
            let k = choose|k: int| 0 <= k < s.len() && s[k] == r[i];
            assert(s[k].contains(t));
        }
        assert forall|i: int| 0 <= i < r.len() implies (#[trigger] r[i]).valid() by {
            assert(s.contains(r[i]));
            let k = choose|k: int| 0 <= k < s.len() && s[k] == r[i];
            assert(s[k].valid());
        }
        assert forall|i: int| 0 <= i < r.len() - 1 implies !joins(
            r[i].end as int,
            (#[trigger] r[i + 1]).start as int,
            0,
        ) by {
            if i + 1 < rd.len() {
                assert(!joins(rd[i].end as int, rd[i + 1].start as int, 0));
            } else {
                assert(d.contains(rd[i]));
                let k = choose|k: int| 0 <= k < d.len() && d[k] == rd[i];
                lemma_normalized_ascending(s, 0, k, s.len() - 1);
            }
        }
    }
}

/// What holds of the keep ranges that removal spans leave, in every mode:
/// they are valid, ascending, disjoint and inside the timeline; none is
/// shorter than the mode's minimum; and none touches an instant that a valid
/// removal span covers.
pub proof fn lemma_keep_plan_props(to_remove: Seq<Segment>, total: Millis, mode: ProcessingMode)
    ensures
        normalized(keep_plan(to_remove, total, mode), 0),
        all_within(keep_plan(to_remove, total, mode), total),
        keep_plan(to_remove, total, mode).len() <= to_remove.len() + 1,
        forall|i: int|
            0 <= i < keep_plan(to_remove, total, mode).len() ==> (#[trigger] keep_plan(
                to_remove,
                total,
                mode,
            )[i]).span() >= mode.min_keep_ms(),
        forall|t: int|
            covered(keep_plan(to_remove, total, mode), t) ==> 0 <= t < total && !covered(
                valid_spans(to_remove),
                t,
            ),
{
    let gap = mode.merge_gap_ms();
    let merged = merged_spans(to_remove, gap);
    lemma_merged_spans_props(to_remove, gap);
    lemma_normalized_weaken(merged, gap);
    lemma_inversion_tiles(merged, total);
    let inv = inverted(merged, total);
    lemma_drop_short_props(inv, mode.min_keep_ms());
    let plan = keep_plan(to_remove, total, mode);
    assert forall|i: int| 0 <= i < plan.len() implies (#[trigger] plan[i]).end <= total by {
        assert(inv.contains(plan[i]));
        let k = choose|k: int| 0 <= k < inv.len() && inv[k] == plan[i];
        assert(inv[k].end <= total);
    }
    assert forall|t: int| covered(plan, t) implies 0 <= t < total && !covered(
        valid_spans(to_remove),
        t,
    ) by {
        let i = choose|i: int| 0 <= i < plan.len() && (#[trigger] plan[i]).contains(t);
        assert(plan[i].end <= total);
        assert(covered(inv, t));
    }
}

/// A list in normal form for some gap is in normal form for gap zero.
pub proof fn lemma_normalized_weaken(s: Seq<Segment>, gap: int)
    requires
        normalized(s, gap),
        gap >= 0,
    ensures
        normalized(s, 0),
{
    assert forall|i: int| 0 <= i < s.len() - 1 implies !joins(
        s[i].end as int,
        (#[trigger] s[i + 1]).start as int,
        0,
    ) by {
        assert(!joins(s[i].end as int, s[i + 1].start as int, gap));
    }
}

pub fn clamp(t: Millis, total: Millis) -> (c: Millis)
    ensures
        c == clamp_to(t as int, total),
{
    if t <= total {
        t
    } else {
        total
    }
}

/// The complement of `spans` within `[0, total_duration)`, read left to
/// right. For an ascending list of disjoint spans the result and `spans`
/// tile the timeline.
pub fn invert_spans(spans: &Vec<Segment>, total_duration: Millis) -> (out: Vec<Segment>)
    ensures
        out@ == inverted(spans@, total_duration),
        normalized(spans@, 0) ==> tiles(out@, spans@, total_duration) && normalized(out@, 0)
            && all_within(out@, total_duration),
{
    let mut out: Vec<Segment> = Vec::new();
    let mut last_end: Millis = 0;
    let mut i: usize = 0;
    while i < spans.len()
        invariant
            i <= spans.len(),
            out@ == gaps_before(spans@, total_duration, i as int),
            last_end == cursor_after(spans@, total_duration, i as int),
        decreases spans.len() - i,
    {
        let to = clamp(spans[i].start, total_duration);
        if last_end < to {
            out.push(Segment { start: last_end, end: to });
        }
        last_end = clamp(spans[i].end, total_duration);
        i += 1;
    }
    if last_end < total_duration {
        out.push(Segment { start: last_end, end: total_duration });
    }
    proof {
        if normalized(spans@, 0) {
            lemma_inversion_tiles(spans@, total_duration);
        }
    }
    out
}

/// Keeps the spans that last at least `min` milliseconds.
pub fn retain_long(spans: &Vec<Segment>, min: Millis) -> (out: Vec<Segment>)
    ensures
        out@ == drop_short(spans@, min as int),
{
    let mut out: Vec<Segment> = Vec::new();
    let mut i: usize = 0;
    proof {
        reveal(Seq::filter);
    }
    while i < spans.len()
        invariant
            i <= spans.len(),
            out@ == drop_short(spans@.take(i as int), min as int),
        decreases spans.len() - i,
    {
        proof {
            reveal(Seq::filter);
            assert(spans@.take(i + 1).drop_last() =~= spans@.take(i as int));
        }
        if spans[i].duration() >= min {
            out.push(spans[i]);
        }
        i += 1;
    }
    proof {
        assert(spans@.take(i as int) =~= spans@);
    }
    out
}

/// Builds the keep ranges from spans to remove: merges the removals with the
/// mode's merge gap, takes their complement in `[0, total_duration)`, and
/// drops every keep range shorter than the mode's minimum.
///
/// Each returned range has positive duration and lies inside the timeline;
/// the ranges are ascending and disjoint, and none covers an instant that a
/// valid removal span covers.
pub fn calculate_keep_segments(
    to_remove: &Vec<Segment>,
    total_duration: Millis,
    mode: ProcessingMode,
) -> (keep: Vec<Segment>)
    ensures
        keep@ == keep_plan(to_remove@, total_duration, mode),
        normalized(keep@, 0),
        all_within(keep@, total_duration),
        keep.len() <= to_remove.len() + 1,
        forall|i: int| 0 <= i < keep.len() ==> (#[trigger] keep[i]).span() >= mode.min_keep_ms(),
        forall|t: int|
            covered(keep@, t) ==> 0 <= t < total_duration && !covered(valid_spans(to_remove@), t),
{
    let merged = merge_spans(to_remove, mode.merge_gap());
    let gaps = invert_spans(&merged, total_duration);
    let keep = retain_long(&gaps, mode.min_keep_duration());
    proof {
        lemma_keep_plan_props(to_remove@, total_duration, mode);
    }
    keep
}

/// The outcome of range building as two lists that tile the timeline.
#[derive(Clone, Debug)]
pub struct RangePlan {
    /// The ranges to keep.
    pub kept: Vec<Segment>,
    /// Everything else: the merged removals together with the fragments
    /// between them that were too short to keep.
    pub removed: Vec<Segment>,
}

/// Builds the keep ranges as [`calculate_keep_segments`] does and returns
/// them with their complement. Every instant of `[0, total_duration)` lies
/// in exactly one span of one of the two lists, and every instant that a
/// valid removal span covers lies in `removed`.
pub fn plan_ranges(to_remove: &Vec<Segment>, total_duration: Millis, mode: ProcessingMode) -> (plan:
    RangePlan)
    ensures
        plan.kept@ == keep_plan(to_remove@, total_duration, mode),
        plan.removed@ == inverted(plan.kept@, total_duration),
        tiles(plan.kept@, plan.removed@, total_duration),
        keep_plan(plan.removed@, total_duration, mode) == plan.kept@,
        normalized(plan.kept@, 0),
        normalized(plan.removed@, mode.merge_gap_ms()),
        all_within(plan.kept@, total_duration),
        all_within(plan.removed@, total_duration),
        forall|t: int|
            0 <= t < total_duration && covered(valid_spans(to_remove@), t) ==> covered(
                plan.removed@,
                t,
            ),
{
    let kept = calculate_keep_segments(to_remove, total_duration, mode);
    let removed = invert_spans(&kept, total_duration);
    proof {
        assert forall|t: int|
            0 <= t < total_duration implies (covered(kept@, t) <==> !covered(removed@, t)) by {}
        lemma_rebuild_from_complement(to_remove@, total_duration, mode);
    }
    RangePlan { kept, removed }
}


/// The walk over the chunks, after the first `k` of them: the runs of kept
/// chunks already closed, and the run still open, if any. A run is closed by
/// a removed chunk or by a pause longer than `max_gap` before the next kept
/// chunk; it spans from the start of its first chunk to the end of its last.
pub open spec fn runs_after(chunks: Seq<SpeechChunk>, kept: Seq<bool>, max_gap: int, k: int) -> (
    Seq<Segment>,
    Option<Segment>,
)
    decreases k,
{
    if k <= 0 {
        (Seq::empty(), None)
    } else {
        let (closed, open) = runs_after(chunks, kept, max_gap, k - 1);
        let c = chunks[k - 1];
        if flagged(kept, k - 1) {
            match open {
                Some(r) => if gap_ms(c.start, r.end) <= max_gap {
                    (closed, Some(Segment { start: r.start, end: c.end }))
                } else {
                    (closed.push(r), Some(Segment { start: c.start, end: c.end }))
                },
                None => (closed, Some(Segment { start: c.start, end: c.end })),
            }
        } else {
            match open {
                Some(r) => (closed.push(r), None),
                None => (closed, None),
            }
        }
    }
}

/// The runs of consecutive kept chunks, in order.
pub open spec fn keep_runs(chunks: Seq<SpeechChunk>, kept: Seq<bool>, max_gap: int) -> Seq<
    Segment,
> {
    let (closed, open) = runs_after(chunks, kept, max_gap, chunks.len() as int);
    match open {
        Some(r) => closed.push(r),
        None => closed,
    }
}

/// A run widened by `padding` at both ends and clamped to `[0, total]`.
pub open spec fn padded(r: Segment, padding: int, total: Millis) -> Segment {
    Segment {
        start: clamp_to(r.start as int - padding, total),
        end: clamp_to(r.end as int + padding, total),
    }
}

pub open spec fn padded_runs(runs: Seq<Segment>, padding: int, total: Millis) -> Seq<Segment> {
    runs.map_values(|r: Segment| padded(r, padding, total))
}

/// The keep ranges that a keep/remove decision per chunk yields: the padded
/// runs of kept chunks, without those of no duration, merged where they
/// overlap or touch.
pub open spec fn keep_ranges(
    chunks: Seq<SpeechChunk>,
    kept: Seq<bool>,
    total: Millis,
    mode: ProcessingMode,
) -> Seq<Segment> {
    merged_spans(
        padded_runs(keep_runs(chunks, kept, mode.max_keep_gap_ms()), mode.padding_ms(), total),
        0,
    )
}

/// No run is open or closed before the first kept chunk.
pub proof fn lemma_no_kept_no_runs(chunks: Seq<SpeechChunk>, kept: Seq<bool>, max_gap: int, k: int)
    requires
        0 <= k <= chunks.len(),
        forall|i: int| 0 <= i < k ==> !flagged(kept, i),
    ensures
        runs_after(chunks, kept, max_gap, k) == (Seq::<Segment>::empty(), None::<Segment>),
    decreases k,
{
    if k > 0 {
        lemma_no_kept_no_runs(chunks, kept, max_gap, k - 1);
    }
}

/// The runs never outnumber the chunks walked.
pub proof fn lemma_runs_len(chunks: Seq<SpeechChunk>, kept: Seq<bool>, max_gap: int, k: int)
    requires
        0 <= k <= chunks.len(),
    ensures
        runs_after(chunks, kept, max_gap, k).0.len() + (if runs_after(chunks, kept, max_gap, k).1
            is Some {
            1int
        } else {
            0int
        }) <= k,
    decreases k,
{
    if k > 0 {
        lemma_runs_len(chunks, kept, max_gap, k - 1);
    }
}

pub fn pad_run(r: Segment, padding: Millis, total: Millis) -> (p: Segment)
    ensures
        p == padded(r, padding as int, total),
{
    let start: Millis = if r.start >= padding {
        clamp(r.start - padding, total)
    } else {
        0
    };
    let end: Millis = if r.end >= total {
        total
    } else if total - r.end < padding {
        total
    } else {
        r.end + padding
    };
    Segment { start, end }
}

/// Collects the runs of consecutive kept chunks. `kept[i]` says whether
/// chunk `i` is kept; chunks beyond the end of `kept` count as removed.
pub fn collect_keep_runs(chunks: &Vec<SpeechChunk>, kept: &Vec<bool>, max_gap: Millis) -> (runs:
    Vec<Segment>)
    ensures
        runs@ == keep_runs(chunks@, kept@, max_gap as int),
        runs.len() <= chunks.len(),
        (forall|i: int| 0 <= i < chunks.len() ==> !flagged(kept@, i)) ==> runs.len() == 0,
{
    let mut closed: Vec<Segment> = Vec::new();
    let mut open: Option<Segment> = None;
    let mut i: usize = 0;
    while i < chunks.len()
        invariant
            i <= chunks.len(),
            (closed@, open) == runs_after(chunks@, kept@, max_gap as int, i as int),
        decreases chunks.len() - i,
    {
        let start = chunks[i].start;
        let end = chunks[i].end;
        if is_flagged(kept, i) {
            match open {
                Some(r) => {
                    if gap_between(start, r.end) <= max_gap as i128 {
                        open = Some(Segment { start: r.start, end });
                    } else {
                        closed.push(r);
                        open = Some(Segment { start, end });
                    }
                },
                None => {
                    open = Some(Segment { start, end });
                },
            }
        } else {
            match open {
                Some(r) => {
                    closed.push(r);
                    open = None;
                },
                None => {},
            }
        }
        i += 1;
    }
    proof {
        lemma_runs_len(chunks@, kept@, max_gap as int, chunks.len() as int);
        if forall|i: int| 0 <= i < chunks.len() ==> !flagged(kept@, i) {
            lemma_no_kept_no_runs(chunks@, kept@, max_gap as int, chunks.len() as int);
        }
    }
    match open {
        Some(r) => {
            closed.push(r);
        },
        None => {},
    }
    closed
}

/// Builds the keep ranges from a keep/remove decision per chunk.
///
/// Consecutive kept chunks are joined into one range as long as the pause
/// between them is at most the mode's keep gap. Each range is widened by the
/// mode's padding and clamped to `[0, total_duration]`; ranges left without
/// duration are discarded, and ranges that overlap or touch are merged.
///
/// Each returned range has positive duration and lies inside the timeline;
/// the ranges are ascending and disjoint. When no chunk is kept the result
/// is empty.
pub fn keep_ranges_from_chunks(
    chunks: &Vec<SpeechChunk>,
    kept: &Vec<bool>,
    total_duration: Millis,
    mode: ProcessingMode,
) -> (keep: Vec<Segment>)
    ensures
        keep@ == keep_ranges(chunks@, kept@, total_duration, mode),
        normalized(keep@, 0),
        all_within(keep@, total_duration),
        keep.len() <= chunks.len(),
        (forall|i: int| 0 <= i < chunks.len() ==> !flagged(kept@, i)) ==> keep.len() == 0,
        merged_spans(keep@, 0) == keep@,
{
    let runs = collect_keep_runs(chunks, kept, mode.max_keep_gap());
    let padding = mode.padding();
    let mut ranges: Vec<Segment> = Vec::new();
    let mut i: usize = 0;
    while i < runs.len()
        invariant
            i <= runs.len(),
            padding == mode.padding_ms(),
            ranges@ == padded_runs(runs@.take(i as int), padding as int, total_duration),
        decreases runs.len() - i,
    {
        ranges.push(pad_run(runs[i], padding, total_duration));
        proof {
            assert(ranges@ =~= padded_runs(
                runs@.take(i + 1),
                padding as int,
                total_duration,
            ));
        }
        i += 1;
    }
    proof {
        assert(runs@.take(i as int) =~= runs@);
    }
    let keep = merge_spans(&ranges, 0);
    proof {
        lemma_merged_within(ranges@, total_duration);
    }
    keep
}

/// Merging spans that end inside the timeline yields spans that end inside
/// the timeline.
pub proof fn lemma_merged_within(s: Seq<Segment>, total: Millis)
    requires
        all_within(s, total),
    ensures
        all_within(merged_spans(s, 0), total),
{
    let v = valid_spans(s);
    crate::merge::lemma_valid_spans_contained(s);
    assert(all_within(v, total)) by {
        assert forall|i: int| 0 <= i < v.len() implies (#[trigger] v[i]).end <= total by {
            assert(s.contains(v[i]));
            let k = choose|k: int| 0 <= k < s.len() && s[k] == v[i];
            assert(s[k].end <= total);
        }
    }
    crate::merge::lemma_sort_bounded_end(v, total);
    crate::merge::lemma_merge_bounded_end(crate::merge::sort_by_start(v), 0, total);
}


/// No span of a list in normal form covers an instant that lies between two
/// neighbours of the list, before its first span, or behind its last.
pub proof fn lemma_gap_uncovered(s: Seq<Segment>, i: int, t: int)
    requires
        normalized(s, 0),
        0 <= i <= s.len(),
        i > 0 ==> s[i - 1].end <= t,
        i < s.len() ==> t < s[i].start,
    ensures
        !covered(s, t),
{
    if covered(s, t) {
        let k = choose|k: int| 0 <= k < s.len() && (#[trigger] s[k]).contains(t);
        if k < i {
            if k < i - 1 {
                lemma_normalized_ascending(s, 0, k, i - 1);
                assert(s[i - 1].valid());
            }
        } else if k > i {
            lemma_normalized_ascending(s, 0, i, k);
            assert(s[i].valid());
        }
    }
}

/// A span that ends inside the timeline covers instants of the timeline
/// only.
pub proof fn lemma_covered_within(s: Seq<Segment>, total: Millis, t: int)
    requires
        all_within(s, total),
        covered(s, t),
    ensures
        0 <= t < total,
{
    let k = choose|k: int| 0 <= k < s.len() && (#[trigger] s[k]).contains(t);
    assert(s[k].end <= total);
}

proof fn lemma_drop_last_normalized(s: Seq<Segment>, gap: int)
    requires
        normalized(s, gap),
        s.len() > 0,
    ensures
        normalized(s.drop_last(), gap),
{
    let d = s.drop_last();
    assert forall|i: int| 0 <= i < d.len() implies (#[trigger] d[i]).valid() by {
        assert(s[i].valid());
    }
    assert forall|i: int| 0 <= i < d.len() - 1 implies !joins(
        d[i].end as int,
        (#[trigger] d[i + 1]).start as int,
        gap,
    ) by {
        assert(!joins(s[i].end as int, s[i + 1].start as int, gap));
    }
}

/// A set of instants has one normal form: two lists of valid, ascending,
/// separate spans that cover the same instants are the same list.
pub proof fn lemma_normal_form_unique(a: Seq<Segment>, b: Seq<Segment>)
    requires
        normalized(a, 0),
        normalized(b, 0),
        forall|t: int| covered(a, t) <==> covered(b, t),
    ensures
        a == b,
    decreases a.len(),
{
    if a.len() == 0 {
        if b.len() > 0 {
            assert(b[0].valid());
            assert(b[0].contains(b[0].start as int));
            assert(covered(b, b[0].start as int));
        }
        assert(a =~= b);
    } else {
        let n = a.len() as int;
        assert(a[n - 1].valid());
        assert(a[n - 1].contains(a[n - 1].start as int));
        assert(covered(a, a[n - 1].start as int));
        assert(b.len() > 0);
        let m = b.len() as int;
        let la = a[n - 1];
        let lb = b[m - 1];
        assert(lb.valid());
        // the ends agree
        assert(la.end <= lb.end) by {
            let p = la.end - 1;
            assert(la.contains(p));
            assert(covered(a, p));
            let j = choose|j: int| 0 <= j < b.len() && (#[trigger] b[j]).contains(p);
            if j < m - 1 {
                lemma_normalized_ascending(b, 0, j, m - 1);
            }
        }
        assert(lb.end <= la.end) by {
            let p = lb.end - 1;
            assert(lb.contains(p));
            assert(covered(b, p));
            let j = choose|j: int| 0 <= j < a.len() && (#[trigger] a[j]).contains(p);
            if j < n - 1 {
                lemma_normalized_ascending(a, 0, j, n - 1);
            }
        }
        // the starts agree
        assert(la.start >= lb.start) by {
            if la.start < lb.start {
                let p = lb.start - 1;
                assert(la.contains(p));
                assert(covered(a, p));
                if m > 1 {
                    lemma_normalized_ascending(b, 0, m - 2, m - 1);
                }
                lemma_gap_uncovered(b, m - 1, p);
            }
        }
        assert(lb.start >= la.start) by {
            if lb.start < la.start {
                let p = la.start - 1;
                assert(lb.contains(p));
                assert(covered(b, p));
                if n > 1 {
                    lemma_normalized_ascending(a, 0, n - 2, n - 1);
                }
                lemma_gap_uncovered(a, n - 1, p);
            }
        }
        assert(la == lb);
        let da = a.drop_last();
        let db = b.drop_last();
        lemma_drop_last_normalized(a, 0);
        lemma_drop_last_normalized(b, 0);
        assert forall|t: int| covered(da, t) <==> covered(db, t) by {
            if covered(da, t) {
                let i = choose|i: int| 0 <= i < da.len() && (#[trigger] da[i]).contains(t);
                assert(a[i].contains(t));
                assert(covered(a, t));
                lemma_normalized_ascending(a, 0, i, n - 1);
                let j = choose|j: int| 0 <= j < b.len() && (#[trigger] b[j]).contains(t);
                assert(j < m - 1);
                assert(db[j].contains(t));
            }
            if covered(db, t) {
                let i = choose|i: int| 0 <= i < db.len() && (#[trigger] db[i]).contains(t);
                assert(b[i].contains(t));
                assert(covered(b, t));
                lemma_normalized_ascending(b, 0, i, m - 1);
                let j = choose|j: int| 0 <= j < a.len() && (#[trigger] a[j]).contains(t);
                assert(j < n - 1);
                assert(da[j].contains(t));
            }
        }
        lemma_normal_form_unique(da, db);
        assert(a =~= da.push(la));
        assert(b =~= db.push(lb));
    }
}

/// Spans of a list in normal form for `gap` lie at least `gap` apart.
pub proof fn lemma_apart_by_gap(s: Seq<Segment>, gap: int, i: int, j: int)
    requires
        normalized(s, gap),
        gap >= 0,
        0 <= i < j < s.len(),
    ensures
        s[j].start - s[i].end >= gap,
{
    assert(!joins(s[j - 1].end as int, s[j - 1 + 1].start as int, gap));
    if i < j - 1 {
        lemma_normalized_weaken(s, gap);
        lemma_normalized_ascending(s, 0, i, j - 1);
        assert(s[j - 1].valid());
    }
}

/// A span is long for `gap` unless it touches an end of the timeline.
pub open spec fn interior_long(s: Segment, total: Millis, gap: int) -> bool {
    s.start > 0 && s.end < total ==> s.end - s.start >= gap
}

/// Every gap between two merged removals is at least as long as the merge
/// gap.
pub proof fn lemma_interior_gaps_long(merged: Seq<Segment>, total: Millis, gap: int)
    requires
        normalized(merged, gap),
        gap >= 0,
    ensures
        forall|i: int|
            0 <= i < inverted(merged, total).len() ==> interior_long(
                #[trigger] inverted(merged, total)[i],
                total,
                gap,
            ),
{
    lemma_normalized_weaken(merged, gap);
    lemma_inversion_tiles(merged, total);
    let g = inverted(merged, total);
    assert forall|i: int| 0 <= i < g.len() implies interior_long(#[trigger] g[i], total, gap) by {
        let x = g[i];
        assert(x.valid());
        assert(x.end <= total);
        if x.start > 0 && x.end < total {
            let p = x.start - 1;
            if i > 0 {
                lemma_normalized_ascending(g, 0, i - 1, i);
            }
            lemma_gap_uncovered(g, i, p);
            assert(covered(merged, p));
            let a = choose|a: int| 0 <= a < merged.len() && (#[trigger] merged[a]).contains(p);
            if merged[a].end > x.start {
                assert(merged[a].contains(x.start as int));
                assert(covered(merged, x.start as int));
                assert(x.contains(x.start as int));
                assert(covered(g, x.start as int));
            }
            let q = x.end as int;
            if i + 1 < g.len() {
                lemma_normalized_ascending(g, 0, i, i + 1);
            }
            lemma_gap_uncovered(g, i + 1, q);
            assert(covered(merged, q));
            let b = choose|b: int| 0 <= b < merged.len() && (#[trigger] merged[b]).contains(q);
            if merged[b].start < q {
                assert(merged[b].contains(q - 1));
                assert(covered(merged, q - 1));
                assert(x.contains(q - 1));
                assert(covered(g, q - 1));
            }
            assert(merged[a].valid());
            assert(merged[b].valid());
            if a > b {
                lemma_normalized_ascending(merged, 0, b, a);
            }
            assert(a < b);
            lemma_apart_by_gap(merged, gap, a, b);
        }
    }
}

/// The complement of keep ranges whose interior ranges are long for `gap`
/// is in normal form for `gap`: merging it merges nothing.
pub proof fn lemma_complement_apart(k: Seq<Segment>, total: Millis, gap: int)
    requires
        normalized(k, 0),
        all_within(k, total),
        gap >= 0,
        forall|j: int| 0 <= j < k.len() ==> interior_long(#[trigger] k[j], total, gap),
    ensures
        normalized(inverted(k, total), gap),
{
    lemma_inversion_tiles(k, total);
    let m = inverted(k, total);
    assert forall|i: int| 0 <= i < m.len() - 1 implies !joins(
        m[i].end as int,
        (#[trigger] m[i + 1]).start as int,
        gap,
    ) by {
        let p = m[i].end as int;
        let n = m[i + 1].start as int;
        lemma_normalized_ascending(m, 0, i, i + 1);
        assert(m[i].valid());
        assert(m[i + 1].valid());
        assert(m[i + 1].end <= total);
        lemma_gap_uncovered(m, i + 1, p);
        assert(covered(k, p));
        let j = choose|j: int| 0 <= j < k.len() && (#[trigger] k[j]).contains(p);
        if k[j].start < p {
            assert(k[j].contains(p - 1));
            assert(covered(k, p - 1));
            assert(m[i].contains(p - 1));
            assert(covered(m, p - 1));
        }
        if k[j].end > n {
            assert(k[j].contains(n));
            assert(covered(k, n));
            assert(m[i + 1].contains(n));
            assert(covered(m, n));
        }
        assert(interior_long(k[j], total, gap));
    }
}

/// A list that holds no short span loses nothing when short spans are
/// dropped.
pub proof fn lemma_drop_short_identity(s: Seq<Segment>, min: int)
    requires
        forall|i: int| 0 <= i < s.len() ==> (#[trigger] s[i]).span() >= min,
    ensures
        drop_short(s, min) == s,
    decreases s.len(),
{
    reveal(Seq::filter);
    if s.len() > 0 {
        let d = s.drop_last();
        assert forall|i: int| 0 <= i < d.len() implies (#[trigger] d[i]).span() >= min by {
            assert(s[i].span() >= min);
        }
        lemma_drop_short_identity(d, min);
        assert(s[s.len() - 1].span() >= min);
        assert(d.push(s.last()) =~= s);
    }
}

/// Range building is idempotent: the complement of the keep ranges, taken
/// as the spans to remove, yields the same keep ranges again. Merging that
/// complement merges nothing further, since no two of its spans overlap or
/// lie closer together than the merge gap.
pub proof fn lemma_rebuild_from_complement(to_remove: Seq<Segment>, total: Millis, mode: ProcessingMode)
    ensures
        normalized(
            inverted(keep_plan(to_remove, total, mode), total),
            mode.merge_gap_ms(),
        ),
        merged_spans(inverted(keep_plan(to_remove, total, mode), total), mode.merge_gap_ms())
            == inverted(keep_plan(to_remove, total, mode), total),
        keep_plan(inverted(keep_plan(to_remove, total, mode), total), total, mode) == keep_plan(
            to_remove,
            total,
            mode,
        ),
{
    let gap = mode.merge_gap_ms();
    let min = mode.min_keep_ms();
    let k = keep_plan(to_remove, total, mode);
    let merged = merged_spans(to_remove, gap);
    let g = inverted(merged, total);
    lemma_keep_plan_props(to_remove, total, mode);
    lemma_merged_spans_props(to_remove, gap);
    lemma_normalized_weaken(merged, gap);
    lemma_inversion_tiles(merged, total);
    lemma_interior_gaps_long(merged, total, gap);
    lemma_drop_short_props(g, min);
    assert forall|j: int| 0 <= j < k.len() implies interior_long(#[trigger] k[j], total, gap) by {
        assert(g.contains(k[j]));
        let i = choose|i: int| 0 <= i < g.len() && g[i] == k[j];
        assert(interior_long(g[i], total, gap));
    }
    lemma_complement_apart(k, total, gap);
    let m = inverted(k, total);
    crate::merge::lemma_normalized_fixed(m, gap);
    lemma_inversion_tiles(k, total);
    lemma_normalized_weaken(m, gap);
    lemma_inversion_tiles(m, total);
    let back = inverted(m, total);
    assert forall|t: int| covered(back, t) <==> covered(k, t) by {
        if covered(back, t) {
            lemma_covered_within(back, total, t);
        }
        if covered(k, t) {
            lemma_covered_within(k, total, t);
        }
    }
    lemma_normal_form_unique(back, k);
    lemma_drop_short_identity(k, min);
}

/// The keep ranges of a keep/remove decision per chunk from which spans to
/// remove have been cut: everything outside the chunk ranges is removed
/// together with the given spans, and the removals are merged, inverted and
/// freed of short fragments.
pub open spec fn final_plan(
    chunks: Seq<SpeechChunk>,
    kept: Seq<bool>,
    removals: Seq<Segment>,
    total: Millis,
    mode: ProcessingMode,
) -> Seq<Segment> {
    keep_plan(inverted(keep_ranges(chunks, kept, total, mode), total) + removals, total, mode)
}

/// Builds the final keep ranges from a keep/remove decision per chunk and
/// spans to remove that were found independently, such as silences.
///
/// Each returned range has positive duration and lies inside the timeline;
/// the ranges are ascending and disjoint. No range covers an instant that a
/// valid removal span covers, and none reaches outside the keep ranges of
/// the chunks.
pub fn final_keep_segments(
    chunks: &Vec<SpeechChunk>,
    kept: &Vec<bool>,
    removals: &Vec<Segment>,
    total_duration: Millis,
    mode: ProcessingMode,
) -> (keep: Vec<Segment>)
    ensures
        keep@ == final_plan(chunks@, kept@, removals@, total_duration, mode),
        normalized(keep@, 0),
        all_within(keep@, total_duration),
        forall|i: int| 0 <= i < keep.len() ==> (#[trigger] keep[i]).span() >= mode.min_keep_ms(),
        forall|t: int|
            covered(keep@, t) ==> 0 <= t < total_duration && !covered(valid_spans(removals@), t)
                && covered(keep_ranges(chunks@, kept@, total_duration, mode), t),
        (forall|i: int| 0 <= i < chunks.len() ==> !flagged(kept@, i)) ==> keep.len() == 0,
{
    let ranges = keep_ranges_from_chunks(chunks, kept, total_duration, mode);
    let mut all = invert_spans(&ranges, total_duration);
    let ghost outside = all@;
    let mut i: usize = 0;
    while i < removals.len()
        invariant
            i <= removals.len(),
            all@ == outside + removals@.take(i as int),
        decreases removals.len() - i,
    {
        all.push(removals[i]);
        proof {
            assert(removals@.take(i + 1) =~= removals@.take(i as int).push(removals@[i as int]));
            assert(outside + removals@.take(i + 1) =~= (outside + removals@.take(i as int)).push(
                removals@[i as int],
            ));
        }
        i += 1;
    }
    proof {
        assert(removals@.take(i as int) =~= removals@);
    }
    let keep = calculate_keep_segments(&all, total_duration, mode);
    proof {
        let joined = outside + removals@;
        crate::merge::lemma_valid_spans_props(joined);
        crate::merge::lemma_valid_spans_props(removals@);
        crate::merge::lemma_valid_spans_props(outside);
        assert forall|t: int| covered(keep@, t) implies 0 <= t < total_duration && !covered(
            valid_spans(removals@),
            t,
        ) && covered(ranges@, t) by {
            assert(!covered(valid_spans(joined), t));
            assert(!covered(joined, t));
            if covered(removals@, t) {
                let k = choose|k: int| 0 <= k < removals@.len() && (#[trigger] removals@[k]).contains(t);
                assert(joined[outside.len() + k].contains(t));
                assert(covered(joined, t));
            }
            if covered(outside, t) {
                let k = choose|k: int| 0 <= k < outside.len() && (#[trigger] outside[k]).contains(t);
                assert(joined[k].contains(t));
                assert(covered(joined, t));
            }
        }
        if ranges.len() == 0 && keep.len() > 0 {
            assert(keep@[0].valid());
            assert(keep@[0].contains(keep@[0].start as int));
            assert(covered(keep@, keep@[0].start as int));
        }
    }
    keep
}


/// The keep ranges for what was decided upstream: with a decision per
/// chunk of at least one chunk, the ranges of the kept chunks less the
/// spans to remove; without one, the complement of the spans to remove.
pub open spec fn chosen_plan(
    chunks: Seq<SpeechChunk>,
    decision: Option<Vec<bool>>,
    removals: Seq<Segment>,
    total: Millis,
    mode: ProcessingMode,
) -> Seq<Segment> {
    match decision {
        Some(kept) => if chunks.len() > 0 {
            final_plan(chunks, kept@, removals, total, mode)
        } else {
            keep_plan(removals, total, mode)
        },
        None => keep_plan(removals, total, mode),
    }
}

/// Builds the keep ranges by the construction that fits what was decided
/// upstream. Where no chunk was judged, because retake detection is off or
/// the transcript holds no word, the keep ranges are the complement of the
/// spans to remove: with nothing to remove, the whole timeline is kept.
pub fn build_keep_segments(
    chunks: &Vec<SpeechChunk>,
    decision: &Option<Vec<bool>>,
    removals: &Vec<Segment>,
    total_duration: Millis,
    mode: ProcessingMode,
) -> (keep: Vec<Segment>)
    ensures
        keep@ == chosen_plan(chunks@, *decision, removals@, total_duration, mode),
        normalized(keep@, 0),
        all_within(keep@, total_duration),
        forall|i: int| 0 <= i < keep.len() ==> (#[trigger] keep[i]).span() >= mode.min_keep_ms(),
        forall|t: int|
            covered(keep@, t) ==> 0 <= t < total_duration && !covered(valid_spans(removals@), t),
{
    match decision {
        Some(kept) => {
            if chunks.len() > 0 {
                final_keep_segments(chunks, kept, removals, total_duration, mode)
            } else {
                calculate_keep_segments(removals, total_duration, mode)
            }
        },
        None => calculate_keep_segments(removals, total_duration, mode),
    }
}

} // verus!
