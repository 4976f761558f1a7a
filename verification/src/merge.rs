//! The merge step of the range builder: discard degenerate spans, order the
//! rest by start, and fuse neighbours that overlap, touch, or lie closer
//! together than a given gap.

use vstd::prelude::*;
use crate::timeline::{Segment, Millis, covered};

verus! {

/// Whether a span starting at `next_start` is fused with one ending at
/// `cur_end`: it overlaps or touches it, or is separated from it by less
/// than `gap`.
pub open spec fn joins(cur_end: int, next_start: int, gap: int) -> bool {
    next_start <= cur_end || next_start - cur_end < gap
}

/// Spans in ascending order of start.
pub open spec fn sorted_by_start(s: Seq<Segment>) -> bool {
    forall|i: int, j: int| 0 <= i <= j < s.len() ==> s[i].start <= s[j].start
}

pub open spec fn all_valid(s: Seq<Segment>) -> bool {
    forall|i: int| 0 <= i < s.len() ==> (#[trigger] s[i]).valid()
}

/// The normal form that merging produces: every span is valid and no span
/// joins its successor. Such a list is strictly ascending and its spans are
/// pairwise disjoint, at least `gap` apart.
pub open spec fn normalized(s: Seq<Segment>, gap: int) -> bool {
    &&& all_valid(s)
    &&& forall|i: int| 0 <= i < s.len() - 1 ==> !joins(s[i].end as int, (#[trigger] s[i + 1]).start as int, gap)
}

/// The valid spans of `s`, in the order in which they come.
pub open spec fn valid_spans(s: Seq<Segment>) -> Seq<Segment> {
    s.filter(|x: Segment| x.valid())
}

/// `x` placed into `s` behind every span that starts no later than `x`.
pub open spec fn insert_by_start(s: Seq<Segment>, x: Segment) -> Seq<Segment>
    decreases s.len(),
{
    if s.len() == 0 {
        seq![x]
    } else if s.last().start <= x.start {
        s.push(x)
    } else {
        insert_by_start(s.drop_last(), x).push(s.last())
    }
}

/// The stable ordering of `s` by start.
pub open spec fn sort_by_start(s: Seq<Segment>) -> Seq<Segment>
    decreases s.len(),
{
    if s.len() == 0 {
        s
    } else {
        insert_by_start(sort_by_start(s.drop_last()), s.last())
    }
}

/// One step of merging: `x` is fused into the last span of `acc` if it joins
/// it, and appended otherwise.
pub open spec fn absorb(acc: Seq<Segment>, x: Segment, gap: int) -> Seq<Segment> {
    if acc.len() == 0 {
        seq![x]
    } else if joins(acc.last().end as int, x.start as int, gap) {
        acc.drop_last().push(
            Segment {
                start: acc.last().start,
                end: if acc.last().end >= x.end { acc.last().end } else { x.end },
            },
        )
    } else {
        acc.push(x)
    }
}

/// Left-to-right merging of a list ordered by start.
pub open spec fn merge_sorted(s: Seq<Segment>, gap: int) -> Seq<Segment>
    decreases s.len(),
{
    if s.len() == 0 {
        Seq::empty()
    } else {
        absorb(merge_sorted(s.drop_last(), gap), s.last(), gap)
    }
}

/// The merge step as a whole.
pub open spec fn merged_spans(s: Seq<Segment>, gap: int) -> Seq<Segment> {
    merge_sorted(sort_by_start(valid_spans(s)), gap)
}

pub proof fn lemma_insert_at(s: Seq<Segment>, x: Segment, p: int)
    requires
        0 <= p <= s.len(),
        forall|k: int| p <= k < s.len() ==> s[k].start > x.start,
        p > 0 ==> s[p - 1].start <= x.start,
    ensures
        insert_by_start(s, x) == s.insert(p, x),
    decreases s.len() - p,
{
    if s.len() == 0 {
        assert(seq![x] =~= s.insert(p, x));
    } else if p == s.len() {
        assert(s.push(x) =~= s.insert(p, x));
    } else {
        lemma_insert_at(s.drop_last(), x, p);
        assert(s.drop_last().insert(p, x).push(s.last()) =~= s.insert(p, x));
    }
}

pub proof fn lemma_insert_props(s: Seq<Segment>, x: Segment)
    ensures
        insert_by_start(s, x).len() == s.len() + 1,
        sorted_by_start(s) ==> sorted_by_start(insert_by_start(s, x)),
        all_valid(s) && x.valid() ==> all_valid(insert_by_start(s, x)),
        forall|t: int| covered(insert_by_start(s, x), t) <==> covered(s, t) || x.contains(t),
    decreases s.len(),
{
    let r = insert_by_start(s, x);
    if s.len() == 0 {
        assert forall|t: int| covered(r, t) <==> covered(s, t) || x.contains(t) by {
            if x.contains(t) {
                assert(r[0].contains(t));
            }
        }
    } else if s.last().start <= x.start {
        assert forall|t: int| covered(r, t) <==> covered(s, t) || x.contains(t) by {
            if x.contains(t) {
                assert(r[s.len() as int].contains(t));
            }
            if covered(s, t) {
                let i = choose|i: int| 0 <= i < s.len() && (#[trigger] s[i]).contains(t);
                assert(r[i].contains(t));
            }
        }
    } else {
        let d = s.drop_last();
        let q = insert_by_start(d, x);
        lemma_insert_props(d, x);
        assert forall|t: int| covered(r, t) <==> covered(s, t) || x.contains(t) by {
            if covered(r, t) {
                let i = choose|i: int| 0 <= i < r.len() && (#[trigger] r[i]).contains(t);
                if i < q.len() {
                    assert(q[i].contains(t));
                    assert(covered(q, t));
                    if covered(d, t) {
                        let j = choose|j: int| 0 <= j < d.len() && (#[trigger] d[j]).contains(t);
                        assert(s[j].contains(t));
                    }
                } else {
                    assert(s[s.len() - 1].contains(t));
                }
            }
            if x.contains(t) {
                assert(covered(q, t));
                let i = choose|i: int| 0 <= i < q.len() && (#[trigger] q[i]).contains(t);
                assert(r[i].contains(t));
            }
            if covered(s, t) {
                let j = choose|j: int| 0 <= j < s.len() && (#[trigger] s[j]).contains(t);
                if j < d.len() {
                    assert(d[j].contains(t));
                    assert(covered(d, t));
                    assert(covered(q, t));
                    let i = choose|i: int| 0 <= i < q.len() && (#[trigger] q[i]).contains(t);
                    assert(r[i].contains(t));
                } else {
                    assert(r[r.len() - 1].contains(t));
                }
            }
        }
        if sorted_by_start(s) {
            assert(sorted_by_start(d));
            // every element of q is an element of d or is x
            assert forall|i: int, j: int| 0 <= i <= j < r.len() implies r[i].start <= r[j].start by {
                if j < q.len() {
                    assert(q[i].start <= q[j].start);
                } else if i < q.len() {
                    lemma_insert_bound(d, x, s.last().start, i);
                }
            }
        }
        if all_valid(s) && x.valid() {
            assert(all_valid(d));
            assert forall|i: int| 0 <= i < r.len() implies (#[trigger] r[i]).valid() by {
                if i < q.len() {
                    assert(q[i].valid());
                } else {
                    assert(s[s.len() - 1].valid());
                }
            }
        }
    }
}

/// Every span of `insert_by_start(s, x)` starts no later than `bound` when
/// `x` and the spans of `s` do.
pub proof fn lemma_insert_bound(s: Seq<Segment>, x: Segment, bound: Millis, i: int)
    requires
        x.start <= bound,
        forall|k: int| 0 <= k < s.len() ==> s[k].start <= bound,
        0 <= i < insert_by_start(s, x).len(),
    ensures
        insert_by_start(s, x)[i].start <= bound,
    decreases s.len(),
{
    if s.len() == 0 {
    } else if s.last().start <= x.start {
    } else {
        lemma_insert_props(s.drop_last(), x);
        if i < s.len() {
            lemma_insert_bound(s.drop_last(), x, bound, i);
        }
    }
}


pub proof fn lemma_sort_props(s: Seq<Segment>)
    ensures
        sort_by_start(s).len() == s.len(),
        sorted_by_start(sort_by_start(s)),
        all_valid(s) ==> all_valid(sort_by_start(s)),
        forall|t: int| covered(sort_by_start(s), t) <==> covered(s, t),
    decreases s.len(),
{
    if s.len() > 0 {
        let d = s.drop_last();
        lemma_sort_props(d);
        lemma_insert_props(sort_by_start(d), s.last());
        if all_valid(s) {
            assert(all_valid(d));
            assert(s[s.len() - 1].valid());
        }
        assert forall|t: int| covered(sort_by_start(s), t) <==> covered(s, t) by {
            if covered(s, t) {
                let j = choose|j: int| 0 <= j < s.len() && (#[trigger] s[j]).contains(t);
                if j < d.len() {
                    assert(d[j].contains(t));
                }
            }
            if covered(d, t) {
                let j = choose|j: int| 0 <= j < d.len() && (#[trigger] d[j]).contains(t);
                assert(s[j].contains(t));
            }
            if s.last().contains(t) {
                assert(s[s.len() - 1].contains(t));
            }
        }
    }
}

pub proof fn lemma_valid_spans_props(s: Seq<Segment>)
    ensures
        all_valid(valid_spans(s)),
        valid_spans(s).len() <= s.len(),
        all_valid(s) ==> valid_spans(s) == s,
        forall|t: int| covered(valid_spans(s), t) <==> covered(s, t),
    decreases s.len(),
{
    reveal(Seq::filter);
    let pred = |x: Segment| x.valid();
    let r = valid_spans(s);
    if s.len() > 0 {
        let d = s.drop_last();
        lemma_valid_spans_props(d);
        let rd = valid_spans(d);
        if all_valid(s) {
            assert(all_valid(d));
            assert(s[s.len() - 1].valid());
            assert(rd.push(s.last()) =~= s);
        }
        assert forall|t: int| covered(r, t) <==> covered(s, t) by {
            if covered(r, t) {
                let i = choose|i: int| 0 <= i < r.len() && (#[trigger] r[i]).contains(t);
                if i < rd.len() {
                    assert(rd[i].contains(t));
                    assert(covered(d, t));
                    let j = choose|j: int| 0 <= j < d.len() && (#[trigger] d[j]).contains(t);
                    assert(s[j].contains(t));
                } else {
                    assert(s[s.len() - 1].contains(t));
                }
            }
            if covered(s, t) {
                let j = choose|j: int| 0 <= j < s.len() && (#[trigger] s[j]).contains(t);
                if j < d.len() {
                    assert(d[j].contains(t));
                    assert(covered(d, t));
                    assert(covered(rd, t));
                    let i = choose|i: int| 0 <= i < rd.len() && (#[trigger] rd[i]).contains(t);
                    assert(r[i].contains(t));
                } else {
                    assert(s[j].valid());
                    assert(r[r.len() - 1].contains(t));
                }
            }
        }
    }
}

/// What one merging step preserves.
pub proof fn lemma_absorb_props(acc: Seq<Segment>, x: Segment, gap: int)
    requires
        normalized(acc, gap),
        x.valid(),
        gap >= 0,
        acc.len() > 0 ==> acc.last().start <= x.start,
    ensures
        normalized(absorb(acc, x, gap), gap),
        absorb(acc, x, gap).len() > 0,
        absorb(acc, x, gap).last().start <= x.start,
        absorb(acc, x, gap).len() <= acc.len() + 1,
        forall|t: int| covered(acc, t) || x.contains(t) ==> covered(absorb(acc, x, gap), t),
{
    let r = absorb(acc, x, gap);
    if acc.len() == 0 {
        assert forall|t: int| covered(acc, t) || x.contains(t) implies covered(r, t) by {
            assert(r[0].contains(t));
        }
    } else if joins(acc.last().end as int, x.start as int, gap) {
        let n = acc.len() as int;
        assert(acc[n - 1].valid());
        assert forall|i: int| 0 <= i < r.len() implies (#[trigger] r[i]).valid() by {
            if i < n - 1 {
                assert(acc[i].valid());
            }
        }
        assert forall|i: int| 0 <= i < r.len() - 1 implies !joins(
            r[i].end as int,
            (#[trigger] r[i + 1]).start as int,
            gap,
        ) by {
            assert(!joins(acc[i].end as int, acc[i + 1].start as int, gap));
        }
        assert forall|t: int| covered(acc, t) || x.contains(t) implies covered(r, t) by {
            if x.contains(t) {
                assert(r[n - 1].contains(t));
            } else {
                let j = choose|j: int| 0 <= j < acc.len() && (#[trigger] acc[j]).contains(t);
                if j < n - 1 {
                    assert(r[j].contains(t));
                } else {
                    assert(r[n - 1].contains(t));
                }
            }
        }
    } else {
        let n = acc.len() as int;
        assert forall|i: int| 0 <= i < r.len() implies (#[trigger] r[i]).valid() by {
            if i < n {
                assert(acc[i].valid());
            }
        }
        assert forall|i: int| 0 <= i < r.len() - 1 implies !joins(
            r[i].end as int,
            (#[trigger] r[i + 1]).start as int,
            gap,
        ) by {
            if i < n - 1 {
                assert(!joins(acc[i].end as int, acc[i + 1].start as int, gap));
            }
        }
        assert forall|t: int| covered(acc, t) || x.contains(t) implies covered(r, t) by {
            if x.contains(t) {
                assert(r[n].contains(t));
            } else {
                let j = choose|j: int| 0 <= j < acc.len() && (#[trigger] acc[j]).contains(t);
                assert(r[j].contains(t));
            }
        }
    }
}

pub proof fn lemma_merge_sorted_props(s: Seq<Segment>, gap: int)
    requires
        sorted_by_start(s),
        all_valid(s),
        gap >= 0,
    ensures
        normalized(merge_sorted(s, gap), gap),
        merge_sorted(s, gap).len() <= s.len(),
        s.len() > 0 ==> merge_sorted(s, gap).len() > 0 && merge_sorted(s, gap).last().start
            <= s.last().start,
        forall|t: int| covered(s, t) ==> covered(merge_sorted(s, gap), t),
    decreases s.len(),
{
    if s.len() > 0 {
        let d = s.drop_last();
        assert(sorted_by_start(d));
        assert(all_valid(d));
        lemma_merge_sorted_props(d, gap);
        let acc = merge_sorted(d, gap);
        assert(s[s.len() - 1].valid());
        if d.len() > 0 {
            assert(d.last().start == s[s.len() - 2].start);
            assert(s[s.len() - 2].start <= s[s.len() - 1].start);
        }
        lemma_absorb_props(acc, s.last(), gap);
        assert forall|t: int| covered(s, t) implies covered(merge_sorted(s, gap), t) by {
            let j = choose|j: int| 0 <= j < s.len() && (#[trigger] s[j]).contains(t);
            if j < d.len() {
                assert(d[j].contains(t));
                assert(covered(d, t));
            }
        }
    }
}

/// A list in normal form is ordered by start.
pub proof fn lemma_normalized_sorted(s: Seq<Segment>, gap: int)
    requires
        normalized(s, gap),
    ensures
        sorted_by_start(s),
        forall|i: int, j: int| 0 <= i < j < s.len() ==> s[i].end < s[j].start,
{
    assert forall|i: int, j: int| 0 <= i < j < s.len() implies s[i].end < s[j].start by {
        lemma_normalized_ascending(s, gap, i, j);
    }
    assert forall|i: int, j: int| 0 <= i <= j < s.len() implies s[i].start <= s[j].start by {
        if i < j {
            assert(s[i].valid());
            lemma_normalized_ascending(s, gap, i, j);
        }
    }
}

pub proof fn lemma_normalized_ascending(s: Seq<Segment>, gap: int, i: int, j: int)
    requires
        normalized(s, gap),
        0 <= i < j < s.len(),
    ensures
        s[i].end < s[j].start,
    decreases j - i,
{
    assert(!joins(s[j - 1].end as int, s[j - 1 + 1].start as int, gap));
    if i < j - 1 {
        lemma_normalized_ascending(s, gap, i, j - 1);
        assert(s[j - 1].valid());
    }
}

/// Sorting and merging leave a list in normal form unchanged.
pub proof fn lemma_normalized_fixed(s: Seq<Segment>, gap: int)
    requires
        normalized(s, gap),
    ensures
        valid_spans(s) == s,
        sort_by_start(s) == s,
        merge_sorted(s, gap) == s,
    decreases s.len(),
{
    lemma_valid_spans_props(s);
    if s.len() > 0 {
        let d = s.drop_last();
        assert(normalized(d, gap)) by {
            assert forall|i: int| 0 <= i < d.len() implies (#[trigger] d[i]).valid() by {
                assert(s[i].valid());
            }
            assert forall|i: int| 0 <= i < d.len() - 1 implies !joins(
                d[i].end as int,
                (#[trigger] d[i + 1]).start as int,
                gap,
            ) by {
                assert(!joins(s[i].end as int, s[i + 1].start as int, gap));
            }
        }
        lemma_normalized_fixed(d, gap);
        lemma_normalized_sorted(s, gap);
        if d.len() > 0 {
            assert(d.last().start == s[s.len() - 2].start);
            assert(!joins(s[s.len() - 2].end as int, s[s.len() - 2 + 1].start as int, gap));
            assert(d.last().end == s[s.len() - 2].end);
        }
        assert(d.push(s.last()) =~= s);
    }
}

/// Merging is idempotent: applied to its own output it changes nothing.
pub proof fn lemma_merge_idempotent(s: Seq<Segment>, gap: int)
    requires
        gap >= 0,
    ensures
        merged_spans(merged_spans(s, gap), gap) == merged_spans(s, gap),
{
    lemma_merged_spans_props(s, gap);
    lemma_normalized_fixed(merged_spans(s, gap), gap);
}

/// The merge step yields a list in normal form that covers every instant
/// the valid input spans cover.
pub proof fn lemma_merged_spans_props(s: Seq<Segment>, gap: int)
    requires
        gap >= 0,
    ensures
        normalized(merged_spans(s, gap), gap),
        merged_spans(s, gap).len() <= s.len(),
        forall|t: int| covered(valid_spans(s), t) ==> covered(merged_spans(s, gap), t),
{
    lemma_valid_spans_props(s);
    lemma_sort_props(valid_spans(s));
    lemma_merge_sorted_props(sort_by_start(valid_spans(s)), gap);
}

/// Keeps the valid spans of `spans`, in order.
pub fn retain_valid(spans: &Vec<Segment>) -> (out: Vec<Segment>)
    ensures
        out@ == valid_spans(spans@),
{
    let mut out: Vec<Segment> = Vec::new();
    let mut i: usize = 0;
    proof {
        reveal(Seq::filter);
    }
    while i < spans.len()
        invariant
            i <= spans.len(),
            out@ == valid_spans(spans@.take(i as int)),
        decreases spans.len() - i,
    {
        proof {
            reveal(Seq::filter);
            assert(spans@.take(i + 1).drop_last() =~= spans@.take(i as int));
        }
        if spans[i].is_valid() {
            out.push(spans[i]);
        }
        i += 1;
    }
    proof {
        assert(spans@.take(i as int) =~= spans@);
    }
    out
}

/// Orders `spans` by start, keeping the input order among equal starts.
pub fn sort_spans(spans: &Vec<Segment>) -> (out: Vec<Segment>)
    ensures
        out@ == sort_by_start(spans@),
        sorted_by_start(out@),
        out@.to_multiset() == spans@.to_multiset(),
{
    let mut out: Vec<Segment> = Vec::new();
    let mut i: usize = 0;
    while i < spans.len()
        invariant
            i <= spans.len(),
            out@ == sort_by_start(spans@.take(i as int)),
            out.len() == i,
        decreases spans.len() - i,
    {
        let x = spans[i];
        let mut p: usize = out.len();
        while p > 0 && out[p - 1].start > x.start
            invariant
                p <= out.len(),
                forall|k: int| p <= k < out.len() ==> out[k].start > x.start,
            decreases p,
        {
            p -= 1;
        }
        proof {
            lemma_insert_at(out@, x, p as int);
            assert(spans@.take(i + 1).drop_last() =~= spans@.take(i as int));
            lemma_sort_props(spans@.take(i as int));
        }
        out.insert(p, x);
        i += 1;
    }
    proof {
        assert(spans@.take(i as int) =~= spans@);
        lemma_sort_props(spans@);
        lemma_sort_permutes(spans@);
    }
    out
}

/// Whether a span starting at `next_start` joins one ending at `cur_end`.
pub fn spans_join(cur_end: Millis, next_start: Millis, gap: Millis) -> (b: bool)
    ensures
        b == joins(cur_end as int, next_start as int, gap as int),
{
    next_start <= cur_end || next_start - cur_end < gap
}

/// Fuses each span of a start-ordered list into its predecessor when the two
/// join.
pub fn merge_ordered(spans: &Vec<Segment>, gap: Millis) -> (out: Vec<Segment>)
    ensures
        out@ == merge_sorted(spans@, gap as int),
{
    let mut out: Vec<Segment> = Vec::new();
    let mut i: usize = 0;
    while i < spans.len()
        invariant
            i <= spans.len(),
            out@ == merge_sorted(spans@.take(i as int), gap as int),
        decreases spans.len() - i,
    {
        let x = spans[i];
        proof {
            assert(spans@.take(i + 1).drop_last() =~= spans@.take(i as int));
        }
        let n: usize = out.len();
        if n == 0 {
            out.push(x);
            proof {
                assert(out@ =~= absorb(Seq::empty(), x, gap as int));
            }
        } else {
            let last = out[n - 1];
            if spans_join(last.end, x.start, gap) {
                let end: Millis = if last.end >= x.end { last.end } else { x.end };
                let ghost before = out@;
                out.pop();
                out.push(Segment { start: last.start, end });
                proof {
                    assert(out@ =~= absorb(before, x, gap as int));
                }
            } else {
                out.push(x);
            }
        }
        i += 1;
    }
    proof {
        assert(spans@.take(i as int) =~= spans@);
    }
    out
}

/// The merge step: drops spans without positive duration, orders the rest by
/// start, and fuses spans that overlap, touch, or lie less than `gap` apart.
///
/// The result is in normal form, covers every instant that a valid input
/// span covers, and is left unchanged by a second merge with the same gap.
pub fn merge_spans(spans: &Vec<Segment>, gap: Millis) -> (out: Vec<Segment>)
    ensures
        out@ == merged_spans(spans@, gap as int),
        normalized(out@, gap as int),
        out.len() <= spans.len(),
        forall|t: int| covered(valid_spans(spans@), t) ==> covered(out@, t),
        merged_spans(out@, gap as int) == out@,
{
    let valid = retain_valid(spans);
    let sorted = sort_spans(&valid);
    let out = merge_ordered(&sorted, gap);
    proof {
        lemma_merged_spans_props(spans@, gap as int);
        lemma_merge_idempotent(spans@, gap as int);
    }
    out
}


/// Every valid span kept is one of the input spans.
pub proof fn lemma_valid_spans_contained(s: Seq<Segment>)
    ensures
        forall|i: int| 0 <= i < valid_spans(s).len() ==> s.contains(#[trigger] valid_spans(s)[i]),
    decreases s.len(),
{
    reveal(Seq::filter);
    let r = valid_spans(s);
    if s.len() > 0 {
        let d = s.drop_last();
        let rd = valid_spans(d);
        lemma_valid_spans_contained(d);
        assert forall|i: int| 0 <= i < r.len() implies s.contains(#[trigger] r[i]) by {
            if i < rd.len() {
                assert(d.contains(rd[i]));
                let k = choose|k: int| 0 <= k < d.len() && d[k] == rd[i];
                assert(s[k] == rd[i]);
            } else {
                assert(s[s.len() - 1] == r[i]);
            }
        }
    }
}

/// A bound on every end survives insertion.
pub proof fn lemma_insert_bounded_end(s: Seq<Segment>, x: Segment, bound: Millis)
    requires
        x.end <= bound,
        forall|k: int| 0 <= k < s.len() ==> (#[trigger] s[k]).end <= bound,
    ensures
        forall|k: int|
            0 <= k < insert_by_start(s, x).len() ==> (#[trigger] insert_by_start(s, x)[k]).end
                <= bound,
    decreases s.len(),
{
    if s.len() == 0 {
    } else if s.last().start <= x.start {
    } else {
        let d = s.drop_last();
        assert forall|k: int| 0 <= k < d.len() implies (#[trigger] d[k]).end <= bound by {
            assert(s[k].end <= bound);
        }
        lemma_insert_bounded_end(d, x, bound);
        lemma_insert_props(d, x);
        let r = insert_by_start(s, x);
        assert forall|k: int| 0 <= k < r.len() implies (#[trigger] r[k]).end <= bound by {
            if k < d.len() + 1 {
                assert(insert_by_start(d, x)[k].end <= bound);
            } else {
                assert(s[s.len() - 1].end <= bound);
            }
        }
    }
}

/// A bound on every end survives sorting.
pub proof fn lemma_sort_bounded_end(s: Seq<Segment>, bound: Millis)
    requires
        forall|k: int| 0 <= k < s.len() ==> (#[trigger] s[k]).end <= bound,
    ensures
        forall|k: int|
            0 <= k < sort_by_start(s).len() ==> (#[trigger] sort_by_start(s)[k]).end <= bound,
    decreases s.len(),
{
    if s.len() > 0 {
        let d = s.drop_last();
        assert forall|k: int| 0 <= k < d.len() implies (#[trigger] d[k]).end <= bound by {
            assert(s[k].end <= bound);
        }
        lemma_sort_bounded_end(d, bound);
        assert(s[s.len() - 1].end <= bound);
        lemma_insert_bounded_end(sort_by_start(d), s.last(), bound);
    }
}

/// A bound on every end survives merging.
pub proof fn lemma_merge_bounded_end(s: Seq<Segment>, gap: int, bound: Millis)
    requires
        forall|k: int| 0 <= k < s.len() ==> (#[trigger] s[k]).end <= bound,
    ensures
        forall|k: int|
            0 <= k < merge_sorted(s, gap).len() ==> (#[trigger] merge_sorted(s, gap)[k]).end
                <= bound,
    decreases s.len(),
{
    if s.len() > 0 {
        let d = s.drop_last();
        assert forall|k: int| 0 <= k < d.len() implies (#[trigger] d[k]).end <= bound by {
            assert(s[k].end <= bound);
        }
        lemma_merge_bounded_end(d, gap, bound);
        assert(s[s.len() - 1].end <= bound);
        let acc = merge_sorted(d, gap);
        let r = merge_sorted(s, gap);
        assert forall|k: int| 0 <= k < r.len() implies (#[trigger] r[k]).end <= bound by {
            if acc.len() > 0 {
                assert(acc[acc.len() - 1].end <= bound);
                if k < acc.len() - 1 {
                    assert(acc[k].end <= bound);
                } else if k < acc.len() {
                    assert(acc[k].end <= bound);
                }
            }
        }
    }
}


/// Insertion adds exactly the inserted span.
pub proof fn lemma_insert_permutes(s: Seq<Segment>, x: Segment)
    ensures
        insert_by_start(s, x).to_multiset() == s.to_multiset().insert(x),
    decreases s.len(),
{
    vstd::seq_lib::to_multiset_build(s, x);
    if s.len() == 0 {
        assert(seq![x] =~= s.push(x));
    } else if s.last().start <= x.start {
    } else {
        let d = s.drop_last();
        lemma_insert_permutes(d, x);
        vstd::seq_lib::to_multiset_build(insert_by_start(d, x), s.last());
        vstd::seq_lib::to_multiset_build(d, s.last());
        assert(d.push(s.last()) =~= s);
        assert(d.to_multiset().insert(x).insert(s.last()) =~= d.to_multiset().insert(
            s.last(),
        ).insert(x));
    }
}

/// Sorting rearranges: the sorted list holds the spans of the input, each
/// as often as the input does.
pub proof fn lemma_sort_permutes(s: Seq<Segment>)
    ensures
        sort_by_start(s).to_multiset() == s.to_multiset(),
    decreases s.len(),
{
    if s.len() > 0 {
        let d = s.drop_last();
        lemma_sort_permutes(d);
        lemma_insert_permutes(sort_by_start(d), s.last());
        vstd::seq_lib::to_multiset_build(d, s.last());
        assert(d.push(s.last()) =~= s);
    }
}

} // verus!
