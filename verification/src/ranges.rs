//! The set of byte offsets that a chunked transfer actually delivered, as sorted spans.
//!
//! It exists because a completeness check has to distinguish "the file is 10,532 bytes long" from
//! "10,532 bytes were received": bytes that were padded across a gap must not count.
use vstd::prelude::*;
use vstd::set_lib::*;

verus! {

/// How many disjoint spans one transfer may accumulate before it is abandoned.
///
/// A stream that arrives in order holds one span, so this is unreachable on any real transfer.
/// It exists because the span count is otherwise driven straight off the wire.
pub const MAX_RECEIVED_SPANS: usize = 4096;

/// Sorted, disjoint, non-adjacent half-open spans.
#[derive(Debug, Clone, PartialEq, Eq)]
pub struct ReceivedRanges {
    pub spans: Vec<(usize, usize)>,
}

/// Whether some span holds the offset `x`.
pub open spec fn in_spans(spans: Seq<(usize, usize)>, x: int) -> bool {
    exists|i: int| 0 <= i < spans.len() && (#[trigger] spans[i]).0 <= x < spans[i].1
}

/// The offsets that some span holds.
pub open spec fn offsets(spans: Seq<(usize, usize)>) -> Set<int> {
    Set::new(|x: int| in_spans(spans, x))
}

/// Spans that are not empty, ascend, and neither overlap nor touch.
pub open spec fn normal(spans: Seq<(usize, usize)>) -> bool {
    &&& forall|i: int| 0 <= i < spans.len() ==> (#[trigger] spans[i]).0 < spans[i].1
    &&& forall|i: int, j: int|
        0 <= i < j < spans.len() ==> (#[trigger] spans[i]).1 < (#[trigger] spans[j]).0
}

/// The offsets at which a maximal run of consecutive offsets begins.
pub open spec fn run_starts(s: Set<int>) -> Set<int> {
    s.filter(|x: int| !s.contains(x - 1))
}

/// How many maximal runs of consecutive offsets a set has.
pub open spec fn run_count(s: Set<int>) -> nat {
    run_starts(s).len()
}

impl View for ReceivedRanges {
    type V = Set<int>;

    /// The offsets covered.
    open spec fn view(&self) -> Set<int> {
        offsets(self.spans@)
    }
}

impl Default for ReceivedRanges {
    fn default() -> (r: Self)
        ensures
            r.wf(),
            r@ == Set::<int>::empty(),
    {
        let r = ReceivedRanges { spans: Vec::new() };
        assert(r@ =~= Set::<int>::empty());
        r
    }
}

impl ReceivedRanges {
    pub open spec fn wf(&self) -> bool {
        &&& normal(self.spans@)
        &&& self.spans@.len() <= MAX_RECEIVED_SPANS
    }

    /// Add the offsets from `start` up to `end`. Returns `false`, and records nothing, when that
    /// would push the span count past [`MAX_RECEIVED_SPANS`]. A span that fuses with a neighbour
    /// does not grow the count, so this only ever rejects a genuinely new hole.
    #[must_use]
    pub fn insert(&mut self, start: usize, end: usize) -> (recorded: bool)
        requires
            old(self).wf(),
        ensures
            final(self).wf(),
            recorded == (run_count(old(self)@.union(set_int_range(start as int, end as int)))
                <= MAX_RECEIVED_SPANS),
            recorded ==> final(self)@ == old(self)@.union(
                set_int_range(start as int, end as int),
            ),
            !recorded ==> *final(self) == *old(self),
    {
        let ghost before = self.spans@;
        let ghost fresh = set_int_range(start as int, end as int);
        if start >= end {
            proof {
                assert(self@.union(fresh) =~= self@);
                lemma_run_count(before);
            }
            return true;
        }
        let mut lo: usize = start;
        let mut hi: usize = end;
        let mut merged: Vec<(usize, usize)> = Vec::new();
        let mut placed: bool = false;
        let n: usize = self.spans.len();
        assert(offsets(merged@).union(fresh) =~= offsets(before.take(0)).union(fresh));
        for i in 0..n
            invariant
                n == self.spans.len(),
                self.spans@ == before,
                normal(before),
                normal(merged@),
                lo <= start < end <= hi,
                merged@.len() > 0 ==> i > 0 && merged@.last().1 <= before[i - 1].1,
                placed ==> i > 0 && hi < before[i - 1].1,
                !placed ==> forall|j: int|
                    0 <= j < merged@.len() ==> (#[trigger] merged@[j]).1 < lo,
                !placed ==> hi == end || (i > 0 && hi <= before[i - 1].1),
                fresh == set_int_range(start as int, end as int),
                offsets(merged@).union(
                    if placed {
                        Set::empty()
                    } else {
                        set_int_range(lo as int, hi as int)
                    },
                ) == offsets(before.take(i as int)).union(fresh),
        {
            let s: usize = self.spans[i].0;
            let e: usize = self.spans[i].1;
            let ghost done = offsets(before.take(i as int)).union(fresh);
            let ghost merged0 = merged@;
            let ghost pending = set_int_range(lo as int, hi as int);
            let ghost span = set_int_range(s as int, e as int);
            proof {
                assert(before.take(i + 1) =~= before.take(i as int).push((s, e)));
                lemma_offsets_push(before.take(i as int), (s, e));
                assert(offsets(before.take(i + 1)).union(fresh) =~= done.union(span));
            }
            if e < lo {
                merged.push((s, e));
                proof {
                    lemma_normal_push(merged0, (s, e));
                    lemma_offsets_push(merged0, (s, e));
                    assert(offsets(merged@).union(pending) =~= done.union(span));
                }
            } else if s > hi {
                if !placed {
                    merged.push((lo, hi));
                    placed = true;
                    proof {
                        lemma_normal_push(merged0, (lo, hi));
                        lemma_offsets_push(merged0, (lo, hi));
                    }
                }
                let ghost merged1 = merged@;
                assert(offsets(merged1) =~= done);
                merged.push((s, e));
                proof {
                    lemma_normal_push(merged1, (s, e));
                    lemma_offsets_push(merged1, (s, e));
                    assert(offsets(merged@).union(Set::empty()) =~= done.union(span));
                }
            } else {
                if s < lo {
                    lo = s;
                }
                if e > hi {
                    hi = e;
                }
                assert(set_int_range(lo as int, hi as int) =~= pending.union(span));
                assert(offsets(merged@).union(pending.union(span)) =~= done.union(span));
            }
        }
        assert(before.take(n as int) =~= before);
        if !placed {
            proof {
                lemma_normal_push(merged@, (lo, hi));
                lemma_offsets_push(merged@, (lo, hi));
            }
            merged.push((lo, hi));
        }
        assert(offsets(merged@) =~= self@.union(fresh));
        proof {
            lemma_run_count(merged@);
        }
        if merged.len() > MAX_RECEIVED_SPANS {
            return false;
        }
        self.spans = merged;
        true
    }

    /// How many offsets are covered.
    pub fn covered(&self) -> (n: usize)
        requires
            self.wf(),
        ensures
            n == self@.len(),
            self@.finite(),
    {
        let mut sum: usize = 0;
        assert(offsets(self.spans@.take(0)) =~= Set::<int>::empty());
        for i in 0..self.spans.len()
            invariant
                self.wf(),
                sum == offsets(self.spans@.take(i as int)).len(),
                offsets(self.spans@.take(i as int)).finite(),
                i == 0 ==> sum == 0,
                i > 0 ==> sum <= self.spans@[i - 1].1,
        {
            let s: usize = self.spans[i].0;
            let e: usize = self.spans[i].1;
            proof {
                assert(self.spans@.take(i + 1) =~= self.spans@.take(i as int).push((s, e)));
                lemma_offsets_push(self.spans@.take(i as int), (s, e));
                lemma_int_range(s as int, e as int);
                assert(offsets(self.spans@.take(i as int)).disjoint(
                    set_int_range(s as int, e as int),
                ));
                lemma_set_disjoint_lens(
                    offsets(self.spans@.take(i as int)),
                    set_int_range(s as int, e as int),
                );
            }
            sum = sum + (e - s);
        }
        assert(self.spans@.take(self.spans@.len() as int) =~= self.spans@);
        sum
    }

    /// The first offset below `total` that is not covered, or `None` when all of them are.
    pub fn first_gap(&self, total: usize) -> (gap: Option<usize>)
        requires
            self.wf(),
        ensures
            match gap {
                Some(g) => {
                    &&& g < total
                    &&& !self@.contains(g as int)
                    &&& forall|x: int| 0 <= x < g ==> self@.contains(x)
                },
                None => forall|x: int| 0 <= x < total ==> self@.contains(x),
            },
    {
        let mut cursor: usize = 0;
        let mut i: usize = 0;
        while i < self.spans.len() && self.spans[i].0 <= cursor
            invariant
                self.wf(),
                i <= self.spans.len(),
                i == 0 ==> cursor == 0,
                i > 0 ==> cursor == self.spans@[i - 1].1,
                forall|x: int| 0 <= x < cursor ==> self@.contains(x),
            decreases self.spans.len() - i,
        {
            let e: usize = self.spans[i].1;
            proof {
                assert forall|x: int| 0 <= x < e implies self@.contains(x) by {
                    if x >= cursor {
                        assert(self.spans@[i as int].0 <= x < self.spans@[i as int].1);
                    }
                }
            }
            cursor = e;
            i = i + 1;
        }
        assert(!self@.contains(cursor as int)) by {
            if in_spans(self.spans@, cursor as int) {
                let j = choose|j: int|
                    0 <= j < self.spans@.len() && (#[trigger] self.spans@[j]).0 <= cursor
                        < self.spans@[j].1;
                if j < i - 1 {
                    assert(self.spans@[j].1 < self.spans@[i - 1].0);
                } else if j > i {
                    assert(self.spans@[i as int].1 < self.spans@[j].0);
                }
            }
        }
        if cursor < total {
            Some(cursor)
        } else {
            None
        }
    }
}

/// A later span that does not touch the last one can be appended.
proof fn lemma_normal_push(spans: Seq<(usize, usize)>, p: (usize, usize))
    requires
        normal(spans),
        p.0 < p.1,
        spans.len() > 0 ==> spans.last().1 < p.0,
    ensures
        normal(spans.push(p)),
{
    let more = spans.push(p);
    assert forall|i: int, j: int| 0 <= i < j < more.len() implies (#[trigger] more[i]).1 < (
    #[trigger] more[j]).0 by {
        if j < spans.len() {
            assert(spans[i].1 < spans[j].0);
        } else if i < spans.len() - 1 {
            assert(spans[i].1 < spans[spans.len() - 1].0);
            assert(spans[spans.len() - 1].0 < spans[spans.len() - 1].1);
        }
    }
}

/// Appending a span adds exactly its offsets.
proof fn lemma_offsets_push(spans: Seq<(usize, usize)>, p: (usize, usize))
    ensures
        offsets(spans.push(p)) == offsets(spans).union(set_int_range(p.0 as int, p.1 as int)),
{
    let more = spans.push(p);
    assert forall|x: int| in_spans(more, x) <==> in_spans(spans, x) || p.0 <= x < p.1 by {
        if in_spans(spans, x) {
            let i = choose|i: int|
                0 <= i < spans.len() && (#[trigger] spans[i]).0 <= x < spans[i].1;
            assert(more[i] == spans[i]);
        }
        if p.0 <= x < p.1 {
            assert(more[spans.len() as int] == p);
        }
        if in_spans(more, x) {
            let i = choose|i: int| 0 <= i < more.len() && (#[trigger] more[i]).0 <= x < more[i].1;
            if i < spans.len() {
                assert(more[i] == spans[i]);
            }
        }
    }
    assert(offsets(more) =~= offsets(spans).union(set_int_range(p.0 as int, p.1 as int)));
}

/// A span added to a set opens at most one more run.
pub proof fn lemma_a_span_opens_at_most_one_run(s: Set<int>, start: int, end: int)
    requires
        s.finite(),
    ensures
        run_count(s.union(set_int_range(start, end))) <= run_count(s) + 1,
{
    let more = s.union(set_int_range(start, end));
    let starts = run_starts(s).insert(start);
    assert forall|x: int| run_starts(more).contains(x) implies starts.contains(x) by {
        if x != start {
            assert(!more.contains(x - 1));
        }
    }
    lemma_len_subset(run_starts(more), starts);
}

/// Normal spans are the maximal runs of the offsets they cover.
pub proof fn lemma_run_count(spans: Seq<(usize, usize)>)
    requires
        normal(spans),
    ensures
        run_count(offsets(spans)) == spans.len(),
{
    let s = offsets(spans);
    let starts = Seq::new(spans.len(), |i: int| spans[i].0 as int);
    assert forall|x: int| run_starts(s).contains(x) <==> starts.to_set().contains(x) by {
        if run_starts(s).contains(x) {
            let i = choose|i: int|
                0 <= i < spans.len() && (#[trigger] spans[i]).0 <= x < spans[i].1;
            if spans[i].0 < x {
                assert(spans[i].0 <= x - 1 < spans[i].1);
                assert(in_spans(spans, x - 1));
            }
            assert(starts[i] == x);
        }
        if starts.to_set().contains(x) {
            let i = choose|i: int| 0 <= i < starts.len() && starts[i] == x;
            assert(spans[i].0 <= x < spans[i].1);
            if in_spans(spans, x - 1) {
                let j = choose|j: int|
                    0 <= j < spans.len() && (#[trigger] spans[j]).0 <= x - 1 < spans[j].1;
                if j < i {
                    assert(spans[j].1 < spans[i].0);
                } else if i < j {
                    assert(spans[i].1 < spans[j].0);
                }
            }
        }
    }
    assert(run_starts(s) =~= starts.to_set());
    assert(starts.no_duplicates()) by {
        assert forall|i: int, j: int| 0 <= i < j < starts.len() implies starts[i] != starts[j] by {
            assert(spans[i].1 < spans[j].0);
            assert(spans[i].0 < spans[i].1);
        }
    }
    starts.unique_seq_to_set();
}

/// The offsets covered are those that lie in some span, and a run begins where the offset before is
/// not covered.
pub proof fn lemma_what_is_covered(r: ReceivedRanges, s: Set<int>, x: int)
    ensures
        r@.contains(x) <==> exists|i: int|
            0 <= i < r.spans@.len() && (#[trigger] r.spans@[i]).0 <= x < r.spans@[i].1,
        run_starts(s).contains(x) <==> s.contains(x) && !s.contains(x - 1),
        run_count(s) == run_starts(s).len(),
{
    assert(r@.contains(x) == in_spans(r.spans@, x));
}

} // verus!
