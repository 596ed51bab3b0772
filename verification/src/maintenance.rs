//! Raw archive maintenance: which runs of uncompacted leaves are packed into one range.
use vstd::prelude::*;

use crate::raw_segment::SequenceRange;
use crate::text::same_text;

verus! {

/// A leaf of the raw archive that is not packed yet: the partition it belongs to and the
/// local sequence range of its records.
#[derive(Debug)]
pub struct UncompactedLeaf {
    pub partition: String,
    pub range: SequenceRange,
}

/// Whether leaf `b` continues leaf `a`: the same partition, and its range starts right after
/// the end of `a`'s.
pub open spec fn linked(a: UncompactedLeaf, b: UncompactedLeaf) -> bool {
    a.partition@ == b.partition@ && a.range.end + 1 == b.range.start
}

/// The leaves split into runs, in order, each given by the index of its first leaf and its
/// number of leaves: a leaf joins the run before it when it continues that run's last leaf,
/// and starts a run of its own otherwise.
pub open spec fn runs(s: Seq<UncompactedLeaf>) -> Seq<(int, int)>
    decreases s.len(),
{
    if s.len() == 0 {
        Seq::empty()
    } else {
        let r = runs(s.drop_last());
        if s.len() > 1 && linked(s[s.len() - 2], s.last()) {
            r.update(r.len() - 1, (r.last().0, r.last().1 + 1))
        } else {
            r.push((s.len() - 1, 1))
        }
    }
}

/// The runs with the last `keep_tail` leaves of the last run held back; a last run left with
/// fewer than two leaves is dropped.
pub open spec fn trimmed(rs: Seq<(int, int)>, keep_tail: u64) -> Seq<(int, int)> {
    if keep_tail > 0 && rs.len() > 0 {
        let last = rs.last();
        let kept = if last.1 > keep_tail {
            last.1 - keep_tail
        } else {
            0
        };
        if kept < 2 {
            rs.drop_last()
        } else {
            rs.update(rs.len() - 1, (last.0, kept))
        }
    } else {
        rs
    }
}

/// The range from the first leaf of a run to its last.
pub open spec fn run_range(s: Seq<UncompactedLeaf>, g: (int, int)) -> SequenceRange {
    SequenceRange { start: s[g.0].range.start, end: s[g.0 + g.1 - 1].range.end }
}

/// The ranges to pack: the range of each run of at least two leaves, in order, up to
/// `max_ranges` of them.
pub open spec fn selected(s: Seq<UncompactedLeaf>, rs: Seq<(int, int)>, max_ranges: u64) -> Seq<SequenceRange>
    decreases rs.len(),
{
    if rs.len() == 0 {
        Seq::empty()
    } else {
        let prev = selected(s, rs.drop_last(), max_ranges);
        let g = rs.last();
        if g.1 < 2 || prev.len() >= max_ranges {
            prev
        } else {
            prev.push(run_range(s, g))
        }
    }
}

/// Every run of `runs(s)` lies within `s`, holds at least one leaf, and the last one ends
/// at the last leaf.
pub open spec fn runs_within(rs: Seq<(int, int)>, n: int) -> bool {
    &&& forall|j: int| 0 <= j < rs.len() ==> 0 <= (#[trigger] rs[j]).0 && 1 <= rs[j].1 && rs[j].0 + rs[j].1 <= n
    &&& n > 0 ==> rs.len() > 0 && rs.last().0 + rs.last().1 == n
}

pub proof fn lemma_runs_within(s: Seq<UncompactedLeaf>)
    ensures
        runs_within(runs(s), s.len() as int),
        runs(s).len() <= s.len(),
    decreases s.len(),
{
    if s.len() > 0 {
        lemma_runs_within(s.drop_last());
    }
}

proof fn lemma_trimmed_within(rs: Seq<(int, int)>, n: int, keep_tail: u64)
    requires
        runs_within(rs, n),
    ensures
        forall|j: int|
            0 <= j < trimmed(rs, keep_tail).len() ==> 0 <= (#[trigger] trimmed(rs, keep_tail)[j]).0 && 1
                <= trimmed(rs, keep_tail)[j].1 && trimmed(rs, keep_tail)[j].0 + trimmed(rs, keep_tail)[j].1 <= n,
        trimmed(rs, keep_tail).len() <= rs.len(),
{
}

/// At most `max_ranges` ranges are selected.
pub proof fn lemma_selected_len(s: Seq<UncompactedLeaf>, rs: Seq<(int, int)>, max_ranges: u64)
    ensures
        selected(s, rs, max_ranges).len() <= max_ranges,
        selected(s, rs, max_ranges).len() <= rs.len(),
    decreases rs.len(),
{
    if rs.len() > 0 {
        lemma_selected_len(s, rs.drop_last(), max_ranges);
    }
}

pub open spec fn runs_view(v: Seq<(usize, usize)>) -> Seq<(int, int)> {
    v.map_values(|p: (usize, usize)| (p.0 as int, p.1 as int))
}

fn leaf_runs(leaves: &Vec<UncompactedLeaf>) -> (r: Vec<(usize, usize)>)
    ensures
        runs_view(r@) == runs(leaves@),
{
    let mut out: Vec<(usize, usize)> = Vec::new();
    let mut i: usize = 0;
    while i < leaves.len()
        invariant
            i <= leaves.len(),
            runs_view(out@) == runs(leaves@.take(i as int)),
        decreases leaves.len() - i,
    {
        let ghost t = leaves@.take(i + 1);
        proof {
            assert(t.drop_last() =~= leaves@.take(i as int));
            lemma_runs_within(leaves@.take(i as int));
        }
        let joins = i > 0 && same_text(leaves[i - 1].partition.as_str(), leaves[i].partition.as_str())
            && leaves[i - 1].range.end < u64::MAX && leaves[i - 1].range.end + 1 == leaves[i].range.start;
        if joins {
            proof {
                assert(linked(t[t.len() - 2], t.last()));
            }
            let k = out.len() - 1;
            let (first, count) = out[k];
            out.set(k, (first, count + 1));
            proof {
                assert(runs_view(out@) =~= runs(t));
            }
        } else {
            proof {
                assert(!(t.len() > 1 && linked(t[t.len() - 2], t.last())));
            }
            out.push((i, 1));
            proof {
                assert(runs_view(out@) =~= runs(t));
            }
        }
        i = i + 1;
    }
    proof {
        assert(leaves@.take(i as int) =~= leaves@);
    }
    out
}

/// The ranges to pack in one maintenance cycle: the leaves split into runs of one partition
/// whose ranges follow each other, the last `keep_tail` leaves of the last run held back,
/// and the range of each run of at least two leaves, in order, up to `max_ranges` of them.
pub fn packable_ranges(leaves: &Vec<UncompactedLeaf>, keep_tail: u64, max_ranges: u64) -> (r: Vec<SequenceRange>)
    ensures
        r@ == selected(leaves@, trimmed(runs(leaves@), keep_tail), max_ranges),
        r@.len() <= max_ranges,
{
    let mut groups = leaf_runs(leaves);
    proof {
        lemma_runs_within(leaves@);
        assert(runs_view(groups@).len() == groups@.len());
    }
    let ghost all = runs(leaves@);
    if keep_tail > 0 && groups.len() > 0 {
        let k = groups.len() - 1;
        let (first, count) = groups[k];
        proof {
            assert(runs_view(groups@)[k as int] == (first as int, count as int));
        }
        let kept: usize = if (count as u64) > keep_tail {
            ((count as u64) - keep_tail) as usize
        } else {
            0
        };
        if kept < 2 {
            groups.pop();
            proof {
                assert(runs_view(groups@) =~= all.drop_last());
            }
        } else {
            groups.set(k, (first, kept));
            proof {
                assert(runs_view(groups@) =~= all.update(all.len() - 1, (all.last().0, kept as int)));
            }
        }
    }
    let ghost rs = trimmed(all, keep_tail);
    proof {
        assert(runs_view(groups@) == rs);
        lemma_trimmed_within(all, leaves@.len() as int, keep_tail);
    }
    let mut out: Vec<SequenceRange> = Vec::new();
    let mut j: usize = 0;
    while j < groups.len()
        invariant
            j <= groups.len(),
            runs_view(groups@) == rs,
            rs.len() == groups.len(),
            forall|m: int|
                0 <= m < rs.len() ==> 0 <= (#[trigger] rs[m]).0 && 1 <= rs[m].1 && rs[m].0 + rs[m].1 <= leaves@.len(),
            out@ == selected(leaves@, rs.take(j as int), max_ranges),
        decreases groups.len() - j,
    {
        proof {
            assert(rs.take(j + 1).drop_last() =~= rs.take(j as int));
            assert(rs[j as int] == (groups@[j as int].0 as int, groups@[j as int].1 as int));
            assert(rs[j as int].0 + rs[j as int].1 <= leaves@.len());
            lemma_selected_len(leaves@, rs.take(j as int), max_ranges);
        }
        let (first, count) = groups[j];
        proof {
            assert((first, count) == groups@[j as int]);
            assert(first + count <= leaves@.len());
            assert(leaves@.len() == leaves.len());
        }
        if count >= 2 && (out.len() as u64) < max_ranges {
            let last_index: usize = first + (count - 1);
            out.push(SequenceRange { start: leaves[first].range.start, end: leaves[last_index].range.end });
        }
        proof {
            assert(out@ =~= selected(leaves@, rs.take(j + 1), max_ranges));
        }
        j = j + 1;
    }
    proof {
        assert(rs.take(j as int) =~= rs);
        lemma_selected_len(leaves@, rs, max_ranges);
    }
    out
}

} // verus!
