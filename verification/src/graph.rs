//! The in-memory revision-graph model that the reconstruction runs on: each
//! commit with its first parent, one-line summary, hash and changed paths,
//! plus the tag namespace and the current tip.
//!
//! Commits are indexed so that a commit's first parent always has a smaller
//! index; every first-parent walk therefore terminates.

use vstd::prelude::*;

use crate::bytes::dedup_bytes;
use crate::bytes::dedup_spec;
use crate::bytes::ends_with;

verus! {

/// One commit: its identity, text, first parent and recorded diff.
#[derive(Debug, Clone)]
pub struct CommitNode {
    /// The commit's hash, rendered in hexadecimal.
    pub hash: Vec<u8>,
    /// The commit's one-line summary.
    pub summary: Vec<u8>,
    /// Index of the first parent, absent for a root of history.
    pub parent: Option<usize>,
    /// Paths changed between the first parent's tree and this commit's tree,
    /// pre-image and post-image names both, possibly with repetitions.
    pub changed_paths: Vec<Vec<u8>>,
}

/// A read-only snapshot of the revision graph, restricted to what the
/// reconstruction reads.
#[derive(Debug, Clone)]
pub struct RevisionGraph {
    pub commits: Vec<CommitNode>,
    /// Full ref name of each tag, with the commit it finally points to, in a
    /// stable enumeration order.
    pub tags: Vec<(Vec<u8>, usize)>,
    /// Index of the commit the repository's head points to.
    pub tip: usize,
}

impl RevisionGraph {
    /// Well-formedness: parents stand strictly before their children, tags
    /// and the tip point into the commit list, and a root commit records no
    /// changed paths.
    pub open spec fn wf(&self) -> bool {
        &&& forall|i: int|
            0 <= i < self.commits@.len() ==> match #[trigger] self.commits@[i].parent {
                Some(p) => (p as int) < i,
                None => self.commits@[i].changed_paths@.len() == 0,
            }
        &&& forall|t: int| 0 <= t < self.tags@.len() ==> (self.tags@[t].1 as int) < self.commits@.len()
        &&& (self.tip as int) < self.commits@.len()
    }
}

/// The commit the tag name resolves to: the first tag, in enumeration
/// order, whose full ref name ends with the requested name.
pub open spec fn resolve_idx(g: RevisionGraph, name: Seq<u8>, t: int) -> Option<usize>
    decreases g.tags@.len() - t,
{
    if t < 0 || t >= g.tags@.len() {
        None
    } else if name.is_suffix_of(g.tags@[t].0@) {
        Some(g.tags@[t].1)
    } else {
        resolve_idx(g, name, t + 1)
    }
}

pub open spec fn resolve_spec(g: RevisionGraph, name: Seq<u8>) -> Option<usize> {
    resolve_idx(g, name, 0)
}

/// The first-parent range from `end` back to `start`, both included, newest
/// first; absent when `start` is not a first-parent ancestor of `end`.
pub open spec fn range_spec(g: RevisionGraph, end: usize, start: usize) -> Option<Seq<usize>>
    decreases end,
{
    if end >= g.commits@.len() {
        None
    } else if end == start {
        Some(seq![end])
    } else {
        match g.commits@[end as int].parent {
            Some(p) => if p < end {
                match range_spec(g, p, start) {
                    Some(rest) => Some(seq![end] + rest),
                    None => None,
                }
            } else {
                None
            },
            None => None,
        }
    }
}

pub open spec fn prepend_opt(prefix: Seq<usize>, rest: Option<Seq<usize>>) -> Option<Seq<usize>> {
    match rest {
        Some(r) => Some(prefix + r),
        None => None,
    }
}

/// The set of changed file paths of one commit, each path once; a root
/// commit yields no paths.
pub open spec fn changed_files_spec(g: RevisionGraph, i: int) -> Seq<Seq<u8>> {
    dedup_spec(g.commits@[i].changed_paths.deep_view())
}

/// The failure of a range collection.
#[derive(Clone, Copy, Debug, PartialEq, Eq, Structural)]
pub enum RangeError {
    /// `start` is not a first-parent ancestor of `end`.
    RangeNotReachable,
}

impl RevisionGraph {
    /// Resolves a version tag name to the commit it marks: the first tag
    /// whose full ref name ends with `name` wins, so resolution is
    /// deterministic for one graph state. Absence is a probe result, not an
    /// error.
    pub fn resolve_tag(&self, name: &Vec<u8>) -> (r: Option<usize>)
        ensures
            r == resolve_spec(*self, name@),
    {
        let mut t: usize = 0;
        while t < self.tags.len()
            invariant
                t <= self.tags@.len(),
                resolve_idx(*self, name@, t as int) == resolve_spec(*self, name@),
            decreases self.tags@.len() - t,
        {
            if ends_with(&self.tags[t].0, name) {
                return Some(self.tags[t].1);
            }
            t += 1;
        }
        None
    }

    /// Walks the first-parent lineage from `end` until `start`, collecting
    /// the commits passed, both boundaries included, newest first. Fails
    /// with `RangeNotReachable`, rather than walking unboundedly, exactly
    /// when `start` is not a first-parent ancestor of `end`.
    pub fn collect_range(&self, end: usize, start: usize) -> (r: Result<Vec<usize>, RangeError>)
        requires
            self.wf(),
            (end as int) < self.commits@.len(),
        ensures
            r matches Ok(v) ==> range_spec(*self, end, start) == Some(v@),
            r is Err <==> range_spec(*self, end, start) is None,
    {
        let mut out: Vec<usize> = Vec::new();
        let mut cur: usize = end;
        loop
            invariant
                self.wf(),
                (cur as int) < self.commits@.len(),
                range_spec(*self, end, start) == prepend_opt(out@, range_spec(*self, cur, start)),
            decreases cur,
        {
            if cur == start {
                let ghost prev = out@;
                out.push(cur);
                proof {
                    assert(range_spec(*self, cur, start) == Some(seq![cur]));
                    assert(prev + seq![cur] =~= out@);
                }
                return Ok(out);
            }
            let parent = self.commits[cur].parent;
            match parent {
                None => {
                    return Err(RangeError::RangeNotReachable);
                },
                Some(p) => {
                    proof {
                        assert((p as int) < cur as int);
                    }
                    let ghost prev = out@;
                    out.push(cur);
                    proof {
                        match range_spec(*self, p, start) {
                            Some(rest) => {
                                assert(prev + (seq![cur] + rest) =~= (prev.push(cur)) + rest);
                            },
                            None => {},
                        }
                    }
                    cur = p;
                },
            }
        }
    }

    /// The changed file paths of one commit, deduplicated; a root commit
    /// (no first parent) yields the empty set.
    pub fn changed_files(&self, idx: usize) -> (r: Vec<Vec<u8>>)
        requires
            self.wf(),
            (idx as int) < self.commits@.len(),
        ensures
            r.deep_view() == changed_files_spec(*self, idx as int),
            self.commits@[idx as int].parent is None ==> r.deep_view().len() == 0,
    {
        dedup_bytes(&self.commits[idx].changed_paths)
    }
}

/// Under well-formedness, whatever a tag resolves to lies in the commit
/// list.
pub proof fn lemma_resolve_in_bounds(g: RevisionGraph, name: Seq<u8>, t: int)
    requires
        g.wf(),
        0 <= t,
    ensures
        resolve_idx(g, name, t) matches Some(i) ==> (i as int) < g.commits@.len(),
    decreases g.tags@.len() - t,
{
    if t < g.tags@.len() && !name.is_suffix_of(g.tags@[t].0@) {
        lemma_resolve_in_bounds(g, name, t + 1);
    }
}

/// A collected range runs strictly newest to oldest: indices strictly
/// decrease, the range starts at `end` and ends at `start`.
pub proof fn lemma_range_shape(g: RevisionGraph, end: usize, start: usize)
    requires
        range_spec(g, end, start) is Some,
    ensures
        range_spec(g, end, start).unwrap().len() >= 1,
        range_spec(g, end, start).unwrap().first() == end,
        range_spec(g, end, start).unwrap().last() == start,
        forall|i: int, j: int|
            0 <= i < j < range_spec(g, end, start).unwrap().len() ==> range_spec(
                g,
                end,
                start,
            ).unwrap()[i] > range_spec(g, end, start).unwrap()[j],
    decreases end,
{
    let v = range_spec(g, end, start).unwrap();
    if end != start {
        let p = g.commits@[end as int].parent.unwrap();
        lemma_range_shape(g, p, start);
        let rest = range_spec(g, p, start).unwrap();
        assert(v == seq![end] + rest);
        assert(v.last() == rest.last());
        assert forall|i: int, j: int| 0 <= i < j < v.len() implies v[i] > v[j] by {
            if i == 0 {
                if j >= 1 {
                    assert(v[j] == rest[j - 1]);
                    if j - 1 > 0 {
                        assert(rest[0] > rest[j - 1]);
                    }
                    assert(rest[0] == p);
                }
            } else {
                assert(v[i] == rest[i - 1]);
                assert(v[j] == rest[j - 1]);
            }
        }
    }
}

/// Both endpoints of a collected range occur exactly once, every
/// intermediate commit occurs exactly once, and reversing the collected
/// order yields strictly ascending, chronological, order.
pub proof fn lemma_range_endpoints_once(g: RevisionGraph, end: usize, start: usize)
    requires
        range_spec(g, end, start) is Some,
    ensures
        range_spec(g, end, start).unwrap().contains(end),
        range_spec(g, end, start).unwrap().contains(start),
        forall|i: int, j: int|
            0 <= i < j < range_spec(g, end, start).unwrap().len() ==> range_spec(
                g,
                end,
                start,
            ).unwrap()[i] != range_spec(g, end, start).unwrap()[j],
        forall|i: int, j: int|
            0 <= i < j < range_spec(g, end, start).unwrap().len() ==> range_spec(
                g,
                end,
                start,
            ).unwrap().reverse()[i] < range_spec(g, end, start).unwrap().reverse()[j],
{
    lemma_range_shape(g, end, start);
    let v = range_spec(g, end, start).unwrap();
    assert(v[0] == end);
    assert(v[v.len() - 1] == start);
    assert(v.contains(end));
    assert(v.contains(start));
    assert forall|i: int, j: int| 0 <= i < j < v.len() implies v.reverse()[i] < v.reverse()[j] by {
        assert(v.reverse()[i] == v[v.len() - 1 - i]);
        assert(v.reverse()[j] == v[v.len() - 1 - j]);
    }
}

} // verus!
