//! Topic paths: `/`-separated segments, their cumulative prefixes, depth,
//! label and parent.
use vstd::prelude::*;

verus! {

/// Position of the last separator in `p`, or -1 when there is none.
pub open spec fn last_slash(p: Seq<char>) -> int
    decreases p.len(),
{
    if p.len() == 0 {
        -1
    } else if p.last() == '/' {
        p.len() - 1
    } else {
        last_slash(p.drop_last())
    }
}

/// Depth of a path (0 for a root segment): the number of separators in it.
pub open spec fn level_of(p: Seq<char>) -> nat
    decreases p.len(),
{
    if p.len() == 0 {
        0
    } else {
        level_of(p.drop_last()) + if p.last() == '/' { 1nat } else { 0nat }
    }
}

/// The last segment of a path.
pub open spec fn label_of(p: Seq<char>) -> Seq<char> {
    p.subrange(last_slash(p) + 1, p.len() as int)
}

/// A path has a parent when it holds a separator.
pub open spec fn has_parent(p: Seq<char>) -> bool {
    last_slash(p) >= 0
}

/// The path without its last segment.
pub open spec fn parent_of(p: Seq<char>) -> Seq<char> {
    p.subrange(0, last_slash(p))
}

/// `k` is where a segment of `t` ends.
pub open spec fn is_boundary(t: Seq<char>, k: int) -> bool {
    0 <= k <= t.len() && (k == t.len() || t[k] == '/')
}

/// `p` is one of the cumulative prefixes of topic `t` (`t` itself included).
pub open spec fn is_prefix_path(t: Seq<char>, p: Seq<char>) -> bool {
    exists|k: int| #[trigger] is_boundary(t, k) && p == t.subrange(0, k)
}

/// Every cumulative prefix of every topic in `topics`.
pub open spec fn all_prefixes(topics: Set<Seq<char>>) -> Set<Seq<char>> {
    Set::new(|p: Seq<char>| exists|t: Seq<char>| topics.contains(t) && #[trigger] is_prefix_path(t, p))
}

pub proof fn lemma_last_slash_step(t: Seq<char>, k: int)
    requires
        0 <= k < t.len(),
    ensures
        last_slash(t.subrange(0, k + 1)) == if t[k] == '/' { k } else { last_slash(t.subrange(0, k)) },
        level_of(t.subrange(0, k + 1)) == level_of(t.subrange(0, k)) + if t[k] == '/' { 1nat } else { 0nat },
{
    assert(t.subrange(0, k + 1).drop_last() =~= t.subrange(0, k));
}

/// `last_slash` lies before the end and, where it is not -1, points at a separator
/// after which none follows.
pub proof fn lemma_last_slash_bounds(p: Seq<char>)
    ensures
        -1 <= last_slash(p) < p.len(),
        last_slash(p) >= 0 ==> p[last_slash(p)] == '/',
        forall|j: int| last_slash(p) < j < p.len() ==> p[j] != '/',
    decreases p.len(),
{
    if p.len() > 0 && p.last() != '/' {
        lemma_last_slash_bounds(p.drop_last());
        assert forall|j: int| last_slash(p) < j < p.len() implies p[j] != '/' by {
            if j < p.len() - 1 {
                assert(p.drop_last()[j] == p[j]);
            }
        }
    }
}

/// The parent of a prefix of `t` is again a prefix of `t`, one segment shorter.
pub proof fn lemma_parent_of_prefix(t: Seq<char>, k: int)
    requires
        is_boundary(t, k),
        has_parent(t.subrange(0, k)),
    ensures
        is_boundary(t, last_slash(t.subrange(0, k))),
        last_slash(t.subrange(0, k)) < k,
        parent_of(t.subrange(0, k)) == t.subrange(0, last_slash(t.subrange(0, k))),
{
    let p = t.subrange(0, k);
    lemma_last_slash_bounds(p);
    assert(parent_of(p) =~= t.subrange(0, last_slash(p)));
}

} // verus!
