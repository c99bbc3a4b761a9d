//! Builds the mind-map graph from a snapshot of the topic store: one node per
//! distinct cumulative prefix path, an edge from each node's parent prefix,
//! and each topic's value on the node whose path is that topic.
use vstd::prelude::*;
use crate::graph::{Topology, topo_node_count, topo_edges, topo_new, topo_add_node, topo_add_edge};
use crate::store::{TopicEntry, TopicStore, has_topic, lemma_index_of};
use crate::topic::{
    last_slash, level_of, label_of, has_parent, parent_of, is_boundary, is_prefix_path,
    all_prefixes, lemma_last_slash_step, lemma_last_slash_bounds, lemma_parent_of_prefix,
};

verus! {

/// One node of the graph: its cumulative path, last segment, depth and, for a
/// node whose path is a topic, that topic's value (else empty).
pub struct NodeData {
    pub path: String,
    pub label: String,
    pub level: usize,
    pub value: String,
}

/// The graph of one drawing: node data by node index, and the topology.
pub struct MindGraph {
    pub nodes: Vec<NodeData>,
    pub topology: Topology,
}

/// Some node of `nodes` has path `p`.
pub open spec fn has_path(nodes: Seq<NodeData>, p: Seq<char>) -> bool {
    exists|j: int| 0 <= j < nodes.len() && #[trigger] nodes[j].path@ == p
}

/// `p` is a cumulative prefix of one of the first `upto` topics of `s`.
pub open spec fn in_prefixes(s: Seq<TopicEntry>, upto: int, p: Seq<char>) -> bool {
    exists|e: int| 0 <= e < upto && #[trigger] is_prefix_path(s[e].topic@, p)
}

/// `p` is a cumulative prefix of `t` that ends before position `i`.
pub open spec fn in_partial(t: Seq<char>, i: int, p: Seq<char>) -> bool {
    exists|k: int| #[trigger] is_boundary(t, k) && k < i && p == t.subrange(0, k)
}

/// The value a node with path `p` carries, given the first `upto` topics of `s`.
pub open spec fn value_for(s: Seq<TopicEntry>, upto: int, p: Seq<char>, v: Seq<char>) -> bool {
    (exists|e: int| 0 <= e < upto && #[trigger] s[e].topic@ == p && v == s[e].value@)
    || ((forall|e: int| 0 <= e < upto ==> #[trigger] s[e].topic@ != p) && v == Seq::<char>::empty())
}

/// The edges of a tree on the path set `ps`: from each path's parent to it.
pub open spec fn tree_edges(ps: Set<Seq<char>>) -> Set<(Seq<char>, Seq<char>)> {
    Set::new(|e: (Seq<char>, Seq<char>)| ps.contains(e.1) && has_parent(e.1) && e.0 == parent_of(e.1))
}

/// Total size of the topics of `s`, one more per topic: bounds the node count.
pub open spec fn topic_weight(s: Seq<TopicEntry>) -> nat
    decreases s.len(),
{
    if s.len() == 0 {
        0
    } else {
        topic_weight(s.drop_last()) + s.last().topic@.len() + 1
    }
}

proof fn lemma_weight_prefix(s: Seq<TopicEntry>, k: int)
    requires
        0 <= k < s.len(),
    ensures
        topic_weight(s.subrange(0, k + 1)) == topic_weight(s.subrange(0, k)) + s[k].topic@.len() + 1,
        topic_weight(s.subrange(0, k + 1)) <= topic_weight(s),
    decreases s.len() - k,
{
    assert(s.subrange(0, k + 1).drop_last() =~= s.subrange(0, k));
    if k + 1 < s.len() {
        lemma_weight_prefix(s, k + 1);
    } else {
        assert(s.subrange(0, k + 1) =~= s);
    }
}


proof fn lemma_partial_step(t: Seq<char>, i: int, q: Seq<char>)
    requires
        0 <= i <= t.len(),
    ensures
        in_partial(t, i + 1, q) == (in_partial(t, i, q) || (is_boundary(t, i) && q == t.subrange(0, i))),
{
    if in_partial(t, i + 1, q) {
        let k = choose|k: int| #[trigger] is_boundary(t, k) && k < i + 1 && q == t.subrange(0, k);
        if k < i {
            assert(is_boundary(t, k) && k < i && q == t.subrange(0, k));
        }
    }
    if in_partial(t, i, q) {
        let k = choose|k: int| #[trigger] is_boundary(t, k) && k < i && q == t.subrange(0, k);
        assert(is_boundary(t, k) && k < i + 1 && q == t.subrange(0, k));
    }
    if is_boundary(t, i) && q == t.subrange(0, i) {
        assert(is_boundary(t, i) && i < i + 1 && q == t.subrange(0, i));
    }
}

proof fn lemma_partial_step_all(t: Seq<char>, i: int)
    requires
        0 <= i <= t.len(),
    ensures
        forall|q: Seq<char>| #[trigger] in_partial(t, i + 1, q) == (in_partial(t, i, q) || (is_boundary(t, i) && q == t.subrange(0, i))),
{
    assert forall|q: Seq<char>| #[trigger] in_partial(t, i + 1, q) == (in_partial(t, i, q) || (is_boundary(t, i) && q == t.subrange(0, i))) by {
        lemma_partial_step(t, i, q);
    }
}

proof fn lemma_topic_step(s: Seq<TopicEntry>, e: int, q: Seq<char>)
    requires
        0 <= e < s.len(),
    ensures
        (in_prefixes(s, e, q) || in_partial(s[e].topic@, s[e].topic@.len() as int + 1, q)) == in_prefixes(s, e + 1, q),
{
    let t = s[e].topic@;
    if in_partial(t, t.len() as int + 1, q) {
        let k = choose|k: int| #[trigger] is_boundary(t, k) && k < t.len() + 1 && q == t.subrange(0, k);
        assert(is_prefix_path(t, q));
    }
    if in_prefixes(s, e + 1, q) {
        let f = choose|f: int| 0 <= f < e + 1 && #[trigger] is_prefix_path(s[f].topic@, q);
        if f == e {
            let k = choose|k: int| #[trigger] is_boundary(t, k) && q == t.subrange(0, k);
            assert(is_boundary(t, k) && k < t.len() + 1 && q == t.subrange(0, k));
        }
    }
}

proof fn lemma_built(store: &TopicStore, g: &MindGraph)
    requires
        store.wf(),
        g.wf(),
        forall|p: Seq<char>| #[trigger] has_path(g.nodes@, p) == in_prefixes(store.entries@, store.entries@.len() as int, p),
        forall|j: int| 0 <= j < g.nodes@.len() ==>
            value_for(store.entries@, store.entries@.len() as int, #[trigger] g.nodes@[j].path@, g.nodes@[j].value@),
    ensures
        g.built_from(store),
{
    let s = store.entries@;
    let dom = store.values().dom();
    assert forall|p: Seq<char>| g.path_set().contains(p) == all_prefixes(dom).contains(p) by {
        if has_path(g.nodes@, p) {
            let e = choose|e: int| 0 <= e < s.len() && #[trigger] is_prefix_path(s[e].topic@, p);
            assert(has_topic(s, s[e].topic@));
            assert(dom.contains(s[e].topic@));
        }
        if all_prefixes(dom).contains(p) {
            let t = choose|t: Seq<char>| dom.contains(t) && #[trigger] is_prefix_path(t, p);
            let e = choose|e: int| 0 <= e < s.len() && #[trigger] s[e].topic@ == t;
            assert(in_prefixes(s, s.len() as int, p));
        }
    }
    assert(g.path_set() =~= all_prefixes(dom));
    assert forall|j: int| 0 <= j < g.nodes@.len() implies #[trigger] g.nodes@[j].value@ == (
        if store.values().contains_key(g.nodes@[j].path@) {
            store.values()[g.nodes@[j].path@]
        } else {
            Seq::<char>::empty()
        }) by {
        let q = g.nodes@[j].path@;
        assert(value_for(s, s.len() as int, q, g.nodes@[j].value@));
        if exists|e: int| 0 <= e < s.len() && #[trigger] s[e].topic@ == q && g.nodes@[j].value@ == s[e].value@ {
            let e = choose|e: int| 0 <= e < s.len() && #[trigger] s[e].topic@ == q && g.nodes@[j].value@ == s[e].value@;
            lemma_index_of(s, e);
        } else {
            assert(!has_topic(s, q));
        }
    }
}

/// In a well-formed graph the edges, read as paths, are exactly the tree edges
/// of its path set.
pub proof fn lemma_edges_are_tree_edges(g: &MindGraph)
    requires
        g.wf(),
    ensures
        g.edge_paths() == tree_edges(g.path_set()),
{
    let n = g.nodes@;
    let es = topo_edges(g.topology);
    assert forall|e: (Seq<char>, Seq<char>)| g.edge_paths().contains(e) implies tree_edges(g.path_set()).contains(e) by {
        let x = choose|x: int| 0 <= x < es.len() && e.0 == n[#[trigger] es[x].0 as int].path@ && e.1 == n[es[x].1 as int].path@;
        let (a, b) = es[x];
        assert(has_path(n, n[b as int].path@));
    }
    assert forall|e: (Seq<char>, Seq<char>)| tree_edges(g.path_set()).contains(e) implies g.edge_paths().contains(e) by {
        let j = choose|j: int| 0 <= j < n.len() && #[trigger] n[j].path@ == e.1;
        let x = choose|x: int| 0 <= x < es.len() && #[trigger] es[x].1 == j;
        let (a, b) = es[x];
        assert(e.0 == n[es[x].0 as int].path@ && e.1 == n[es[x].1 as int].path@);
    }
    assert(g.edge_paths() =~= tree_edges(g.path_set()));
}

/// The number of nodes built is the number of distinct cumulative prefixes
/// over all topics, however many segments the topics share.
pub proof fn lemma_node_count(store: &TopicStore, g: &MindGraph)
    requires
        store.wf(),
        g.built_from(store),
    ensures
        all_prefixes(store.values().dom()).finite(),
        g.nodes@.len() == all_prefixes(store.values().dom()).len(),
{
    let n = g.nodes@;
    let f = |i: int| n[i].path@;
    let dom = vstd::set_lib::set_int_range(0, n.len() as int);
    vstd::set_lib::lemma_int_range(0, n.len() as int);
    assert forall|a: int, b: int| dom.contains(a) && dom.contains(b) && #[trigger] f(a) == #[trigger] f(b) implies a == b by {}
    vstd::set_lib::lemma_map_size(dom, dom.map(f), f);
    assert forall|p: Seq<char>| g.path_set().contains(p) implies dom.map(f).contains(p) by {
        let i = choose|i: int| 0 <= i < n.len() && #[trigger] n[i].path@ == p;
        assert(dom.contains(i) && f(i) == p);
    }
    assert(g.path_set() =~= dom.map(f));
}

/// A node's value is the latest value of the topic equal to its path, and
/// empty where its path is no topic.
pub proof fn lemma_leaf_value(store: &TopicStore, g: &MindGraph, j: int)
    requires
        g.built_from(store),
        0 <= j < g.nodes@.len(),
    ensures
        store.values().contains_key(g.nodes@[j].path@) ==> g.nodes@[j].value@ == store.values()[g.nodes@[j].path@],
        !store.values().contains_key(g.nodes@[j].path@) ==> g.nodes@[j].value@ == Seq::<char>::empty(),
{
}

/// Two graphs built from the same snapshot have the same nodes, the same
/// edges and the same values; only node indices may differ.
pub proof fn lemma_build_idempotent(store: &TopicStore, g1: &MindGraph, g2: &MindGraph)
    requires
        store.wf(),
        g1.built_from(store),
        g2.built_from(store),
    ensures
        g1.path_set() == g2.path_set(),
        g1.edge_paths() == g2.edge_paths(),
        g1.value_map() == g2.value_map(),
{
    lemma_edges_are_tree_edges(g1);
    lemma_edges_are_tree_edges(g2);
    assert forall|p: Seq<char>| #[trigger] g1.value_map().contains_key(p) implies g1.value_map()[p] == g2.value_map()[p] by {
        let a = choose|a: int| 0 <= a < g1.nodes@.len() && #[trigger] g1.nodes@[a].path@ == p;
        assert(g2.path_set().contains(p));
        let b = choose|b: int| 0 <= b < g2.nodes@.len() && #[trigger] g2.nodes@[b].path@ == p;
    }
    assert(g1.value_map() =~= g2.value_map());
}

impl MindGraph {
    /// The node paths.
    pub open spec fn path_set(&self) -> Set<Seq<char>> {
        Set::new(|p: Seq<char>| has_path(self.nodes@, p))
    }

    /// The edges, as (parent path, child path).
    pub open spec fn edge_paths(&self) -> Set<(Seq<char>, Seq<char>)> {
        Set::new(|e: (Seq<char>, Seq<char>)| exists|x: int|
            0 <= x < topo_edges(self.topology).len()
            && e.0 == self.nodes@[#[trigger] topo_edges(self.topology)[x].0 as int].path@
            && e.1 == self.nodes@[topo_edges(self.topology)[x].1 as int].path@)
    }

    /// Path to value, over all nodes.
    pub open spec fn value_map(&self) -> Map<Seq<char>, Seq<char>> {
        Map::new(|p: Seq<char>| has_path(self.nodes@, p),
            |p: Seq<char>| self.nodes@[choose|j: int| 0 <= j < self.nodes@.len() && #[trigger] self.nodes@[j].path@ == p].value@)
    }

    /// Nodes and topology agree, paths are distinct, each node's label and level
    /// are those of its path, and the edges are exactly one from the parent to
    /// each node that has a parent.
    pub open spec fn wf(&self) -> bool {
        let n = self.nodes@;
        let es = topo_edges(self.topology);
        &&& topo_node_count(self.topology) == n.len()
        &&& es.len() <= n.len()
        &&& forall|i: int, j: int|
            0 <= i < n.len() && 0 <= j < n.len() && i != j ==> #[trigger] n[i].path@ != #[trigger] n[j].path@
        &&& forall|i: int| 0 <= i < n.len() ==> #[trigger] n[i].label@ == label_of(n[i].path@)
            && n[i].level as nat == level_of(n[i].path@)
        &&& forall|x: int| 0 <= x < es.len() ==> {
            let (a, b) = #[trigger] es[x];
            &&& a < n.len() && b < n.len()
            &&& has_parent(n[b as int].path@)
            &&& n[a as int].path@ == parent_of(n[b as int].path@)
        }
        &&& forall|x: int, y: int| 0 <= x < es.len() && 0 <= y < es.len() && x != y ==> #[trigger] es[x].1 != #[trigger] es[y].1
        &&& forall|j: int| 0 <= j < n.len() && has_parent(#[trigger] n[j].path@) ==> exists|x: int| 0 <= x < es.len() && #[trigger] es[x].1 == j
    }

    /// What building from `store` gives: a well-formed graph whose paths are
    /// every cumulative prefix of every topic, and whose values are the
    /// topics' values on their own paths, empty elsewhere.
    pub open spec fn built_from(&self, store: &TopicStore) -> bool {
        &&& self.wf()
        &&& self.path_set() == all_prefixes(store.values().dom())
        &&& forall|j: int| 0 <= j < self.nodes@.len() ==> #[trigger] self.nodes@[j].value@ == (
            if store.values().contains_key(self.nodes@[j].path@) {
                store.values()[self.nodes@[j].path@]
            } else {
                Seq::<char>::empty()
            })
    }

    /// Looks a node up by path.
    pub fn find_node(&self, p: &String) -> (r: Option<usize>)
        ensures
            r matches Some(j) ==> j < self.nodes@.len() && self.nodes@[j as int].path@ == p@,
            r is None ==> !has_path(self.nodes@, p@),
    {
        let mut j: usize = 0;
        while j < self.nodes.len()
            invariant
                j <= self.nodes@.len(),
                forall|k: int| 0 <= k < j ==> #[trigger] self.nodes@[k].path@ != p@,
            decreases self.nodes@.len() - j,
        {
            let same = self.nodes[j].path.eq(p);
            if same {
                return Some(j);
            }
            j = j + 1;
        }
        None
    }
}

/// Builds the graph of a snapshot: for each topic, each cumulative prefix gets
/// a node (shared among topics), a new node gets an edge from its parent
/// prefix's node, and the topic's value is set on the node of its full path.
pub fn build_tree(store: &TopicStore) -> (g: MindGraph)
    requires
        store.wf(),
        topic_weight(store.entries@) < u32::MAX,
    ensures
        g.built_from(store),
{
    let ghost s = store.entries@;
    let mut g = MindGraph { nodes: Vec::new(), topology: topo_new() };
    let mut ei: usize = 0;
    while ei < store.entries.len()
        invariant
            s == store.entries@,
            store.wf(),
            topic_weight(s) < u32::MAX,
            0 <= ei <= s.len(),
            g.wf(),
            g.nodes@.len() <= topic_weight(s.subrange(0, ei as int)),
            forall|p: Seq<char>| #[trigger] has_path(g.nodes@, p) == in_prefixes(s, ei as int, p),
            forall|j: int| 0 <= j < g.nodes@.len() ==>
                value_for(s, ei as int, #[trigger] g.nodes@[j].path@, g.nodes@[j].value@),
        decreases s.len() - ei,
    {
        let entry = &store.entries[ei];
        let ts: &str = entry.topic.as_str();
        let ghost t = ts@;
        let len = ts.unicode_len();
        proof {
            lemma_weight_prefix(s, ei as int);
            assert(s.subrange(0, 0) =~= Seq::<TopicEntry>::empty());
            assert(t.subrange(0, 0) =~= Seq::<char>::empty());
        }
        let mut i: usize = 0;
        let mut start: usize = 0;
        let mut depth: usize = 0;
        let mut prev: Option<usize> = None;
        while i <= len
            invariant
                s == store.entries@,
                store.wf(),
                topic_weight(s) < u32::MAX,
                0 <= ei < s.len(),
                *entry == s[ei as int],
                t == s[ei as int].topic@,
                ts@ == t,
                len == t.len(),
                topic_weight(s.subrange(0, ei as int + 1)) == topic_weight(s.subrange(0, ei as int)) + len + 1,
                topic_weight(s.subrange(0, ei as int + 1)) <= topic_weight(s),
                i <= len + 1,
                g.wf(),
                g.nodes@.len() <= topic_weight(s.subrange(0, ei as int)) + i,
                i <= len ==> start as int == last_slash(t.subrange(0, i as int)) + 1,
                i <= len ==> depth as nat == level_of(t.subrange(0, i as int)),
                start <= i,
                depth <= i,
                i <= len && start > 0 ==> (prev matches Some(pi) && pi < g.nodes@.len()
                    && g.nodes@[pi as int].path@ == t.subrange(0, start - 1)),
                forall|p: Seq<char>| #[trigger] has_path(g.nodes@, p)
                    == (in_prefixes(s, ei as int, p) || in_partial(t, i as int, p)),
                forall|j: int| 0 <= j < g.nodes@.len() ==>
                    value_for(s, if i > len { ei + 1 } else { ei as int }, #[trigger] g.nodes@[j].path@, g.nodes@[j].value@),
            decreases len + 1 - i,
        {
            let at_end = i == len;
            let is_sep = if at_end { false } else { ts.get_char(i) == '/' };
            let ghost n0 = g.nodes@;
            let ghost es0 = topo_edges(g.topology);
            if at_end || is_sep {
                let p: String = ts.substring_char(0, i).to_owned();
                assert(p@ == t.subrange(0, i as int));
                let found = g.find_node(&p);
                let idx: usize;
                match found {
                    Some(j) => {
                        idx = j;
                        if at_end {
                            let nd = NodeData {
                                path: g.nodes[j].path.clone(),
                                label: g.nodes[j].label.clone(),
                                level: g.nodes[j].level,
                                value: entry.value.clone(),
                            };
                            g.nodes.set(j, nd);
                            proof {
                                assert(t.subrange(0, i as int) =~= t);
                                assert forall|q: Seq<char>| #[trigger] has_path(g.nodes@, q) == has_path(n0, q) by {
                                    if has_path(n0, q) {
                                        let w = choose|w: int| 0 <= w < n0.len() && #[trigger] n0[w].path@ == q;
                                        assert(g.nodes@[w].path@ == q);
                                    }
                                    if has_path(g.nodes@, q) {
                                        let w = choose|w: int| 0 <= w < g.nodes@.len() && #[trigger] g.nodes@[w].path@ == q;
                                        assert(n0[w].path@ == q);
                                    }
                                }
                                assert forall|w: int| 0 <= w < g.nodes@.len() implies
                                    value_for(s, ei + 1, #[trigger] g.nodes@[w].path@, g.nodes@[w].value@) by {
                                    if w == j {
                                        assert(s[ei as int].topic@ == g.nodes@[w].path@);
                                    } else {
                                        assert(n0[w].path@ != n0[j as int].path@);
                                        assert(value_for(s, ei as int, n0[w].path@, n0[w].value@));
                                    }
                                }
                            }
                        }
                    }
                    None => {
                        let label = ts.substring_char(start, i).to_owned();
                        let value = if at_end { entry.value.clone() } else { String::new() };
                        proof {
                            lemma_last_slash_bounds(t.subrange(0, i as int));
                            assert(label@ =~= label_of(p@));
                        }
                        let nd = NodeData { path: p, label, level: depth, value };
                        let k = topo_add_node(&mut g.topology);
                        g.nodes.push(nd);
                        if start > 0 {
                            match prev {
                                Some(pi) => {
                                    topo_add_edge(&mut g.topology, pi, k);
                                    proof {
                                        lemma_parent_of_prefix(t, i as int);
                                    }
                                },
                                None => {},
                            }
                        }
                        idx = k;
                        proof {
                            let n1 = g.nodes@;
                            let es1 = topo_edges(g.topology);
                            let pp = t.subrange(0, i as int);
                            assert(n1.len() == n0.len() + 1);
                            assert(forall|w: int| 0 <= w < n0.len() ==> n1[w] == n0[w]);
                            assert(n1[k as int].path@ == pp);
                            assert forall|q: Seq<char>| #[trigger] has_path(n1, q) == (has_path(n0, q) || q == pp) by {
                                if has_path(n0, q) {
                                    let w = choose|w: int| 0 <= w < n0.len() && #[trigger] n0[w].path@ == q;
                                    assert(n1[w].path@ == q);
                                }
                                if has_path(n1, q) && q != pp {
                                    let w = choose|w: int| 0 <= w < n1.len() && #[trigger] n1[w].path@ == q;
                                    assert(n0[w].path@ == q);
                                }
                                if q == pp {
                                    assert(n1[k as int].path@ == q);
                                }
                            }
                            assert forall|a: int, b: int|
                                0 <= a < n1.len() && 0 <= b < n1.len() && a != b implies #[trigger] n1[a].path@ != #[trigger] n1[b].path@ by {
                                if a < k && b < k {
                                    assert(n0[a].path@ != n0[b].path@);
                                } else if a < k {
                                    assert(n0[a].path@ != pp);
                                } else {
                                    assert(n0[b].path@ != pp);
                                }
                            }
                            if start > 0 {
                                assert(es1 == es0.push((prev->0, k)));
                                assert(has_parent(pp));
                                assert(exists|x: int| 0 <= x < es1.len() && #[trigger] es1[x].1 == k) by {
                                    assert(es1[es0.len() as int].1 == k);
                                }
                            } else {
                                assert(es1 == es0);
                                assert(!has_parent(pp));
                            }
                            assert forall|j: int| 0 <= j < n1.len() && has_parent(#[trigger] n1[j].path@)
                                implies exists|x: int| 0 <= x < es1.len() && #[trigger] es1[x].1 == j by {
                                if j < k {
                                    assert(n0[j].path@ == n1[j].path@);
                                    let x = choose|x: int| 0 <= x < es0.len() && #[trigger] es0[x].1 == j;
                                    assert(es1[x].1 == j);
                                }
                            }
                            assert forall|x: int, y: int| 0 <= x < es1.len() && 0 <= y < es1.len() && x != y
                                implies #[trigger] es1[x].1 != #[trigger] es1[y].1 by {
                                if x < es0.len() && y < es0.len() {
                                    assert(es0[x].1 != es0[y].1);
                                } else if x < es0.len() {
                                    assert(es0[x].1 < k);
                                } else {
                                    assert(es0[y].1 < k);
                                }
                            }
                            assert forall|x: int| 0 <= x < es1.len() implies {
                                let (a, b) = #[trigger] es1[x];
                                &&& a < n1.len() && b < n1.len()
                                &&& has_parent(n1[b as int].path@)
                                &&& n1[a as int].path@ == parent_of(n1[b as int].path@)
                            } by {
                                if x < es0.len() {
                                    assert(es1[x] == es0[x]);
                                    let (a, b) = es0[x];
                                    assert(a < n0.len() && b < n0.len());
                                    assert(n1[a as int] == n0[a as int]);
                                    assert(n1[b as int] == n0[b as int]);
                                }
                            }
                            assert(g.wf());
                            let rr = if i > len { ei + 1 } else { ei as int };
                            let r2 = if i + 1 > len { ei + 1 } else { ei as int };
                            if at_end {
                                assert(pp =~= t);
                                assert(value_for(s, ei + 1, n1[k as int].path@, n1[k as int].value@)) by {
                                    assert(s[ei as int].topic@ == pp);
                                }
                            } else {
                                assert forall|e: int| 0 <= e < ei implies #[trigger] s[e].topic@ != pp by {
                                    if s[e].topic@ == pp {
                                        assert(is_boundary(s[e].topic@, pp.len() as int));
                                        assert(s[e].topic@.subrange(0, pp.len() as int) =~= pp);
                                        assert(is_prefix_path(s[e].topic@, pp));
                                        assert(in_prefixes(s, ei as int, pp));
                                    }
                                }
                            }
                            assert forall|w: int| 0 <= w < n1.len() implies
                                value_for(s, r2, #[trigger] n1[w].path@, n1[w].value@) by {
                                if w < k {
                                    assert(n1[w] == n0[w]);
                                    assert(value_for(s, rr, n0[w].path@, n0[w].value@));
                                    if at_end {
                                        assert(n0[w].path@ != t);
                                    }
                                }
                            }
                        }
                    }
                }
                prev = Some(idx);
            }
            proof {
                lemma_partial_step_all(t, i as int);
                if i < len {
                    lemma_last_slash_step(t, i as int);
                }
                if !(at_end || is_sep) {
                    assert(!is_boundary(t, i as int));
                }
            }
            if is_sep {
                start = i + 1;
                depth = depth + 1;
            }
            i = i + 1;
        }
        proof {
            assert forall|q: Seq<char>| #[trigger] has_path(g.nodes@, q) == in_prefixes(s, ei + 1, q) by {
                lemma_topic_step(s, ei as int, q);
            }
        }
        ei = ei + 1;
    }
    proof {
        lemma_built(store, &g);
    }
    g
}

} // verus!
