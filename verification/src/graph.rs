//! The typed component graph built after expansion: nodes are sources,
//! transforms and sinks; an edge runs from a producer to every consumer
//! whose input list references it. Here the compiler proves the absence
//! of cycles, validates input references, and warns about components
//! nothing consumes.

use vstd::prelude::*;
use crate::id::{ComponentKey, OutputId};
use crate::components::{DataTypeSet, Output};

verus! {

/// What a node is.
#[derive(Clone, Copy, Debug, PartialEq, Eq, Structural)]
pub enum NodeKind {
    Source,
    Transform,
    Sink,
}

/// One node of the component graph.
pub struct Node {
    pub key: ComponentKey,
    pub kind: NodeKind,
    pub outputs: Vec<Output>,
    pub input_type: DataTypeSet,
    pub inputs: Vec<OutputId>,
}

/// The component graph.
pub struct Graph {
    pub nodes: Vec<Node>,
}

/// Data flows from node `i` to node `j`: some input of `j` references the
/// key of `i`.
pub open spec fn has_edge(nodes: Seq<Node>, i: int, j: int) -> bool {
    0 <= i < nodes.len() && 0 <= j < nodes.len() && exists|t: int|
        0 <= t < nodes[j].inputs@.len() && nodes[j].inputs@[t].component@ == nodes[i].key@
}

/// A chain of node indices connected by edges, returning to its start: a
/// cycle.
pub open spec fn is_cycle_idx(nodes: Seq<Node>, ch: Seq<int>) -> bool {
    ch.len() >= 2 && ch[0] == ch.last() && forall|c: int|
        0 <= c < ch.len() - 1 ==> #[trigger] has_edge(nodes, ch[c], ch[c + 1])
}

/// No chain of edges returns to its start.
pub open spec fn acyclic(nodes: Seq<Node>) -> bool {
    forall|ch: Seq<int>| !is_cycle_idx(nodes, ch)
}

/// Data flows from the component keyed `k1` to the one keyed `k2`.
pub open spec fn key_edge(nodes: Seq<Node>, k1: Seq<char>, k2: Seq<char>) -> bool {
    exists|i: int, j: int| has_edge(nodes, i, j) && nodes[i].key@ == k1 && nodes[j].key@ == k2
}

/// The number of `true` entries.
pub open spec fn count_trues(s: Seq<bool>) -> int
    decreases s.len(),
{
    if s.len() == 0 {
        0
    } else {
        count_trues(s.drop_last()) + if s.last() {
            1int
        } else {
            0int
        }
    }
}

pub proof fn lemma_count_le_len(s: Seq<bool>)
    ensures
        0 <= count_trues(s) <= s.len(),
    decreases s.len(),
{
    if s.len() > 0 {
        lemma_count_le_len(s.drop_last());
    }
}

pub proof fn lemma_count_update(s: Seq<bool>, j: int)
    requires
        0 <= j < s.len(),
        !s[j],
    ensures
        count_trues(s.update(j, true)) == count_trues(s) + 1,
    decreases s.len(),
{
    let t = s.update(j, true);
    if j == s.len() - 1 {
        assert(t.drop_last() =~= s.drop_last());
    } else {
        assert(t.drop_last() =~= s.drop_last().update(j, true));
        lemma_count_update(s.drop_last(), j);
        assert(t.last() == s.last());
    }
}

pub proof fn lemma_count_all_false(s: Seq<bool>)
    requires
        forall|j: int| 0 <= j < s.len() ==> !s[j],
    ensures
        count_trues(s) == 0,
    decreases s.len(),
{
    if s.len() > 0 {
        lemma_count_all_false(s.drop_last());
    }
}

/// Pigeonhole: a duplicate-free sequence of indices below `n` has at most
/// `n` elements.
proof fn lemma_distinct_bounded(s: Seq<usize>, n: int)
    requires
        n >= 0,
        forall|i: int| 0 <= i < s.len() ==> 0 <= #[trigger] s[i] < n,
        forall|i: int, j: int| 0 <= i < j < s.len() ==> s[i] != s[j],
    ensures
        s.len() <= n,
{
    let m = s.map_values(|x: usize| x as int);
    assert(m.no_duplicates()) by {
        assert forall|i: int, j: int|
            0 <= i < m.len() && 0 <= j < m.len() && i != j implies m[i] != m[j] by {
            if i < j {
                assert(s[i] != s[j]);
            } else {
                assert(s[j] != s[i]);
            }
        }
    }
    m.unique_seq_to_set();
    let range = vstd::set_lib::set_int_range(0, n);
    vstd::set_lib::lemma_int_range(0, n);
    assert(m.to_set().subset_of(range)) by {
        assert forall|x: int| m.to_set().contains(x) implies range.contains(x) by {
            let i = choose|i: int| 0 <= i < m.len() && m[i] == x;
            assert(0 <= s[i] < n);
        }
    }
    vstd::set_lib::lemma_len_subset(m.to_set(), range);
}

/// Along a chain of edges the rank strictly increases.
proof fn lemma_chain_rank(nodes: Seq<Node>, rank: Map<int, int>, ch: Seq<int>)
    requires
        forall|i: int, j: int| #[trigger] has_edge(nodes, i, j) ==> rank[i] < rank[j],
        ch.len() >= 2,
        forall|c: int| 0 <= c < ch.len() - 1 ==> #[trigger] has_edge(nodes, ch[c], ch[c + 1]),
    ensures
        rank[ch[0]] < rank[ch.last()],
    decreases ch.len(),
{
    assert(has_edge(nodes, ch[0], ch[0int + 1]));
    if ch.len() == 2 {
        assert(ch.last() == ch[1]);
    } else {
        let pre = ch.drop_last();
        assert(pre.len() == ch.len() - 1);
        assert forall|c: int|
            0 <= c < pre.len() - 1 implies #[trigger] has_edge(nodes, pre[c], pre[c + 1]) by {
            assert(pre[c] == ch[c] && pre[c + 1] == ch[c + 1]);
            assert(has_edge(nodes, ch[c], ch[c + 1]));
        }
        lemma_chain_rank(nodes, rank, pre);
        assert(has_edge(nodes, ch[ch.len() - 2], ch[ch.len() - 2 + 1]));
        assert(pre.last() == ch[ch.len() - 2]);
        assert(ch.last() == ch[ch.len() - 1]);
    }
}

/// A ranking with every edge increasing rules out cycles.
proof fn lemma_rank_acyclic(nodes: Seq<Node>, rank: Map<int, int>)
    requires
        forall|i: int, j: int| #[trigger] has_edge(nodes, i, j) ==> rank[i] < rank[j],
    ensures
        acyclic(nodes),
{
    assert forall|ch: Seq<int>| !is_cycle_idx(nodes, ch) by {
        if is_cycle_idx(nodes, ch) {
            lemma_chain_rank(nodes, rank, ch);
        }
    }
}

impl Graph {
    /// Find the node with the given key.
    pub fn index_of_key(&self, k: &str) -> (r: Option<usize>)
        ensures
            match r {
                Some(i) => i < self.nodes@.len() && self.nodes@[i as int].key@ == k@,
                None => forall|i: int| 0 <= i < self.nodes@.len() ==> self.nodes@[i].key@ != k@,
            },
    {
        let n = self.nodes.len();
        let mut i: usize = 0;
        while i < n
            invariant
                0 <= i <= n,
                n == self.nodes@.len(),
                forall|j: int| 0 <= j < i ==> self.nodes@[j].key@ != k@,
            decreases n - i,
        {
            if str_eq(self.nodes[i].key.id(), k) {
                return Some(i);
            }
            i += 1;
        }
        None
    }

    /// Whether node `j` has an input referencing the key of node `i`.
    fn edge_from_to(&self, i: usize, j: usize) -> (r: bool)
        requires
            i < self.nodes@.len(),
            j < self.nodes@.len(),
        ensures
            r == has_edge(self.nodes@, i as int, j as int),
    {
        let m = self.nodes[j].inputs.len();
        let mut t: usize = 0;
        while t < m
            invariant
                0 <= t <= m,
                i < self.nodes@.len(),
                j < self.nodes@.len(),
                m == self.nodes@[j as int].inputs@.len(),
                forall|u: int|
                    0 <= u < t ==> self.nodes@[j as int].inputs@[u].component@ != self.nodes@[
                        i as int
                    ].key@,
            decreases m - t,
        {
            if str_eq(self.nodes[j].inputs[t].component.id(), self.nodes[i].key.id()) {
                return true;
            }
            t += 1;
        }
        false
    }

    /// Process nodes in dependency order until no more can be processed:
    /// a processed node's predecessors are all processed and ranked
    /// before it, and every unprocessed node keeps an unprocessed
    /// predecessor.
    #[verifier::loop_isolation(false)]
    #[verifier::rlimit(60)]
    fn mark_order(&self) -> (out: (Vec<bool>, Ghost<Map<int, int>>))
        ensures
            out.0@.len() == self.nodes@.len(),
            forall|j: int|
                0 <= j < out.0@.len() && out.0@[j] ==> forall|i: int|
                    #[trigger] has_edge(self.nodes@, i, j) ==> out.0@[i] && out.1@[i] < out.1@[j],
            forall|j: int|
                0 <= j < out.0@.len() && !out.0@[j] ==> exists|i: int|
                    has_edge(self.nodes@, i, j) && !out.0@[i],
    {
        let n = self.nodes.len();
        let mut done: Vec<bool> = Vec::new();
        let mut i0: usize = 0;
        while i0 < n
            invariant
                0 <= i0 <= n,
                done@.len() == i0,
                forall|j: int| 0 <= j < i0 ==> done@[j] == false,
            decreases n - i0,
        {
            done.push(false);
            i0 += 1;
        }
        let ghost mut rank: Map<int, int> = Map::empty();
        let mut num_done: usize = 0;
        proof {
            assert(count_trues(done@) == 0) by {
                lemma_count_all_false(done@);
            }
        }
        let mut changed = true;
        while changed
            invariant
                done@.len() == n,
                n == self.nodes@.len(),
                num_done == count_trues(done@),
                num_done <= n,
                forall|q: int| 0 <= q < n && done@[q] ==> 0 <= rank[q] < num_done,
                forall|j: int|
                    0 <= j < n && done@[j] ==> forall|i: int|
                        #[trigger] has_edge(self.nodes@, i, j) ==> done@[i] && rank[i] < rank[j],
                !changed ==> forall|j: int|
                    0 <= j < n && !done@[j] ==> exists|i: int|
                        has_edge(self.nodes@, i, j) && !done@[i],
            decreases n - num_done + if changed {
                1int
            } else {
                0int
            },
        {
            changed = false;
            let ghost nd_start = num_done as int;
            let ghost done_at_start = done@;
            let mut j: usize = 0;
            while j < n
                invariant
                    0 <= j <= n,
                    done@.len() == n,
                    n == self.nodes@.len(),
                    num_done == count_trues(done@),
                    num_done <= n,
                    forall|q: int| 0 <= q < n && done@[q] ==> 0 <= rank[q] < num_done,
                    forall|q: int|
                        0 <= q < n && done@[q] ==> forall|i: int|
                            #[trigger] has_edge(self.nodes@, i, q) ==> done@[i] && rank[i]
                                < rank[q],
                    forall|q: int| 0 <= q < n && done_at_start[q] ==> done@[q],
                    changed ==> num_done >= nd_start + 1,
                    !changed ==> num_done == nd_start,
                    !changed ==> done@ == done_at_start,
                    !changed ==> forall|q: int|
                        0 <= q < j && !done@[q] ==> exists|i: int|
                            has_edge(self.nodes@, i, q) && !done@[i],
                decreases n - j,
            {
                if !done[j] {
                    let mut blocked = false;
                    let mut i: usize = 0;
                    while i < n
                        invariant
                            0 <= i <= n,
                            0 <= j < n,
                            done@.len() == n,
                            n == self.nodes@.len(),
                            blocked ==> exists|p: int|
                                has_edge(self.nodes@, p, j as int) && !done@[p],
                            !blocked ==> forall|p: int|
                                0 <= p < i && #[trigger] has_edge(self.nodes@, p, j as int)
                                    ==> done@[p],
                        decreases n - i,
                    {
                        if !done[i] && self.edge_from_to(i, j) {
                            blocked = true;
                        }
                        i += 1;
                    }
                    if !blocked {
                        let ghost dpre = done@;
                        let ghost ndpre = num_done as int;
                        done[j] = true;
                        proof {
                            lemma_count_update(dpre, j as int);
                            lemma_count_le_len(done@);
                            rank = rank.insert(j as int, ndpre);
                        }
                        num_done += 1;
                        changed = true;
                        proof {
                            assert forall|q: int|
                                0 <= q < n && done@[q] implies forall|i2: int|
                                #[trigger] has_edge(self.nodes@, i2, q) ==> done@[i2] && rank[i2]
                                    < rank[q] by {
                                if q == j as int {
                                    assert forall|i2: int|
                                        #[trigger] has_edge(self.nodes@, i2, q) implies done@[i2]
                                            && rank[i2] < rank[q] by {
                                        assert(dpre[i2]);
                                        assert(i2 != j as int);
                                        assert(rank[i2] < ndpre);
                                    }
                                } else {
                                    assert forall|i2: int|
                                        #[trigger] has_edge(self.nodes@, i2, q) implies done@[i2]
                                            && rank[i2] < rank[q] by {
                                        assert(dpre[q]);
                                        assert(dpre[i2]);
                                        assert(i2 != j as int && q != j as int);
                                    }
                                }
                            }
                        }
                    }
                }
                j += 1;
            }
        }
        (done, Ghost(rank))
    }

    /// Detect a dependency cycle.
    ///
    /// Returns `None` exactly when the graph is acyclic. Otherwise the
    /// returned chain of component keys is a genuine cycle: each key has
    /// an edge to the next and the chain closes on itself; the walk that
    /// finds it is deterministic, so repeated runs report the same chain.
    #[verifier::loop_isolation(false)]
    #[verifier::rlimit(100)]
    pub fn check_for_cycles(&self) -> (r: Option<Vec<ComponentKey>>)
        ensures
            r is None <==> acyclic(self.nodes@),
            r matches Some(chain) ==> chain@.len() >= 2 && chain@[0]@ == chain@[chain@.len() - 1]@
                && forall|c: int|
                0 <= c < chain@.len() - 1 ==> #[trigger] key_edge(
                    self.nodes@,
                    chain@[c]@,
                    chain@[c + 1]@,
                ),
    {
        let n = self.nodes.len();
        let (done, rank_g) = self.mark_order();
        let ghost rank = rank_g@;
        let mut all = true;
        let mut j2: usize = 0;
        while j2 < n
            invariant
                0 <= j2 <= n,
                done@.len() == n,
                all ==> forall|q: int| 0 <= q < j2 ==> done@[q],
                !all ==> exists|q: int| 0 <= q < n && !done@[q],
            decreases n - j2,
        {
            if !done[j2] {
                all = false;
            }
            j2 += 1;
        }
        if all {
            proof {
                assert forall|i: int, j: int|
                    #[trigger] has_edge(self.nodes@, i, j) implies rank[i] < rank[j] by {
                    assert(done@[j]);
                }
                lemma_rank_acyclic(self.nodes@, rank);
            }
            return None;
        }
        Some(self.find_cycle_walk(&done))
    }

    /// A cycle exists among the unprocessed nodes: walk predecessors from
    /// the least unprocessed key until a node repeats, then read the
    /// cycle off the walk.
    #[verifier::rlimit(100)]
    fn find_cycle_walk(&self, done: &Vec<bool>) -> (chain: Vec<ComponentKey>)
        requires
            done@.len() == self.nodes@.len(),
            exists|q: int| 0 <= q < done@.len() && !done@[q],
            forall|j: int|
                0 <= j < done@.len() && !done@[j] ==> exists|i: int|
                    has_edge(self.nodes@, i, j) && !done@[i],
        ensures
            chain@.len() >= 2,
            chain@[0]@ == chain@[chain@.len() - 1]@,
            forall|c: int|
                0 <= c < chain@.len() - 1 ==> #[trigger] key_edge(
                    self.nodes@,
                    chain@[c]@,
                    chain@[c + 1]@,
                ),
            !acyclic(self.nodes@),
    {
        let n = self.nodes.len();
        let start = self.min_undone(&done);
        let mut stack: Vec<usize> = Vec::new();
        stack.push(start);
        loop
            invariant
                done@.len() == n,
                n == self.nodes@.len(),
                stack@.len() >= 1,
                forall|s: int|
                    0 <= s < stack@.len() ==> 0 <= #[trigger] stack@[s] < n && !done@[stack@[s] as int],
                forall|s: int|
                    0 <= s < stack@.len() - 1 ==> #[trigger] has_edge(
                        self.nodes@,
                        stack@[s + 1] as int,
                        stack@[s] as int,
                    ),
                forall|s1: int, s2: int|
                    0 <= s1 < s2 < stack@.len() ==> stack@[s1] != stack@[s2],
                forall|j: int|
                    0 <= j < n && !done@[j] ==> exists|i: int|
                        has_edge(self.nodes@, i, j) && !done@[i],
            decreases n - stack@.len(),
        {
            let cur = stack[stack.len() - 1];
            let p = self.undone_pred(&done, cur);
            let found = find_in_stack(&stack, p);
            match found {
                Some(qq) => {
                    return self.build_chain(&stack, qq, Ghost(p as int));
                },
                None => {
                    stack.push(p);
                    proof {
                        assert(stack@.len() <= n) by {
                            lemma_distinct_bounded(stack@, n as int);
                        }
                    }
                },
            }
        }
    }

    /// Read the cycle off the walk: the node at `qq` is a predecessor of
    /// the walk's last node, so in flow direction the cycle runs from it
    /// through the walk's tail back to itself.
    #[verifier::loop_isolation(false)]
    #[verifier::rlimit(60)]
    fn build_chain(&self, stack: &Vec<usize>, qq: usize, Ghost(p): Ghost<int>) -> (chain: Vec<
        ComponentKey,
    >)
        requires
            qq < stack@.len(),
            forall|s: int| 0 <= s < stack@.len() ==> 0 <= #[trigger] stack@[s] < self.nodes@.len(),
            forall|s: int|
                0 <= s < stack@.len() - 1 ==> #[trigger] has_edge(
                    self.nodes@,
                    stack@[s + 1] as int,
                    stack@[s] as int,
                ),
            p == stack@[qq as int] as int,
            has_edge(self.nodes@, p, stack@[stack@.len() - 1] as int),
        ensures
            chain@.len() >= 2,
            chain@[0]@ == chain@[chain@.len() - 1]@,
            forall|c: int|
                0 <= c < chain@.len() - 1 ==> #[trigger] key_edge(
                    self.nodes@,
                    chain@[c]@,
                    chain@[c + 1]@,
                ),
            !acyclic(self.nodes@),
    {
        let sl = stack.len();
        proof {
            let ich = Seq::new(
                (sl - qq) as nat + 1,
                |c: int|
                    if c == 0 {
                        stack@[qq as int] as int
                    } else {
                        stack@[sl - c] as int
                    },
            );
            assert(ich.len() >= 2);
            assert(ich[0] == ich.last()) by {
                assert(ich.last() == stack@[sl - (ich.len() - 1)] as int);
                assert(sl - (ich.len() - 1) == qq as int);
            }
            assert forall|c: int|
                0 <= c < ich.len() - 1 implies #[trigger] has_edge(
                self.nodes@,
                ich[c],
                ich[c + 1],
            ) by {
                if c == 0 {
                    assert(ich[1] == stack@[sl - 1] as int);
                    assert(has_edge(self.nodes@, stack@[qq as int] as int, stack@[sl - 1] as int));
                } else {
                    assert(ich[c] == stack@[sl - c] as int);
                    assert(ich[c + 1] == stack@[sl - c - 1] as int);
                    assert(has_edge(
                        self.nodes@,
                        stack@[(sl - c - 1) + 1] as int,
                        stack@[sl - c - 1] as int,
                    ));
                }
            }
            assert(is_cycle_idx(self.nodes@, ich));
        }
        let mut chain: Vec<ComponentKey> = Vec::new();
        chain.push(self.nodes[stack[qq]].key.clone());
        let mut s = sl;
        while s > qq
            invariant
                qq <= s <= sl,
                chain@.len() == 1 + (sl - s),
                chain@[0]@ == self.nodes@[stack@[qq as int] as int].key@,
                forall|u: int|
                    0 <= u < chain@.len() - 1 ==> #[trigger] key_edge(
                        self.nodes@,
                        chain@[u]@,
                        chain@[u + 1]@,
                    ),
                s < sl ==> chain@[chain@.len() - 1]@ == self.nodes@[stack@[s as int] as int].key@,
                s == sl ==> chain@[chain@.len() - 1]@ == self.nodes@[stack@[qq as int] as int].key@,
            decreases s,
        {
            s -= 1;
            let ghost chain0 = chain@;
            chain.push(self.nodes[stack[s]].key.clone());
            proof {
                if s + 1 == sl {
                    assert(has_edge(self.nodes@, stack@[qq as int] as int, stack@[sl - 1] as int));
                    assert(key_edge(self.nodes@, chain@[chain@.len() - 2]@, chain@[chain@.len()
                        - 1]@));
                } else {
                    assert(has_edge(
                        self.nodes@,
                        stack@[s as int + 1] as int,
                        stack@[s as int] as int,
                    ));
                    assert(key_edge(self.nodes@, chain@[chain@.len() - 2]@, chain@[chain@.len()
                        - 1]@));
                }
                assert forall|u: int|
                    0 <= u < chain@.len() - 1 implies #[trigger] key_edge(
                    self.nodes@,
                    chain@[u]@,
                    chain@[u + 1]@,
                ) by {
                    if u < chain@.len() - 2 {
                        assert(chain@[u] == chain0[u]);
                        assert(chain@[u + 1] == chain0[u + 1]);
                        assert(key_edge(self.nodes@, chain0[u]@, chain0[u + 1]@));
                    }
                }
            }
        }
        chain
    }

    /// The unprocessed node with the least key; callable only when one
    /// exists.
    fn min_undone(&self, done: &Vec<bool>) -> (r: usize)
        requires
            done@.len() == self.nodes@.len(),
            exists|j: int| 0 <= j < done@.len() && !done@[j],
        ensures
            r < self.nodes@.len(),
            !done@[r as int],
    {
        let n = self.nodes.len();
        let mut best: Option<usize> = None;
        let mut j: usize = 0;
        while j < n
            invariant
                0 <= j <= n,
                n == done@.len(),
                n == self.nodes@.len(),
                match best {
                    Some(b) => b < n && !done@[b as int],
                    None => forall|q: int| 0 <= q < j ==> done@[q],
                },
            decreases n - j,
        {
            if !done[j] {
                match best {
                    None => {
                        best = Some(j);
                    },
                    Some(b) => {
                        if str_lt(self.nodes[j].key.id(), self.nodes[b].key.id()) {
                            best = Some(j);
                        }
                    },
                }
            }
            j += 1;
        }
        match best {
            Some(b) => b,
            None => {
                proof {
                    let w = choose|w: int| 0 <= w < done@.len() && !done@[w];
                    assert(false);
                }
                0
            },
        }
    }

    /// Some unprocessed predecessor of the unprocessed node `j`; the
    /// first one, so repeated runs pick the same.
    fn undone_pred(&self, done: &Vec<bool>, j: usize) -> (r: usize)
        requires
            done@.len() == self.nodes@.len(),
            j < self.nodes@.len(),
            !done@[j as int],
            forall|q: int|
                0 <= q < self.nodes@.len() && !done@[q] ==> exists|i: int|
                    has_edge(self.nodes@, i, q) && !done@[i],
        ensures
            r < self.nodes@.len(),
            !done@[r as int],
            has_edge(self.nodes@, r as int, j as int),
    {
        let n = self.nodes.len();
        let mut i: usize = 0;
        while i < n
            invariant
                0 <= i <= n,
                n == self.nodes@.len(),
                done@.len() == n,
                j < n,
                forall|p: int|
                    0 <= p < i ==> !(has_edge(self.nodes@, p, j as int) && !done@[p]),
            decreases n - i,
        {
            if !done[i] && self.edge_from_to(i, j) {
                return i;
            }
            i += 1;
        }
        proof {
            let w = choose|w: int| has_edge(self.nodes@, w, j as int) && !done@[w];
            assert(false);
        }
        0
    }
}

/// The position of `p` on the walk, if it is there.
fn find_in_stack(stack: &Vec<usize>, p: usize) -> (found: Option<usize>)
    ensures
        match found {
            Some(qq) => qq < stack@.len() && stack@[qq as int] == p,
            None => forall|u: int| 0 <= u < stack@.len() ==> stack@[u] != p,
        },
{
    let sl = stack.len();
    let mut q: usize = 0;
    while q < sl
        invariant
            0 <= q <= sl,
            sl == stack@.len(),
            forall|u: int| 0 <= u < q ==> stack@[u] != p,
        decreases sl - q,
    {
        if stack[q] == p {
            return Some(q);
        }
        q += 1;
    }
    None
}

/// Compare two strings for equality.
pub fn str_eq(a: &str, b: &str) -> (r: bool)
    ensures
        r == (a@ == b@),
{
    let sa = a.to_owned();
    let sb = b.to_owned();
    sa == sb
}

/// Lexicographic comparison of two strings by character code.
pub open spec fn spec_str_lt(a: Seq<char>, b: Seq<char>) -> bool
    decreases a.len(),
{
    if b.len() == 0 {
        false
    } else if a.len() == 0 {
        true
    } else if a[0] == b[0] {
        spec_str_lt(a.drop_first(), b.drop_first())
    } else {
        (a[0] as int) < (b[0] as int)
    }
}

/// Whether `a` is lexicographically before `b`.
pub fn str_lt(a: &str, b: &str) -> (r: bool)
    ensures
        r == spec_str_lt(a@, b@),
{
    let la = a.unicode_len();
    let lb = b.unicode_len();
    let mut i: usize = 0;
    proof {
        assert(a@.skip(0) =~= a@);
        assert(b@.skip(0) =~= b@);
    }
    while i < la && i < lb
        invariant
            0 <= i <= la,
            0 <= i <= lb,
            la == a@.len(),
            lb == b@.len(),
            forall|j: int| 0 <= j < i ==> a@[j] == b@[j],
            spec_str_lt(a@, b@) == spec_str_lt(a@.skip(i as int), b@.skip(i as int)),
        decreases la - i,
    {
        let ca = a.get_char(i);
        let cb = b.get_char(i);
        proof {
            assert(a@.skip(i as int)[0] == a@[i as int]);
            assert(b@.skip(i as int)[0] == b@[i as int]);
            assert(a@.skip(i as int).drop_first() =~= a@.skip(i as int + 1));
            assert(b@.skip(i as int).drop_first() =~= b@.skip(i as int + 1));
        }
        if ca as u32 != cb as u32 {
            return (ca as u32) < (cb as u32);
        }
        i += 1;
    }
    proof {
        assert(a@.skip(i as int).len() == la - i);
        assert(b@.skip(i as int).len() == lb - i);
    }
    la < lb && i == la
}

/// A consumer node: a transform or a sink.
pub open spec fn is_consumer(n: Node) -> bool {
    n.kind == NodeKind::Transform || n.kind == NodeKind::Sink
}

/// The input `inp` resolves against some producer: a non-sink node with
/// that key which declares the referenced stream.
pub open spec fn input_known(nodes: Seq<Node>, inp: OutputId) -> bool {
    exists|i: int|
        0 <= i < nodes.len() && nodes[i].kind != NodeKind::Sink && nodes[i].key@ == inp.component@
            && exists|t: int|
            0 <= t < nodes[i].outputs@.len() && #[trigger] out_port_view(nodes[i].outputs@[t])
                == inp.port_view()
}

/// The view of an optional port name.
pub open spec fn opt_port_view(o: Option<String>) -> Option<Seq<char>> {
    match o {
        None => None,
        Some(p) => Some(p@),
    }
}

/// Compare two optional port names by view.
fn opt_port_eq(a: &Option<String>, b: &Option<String>) -> (r: bool)
    ensures
        r == (opt_port_view(*a) == opt_port_view(*b)),
{
    match (a, b) {
        (None, None) => true,
        (Some(x), Some(y)) => str_eq(x.as_str(), y.as_str()),
        _ => false,
    }
}

/// The view of an output stream's port.
pub open spec fn out_port_view(o: crate::components::Output) -> Option<Seq<char>> {
    match o.port {
        None => None,
        Some(p) => Some(p@),
    }
}

/// Two input references address the same stream.
pub open spec fn same_input(a: OutputId, b: OutputId) -> bool {
    a.component@ == b.component@ && a.port_view() == b.port_view()
}

/// The inputs of node `j` are well-shaped: none when the node is not a
/// consumer; otherwise non-empty, duplicate-free, and all known.
pub open spec fn consumer_ok(nodes: Seq<Node>, j: int) -> bool {
    is_consumer(nodes[j]) ==> nodes[j].inputs@.len() > 0 && (forall|t1: int, t2: int|
        #![trigger nodes[j].inputs@[t1], nodes[j].inputs@[t2]]
        0 <= t1 < t2 < nodes[j].inputs@.len() ==> !same_input(
            nodes[j].inputs@[t1],
            nodes[j].inputs@[t2],
        )) && (forall|t: int|
        0 <= t < nodes[j].inputs@.len() ==> input_known(nodes, #[trigger] nodes[j].inputs@[t]))
}

/// Every producer stream the input resolves to shares an event class
/// with the consumer at node `j`.
pub open spec fn edge_types_ok(nodes: Seq<Node>, j: int, inp: OutputId) -> bool {
    forall|i: int, u: int|
        0 <= i < nodes.len() && nodes[i].kind != NodeKind::Sink && nodes[i].key@ == inp.component@
            && 0 <= u < nodes[i].outputs@.len() && #[trigger] out_port_view(nodes[i].outputs@[u])
            == inp.port_view() ==> nodes[i].outputs@[u].ty.spec_intersects(&nodes[j].input_type)
}

/// Some producer stream's wire text (`name`, or `name.port`) equals
/// `text`.
pub open spec fn stream_text_matches(nodes: Seq<Node>, text: Seq<char>) -> bool {
    exists|i: int, t: int|
        0 <= i < nodes.len() && nodes[i].kind != NodeKind::Sink && 0 <= t < nodes[i].outputs@.len()
            && crate::id::spec_output_text(
            nodes[i].key@,
            #[trigger] out_port_view(nodes[i].outputs@[t]),
        ) == text
}

/// Node `i` has a direct consumer: some consumer's input references it.
pub open spec fn has_consumer(nodes: Seq<Node>, i: int) -> bool {
    exists|j: int| 0 <= j < nodes.len() && is_consumer(nodes[j]) && has_edge(nodes, i, j)
}

impl Graph {
    fn kind_title(&self, j: usize) -> (r: &'static str)
        requires
            j < self.nodes@.len(),
        ensures
            self.nodes@[j as int].kind == NodeKind::Transform ==> r@ == "Transform"@,
            self.nodes@[j as int].kind == NodeKind::Sink ==> r@ == "Sink"@,
            self.nodes@[j as int].kind == NodeKind::Source ==> r@ == "Source"@,
    {
        match self.nodes[j].kind {
            NodeKind::Transform => "Transform",
            NodeKind::Sink => "Sink",
            NodeKind::Source => "Source",
        }
    }

    fn kind_lower(&self, j: usize) -> (r: &'static str)
        requires
            j < self.nodes@.len(),
        ensures
            self.nodes@[j as int].kind == NodeKind::Transform ==> r@ == "transform"@,
            self.nodes@[j as int].kind == NodeKind::Sink ==> r@ == "sink"@,
            self.nodes@[j as int].kind == NodeKind::Source ==> r@ == "source"@,
    {
        match self.nodes[j].kind {
            NodeKind::Transform => "transform",
            NodeKind::Sink => "sink",
            NodeKind::Source => "source",
        }
    }

    /// Whether inputs `t1` and `t2` of node `j` address the same stream.
    fn inputs_equal(&self, j: usize, t1: usize, t2: usize) -> (r: bool)
        requires
            j < self.nodes@.len(),
            t1 < self.nodes@[j as int].inputs@.len(),
            t2 < self.nodes@[j as int].inputs@.len(),
        ensures
            r == same_input(
                self.nodes@[j as int].inputs@[t1 as int],
                self.nodes@[j as int].inputs@[t2 as int],
            ),
    {
        let a = &self.nodes[j].inputs[t1];
        let b = &self.nodes[j].inputs[t2];
        if !str_eq(a.component.id(), b.component.id()) {
            return false;
        }
        opt_port_eq(&a.port, &b.port)
    }

    /// Whether the input resolves against a declared producer stream.
    #[verifier::loop_isolation(false)]
    fn input_resolves(&self, inp: &OutputId) -> (r: bool)
        ensures
            r == input_known(self.nodes@, *inp),
    {
        let n = self.nodes.len();
        let mut i: usize = 0;
        while i < n
            invariant
                0 <= i <= n,
                n == self.nodes@.len(),
                forall|q: int|
                    0 <= q < i ==> !(self.nodes@[q].kind != NodeKind::Sink && self.nodes@[q].key@
                        == inp.component@ && exists|t: int|
                        0 <= t < self.nodes@[q].outputs@.len()
                            && #[trigger] out_port_view(self.nodes@[q].outputs@[t])
                            == inp.port_view()),
            decreases n - i,
        {
            let matches_kind = match self.nodes[i].kind {
                NodeKind::Sink => false,
                _ => true,
            };
            if matches_kind && str_eq(self.nodes[i].key.id(), inp.component.id()) {
                let m = self.nodes[i].outputs.len();
                let mut t: usize = 0;
                while t < m
                    invariant
                        0 <= t <= m,
                        0 <= i < n,
                        n == self.nodes@.len(),
                        m == self.nodes@[i as int].outputs@.len(),
                        forall|u: int|
                            0 <= u < t ==> #[trigger] out_port_view(
                                self.nodes@[i as int].outputs@[u],
                            ) != inp.port_view(),
                    decreases m - t,
                {
                    let port_match = opt_port_eq(&self.nodes[i].outputs[t].port, &inp.port);
                    if port_match {
                        proof {
                            assert(out_port_view(self.nodes@[i as int].outputs@[t as int])
                                == inp.port_view());
                            assert(self.nodes@[i as int].kind != NodeKind::Sink);
                            assert(self.nodes@[i as int].key@ == inp.component@);
                            assert(exists|t2: int|
                                0 <= t2 < self.nodes@[i as int].outputs@.len() && #[trigger] out_port_view(
                                    self.nodes@[i as int].outputs@[t2],
                                ) == inp.port_view());
                            assert(input_known(self.nodes@, *inp));
                        }
                        return true;
                    }
                    t += 1;
                }
            }
            i += 1;
        }
        false
    }

    /// Whether input `t` of consumer `j` repeats elsewhere in the list.
    fn input_repeats(&self, j: usize, t: usize) -> (r: bool)
        requires
            j < self.nodes@.len(),
            t < self.nodes@[j as int].inputs@.len(),
        ensures
            r == exists|u: int|
                0 <= u < self.nodes@[j as int].inputs@.len() && u != t && same_input(
                    self.nodes@[j as int].inputs@[t as int],
                    #[trigger] self.nodes@[j as int].inputs@[u],
                ),
    {
        let m = self.nodes[j].inputs.len();
        let mut u: usize = 0;
        while u < m
            invariant
                0 <= u <= m,
                j < self.nodes@.len(),
                t < m,
                m == self.nodes@[j as int].inputs@.len(),
                forall|w: int|
                    0 <= w < u && w != t ==> !same_input(
                        self.nodes@[j as int].inputs@[t as int],
                        #[trigger] self.nodes@[j as int].inputs@[w],
                    ),
            decreases m - u,
        {
            if u != t && self.inputs_equal(j, t, u) {
                return true;
            }
            u += 1;
        }
        false
    }

    /// Whether no earlier input of consumer `j` equals input `t`.
    fn input_is_first(&self, j: usize, t: usize) -> (r: bool)
        requires
            j < self.nodes@.len(),
            t < self.nodes@[j as int].inputs@.len(),
        ensures
            r == forall|u: int|
                0 <= u < t ==> !same_input(
                    self.nodes@[j as int].inputs@[t as int],
                    #[trigger] self.nodes@[j as int].inputs@[u],
                ),
    {
        let mut u: usize = 0;
        while u < t
            invariant
                0 <= u <= t,
                j < self.nodes@.len(),
                t < self.nodes@[j as int].inputs@.len(),
                forall|w: int|
                    0 <= w < u ==> !same_input(
                        self.nodes@[j as int].inputs@[t as int],
                        #[trigger] self.nodes@[j as int].inputs@[w],
                    ),
            decreases t - u,
        {
            if self.inputs_equal(j, t, u) {
                return false;
            }
            u += 1;
        }
        true
    }

    /// How many inputs of consumer `j` equal input `t` (including `t`).
    fn count_same(&self, j: usize, t: usize) -> (r: usize)
        requires
            j < self.nodes@.len(),
            t < self.nodes@[j as int].inputs@.len(),
        ensures
            r >= 1,
    {
        let m = self.nodes[j].inputs.len();
        let mut count: usize = 0;
        let mut u: usize = 0;
        while u < m
            invariant
                0 <= u <= m,
                j < self.nodes@.len(),
                t < m,
                m == self.nodes@[j as int].inputs@.len(),
                count <= u,
                u > t ==> count >= 1,
            decreases m - u,
        {
            if self.inputs_equal(j, t, u) {
                count += 1;
            }
            u += 1;
        }
        count
    }

    /// One message per duplicated input of each consumer, at its first
    /// occurrence: empty exactly when no consumer repeats an input.
    #[verifier::loop_isolation(false)]
    #[verifier::rlimit(60)]
    fn dup_input_errors(&self, errors: &mut Vec<String>) -> (added: bool)
        ensures
            final(errors)@.len() >= old(errors)@.len(),
            added ==> final(errors)@.len() > old(errors)@.len(),
            !added ==> final(errors)@ == old(errors)@,
            !added <==> forall|j: int|
                0 <= j < self.nodes@.len() ==> consumer_ok_dups(self.nodes@, j),
    {
        let n = self.nodes.len();
        let ghost e0 = errors@;
        let mut added = false;
        let mut j: usize = 0;
        while j < n
            invariant
                0 <= j <= n,
                n == self.nodes@.len(),
                errors@.len() >= e0.len(),
                added ==> errors@.len() > e0.len(),
                !added ==> errors@ == e0,
                !added <==> forall|q: int| 0 <= q < j ==> consumer_ok_dups(self.nodes@, q),
            decreases n - j,
        {
            let is_cons = match self.nodes[j].kind {
                NodeKind::Transform => true,
                NodeKind::Sink => true,
                NodeKind::Source => false,
            };
            if is_cons {
                let m = self.nodes[j].inputs.len();
                let ghost added_before_j = added;
                let mut t: usize = 0;
                while t < m
                    invariant
                        0 <= t <= m,
                        0 <= j < n,
                        n == self.nodes@.len(),
                        is_consumer(self.nodes@[j as int]),
                        m == self.nodes@[j as int].inputs@.len(),
                        errors@.len() >= e0.len(),
                        added ==> errors@.len() > e0.len(),
                        !added ==> errors@ == e0,
                        !added ==> added_before_j == false,
                        added_before_j == false && !added ==> forall|t1: int, t2: int|
                            #![trigger self.nodes@[j as int].inputs@[t1], self.nodes@[j as int].inputs@[t2]]
                            0 <= t1 < t2 < m && t1 < t ==> !same_input(
                                self.nodes@[j as int].inputs@[t1],
                                self.nodes@[j as int].inputs@[t2],
                            ),
                        added_before_j == false && added ==> !consumer_ok_dups(self.nodes@, j as int),
                        added_before_j ==> added,
                    decreases m - t,
                {
                    if self.input_repeats(j, t) && self.input_is_first(j, t) {
                        let count = self.count_same(j, t);
                        let mut msg = String::new();
                        msg.append(self.kind_title(j));
                        msg.append(" \"");
                        msg.append(self.nodes[j].key.id());
                        msg.append("\" has input \"");
                        msg.append(self.nodes[j].inputs[t].to_text().as_str());
                        msg.append("\" duplicated ");
                        msg.append(crate::text::dec_usize(count).as_str());
                        msg.append(" times");
                        errors.push(msg);
                        added = true;
                        proof {
                            let u = choose|u: int|
                                0 <= u < m && u != t && same_input(
                                    self.nodes@[j as int].inputs@[t as int],
                                    self.nodes@[j as int].inputs@[u],
                                );
                            if u < t {
                                assert(same_input(
                                    self.nodes@[j as int].inputs@[t as int],
                                    self.nodes@[j as int].inputs@[u],
                                ));
                                assert(false);
                            }
                            assert(!consumer_ok_dups(self.nodes@, j as int));
                        }
                    }
                    t += 1;
                }
            }
            j += 1;
        }
        added
    }

    /// One message per consumer with an empty input list.
    #[verifier::loop_isolation(false)]
    fn empty_input_errors(&self, errors: &mut Vec<String>) -> (added: bool)
        ensures
            final(errors)@.len() >= old(errors)@.len(),
            added ==> final(errors)@.len() > old(errors)@.len(),
            !added ==> final(errors)@ == old(errors)@,
            !added <==> forall|j: int|
                0 <= j < self.nodes@.len() && is_consumer(self.nodes@[j]) ==> self.nodes@[
                    j
                ].inputs@.len() > 0,
    {
        let n = self.nodes.len();
        let ghost e0 = errors@;
        let mut added = false;
        let mut j: usize = 0;
        while j < n
            invariant
                0 <= j <= n,
                n == self.nodes@.len(),
                errors@.len() >= e0.len(),
                added ==> errors@.len() > e0.len(),
                !added ==> errors@ == e0,
                !added <==> forall|q: int|
                    0 <= q < j && is_consumer(self.nodes@[q]) ==> self.nodes@[q].inputs@.len() > 0,
            decreases n - j,
        {
            let is_cons = match self.nodes[j].kind {
                NodeKind::Transform => true,
                NodeKind::Sink => true,
                NodeKind::Source => false,
            };
            if is_cons && self.nodes[j].inputs.len() == 0 {
                let mut msg = String::new();
                msg.append(self.kind_title(j));
                msg.append(" \"");
                msg.append(self.nodes[j].key.id());
                msg.append("\" has no inputs");
                errors.push(msg);
                added = true;
            }
            j += 1;
        }
        added
    }

    /// One message per input that matches no producer stream.
    #[verifier::loop_isolation(false)]
    #[verifier::rlimit(60)]
    fn unknown_input_errors(&self, errors: &mut Vec<String>) -> (added: bool)
        ensures
            final(errors)@.len() >= old(errors)@.len(),
            added ==> final(errors)@.len() > old(errors)@.len(),
            !added ==> final(errors)@ == old(errors)@,
            !added <==> forall|j: int, t: int|
                0 <= j < self.nodes@.len() && is_consumer(self.nodes@[j]) && 0 <= t < self.nodes@[
                    j
                ].inputs@.len() ==> input_known(self.nodes@, #[trigger] self.nodes@[j].inputs@[t]),
    {
        let n = self.nodes.len();
        let ghost e0 = errors@;
        let mut added = false;
        let mut j: usize = 0;
        while j < n
            invariant
                0 <= j <= n,
                n == self.nodes@.len(),
                errors@.len() >= e0.len(),
                added ==> errors@.len() > e0.len(),
                !added ==> errors@ == e0,
                !added <==> forall|q: int, t: int|
                    0 <= q < j && is_consumer(self.nodes@[q]) && 0 <= t < self.nodes@[
                        q
                    ].inputs@.len() ==> input_known(self.nodes@, #[trigger] self.nodes@[q].inputs@[t]),
            decreases n - j,
        {
            let is_cons = match self.nodes[j].kind {
                NodeKind::Transform => true,
                NodeKind::Sink => true,
                NodeKind::Source => false,
            };
            if is_cons {
                let m = self.nodes[j].inputs.len();
                let mut t: usize = 0;
                while t < m
                    invariant
                        0 <= t <= m,
                        0 <= j < n,
                        n == self.nodes@.len(),
                        is_consumer(self.nodes@[j as int]),
                        m == self.nodes@[j as int].inputs@.len(),
                        errors@.len() >= e0.len(),
                        added ==> errors@.len() > e0.len(),
                        !added ==> errors@ == e0,
                        !added <==> (forall|q: int, t2: int|
                            0 <= q < j && is_consumer(self.nodes@[q]) && 0 <= t2 < self.nodes@[
                                q
                            ].inputs@.len() ==> input_known(
                                self.nodes@,
                                #[trigger] self.nodes@[q].inputs@[t2],
                            )) && (forall|t2: int|
                            0 <= t2 < t ==> input_known(
                                self.nodes@,
                                #[trigger] self.nodes@[j as int].inputs@[t2],
                            )),
                    decreases m - t,
                {
                    if !self.input_resolves(&self.nodes[j].inputs[t]) {
                        let mut msg = "Input \"".to_owned();
                        msg.append(self.nodes[j].inputs[t].to_text().as_str());
                        msg.append("\" for ");
                        msg.append(self.kind_lower(j));
                        msg.append(" \"");
                        msg.append(self.nodes[j].key.id());
                        msg.append("\" doesn't match any components.");
                        errors.push(msg);
                        added = true;
                    }
                    t += 1;
                }
            }
            j += 1;
        }
        added
    }

    /// One message per resolved input whose producer emits no event
    /// class the consumer accepts.
    #[verifier::loop_isolation(false)]
    #[verifier::rlimit(60)]
    pub fn type_mismatch_errors(&self, errors: &mut Vec<String>) -> (added: bool)
        ensures
            final(errors)@.len() >= old(errors)@.len(),
            added ==> final(errors)@.len() > old(errors)@.len(),
            !added ==> final(errors)@ == old(errors)@,
            !added <==> forall|j: int, t: int|
                0 <= j < self.nodes@.len() && is_consumer(self.nodes@[j]) && 0 <= t < self.nodes@[
                    j
                ].inputs@.len() ==> edge_types_ok(self.nodes@, j, #[trigger] self.nodes@[j].inputs@[t]),
    {
        let n = self.nodes.len();
        let ghost e0 = errors@;
        let mut added = false;
        let mut j: usize = 0;
        while j < n
            invariant
                0 <= j <= n,
                n == self.nodes@.len(),
                errors@.len() >= e0.len(),
                added ==> errors@.len() > e0.len(),
                !added ==> errors@ == e0,
                !added <==> forall|q: int, t: int|
                    0 <= q < j && is_consumer(self.nodes@[q]) && 0 <= t < self.nodes@[
                        q
                    ].inputs@.len() ==> edge_types_ok(
                        self.nodes@,
                        q,
                        #[trigger] self.nodes@[q].inputs@[t],
                    ),
            decreases n - j,
        {
            let is_cons = match self.nodes[j].kind {
                NodeKind::Transform => true,
                NodeKind::Sink => true,
                NodeKind::Source => false,
            };
            if is_cons {
                let m = self.nodes[j].inputs.len();
                let mut t: usize = 0;
                while t < m
                    invariant
                        0 <= t <= m,
                        0 <= j < n,
                        n == self.nodes@.len(),
                        is_consumer(self.nodes@[j as int]),
                        m == self.nodes@[j as int].inputs@.len(),
                        errors@.len() >= e0.len(),
                        added ==> errors@.len() > e0.len(),
                        !added ==> errors@ == e0,
                        !added <==> (forall|q: int, t2: int|
                            0 <= q < j && is_consumer(self.nodes@[q]) && 0 <= t2 < self.nodes@[
                                q
                            ].inputs@.len() ==> edge_types_ok(
                                self.nodes@,
                                q,
                                #[trigger] self.nodes@[q].inputs@[t2],
                            )) && (forall|t2: int|
                            0 <= t2 < t ==> edge_types_ok(
                                self.nodes@,
                                j as int,
                                #[trigger] self.nodes@[j as int].inputs@[t2],
                            )),
                    decreases m - t,
                {
                    if !self.edge_types_compatible(j, t) {
                        let mut msg = "Data type mismatch between \"".to_owned();
                        msg.append(self.nodes[j].inputs[t].to_text().as_str());
                        msg.append("\" and \"");
                        msg.append(self.nodes[j].key.id());
                        msg.append("\"");
                        errors.push(msg);
                        added = true;
                    }
                    t += 1;
                }
            }
            j += 1;
        }
        added
    }

    /// Whether input `t` of consumer `j` either fails to resolve (which
    /// the reference check reports) or resolves to a stream sharing an
    /// event class with the consumer.
    #[verifier::loop_isolation(false)]
    fn edge_types_compatible(&self, j: usize, t: usize) -> (r: bool)
        requires
            j < self.nodes@.len(),
            t < self.nodes@[j as int].inputs@.len(),
        ensures
            r == edge_types_ok(self.nodes@, j as int, self.nodes@[j as int].inputs@[t as int]),
    {
        let n = self.nodes.len();
        let mut i: usize = 0;
        while i < n
            invariant
                0 <= i <= n,
                n == self.nodes@.len(),
                j < n,
                t < self.nodes@[j as int].inputs@.len(),
                forall|q: int|
                    0 <= q < i ==> !(self.nodes@[q].kind != NodeKind::Sink && self.nodes@[q].key@
                        == self.nodes@[j as int].inputs@[t as int].component@ && exists|u: int|
                        0 <= u < self.nodes@[q].outputs@.len() && #[trigger] out_port_view(
                            self.nodes@[q].outputs@[u],
                        ) == self.nodes@[j as int].inputs@[t as int].port_view()
                            && !self.nodes@[q].outputs@[u].ty.spec_intersects(
                            &self.nodes@[j as int].input_type,
                        )),
            decreases n - i,
        {
            let not_sink = match self.nodes[i].kind {
                NodeKind::Sink => false,
                _ => true,
            };
            if not_sink && str_eq(
                self.nodes[i].key.id(),
                self.nodes[j].inputs[t].component.id(),
            ) {
                let m = self.nodes[i].outputs.len();
                let mut u: usize = 0;
                while u < m
                    invariant
                        0 <= u <= m,
                        0 <= i < n,
                        m == self.nodes@[i as int].outputs@.len(),
                        forall|w: int|
                            0 <= w < u ==> !(#[trigger] out_port_view(
                                self.nodes@[i as int].outputs@[w],
                            ) == self.nodes@[j as int].inputs@[t as int].port_view()
                                && !self.nodes@[i as int].outputs@[w].ty.spec_intersects(
                                &self.nodes@[j as int].input_type,
                            )),
                    decreases m - u,
                {
                    let port_match = opt_port_eq(
                        &self.nodes[i].outputs[u].port,
                        &self.nodes[j].inputs[t].port,
                    );
                    if port_match && !self.nodes[i].outputs[u].ty.intersects(
                        &self.nodes[j].input_type,
                    ) {
                        proof {
                            assert(out_port_view(self.nodes@[i as int].outputs@[u as int])
                                == self.nodes@[j as int].inputs@[t as int].port_view());
                            assert(!edge_types_ok(
                                self.nodes@,
                                j as int,
                                self.nodes@[j as int].inputs@[t as int],
                            ));
                        }
                        return false;
                    }
                    u += 1;
                }
            }
            i += 1;
        }
        proof {
            assert forall|i2: int, u: int|
                0 <= i2 < self.nodes@.len() && self.nodes@[i2].kind != NodeKind::Sink
                    && self.nodes@[i2].key@ == self.nodes@[j as int].inputs@[t as int].component@
                    && 0 <= u < self.nodes@[i2].outputs@.len() && #[trigger] out_port_view(
                    self.nodes@[i2].outputs@[u],
                ) == self.nodes@[j as int].inputs@[t as int].port_view() implies self.nodes@[
            i2].outputs@[u].ty.spec_intersects(&self.nodes@[j as int].input_type) by {
                if !self.nodes@[i2].outputs@[u].ty.spec_intersects(
                    &self.nodes@[j as int].input_type,
                ) {
                    assert(exists|w: int|
                        0 <= w < self.nodes@[i2].outputs@.len() && #[trigger] out_port_view(
                            self.nodes@[i2].outputs@[w],
                        ) == self.nodes@[j as int].inputs@[t as int].port_view()
                            && !self.nodes@[i2].outputs@[w].ty.spec_intersects(
                            &self.nodes@[j as int].input_type,
                        ));
                    assert(false);
                }
            }
        }
        true
    }

    /// Validate every consumer's input list.
    ///
    /// Three passes over transforms and sinks in graph order: inputs
    /// repeated inside one consumer, consumers with no inputs at all, and
    /// inputs that match no producer stream. The result is empty exactly
    /// when every consumer's inputs are well-shaped.
    pub fn check_inputs(&self) -> (errors: Vec<String>)
        ensures
            errors@.len() == 0 <==> forall|j: int|
                0 <= j < self.nodes@.len() ==> consumer_ok(self.nodes@, j),
    {
        let mut errors: Vec<String> = Vec::new();
        let a1 = self.dup_input_errors(&mut errors);
        let a2 = self.empty_input_errors(&mut errors);
        let a3 = self.unknown_input_errors(&mut errors);
        proof {
            if !a1 && !a2 && !a3 {
                assert forall|j: int|
                    0 <= j < self.nodes@.len() implies consumer_ok(self.nodes@, j) by {
                    assert(consumer_ok_dups(self.nodes@, j));
                }
            } else {
                assert(errors@.len() > 0);
                if forall|j: int| 0 <= j < self.nodes@.len() ==> consumer_ok(self.nodes@, j) {
                    assert forall|j: int|
                        0 <= j < self.nodes@.len() implies consumer_ok_dups(self.nodes@, j) by {
                        assert(consumer_ok(self.nodes@, j));
                    }
                    assert forall|j: int|
                        0 <= j < self.nodes@.len() && is_consumer(self.nodes@[j])
                            implies self.nodes@[j].inputs@.len() > 0 by {
                        assert(consumer_ok(self.nodes@, j));
                    }
                    assert forall|j: int, t: int|
                        0 <= j < self.nodes@.len() && is_consumer(self.nodes@[j]) && 0 <= t
                            < self.nodes@[j].inputs@.len() implies input_known(
                        self.nodes@,
                        #[trigger] self.nodes@[j].inputs@[t],
                    ) by {
                        assert(consumer_ok(self.nodes@, j));
                    }
                    assert(!a1);
                    assert(!a2);
                    assert(!a3);
                }
            }
        }
        errors
    }

    /// Warn for every source or transform that no consumer references.
    /// Transforms are reported before sources, each in graph order; the
    /// result is empty exactly when everything has a consumer.
    #[verifier::loop_isolation(false)]
    pub fn node_warnings(&self) -> (warnings: Vec<String>)
        ensures
            warnings@.len() == 0 <==> forall|i: int|
                0 <= i < self.nodes@.len() && self.nodes@[i].kind != NodeKind::Sink ==> has_consumer(
                    self.nodes@,
                    i,
                ),
    {
        let n = self.nodes.len();
        let mut warnings: Vec<String> = Vec::new();
        let mut i: usize = 0;
        while i < n
            invariant
                0 <= i <= n,
                n == self.nodes@.len(),
                warnings@.len() == 0 <==> forall|q: int|
                    0 <= q < i && self.nodes@[q].kind == NodeKind::Transform ==> has_consumer(
                        self.nodes@,
                        q,
                    ),
            decreases n - i,
        {
            let is_transform = match self.nodes[i].kind {
                NodeKind::Transform => true,
                _ => false,
            };
            if is_transform && !self.consumed(i) {
                let mut msg = "Transform \"".to_owned();
                msg.append(self.nodes[i].key.id());
                msg.append("\" has no consumers");
                warnings.push(msg);
            }
            i += 1;
        }
        let after_transforms = warnings.len();
        let mut i2: usize = 0;
        while i2 < n
            invariant
                0 <= i2 <= n,
                n == self.nodes@.len(),
                warnings@.len() >= after_transforms,
                after_transforms == 0 <==> forall|q: int|
                    0 <= q < n && self.nodes@[q].kind == NodeKind::Transform ==> has_consumer(
                        self.nodes@,
                        q,
                    ),
                warnings@.len() == after_transforms <==> forall|q: int|
                    0 <= q < i2 && self.nodes@[q].kind == NodeKind::Source ==> has_consumer(
                        self.nodes@,
                        q,
                    ),
            decreases n - i2,
        {
            let is_source = match self.nodes[i2].kind {
                NodeKind::Source => true,
                _ => false,
            };
            if is_source && !self.consumed(i2) {
                let mut msg = "Source \"".to_owned();
                msg.append(self.nodes[i2].key.id());
                msg.append("\" has no consumers");
                warnings.push(msg);
            }
            i2 += 1;
        }
        warnings
    }

    /// Resolve the wire form of an output identifier against the graph:
    /// the producer stream whose `name` or `name.port` text equals `s`,
    /// or `None` exactly when no producer stream carries that text.
    #[verifier::loop_isolation(false)]
    pub fn output_for_text(&self, s: &String) -> (r: Option<OutputId>)
        ensures
            match r {
                Some(oid) => input_known(self.nodes@, oid) && crate::id::spec_output_text(
                    oid.component@,
                    oid.port_view(),
                ) == s@,
                None => !stream_text_matches(self.nodes@, s@),
            },
    {
        let n = self.nodes.len();
        let mut i: usize = 0;
        while i < n
            invariant
                0 <= i <= n,
                n == self.nodes@.len(),
                forall|q: int, u: int|
                    0 <= q < i && self.nodes@[q].kind != NodeKind::Sink && 0 <= u < self.nodes@[
                        q
                    ].outputs@.len() ==> crate::id::spec_output_text(
                        self.nodes@[q].key@,
                        #[trigger] out_port_view(self.nodes@[q].outputs@[u]),
                    ) != s@,
            decreases n - i,
        {
            let not_sink = match self.nodes[i].kind {
                NodeKind::Sink => false,
                _ => true,
            };
            if not_sink {
                let m = self.nodes[i].outputs.len();
                let mut t: usize = 0;
                while t < m
                    invariant
                        0 <= t <= m,
                        0 <= i < n,
                        n == self.nodes@.len(),
                        self.nodes@[i as int].kind != NodeKind::Sink,
                        m == self.nodes@[i as int].outputs@.len(),
                        forall|u: int|
                            0 <= u < t ==> crate::id::spec_output_text(
                                self.nodes@[i as int].key@,
                                #[trigger] out_port_view(self.nodes@[i as int].outputs@[u]),
                            ) != s@,
                    decreases m - t,
                {
                    let cand = match &self.nodes[i].outputs[t].port {
                        None => OutputId::from_key(self.nodes[i].key.clone()),
                        Some(p) => OutputId::with_port(self.nodes[i].key.clone(), p.clone()),
                    };
                    let matches_here = str_eq(cand.to_text().as_str(), s.as_str());
                    proof {
                        assert(out_port_view(self.nodes@[i as int].outputs@[t as int])
                            == cand.port_view());
                    }
                    if matches_here {
                        proof {
                            assert(input_known(self.nodes@, cand));
                        }
                        return Some(cand);
                    }
                    t += 1;
                }
            }
            i += 1;
        }
        None
    }

    /// Whether some consumer references node `i`.
    fn consumed(&self, i: usize) -> (r: bool)
        requires
            i < self.nodes@.len(),
        ensures
            r == has_consumer(self.nodes@, i as int),
    {
        let n = self.nodes.len();
        let mut j: usize = 0;
        while j < n
            invariant
                0 <= j <= n,
                i < n,
                n == self.nodes@.len(),
                forall|q: int|
                    0 <= q < j ==> !(is_consumer(self.nodes@[q]) && has_edge(
                        self.nodes@,
                        i as int,
                        q,
                    )),
            decreases n - j,
        {
            let is_cons = match self.nodes[j].kind {
                NodeKind::Transform => true,
                NodeKind::Sink => true,
                NodeKind::Source => false,
            };
            if is_cons && self.edge_from_to(i, j) {
                return true;
            }
            j += 1;
        }
        false
    }
}

/// The duplicate-freedom part of `consumer_ok`.
pub open spec fn consumer_ok_dups(nodes: Seq<Node>, j: int) -> bool {
    is_consumer(nodes[j]) ==> forall|t1: int, t2: int|
        #![trigger nodes[j].inputs@[t1], nodes[j].inputs@[t2]]
        0 <= t1 < t2 < nodes[j].inputs@.len() ==> !same_input(
            nodes[j].inputs@[t1],
            nodes[j].inputs@[t2],
        )
}

} // verus!
