//! A graph stored in post order, with the set of reachable nodes kept per node.
use vstd::prelude::*;
use crate::graph::postorder_between;
use crate::graph::preorder_of;
use crate::graph::preorder_of_children;
use crate::graph::reaches;
use crate::graph::Dag;
use crate::graph::DagView;
use crate::graph::MutDag;
use crate::graph::NodeId;
use crate::ids::OpId;
use crate::ids::TypeId;

verus! {

/// Whether bit `i` of the bit set `words` is set.
pub open spec fn bit(words: Seq<u64>, i: int) -> bool {
    0 <= i < 64 * words.len() && (words[i / 64] >> ((i % 64) as u64)) & 1u64 == 1u64
}

/// A DAG where nodes are physically stored in strict post order.
pub struct PostOrderDag<N, L> {
    nodes: Vec<N>,
    edges: Vec<Vec<NodeId>>,
    parents: Vec<Vec<NodeId>>,
    data: Vec<Option<L>>,
    original_ops: Vec<Option<OpId>>,
    actual_types: Vec<Option<TypeId>>,
    descendants: Vec<Vec<u64>>,
}

proof fn reaches_only_down(edges: Seq<Seq<NodeId>>, root: int, target: int)
    requires
        reaches(edges, root, target),
    ensures
        target <= root,
    decreases root,
{
    if root != target {
        let k = choose|k: int|
            0 <= root < edges.len() && 0 <= k < edges[root].len() && (#[trigger] edges[root][k]).0
                < root && reaches(edges, edges[root][k].0 as int, target);
        reaches_only_down(edges, edges[root][k].0 as int, target);
    }
}

proof fn reaches_after_edge(
    edges: Seq<Seq<NodeId>>,
    from: int,
    to: NodeId,
    root: int,
    target: int,
)
    requires
        0 <= from < edges.len(),
        reaches(edges, root, target),
    ensures
        reaches(edges.update(from, edges[from].push(to)), root, target),
    decreases root,
{
    let more = edges.update(from, edges[from].push(to));
    if root != target {
        let k = choose|k: int|
            0 <= root < edges.len() && 0 <= k < edges[root].len() && (#[trigger] edges[root][k]).0
                < root && reaches(edges, edges[root][k].0 as int, target);
        reaches_after_edge(edges, from, to, edges[root][k].0 as int, target);
        assert(more[root][k] == edges[root][k]);
    }
}

proof fn reaches_after_node(edges: Seq<Seq<NodeId>>, root: int, target: int)
    requires
        0 <= root < edges.len(),
    ensures
        reaches(edges.push(Seq::empty()), root, target) == reaches(edges, root, target),
    decreases root,
{
    let more = edges.push(Seq::empty());
    assert(more[root] == edges[root]);
    if reaches(edges, root, target) && root != target {
        let k = choose|k: int|
            0 <= root < edges.len() && 0 <= k < edges[root].len() && (#[trigger] edges[root][k]).0
                < root && reaches(edges, edges[root][k].0 as int, target);
        reaches_after_node(edges, edges[root][k].0 as int, target);
        assert(more[root][k].0 < root);
    }
    if reaches(more, root, target) && root != target {
        let k = choose|k: int|
            0 <= root < more.len() && 0 <= k < more[root].len() && (#[trigger] more[root][k]).0
                < root && reaches(more, more[root][k].0 as int, target);
        reaches_after_node(edges, more[root][k].0 as int, target);
        assert(edges[root][k].0 < root);
    }
}

proof fn or_bit(a: u64, b: u64, j: u64)
    requires
        j < 64,
    ensures
        ((a | b) >> j) & 1u64 == 1u64 <==> ((a >> j) & 1u64 == 1u64 || (b >> j) & 1u64 == 1u64),
{
    assert(((a | b) >> j) & 1u64 == 1u64 <==> ((a >> j) & 1u64 == 1u64 || (b >> j) & 1u64 == 1u64))
        by (bit_vector)
        requires
            j < 64,
    ;
}

proof fn one_bit(k: u64, j: u64)
    requires
        j < 64,
        k < 64,
    ensures
        ((1u64 << k) >> j) & 1u64 == 1u64 <==> j == k,
        (0u64 >> j) & 1u64 == 0u64,
{
    assert(((1u64 << k) >> j) & 1u64 == 1u64 <==> j == k) by (bit_vector)
        requires
            j < 64,
            k < 64,
    ;
    assert((0u64 >> j) & 1u64 == 0u64) by (bit_vector);
}

proof fn test_bit(w: u64, k: u64)
    requires
        k < 64,
    ensures
        (w & (1u64 << k)) != 0 <==> (w >> k) & 1u64 == 1u64,
{
    assert((w & (1u64 << k)) != 0 <==> (w >> k) & 1u64 == 1u64) by (bit_vector)
        requires
            k < 64,
    ;
}

proof fn zero_word(w: u64, k: u64)
    requires
        w == 0,
        k < 64,
    ensures
        (w >> k) & 1u64 == 0u64,
{
    assert((w >> k) & 1u64 == 0u64) by (bit_vector)
        requires
            w == 0,
            k < 64,
    ;
}

impl<N, L> PostOrderDag<N, L> {
    pub closed spec fn edge_lists(&self) -> Seq<Seq<NodeId>> {
        Seq::new(self.edges.len() as nat, |i: int| self.edges[i]@)
    }

    closed spec fn rows(&self) -> Seq<Seq<u64>> {
        Seq::new(self.descendants.len() as nat, |i: int| self.descendants[i]@)
    }

    /// The lists agree in length, edges lead down, and every edge is recorded
    /// at both of its ends.
    closed spec fn shaped(&self) -> bool {
        let n = self.nodes.len();
        let words = (n + 63) / 64;
        &&& n <= u32::MAX
        &&& self.edges.len() == n
        &&& self.parents.len() == n
        &&& self.data.len() == n
        &&& self.original_ops.len() == n
        &&& self.actual_types.len() == n
        &&& self.descendants.len() == n
        &&& forall|i: int| 0 <= i < n ==> (#[trigger] self.descendants[i]).len() == words
        &&& forall|p: int, k: int|
            0 <= p < n && 0 <= k < self.edges[p].len() ==> (#[trigger] self.edges[p][k]).0 < p
        &&& forall|p: int, k: int|
            0 <= p < n && 0 <= k < self.edges[p].len() ==> self.parents[(
            #[trigger] self.edges[p][k]).0 as int]@.contains(NodeId(p as u32))
        &&& forall|c: int, k: int|
            0 <= c < n && 0 <= k < self.parents[c].len() ==> {
                let p = (#[trigger] self.parents[c][k]).0;
                c < p < n && self.edges[p as int]@.contains(NodeId(c as u32))
            }
    }

    /// Every recorded bit stands for a reachable node, and every node reaches
    /// itself.
    closed spec fn sound(&self) -> bool {
        &&& forall|r: int, t: int|
            0 <= r < self.nodes.len() && #[trigger] bit(self.rows()[r], t) ==> reaches(
                self.edge_lists(),
                r,
                t,
            )
        &&& forall|r: int| 0 <= r < self.nodes.len() ==> #[trigger] bit(self.rows()[r], r)
    }

    /// What an edge into a node of position `low` or above points to is
    /// recorded at the node it leaves.
    closed spec fn closed_from(&self, low: int) -> bool {
        forall|p: int, k: int, t: int|
            0 <= p < self.nodes.len() && 0 <= k < self.edges[p].len() && low <= self.edges[p][k].0
                && bit(self.rows()[(#[trigger] self.edges[p][k]).0 as int], t) ==> #[trigger] bit(
                self.rows()[p],
                t,
            )
    }

    closed spec fn exact(&self) -> bool {
        forall|r: int, t: int|
            0 <= r < self.nodes.len() ==> (#[trigger] bit(self.rows()[r], t) <==> reaches(
                self.edge_lists(),
                r,
                t,
            ))
    }

    /// Everything but the recorded bits is as in `other`.
    closed spec fn same_graph(&self, other: &Self) -> bool {
        &&& self.nodes == other.nodes
        &&& self.edges == other.edges
        &&& self.parents == other.parents
        &&& self.data == other.data
        &&& self.original_ops == other.original_ops
        &&& self.actual_types == other.actual_types
    }

    /// An empty graph.
    pub fn new() -> (r: Self)
        ensures
            r.wf(),
            r.dag() == (DagView::<N, L> {
                nodes: Seq::empty(),
                edges: Seq::empty(),
                leaves: Seq::empty(),
                ops: Seq::empty(),
                types: Seq::empty(),
            }),
    {
        let r = PostOrderDag {
            nodes: Vec::new(),
            edges: Vec::new(),
            parents: Vec::new(),
            data: Vec::new(),
            original_ops: Vec::new(),
            actual_types: Vec::new(),
            descendants: Vec::new(),
        };
        assert(r.edge_lists() =~= Seq::empty());
        r
    }

    fn word_len(&self) -> (n: usize)
        requires
            self.nodes.len() <= u32::MAX,
        ensures
            n == (self.nodes.len() + 63) / 64,
    {
        let len = self.nodes.len();
        if len % 64 == 0 {
            len / 64
        } else {
            len / 64 + 1
        }
    }

    fn mark_descendant(bits: &mut Vec<u64>, node: NodeId)
        requires
            node.0 < 64 * old(bits).len(),
        ensures
            final(bits).len() == old(bits).len(),
            forall|t: int|
                #[trigger] bit(final(bits)@, t) <==> (bit(old(bits)@, t) || t == node.0),
    {
        let idx: usize = node.index();
        let shift: u64 = (idx % 64) as u64;
        let word: u64 = bits[idx / 64];
        let marked: u64 = word | (1u64 << shift);
        let ghost before = bits@;
        bits.set(idx / 64, marked);
        assert forall|t: int| #[trigger] bit(bits@, t) <==> (bit(before, t) || t == node.0) by {
            if 0 <= t < 64 * before.len() {
                or_bit(word, 1u64 << shift, (t % 64) as u64);
                one_bit(shift, (t % 64) as u64);
            }
        }
    }

    fn contains_reachable(&self, root: NodeId, target: NodeId) -> (r: bool)
        requires
            self.wf(),
            root.0 < self.dag().nodes.len(),
            target.0 < self.dag().nodes.len(),
        ensures
            r == reaches(self.dag().edges, root.0 as int, target.0 as int),
    {
        let idx: usize = target.index();
        let shift: u64 = (idx % 64) as u64;
        let word: u64 = self.descendants[root.index()][idx / 64];
        proof {
            test_bit(word, shift);
            assert(self.rows()[root.0 as int] == self.descendants[root.0 as int]@);
            assert(bit(self.rows()[root.0 as int], target.0 as int) <==> (word & (1u64 << shift))
                != 0);
        }
        (word & (1u64 << shift)) != 0
    }

    fn merge_descendants(&mut self, into: NodeId, from: NodeId) -> (changed: bool)
        requires
            old(self).shaped(),
            into.0 < old(self).nodes.len(),
            from.0 < into.0,
        ensures
            final(self).same_graph(old(self)),
            final(self).shaped(),
            forall|r: int|
                0 <= r < old(self).nodes.len() && r != into.0 ==> #[trigger] final(self).rows()[r]
                    == old(self).rows()[r],
            forall|t: int|
                #[trigger] bit(final(self).rows()[into.0 as int], t) <==> (bit(
                    old(self).rows()[into.0 as int],
                    t,
                ) || bit(old(self).rows()[from.0 as int], t)),
            !changed ==> final(self).rows() == old(self).rows(),
    {
        let src = self.descendants[from.index()].clone();
        assert(src@ =~= self.rows()[from.0 as int]);
        self.merge_bits(into, &src)
    }

    fn merge_bits(&mut self, into: NodeId, bits: &Vec<u64>) -> (changed: bool)
        requires
            old(self).shaped(),
            into.0 < old(self).nodes.len(),
            bits.len() == old(self).descendants[into.0 as int].len(),
        ensures
            final(self).same_graph(old(self)),
            final(self).shaped(),
            forall|r: int|
                0 <= r < old(self).nodes.len() && r != into.0 ==> #[trigger] final(self).rows()[r]
                    == old(self).rows()[r],
            forall|t: int|
                #[trigger] bit(final(self).rows()[into.0 as int], t) <==> (bit(
                    old(self).rows()[into.0 as int],
                    t,
                ) || bit(bits@, t)),
            !changed ==> final(self).rows() == old(self).rows(),
    {
        let index: usize = into.index();
        let dst: Vec<u64> = self.descendants[index].clone();
        let mut out: Vec<u64> = Vec::new();
        let mut changed = false;
        let mut i: usize = 0;
        while i < dst.len()
            invariant
                i <= dst.len(),
                out.len() == i,
                dst.len() == bits.len(),
                forall|j: int| 0 <= j < i ==> #[trigger] out[j] == dst[j] | bits[j],
                !changed ==> forall|j: int| 0 <= j < i ==> #[trigger] out[j] == dst[j],
            decreases dst.len() - i,
        {
            let merged: u64 = dst[i] | bits[i];
            if merged != dst[i] {
                changed = true;
            }
            out.push(merged);
            i += 1;
        }
        let ghost before = *self;
        let ghost row = out@;
        self.descendants.set(index, out);
        proof {
            assert(dst@ =~= before.rows()[into.0 as int]);
            assert(self.rows()[into.0 as int] == row);
            assert forall|t: int|
                #[trigger] bit(self.rows()[into.0 as int], t) <==> (bit(
                    before.rows()[into.0 as int],
                    t,
                ) || bit(bits@, t)) by {
                if 0 <= t < 64 * row.len() {
                    let a = dst@[t / 64];
                    let b = bits@[t / 64];
                    assert(row[t / 64] == a | b);
                    or_bit(a, b, (t % 64) as u64);
                }
            }
            assert forall|r: int| 0 <= r < before.nodes.len() && r != into.0 implies
                #[trigger] self.rows()[r] == before.rows()[r] by {
                assert(self.descendants[r] == before.descendants[r]);
            }
            if !changed {
                assert(row =~= dst@);
                assert(self.rows() =~= before.rows());
            }
        }
        changed
    }

    fn propagate_reachability(&mut self, node: NodeId)
        requires
            old(self).shaped(),
            old(self).sound(),
            node.0 < old(self).nodes.len(),
            old(self).closed_from(node.0 + 1),
        ensures
            final(self).same_graph(old(self)),
            final(self).shaped(),
            final(self).sound(),
            final(self).closed_from(node.0 as int),
            forall|r: int| 0 <= r <= node.0 ==> #[trigger] final(self).rows()[r] == old(
                self,
            ).rows()[r],
            forall|r: int, t: int|
                0 <= r < old(self).nodes.len() && #[trigger] bit(old(self).rows()[r], t) ==> bit(
                    final(self).rows()[r],
                    t,
                ),
        decreases old(self).nodes.len() - node.0,
    {
        let parents: Vec<NodeId> = self.parents[node.index()].clone();
        assert(parents@ =~= self.parents[node.0 as int]@);
        let mut i: usize = 0;
        while i < parents.len()
            invariant
                i <= parents.len(),
                self.same_graph(old(self)),
                self.shaped(),
                self.sound(),
                node.0 < self.nodes.len(),
                parents@ == self.parents[node.0 as int]@,
                self.closed_from(node.0 + 1),
                forall|r: int| 0 <= r <= node.0 ==> #[trigger] self.rows()[r] == old(
                    self,
                ).rows()[r],
                forall|r: int, t: int|
                    0 <= r < old(self).nodes.len() && #[trigger] bit(old(self).rows()[r], t)
                        ==> bit(self.rows()[r], t),
                forall|j: int, t: int|
                    0 <= j < i && bit(self.rows()[node.0 as int], t) ==> #[trigger] bit(
                        self.rows()[parents[j].0 as int],
                        t,
                    ),
            decreases parents.len() - i,
        {
            let parent = parents[i];
            let ghost before = *self;
            assert(self.parents[node.0 as int][i as int] == parent);
            assert(node.0 < parent.0 < self.nodes.len());
            assert(self.edges[parent.0 as int]@.contains(node));
            let ghost k0 = choose|k: int|
                0 <= k < self.edges[parent.0 as int].len() && self.edges[parent.0 as int][k]
                    == node;
            let changed = self.merge_descendants(parent, node);
            proof {
                self.merge_keeps_sound(&before, parent, node, k0);
            }
            let ghost merged = *self;
            if changed {
                assert(self.closed_from(parent.0 + 1)) by {
                    assert forall|p: int, k: int, t: int|
                        0 <= p < self.nodes.len() && 0 <= k < self.edges[p].len() && parent.0 + 1
                            <= self.edges[p][k].0 && bit(
                            self.rows()[(#[trigger] self.edges[p][k]).0 as int],
                            t,
                        ) implies #[trigger] bit(self.rows()[p], t) by {
                        assert(before.edges[p][k].0 < p);
                        assert(bit(before.rows()[before.edges[p][k].0 as int], t));
                        assert(bit(before.rows()[p], t));
                    }
                }
                self.propagate_reachability(parent);
                proof {
                    assert(self.closed_from(node.0 + 1)) by {
                        assert forall|p: int, k: int, t: int|
                            0 <= p < self.nodes.len() && 0 <= k < self.edges[p].len() && node.0 + 1
                                <= self.edges[p][k].0 && bit(
                                self.rows()[(#[trigger] self.edges[p][k]).0 as int],
                                t,
                            ) implies #[trigger] bit(self.rows()[p], t) by {
                            let c = self.edges[p][k].0 as int;
                            if c < parent.0 {
                                assert(self.rows()[c] == merged.rows()[c]);
                                assert(merged.rows()[c] == before.rows()[c]);
                                assert(bit(before.rows()[before.edges[p][k].0 as int], t));
                                assert(bit(before.rows()[p], t));
                                assert(bit(merged.rows()[p], t));
                            }
                        }
                    }
                }
            } else {
                assert(self.rows() == before.rows());
            }
            proof {
                assert forall|j: int, t: int|
                    0 <= j < i + 1 && bit(self.rows()[node.0 as int], t) implies #[trigger] bit(
                    self.rows()[parents[j].0 as int],
                    t,
                ) by {
                    assert(self.rows()[node.0 as int] == old(self).rows()[node.0 as int]);
                    assert(before.rows()[node.0 as int] == old(self).rows()[node.0 as int]);
                    assert(before.parents[node.0 as int][j].0 < before.nodes.len());
                    if j < i {
                        assert(bit(before.rows()[parents[j].0 as int], t));
                        assert(bit(merged.rows()[parents[j].0 as int], t));
                    } else {
                        assert(bit(merged.rows()[parent.0 as int], t));
                    }
                }
            }
            i += 1;
        }
        proof {
            assert forall|p: int, k: int, t: int|
                0 <= p < self.nodes.len() && 0 <= k < self.edges[p].len() && node.0
                    <= self.edges[p][k].0 && bit(
                    self.rows()[(#[trigger] self.edges[p][k]).0 as int],
                    t,
                ) implies #[trigger] bit(self.rows()[p], t) by {
                if self.edges[p][k].0 == node.0 {
                    assert(self.parents[node.0 as int]@.contains(NodeId(p as u32)));
                    let j = choose|j: int|
                        0 <= j < parents.len() && parents@[j] == NodeId(p as u32);
                    assert(bit(self.rows()[parents[j].0 as int], t));
                }
            }
        }
    }

    /// Merging the nodes a child reaches into the row of its parent keeps the
    /// rows sound.
    proof fn merge_keeps_sound(&self, before: &Self, parent: NodeId, node: NodeId, k: int)
        requires
            before.shaped(),
            before.sound(),
            self.same_graph(before),
            self.shaped(),
            node.0 < parent.0 < before.nodes.len(),
            0 <= k < before.edges[parent.0 as int].len(),
            before.edges[parent.0 as int][k] == node,
            forall|r: int|
                0 <= r < before.nodes.len() && r != parent.0 ==> #[trigger] self.rows()[r]
                    == before.rows()[r],
            forall|t: int|
                #[trigger] bit(self.rows()[parent.0 as int], t) <==> (bit(
                    before.rows()[parent.0 as int],
                    t,
                ) || bit(before.rows()[node.0 as int], t)),
        ensures
            self.sound(),
            forall|r: int, t: int|
                0 <= r < before.nodes.len() && #[trigger] bit(before.rows()[r], t) ==> bit(
                    self.rows()[r],
                    t,
                ),
    {
        assert(self.edge_lists() =~= before.edge_lists());
        assert forall|r: int, t: int|
            0 <= r < self.nodes.len() && #[trigger] bit(self.rows()[r], t) implies reaches(
            self.edge_lists(),
            r,
            t,
        ) by {
            if r == parent.0 {
                if !bit(before.rows()[r], t) {
                    assert(bit(before.rows()[node.0 as int], t));
                    assert(reaches(before.edge_lists(), node.0 as int, t));
                    assert(self.edge_lists()[r][k] == node);
                    assert(self.edge_lists()[r][k].0 < r);
                }
            } else {
                assert(bit(before.rows()[r], t));
            }
        }
        assert forall|r: int| 0 <= r < self.nodes.len() implies #[trigger] bit(
            self.rows()[r],
            r,
        ) by {
            assert(bit(before.rows()[r], r));
        }
    }

    proof fn closed_is_exact(&self, root: int, target: int)
        requires
            self.shaped(),
            self.sound(),
            self.closed_from(0),
            0 <= root < self.nodes.len(),
            reaches(self.edge_lists(), root, target),
        ensures
            bit(self.rows()[root], target),
        decreases root,
    {
        if root != target {
            let edges = self.edge_lists();
            let k = choose|k: int|
                0 <= root < edges.len() && 0 <= k < edges[root].len() && (#[trigger] edges[root][k]).0
                    < root && reaches(edges, edges[root][k].0 as int, target);
            let c = edges[root][k].0 as int;
            self.closed_is_exact(c, target);
            assert(self.edges[root][k].0 == c);
            assert(bit(self.rows()[self.edges[root][k].0 as int], target));
        }
    }

    /// The smallest position reachable from `root`.
    fn first_descendant(&self, root: NodeId) -> (first: usize)
        requires
            self.wf(),
            root.0 < self.dag().nodes.len(),
        ensures
            first <= root.0,
            forall|t: int| 0 <= t < first ==> !#[trigger] reaches(self.dag().edges, root.0 as int, t),
    {
        let bits: &Vec<u64> = &self.descendants[root.index()];
        assert(self.rows()[root.0 as int] == bits@);
        let mut word: usize = 0;
        while word < bits.len()
            invariant
                self.wf(),
                word <= bits.len(),
                bits@ == self.rows()[root.0 as int],
                root.0 < self.dag().nodes.len(),
                forall|t: int| 0 <= t < 64 * word ==> !#[trigger] bit(bits@, t),
            decreases bits.len() - word,
        {
            let mask: u64 = bits[word];
            if mask != 0 {
                let low: u32 = mask.trailing_zeros();
                proof {
                    vstd::std_specs::bits::axiom_u64_trailing_zeros(mask);
                    let found = 64 * word + low;
                    assert(low < 64);
                    assert((mask >> (low as u64)) & 1u64 == 1u64);
                    assert(found / 64 == word as int && found % 64 == low as int);
                    assert(bit(bits@, found));
                    reaches_only_down(self.dag().edges, root.0 as int, found);
                    assert forall|t: int| 0 <= t < found implies !#[trigger] reaches(
                        self.dag().edges,
                        root.0 as int,
                        t,
                    ) by {
                        assert(!bit(bits@, t)) by {
                            if t >= 64 * word {
                                assert(t / 64 == word as int);
                                let j = (t % 64) as u64;
                                assert(j < low);
                                assert((mask >> j) & 1u64 == 0u64);
                            }
                        }
                    }
                }
                return word * 64 + low as usize;
            }
            proof {
                assert forall|t: int| 0 <= t < 64 * (word + 1) implies !#[trigger] bit(bits@, t) by {
                    if t >= 64 * word {
                        zero_word(mask, (t % 64) as u64);
                    }
                }
            }
            word += 1;
        }
        proof {
            assert(bit(bits@, root.0 as int));
        }
        root.index()
    }

    /// Post-order traversal of the subtree reachable from `root`, like
    /// [`Dag::postorder`] but starting the scan at `root`'s lowest-indexed
    /// descendant instead of node 0. For a tree (every node has one parent) a
    /// subtree occupies a contiguous index range, so this visits exactly the
    /// subtree.
    pub fn postorder_from(&self, root: NodeId) -> (iter: PostOrderDagIter<'_, N, L>)
        requires
            self.wf(),
            root.0 < self.dag().nodes.len(),
        ensures
            iter.wf(),
            iter.remaining() == postorder_between(self.dag().edges, root.0 as int, 0),
    {
        let first: usize = self.first_descendant(root);
        proof {
            postorder_skips(self.dag().edges, root.0 as int, 0, first as int);
        }
        PostOrderDagIter { dag: self, root, next_index: first, end_index: root.index() }
    }

    fn nth_preorder(&self, node: NodeId, remaining: &mut usize) -> (r: Option<NodeId>)
        requires
            self.wf(),
            node.0 < self.dag().nodes.len(),
        ensures
            ({
                let order = preorder_of(self.dag().edges, node.0 as int);
                if *old(remaining) < order.len() {
                    r == Some(order[*old(remaining) as int])
                } else {
                    r is None && *final(remaining) == *old(remaining) - order.len()
                }
            }),
        decreases node.0,
    {
        let ghost edges = self.dag().edges;
        let ghost start = *remaining;
        if *remaining == 0 {
            return Some(node);
        }
        *remaining = *remaining - 1;
        let children: &Vec<NodeId> = &self.edges[node.index()];
        let mut i: usize = 0;
        while i < children.len()
            invariant
                self.wf(),
                edges == self.dag().edges,
                node.0 < self.dag().nodes.len(),
                i <= children.len(),
                children@ == edges[node.0 as int],
                start == *old(remaining),
                start >= 1,
                start - 1 - preorder_of_children(edges, node.0 as int, i as nat).len()
                    == *remaining,
            decreases children.len() - i,
        {
            let child = children[i];
            assert(self.edges[node.0 as int][i as int] == child);
            let ghost done = preorder_of_children(edges, node.0 as int, i as nat);
            let ghost below = preorder_of(edges, child.0 as int);
            let ghost next = preorder_of_children(edges, node.0 as int, (i + 1) as nat);
            assert(next =~= done + below);
            let ghost here = *remaining;
            if let Some(found) = self.nth_preorder(child, remaining) {
                proof {
                    preorder_prefix(edges, node.0 as int, (i + 1) as nat);
                    let all = preorder_of(edges, node.0 as int);
                    assert(found == below[here as int]);
                    assert(next[done.len() + here] == found);
                    assert(all[1 + done.len() + here] == found);
                }
                return Some(found);
            }
            i += 1;
        }
        None
    }
}

proof fn preorder_prefix(edges: Seq<Seq<NodeId>>, node: int, count: nat)
    requires
        0 <= node < edges.len(),
        count <= edges[node].len(),
    ensures
        ({
            let part = preorder_of_children(edges, node, count);
            let all = preorder_of_children(edges, node, edges[node].len());
            part.len() <= all.len() && part =~= all.take(part.len() as int)
        }),
    decreases edges[node].len() - count,
{
    if count < edges[node].len() {
        preorder_prefix(edges, node, count + 1);
        let part = preorder_of_children(edges, node, count);
        let more = preorder_of_children(edges, node, count + 1);
        assert(part =~= more.take(part.len() as int));
    }
}

proof fn postorder_skips(edges: Seq<Seq<NodeId>>, root: int, from: int, to: int)
    requires
        0 <= from <= to <= root,
        forall|t: int| from <= t < to ==> !#[trigger] reaches(edges, root, t),
    ensures
        postorder_between(edges, root, from) == postorder_between(edges, root, to),
    decreases to - from,
{
    if from < to {
        assert(!reaches(edges, root, from));
        postorder_skips(edges, root, from + 1, to);
    }
}

impl<N, L> Default for PostOrderDag<N, L> {
    fn default() -> (r: Self)
        ensures
            r.wf(),
            r.dag().nodes.len() == 0,
    {
        Self::new()
    }
}

/// A post-order walk under way.
pub struct PostOrderDagIter<'a, N, L> {
    dag: &'a PostOrderDag<N, L>,
    root: NodeId,
    next_index: usize,
    end_index: usize,
}

impl<'a, N, L> PostOrderDagIter<'a, N, L> {
    pub closed spec fn wf(&self) -> bool {
        &&& self.dag.wf()
        &&& self.root.0 < self.dag.dag().nodes.len()
        &&& self.end_index == self.root.0
        &&& self.next_index <= self.end_index + 1
    }

    /// The nodes the walk has yet to visit, in order.
    pub closed spec fn remaining(&self) -> Seq<NodeId> {
        postorder_between(self.dag.dag().edges, self.root.0 as int, self.next_index as int)
    }

    /// The next node of the walk, or `None` at its end.
    pub fn next(&mut self) -> (r: Option<NodeId>)
        requires
            old(self).wf(),
        ensures
            final(self).wf(),
            old(self).remaining().len() == 0 ==> r is None && final(self).remaining().len() == 0,
            old(self).remaining().len() > 0 ==> r == Some(old(self).remaining()[0])
                && final(self).remaining() == old(self).remaining().skip(1),
    {
        while self.next_index <= self.end_index
            invariant
                self.wf(),
                self.remaining() == old(self).remaining(),
            decreases self.end_index + 1 - self.next_index,
        {
            let candidate = NodeId::from_index(self.next_index);
            let ghost before = self.remaining();
            self.next_index = self.next_index + 1;
            if self.dag.contains_reachable(self.root, candidate) {
                assert(before.skip(1) =~= self.remaining());
                return Some(candidate);
            }
        }
        None
    }

    /// What is left of the walk, as a list.
    pub fn collect(self) -> (order: Vec<NodeId>)
        requires
            self.wf(),
        ensures
            order@ == self.remaining(),
    {
        let mut iter = self;
        let mut order: Vec<NodeId> = Vec::new();
        let ghost all = iter.remaining();
        loop
            invariant
                iter.wf(),
                order@ + iter.remaining() == all,
            ensures
                order@ == all,
            decreases iter.remaining().len(),
        {
            let ghost before = iter.remaining();
            let ghost done = order@;
            match iter.next() {
                Some(node) => {
                    order.push(node);
                    assert(done + before =~= order@ + iter.remaining());
                },
                None => {
                    assert(order@ =~= all);
                    break;
                },
            }
        }
        order
    }
}

/// A pre-order walk under way.
pub struct PostOrderDagPreorderIter<'a, N, L> {
    dag: &'a PostOrderDag<N, L>,
    start: NodeId,
    next_ordinal: usize,
}

impl<'a, N, L> PostOrderDagPreorderIter<'a, N, L> {
    pub closed spec fn wf(&self) -> bool {
        &&& self.dag.wf()
        &&& self.start.0 < self.dag.dag().nodes.len()
        &&& preorder_of(self.dag.dag().edges, self.start.0 as int).len() <= usize::MAX
        &&& self.next_ordinal <= preorder_of(self.dag.dag().edges, self.start.0 as int).len()
    }

    /// The nodes the walk has yet to visit, in order.
    pub closed spec fn remaining(&self) -> Seq<NodeId> {
        preorder_of(self.dag.dag().edges, self.start.0 as int).skip(self.next_ordinal as int)
    }

    /// The next node of the walk, or `None` at its end.
    pub fn next(&mut self) -> (r: Option<NodeId>)
        requires
            old(self).wf(),
        ensures
            final(self).wf(),
            old(self).remaining().len() == 0 ==> r is None && final(self).remaining().len() == 0,
            old(self).remaining().len() > 0 ==> r == Some(old(self).remaining()[0])
                && final(self).remaining() == old(self).remaining().skip(1),
    {
        let mut remaining: usize = self.next_ordinal;
        let ghost all = preorder_of(self.dag.dag().edges, self.start.0 as int);
        match self.dag.nth_preorder(self.start, &mut remaining) {
            Some(node) => {
                self.next_ordinal = self.next_ordinal + 1;
                assert(all.skip(old(self).next_ordinal as int).skip(1) =~= all.skip(
                    self.next_ordinal as int,
                ));
                Some(node)
            },
            None => None,
        }
    }
}

impl<N, L> Dag for PostOrderDag<N, L> {
    type Node = N;

    type Leaf = L;

    closed spec fn dag(&self) -> DagView<N, L> {
        DagView {
            nodes: self.nodes@,
            edges: self.edge_lists(),
            leaves: self.data@,
            ops: self.original_ops@,
            types: self.actual_types@,
        }
    }

    closed spec fn wf(&self) -> bool {
        self.shaped() && self.exact()
    }

    proof fn nodes_are_whole(&self) {
    }

    fn len(&self) -> (n: usize) {
        self.nodes.len()
    }

    fn get_node(&self, id: NodeId) -> (n: &N) {
        &self.nodes[id.index()]
    }

    fn get_leaf_data(&self, id: NodeId) -> (d: Option<&L>) {
        self.data[id.index()].as_ref()
    }

    fn get_original_op(&self, id: NodeId) -> (op: Option<OpId>) {
        self.original_ops[id.index()]
    }

    fn get_actual_type(&self, id: NodeId) -> (ty: Option<TypeId>) {
        self.actual_types[id.index()]
    }

    fn root(&self) -> (r: Option<NodeId>) {
        if self.nodes.len() == 0 {
            None
        } else {
            Some(NodeId::from_index(self.nodes.len() - 1))
        }
    }

    fn children(&self, id: NodeId) -> (c: Vec<NodeId>) {
        let c = self.edges[id.index()].clone();
        assert(c@ =~= self.edges[id.0 as int]@);
        c
    }

    fn postorder(&self, start: NodeId) -> (order: Vec<NodeId>) {
        let iter = PostOrderDagIter {
            dag: self,
            root: start,
            next_index: 0,
            end_index: start.index(),
        };
        iter.collect()
    }

    fn preorder(&self, start: NodeId) -> (order: Vec<NodeId>) {
        let mut iter = PostOrderDagPreorderIter { dag: self, start, next_ordinal: 0 };
        let ghost all = preorder_of(self.dag().edges, start.0 as int);
        let mut order: Vec<NodeId> = Vec::new();
        assert(iter.remaining() =~= all);
        assert(order@ + iter.remaining() =~= all);
        loop
            invariant
                iter.wf(),
                order@ + iter.remaining() == all,
            ensures
                order@ == all,
            decreases iter.remaining().len(),
        {
            let ghost before = iter.remaining();
            let ghost done = order@;
            match iter.next() {
                Some(node) => {
                    order.push(node);
                    assert(done + before =~= order@ + iter.remaining());
                },
                None => {
                    assert(order@ =~= all);
                    break;
                },
            }
        }
        order
    }
}

impl<N, L> MutDag for PostOrderDag<N, L> {
    fn add_node(&mut self, n: N) -> (id: NodeId) {
        let ghost before = *self;
        let id = NodeId::from_index(self.nodes.len());
        self.nodes.push(n);
        self.edges.push(Vec::new());
        self.parents.push(Vec::new());
        self.data.push(None);
        self.original_ops.push(None);
        self.actual_types.push(None);
        let word_len: usize = self.word_len();
        let mut rows: Vec<Vec<u64>> = Vec::new();
        let mut i: usize = 0;
        while i < self.descendants.len()
            invariant
                i <= self.descendants.len(),
                rows.len() == i,
                self.descendants == before.descendants,
                before.shaped(),
                word_len == (before.nodes.len() + 1 + 63) / 64,
                forall|j: int| 0 <= j < i ==> (#[trigger] rows[j]).len() == word_len,
                forall|j: int, t: int|
                    0 <= j < i ==> (#[trigger] bit(rows[j]@, t) <==> bit(before.rows()[j], t)),
            decreases self.descendants.len() - i,
        {
            let mut row: Vec<u64> = self.descendants[i].clone();
            let ghost held = row@;
            assert(held =~= before.rows()[i as int]);
            row.resize(word_len, 0);
            proof {
                assert forall|t: int| #[trigger] bit(row@, t) <==> bit(before.rows()[i as int], t) by {
                    assert(row@.subrange(0, held.len() as int) =~= held);
                    if 0 <= t < 64 * row.len() {
                        if t / 64 < held.len() {
                            assert(row@[t / 64] == row@.subrange(0, held.len() as int)[t / 64]);
                        } else {
                            assert(row@[t / 64] == 0);
                            zero_word(row@[t / 64], (t % 64) as u64);
                        }
                    }
                }
            }
            rows.push(row);
            i += 1;
        }
        let mut bits: Vec<u64> = vec![0; word_len];
        proof {
            assert forall|t: int| !#[trigger] bit(bits@, t) by {
                if 0 <= t < 64 * bits.len() {
                    zero_word(bits@[t / 64], (t % 64) as u64);
                }
            }
        }
        Self::mark_descendant(&mut bits, id);
        rows.push(bits);
        self.descendants = rows;
        proof {
            let edges = before.edge_lists();
            assert(self.edge_lists() =~= edges.push(Seq::empty()));
            assert forall|r: int, t: int| 0 <= r < self.nodes.len() implies (#[trigger] bit(
                self.rows()[r],
                t,
            ) <==> reaches(self.edge_lists(), r, t)) by {
                assert(self.rows()[r] == self.descendants[r]@);
                if r < before.nodes.len() {
                    reaches_after_node(edges, r, t);
                    assert(bit(self.rows()[r], t) <==> bit(before.rows()[r], t));
                } else {
                    assert(self.edge_lists()[r].len() == 0);
                }
            }
            assert forall|p: int, k: int|
                0 <= p < self.nodes.len() && 0 <= k < self.edges[p].len() implies (
            #[trigger] self.edges[p][k]).0 < p && self.parents[self.edges[p][k].0 as int]@.contains(
                NodeId(p as u32),
            ) by {
                assert(p < before.nodes.len());
                assert(before.edges[p][k].0 < p);
            }
            assert forall|c: int, k: int|
                0 <= c < self.nodes.len() && 0 <= k < self.parents[c].len() implies ({
                let p = (#[trigger] self.parents[c][k]).0;
                c < p < self.nodes.len() && self.edges[p as int]@.contains(NodeId(c as u32))
            }) by {
                assert(c < before.nodes.len());
                assert(before.parents[c][k].0 < before.nodes.len());
            }
        }
        id
    }

    fn add_edge(&mut self, from: NodeId, to: NodeId) {
        let ghost before = *self;
        let mut out: Vec<NodeId> = self.edges[from.index()].clone();
        assert(out@ =~= before.edges[from.0 as int]@);
        out.push(to);
        self.edges.set(from.index(), out);
        let mut up: Vec<NodeId> = self.parents[to.index()].clone();
        assert(up@ =~= before.parents[to.0 as int]@);
        up.push(from);
        self.parents.set(to.index(), up);
        let ghost linked = *self;
        proof {
            let edges = before.edge_lists();
            assert(self.edge_lists() =~= edges.update(
                from.0 as int,
                edges[from.0 as int].push(to),
            ));
            assert(self.rows() =~= before.rows());
            assert(self.shaped()) by {
                assert forall|p: int, k: int|
                    0 <= p < self.nodes.len() && 0 <= k < self.edges[p].len() implies (
                #[trigger] self.edges[p][k]).0 < p && self.parents[self.edges[p][k].0 as int]@.contains(
                    NodeId(p as u32),
                ) by {
                    let c = self.edges[p][k].0 as int;
                    if p == from.0 && k == before.edges[p].len() {
                        assert(self.parents[c]@.last() == from);
                    } else {
                        assert(before.edges[p][k].0 == c);
                        assert(before.parents[c]@.contains(NodeId(p as u32)));
                        let j = choose|j: int|
                            0 <= j < before.parents[c].len() && before.parents[c]@[j] == NodeId(
                                p as u32,
                            );
                        assert(self.parents[c]@[j] == NodeId(p as u32));
                    }
                }
                assert forall|c: int, k: int|
                    0 <= c < self.nodes.len() && 0 <= k < self.parents[c].len() implies ({
                    let p = (#[trigger] self.parents[c][k]).0;
                    c < p < self.nodes.len() && self.edges[p as int]@.contains(NodeId(c as u32))
                }) by {
                    let p = self.parents[c][k].0;
                    if c == to.0 && k == before.parents[c].len() {
                        assert(self.edges[p as int]@.last() == to);
                    } else {
                        assert(before.parents[c][k].0 == p);
                        assert(before.edges[p as int]@.contains(NodeId(c as u32)));
                        let j = choose|j: int|
                            0 <= j < before.edges[p as int].len() && before.edges[p as int]@[j]
                                == NodeId(c as u32);
                        assert(self.edges[p as int]@[j] == NodeId(c as u32));
                    }
                }
            }
            assert(self.sound()) by {
                assert forall|r: int, t: int|
                    0 <= r < self.nodes.len() && #[trigger] bit(self.rows()[r], t) implies reaches(
                    self.edge_lists(),
                    r,
                    t,
                ) by {
                    assert(bit(before.rows()[r], t));
                    reaches_after_edge(edges, from.0 as int, to, r, t);
                }
                assert forall|r: int| 0 <= r < self.nodes.len() implies #[trigger] bit(
                    self.rows()[r],
                    r,
                ) by {
                    assert(reaches(edges, r, r));
                    assert(bit(before.rows()[r], r));
                }
            }
        }
        let changed = self.merge_descendants(from, to);
        proof {
            let last = linked.edges[from.0 as int].len() - 1;
            self.merge_keeps_sound(&linked, from, to, last);
            assert forall|p: int, k: int, t: int|
                0 <= p < self.nodes.len() && 0 <= k < self.edges[p].len() && (from.0 + 1
                    <= self.edges[p][k].0 || (!changed && 0 <= self.edges[p][k].0)) && bit(
                    self.rows()[(#[trigger] self.edges[p][k]).0 as int],
                    t,
                ) implies #[trigger] bit(self.rows()[p], t) by {
                let c = self.edges[p][k].0 as int;
                if p == from.0 && k == before.edges[p].len() {
                    assert(c == to.0);
                    assert(bit(linked.rows()[to.0 as int], t));
                } else {
                    assert(before.edges[p][k].0 == c);
                    assert(bit(before.rows()[c], t));
                    assert(reaches(before.edge_lists(), c, t));
                    assert(before.edge_lists()[p][k].0 < p);
                    assert(reaches(before.edge_lists(), p, t));
                    assert(bit(before.rows()[p], t));
                    assert(bit(linked.rows()[p], t));
                }
            }
        }
        let ghost merged = *self;
        if changed {
            assert(self.closed_from(from.0 + 1));
            self.propagate_reachability(from);
            proof {
                assert forall|p: int, k: int, t: int|
                    0 <= p < self.nodes.len() && 0 <= k < self.edges[p].len() && 0
                        <= self.edges[p][k].0 && bit(
                        self.rows()[(#[trigger] self.edges[p][k]).0 as int],
                        t,
                    ) implies #[trigger] bit(self.rows()[p], t) by {
                    let c = self.edges[p][k].0 as int;
                    if c < from.0 {
                        assert(self.rows()[c] == merged.rows()[c]);
                        assert(merged.rows()[c] == before.rows()[c]);
                        if p == from.0 && k == before.edges[p].len() {
                            assert(c == to.0);
                            assert(bit(linked.rows()[to.0 as int], t));
                            assert(bit(merged.rows()[p], t));
                        } else {
                            assert(before.edges[p][k].0 == c);
                            assert(bit(before.rows()[c], t));
                            assert(reaches(before.edge_lists(), c, t));
                            assert(before.edge_lists()[p][k].0 < p);
                            assert(reaches(before.edge_lists(), p, t));
                            assert(bit(before.rows()[p], t));
                            assert(bit(merged.rows()[p], t));
                        }
                    }
                }
            }
        }
        proof {
            assert(self.closed_from(0));
            assert(self.edge_lists() =~= linked.edge_lists());
            assert forall|r: int, t: int| 0 <= r < self.nodes.len() implies (#[trigger] bit(
                self.rows()[r],
                t,
            ) <==> reaches(self.edge_lists(), r, t)) by {
                if reaches(self.edge_lists(), r, t) {
                    self.closed_is_exact(r, t);
                }
            }
        }
    }

    fn set_leaf_data(&mut self, n: NodeId, d: L) {
        let ghost before = *self;
        self.data.set(n.index(), Some(d));
        assert(self.edge_lists() =~= before.edge_lists());
        assert(self.rows() =~= before.rows());
    }

    fn set_original_op(&mut self, n: NodeId, op: OpId) {
        let ghost before = *self;
        self.original_ops.set(n.index(), Some(op));
        assert(self.edge_lists() =~= before.edge_lists());
        assert(self.rows() =~= before.rows());
    }

    fn set_actual_type(&mut self, n: NodeId, ty: TypeId) {
        let ghost before = *self;
        self.actual_types.set(n.index(), Some(ty));
        assert(self.edge_lists() =~= before.edge_lists());
        assert(self.rows() =~= before.rows());
    }
}

/// Every node of a post-order walk comes after the nodes it points to that
/// the walk visits.
pub proof fn postorder_puts_children_first(
    edges: Seq<Seq<NodeId>>,
    root: int,
    from: int,
    i: int,
    j: int,
)
    requires
        0 <= from,
        root < u32::MAX,
        0 <= i < j < postorder_between(edges, root, from).len(),
    ensures
        postorder_between(edges, root, from)[i].0 < postorder_between(edges, root, from)[j].0,
    decreases root + 1 - from,
{
    let order = postorder_between(edges, root, from);
    if reaches(edges, root, from) {
        let rest = postorder_between(edges, root, from + 1);
        if i == 0 {
            postorder_members(edges, root, from + 1, j - 1);
            assert(order[j] == rest[j - 1]);
        } else {
            postorder_puts_children_first(edges, root, from + 1, i - 1, j - 1);
        }
    } else {
        postorder_puts_children_first(edges, root, from + 1, i, j);
    }
}

/// A post-order walk visits exactly the nodes its root reaches.
pub proof fn postorder_members(edges: Seq<Seq<NodeId>>, root: int, from: int, i: int)
    requires
        0 <= from,
        root < u32::MAX,
        0 <= i < postorder_between(edges, root, from).len(),
    ensures
        from <= postorder_between(edges, root, from)[i].0 <= root,
        reaches(edges, root, postorder_between(edges, root, from)[i].0 as int),
    decreases root + 1 - from,
{
    if reaches(edges, root, from) {
        if i > 0 {
            postorder_members(edges, root, from + 1, i - 1);
        }
    } else {
        postorder_members(edges, root, from + 1, i);
    }
}

/// No node a root reaches is missing from the walk that starts at it.
pub proof fn postorder_is_complete(edges: Seq<Seq<NodeId>>, root: int, from: int, target: int)
    requires
        0 <= from <= target,
        root < u32::MAX,
        reaches(edges, root, target),
    ensures
        postorder_between(edges, root, from).contains(NodeId(target as u32)),
    decreases root + 1 - from,
{
    reaches_only_down(edges, root, target);
    let order = postorder_between(edges, root, from);
    if from == target {
        assert(order[0] == NodeId(target as u32));
    } else {
        postorder_is_complete(edges, root, from + 1, target);
        let rest = postorder_between(edges, root, from + 1);
        let k = choose|k: int| 0 <= k < rest.len() && rest[k] == NodeId(target as u32);
        if reaches(edges, root, from) {
            assert(order[k + 1] == NodeId(target as u32));
        } else {
            assert(order[k] == NodeId(target as u32));
        }
    }
}

} // verus!
