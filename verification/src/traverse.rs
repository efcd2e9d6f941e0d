//! Graph traversal: a deduplicated, depth-first, post-order collection of
//! every node reachable from a root, and the gradient reset built on it.
//!
//! The traversal keeps a visited bitmap scoped to the call, never a flag on
//! the nodes, so repeated traversals of a long-lived graph see the whole
//! graph every time.  Because operands always have smaller indices than
//! their consumers, the recursion terminates on the node index itself.

use crate::fixed::fx_of;
use crate::fixed::Fx;
use crate::graph::graph_wf;
use crate::graph::op_operands;
use crate::graph::node_wf;
use crate::graph::Graph;
use crate::graph::MVal;
use crate::graph::Operator;
use crate::graph::Value;
use vstd::prelude::*;

verus! {

/// The visited set described by a bitmap.
pub open spec fn visited_set(bits: Seq<bool>) -> Set<int> {
    Set::new(|i: int| 0 <= i < bits.len() && bits[i])
}

/// Depth-first collection from node `id`: operands before the node itself,
/// each node at most once.  Returns the collected order and the grown
/// visited set; `collect_operands_inner` mirrors this function exactly.
pub open spec fn dfs_node(nodes: Seq<Value>, id: int, vis: Set<int>) -> (Seq<MVal>, Set<int>)
    decreases id, 1int, 0int,
{
    if id < 0 || id >= nodes.len() || vis.contains(id) {
        (seq![], vis)
    } else {
        let r = dfs_ops(nodes, id, 0, vis.insert(id));
        (r.0.push(MVal { id: id as usize }), r.1)
    }
}

/// Depth-first collection of the operands of node `id`, from slot `k` on.
pub open spec fn dfs_ops(nodes: Seq<Value>, id: int, k: int, vis: Set<int>) -> (Seq<MVal>, Set<int>)
    decreases id, 0int, op_operands(nodes[id].op).len() - k,
{
    if 0 <= id < nodes.len() && 0 <= k < op_operands(nodes[id].op).len() {
        let c = op_operands(nodes[id].op)[k].id as int;
        if c < id {
            let r1 = dfs_node(nodes, c, vis);
            let r2 = dfs_ops(nodes, id, k + 1, r1.1);
            (r1.0 + r2.0, r2.1)
        } else {
            dfs_ops(nodes, id, k + 1, vis)
        }
    } else {
        (seq![], vis)
    }
}

/// The deduplicated topological order of all nodes reachable from `root`,
/// root last.
pub open spec fn spec_order(nodes: Seq<Value>, root: int) -> Seq<MVal> {
    dfs_node(nodes, root, Set::empty()).0
}

/// Node `j` occurs somewhere in the collected order.
pub open spec fn in_order(s: Seq<MVal>, j: int) -> bool {
    exists|p: int| 0 <= p < s.len() && (#[trigger] s[p]).id == j
}

/// Node `j` occurs strictly before position `p`.
pub open spec fn before(s: Seq<MVal>, p: int, j: int) -> bool {
    exists|q: int| 0 <= q < p && (#[trigger] s[q]).id == j
}

/// No node occurs twice.
pub open spec fn distinct_ids(s: Seq<MVal>) -> bool {
    forall|p: int, q: int| #![trigger s[p], s[q]] 0 <= p < q < s.len() ==> s[p].id != s[q].id
}

/// Every handle points into the arena.
pub open spec fn ids_valid(s: Seq<MVal>, nodes: Seq<Value>) -> bool {
    forall|p: int| 0 <= p < s.len() ==> (#[trigger] s[p]).id < nodes.len()
}

/// Every node's operands occur strictly before the node itself.
pub open spec fn topo_sorted(nodes: Seq<Value>, s: Seq<MVal>) -> bool {
    forall|p: int, k: int|
        0 <= p < s.len() && 0 <= k < op_operands(nodes[s[p].id as int].op).len() ==> before(
            s,
            p,
            (#[trigger] op_operands(nodes[s[p].id as int].op)[k]).id as int,
        )
}

/// Everything a collected order guarantees: all handles valid, no repeats,
/// operands strictly before their consumers, and the root closing the order.
pub open spec fn order_ok(nodes: Seq<Value>, root: int, s: Seq<MVal>) -> bool {
    &&& ids_valid(s, nodes)
    &&& distinct_ids(s)
    &&& topo_sorted(nodes, s)
    &&& s.len() >= 1
    &&& s[s.len() - 1].id == root
    &&& in_order(s, root)
}

/// Node `to` is reachable from node `from` along operand edges.  Edges only
/// ever point at strictly smaller indices, which bounds the recursion.
pub open spec fn reaches(nodes: Seq<Value>, from: int, to: int) -> bool
    decreases from,
{
    ||| from == to
    ||| exists|k: int|
        0 <= k < op_operands(nodes[from].op).len() && (#[trigger] op_operands(
            nodes[from].op,
        )[k]).id < from && reaches(nodes, op_operands(nodes[from].op)[k].id as int, to)
}

/// The arena with the gradients of the listed nodes cleared.
pub open spec fn zeroed_where(nodes: Seq<Value>, s: Seq<MVal>) -> Seq<Value> {
    Seq::new(
        nodes.len(),
        |j: int|
            if in_order(s, j) {
                Value { grad: fx_of(0), ..nodes[j] }
            } else {
                nodes[j]
            },
    )
}

/// The traversal reads nothing but the operator tags, so two arenas whose
/// nodes carry the same tags are traversed identically.
pub proof fn lemma_dfs_node_congruent(a: Seq<Value>, b: Seq<Value>, id: int, vis: Set<int>)
    requires
        a.len() == b.len(),
        forall|j: int| 0 <= j < a.len() ==> a[j].op == (#[trigger] b[j]).op,
    ensures
        dfs_node(a, id, vis) == dfs_node(b, id, vis),
    decreases id, 1int, 0int,
{
    if id < 0 || id >= a.len() || vis.contains(id) {
    } else {
        assert(a[id].op == b[id].op);
        lemma_dfs_ops_congruent(a, b, id, 0, vis.insert(id));
    }
}

proof fn lemma_dfs_ops_congruent(a: Seq<Value>, b: Seq<Value>, id: int, k: int, vis: Set<int>)
    requires
        a.len() == b.len(),
        forall|j: int| 0 <= j < a.len() ==> a[j].op == (#[trigger] b[j]).op,
    ensures
        dfs_ops(a, id, k, vis) == dfs_ops(b, id, k, vis),
    decreases id, 0int, op_operands(a[id].op).len() - k,
{
    if 0 <= id < a.len() && 0 <= k < op_operands(a[id].op).len() {
        assert(a[id].op == b[id].op);
        let c = op_operands(a[id].op)[k].id as int;
        if c < id {
            lemma_dfs_node_congruent(a, b, c, vis);
            lemma_dfs_ops_congruent(a, b, id, k + 1, dfs_node(a, c, vis).1);
        } else {
            lemma_dfs_ops_congruent(a, b, id, k + 1, vis);
        }
    } else {
        if 0 <= id < a.len() {
            assert(a[id].op == b[id].op);
        }
    }
}

proof fn lemma_in_order_extend(s: Seq<MVal>, t: Seq<MVal>, j: int)
    requires
        in_order(s, j),
    ensures
        in_order(s + t, j),
{
    let q = choose|q: int| 0 <= q < s.len() && (#[trigger] s[q]).id == j;
    assert((s + t)[q].id == j);
}

proof fn lemma_dfs_node_props(nodes: Seq<Value>, id: int, vis: Set<int>, prefix: Seq<MVal>)
    requires
        graph_wf(nodes),
        nodes.len() <= usize::MAX,
        0 <= id < nodes.len(),
        ids_valid(prefix, nodes),
        distinct_ids(prefix),
        topo_sorted(nodes, prefix),
        forall|j: int| in_order(prefix, j) ==> #[trigger] vis.contains(j),
        forall|j: int| #[trigger] vis.contains(j) ==> 0 <= j < nodes.len(),
        forall|j: int| #[trigger] vis.contains(j) && !in_order(prefix, j) ==> j > id,
    ensures
        ({
            let r = dfs_node(nodes, id, vis);
            let full = prefix + r.0;
            &&& ids_valid(full, nodes)
            &&& distinct_ids(full)
            &&& topo_sorted(nodes, full)
            &&& in_order(full, id)
            &&& forall|j: int| in_order(full, j) ==> #[trigger] r.1.contains(j)
            &&& forall|j: int| #[trigger] r.1.contains(j) ==> 0 <= j < nodes.len()
            &&& forall|j: int|
                #[trigger] r.1.contains(j) && !in_order(full, j) ==> vis.contains(j) && !in_order(
                    prefix,
                    j,
                )
            &&& forall|j: int| #[trigger] vis.contains(j) ==> r.1.contains(j)
            &&& forall|j: int| #[trigger] r.1.contains(j) ==> vis.contains(j) || j <= id
            &&& forall|p: int| prefix.len() <= p < full.len() ==> (#[trigger] full[p]).id <= id
        }),
    decreases id, 1int, 0int,
{
    let r = dfs_node(nodes, id, vis);
    let full = prefix + r.0;
    if vis.contains(id) {
        assert(full =~= prefix);
        assert(in_order(prefix, id));
        assert(in_order(full, id));
    } else {
        let vis1 = vis.insert(id);
        lemma_dfs_ops_props(nodes, id, 0, vis1, prefix);
        let r1 = dfs_ops(nodes, id, 0, vis1);
        let full1 = prefix + r1.0;
        let m = MVal { id: id as usize };
        assert(r.0 == r1.0.push(m));
        assert(full =~= full1.push(m));
        assert(!in_order(full1, id)) by {
            if in_order(full1, id) {
                let p = choose|p: int|
                    0 <= p < full1.len() && (#[trigger] full1[p]).id == id;
                if p < prefix.len() {
                    assert(prefix[p].id == id);
                    assert(in_order(prefix, id));
                    assert(vis.contains(id));
                } else {
                    assert(full1[p].id < id);
                }
            }
        }
        assert(ids_valid(full, nodes)) by {
            assert forall|p: int| 0 <= p < full.len() implies (#[trigger] full[p]).id
                < nodes.len() by {
                if p < full1.len() {
                    assert(full[p] == full1[p]);
                } else {
                    assert(full[p] == m);
                }
            }
        }
        assert(distinct_ids(full)) by {
            assert forall|p: int, q: int| #![trigger full[p], full[q]]
                0 <= p < q < full.len() implies full[p].id != full[q].id by {
                if q < full1.len() {
                    assert(full[p] == full1[p] && full[q] == full1[q]);
                    assert(full1[p].id != full1[q].id);
                } else {
                    assert(full[q] == m);
                    assert(full[p] == full1[p]);
                    if full1[p].id == id {
                        assert(in_order(full1, id));
                    }
                }
            }
        }
        assert(topo_sorted(nodes, full)) by {
            assert forall|p: int, k: int|
                0 <= p < full.len() && 0 <= k < op_operands(
                    nodes[full[p].id as int].op,
                ).len() implies before(
                full,
                p,
                (#[trigger] op_operands(nodes[full[p].id as int].op)[k]).id as int,
            ) by {
                if p < full1.len() {
                    assert(full[p] == full1[p]);
                    let j = op_operands(nodes[full1[p].id as int].op)[k].id as int;
                    assert(before(full1, p, j));
                    let q = choose|q: int|
                        0 <= q < p && (#[trigger] full1[q]).id == j;
                    assert(full[q].id == j);
                } else {
                    assert(full[p] == m);
                    let j = op_operands(nodes[id].op)[k].id as int;
                    assert(in_order(full1, j));
                    let q = choose|q: int|
                        0 <= q < full1.len() && (#[trigger] full1[q]).id == j;
                    assert(full[q].id == j);
                }
            }
        }
        assert(in_order(full, id)) by {
            assert(full[full.len() - 1].id == id);
        }
        assert forall|j: int| in_order(full, j) implies #[trigger] r.1.contains(j) by {
            let p = choose|p: int| 0 <= p < full.len() && (#[trigger] full[p]).id == j;
            if p < full1.len() {
                assert(full1[p].id == j);
                assert(in_order(full1, j));
            } else {
                assert(j == id);
                assert(vis1.contains(id));
            }
        }
        assert forall|j: int|
            #[trigger] r.1.contains(j) && !in_order(full, j) implies vis.contains(j)
            && !in_order(prefix, j) by {
            assert(!in_order(full1, j)) by {
                if in_order(full1, j) {
                    lemma_in_order_extend(full1, seq![m], j);
                    assert(full1 + seq![m] =~= full);
                }
            }
            assert(vis1.contains(j) && !in_order(prefix, j));
            if j == id {
                assert(in_order(full, id));
            }
        }
        assert forall|j: int| in_order(prefix, j) implies in_order(full, j) by {
            let q = choose|q: int| 0 <= q < prefix.len() && (#[trigger] prefix[q]).id == j;
            assert(full[q].id == j);
        }
        assert forall|j: int| #[trigger] vis.contains(j) implies r.1.contains(j) by {
            assert(vis1.contains(j));
            assert(r1.1.contains(j));
        }
        assert forall|j: int| #[trigger] r.1.contains(j) implies vis.contains(j) || j <= id by {
            assert(r1.1.contains(j));
            if !vis1.contains(j) {
                assert(j < id);
            }
        }
        assert forall|p: int| prefix.len() <= p < full.len() implies (#[trigger] full[p]).id
            <= id by {
            if p < full1.len() {
                assert(full[p] == full1[p]);
                assert(full1[p].id < id);
            } else {
                assert(full[p] == m);
            }
        }
    }
}

proof fn lemma_dfs_ops_props(nodes: Seq<Value>, id: int, k: int, vis: Set<int>, prefix: Seq<MVal>)
    requires
        graph_wf(nodes),
        nodes.len() <= usize::MAX,
        0 <= id < nodes.len(),
        0 <= k <= op_operands(nodes[id].op).len(),
        ids_valid(prefix, nodes),
        distinct_ids(prefix),
        topo_sorted(nodes, prefix),
        forall|j: int| in_order(prefix, j) ==> #[trigger] vis.contains(j),
        forall|j: int| #[trigger] vis.contains(j) ==> 0 <= j < nodes.len(),
        forall|j: int| #[trigger] vis.contains(j) && !in_order(prefix, j) ==> j >= id,
    ensures
        ({
            let r = dfs_ops(nodes, id, k, vis);
            let full = prefix + r.0;
            &&& ids_valid(full, nodes)
            &&& distinct_ids(full)
            &&& topo_sorted(nodes, full)
            &&& forall|j: int| in_order(full, j) ==> #[trigger] r.1.contains(j)
            &&& forall|j: int| #[trigger] r.1.contains(j) ==> 0 <= j < nodes.len()
            &&& forall|j: int|
                #[trigger] r.1.contains(j) && !in_order(full, j) ==> vis.contains(j) && !in_order(
                    prefix,
                    j,
                )
            &&& forall|j: int| #[trigger] vis.contains(j) ==> r.1.contains(j)
            &&& forall|j: int| #[trigger] r.1.contains(j) ==> vis.contains(j) || j < id
            &&& forall|p: int| prefix.len() <= p < full.len() ==> (#[trigger] full[p]).id < id
            &&& forall|kk: int|
                k <= kk < op_operands(nodes[id].op).len() ==> in_order(
                    full,
                    (#[trigger] op_operands(nodes[id].op)[kk]).id as int,
                )
        }),
    decreases id, 0int, op_operands(nodes[id].op).len() - k,
{
    let r = dfs_ops(nodes, id, k, vis);
    let full = prefix + r.0;
    if k < op_operands(nodes[id].op).len() {
        let c = op_operands(nodes[id].op)[k].id as int;
        assert(node_wf(nodes[id], id));
        assert(op_operands(nodes[id].op)[k].id < id);
        lemma_dfs_node_props(nodes, c, vis, prefix);
        let r1 = dfs_node(nodes, c, vis);
        let full1 = prefix + r1.0;
        lemma_dfs_ops_props(nodes, id, k + 1, r1.1, full1);
        let r2 = dfs_ops(nodes, id, k + 1, r1.1);
        let full2 = full1 + r2.0;
        assert(r == (r1.0 + r2.0, r2.1));
        assert(full =~= full2);
        assert forall|j: int|
            #[trigger] r.1.contains(j) && !in_order(full, j) implies vis.contains(j)
            && !in_order(prefix, j) by {
            assert(r2.1.contains(j) && !in_order(full2, j));
            assert(r1.1.contains(j) && !in_order(full1, j));
        }
        assert forall|j: int| #[trigger] r.1.contains(j) implies vis.contains(j) || j < id by {
            assert(r2.1.contains(j));
            if !r1.1.contains(j) {
                assert(j < id);
            } else {
                if !vis.contains(j) {
                    assert(j <= c);
                }
            }
        }
        assert forall|p: int| prefix.len() <= p < full.len() implies (#[trigger] full[p]).id
            < id by {
            assert(full[p] == full2[p]);
            if p < full1.len() {
                assert(full2[p] == full1[p]);
                assert(full1[p].id <= c);
            } else {
                assert(full2[p].id < id);
            }
        }
        assert forall|kk: int|
            k <= kk < op_operands(nodes[id].op).len() implies in_order(
            full,
            (#[trigger] op_operands(nodes[id].op)[kk]).id as int,
        ) by {
            if kk == k {
                assert(in_order(full1, c));
                lemma_in_order_extend(full1, r2.0, c);
            } else {
                assert(in_order(full2, op_operands(nodes[id].op)[kk].id as int));
            }
        }
    } else {
        assert(full =~= prefix);
    }
}

/// For any well-formed graph, the collected order never repeats a node,
/// every handle in it is valid, every node's operands stand strictly before
/// the node itself, and the root closes the order.
pub proof fn lemma_order_props(nodes: Seq<Value>, root: int)
    requires
        graph_wf(nodes),
        nodes.len() <= usize::MAX,
        0 <= root < nodes.len(),
    ensures
        order_ok(nodes, root, spec_order(nodes, root)),
{
    let s = spec_order(nodes, root);
    lemma_dfs_node_props(nodes, root, Set::empty(), seq![]);
    let r = dfs_node(nodes, root, Set::empty());
    assert(seq![] + r.0 =~= r.0);
    assert(ids_valid(s, nodes) && distinct_ids(s) && topo_sorted(nodes, s) && in_order(s, root));
    assert(s[s.len() - 1].id == root) by {
        let r1 = dfs_ops(nodes, root, 0, Set::empty().insert(root));
        assert(r.0 == r1.0.push(MVal { id: root as usize }));
    }
}

/// The operand handles of an operator tag, as a vector.
fn operands_vec(op: Operator) -> (ops: Vec<MVal>)
    ensures
        ops@ == op_operands(op),
{
    let mut ops: Vec<MVal> = Vec::new();
    match op {
        Operator::Leaf => {
            proof {
                assert(ops@ =~= op_operands(op));
            }
        },
        Operator::Add(l, r) => {
            ops.push(l);
            ops.push(r);
            proof {
                assert(ops@ =~= op_operands(op));
            }
        },
        Operator::Sub(l, r) => {
            ops.push(l);
            ops.push(r);
            proof {
                assert(ops@ =~= op_operands(op));
            }
        },
        Operator::Mul(l, r) => {
            ops.push(l);
            ops.push(r);
            proof {
                assert(ops@ =~= op_operands(op));
            }
        },
        Operator::Div(l, r) => {
            ops.push(l);
            ops.push(r);
            proof {
                assert(ops@ =~= op_operands(op));
            }
        },
        Operator::Tanh(c) => {
            ops.push(c);
            proof {
                assert(ops@ =~= op_operands(op));
            }
        },
        Operator::ReLU(c) => {
            ops.push(c);
            proof {
                assert(ops@ =~= op_operands(op));
            }
        },
        Operator::Exp(c) => {
            ops.push(c);
            proof {
                assert(ops@ =~= op_operands(op));
            }
        },
        Operator::Pow(b, e) => {
            ops.push(b);
            ops.push(e);
            proof {
                assert(ops@ =~= op_operands(op));
            }
        },
    }
    ops
}

impl MVal {
    /// Collects, depth first, every node that this node depends on which the
    /// visited bitmap does not already rule out, operands before consumers,
    /// and marks everything collected as visited.
    pub fn collect_operands_inner(&self, g: &Graph, visited: &mut Vec<bool>) -> (out: Vec<MVal>)
        requires
            g.wf(),
            self.id < g@.len(),
            old(visited)@.len() == g@.len(),
        ensures
            final(visited)@.len() == g@.len(),
            ids_valid(out@, g@),
            (out@, visited_set(final(visited)@)) == dfs_node(
                g@,
                self.id as int,
                visited_set(old(visited)@),
            ),
        decreases self.id,
    {
        let ghost vis0 = visited_set(old(visited)@);
        let mut out: Vec<MVal> = Vec::new();
        if visited[self.id] {
            proof {
                assert(vis0.contains(self.id as int));
                assert(out@ =~= dfs_node(g@, self.id as int, vis0).0);
            }
            return out;
        }
        visited.set(self.id, true);
        let ghost vis1 = visited_set(visited@);
        proof {
            assert(vis1 =~= vis0.insert(self.id as int));
        }
        let node = g.node(self.id);
        let ops = operands_vec(node.op);
        let mut k: usize = 0;
        while k < ops.len()
            invariant
                g.wf(),
                self.id < g@.len(),
                visited@.len() == g@.len(),
                ops@ == op_operands(g@[self.id as int].op),
                k <= ops.len(),
                ids_valid(out@, g@),
                ({
                    let rem = dfs_ops(g@, self.id as int, k as int, visited_set(visited@));
                    dfs_ops(g@, self.id as int, 0, vis1) == (out@ + rem.0, rem.1)
                }),
            decreases ops.len() - k,
        {
            let c = ops[k];
            proof {
                assert(node_wf(g@[self.id as int], self.id as int));
                assert(op_operands(g@[self.id as int].op)[k as int] == c);
                assert(c.id < self.id);
            }
            let ghost vis_k = visited_set(visited@);
            let ghost out_before = out@;
            let mut sub = c.collect_operands_inner(g, visited);
            out.append(&mut sub);
            proof {
                let r1 = dfs_node(g@, c.id as int, vis_k);
                let rem_old = dfs_ops(g@, self.id as int, k as int, vis_k);
                let rem_new = dfs_ops(g@, self.id as int, k + 1, visited_set(visited@));
                assert(rem_old == (r1.0 + rem_new.0, rem_new.1));
                assert(out@ == out_before + r1.0);
                assert((out_before + r1.0) + rem_new.0 =~= out_before + (r1.0 + rem_new.0));
            }
            k = k + 1;
        }
        proof {
            let rem = dfs_ops(g@, self.id as int, k as int, visited_set(visited@));
            assert(rem.0 =~= seq![]);
            assert(dfs_ops(g@, self.id as int, 0, vis1).0 =~= out@);
        }
        out.push(MVal { id: self.id });
        proof {
            let r = dfs_ops(g@, self.id as int, 0, vis1);
            assert(out@ =~= r.0.push(MVal { id: self.id }));
            assert(dfs_node(g@, self.id as int, vis0) == (
                r.0.push(MVal { id: self.id }),
                r.1,
            ));
        }
        out
    }

    /// Collects every node that this node depends on, in a deduplicated
    /// topological order: operands strictly before their consumers, this
    /// node last, no node twice.
    pub fn collect_operands(&self, g: &Graph) -> (out: Vec<MVal>)
        requires
            g.wf(),
            self.id < g@.len(),
        ensures
            out@ == spec_order(g@, self.id as int),
            order_ok(g@, self.id as int, out@),
    {
        let n = g.len();
        let mut visited = fresh_bitmap(n);
        let out = self.collect_operands_inner(g, &mut visited);
        proof {
            lemma_order_props(g@, self.id as int);
        }
        out
    }

    /// Clears the gradient of every node that this node depends on and that
    /// the visited bitmap does not already rule out, marking them visited.
    pub fn zero_grad_inner(&self, g: &mut Graph, visited: &mut Vec<bool>)
        requires
            old(g).wf(),
            self.id < old(g)@.len(),
            old(visited)@.len() == old(g)@.len(),
        ensures
            final(g).wf(),
            final(visited)@.len() == old(g)@.len(),
            visited_set(final(visited)@) == dfs_node(
                old(g)@,
                self.id as int,
                visited_set(old(visited)@),
            ).1,
            final(g)@ == zeroed_where(
                old(g)@,
                dfs_node(old(g)@, self.id as int, visited_set(old(visited)@)).0,
            ),
    {
        let order = self.collect_operands_inner(&*g, visited);
        let ghost order_s = order@;
        let ghost g0 = g@;
        proof {
            assert(g@ =~= zeroed_where(g0, order_s.subrange(0, 0)));
        }
        let mut p: usize = 0;
        while p < order.len()
            invariant
                g.wf(),
                g@.len() == g0.len(),
                order@ == order_s,
                p <= order.len(),
                ids_valid(order_s, g0),
                g@ == zeroed_where(g0, order_s.subrange(0, p as int)),
            decreases order.len() - p,
        {
            let v = order[p];
            proof {
                assert(order_s[p as int].id < g0.len());
            }
            let node = g.node(v.id);
            g.set_node(v.id, Value { grad: Fx::zero(), ..node });
            proof {
                let pre = order_s.subrange(0, p as int);
                let pre1 = order_s.subrange(0, p as int + 1);
                assert(pre1[p as int] == v);
                assert forall|j: int| 0 <= j < g0.len() implies g@[j] == zeroed_where(
                    g0,
                    pre1,
                )[j] by {
                    if j == v.id as int {
                        assert(in_order(pre1, j));
                    } else {
                        if in_order(pre1, j) {
                            let q = choose|q: int|
                                0 <= q < pre1.len() && (#[trigger] pre1[q]).id == j;
                            assert(q < p as int);
                            assert(pre[q].id == j);
                            assert(in_order(pre, j));
                        }
                        if in_order(pre, j) {
                            let q = choose|q: int|
                                0 <= q < pre.len() && (#[trigger] pre[q]).id == j;
                            assert(pre1[q].id == j);
                            assert(in_order(pre1, j));
                        }
                    }
                }
                assert(g@ =~= zeroed_where(g0, pre1));
            }
            p = p + 1;
        }
        proof {
            assert(order_s.subrange(0, order_s.len() as int) =~= order_s);
        }
    }

    /// Clears the gradient of every node reachable from this node, this node
    /// included; values and the shape of the graph stay as they are.  Call
    /// it before reusing a graph for another backward pass, otherwise the
    /// previous pass's gradients add into the new ones.
    pub fn zero_grad(&self, g: &mut Graph)
        requires
            old(g).wf(),
            self.id < old(g)@.len(),
        ensures
            final(g).wf(),
            final(g)@ == zeroed_where(old(g)@, spec_order(old(g)@, self.id as int)),
    {
        let n = g.len();
        let mut visited = fresh_bitmap(n);
        self.zero_grad_inner(g, &mut visited);
    }
}

proof fn lemma_dfs_node_reaches(nodes: Seq<Value>, id: int, vis: Set<int>)
    requires
        graph_wf(nodes),
        nodes.len() <= usize::MAX,
    ensures
        forall|p: int|
            0 <= p < dfs_node(nodes, id, vis).0.len() ==> reaches(
                nodes,
                id,
                (#[trigger] dfs_node(nodes, id, vis).0[p]).id as int,
            ),
    decreases id, 1int, 0int,
{
    if id < 0 || id >= nodes.len() || vis.contains(id) {
    } else {
        lemma_dfs_ops_reaches(nodes, id, 0, vis.insert(id));
        let s0 = dfs_ops(nodes, id, 0, vis.insert(id)).0;
        let s = dfs_node(nodes, id, vis).0;
        assert forall|p: int| 0 <= p < s.len() implies reaches(
            nodes,
            id,
            (#[trigger] s[p]).id as int,
        ) by {
            if p < s0.len() {
                assert(s[p] == s0[p]);
                assert(reaches(nodes, id, s0[p].id as int));
            } else {
                assert(s[p] == MVal { id: id as usize });
                assert(0 <= id < nodes.len());
                assert((id as usize) as int == id);
            }
        }
    }
}

proof fn lemma_dfs_ops_reaches(nodes: Seq<Value>, id: int, k: int, vis: Set<int>)
    requires
        graph_wf(nodes),
        nodes.len() <= usize::MAX,
    ensures
        forall|p: int|
            0 <= p < dfs_ops(nodes, id, k, vis).0.len() ==> reaches(
                nodes,
                id,
                (#[trigger] dfs_ops(nodes, id, k, vis).0[p]).id as int,
            ),
    decreases id, 0int, op_operands(nodes[id].op).len() - k,
{
    if 0 <= id < nodes.len() && 0 <= k < op_operands(nodes[id].op).len() {
        let c = op_operands(nodes[id].op)[k].id as int;
        if c < id {
            let r1 = dfs_node(nodes, c, vis);
            lemma_dfs_node_reaches(nodes, c, vis);
            lemma_dfs_ops_reaches(nodes, id, k + 1, r1.1);
            let s1 = r1.0;
            let s2 = dfs_ops(nodes, id, k + 1, r1.1).0;
            let s = dfs_ops(nodes, id, k, vis).0;
            assert forall|p: int| 0 <= p < s.len() implies reaches(
                nodes,
                id,
                (#[trigger] s[p]).id as int,
            ) by {
                if p < s1.len() {
                    assert(s[p] == s1[p]);
                    assert(reaches(nodes, c, s1[p].id as int));
                } else {
                    assert(s[p] == s2[p - s1.len()]);
                    assert(reaches(nodes, id, s2[p - s1.len()].id as int));
                }
            }
        } else {
            lemma_dfs_ops_reaches(nodes, id, k + 1, vis);
        }
    }
}

proof fn lemma_reaches_in_closed_order(nodes: Seq<Value>, s: Seq<MVal>, from: int, to: int)
    requires
        topo_sorted(nodes, s),
        in_order(s, from),
        reaches(nodes, from, to),
        from < nodes.len(),
    ensures
        in_order(s, to),
    decreases from,
{
    if from == to {
    } else {
        let k = choose|k: int|
            0 <= k < op_operands(nodes[from].op).len() && (#[trigger] op_operands(
                nodes[from].op,
            )[k]).id < from && reaches(nodes, op_operands(nodes[from].op)[k].id as int, to);
        let m = op_operands(nodes[from].op)[k].id as int;
        let p = choose|p: int| 0 <= p < s.len() && (#[trigger] s[p]).id == from;
        assert(op_operands(nodes[s[p].id as int].op)[k].id == m);
        assert(before(s, p, m));
        let q = choose|q: int| 0 <= q < p && (#[trigger] s[q]).id == m;
        assert(in_order(s, m));
        lemma_reaches_in_closed_order(nodes, s, m, to);
    }
}

/// A node stands in the collected order exactly when it is reachable from
/// the root along operand edges; with `order_ok`, the order is the set of
/// reachable nodes, each exactly once.
pub proof fn lemma_order_is_reachable_set(nodes: Seq<Value>, root: int)
    requires
        graph_wf(nodes),
        nodes.len() <= usize::MAX,
        0 <= root < nodes.len(),
    ensures
        forall|j: int| in_order(spec_order(nodes, root), j) <==> reaches(nodes, root, j),
{
    let ord = spec_order(nodes, root);
    lemma_order_props(nodes, root);
    lemma_dfs_node_reaches(nodes, root, Set::empty());
    assert forall|j: int| in_order(ord, j) implies reaches(nodes, root, j) by {
        let p = choose|p: int| 0 <= p < ord.len() && (#[trigger] ord[p]).id == j;
        assert(reaches(nodes, root, ord[p].id as int));
    }
    assert forall|j: int| reaches(nodes, root, j) implies in_order(ord, j) by {
        lemma_reaches_in_closed_order(nodes, ord, root, j);
    }
}

/// A bitmap of `n` entries, all clear.
fn fresh_bitmap(n: usize) -> (v: Vec<bool>)
    ensures
        v@.len() == n,
        visited_set(v@) == Set::<int>::empty(),
{
    let mut v: Vec<bool> = Vec::new();
    let mut i: usize = 0;
    while i < n
        invariant
            i <= n,
            v@.len() == i,
            forall|j: int| 0 <= j < i ==> !(#[trigger] v@[j]),
        decreases n - i,
    {
        v.push(false);
        i = i + 1;
    }
    proof {
        assert(visited_set(v@) =~= Set::<int>::empty());
    }
    v
}

} // verus!
