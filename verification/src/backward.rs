//! The backward pass: seeds the root's gradient with one, then walks the
//! collected order in reverse — root first, leaves last — applying each
//! node's local gradient rule.
//!
//! Because the order is strictly reverse-topological, a node's gradient has
//! received the contribution of every consumer before its own rule runs,
//! which is what makes the accumulation correct under sharing.  When one
//! node stands in both operand slots of an operation, the aliased variant
//! of the rule applies; the two slots are compared as indices, so the case
//! is decided explicitly rather than by any run-time borrow failure.

use crate::fixed::fx_add;
use crate::fixed::fx_div;
use crate::fixed::fx_mul;
use crate::fixed::fx_neg;
use crate::fixed::fx_of;
use crate::fixed::fx_sub;
use crate::fixed::tdiv;
use crate::fixed::Fx;
use crate::fixed::SCALE;
use crate::funcs::fx_powi;
use crate::graph::graph_wf;
use crate::graph::node_wf;
use crate::graph::op_operands;
use crate::graph::Graph;
use crate::graph::MVal;
use crate::graph::Operator;
use crate::graph::Value;
use crate::graph::lemma_same_ops_wf;
use crate::traverse::before;
use crate::traverse::dfs_node;
use crate::traverse::dfs_ops;
use crate::traverse::ids_valid;
use crate::traverse::in_order;
use crate::traverse::lemma_dfs_node_congruent;
use crate::traverse::lemma_order_props;
use crate::traverse::spec_order;
use crate::traverse::topo_sorted;
use crate::traverse::zeroed_where;
use vstd::prelude::*;

verus! {

/// Adds `delta` to the gradient of node `t`, leaving everything else alone.
pub open spec fn bump(nodes: Seq<Value>, t: int, delta: int) -> Seq<Value>
    recommends
        0 <= t < nodes.len(),
{
    nodes.update(t, Value { grad: fx_of(fx_add(nodes[t].grad@, delta)), ..nodes[t] })
}

/// The local gradient rule of one node, pushing its accumulated gradient
/// `o` into its operands; `d` is the node's own forward value.  When both
/// operand slots name the same node the aliased variant applies: the
/// contribution doubles for a sum, cancels to nothing for a difference or a
/// quotient, and becomes `o * 2v` for a product.  The exponent slot of a
/// power is a constant and receives nothing.
pub open spec fn apply_rule(nodes: Seq<Value>, i: int) -> Seq<Value>
    recommends
        0 <= i < nodes.len(),
{
    let o = nodes[i].grad@;
    let d = nodes[i].value@;
    match nodes[i].op {
        Operator::Leaf => nodes,
        Operator::Add(l, r) => {
            if l == r {
                bump(nodes, l.id as int, fx_mul(o, 2 * (SCALE as int)))
            } else {
                bump(bump(nodes, l.id as int, o), r.id as int, o)
            }
        },
        Operator::Sub(l, r) => {
            if l == r {
                nodes
            } else {
                bump(bump(nodes, l.id as int, o), r.id as int, fx_neg(o))
            }
        },
        Operator::Mul(l, r) => {
            if l == r {
                bump(
                    nodes,
                    l.id as int,
                    fx_mul(o, fx_mul(2 * (SCALE as int), nodes[l.id as int].value@)),
                )
            } else {
                bump(
                    bump(nodes, l.id as int, fx_mul(o, nodes[r.id as int].value@)),
                    r.id as int,
                    fx_mul(o, nodes[l.id as int].value@),
                )
            }
        },
        Operator::Div(l, r) => {
            if l == r {
                nodes
            } else {
                bump(
                    bump(nodes, l.id as int, fx_div(o, nodes[r.id as int].value@)),
                    r.id as int,
                    fx_div(
                        fx_mul(fx_neg(o), nodes[l.id as int].value@),
                        fx_mul(nodes[r.id as int].value@, nodes[r.id as int].value@),
                    ),
                )
            }
        },
        Operator::Tanh(c) => bump(
            nodes,
            c.id as int,
            fx_mul(o, fx_sub(SCALE as int, fx_mul(d, d))),
        ),
        Operator::ReLU(c) => bump(
            nodes,
            c.id as int,
            if d > 0 {
                o
            } else {
                0
            },
        ),
        Operator::Exp(c) => bump(nodes, c.id as int, fx_mul(o, d)),
        Operator::Pow(b, e) => {
            let ev = nodes[e.id as int].value@;
            let n = tdiv(ev, SCALE as int);
            bump(
                nodes,
                b.id as int,
                fx_mul(o, fx_mul(ev, fx_powi(nodes[b.id as int].value@, n - 1))),
            )
        },
    }
}

/// Node `j` stands in one of the operand slots of node `i`.
pub open spec fn is_operand(nodes: Seq<Value>, i: int, j: int) -> bool {
    exists|k: int|
        0 <= k < op_operands(nodes[i].op).len() && (#[trigger] op_operands(
            nodes[i].op,
        )[k]).id == j
}

/// The local rule of node `i` changes nothing but the gradients of the
/// operands of `i`: no length, no value, no derivation, and no other
/// node's gradient.
pub proof fn lemma_apply_rule_frame(nodes: Seq<Value>, i: int)
    requires
        graph_wf(nodes),
        0 <= i < nodes.len(),
    ensures
        apply_rule(nodes, i).len() == nodes.len(),
        forall|j: int|
            0 <= j < nodes.len() ==> (#[trigger] apply_rule(nodes, i)[j]).value == nodes[j].value
                && apply_rule(nodes, i)[j].op == nodes[j].op,
        forall|j: int|
            0 <= j < nodes.len() && !is_operand(nodes, i, j) ==> (#[trigger] apply_rule(
                nodes,
                i,
            )[j]).grad == nodes[j].grad,
{
    assert(node_wf(nodes[i], i));
    match nodes[i].op {
        Operator::Leaf => {},
        Operator::Add(l, r) => {
            assert(op_operands(nodes[i].op)[0] == l && op_operands(nodes[i].op)[1] == r);
            assert(is_operand(nodes, i, l.id as int) && is_operand(nodes, i, r.id as int));
        },
        Operator::Sub(l, r) => {
            assert(op_operands(nodes[i].op)[0] == l && op_operands(nodes[i].op)[1] == r);
            assert(is_operand(nodes, i, l.id as int) && is_operand(nodes, i, r.id as int));
        },
        Operator::Mul(l, r) => {
            assert(op_operands(nodes[i].op)[0] == l && op_operands(nodes[i].op)[1] == r);
            assert(is_operand(nodes, i, l.id as int) && is_operand(nodes, i, r.id as int));
        },
        Operator::Div(l, r) => {
            assert(op_operands(nodes[i].op)[0] == l && op_operands(nodes[i].op)[1] == r);
            assert(is_operand(nodes, i, l.id as int) && is_operand(nodes, i, r.id as int));
        },
        Operator::Tanh(c) => {
            assert(op_operands(nodes[i].op)[0] == c);
            assert(is_operand(nodes, i, c.id as int));
        },
        Operator::ReLU(c) => {
            assert(op_operands(nodes[i].op)[0] == c);
            assert(is_operand(nodes, i, c.id as int));
        },
        Operator::Exp(c) => {
            assert(op_operands(nodes[i].op)[0] == c);
            assert(is_operand(nodes, i, c.id as int));
        },
        Operator::Pow(b, e) => {
            assert(op_operands(nodes[i].op)[0] == b && op_operands(nodes[i].op)[1] == e);
            assert(is_operand(nodes, i, b.id as int) && is_operand(nodes, i, e.id as int));
        },
    }
}

/// The arena with the root's gradient set to one: the derivative of the
/// root with respect to itself.
pub open spec fn seed_root(nodes: Seq<Value>, root: int) -> Seq<Value> {
    nodes.update(root, Value { grad: fx_of(SCALE as int), ..nodes[root] })
}

/// The arena after the `k` last entries of `order` — root first — have had
/// their local rules applied.
pub open spec fn run_back(nodes: Seq<Value>, order: Seq<MVal>, k: nat) -> Seq<Value>
    decreases k,
{
    if k == 0 {
        nodes
    } else {
        apply_rule(run_back(nodes, order, (k - 1) as nat), order[order.len() - k].id as int)
    }
}

/// The whole backward pass: collect the topological order, seed the root
/// with gradient one, then apply every local rule in reverse topological
/// order.
pub open spec fn spec_backward(nodes: Seq<Value>, root: int) -> Seq<Value> {
    let order = spec_order(nodes, root);
    run_back(seed_root(nodes, root), order, order.len())
}

/// Running local rules along a topologically sorted order touches only the
/// gradients of nodes in the order: every value, every derivation, and the
/// gradient of every node outside the order stay as they were.
pub proof fn lemma_run_back_frame(nodes: Seq<Value>, order: Seq<MVal>, k: nat)
    requires
        graph_wf(nodes),
        ids_valid(order, nodes),
        topo_sorted(nodes, order),
        k <= order.len(),
    ensures
        run_back(nodes, order, k).len() == nodes.len(),
        forall|j: int|
            0 <= j < nodes.len() ==> (#[trigger] run_back(nodes, order, k)[j]).value
                == nodes[j].value && run_back(nodes, order, k)[j].op == nodes[j].op,
        forall|j: int|
            0 <= j < nodes.len() && !in_order(order, j) ==> (#[trigger] run_back(
                nodes,
                order,
                k,
            )[j]).grad == nodes[j].grad,
    decreases k,
{
    if k > 0 {
        lemma_run_back_frame(nodes, order, (k - 1) as nat);
        let prev = run_back(nodes, order, (k - 1) as nat);
        let cur = run_back(nodes, order, k);
        let p = order.len() - k;
        let i = order[p].id as int;
        assert(0 <= i < nodes.len());
        lemma_same_ops_wf(nodes, prev);
        lemma_apply_rule_frame(prev, i);
        assert forall|j: int| 0 <= j < nodes.len() && !in_order(order, j) implies (
        #[trigger] cur[j]).grad == nodes[j].grad by {
            if is_operand(prev, i, j) {
                let kk = choose|kk: int|
                    0 <= kk < op_operands(prev[i].op).len() && (#[trigger] op_operands(
                        prev[i].op,
                    )[kk]).id == j;
                assert(prev[i].op == nodes[i].op);
                assert(op_operands(nodes[order[p].id as int].op)[kk].id == j);
                assert(before(order, p, j));
                let q = choose|q: int| 0 <= q < p && (#[trigger] order[q]).id == j;
                assert(in_order(order, j));
            }
        }
    }
}

/// The backward pass mutates nothing but gradients: every node keeps its
/// value and its derivation, and a node outside the collected order keeps
/// its gradient too.
pub proof fn lemma_backward_touches_only_gradients(nodes: Seq<Value>, root: int)
    requires
        graph_wf(nodes),
        nodes.len() <= usize::MAX,
        0 <= root < nodes.len(),
    ensures
        spec_backward(nodes, root).len() == nodes.len(),
        forall|j: int|
            0 <= j < nodes.len() ==> (#[trigger] spec_backward(nodes, root)[j]).value
                == nodes[j].value && spec_backward(nodes, root)[j].op == nodes[j].op,
        forall|j: int|
            0 <= j < nodes.len() && !in_order(spec_order(nodes, root), j) ==> (
            #[trigger] spec_backward(nodes, root)[j]).grad == nodes[j].grad,
{
    let ord = spec_order(nodes, root);
    lemma_order_props(nodes, root);
    let zs = seed_root(nodes, root);
    assert(zs.len() == nodes.len());
    assert(forall|j: int|
        0 <= j < nodes.len() ==> (#[trigger] zs[j]).op == nodes[j].op && zs[j].value
            == nodes[j].value);
    lemma_same_ops_wf(nodes, zs);
    assert(topo_sorted(zs, ord)) by {
        assert forall|p: int, k: int|
            0 <= p < ord.len() && 0 <= k < op_operands(zs[ord[p].id as int].op).len() implies before(
            ord,
            p,
            (#[trigger] op_operands(zs[ord[p].id as int].op)[k]).id as int,
        ) by {
            assert(zs[ord[p].id as int].op == nodes[ord[p].id as int].op);
            assert(before(ord, p, op_operands(nodes[ord[p].id as int].op)[k].id as int));
        }
    }
    lemma_run_back_frame(zs, ord, ord.len());
    assert forall|j: int| 0 <= j < nodes.len() && !in_order(ord, j) implies (
    #[trigger] spec_backward(nodes, root)[j]).grad == nodes[j].grad by {
        assert(in_order(ord, root));
        assert(j != root);
        assert(zs[j].grad == nodes[j].grad);
    }
}

/// A gradient reset followed by a backward pass is repeatable: for any
/// graph and any starting gradients, clearing the reachable gradients and
/// running the backward pass a second time reproduces exactly the arena
/// that the first reset-and-backward produced.
pub proof fn lemma_reset_backward_repeatable(nodes: Seq<Value>, root: int)
    requires
        graph_wf(nodes),
        nodes.len() <= usize::MAX,
        0 <= root < nodes.len(),
    ensures
        ({
            let h1 = spec_backward(zeroed_where(nodes, spec_order(nodes, root)), root);
            let h2 = spec_backward(zeroed_where(h1, spec_order(h1, root)), root);
            h2 == h1
        }),
{
    let ord = spec_order(nodes, root);
    let z = zeroed_where(nodes, ord);
    assert(z.len() == nodes.len());
    assert(forall|j: int|
        0 <= j < nodes.len() ==> (#[trigger] z[j]).op == nodes[j].op && z[j].value
            == nodes[j].value);
    lemma_order_props(nodes, root);
    lemma_dfs_node_congruent(nodes, z, root, Set::empty());
    assert(spec_order(z, root) == ord);
    let zs = seed_root(z, root);
    assert(zs.len() == nodes.len());
    assert(forall|j: int|
        0 <= j < nodes.len() ==> (#[trigger] zs[j]).op == nodes[j].op && zs[j].value
            == nodes[j].value);
    let h1 = spec_backward(z, root);
    assert(h1 == run_back(zs, ord, ord.len()));
    lemma_same_ops_wf(nodes, zs);
    assert(ids_valid(ord, zs)) by {
        assert(forall|p: int|
            0 <= p < ord.len() ==> (#[trigger] ord[p]).id < zs.len());
    }
    assert(topo_sorted(zs, ord)) by {
        assert forall|p: int, k: int|
            0 <= p < ord.len() && 0 <= k < op_operands(zs[ord[p].id as int].op).len() implies before(
            ord,
            p,
            (#[trigger] op_operands(zs[ord[p].id as int].op)[k]).id as int,
        ) by {
            assert(zs[ord[p].id as int].op == nodes[ord[p].id as int].op);
            assert(before(ord, p, op_operands(nodes[ord[p].id as int].op)[k].id as int));
        }
    }
    lemma_run_back_frame(zs, ord, ord.len());
    assert(h1.len() == nodes.len());
    assert(forall|j: int|
        0 <= j < nodes.len() ==> (#[trigger] h1[j]).op == nodes[j].op && h1[j].value
            == nodes[j].value);
    lemma_dfs_node_congruent(nodes, h1, root, Set::empty());
    assert(spec_order(h1, root) == ord);
    let z2 = zeroed_where(h1, ord);
    assert(z2 =~= z) by {
        assert forall|j: int| 0 <= j < nodes.len() implies z2[j] == z[j] by {
            if in_order(ord, j) {
                assert(z2[j] == (Value { grad: fx_of(0), ..h1[j] }));
                assert(z[j] == (Value { grad: fx_of(0), ..nodes[j] }));
                assert(z2[j] =~= z[j]);
            } else {
                assert(z2[j] == h1[j]);
                assert(z[j] == nodes[j]);
                assert(h1[j].grad == zs[j].grad);
                assert(zs[j].grad == z[j].grad) by {
                    if j == root {
                        assert(in_order(ord, root));
                    }
                }
                assert(z[j].grad == nodes[j].grad);
                assert(z2[j] =~= z[j]);
            }
        }
    }
    assert(zeroed_where(h1, spec_order(h1, root)) == z);
}

/// The backward pass over a sum of two distinct leaves hands each leaf the
/// seed gradient of one, whatever the leaves hold.
pub proof fn lemma_backward_sum_of_leaves(va: Fx, vb: Fx, vc: Fx)
    ensures
        ({
            let nodes = seq![
                (Value { value: va, grad: fx_of(0), op: Operator::Leaf }),
                (Value { value: vb, grad: fx_of(0), op: Operator::Leaf }),
                (Value {
                    value: vc,
                    grad: fx_of(0),
                    op: Operator::Add(MVal { id: 0 }, MVal { id: 1 }),
                }),
            ];
            let h = spec_backward(nodes, 2);
            h[0].grad@ == SCALE as int && h[1].grad@ == SCALE as int && h[2].grad@ == SCALE as int
        }),
{
    let m0 = MVal { id: 0 };
    let m1 = MVal { id: 1 };
    let m2 = MVal { id: 2 };
    let nodes = seq![
        (Value { value: va, grad: fx_of(0), op: Operator::Leaf }),
        (Value { value: vb, grad: fx_of(0), op: Operator::Leaf }),
        (Value { value: vc, grad: fx_of(0), op: Operator::Add(m0, m1) }),
    ];
    let ord = spec_order(nodes, 2);
    assert(ord =~= seq![m0, m1, m2]) by {
        reveal_with_fuel(dfs_node, 4);
        reveal_with_fuel(dfs_ops, 5);
    }
    let seeded = seed_root(nodes, 2);
    let h1 = apply_rule(seeded, 2);
    assert(h1 == bump(bump(seeded, 0, SCALE as int), 1, SCALE as int));
    let h = spec_backward(nodes, 2);
    assert(h == apply_rule(apply_rule(h1, 1), 0)) by {
        reveal_with_fuel(run_back, 4);
    }
    assert(h == h1);
}

/// Using one node as both operand slots of a sum doubles its gradient: the
/// backward pass over `c = a + a` gives `a` the gradient two, not one.
pub proof fn lemma_self_use_add_doubles(va: Fx, vc: Fx)
    ensures
        ({
            let nodes = seq![
                (Value { value: va, grad: fx_of(0), op: Operator::Leaf }),
                (Value {
                    value: vc,
                    grad: fx_of(0),
                    op: Operator::Add(MVal { id: 0 }, MVal { id: 0 }),
                }),
            ];
            spec_backward(nodes, 1)[0].grad@ == 2 * (SCALE as int)
        }),
{
    let m0 = MVal { id: 0 };
    let m1 = MVal { id: 1 };
    let nodes = seq![
        (Value { value: va, grad: fx_of(0), op: Operator::Leaf }),
        (Value { value: vc, grad: fx_of(0), op: Operator::Add(m0, m0) }),
    ];
    let ord = spec_order(nodes, 1);
    assert(ord =~= seq![m0, m1]) by {
        reveal_with_fuel(dfs_node, 3);
        reveal_with_fuel(dfs_ops, 4);
    }
    let seeded = seed_root(nodes, 1);
    crate::fixed::lemma_fx_mul_one(SCALE as int);
    let h1 = apply_rule(seeded, 1);
    assert(h1 == bump(seeded, 0, fx_mul(SCALE as int, 2 * (SCALE as int))));
    assert(fx_mul(SCALE as int, 2 * (SCALE as int)) == 2 * (SCALE as int)) by {
        crate::fixed::lemma_fx_mul_one(2 * (SCALE as int));
    }
    let h = spec_backward(nodes, 1);
    assert(h == apply_rule(h1, 0)) by {
        reveal_with_fuel(run_back, 3);
    }
    assert(h == h1);
}

/// Using one node as both operand slots of a product gives it the gradient
/// of twice its value: the backward pass over `c = a * a` leaves
/// `2 * a.value` in `a`'s gradient.
pub proof fn lemma_self_use_mul_gives_twice_the_value(va: Fx, vc: Fx)
    ensures
        ({
            let nodes = seq![
                (Value { value: va, grad: fx_of(0), op: Operator::Leaf }),
                (Value {
                    value: vc,
                    grad: fx_of(0),
                    op: Operator::Mul(MVal { id: 0 }, MVal { id: 0 }),
                }),
            ];
            spec_backward(nodes, 1)[0].grad@ == fx_mul(2 * (SCALE as int), va@)
        }),
{
    let m0 = MVal { id: 0 };
    let m1 = MVal { id: 1 };
    let nodes = seq![
        (Value { value: va, grad: fx_of(0), op: Operator::Leaf }),
        (Value { value: vc, grad: fx_of(0), op: Operator::Mul(m0, m0) }),
    ];
    let ord = spec_order(nodes, 1);
    assert(ord =~= seq![m0, m1]) by {
        reveal_with_fuel(dfs_node, 3);
        reveal_with_fuel(dfs_ops, 4);
    }
    let seeded = seed_root(nodes, 1);
    let h1 = apply_rule(seeded, 1);
    assert(h1 == bump(seeded, 0, fx_mul(SCALE as int, fx_mul(2 * (SCALE as int), va@))));
    assert(fx_mul(SCALE as int, fx_mul(2 * (SCALE as int), va@)) == fx_mul(
        2 * (SCALE as int),
        va@,
    )) by {
        crate::fixed::lemma_fx_mul_one(fx_mul(2 * (SCALE as int), va@));
    }
    let h = spec_backward(nodes, 1);
    assert(h == apply_rule(h1, 0)) by {
        reveal_with_fuel(run_back, 3);
    }
    assert(h == h1);
}

/// Using one node as both operand slots of a difference or of a quotient
/// cancels: the backward pass over `c = a - a` or `c = a / a` leaves `a`'s
/// gradient at zero.
pub proof fn lemma_self_use_sub_div_cancel(va: Fx, vc: Fx)
    ensures
        ({
            let nodes = seq![
                (Value { value: va, grad: fx_of(0), op: Operator::Leaf }),
                (Value {
                    value: vc,
                    grad: fx_of(0),
                    op: Operator::Sub(MVal { id: 0 }, MVal { id: 0 }),
                }),
            ];
            spec_backward(nodes, 1)[0].grad@ == 0
        }),
        ({
            let nodes = seq![
                (Value { value: va, grad: fx_of(0), op: Operator::Leaf }),
                (Value {
                    value: vc,
                    grad: fx_of(0),
                    op: Operator::Div(MVal { id: 0 }, MVal { id: 0 }),
                }),
            ];
            spec_backward(nodes, 1)[0].grad@ == 0
        }),
{
    let m0 = MVal { id: 0 };
    let m1 = MVal { id: 1 };
    let nodes_s = seq![
        (Value { value: va, grad: fx_of(0), op: Operator::Leaf }),
        (Value { value: vc, grad: fx_of(0), op: Operator::Sub(m0, m0) }),
    ];
    assert(spec_order(nodes_s, 1) =~= seq![m0, m1]) by {
        reveal_with_fuel(dfs_node, 3);
        reveal_with_fuel(dfs_ops, 4);
    }
    let hs = spec_backward(nodes_s, 1);
    assert(hs == apply_rule(apply_rule(seed_root(nodes_s, 1), 1), 0)) by {
        reveal_with_fuel(run_back, 3);
    }
    assert(hs[0].grad@ == 0);
    let nodes_d = seq![
        (Value { value: va, grad: fx_of(0), op: Operator::Leaf }),
        (Value { value: vc, grad: fx_of(0), op: Operator::Div(m0, m0) }),
    ];
    assert(spec_order(nodes_d, 1) =~= seq![m0, m1]) by {
        reveal_with_fuel(dfs_node, 3);
        reveal_with_fuel(dfs_ops, 4);
    }
    let hd = spec_backward(nodes_d, 1);
    assert(hd == apply_rule(apply_rule(seed_root(nodes_d, 1), 1), 0)) by {
        reveal_with_fuel(run_back, 3);
    }
    assert(hd[0].grad@ == 0);
}

impl Graph {
    /// Adds `delta` to the gradient of node `t`.
    fn bump_grad(&mut self, t: usize, delta: Fx)
        requires
            old(self).wf(),
            t < old(self)@.len(),
        ensures
            final(self).wf(),
            final(self)@ == bump(old(self)@, t as int, delta@),
    {
        let node = self.node(t);
        self.set_node(t, Value { grad: node.grad.add(delta), ..node });
    }

    /// Applies the local gradient rule of node `i`, accumulating into the
    /// gradients of its operands.
    fn comput_gradient(&mut self, i: usize)
        requires
            old(self).wf(),
            i < old(self)@.len(),
        ensures
            final(self).wf(),
            final(self)@ == apply_rule(old(self)@, i as int),
    {
        let node = self.node(i);
        let o = node.grad;
        let d = node.value;
        proof {
            assert(node_wf(old(self)@[i as int], i as int));
        }
        match node.op {
            Operator::Leaf => {},
            Operator::Add(l, r) => {
                proof {
                    assert(op_operands(node.op)[0] == l && op_operands(node.op)[1] == r);
                }
                if l == r {
                    self.bump_grad(l.id, o.mul(Fx::from_int(2)));
                } else {
                    self.bump_grad(l.id, o);
                    self.bump_grad(r.id, o);
                }
            },
            Operator::Sub(l, r) => {
                proof {
                    assert(op_operands(node.op)[0] == l && op_operands(node.op)[1] == r);
                }
                if l == r {
                } else {
                    self.bump_grad(l.id, o);
                    self.bump_grad(r.id, o.neg());
                }
            },
            Operator::Mul(l, r) => {
                proof {
                    assert(op_operands(node.op)[0] == l && op_operands(node.op)[1] == r);
                }
                if l == r {
                    let lv = self.node(l.id).value;
                    self.bump_grad(l.id, o.mul(Fx::from_int(2).mul(lv)));
                } else {
                    let lv = self.node(l.id).value;
                    let rv = self.node(r.id).value;
                    self.bump_grad(l.id, o.mul(rv));
                    self.bump_grad(r.id, o.mul(lv));
                }
            },
            Operator::Div(l, r) => {
                proof {
                    assert(op_operands(node.op)[0] == l && op_operands(node.op)[1] == r);
                }
                if l == r {
                } else {
                    let lv = self.node(l.id).value;
                    let rv = self.node(r.id).value;
                    self.bump_grad(l.id, o.div(rv));
                    self.bump_grad(r.id, o.neg().mul(lv).div(rv.mul(rv)));
                }
            },
            Operator::Tanh(c) => {
                proof {
                    assert(op_operands(node.op)[0] == c);
                }
                self.bump_grad(c.id, o.mul(Fx::one().sub(d.mul(d))));
            },
            Operator::ReLU(c) => {
                proof {
                    assert(op_operands(node.op)[0] == c);
                }
                if d.is_pos() {
                    self.bump_grad(c.id, o);
                } else {
                    self.bump_grad(c.id, Fx::zero());
                }
            },
            Operator::Exp(c) => {
                proof {
                    assert(op_operands(node.op)[0] == c);
                }
                self.bump_grad(c.id, o.mul(d));
            },
            Operator::Pow(b, e) => {
                proof {
                    assert(op_operands(node.op)[0] == b && op_operands(node.op)[1] == e);
                }
                let ev = self.node(e.id).value;
                let bv = self.node(b.id).value;
                let n = ev.trunc();
                self.bump_grad(b.id, o.mul(ev.mul(bv.powi(n - 1))));
            },
        }
    }
}

impl MVal {
    /// Runs the backward pass from this node: first the gradient of this
    /// node is seeded with one, then every reachable node's local rule
    /// pushes gradient into its operands, in reverse topological order, so
    /// each reachable node's gradient accumulates the derivative of this
    /// node with respect to it on top of whatever the gradient held before.
    /// Reset the gradients with `zero_grad` before reusing a graph,
    /// otherwise the previous pass's contributions double-count.
    pub fn backward(&self, g: &mut Graph)
        requires
            old(g).wf(),
            self.id < old(g)@.len(),
        ensures
            final(g).wf(),
            final(g)@ == spec_backward(old(g)@, self.id as int),
    {
        let order = self.collect_operands(&*g);
        let ghost g0 = g@;
        let ghost order_s = order@;
        let node = g.node(self.id);
        g.set_node(self.id, Value { grad: Fx::one(), ..node });
        proof {
            assert(g@ == seed_root(g0, self.id as int));
        }
        let mut k: usize = order.len();
        while k > 0
            invariant
                g.wf(),
                order@ == order_s,
                ids_valid(order_s, g0),
                g@.len() == g0.len(),
                k <= order_s.len(),
                g@ == run_back(seed_root(g0, self.id as int), order_s, (order_s.len() - k) as nat),
            decreases k,
        {
            k = k - 1;
            let v = order[k];
            proof {
                assert(order_s[k as int].id < g0.len());
            }
            let ghost before = g@;
            g.comput_gradient(v.id);
            proof {
                lemma_apply_rule_frame(before, v.id as int);
                let done = (order_s.len() - k) as nat;
                assert(run_back(seed_root(g0, self.id as int), order_s, done) == apply_rule(
                    run_back(seed_root(g0, self.id as int), order_s, (done - 1) as nat),
                    order_s[order_s.len() - done].id as int,
                ));
            }
        }
    }
}

} // verus!
