//! The computation graph: an arena of scalar nodes addressed by index.
//!
//! A node records the value computed for it, the gradient accumulated for it
//! by the backward pass, and how it was derived: an operator tag holding the
//! handles of its operands.  A [`MVal`] is a handle to one node — a stable
//! index into the arena — so two handles are equal exactly when they name the
//! identical node, which is what lets a traversal detect sharing.
//!
//! Nodes are append-only and every operand of a node is created before the
//! node itself, so operand indices are always strictly smaller than the index
//! of their consumer: the graph is a directed acyclic graph by construction.

use crate::fixed::fx_add;
use crate::fixed::fx_div;
use crate::fixed::fx_mul;
use crate::fixed::fx_of;
use crate::fixed::fx_sub;
use crate::fixed::sat64;
use crate::fixed::Fx;
use crate::fixed::SCALE;
use crate::funcs::fx_exp;
use crate::funcs::fx_powi;
use crate::funcs::fx_relu;
use crate::funcs::fx_tanh;
use vstd::prelude::*;

verus! {

/// A handle to a node of a [`Graph`].  Copying a handle is cheap and equality
/// of handles is identity of the nodes they refer to.
#[derive(Clone, Copy, PartialEq, Eq, Structural, Debug, Hash)]
pub struct MVal {
    pub id: usize,
}

/// How a node was derived: its operator tag together with the handles of its
/// operands, in argument order.
#[derive(Clone, Copy, Debug)]
pub enum Operator {
    Leaf,
    Add(MVal, MVal),
    Sub(MVal, MVal),
    Mul(MVal, MVal),
    Div(MVal, MVal),
    Tanh(MVal),
    ReLU(MVal),
    Exp(MVal),
    Pow(MVal, MVal),
}

/// One node of the computation graph.
#[derive(Clone, Copy, Debug)]
#[verifier::ext_equal]
pub struct Value {
    /// The forward value, fixed when the node is built.
    pub value: Fx,
    /// The gradient accumulated by the backward pass; starts at zero.
    pub grad: Fx,
    /// How the node was derived.
    pub op: Operator,
}

/// The operand handles recorded in an operator tag, in argument order.
pub open spec fn op_operands(op: Operator) -> Seq<MVal> {
    match op {
        Operator::Leaf => seq![],
        Operator::Add(l, r) => seq![l, r],
        Operator::Sub(l, r) => seq![l, r],
        Operator::Mul(l, r) => seq![l, r],
        Operator::Div(l, r) => seq![l, r],
        Operator::Tanh(c) => seq![c],
        Operator::ReLU(c) => seq![c],
        Operator::Exp(c) => seq![c],
        Operator::Pow(b, e) => seq![b, e],
    }
}

/// A node may only point at nodes that come strictly before it.
pub open spec fn node_wf(n: Value, i: int) -> bool {
    forall|k: int|
        0 <= k < op_operands(n.op).len() ==> (#[trigger] op_operands(n.op)[k]).id < i
}

/// Every node points only backwards: the arena is acyclic.
pub open spec fn graph_wf(nodes: Seq<Value>) -> bool {
    forall|i: int| 0 <= i < nodes.len() ==> node_wf(#[trigger] nodes[i], i)
}

impl Value {
    /// A fresh leaf node holding `data`, with a cleared gradient.
    pub fn new(data: Fx) -> (n: Value)
        ensures
            n == (Value { value: data, grad: fx_of(0), op: Operator::Leaf }),
    {
        Value { value: data, grad: Fx::zero(), op: Operator::Leaf }
    }
}

/// The arena owning every node of one computation graph, together with the
/// optional debug label of each node.
#[derive(Debug)]
pub struct Graph {
    pub(crate) nodes: Vec<Value>,
    pub(crate) labels: Vec<String>,
}

impl View for Graph {
    type V = Seq<Value>;

    closed spec fn view(&self) -> Seq<Value> {
        self.nodes@
    }
}

/// Transfers well-formedness between arenas whose nodes carry the same
/// operator tags: only the tags decide it.
pub proof fn lemma_same_ops_wf(a: Seq<Value>, b: Seq<Value>)
    requires
        graph_wf(a),
        a.len() == b.len(),
        forall|i: int| 0 <= i < a.len() ==> a[i].op == #[trigger] b[i].op,
    ensures
        graph_wf(b),
{
    assert forall|i: int| 0 <= i < b.len() implies node_wf(#[trigger] b[i], i) by {
        assert(b[i].op == a[i].op);
        assert(node_wf(a[i], i));
    }
}

impl Graph {
    /// One label per node.
    pub closed spec fn labels_ok(self) -> bool {
        self.labels@.len() == self.nodes@.len()
    }

    /// The debug label recorded for node `i`.
    pub closed spec fn spec_label(self, i: int) -> Seq<char> {
        self.labels@[i]@
    }

    /// The arena is acyclic and bookkeeping is consistent.
    pub open spec fn wf(self) -> bool {
        graph_wf(self@) && self.labels_ok()
    }

    /// An empty graph.
    pub fn new() -> (g: Graph)
        ensures
            g.wf(),
            g@.len() == 0,
    {
        Graph { nodes: Vec::new(), labels: Vec::new() }
    }

    /// Number of nodes in the arena.
    pub fn len(&self) -> (n: usize)
        ensures
            n == self@.len(),
    {
        self.nodes.len()
    }

    /// Reads node `i` whole.
    pub(crate) fn node(&self, i: usize) -> (n: Value)
        requires
            i < self@.len(),
        ensures
            n == self@[i as int],
    {
        self.nodes[i]
    }

    /// Appends a node whose operands already exist.
    pub(crate) fn push_node(&mut self, node: Value, label: String) -> (v: MVal)
        requires
            old(self).wf(),
            forall|k: int|
                0 <= k < op_operands(node.op).len() ==> (#[trigger] op_operands(
                    node.op,
                )[k]).id < old(self)@.len(),
        ensures
            final(self).wf(),
            v.id == old(self)@.len(),
            final(self)@ == old(self)@.push(node),
            final(self).spec_label(v.id as int) == label@,
            forall|i: int|
                0 <= i < old(self)@.len() ==> final(self).spec_label(i) == old(self).spec_label(i),
    {
        let v = MVal { id: self.nodes.len() };
        self.nodes.push(node);
        self.labels.push(label);
        proof {
            assert forall|i: int| 0 <= i < self@.len() implies node_wf(#[trigger] self@[i], i) by {
                if i < old(self)@.len() {
                    assert(self@[i] == old(self)@[i]);
                    assert(node_wf(old(self)@[i], i));
                } else {
                    assert(self@[i] == node);
                }
            }
        }
        v
    }

    /// Replaces the payload of node `i`, keeping its derivation.
    pub(crate) fn set_node(&mut self, i: usize, node: Value)
        requires
            old(self).wf(),
            i < old(self)@.len(),
            node.op == old(self)@[i as int].op,
        ensures
            final(self).wf(),
            final(self)@ == old(self)@.update(i as int, node),
    {
        self.nodes.set(i, node);
        proof {
            lemma_same_ops_wf(old(self)@, self@);
        }
    }
}

impl MVal {
    /// A new leaf node holding `data`, without a label.
    pub fn new(g: &mut Graph, data: Fx) -> (v: MVal)
        requires
            old(g).wf(),
        ensures
            final(g).wf(),
            v.id == old(g)@.len(),
            final(g)@ == old(g)@.push((Value { value: data, grad: fx_of(0), op: Operator::Leaf })),
    {
        g.push_node(Value::new(data), String::new())
    }

    /// A new leaf node holding `data`, labeled for debugging.
    pub fn new_lab(g: &mut Graph, data: Fx, label: &str) -> (v: MVal)
        requires
            old(g).wf(),
        ensures
            final(g).wf(),
            v.id == old(g)@.len(),
            final(g)@ == old(g)@.push((Value { value: data, grad: fx_of(0), op: Operator::Leaf })),
            final(g).spec_label(v.id as int) == label@,
    {
        g.push_node(Value::new(data), label.to_owned())
    }

    /// A new leaf node holding zero.
    pub fn default(g: &mut Graph) -> (v: MVal)
        requires
            old(g).wf(),
        ensures
            final(g).wf(),
            v.id == old(g)@.len(),
            final(g)@ == old(g)@.push((Value { value: fx_of(0), grad: fx_of(0), op: Operator::Leaf })),
    {
        MVal::new(g, Fx::zero())
    }

    /// Reads the forward value of this node.
    pub fn get(&self, g: &Graph) -> (r: Fx)
        requires
            self.id < g@.len(),
    ensures
            r == g@[self.id as int].value,
    {
        g.nodes[self.id].value
    }

    /// Overwrites the forward value of this node in place; the gradient and
    /// the derivation stay as they are.
    pub fn set(&self, g: &mut Graph, data: Fx)
        requires
            old(g).wf(),
            self.id < old(g)@.len(),
        ensures
            final(g).wf(),
            final(g)@ == old(g)@.update(
                self.id as int,
                (Value { value: data, ..old(g)@[self.id as int] }),
            ),
    {
        let node = g.nodes[self.id];
        g.set_node(self.id, Value { value: data, ..node });
    }

    /// Reads the accumulated gradient of this node.
    pub fn grad(&self, g: &Graph) -> (r: Fx)
        requires
            self.id < g@.len(),
        ensures
            r == g@[self.id as int].grad,
    {
        g.nodes[self.id].grad
    }

    /// Overwrites the gradient of this node in place.
    pub fn set_grad(&self, g: &mut Graph, grad: Fx)
        requires
            old(g).wf(),
            self.id < old(g)@.len(),
        ensures
            final(g).wf(),
            final(g)@ == old(g)@.update(
                self.id as int,
                (Value { grad: grad, ..old(g)@[self.id as int] }),
            ),
    {
        let node = g.nodes[self.id];
        g.set_node(self.id, Value { grad: grad, ..node });
    }

    /// The debug label of this node; empty unless the node was built with
    /// `new_lab`.
    pub fn label<'a>(&self, g: &'a Graph) -> (r: &'a String)
        requires
            g.wf(),
            self.id < g@.len(),
        ensures
            r@ == g.spec_label(self.id as int),
    {
        &g.labels[self.id]
    }

    /// `self + rhs`: records the sum of the two operand values.
    pub fn add(self, g: &mut Graph, rhs: MVal) -> (v: MVal)
        requires
            old(g).wf(),
            self.id < old(g)@.len(),
            rhs.id < old(g)@.len(),
        ensures
            final(g).wf(),
            v.id == old(g)@.len(),
            final(g)@ == old(g)@.push(
                (Value {
                    value: fx_of(
                        fx_add(
                            old(g)@[self.id as int].value@,
                            old(g)@[rhs.id as int].value@,
                        ),
                    ),
                    grad: fx_of(0),
                    op: Operator::Add(self, rhs),
                }),
            ),
    {
        let a = g.nodes[self.id].value;
        let b = g.nodes[rhs.id].value;
        g.push_node(
            Value { value: a.add(b), grad: Fx::zero(), op: Operator::Add(self, rhs) },
            String::new(),
        )
    }

    /// `self - rhs`: records the difference of the two operand values.
    pub fn sub(self, g: &mut Graph, rhs: MVal) -> (v: MVal)
        requires
            old(g).wf(),
            self.id < old(g)@.len(),
            rhs.id < old(g)@.len(),
        ensures
            final(g).wf(),
            v.id == old(g)@.len(),
            final(g)@ == old(g)@.push(
                (Value {
                    value: fx_of(
                        fx_sub(
                            old(g)@[self.id as int].value@,
                            old(g)@[rhs.id as int].value@,
                        ),
                    ),
                    grad: fx_of(0),
                    op: Operator::Sub(self, rhs),
                }),
            ),
    {
        let a = g.nodes[self.id].value;
        let b = g.nodes[rhs.id].value;
        g.push_node(
            Value { value: a.sub(b), grad: Fx::zero(), op: Operator::Sub(self, rhs) },
            String::new(),
        )
    }

    /// `self * rhs`: records the product of the two operand values.
    pub fn mul(self, g: &mut Graph, rhs: MVal) -> (v: MVal)
        requires
            old(g).wf(),
            self.id < old(g)@.len(),
            rhs.id < old(g)@.len(),
        ensures
            final(g).wf(),
            v.id == old(g)@.len(),
            final(g)@ == old(g)@.push(
                (Value {
                    value: fx_of(
                        fx_mul(
                            old(g)@[self.id as int].value@,
                            old(g)@[rhs.id as int].value@,
                        ),
                    ),
                    grad: fx_of(0),
                    op: Operator::Mul(self, rhs),
                }),
            ),
    {
        let a = g.nodes[self.id].value;
        let b = g.nodes[rhs.id].value;
        g.push_node(
            Value { value: a.mul(b), grad: Fx::zero(), op: Operator::Mul(self, rhs) },
            String::new(),
        )
    }

    /// `self / rhs`: records the quotient of the two operand values.
    pub fn div(self, g: &mut Graph, rhs: MVal) -> (v: MVal)
        requires
            old(g).wf(),
            self.id < old(g)@.len(),
            rhs.id < old(g)@.len(),
        ensures
            final(g).wf(),
            v.id == old(g)@.len(),
            final(g)@ == old(g)@.push(
                (Value {
                    value: fx_of(
                        fx_div(
                            old(g)@[self.id as int].value@,
                            old(g)@[rhs.id as int].value@,
                        ),
                    ),
                    grad: fx_of(0),
                    op: Operator::Div(self, rhs),
                }),
            ),
    {
        let a = g.nodes[self.id].value;
        let b = g.nodes[rhs.id].value;
        g.push_node(
            Value { value: a.div(b), grad: Fx::zero(), op: Operator::Div(self, rhs) },
            String::new(),
        )
    }

    /// Hyperbolic tangent of this node.
    pub fn tanh(self, g: &mut Graph) -> (v: MVal)
        requires
            old(g).wf(),
            self.id < old(g)@.len(),
        ensures
            final(g).wf(),
            v.id == old(g)@.len(),
            final(g)@ == old(g)@.push(
                (Value {
                    value: fx_of(fx_tanh(old(g)@[self.id as int].value@)),
                    grad: fx_of(0),
                    op: Operator::Tanh(self),
                }),
            ),
    {
        let a = g.nodes[self.id].value;
        g.push_node(
            Value { value: a.tanh(), grad: Fx::zero(), op: Operator::Tanh(self) },
            String::new(),
        )
    }

    /// Rectified linear unit of this node: `max(0, value)`.
    pub fn relu(self, g: &mut Graph) -> (v: MVal)
        requires
            old(g).wf(),
            self.id < old(g)@.len(),
        ensures
            final(g).wf(),
            v.id == old(g)@.len(),
            final(g)@ == old(g)@.push(
                (Value {
                    value: fx_of(fx_relu(old(g)@[self.id as int].value@)),
                    grad: fx_of(0),
                    op: Operator::ReLU(self),
                }),
            ),
    {
        let a = g.nodes[self.id].value;
        g.push_node(
            Value { value: a.relu(), grad: Fx::zero(), op: Operator::ReLU(self) },
            String::new(),
        )
    }

    /// Exponential of this node.
    pub fn exp(self, g: &mut Graph) -> (v: MVal)
        requires
            old(g).wf(),
            self.id < old(g)@.len(),
        ensures
            final(g).wf(),
            v.id == old(g)@.len(),
            final(g)@ == old(g)@.push(
                (Value {
                    value: fx_of(fx_exp(old(g)@[self.id as int].value@)),
                    grad: fx_of(0),
                    op: Operator::Exp(self),
                }),
            ),
    {
        let a = g.nodes[self.id].value;
        g.push_node(
            Value { value: a.exp(), grad: Fx::zero(), op: Operator::Exp(self) },
            String::new(),
        )
    }

    /// `self + c`: the raw scalar is first wrapped as a fresh leaf.
    pub fn add_scalar(self, g: &mut Graph, c: Fx) -> (v: MVal)
        requires
            old(g).wf(),
            self.id < old(g)@.len(),
        ensures
            final(g).wf(),
            v.id == old(g)@.len() + 1,
            final(g)@ == old(g)@.push((Value { value: c, grad: fx_of(0), op: Operator::Leaf }))
                .push(
                (Value {
                    value: fx_of(fx_add(old(g)@[self.id as int].value@, c@)),
                    grad: fx_of(0),
                    op: Operator::Add(self, (MVal { id: (v.id - 1) as usize })),
                }),
            ),
    {
        let rhs = MVal::new(g, c);
        self.add(g, rhs)
    }

    /// `self - c`: the raw scalar is first wrapped as a fresh leaf.
    pub fn sub_scalar(self, g: &mut Graph, c: Fx) -> (v: MVal)
        requires
            old(g).wf(),
            self.id < old(g)@.len(),
        ensures
            final(g).wf(),
            v.id == old(g)@.len() + 1,
            final(g)@ == old(g)@.push((Value { value: c, grad: fx_of(0), op: Operator::Leaf }))
                .push(
                (Value {
                    value: fx_of(fx_sub(old(g)@[self.id as int].value@, c@)),
                    grad: fx_of(0),
                    op: Operator::Sub(self, (MVal { id: (v.id - 1) as usize })),
                }),
            ),
    {
        let rhs = MVal::new(g, c);
        self.sub(g, rhs)
    }

    /// `self * c`: the raw scalar is first wrapped as a fresh leaf.
    pub fn mul_scalar(self, g: &mut Graph, c: Fx) -> (v: MVal)
        requires
            old(g).wf(),
            self.id < old(g)@.len(),
        ensures
            final(g).wf(),
            v.id == old(g)@.len() + 1,
            final(g)@ == old(g)@.push((Value { value: c, grad: fx_of(0), op: Operator::Leaf }))
                .push(
                (Value {
                    value: fx_of(fx_mul(old(g)@[self.id as int].value@, c@)),
                    grad: fx_of(0),
                    op: Operator::Mul(self, (MVal { id: (v.id - 1) as usize })),
                }),
            ),
    {
        let rhs = MVal::new(g, c);
        self.mul(g, rhs)
    }

    /// `self / c`: the raw scalar is first wrapped as a fresh leaf.
    pub fn div_scalar(self, g: &mut Graph, c: Fx) -> (v: MVal)
        requires
            old(g).wf(),
            self.id < old(g)@.len(),
        ensures
            final(g).wf(),
            v.id == old(g)@.len() + 1,
            final(g)@ == old(g)@.push((Value { value: c, grad: fx_of(0), op: Operator::Leaf }))
                .push(
                (Value {
                    value: fx_of(fx_div(old(g)@[self.id as int].value@, c@)),
                    grad: fx_of(0),
                    op: Operator::Div(self, (MVal { id: (v.id - 1) as usize })),
                }),
            ),
    {
        let rhs = MVal::new(g, c);
        self.div(g, rhs)
    }

    /// `self` raised to the constant whole exponent `e`; the exponent is
    /// recorded as a fresh leaf in the second operand slot.
    pub fn pow(self, g: &mut Graph, e: i64) -> (v: MVal)
        requires
            old(g).wf(),
            self.id < old(g)@.len(),
        ensures
            final(g).wf(),
            v.id == old(g)@.len() + 1,
            final(g)@.len() == old(g)@.len() + 2,
            final(g)@.subrange(0, old(g)@.len() as int) == old(g)@,
            final(g)@[v.id - 1] == (Value {
                value: fx_of(sat64(e * (SCALE as int))),
                grad: fx_of(0),
                op: Operator::Leaf,
            }),
            final(g)@[v.id as int] == (Value {
                value: fx_of(fx_powi(old(g)@[self.id as int].value@, e as int)),
                grad: fx_of(0),
                op: Operator::Pow(self, (MVal { id: (v.id - 1) as usize })),
            }),
    {
        let a = g.nodes[self.id].value;
        let en = MVal::new(g, Fx::from_int(e));
        let v = g.push_node(
            Value { value: a.powi(e), grad: Fx::zero(), op: Operator::Pow(self, en) },
            String::new(),
        );
        proof {
            assert(g@.subrange(0, old(g)@.len() as int) =~= old(g)@);
        }
        v
    }
}

impl Fx {
    /// `self + rhs`, with the raw scalar `self` wrapped as a fresh leaf in
    /// the left operand slot.
    pub fn add_val(self, g: &mut Graph, rhs: MVal) -> (v: MVal)
        requires
            old(g).wf(),
            rhs.id < old(g)@.len(),
        ensures
            final(g).wf(),
            v.id == old(g)@.len() + 1,
            final(g)@ == old(g)@.push((Value { value: self, grad: fx_of(0), op: Operator::Leaf }))
                .push(
                (Value {
                    value: fx_of(fx_add(self@, old(g)@[rhs.id as int].value@)),
                    grad: fx_of(0),
                    op: Operator::Add((MVal { id: (v.id - 1) as usize }), rhs),
                }),
            ),
    {
        let lhs = MVal::new(g, self);
        lhs.add(g, rhs)
    }

    /// `self - rhs`, with the raw scalar `self` wrapped as a fresh leaf in
    /// the left operand slot.
    pub fn sub_val(self, g: &mut Graph, rhs: MVal) -> (v: MVal)
        requires
            old(g).wf(),
            rhs.id < old(g)@.len(),
        ensures
            final(g).wf(),
            v.id == old(g)@.len() + 1,
            final(g)@ == old(g)@.push((Value { value: self, grad: fx_of(0), op: Operator::Leaf }))
                .push(
                (Value {
                    value: fx_of(fx_sub(self@, old(g)@[rhs.id as int].value@)),
                    grad: fx_of(0),
                    op: Operator::Sub((MVal { id: (v.id - 1) as usize }), rhs),
                }),
            ),
    {
        let lhs = MVal::new(g, self);
        lhs.sub(g, rhs)
    }

    /// `self * rhs`, with the raw scalar `self` wrapped as a fresh leaf in
    /// the left operand slot.
    pub fn mul_val(self, g: &mut Graph, rhs: MVal) -> (v: MVal)
        requires
            old(g).wf(),
            rhs.id < old(g)@.len(),
        ensures
            final(g).wf(),
            v.id == old(g)@.len() + 1,
            final(g)@ == old(g)@.push((Value { value: self, grad: fx_of(0), op: Operator::Leaf }))
                .push(
                (Value {
                    value: fx_of(fx_mul(self@, old(g)@[rhs.id as int].value@)),
                    grad: fx_of(0),
                    op: Operator::Mul((MVal { id: (v.id - 1) as usize }), rhs),
                }),
            ),
    {
        let lhs = MVal::new(g, self);
        lhs.mul(g, rhs)
    }

    /// `self / rhs`, with the raw scalar `self` wrapped as a fresh leaf in
    /// the numerator slot.
    pub fn div_val(self, g: &mut Graph, rhs: MVal) -> (v: MVal)
        requires
            old(g).wf(),
            rhs.id < old(g)@.len(),
        ensures
            final(g).wf(),
            v.id == old(g)@.len() + 1,
            final(g)@ == old(g)@.push((Value { value: self, grad: fx_of(0), op: Operator::Leaf }))
                .push(
                (Value {
                    value: fx_of(fx_div(self@, old(g)@[rhs.id as int].value@)),
                    grad: fx_of(0),
                    op: Operator::Div((MVal { id: (v.id - 1) as usize }), rhs),
                }),
            ),
    {
        let lhs = MVal::new(g, self);
        lhs.div(g, rhs)
    }
}

} // verus!
