//! The feed-forward network plumbing over the computation graph: a neuron
//! holds weight and bias leaves, a layer is a row of neurons, and a
//! multi-layer perceptron chains layers.  All arithmetic goes through the
//! graph's operators, so a loss built on top of a forward pass can be
//! differentiated with `backward`.

use crate::fixed::fx_add;
use crate::fixed::fx_mul;
use crate::fixed::Fx;
use crate::fixed::SCALE;
use crate::funcs::fx_relu;
use crate::funcs::fx_tanh;
use crate::graph::Graph;
use crate::graph::MVal;
use crate::graph::Operator;
use crate::graph::Value;
use vstd::prelude::*;

verus! {

/// Relies on rand's `thread_rng` and `Rng::gen_range`: a sample drawn from a
/// non-empty inclusive whole-number range lies within that range.
#[verifier::external_body]
fn gen_range_i64(lo: i64, hi: i64) -> (r: i64)
    requires
        lo <= hi,
    ensures
        lo <= r <= hi,
{
    rand::Rng::gen_range(&mut rand::thread_rng(), lo..=hi)
}

/// Which activation a neuron applies to its weighted sum.
#[derive(Clone, Copy, Debug)]
pub enum ActivationType {
    Linear,
    Tanh,
    ReLU,
}

/// The activation function applied to a fixed-point value.
pub open spec fn act_value(a: ActivationType, x: int) -> int {
    match a {
        ActivationType::Linear => x,
        ActivationType::Tanh => fx_tanh(x),
        ActivationType::ReLU => fx_relu(x),
    }
}

/// The left fold `b + w_0 * x_0 + ... + w_(k-1) * x_(k-1)` in saturating
/// fixed-point arithmetic, exactly as the forward pass accumulates it.
pub open spec fn weighted_sum(ws: Seq<int>, xs: Seq<int>, b: int, k: int) -> int
    decreases k,
{
    if k <= 0 {
        b
    } else {
        fx_add(weighted_sum(ws, xs, b, k - 1), fx_mul(ws[k - 1], xs[k - 1]))
    }
}

/// All handles of a vector point into an arena of `glen` nodes.
pub open spec fn handles_valid(s: Seq<MVal>, glen: int) -> bool {
    forall|i: int| 0 <= i < s.len() ==> (#[trigger] s[i]).id < glen
}

/// One unit of a layer: a weight leaf per input, one bias leaf, and the
/// activation applied on top of the weighted sum.
#[derive(Debug)]
pub struct Neuron {
    weights: Vec<MVal>,
    b: MVal,
    activation_type: ActivationType,
}

impl Neuron {
    /// The weight handles, in input order.
    pub closed spec fn weights_spec(self) -> Seq<MVal> {
        self.weights@
    }

    /// The bias handle.
    pub closed spec fn b_spec(self) -> MVal {
        self.b
    }

    /// The activation this neuron applies.
    pub closed spec fn activation(self) -> ActivationType {
        self.activation_type
    }

    /// Number of inputs the neuron expects.
    pub open spec fn n_inputs(self) -> nat {
        self.weights_spec().len()
    }

    /// Every handle of the neuron points into an arena of `glen` nodes.
    pub open spec fn wf(self, glen: int) -> bool {
        handles_valid(self.weights_spec(), glen) && self.b_spec().id < glen
    }

    /// The weighted sum of the neuron over the given inputs, read from the
    /// given arena.
    pub open spec fn sum_spec(self, nodes: Seq<Value>, input: Seq<MVal>) -> int {
        weighted_sum(
            Seq::new(self.weights_spec().len(), |i: int| nodes[self.weights_spec()[i].id as int].value@),
            Seq::new(input.len(), |i: int| nodes[input[i].id as int].value@),
            nodes[self.b_spec().id as int].value@,
            self.weights_spec().len() as int,
        )
    }

    /// A neuron with `neuron_inp` weights and a bias, every parameter a
    /// fresh leaf drawn uniformly from -1 to 1, activated with `Tanh`.
    pub fn new(g: &mut Graph, neuron_inp: usize) -> (n: Neuron)
        requires
            old(g).wf(),
        ensures
            final(g).wf(),
            final(g)@.len() == old(g)@.len() + neuron_inp + 1,
            final(g)@.subrange(0, old(g)@.len() as int) == old(g)@,
            n.wf(final(g)@.len() as int),
            n.n_inputs() == neuron_inp,
            n.activation() == ActivationType::Tanh,
            forall|i: int|
                old(g)@.len() <= i < final(g)@.len() ==> (#[trigger] final(g)@[i]).op
                    == Operator::Leaf && final(g)@[i].grad@ == 0 && -(SCALE as int)
                    <= final(g)@[i].value@ <= SCALE as int,
    {
        let ghost g0 = g@;
        let mut weights: Vec<MVal> = Vec::new();
        let mut i: usize = 0;
        while i < neuron_inp
            invariant
                g.wf(),
                i <= neuron_inp,
                weights@.len() == i,
                g@.len() == g0.len() + i,
                g@.subrange(0, g0.len() as int) == g0,
                handles_valid(weights@, g@.len() as int),
                forall|j: int|
                    g0.len() <= j < g@.len() ==> (#[trigger] g@[j]).op == Operator::Leaf
                        && g@[j].grad@ == 0 && -(SCALE as int) <= g@[j].value@ <= SCALE as int,
            decreases neuron_inp - i,
        {
            let w = MVal::new(g, Fx::from_raw(gen_range_i64(-SCALE, SCALE)));
            weights.push(w);
            proof {
                assert(g@.subrange(0, g0.len() as int) =~= g0);
            }
            i = i + 1;
        }
        let b = MVal::new(g, Fx::from_raw(gen_range_i64(-SCALE, SCALE)));
        proof {
            assert(g@.subrange(0, g0.len() as int) =~= g0);
        }
        Neuron { weights, b, activation_type: ActivationType::Tanh }
    }

    /// Same as `new`, but with the given activation.
    pub fn new_custom(g: &mut Graph, neuron_inp: usize, activation_type: ActivationType) -> (n:
        Neuron)
        requires
            old(g).wf(),
        ensures
            final(g).wf(),
            final(g)@.len() == old(g)@.len() + neuron_inp + 1,
            final(g)@.subrange(0, old(g)@.len() as int) == old(g)@,
            n.wf(final(g)@.len() as int),
            n.n_inputs() == neuron_inp,
            n.activation() == activation_type,
    {
        let mut ner = Self::new(g, neuron_inp);
        ner.activation_type = activation_type;
        ner
    }

    /// Multiplies each input with its weight, accumulates into the bias,
    /// and applies the activation:
    /// `out = activation(b + w_1 * x_1 + ... + w_k * x_k)`.
    pub fn forward(&self, g: &mut Graph, input: &Vec<MVal>) -> (out: MVal)
        requires
            old(g).wf(),
            self.wf(old(g)@.len() as int),
            handles_valid(input@, old(g)@.len() as int),
            input@.len() == self.n_inputs(),
        ensures
            final(g).wf(),
            final(g)@.len() >= old(g)@.len(),
            final(g)@.subrange(0, old(g)@.len() as int) == old(g)@,
            out.id < final(g)@.len(),
            final(g)@[out.id as int].value@ == act_value(
                self.activation(),
                self.sum_spec(old(g)@, input@),
            ),
    {
        let ghost g0 = g@;
        let ghost ws = Seq::new(
            self.weights@.len(),
            |i: int| g0[self.weights@[i].id as int].value@,
        );
        let ghost xs = Seq::new(input@.len(), |i: int| g0[input@[i].id as int].value@);
        let mut sum = self.b;
        let mut i: usize = 0;
        proof {
            assert(g@[sum.id as int].value@ == weighted_sum(ws, xs, g0[self.b.id as int].value@, 0));
        }
        while i < self.weights.len()
            invariant
                g.wf(),
                i <= self.weights@.len(),
                g@.len() >= g0.len(),
                g@.subrange(0, g0.len() as int) == g0,
                self.wf(g0.len() as int),
                handles_valid(input@, g0.len() as int),
                input@.len() == self.weights@.len(),
                ws == Seq::new(
                    self.weights@.len(),
                    |i: int| g0[self.weights@[i].id as int].value@,
                ),
                xs == Seq::new(input@.len(), |i: int| g0[input@[i].id as int].value@),
                sum.id < g@.len(),
                g@[sum.id as int].value@ == weighted_sum(
                    ws,
                    xs,
                    g0[self.b_spec().id as int].value@,
                    i as int,
                ),
            decreases self.weights@.len() - i,
        {
            let w = self.weights[i];
            let x = input[i];
            proof {
                assert(g@.subrange(0, g0.len() as int)[w.id as int] == g@[w.id as int]);
                assert(g@.subrange(0, g0.len() as int)[x.id as int] == g@[x.id as int]);
            }
            let ghost gpre = g@;
            let ghost sum_old = sum;
            let prod = w.mul(g, x);
            proof {
                assert(g@.subrange(0, g0.len() as int) =~= g0);
                assert(g@[sum_old.id as int] == gpre[sum_old.id as int]);
                assert(g@[prod.id as int].value@ == fx_mul(ws[i as int], xs[i as int]));
            }
            let ghost gmid = g@;
            sum = sum.add(g, prod);
            proof {
                assert(g@.subrange(0, g0.len() as int) =~= g0);
                assert(g@[sum.id as int].value@ == fx_add(
                    gmid[sum_old.id as int].value@,
                    gmid[prod.id as int].value@,
                ));
            }
            i = i + 1;
        }
        let out = match self.activation_type {
            ActivationType::Tanh => sum.tanh(g),
            ActivationType::ReLU => sum.relu(g),
            ActivationType::Linear => sum,
        };
        proof {
            assert(g@.subrange(0, g0.len() as int) =~= g0);
        }
        out
    }

    /// The parameters of the neuron: its weights, then its bias.
    pub open spec fn params_spec(self) -> Seq<MVal> {
        self.weights_spec().push(self.b_spec())
    }

    /// The parameters of the neuron: its weights, then its bias.
    pub fn parameters(&self) -> (params: Vec<MVal>)
        ensures
            params@ == self.params_spec(),
    {
        let mut params = self.weights.clone();
        params.push(self.b);
        proof {
            assert(params@ =~= self.weights_spec().push(self.b_spec()));
        }
        params
    }
}

/// The parameters of the first `k` neurons, in order.
pub open spec fn params_of_neurons(ns: Seq<Neuron>, k: int) -> Seq<MVal>
    decreases k,
{
    if k <= 0 {
        seq![]
    } else {
        params_of_neurons(ns, k - 1) + ns[k - 1].params_spec()
    }
}

/// A row of neurons that are all fed the same input.
#[derive(Debug)]
pub struct Layer {
    neurons: Vec<Neuron>,
}

impl Layer {
    /// The neurons of the layer, in order.
    pub closed spec fn neurons_spec(self) -> Seq<Neuron> {
        self.neurons@
    }

    /// Number of outputs the layer produces: one per neuron.
    pub open spec fn n_out(self) -> nat {
        self.neurons_spec().len()
    }

    /// Every neuron points into an arena of `glen` nodes.
    pub open spec fn wf(self, glen: int) -> bool {
        forall|i: int|
            0 <= i < self.neurons_spec().len() ==> (#[trigger] self.neurons_spec()[i]).wf(glen)
    }

    /// Every neuron of the layer expects `k` inputs.
    pub open spec fn uniform(self, k: nat) -> bool {
        forall|i: int|
            0 <= i < self.neurons_spec().len() ==> (#[trigger] self.neurons_spec()[i]).n_inputs()
                == k
    }

    /// A layer of `layer_out` neurons, each with `neuron_inp` fresh random
    /// weights, activated with `Tanh`.
    pub fn new(g: &mut Graph, neuron_inp: usize, layer_out: usize) -> (l: Layer)
        requires
            old(g).wf(),
        ensures
            final(g).wf(),
            final(g)@.len() >= old(g)@.len(),
            final(g)@.subrange(0, old(g)@.len() as int) == old(g)@,
            l.wf(final(g)@.len() as int),
            l.n_out() == layer_out,
            l.uniform(neuron_inp as nat),
    {
        let ghost g0 = g@;
        let mut neurons: Vec<Neuron> = Vec::new();
        let mut i: usize = 0;
        while i < layer_out
            invariant
                g.wf(),
                i <= layer_out,
                neurons@.len() == i,
                g@.len() >= g0.len(),
                g@.subrange(0, g0.len() as int) == g0,
                forall|j: int|
                    0 <= j < neurons@.len() ==> (#[trigger] neurons@[j]).wf(g@.len() as int),
                forall|j: int|
                    0 <= j < neurons@.len() ==> (#[trigger] neurons@[j]).n_inputs() == neuron_inp,
            decreases layer_out - i,
        {
            let n = Neuron::new(g, neuron_inp);
            neurons.push(n);
            proof {
                assert(g@.subrange(0, g0.len() as int) =~= g0);
            }
            i = i + 1;
        }
        Layer { neurons }
    }

    /// Same as `new`, but with the given activation for every neuron.
    pub fn new_custom(g: &mut Graph, neuron_inp: usize, layer_out: usize, activation_type:
        ActivationType) -> (l: Layer)
        requires
            old(g).wf(),
        ensures
            final(g).wf(),
            final(g)@.len() >= old(g)@.len(),
            final(g)@.subrange(0, old(g)@.len() as int) == old(g)@,
            l.wf(final(g)@.len() as int),
            l.n_out() == layer_out,
            l.uniform(neuron_inp as nat),
    {
        let ghost g0 = g@;
        let mut neurons: Vec<Neuron> = Vec::new();
        let mut i: usize = 0;
        while i < layer_out
            invariant
                g.wf(),
                i <= layer_out,
                neurons@.len() == i,
                g@.len() >= g0.len(),
                g@.subrange(0, g0.len() as int) == g0,
                forall|j: int|
                    0 <= j < neurons@.len() ==> (#[trigger] neurons@[j]).wf(g@.len() as int),
                forall|j: int|
                    0 <= j < neurons@.len() ==> (#[trigger] neurons@[j]).n_inputs() == neuron_inp,
            decreases layer_out - i,
        {
            let n = Neuron::new_custom(g, neuron_inp, activation_type);
            neurons.push(n);
            proof {
                assert(g@.subrange(0, g0.len() as int) =~= g0);
            }
            i = i + 1;
        }
        Layer { neurons }
    }

    /// Passes the same input to every neuron of the layer and returns the
    /// predicted outputs, one per neuron.
    pub fn forward(&self, g: &mut Graph, input: &Vec<MVal>) -> (outs: Vec<MVal>)
        requires
            old(g).wf(),
            self.wf(old(g)@.len() as int),
            self.uniform(input@.len() as nat),
            handles_valid(input@, old(g)@.len() as int),
        ensures
            final(g).wf(),
            final(g)@.len() >= old(g)@.len(),
            final(g)@.subrange(0, old(g)@.len() as int) == old(g)@,
            outs@.len() == self.n_out(),
            handles_valid(outs@, final(g)@.len() as int),
    {
        let ghost g0 = g@;
        let mut outs: Vec<MVal> = Vec::new();
        let mut i: usize = 0;
        while i < self.neurons.len()
            invariant
                g.wf(),
                i <= self.neurons_spec().len(),
                outs@.len() == i,
                g@.len() >= g0.len(),
                g@.subrange(0, g0.len() as int) == g0,
                self.wf(g0.len() as int),
                self.uniform(input@.len() as nat),
                handles_valid(input@, g0.len() as int),
                handles_valid(outs@, g@.len() as int),
            decreases self.neurons_spec().len() - i,
        {
            let out = self.neurons[i].forward(g, input);
            outs.push(out);
            proof {
                assert(g@.subrange(0, g0.len() as int) =~= g0);
            }
            i = i + 1;
        }
        outs
    }

    /// The parameters of every neuron in the layer, in order.
    pub fn parameters(&self) -> (params: Vec<MVal>)
        ensures
            params@ == params_of_neurons(self.neurons_spec(), self.neurons_spec().len() as int),
    {
        let mut params: Vec<MVal> = Vec::new();
        let mut i: usize = 0;
        while i < self.neurons.len()
            invariant
                i <= self.neurons_spec().len(),
                params@ == params_of_neurons(self.neurons_spec(), i as int),
            decreases self.neurons_spec().len() - i,
        {
            let ghost before = params@;
            let mut ps = self.neurons[i].parameters();
            params.append(&mut ps);
            proof {
                assert(params@ =~= params_of_neurons(self.neurons_spec(), i as int + 1));
            }
            i = i + 1;
        }
        params
    }
}

/// The parameters of the first `k` layers, in order.
pub open spec fn params_of_layers(ls: Seq<Layer>, k: int) -> Seq<MVal>
    decreases k,
{
    if k <= 0 {
        seq![]
    } else {
        params_of_layers(ls, k - 1) + params_of_neurons(
            ls[k - 1].neurons_spec(),
            ls[k - 1].neurons_spec().len() as int,
        )
    }
}

/// A multi-layer perceptron: layers chained so that the outputs of one
/// layer feed every neuron of the next.
#[derive(Debug)]
pub struct MLP {
    layers: Vec<Layer>,
}

impl MLP {
    /// The layers, first to last.
    pub closed spec fn layers_spec(self) -> Seq<Layer> {
        self.layers@
    }

    /// Every layer points into an arena of `glen` nodes.
    pub open spec fn wf(self, glen: int) -> bool {
        forall|i: int|
            0 <= i < self.layers_spec().len() ==> (#[trigger] self.layers_spec()[i]).wf(glen)
    }

    /// Each layer expects exactly what the layer before it produces, and the
    /// first layer expects `first_in` inputs.
    pub open spec fn chained(self, first_in: nat) -> bool {
        forall|i: int|
            0 <= i < self.layers_spec().len() ==> (#[trigger] self.layers_spec()[i]).uniform(
                if i == 0 {
                    first_in
                } else {
                    self.layers_spec()[i - 1].n_out()
                },
            )
    }

    /// A perceptron with `Tanh` activation everywhere: `neuron_inp` inputs
    /// to each neuron of the first layer, and one layer per entry of
    /// `layer_outs` with that many neurons.
    pub fn new(g: &mut Graph, neuron_inp: usize, layer_outs: Vec<usize>) -> (m: MLP)
        requires
            old(g).wf(),
        ensures
            final(g).wf(),
            final(g)@.len() >= old(g)@.len(),
            final(g)@.subrange(0, old(g)@.len() as int) == old(g)@,
            m.wf(final(g)@.len() as int),
            m.chained(neuron_inp as nat),
            m.layers_spec().len() == layer_outs@.len(),
            forall|i: int|
                0 <= i < m.layers_spec().len() ==> (#[trigger] m.layers_spec()[i]).n_out()
                    == layer_outs@[i],
    {
        let ghost g0 = g@;
        let mut lays: Vec<Layer> = Vec::new();
        let mut no_of_input = neuron_inp;
        let mut i: usize = 0;
        while i < layer_outs.len()
            invariant
                g.wf(),
                i <= layer_outs@.len(),
                lays@.len() == i,
                g@.len() >= g0.len(),
                g@.subrange(0, g0.len() as int) == g0,
                forall|j: int| 0 <= j < lays@.len() ==> (#[trigger] lays@[j]).wf(g@.len() as int),
                forall|j: int|
                    0 <= j < lays@.len() ==> (#[trigger] lays@[j]).n_out() == layer_outs@[j],
                forall|j: int|
                    0 <= j < lays@.len() ==> (#[trigger] lays@[j]).uniform(
                        if j == 0 {
                            neuron_inp as nat
                        } else {
                            lays@[j - 1].n_out()
                        },
                    ),
                no_of_input as nat == if i == 0 {
                    neuron_inp as nat
                } else {
                    lays@[i - 1].n_out()
                },
            decreases layer_outs@.len() - i,
        {
            let lay = Layer::new(g, no_of_input, layer_outs[i]);
            lays.push(lay);
            proof {
                assert(g@.subrange(0, g0.len() as int) =~= g0);
            }
            no_of_input = layer_outs[i];
            i = i + 1;
        }
        MLP { layers: lays }
    }

    /// Same as `new`, but with the given activation for every neuron.
    pub fn new_custom(g: &mut Graph, neuron_inp: usize, layer_outs: Vec<usize>, activation_type:
        ActivationType) -> (m: MLP)
        requires
            old(g).wf(),
        ensures
            final(g).wf(),
            final(g)@.len() >= old(g)@.len(),
            final(g)@.subrange(0, old(g)@.len() as int) == old(g)@,
            m.wf(final(g)@.len() as int),
            m.chained(neuron_inp as nat),
            m.layers_spec().len() == layer_outs@.len(),
            forall|i: int|
                0 <= i < m.layers_spec().len() ==> (#[trigger] m.layers_spec()[i]).n_out()
                    == layer_outs@[i],
    {
        let ghost g0 = g@;
        let mut lays: Vec<Layer> = Vec::new();
        let mut no_of_input = neuron_inp;
        let mut i: usize = 0;
        while i < layer_outs.len()
            invariant
                g.wf(),
                i <= layer_outs@.len(),
                lays@.len() == i,
                g@.len() >= g0.len(),
                g@.subrange(0, g0.len() as int) == g0,
                forall|j: int| 0 <= j < lays@.len() ==> (#[trigger] lays@[j]).wf(g@.len() as int),
                forall|j: int|
                    0 <= j < lays@.len() ==> (#[trigger] lays@[j]).n_out() == layer_outs@[j],
                forall|j: int|
                    0 <= j < lays@.len() ==> (#[trigger] lays@[j]).uniform(
                        if j == 0 {
                            neuron_inp as nat
                        } else {
                            lays@[j - 1].n_out()
                        },
                    ),
                no_of_input as nat == if i == 0 {
                    neuron_inp as nat
                } else {
                    lays@[i - 1].n_out()
                },
            decreases layer_outs@.len() - i,
        {
            let lay = Layer::new_custom(g, no_of_input, layer_outs[i], activation_type);
            lays.push(lay);
            proof {
                assert(g@.subrange(0, g0.len() as int) =~= g0);
            }
            no_of_input = layer_outs[i];
            i = i + 1;
        }
        MLP { layers: lays }
    }

    /// Wraps every raw input as a fresh leaf, passes the leaves to the first
    /// layer, and feeds each layer's outputs to the next; returns the last
    /// layer's outputs.
    pub fn forward(&self, g: &mut Graph, inp: &Vec<Fx>) -> (outs: Vec<MVal>)
        requires
            old(g).wf(),
            self.wf(old(g)@.len() as int),
            self.chained(inp@.len() as nat),
        ensures
            final(g).wf(),
            final(g)@.len() >= old(g)@.len(),
            final(g)@.subrange(0, old(g)@.len() as int) == old(g)@,
            handles_valid(outs@, final(g)@.len() as int),
            outs@.len() == if self.layers_spec().len() == 0 {
                inp@.len()
            } else {
                self.layers_spec()[self.layers_spec().len() - 1].n_out()
            },
    {
        let ghost g0 = g@;
        let mut input: Vec<MVal> = Vec::new();
        let mut i: usize = 0;
        while i < inp.len()
            invariant
                g.wf(),
                i <= inp@.len(),
                input@.len() == i,
                g@.len() >= g0.len(),
                g@.subrange(0, g0.len() as int) == g0,
                handles_valid(input@, g@.len() as int),
            decreases inp@.len() - i,
        {
            let v = MVal::new(g, inp[i]);
            input.push(v);
            proof {
                assert(g@.subrange(0, g0.len() as int) =~= g0);
            }
            i = i + 1;
        }
        let mut i: usize = 0;
        while i < self.layers.len()
            invariant
                g.wf(),
                i <= self.layers_spec().len(),
                g@.len() >= g0.len(),
                g@.subrange(0, g0.len() as int) == g0,
                self.wf(g0.len() as int),
                self.chained(inp@.len() as nat),
                handles_valid(input@, g@.len() as int),
                input@.len() == if i == 0 {
                    inp@.len()
                } else {
                    self.layers_spec()[i - 1].n_out()
                },
            decreases self.layers_spec().len() - i,
        {
            let lay = &self.layers[i];
            input = lay.forward(g, &input);
            proof {
                assert(g@.subrange(0, g0.len() as int) =~= g0);
            }
            i = i + 1;
        }
        input
    }

    /// The parameters of every layer, in order.
    pub fn parameters(&mut self) -> (params: Vec<MVal>)
        ensures
            params@ == params_of_layers(old(self).layers_spec(), old(self).layers_spec().len() as int),
            final(self).layers_spec() == old(self).layers_spec(),
    {
        let mut params: Vec<MVal> = Vec::new();
        let mut i: usize = 0;
        while i < self.layers.len()
            invariant
                i <= self.layers_spec().len(),
                self.layers_spec() == old(self).layers_spec(),
                params@ == params_of_layers(self.layers_spec(), i as int),
            decreases self.layers_spec().len() - i,
        {
            let mut ps = self.layers[i].parameters();
            params.append(&mut ps);
            proof {
                assert(params@ =~= params_of_layers(self.layers_spec(), i as int + 1));
            }
            i = i + 1;
        }
        params
    }
}

} // verus!
