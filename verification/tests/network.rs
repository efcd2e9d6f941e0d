//! Tests of the feed-forward plumbing: parameter counts, the range of the
//! random initialization, and a deterministic forward pass after setting the
//! parameters by hand.

use micrograd::{ActivationType, Fx, Graph, Layer, MVal, Neuron, MLP, SCALE};

#[test]
fn neuron_parameters_and_initial_range() {
    let mut g = Graph::new();
    let n = Neuron::new(&mut g, 3);
    let params = n.parameters();
    assert_eq!(params.len(), 4);
    for p in params {
        let raw = p.get(&g).raw();
        // a fresh parameter is drawn uniformly between -1 and 1
        assert!(-SCALE <= raw && raw <= SCALE);
        assert_eq!(p.grad(&g), Fx::zero());
    }
}

#[test]
fn initial_weights_are_actually_drawn() {
    let mut g = Graph::new();
    let n = Neuron::new(&mut g, 64);
    let params = n.parameters();
    let first = params[0].get(&g);
    // sixty-five independent draws from two million and one values never
    // all collapse onto one; a stuck generator would
    assert!(params.iter().any(|p| p.get(&g) != first));
}

#[test]
fn linear_neuron_computes_the_weighted_sum() {
    let mut g = Graph::new();
    let n = Neuron::new_custom(&mut g, 2, ActivationType::Linear);
    let params = n.parameters();
    params[0].set(&mut g, Fx::from_int(1));
    params[1].set(&mut g, Fx::from_int(2));
    params[2].set(&mut g, Fx::zero());
    let x1 = MVal::new(&mut g, Fx::from_int(3));
    let x2 = MVal::new(&mut g, Fx::from_int(4));
    let out = n.forward(&mut g, &vec![x1, x2]);
    // 1*3 + 2*4 + 0
    assert_eq!(out.get(&g), Fx::from_int(11));
}

#[test]
fn tanh_neuron_with_zero_parameters_outputs_zero() {
    let mut g = Graph::new();
    let n = Neuron::new(&mut g, 2);
    for p in n.parameters() {
        p.set(&mut g, Fx::zero());
    }
    let x1 = MVal::new(&mut g, Fx::from_int(5));
    let x2 = MVal::new(&mut g, Fx::from_int(-7));
    let out = n.forward(&mut g, &vec![x1, x2]);
    assert_eq!(out.get(&g), Fx::zero());
}

#[test]
fn layer_shapes() {
    let mut g = Graph::new();
    let lay = Layer::new(&mut g, 2, 3);
    assert_eq!(lay.parameters().len(), 9);
    let x1 = MVal::new(&mut g, Fx::one());
    let x2 = MVal::new(&mut g, Fx::one());
    let outs = lay.forward(&mut g, &vec![x1, x2]);
    assert_eq!(outs.len(), 3);
}

#[test]
fn mlp_shapes_and_parameter_count() {
    let mut g = Graph::new();
    let mut model = MLP::new(&mut g, 2, vec![3, 1]);
    // first layer: 3 neurons of 2 inputs; second layer: 1 neuron of 3 inputs
    assert_eq!(model.parameters().len(), 3 * 3 + 4);
    let outs = model.forward(&mut g, &vec![Fx::one(), Fx::from_int(-1)]);
    assert_eq!(outs.len(), 1);
    // a tanh output stays within (-1, 1)
    let raw = outs[0].get(&g).raw();
    assert!(-SCALE <= raw && raw <= SCALE);
}

#[test]
fn gradient_descent_reduces_a_simple_loss() {
    let mut g = Graph::new();
    let mut model = MLP::new_custom(&mut g, 1, vec![1], ActivationType::Linear);
    let params = model.parameters();
    // fix the single weight and bias so the run is deterministic
    params[0].set(&mut g, Fx::zero());
    params[1].set(&mut g, Fx::zero());

    let target = Fx::from_int(1);
    let mut last_loss = i64::MAX;
    for _ in 0..5 {
        let pre = model.forward(&mut g, &vec![Fx::one()])[0];
        let diff = pre.sub_scalar(&mut g, target);
        let loss = diff.mul(&mut g, diff);
        assert!(loss.get(&g).raw() <= last_loss);
        last_loss = loss.get(&g).raw();

        loss.zero_grad(&mut g);
        loss.backward(&mut g);
        for p in model.parameters() {
            let step = Fx::from_ratio(1, 5).mul(p.grad(&g));
            let updated = p.get(&g).sub(step);
            p.set(&mut g, updated);
        }
    }
    // after a few steps the loss has clearly shrunk from its initial 1.0
    assert!(last_loss < 300_000);
}

#[test]
fn mlp_training_loop_runs_on_the_shared_graph() {
    let mut g = Graph::new();
    let mut model = MLP::new(&mut g, 3, vec![4, 4, 1]);
    let xs = vec![
        [Fx::from_int(2), Fx::from_int(3), Fx::from_int(-1)],
        [Fx::from_int(3), Fx::from_int(-1), Fx::from_ratio(1, 2)],
    ];
    let ys = [Fx::from_int(1), Fx::from_int(-1)];
    for _ in 0..2 {
        let mut loss = MVal::new(&mut g, Fx::zero());
        for (x, y) in xs.iter().zip(ys.iter()) {
            let pre = model.forward(&mut g, &vec![x[0], x[1], x[2]])[0];
            let diff = pre.sub_scalar(&mut g, *y);
            let sq = diff.mul(&mut g, diff);
            loss = loss.add(&mut g, sq);
        }
        loss.zero_grad(&mut g);
        loss.backward(&mut g);
        for p in model.parameters() {
            let step = Fx::from_ratio(1, 20).mul(p.grad(&g));
            let updated = p.get(&g).sub(step);
            p.set(&mut g, updated);
        }
    }
}
