//! Tests of the computation graph and its backward pass: forward values,
//! gradient accumulation under sharing, the aliased operand rules, the
//! topological order, and the reset discipline.

use micrograd::{Fx, Graph, MVal};

#[test]
fn forward_values_of_the_four_operators() {
    let mut g = Graph::new();
    let a = MVal::new(&mut g, Fx::from_int(2));
    let b = MVal::new(&mut g, Fx::from_int(3));
    let s = a.add(&mut g, b);
    let p = a.mul(&mut g, b);
    let d = a.sub(&mut g, b);
    let q = a.div(&mut g, b);
    assert_eq!(s.get(&g), Fx::from_int(5));
    assert_eq!(p.get(&g), Fx::from_int(6));
    assert_eq!(d.get(&g), Fx::from_int(-1));
    // 2 / 3 is about 0.6667
    assert_eq!(q.get(&g).raw(), 666_666);
}

#[test]
fn basic_backward_of_a_sum() {
    let mut g = Graph::new();
    let a = MVal::new(&mut g, Fx::from_int(2));
    let b = MVal::new(&mut g, Fx::from_int(3));
    let c = a.add(&mut g, b);
    c.backward(&mut g);
    assert_eq!(a.grad(&g), Fx::one());
    assert_eq!(b.grad(&g), Fx::one());
    assert_eq!(c.grad(&g), Fx::one());
}

#[test]
fn self_use_add_doubles() {
    let mut g = Graph::new();
    let a = MVal::new(&mut g, Fx::from_int(2));
    let c = a.add(&mut g, a);
    assert_eq!(c.get(&g), Fx::from_int(4));
    c.backward(&mut g);
    assert_eq!(a.grad(&g), Fx::from_int(2));
}

#[test]
fn self_use_mul_gives_twice_the_value() {
    let mut g = Graph::new();
    let a = MVal::new(&mut g, Fx::from_int(3));
    let c = a.mul(&mut g, a);
    assert_eq!(c.get(&g), Fx::from_int(9));
    c.backward(&mut g);
    assert_eq!(a.grad(&g), Fx::from_int(6));
}

#[test]
fn self_use_sub_and_div_cancel() {
    let mut g = Graph::new();
    let a = MVal::new(&mut g, Fx::from_int(5));
    let c = a.sub(&mut g, a);
    assert_eq!(c.get(&g), Fx::zero());
    c.backward(&mut g);
    assert_eq!(a.grad(&g), Fx::zero());

    let mut g2 = Graph::new();
    let x = MVal::new(&mut g2, Fx::from_int(5));
    let y = x.div(&mut g2, x);
    assert_eq!(y.get(&g2), Fx::one());
    y.backward(&mut g2);
    assert_eq!(x.grad(&g2), Fx::zero());
}

#[test]
fn diamond_sharing_sums_both_paths() {
    let mut g = Graph::new();
    let a = MVal::new(&mut g, Fx::from_int(2));
    let b = MVal::new(&mut g, Fx::from_int(3));
    let d = a.add(&mut g, b);
    let e = a.mul(&mut g, b);
    let f = d.add(&mut g, e);
    assert_eq!(f.get(&g), Fx::from_int(11));
    f.backward(&mut g);
    // a contributes through d (coefficient 1) and e (coefficient b = 3)
    assert_eq!(a.grad(&g), Fx::from_int(4));
    // b contributes through d (coefficient 1) and e (coefficient a = 2)
    assert_eq!(b.grad(&g), Fx::from_int(3));
}

#[test]
fn tanh_at_zero() {
    let mut g = Graph::new();
    let x = MVal::new(&mut g, Fx::zero());
    let y = x.tanh(&mut g);
    assert_eq!(y.get(&g), Fx::zero());
    y.backward(&mut g);
    assert_eq!(x.grad(&g), Fx::one());
}

#[test]
fn exp_backward_equals_the_output() {
    let mut g = Graph::new();
    let x = MVal::new(&mut g, Fx::one());
    let y = x.exp(&mut g);
    y.backward(&mut g);
    assert_eq!(x.grad(&g), y.get(&g));
}

#[test]
fn relu_backward_gates_on_the_sign() {
    let mut g = Graph::new();
    let x = MVal::new(&mut g, Fx::from_int(3));
    let y = x.relu(&mut g);
    assert_eq!(y.get(&g), Fx::from_int(3));
    y.backward(&mut g);
    assert_eq!(x.grad(&g), Fx::one());

    let mut g2 = Graph::new();
    let n = MVal::new(&mut g2, Fx::from_int(-3));
    let m = n.relu(&mut g2);
    assert_eq!(m.get(&g2), Fx::zero());
    m.backward(&mut g2);
    assert_eq!(n.grad(&g2), Fx::zero());
}

#[test]
fn pow_forward_and_backward() {
    let mut g = Graph::new();
    let a = MVal::new(&mut g, Fx::from_int(3));
    let c = a.pow(&mut g, 2);
    assert_eq!(c.get(&g), Fx::from_int(9));
    c.backward(&mut g);
    // d(a^2)/da = 2 * a = 6
    assert_eq!(a.grad(&g), Fx::from_int(6));
}

#[test]
fn pow_with_negative_exponent() {
    let mut g = Graph::new();
    let a = MVal::new(&mut g, Fx::from_int(2));
    let c = a.pow(&mut g, -1);
    assert_eq!(c.get(&g).raw(), 500_000);
    c.backward(&mut g);
    // d(a^-1)/da = -a^-2 = -0.25
    assert_eq!(a.grad(&g).raw(), -250_000);
}

#[test]
fn scalar_operand_variants() {
    let mut g = Graph::new();
    let a = MVal::new(&mut g, Fx::from_int(2));
    let s = a.add_scalar(&mut g, Fx::from_int(3));
    assert_eq!(s.get(&g), Fx::from_int(5));
    let t = Fx::from_int(3).sub_val(&mut g, a);
    assert_eq!(t.get(&g), Fx::from_int(1));
    let u = a.mul_scalar(&mut g, Fx::from_int(4));
    assert_eq!(u.get(&g), Fx::from_int(8));
    let w = Fx::from_int(8).div_val(&mut g, a);
    assert_eq!(w.get(&g), Fx::from_int(4));
    t.backward(&mut g);
    // t = 3 - a, so da = -1
    assert_eq!(a.grad(&g), Fx::from_int(-1));
}

#[test]
fn reset_then_backward_is_repeatable() {
    let mut g = Graph::new();
    let a = MVal::new(&mut g, Fx::from_int(2));
    let b = MVal::new(&mut g, Fx::from_int(3));
    let d = a.add(&mut g, b);
    let e = a.mul(&mut g, b);
    let f = d.add(&mut g, e);

    f.zero_grad(&mut g);
    f.backward(&mut g);
    let first = vec![a.grad(&g), b.grad(&g), d.grad(&g), e.grad(&g), f.grad(&g)];

    f.zero_grad(&mut g);
    f.backward(&mut g);
    let second = vec![a.grad(&g), b.grad(&g), d.grad(&g), e.grad(&g), f.grad(&g)];

    assert_eq!(first, second);
}

#[test]
fn backward_without_reset_accumulates() {
    let mut g = Graph::new();
    let a = MVal::new(&mut g, Fx::from_int(2));
    let b = MVal::new(&mut g, Fx::from_int(3));
    let c = a.add(&mut g, b);
    c.backward(&mut g);
    c.backward(&mut g);
    // without an intervening reset the second pass adds on top
    assert_eq!(a.grad(&g), Fx::from_int(2));
    assert_eq!(b.grad(&g), Fx::from_int(2));
}

#[test]
fn zero_grad_touches_only_reachable_nodes() {
    let mut g = Graph::new();
    let a = MVal::new(&mut g, Fx::from_int(2));
    let b = MVal::new(&mut g, Fx::from_int(3));
    let c = a.add(&mut g, b);
    let other = MVal::new(&mut g, Fx::from_int(7));
    other.set_grad(&mut g, Fx::from_int(42));
    c.backward(&mut g);
    c.zero_grad(&mut g);
    assert_eq!(a.grad(&g), Fx::zero());
    assert_eq!(b.grad(&g), Fx::zero());
    assert_eq!(c.grad(&g), Fx::zero());
    // the unreachable node keeps its gradient
    assert_eq!(other.grad(&g), Fx::from_int(42));
}

#[test]
fn collect_operands_is_a_topological_order() {
    let mut g = Graph::new();
    let a = MVal::new(&mut g, Fx::from_int(2));
    let b = MVal::new(&mut g, Fx::from_int(3));
    let d = a.add(&mut g, b);
    let e = a.mul(&mut g, b);
    let f = d.add(&mut g, e);
    let order = f.collect_operands(&g);

    // every reachable node exactly once
    assert_eq!(order.len(), 5);
    for i in 0..order.len() {
        for j in 0..i {
            assert_ne!(order[i], order[j]);
        }
    }
    let pos = |v: MVal| order.iter().position(|&o| o == v).unwrap();
    // operands strictly before their consumers
    assert!(pos(a) < pos(d) && pos(b) < pos(d));
    assert!(pos(a) < pos(e) && pos(b) < pos(e));
    assert!(pos(d) < pos(f) && pos(e) < pos(f));
    // the root closes the order
    assert_eq!(order[order.len() - 1], f);
}

#[test]
fn set_updates_in_place_for_training_steps() {
    let mut g = Graph::new();
    let p = MVal::new(&mut g, Fx::zero());
    let x = MVal::new(&mut g, Fx::one());
    let out = p.mul(&mut g, x);
    let diff = out.sub_scalar(&mut g, Fx::from_int(2));
    let loss = diff.mul(&mut g, diff);
    assert_eq!(loss.get(&g), Fx::from_int(4));

    loss.zero_grad(&mut g);
    loss.backward(&mut g);
    // d(loss)/dp = 2 * (p*x - 2) * x = -4
    assert_eq!(p.grad(&g), Fx::from_int(-4));

    // one gradient-descent step with learning rate 0.1
    let step = Fx::from_ratio(1, 10).mul(p.grad(&g));
    let updated = p.get(&g).sub(step);
    p.set(&mut g, updated);
    assert_eq!(p.get(&g).raw(), 400_000);
    // the update replaced the value in place and left the gradient alone
    assert_eq!(p.grad(&g), Fx::from_int(-4));
}

#[test]
fn labels_are_kept() {
    let mut g = Graph::new();
    let a = MVal::new_lab(&mut g, Fx::from_int(2), "x1");
    let b = MVal::new(&mut g, Fx::from_int(3));
    assert_eq!(a.label(&g).as_str(), "x1");
    assert_eq!(b.label(&g).as_str(), "");
}

#[test]
fn backward_on_a_bare_leaf_seeds_one() {
    let mut g = Graph::new();
    let a = MVal::new(&mut g, Fx::from_int(7));
    a.backward(&mut g);
    assert_eq!(a.grad(&g), Fx::one());
    assert_eq!(a.get(&g), Fx::from_int(7));
}

#[test]
fn default_is_a_zero_leaf() {
    let mut g = Graph::new();
    let z = MVal::default(&mut g);
    assert_eq!(z.get(&g), Fx::zero());
    assert_eq!(z.grad(&g), Fx::zero());
}
