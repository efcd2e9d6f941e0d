//! A scalar reverse-mode automatic-differentiation engine.
//!
//! The crate builds an in-memory computation graph of scalar values and
//! computes, in a single backward traversal, the gradient of a chosen output
//! node with respect to every node that contributed to it — including nodes
//! that are reused several times in the same graph, and nodes that stand in
//! both operand slots of one operation.
//!
//! The graph is an arena: a [`Graph`] owns every node, and a handle
//! ([`MVal`]) is a stable index into it, so handle equality is node
//! identity.  Scalars are saturating fixed-point numbers ([`Fx`]) with
//! [`SCALE`] steps per unit, so every arithmetic step has an exact
//! mathematical description.

use vstd::prelude::*;

pub mod backward;
pub mod chars;
pub mod fixed;
pub mod funcs;
pub mod graph;
pub mod nn;
pub mod traverse;

pub use backward::spec_backward;
pub use chars::char_to_index;
pub use chars::index_to_char;
pub use fixed::Fx;
pub use fixed::E_RAW;
pub use fixed::SCALE;
pub use graph::Graph;
pub use graph::MVal;
pub use graph::Operator;
pub use graph::Value;
pub use nn::ActivationType;
pub use nn::Layer;
pub use nn::Neuron;
pub use nn::MLP;
pub use traverse::spec_order;
