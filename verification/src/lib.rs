//! Division lines of a self-similar diagram.
//!
//! A tree of scalars drives the division of a region of the plane: each node
//! splits its region among its children, draws one line per child from its
//! centre outwards, and cuts every line where it first meets a line drawn
//! before or the boundary of the whole. The crate holds the tree and how it is
//! drawn at random, the test of a ray against a segment, and the division
//! itself.
//!
//! The coordinates are single-precision numbers. The crate keeps them by
//! their bit patterns and leaves the arithmetic to its caller, as a type that
//! implements [`arithmetic::Arithmetic`]; what it proves holds whatever that
//! arithmetic answers.

pub mod scalar;
pub mod arithmetic;
pub mod raycast;
pub mod rng;
pub mod tree;
pub mod subdivision;
