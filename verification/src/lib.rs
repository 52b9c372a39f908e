//! Reconfigurable networks of logic elements wired in series and parallel,
//! settled by recursive propagation over a directed acyclic graph.
//!
//! A network is a hierarchy of nodes. Each node holds an input, a
//! configuration that the input is compared with, and a program, the seed it
//! starts from when it combines what its children present. To settle a
//! network is to give every node that has children the input that its
//! children imply, from the leaves up to the root.
//!
//! - [`reducer`] holds the network over any domain of values. Its model, in
//!   [`reducer::model`], says what settling leaves behind, and the proofs in
//!   [`reducer::settling`] relate it to the settled inputs of the nodes.
//! - [`breducer`] holds the network of two-state cells, each wired in series
//!   or in parallel: the network over bits, under the names of relay logic.
//! - [`xor`], [`arrangement`] and [`contact`] hold the cell, the two ways of
//!   wiring, and the node made of both.
//! - [`error`] holds the reasons for which an operation is refused.

pub mod arrangement;
pub mod breducer;
pub mod contact;
pub mod error;
pub mod reducer;
pub mod xor;
