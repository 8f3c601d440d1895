//! A node object of a linked-data document graph.
//!
//! A [`Node`] gathers an optional key, a list of types, the values of its
//! properties, forward and reverse, an optional graph, an optional set of
//! included nodes, a language and a base [`Direction`]. The values of a
//! property, a graph and a set of included nodes are sets of [`Object`]s,
//! and an object may itself be a node with sets of its own.
//!
//! Equality and hashing look at what a node holds, never at the order in
//! which it came to hold it: two nodes are equal when they have the same
//! [`NodeView`], and equal nodes have the same digest. Both are proved, for
//! sets within sets to any depth.
//!
//! - [`view`] says what nodes and objects are, and what inserting does.
//! - [`laws`] holds what follows for every node and every order.
//! - [`node`], [`object`] and [`properties`] hold the data and its functions.
//! - [`key`] and [`id`] hold the keys; [`direction`] the base direction.
//! - [`digest`], [`text`] and [`sequences`] hold what hashing and comparing
//!   are made of.

pub mod digest;
pub mod direction;
pub mod id;
pub mod key;
pub mod laws;
pub mod node;
pub mod object;
pub mod properties;
pub mod sequences;
pub mod text;
pub mod view;

pub use crate::direction::Direction;
pub use crate::id::Id;
pub use crate::key::{Key, KeyView, Property};
pub use crate::node::Node;
pub use crate::object::{Object, ObjectSet, Objects};
pub use crate::view::{NodeView, ObjectView};
