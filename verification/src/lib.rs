//! A prefix-sum index: a sequence of additive values of fixed length with
//! point updates and prefix and range sums, each along one short walk through
//! an implicit tree.
//!
//! [`index`] holds the arithmetic of the walks, [`additive`] the values and
//! their sums, [`integers`] the machine integers as values, and [`tree`] the
//! container.

pub mod additive;
pub mod index;
pub mod integers;
pub mod tree;
