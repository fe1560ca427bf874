//! Search of the state space of a permutation puzzle, and random patterns
//! of it.
//!
//! A puzzle is what [`puzzle_traits::SemiGroupActionPuzzle`] asks for:
//! patterns, transformations that act on them, equality and a fingerprint.
//! [`idf_search::IDFSearch`] finds sequences of generator moves that lead
//! from a pattern to a target, by iterative deepening; it is pruned by a
//! [`prune_table::HashPruneTable`], keeps to the canonical order of
//! [`canonical_fsm::CanonicalFSM`] and asks the filters of
//! [`traversal_filters`]. Where moves on one axis commute and moves of one
//! family join, as their tags say, the first solution of a search is a
//! shortest way to the target ([`canonical_paths`]). [`randomize`] puts the pieces of an orbit in a
//! random order with random orientations, under constraints that hold of
//! every outcome, and [`mask_pattern`] projects a pattern onto the slots
//! that a mask does not ignore.
//!
//! The puzzles of the `cubing` crate are puzzles in this sense
//! ([`kpuzzle_action`]), and a search on one of them whose generators come
//! with their inverses prunes admissibly ([`kpuzzle_inverses`]).
//! [`orbits`], [`transformations`] and [`random`] hold what is taken on
//! trust of `cubing` and `rand`.

pub mod canonical_fsm;
pub mod canonical_paths;
pub mod collapse;
pub mod cube3x3x3;
pub mod idf_search;
pub mod kpuzzle_action;
pub mod kpuzzle_inverses;
pub mod mask_pattern;
pub mod orbits;
pub mod prune_table;
pub mod puzzle_traits;
pub mod random;
pub mod randomize;
pub mod scramble_search;
pub mod skewb;
pub mod square1;
pub mod transformations;
pub mod traversal_filters;
