//! Combinatorial core of a two-phase simplex and branch-and-bound solver
//! for linear and integer programs.
//!
//! The library keeps everything that the solver decides without looking at a
//! floating-point value: the problem's enumerations and error types, the
//! grammar of a problem's text and the bookkeeping of variable bounds while
//! a problem is read, the numbering of slack, excess and artificial
//! variables, the bases of the simplex method, and the node management of
//! branch and bound.

pub mod basis;
pub mod branch_and_bound;
pub mod errors;
pub mod grammar;
pub mod maps;
pub mod matrix_form;
pub mod normalizer;
pub mod phases;
pub mod problem;
pub mod problem_parser;
pub mod status;
pub mod text;
