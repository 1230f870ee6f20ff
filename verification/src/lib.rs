//! Exhaustive, boundary-aware test-input generation for C-style APIs.
//!
//! A description of an API names types, free variables and functions.  Every
//! type is partitioned into a finite, ordered list of representative values
//! (its equivalence classes), and every combination of class choices over the
//! free variables is enumerated exactly once, in odometer order.
pub mod api;
pub mod decimal;
pub mod driver;
pub mod error;
pub mod expr;
pub mod function;
pub mod fuzz;
pub mod grammar;
pub mod lexer;
pub mod model;
pub mod odometer;
pub mod random;
pub mod tc;
pub mod typ;
pub mod variable;
