//! Symbolic execution engine: symbolic expressions, their simplification and
//! evaluation, SMT-LIB rendering, replay-based path exploration and coverage
//! bookkeeping.
use vstd::prelude::*;

pub mod decision;
pub mod error;
pub mod fmt;
pub mod text;
pub mod expressions;
pub mod floatbits;
pub mod coverage_source_map;
pub mod profile_format;
pub mod coverage_profile;
pub mod coverage;
pub mod value_map;
pub mod runtime;
pub mod trace_text;
pub mod scheduler;
pub mod engine;
pub mod smt;
pub mod validate;
pub mod intops;
pub mod simplify;
pub mod eval;
pub mod simplify_laws;
pub mod lower;
pub mod name_map;
pub mod solver;
pub mod manager;
pub mod symex_async;
