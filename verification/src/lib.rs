use vstd::prelude::*;

pub mod text;
pub mod scan;
pub mod by_spelling;
pub mod tagged_value;
pub mod scope;
pub mod error;
pub mod continuation;
pub mod cps_expr;
pub mod heap;
pub mod compat;
pub mod core_syntax;
pub mod features;
pub mod compiled_macro;
pub mod core_expr;
pub mod debug_format;
pub mod environment;

verus! {

} // verus!
