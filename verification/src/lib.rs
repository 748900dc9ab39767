//! The intermediate representation of the L1 language: its syntax tree, an
//! evaluator that defines what programs mean, the packed runtime
//! representation of values with the runtime functions that compiled code
//! calls, and the compiler that turns programs into instructions for a code
//! generator.

pub mod natural;
pub mod text;
pub mod ast;
pub mod eval;
pub mod value;
pub mod recipes;
pub mod opt;
pub mod machine;
