//! The functions that compiled code calls for the operations it does not
//! open-code, and the compiler's entries for every function it knows.
//! Values cross a call as their low and high 64-bit halves.

pub mod add;
pub mod cast_i64_as_u64;
pub mod cast_u64_as_string;
pub mod div;
pub mod eq;
pub mod gt;
pub mod gte;
pub mod lt;
pub mod lte;
pub mod mul;
pub mod ne;
pub mod not;
pub mod or;
pub mod range1;
pub mod range2;
pub mod range3;
pub mod rem;
pub mod std_println;
pub mod string_join2;
pub mod string_push;
pub mod sub;
pub mod tuple_flatten;
pub mod tuple_index;
pub mod tuple_length;
pub mod tuple_new;
pub mod tuple_push;
pub mod tuple_trim;
