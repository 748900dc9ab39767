//! `.length`: the number of items of a tuple (or characters of a string).

use vstd::prelude::*;
use crate::recipes::cranelift::{FFI, Emission, Known, entry, entries_are, known, lib_ok};
use crate::opt::MachineType;
use crate::value::{Value, join64, is_string, is_tuple, start_field, end_field};

verus! {

/// The length of the range of the tuple or string whose halves are `t_lo`, `t_hi`.
pub fn s_u64(t_lo: u64, t_hi: u64) -> (res: u64)
    requires
        is_tuple(join64(t_lo, t_hi)) || is_string(join64(t_lo, t_hi)),
        start_field(join64(t_lo, t_hi)) <= end_field(join64(t_lo, t_hi)),
    ensures
        res == end_field(join64(t_lo, t_hi)) - start_field(join64(t_lo, t_hi)),
{
    let t = Value::from_lohi(t_lo, t_hi);
    (t.end() - t.start()) as u64
}

/// The descriptions of this module's entries in the compiler's table.
pub open spec fn table() -> Seq<Known> {
    seq![
        known(".length:(Tuple)->U64"@, seq![MachineType::I128], seq!["Tuple"@], Emission::Call, "U64"@, MachineType::I64),
    ]
}

/// The compiler's entries for the functions of this module.
pub fn import() -> (res: Vec<FFI>)
    ensures
        lib_ok(res@),
        entries_are(res@, table()),
{
    proof {
        reveal_strlit("U8");
        reveal_strlit("U64");
        reveal_strlit("String");
        reveal_strlit("Tuple");
        reveal_strlit("Value");
        assert("U8"@.len() == 2);
        assert("U64"@.len() == 3);
        assert("String"@.len() == 6);
        assert("Tuple"@.len() == 5);
        assert("Value"@.len() == 5);
    }
    let a0 = vec![MachineType::I128];
    assert(a0@ =~= seq![MachineType::I128]);
    let n0 = vec!["Tuple"];
    assert(n0@ =~= seq!["Tuple"]);
    let e0 = entry(a0, n0, ".length:(Tuple)->U64", Emission::Call, "U64", MachineType::I64);
    let res = vec![e0];
    assert(res@ =~= seq![e0]);
    res
}

} // verus!
