//! `+` on 64-bit numbers, open-coded.

use vstd::prelude::*;
use crate::recipes::cranelift::{FFI, Emission, Known, entry, entries_are, known, lib_ok};
use crate::opt::MachineType;

verus! {

/// The descriptions of this module's entries in the compiler's table.
pub open spec fn table() -> Seq<Known> {
    seq![
        known("+:(U64,U64)->U64"@, seq![MachineType::I64, MachineType::I64], seq!["U64"@, "U64"@], Emission::Iadd, "U64"@, MachineType::I64),
    ]
}

/// The compiler's entry for `+:(U64,U64)->U64`.
pub fn import() -> (res: Vec<FFI>)
    ensures
        lib_ok(res@),
        entries_are(res@, table()),
{
    proof {
        reveal_strlit("U8");
        reveal_strlit("U64");
        reveal_strlit("String");
        reveal_strlit("Tuple");
        reveal_strlit("Value");
        assert("U8"@.len() == 2);
        assert("U64"@.len() == 3);
        assert("String"@.len() == 6);
        assert("Tuple"@.len() == 5);
        assert("Value"@.len() == 5);
    }
    let a0 = vec![MachineType::I64, MachineType::I64];
    assert(a0@ =~= seq![MachineType::I64, MachineType::I64]);
    let n0 = vec!["U64", "U64"];
    assert(n0@ =~= seq!["U64", "U64"]);
    let e0 = entry(a0, n0, "+:(U64,U64)->U64", Emission::Iadd, "U64", MachineType::I64);
    let res = vec![e0];
    assert(res@ =~= seq![e0]);
    res
}

} // verus!
