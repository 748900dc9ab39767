//! `[]`: an item of a tuple.

use vstd::prelude::*;
use crate::recipes::cranelift::{FFI, Emission, Known, entry, entries_are, known, lib_ok};
use crate::opt::MachineType;
use crate::value::{Value, Heap, join64, is_tuple, start_field, end_field, handle_field};

verus! {

/// Item `i` of the tuple whose halves are `t_lo`, `t_hi`, as its halves.
pub fn s_u64(heap: &Heap, t_lo: u64, t_hi: u64, i: u64) -> (res: (u64, u64))
    requires
        is_tuple(join64(t_lo, t_hi)),
        start_field(join64(t_lo, t_hi)) <= i < end_field(join64(t_lo, t_hi)),
        handle_field(join64(t_lo, t_hi)) < heap@.tuples.len(),
        i < heap@.tuples[handle_field(join64(t_lo, t_hi)) as int].len(),
    ensures
        join64(res.0, res.1) == heap@.tuples[handle_field(join64(t_lo, t_hi)) as int][i as int],
{
    let v = Value::from_lohi(t_lo, t_hi);
    let h = v.tuple_index(heap);
    let n = heap.tuple_len(h);
    let vi = v.vslot(heap, i as usize);
    vi.lohi()
}

/// The descriptions of this module's entries in the compiler's table.
pub open spec fn table() -> Seq<Known> {
    seq![
        known("[]:(Tuple,U64)->Value"@, seq![MachineType::I128, MachineType::I64], seq!["Value"@, "U64"@], Emission::Call, "Value"@, MachineType::I128),
    ]
}

/// The compiler's entries for the functions of this module.
pub fn import() -> (res: Vec<FFI>)
    ensures
        lib_ok(res@),
        entries_are(res@, table()),
{
    proof {
        reveal_strlit("U8");
        reveal_strlit("U64");
        reveal_strlit("String");
        reveal_strlit("Tuple");
        reveal_strlit("Value");
        assert("U8"@.len() == 2);
        assert("U64"@.len() == 3);
        assert("String"@.len() == 6);
        assert("Tuple"@.len() == 5);
        assert("Value"@.len() == 5);
    }
    let a0 = vec![MachineType::I128, MachineType::I64];
    assert(a0@ =~= seq![MachineType::I128, MachineType::I64]);
    let n0 = vec!["Value", "U64"];
    assert(n0@ =~= seq!["Value", "U64"]);
    let e0 = entry(a0, n0, "[]:(Tuple,U64)->Value", Emission::Call, "Value", MachineType::I128);
    let res = vec![e0];
    assert(res@ =~= seq![e0]);
    res
}

} // verus!
