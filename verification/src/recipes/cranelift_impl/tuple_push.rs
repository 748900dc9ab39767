//! `.push` on tuples: fills the next free item.

use vstd::prelude::*;
use crate::recipes::cranelift::{FFI, Emission, Known, entry, entries_are, known, lib_ok};
use crate::opt::MachineType;
use crate::value::{Value, Heap, is_tuple, start_field, end_field, handle_field, push_into};

verus! {

/// Writes `xi` over the first zero item in the range of the tuple `t`; the
/// result is always 0.
pub fn s_u64(heap: &mut Heap, t: u128, xi: u128) -> (res: u64)
    requires
        is_tuple(t),
        handle_field(t) < old(heap)@.tuples.len(),
        start_field(t) < end_field(t) ==> end_field(t) <= old(heap)@.tuples[handle_field(t) as int].len(),
    ensures
        res == 0,
        final(heap)@.tuples == old(heap)@.tuples.update(
            handle_field(t) as int,
            push_into(old(heap)@.tuples[handle_field(t) as int], 0u128, start_field(t) as int, end_field(t) as int, xi),
        ),
        final(heap)@.strings == old(heap)@.strings,
        final(heap)@.names == old(heap)@.names,
{
    let v = Value(t);
    let x = Value(xi);
    v.push(heap, x);
    0
}

/// The descriptions of this module's entries in the compiler's table.
pub open spec fn table() -> Seq<Known> {
    seq![
        known(".push:(Tuple,Value)->U64"@, seq![MachineType::I128, MachineType::I128], seq!["Tuple"@, "Value"@], Emission::Call, "U64"@, MachineType::I64),
    ]
}

/// The compiler's entries for the functions of this module.
pub fn import() -> (res: Vec<FFI>)
    ensures
        lib_ok(res@),
        entries_are(res@, table()),
{
    proof {
        reveal_strlit("U8");
        reveal_strlit("U64");
        reveal_strlit("String");
        reveal_strlit("Tuple");
        reveal_strlit("Value");
        assert("U8"@.len() == 2);
        assert("U64"@.len() == 3);
        assert("String"@.len() == 6);
        assert("Tuple"@.len() == 5);
        assert("Value"@.len() == 5);
    }
    let a0 = vec![MachineType::I128, MachineType::I128];
    assert(a0@ =~= seq![MachineType::I128, MachineType::I128]);
    let n0 = vec!["Tuple", "Value"];
    assert(n0@ =~= seq!["Tuple", "Value"]);
    let e0 = entry(a0, n0, ".push:(Tuple,Value)->U64", Emission::Call, "U64", MachineType::I64);
    let res = vec![e0];
    assert(res@ =~= seq![e0]);
    res
}

} // verus!
