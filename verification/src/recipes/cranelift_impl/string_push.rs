//! `.push` on strings: fills the next free character.

use vstd::prelude::*;
use crate::recipes::cranelift::{FFI, Emission, Known, entry, entries_are, known, lib_ok};
use crate::opt::MachineType;
use crate::value::{Value, Heap, join64, is_string, start_field, end_field, handle_field, push_into};

verus! {

/// Writes `c` over the first `'\0'` in the range of the string whose halves
/// are `s_lo`, `s_hi`; the result is always 0.
pub fn s_u64(heap: &mut Heap, s_lo: u64, s_hi: u64, c: char) -> (res: u64)
    requires
        is_string(join64(s_lo, s_hi)),
        handle_field(join64(s_lo, s_hi)) < old(heap)@.strings.len(),
        start_field(join64(s_lo, s_hi)) < end_field(join64(s_lo, s_hi)) ==> end_field(join64(s_lo, s_hi))
            <= old(heap)@.strings[handle_field(join64(s_lo, s_hi)) as int].len(),
    ensures
        res == 0,
        final(heap)@.strings == old(heap)@.strings.update(
            handle_field(join64(s_lo, s_hi)) as int,
            push_into(
                old(heap)@.strings[handle_field(join64(s_lo, s_hi)) as int],
                '\0',
                start_field(join64(s_lo, s_hi)) as int,
                end_field(join64(s_lo, s_hi)) as int,
                c,
            ),
        ),
        final(heap)@.tuples == old(heap)@.tuples,
        final(heap)@.names == old(heap)@.names,
{
    let v = Value::from_lohi(s_lo, s_hi);
    v.pushc(heap, c);
    0
}

/// The descriptions of this module's entries in the compiler's table.
pub open spec fn table() -> Seq<Known> {
    seq![
        known(".push:(String,U32)->U64"@, seq![MachineType::I128, MachineType::I32], seq!["String"@, "U32"@], Emission::Call, "U64"@, MachineType::I64),
        known("with_capacity:(U64)->String"@, seq![MachineType::I64], seq!["U64"@], Emission::Call, "String"@, MachineType::I128),
    ]
}

/// The compiler's entries for the functions of this module.
pub fn import() -> (res: Vec<FFI>)
    ensures
        lib_ok(res@),
        entries_are(res@, table()),
{
    proof {
        reveal_strlit("U8");
        reveal_strlit("U64");
        reveal_strlit("String");
        reveal_strlit("Tuple");
        reveal_strlit("Value");
        assert("U8"@.len() == 2);
        assert("U64"@.len() == 3);
        assert("String"@.len() == 6);
        assert("Tuple"@.len() == 5);
        assert("Value"@.len() == 5);
    }
    let a0 = vec![MachineType::I128, MachineType::I32];
    assert(a0@ =~= seq![MachineType::I128, MachineType::I32]);
    let n0 = vec!["String", "U32"];
    assert(n0@ =~= seq!["String", "U32"]);
    let e0 = entry(a0, n0, ".push:(String,U32)->U64", Emission::Call, "U64", MachineType::I64);
    let a1 = vec![MachineType::I64];
    assert(a1@ =~= seq![MachineType::I64]);
    let n1 = vec!["U64"];
    assert(n1@ =~= seq!["U64"]);
    let e1 = entry(a1, n1, "with_capacity:(U64)->String", Emission::Call, "String", MachineType::I128);
    let res = vec![e0, e1];
    assert(res@ =~= seq![e0, e1]);
    res
}

} // verus!
