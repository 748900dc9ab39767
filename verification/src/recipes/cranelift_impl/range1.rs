//! `range(n)`: the tuple of the numbers `0, 1, ...` below `n`.

use vstd::prelude::*;
use crate::recipes::cranelift::{FFI, Emission, Known, entry, entries_are, known, lib_ok};
use crate::opt::MachineType;
use crate::value::{Value, Heap, Tag, tag_code, ref_value, intern_code, intern_names, range_items, range_buffer, range_item_name};

verus! {

/// The tuple of the numbers `0, 1, ...` below `to`.
pub fn s_u64(heap: &mut Heap, to: u64) -> (res: u128)
    requires
        range_items(0, to as int, 1).len() < 0x10000,
    ensures
        final(heap)@.names == intern_names(intern_names(old(heap)@.names, "U64"@), "Tuple"@),
        final(heap)@.tuples == old(heap)@.tuples.push(
            range_buffer(0, to as int, 1, range_item_name(old(heap)@.names)),
        ),
        final(heap)@.strings == old(heap)@.strings,
        res == ref_value(
            tag_code(Tag::Tuple) as u128,
            intern_code(intern_names(old(heap)@.names, "U64"@), "Tuple"@) as u128,
            0,
            range_items(0, to as int, 1).len() as u128,
            old(heap)@.tuples.len() as u128,
        ),
{
    Value::range(heap, 0, to, 1).0
}

/// The descriptions of this module's entries in the compiler's table.
pub open spec fn table() -> Seq<Known> {
    seq![
        known("range:(U64)->U64[]"@, seq![MachineType::I64], seq!["U64"@], Emission::Call, "Tuple"@, MachineType::I128),
    ]
}

/// The compiler's entry for `range:(U64)->U64[]`.
pub fn import() -> (res: Vec<FFI>)
    ensures
        lib_ok(res@),
        entries_are(res@, table()),
{
    proof {
        reveal_strlit("U8");
        reveal_strlit("U64");
        reveal_strlit("String");
        reveal_strlit("Tuple");
        reveal_strlit("Value");
        assert("U8"@.len() == 2);
        assert("U64"@.len() == 3);
        assert("String"@.len() == 6);
        assert("Tuple"@.len() == 5);
        assert("Value"@.len() == 5);
    }
    let a0 = vec![MachineType::I64];
    assert(a0@ =~= seq![MachineType::I64]);
    let n0 = vec!["U64"];
    assert(n0@ =~= seq!["U64"]);
    let e0 = entry(a0, n0, "range:(U64)->U64[]", Emission::Call, "Tuple", MachineType::I128);
    let res = vec![e0];
    assert(res@ =~= seq![e0]);
    res
}

} // verus!
