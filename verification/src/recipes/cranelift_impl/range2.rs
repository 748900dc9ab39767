//! `range(from, to)` on 64-bit signed numbers.

use vstd::prelude::*;
use crate::recipes::cranelift::{FFI, Emission, Known, entry, entries_are, known, lib_ok};
use crate::opt::MachineType;
use crate::value::{Value, Heap, Tag, tag_code, join64, ref_value, intern_code, intern_names, range_items, range_buffer, range_item_name};

verus! {

/// The tuple of the numbers from `from` up to below `to`, each bit pattern
/// read as a 64-bit unsigned number, returned as its halves.
pub fn s_i64(heap: &mut Heap, from: i64, to: i64) -> (res: (u64, u64))
    requires
        range_items(from as u64 as int, to as u64 as int, 1).len() < 0x10000,
    ensures
        final(heap)@.names == intern_names(intern_names(old(heap)@.names, "U64"@), "Tuple"@),
        final(heap)@.tuples == old(heap)@.tuples.push(
            range_buffer(from as u64 as int, to as u64 as int, 1, range_item_name(old(heap)@.names)),
        ),
        final(heap)@.strings == old(heap)@.strings,
        join64(res.0, res.1) == ref_value(
            tag_code(Tag::Tuple) as u128,
            intern_code(intern_names(old(heap)@.names, "U64"@), "Tuple"@) as u128,
            0,
            range_items(from as u64 as int, to as u64 as int, 1).len() as u128,
            old(heap)@.tuples.len() as u128,
        ),
{
    Value::range(heap, from as u64, to as u64, 1).lohi()
}

/// The descriptions of this module's entries in the compiler's table.
pub open spec fn table() -> Seq<Known> {
    seq![
        known("range:(I64,I64)->I64[]"@, seq![MachineType::I64, MachineType::I64], seq!["I64"@, "I64"@], Emission::Call, "Value"@, MachineType::I128),
    ]
}

/// The compiler's entries for the functions of this module.
pub fn import() -> (res: Vec<FFI>)
    ensures
        lib_ok(res@),
        entries_are(res@, table()),
{
    proof {
        reveal_strlit("U8");
        reveal_strlit("U64");
        reveal_strlit("String");
        reveal_strlit("Tuple");
        reveal_strlit("Value");
        assert("U8"@.len() == 2);
        assert("U64"@.len() == 3);
        assert("String"@.len() == 6);
        assert("Tuple"@.len() == 5);
        assert("Value"@.len() == 5);
    }
    let a0 = vec![MachineType::I64, MachineType::I64];
    assert(a0@ =~= seq![MachineType::I64, MachineType::I64]);
    let n0 = vec!["I64", "I64"];
    assert(n0@ =~= seq!["I64", "I64"]);
    let e0 = entry(a0, n0, "range:(I64,I64)->I64[]", Emission::Call, "Value", MachineType::I128);
    let res = vec![e0];
    assert(res@ =~= seq![e0]);
    res
}

} // verus!
