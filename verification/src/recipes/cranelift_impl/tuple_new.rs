//! `with_capacity`: a tuple of free items.

use vstd::prelude::*;
use crate::recipes::cranelift::{FFI, Emission, Known, entry, entries_are, known, lib_ok};
use crate::opt::MachineType;
use crate::value::{Value, Heap, Tag, tag_code, ref_value, intern_code, intern_names};

verus! {

/// A new tuple of `t` zero items, to be filled by `.push`.
pub fn s_u64(heap: &mut Heap, t: u64) -> (res: u128)
    requires
        t < 0x10000,
    ensures
        final(heap)@.names == intern_names(old(heap)@.names, "Tuple"@),
        final(heap)@.tuples == old(heap)@.tuples.push(Seq::new(t as nat, |i: int| 0u128)),
        final(heap)@.strings == old(heap)@.strings,
        res == ref_value(
            tag_code(Tag::Tuple) as u128,
            intern_code(old(heap)@.names, "Tuple"@) as u128,
            0,
            t as u128,
            old(heap)@.tuples.len() as u128,
        ),
{
    Value::tuple_with_capacity(heap, t).0
}

/// The descriptions of this module's entries in the compiler's table.
pub open spec fn table() -> Seq<Known> {
    seq![
        known("with_capacity:(U64)->Tuple"@, seq![MachineType::I64], seq!["U64"@], Emission::Call, "Tuple"@, MachineType::I128),
    ]
}

/// The compiler's entries for the functions of this module.
pub fn import() -> (res: Vec<FFI>)
    ensures
        lib_ok(res@),
        entries_are(res@, table()),
{
    proof {
        reveal_strlit("U8");
        reveal_strlit("U64");
        reveal_strlit("String");
        reveal_strlit("Tuple");
        reveal_strlit("Value");
        assert("U8"@.len() == 2);
        assert("U64"@.len() == 3);
        assert("String"@.len() == 6);
        assert("Tuple"@.len() == 5);
        assert("Value"@.len() == 5);
    }
    let a0 = vec![MachineType::I64];
    assert(a0@ =~= seq![MachineType::I64]);
    let n0 = vec!["U64"];
    assert(n0@ =~= seq!["U64"]);
    let e0 = entry(a0, n0, "with_capacity:(U64)->Tuple", Emission::Call, "Tuple", MachineType::I128);
    let res = vec![e0];
    assert(res@ =~= seq![e0]);
    res
}

} // verus!
