//! `as String` on 64-bit numbers: their decimal form.

use vstd::prelude::*;
use crate::recipes::cranelift::{FFI, Emission, Known, entry, entries_are, known, lib_ok};
use crate::opt::MachineType;
use crate::text::{decimal_chars, signed_decimal_chars, push_decimal, push_signed_decimal, chars_to_string, lemma_decimal_len_64};
use crate::value::{Value, Heap, Tag, tag_code, join64, ref_value, intern_code, intern_names};

verus! {

/// The decimal form of `t` as a new string, returned as its halves.
pub fn s_u64(heap: &mut Heap, t: u64) -> (res: (u64, u64))
    ensures
        final(heap)@.strings == old(heap)@.strings.push(decimal_chars(t as nat)),
        final(heap)@.tuples == old(heap)@.tuples,
        final(heap)@.names == intern_names(old(heap)@.names, ""@),
        join64(res.0, res.1) == ref_value(
            tag_code(Tag::String) as u128,
            intern_code(old(heap)@.names, ""@) as u128,
            0,
            decimal_chars(t as nat).len() as u128,
            old(heap)@.strings.len() as u128,
        ),
{
    let mut cs: Vec<char> = Vec::new();
    push_decimal(&mut cs, t as u128);
    assert(cs@ =~= decimal_chars(t as nat));
    proof {
        lemma_decimal_len_64(t as nat);
    }
    let s = chars_to_string(&cs);
    let r = Value::string(heap, s.as_str(), "");
    r.lohi()
}

/// The decimal form of `t`, with a `-` when negative, as a new string,
/// returned as its halves.
pub fn s_i64(heap: &mut Heap, t: i64) -> (res: (u64, u64))
    ensures
        final(heap)@.strings == old(heap)@.strings.push(signed_decimal_chars(t as int)),
        final(heap)@.tuples == old(heap)@.tuples,
        final(heap)@.names == intern_names(old(heap)@.names, ""@),
        join64(res.0, res.1) == ref_value(
            tag_code(Tag::String) as u128,
            intern_code(old(heap)@.names, ""@) as u128,
            0,
            signed_decimal_chars(t as int).len() as u128,
            old(heap)@.strings.len() as u128,
        ),
{
    let mut cs: Vec<char> = Vec::new();
    push_signed_decimal(&mut cs, t as i128);
    assert(cs@ =~= signed_decimal_chars(t as int));
    proof {
        if t < 0 {
            lemma_decimal_len_64((-t) as nat);
            assert(-((-t) as nat as int) == t);
        } else {
            lemma_decimal_len_64(t as nat);
        }
    }
    let s = chars_to_string(&cs);
    let r = Value::string(heap, s.as_str(), "");
    r.lohi()
}

/// The descriptions of this module's entries in the compiler's table.
pub open spec fn table() -> Seq<Known> {
    seq![
        known("as:(U64)->String"@, seq![MachineType::I64], seq!["U64"@], Emission::Call, "String"@, MachineType::I128),
        known("as:(I64)->String"@, seq![MachineType::I64], seq!["I64"@], Emission::Call, "String"@, MachineType::I128),
    ]
}

/// The compiler's entries for the functions of this module.
pub fn import() -> (res: Vec<FFI>)
    ensures
        lib_ok(res@),
        entries_are(res@, table()),
{
    proof {
        reveal_strlit("U8");
        reveal_strlit("U64");
        reveal_strlit("String");
        reveal_strlit("Tuple");
        reveal_strlit("Value");
        assert("U8"@.len() == 2);
        assert("U64"@.len() == 3);
        assert("String"@.len() == 6);
        assert("Tuple"@.len() == 5);
        assert("Value"@.len() == 5);
    }
    let a0 = vec![MachineType::I64];
    assert(a0@ =~= seq![MachineType::I64]);
    let n0 = vec!["U64"];
    assert(n0@ =~= seq!["U64"]);
    let e0 = entry(a0, n0, "as:(U64)->String", Emission::Call, "String", MachineType::I128);
    let a1 = vec![MachineType::I64];
    assert(a1@ =~= seq![MachineType::I64]);
    let n1 = vec!["I64"];
    assert(n1@ =~= seq!["I64"]);
    let e1 = entry(a1, n1, "as:(I64)->String", Emission::Call, "String", MachineType::I128);
    let res = vec![e0, e1];
    assert(res@ =~= seq![e0, e1]);
    res
}

} // verus!
