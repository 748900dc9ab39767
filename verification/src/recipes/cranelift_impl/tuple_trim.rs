//! `trim_capacity`: drops the free items at the end of a tuple.

use vstd::prelude::*;
use crate::recipes::cranelift::{FFI, Emission, Known, entry, entries_are, known, lib_ok};
use crate::opt::MachineType;
use crate::value::{Value, Heap, Tag, tag_code, is_tuple, start_field, end_field, handle_field, ref_value, first_at, pushes, lemma_pushes_fill};

verus! {

/// Where a tuple being filled by `.push` stops: its first free item, or its end.
pub open spec fn trimmed_end(buf: Seq<u128>, start: int, end: int) -> int {
    match first_at(buf, 0u128, start, end) {
        Some(i) => i,
        None => end,
    }
}

/// The tuple `t` cut at its first zero item; the name is dropped.
pub fn s_u64(heap: &Heap, t: u128) -> (res: u128)
    requires
        is_tuple(t),
        handle_field(t) < heap@.tuples.len(),
        start_field(t) < end_field(t) ==> end_field(t) <= heap@.tuples[handle_field(t) as int].len(),
    ensures
        res == ref_value(
            tag_code(Tag::Tuple) as u128,
            0,
            start_field(t),
            trimmed_end(heap@.tuples[handle_field(t) as int], start_field(t) as int, end_field(t) as int) as u128,
            handle_field(t),
        ),
{
    let mut v = Value(t);
    let ghost buf = heap@.tuples[handle_field(t) as int];
    let s = v.start();
    let e = v.end();
    let mut ei = e;
    let mut k = s;
    while k < e
        invariant
            s == start_field(t),
            e == end_field(t),
            v.0 == t,
            is_tuple(t),
            handle_field(t) < heap@.tuples.len(),
            buf == heap@.tuples[handle_field(t) as int],
            s <= k,
            s < e ==> e <= buf.len(),
            s < e ==> k <= e,
            ei <= e,
            ei != e ==> k == e,
            ei == e ==> first_at(buf, 0u128, s as int, e as int) == first_at(buf, 0u128, k as int, e as int),
            ei != e ==> first_at(buf, 0u128, s as int, e as int) == Some(ei as int),
        decreases e - k,
    {
        if v.vslot(heap, k).0 == 0 {
            assert(first_at(buf, 0u128, k as int, e as int) == Some(k as int));
            ei = k;
            k = e;
        } else {
            k = k + 1;
        }
    }
    v.set_end(ei);
    v.0
}

/// The descriptions of this module's entries in the compiler's table.
pub open spec fn table() -> Seq<Known> {
    seq![
        known("trim_capacity:(Tuple)->Tuple"@, seq![MachineType::I128], seq!["Tuple"@], Emission::Call, "Tuple"@, MachineType::I128),
    ]
}

/// The compiler's entries for the functions of this module.
pub fn import() -> (res: Vec<FFI>)
    ensures
        lib_ok(res@),
        entries_are(res@, table()),
{
    proof {
        reveal_strlit("U8");
        reveal_strlit("U64");
        reveal_strlit("String");
        reveal_strlit("Tuple");
        reveal_strlit("Value");
        assert("U8"@.len() == 2);
        assert("U64"@.len() == 3);
        assert("String"@.len() == 6);
        assert("Tuple"@.len() == 5);
        assert("Value"@.len() == 5);
    }
    let a0 = vec![MachineType::I128];
    assert(a0@ =~= seq![MachineType::I128]);
    let n0 = vec!["Tuple"];
    assert(n0@ =~= seq!["Tuple"]);
    let e0 = entry(a0, n0, "trim_capacity:(Tuple)->Tuple", Emission::Call, "Tuple", MachineType::I128);
    let res = vec![e0];
    assert(res@ =~= seq![e0]);
    res
}

/// Trimming keeps every item before the first free (zero) item: the new
/// end lies in `[start, end]`, every item before it is in use, and it is
/// the end itself or a free item. A tuple with no free item keeps its end.
pub proof fn lemma_trimmed_end(buf: Seq<u128>, start: int, end: int)
    requires
        0 <= start,
        start <= end ==> end <= buf.len(),
    ensures
        end <= start ==> trimmed_end(buf, start, end) == end,
        start <= end ==> start <= trimmed_end(buf, start, end) <= end,
        forall|i: int| start <= i < trimmed_end(buf, start, end) ==> buf[i] != 0,
        trimmed_end(buf, start, end) < end ==> buf[trimmed_end(buf, start, end)] == 0,
        (forall|i: int| start <= i < end ==> buf[i] != 0) ==> trimmed_end(buf, start, end) == end,
{
    if start <= end {
        lemma_first_free(buf, start, end);
    }
}

/// The first free item from `i` on, where there is one: every item before
/// it is in use.
proof fn lemma_first_free(buf: Seq<u128>, i: int, end: int)
    requires
        0 <= i <= end <= buf.len(),
    ensures
        match first_at(buf, 0u128, i, end) {
            Some(k) => i <= k < end && buf[k] == 0 && forall|j: int| i <= j < k ==> buf[j] != 0,
            None => forall|j: int| i <= j < end ==> buf[j] != 0,
        },
    decreases end - i,
{
    if i < end && buf[i] != 0 {
        lemma_first_free(buf, i + 1, end);
    }
}

/// Filling a new tuple of `n` free places with `.push` and then trimming
/// it keeps exactly the items pushed: the trimmed end is their number, and
/// the places before it hold them in order.
pub proof fn lemma_push_then_trim(n: nat, xs: Seq<u128>)
    requires
        xs.len() <= n,
        forall|j: int| 0 <= j < xs.len() ==> xs[j] != 0,
    ensures
        trimmed_end(pushes(Seq::new(n, |i: int| 0u128), 0u128, 0, n as int, xs), 0, n as int) == xs.len(),
        pushes(Seq::new(n, |i: int| 0u128), 0u128, 0, n as int, xs).subrange(0, xs.len() as int) == xs,
{
    lemma_pushes_fill(n, 0u128, xs);
    let buf = pushes(Seq::new(n, |i: int| 0u128), 0u128, 0, n as int, xs);
    assert(buf == xs + Seq::new((n - xs.len()) as nat, |i: int| 0u128));
    lemma_trimmed_end(buf, 0, n as int);
    let r = trimmed_end(buf, 0, n as int);
    assert forall|j: int| 0 <= j < xs.len() implies buf[j] != 0 by {
        assert(buf[j] == xs[j]);
    }
    if r < xs.len() {
        assert(buf[r] == 0);
        assert(buf[r] == xs[r]);
    }
    if r > xs.len() {
        assert(buf[xs.len() as int] == 0);
    }
    assert(buf.subrange(0, xs.len() as int) =~= xs);
}

} // verus!
