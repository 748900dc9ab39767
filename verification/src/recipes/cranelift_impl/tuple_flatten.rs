//! `.flatten`: the items of the tuples held by a tuple, in one tuple.

use vstd::prelude::*;
use crate::recipes::cranelift::{FFI, Emission, Known, entry, entries_are, known, lib_ok};
use crate::opt::MachineType;
use crate::value::{Value, Heap, HeapView, Tag, tag_code, join64, is_tuple, tag_field, start_field, end_field, handle_field, ref_value, intern_code, intern_names, pushes, lemma_pushes_fill, lemma_pushes_len, lemma_tag_code};

verus! {

/// `v` is a tuple whose range is in order and inside its buffer.
pub open spec fn tuple_ok(h: HeapView, v: u128) -> bool {
    &&& is_tuple(v)
    &&& handle_field(v) < h.tuples.len()
    &&& start_field(v) <= end_field(v) <= h.tuples[handle_field(v) as int].len()
}

/// The items of `v` if it is a tuple; nothing otherwise.
pub open spec fn inner_items(h: HeapView, v: u128) -> Seq<u128> {
    if is_tuple(v) {
        h.tuples[handle_field(v) as int].subrange(start_field(v) as int, end_field(v) as int)
    } else {
        Seq::empty()
    }
}

/// The items of the tuples among `items[s..k]`, in order.
pub open spec fn flat_items(h: HeapView, items: Seq<u128>, s: int, k: int) -> Seq<u128>
    decreases k - s,
{
    if k <= s {
        Seq::empty()
    } else {
        flat_items(h, items, s, k - 1) + inner_items(h, items[k - 1])
    }
}

/// What flattening needs: `v` is a tuple whose range lies in its buffer,
/// whose items carry tags, the tuples among them well formed, and whose
/// flattening has fewer than 65536 items.
pub open spec fn flatten_ready(h: HeapView, v: u128) -> bool {
    &&& is_tuple(v)
    &&& handle_field(v) < h.tuples.len()
    &&& start_field(v) < end_field(v) ==> end_field(v) <= h.tuples[handle_field(v) as int].len()
    &&& forall|i: int|
        start_field(v) <= i < end_field(v) ==> {
            let x = #[trigger] h.tuples[handle_field(v) as int][i];
            tag_field(x) < 52 && (is_tuple(x) ==> tuple_ok(h, x))
        }
    &&& flat_items(h, h.tuples[handle_field(v) as int], start_field(v) as int, end_field(v) as int).len()
        < 0x10000
}

/// Whether the tuple `v` is well formed in `heap`.
pub fn tuple_is_ok(heap: &Heap, v: &Value) -> (res: bool)
    ensures
        res == tuple_ok(heap@, v.0),
{
    proof {
        crate::value::lemma_packed(v.0, 0, 0, 0);
    }
    if v.to_parts().0 != Tag::Tuple.code() {
        return false;
    }
    let h = v.tptr();
    if h >= heap.tuple_count() as u64 {
        return false;
    }
    let n = heap.tuple_len(h as usize);
    v.start() <= v.end() && v.end() <= n
}

/// Whether `s_u64` may run on these arguments: `flatten_ready` holds.
pub fn can_flatten(heap: &Heap, lo: u64, hi: u64) -> (res: bool)
    ensures
        res == flatten_ready(heap@, join64(lo, hi)),
{
    let v = Value::from_lohi(lo, hi);
    proof {
        crate::value::lemma_packed(v.0, 0, 0, 0);
    }
    if v.to_parts().0 != Tag::Tuple.code() {
        return false;
    }
    let h = v.tptr();
    if h >= heap.tuple_count() as u64 {
        return false;
    }
    let n = heap.tuple_len(h as usize);
    let vs = v.start();
    let ve = v.end();
    if vs >= ve {
        return true;
    }
    if ve > n {
        return false;
    }
    let ghost items = heap@.tuples[h as int];
    let mut total: usize = 0;
    let mut ti = vs;
    while ti < ve
        invariant
            v.0 == join64(lo, hi),
            is_tuple(v.0),
            vs == start_field(v.0),
            ve == end_field(v.0),
            vs <= ti <= ve,
            ve <= items.len(),
            items == heap@.tuples[h as int],
            h == handle_field(v.0),
            h < heap@.tuples.len(),
            forall|i: int| vs <= i < ti ==> {
                let x = #[trigger] items[i];
                tag_field(x) < 52 && (is_tuple(x) ==> tuple_ok(heap@, x))
            },
            total == flat_items(heap@, items, vs as int, ti as int).len(),
            total < 0x10000,
        decreases ve - ti,
    {
        let x = v.vslot(heap, ti);
        proof {
            crate::value::lemma_packed(x.0, 0, 0, 0);
            crate::value::lemma_packed_ref(x.0, 0, 0, 0);
        }
        let code = x.to_parts().0;
        if code >= 52 {
            return false;
        }
        if code == Tag::Tuple.code() {
            if !tuple_is_ok(heap, &x) {
                return false;
            }
            let add = x.end() - x.start();
            if add >= 0x10000 - total {
                proof {
                    lemma_flat_grows(heap@, items, vs as int, ti as int + 1, ve as int);
                }
                return false;
            }
            total = total + add;
        }
        ti = ti + 1;
    }
    true
}

/// Flattening more items gives no fewer.
pub proof fn lemma_flat_grows(h: HeapView, items: Seq<u128>, s: int, k: int, m: int)
    requires
        s <= k <= m,
    ensures
        flat_items(h, items, s, k).len() <= flat_items(h, items, s, m).len(),
    decreases m - k,
{
    if k < m {
        lemma_flat_grows(h, items, s, k, m - 1);
    }
}

/// The items of the tuples in the tuple `lo`, `hi` (by its halves; other
/// items are skipped), written into a new tuple of exactly that many items
/// with `.push`, returned as its halves.
pub fn s_u64(heap: &mut Heap, lo: u64, hi: u64) -> (res: (u64, u64))
    requires
        flatten_ready(old(heap)@, join64(lo, hi)),
    ensures
        ({
            let f = flat_items(
                old(heap)@,
                old(heap)@.tuples[handle_field(join64(lo, hi)) as int],
                start_field(join64(lo, hi)) as int,
                end_field(join64(lo, hi)) as int,
            );
            &&& final(heap)@.tuples == old(heap)@.tuples.push(
                pushes(Seq::new(f.len(), |i: int| 0u128), 0u128, 0, f.len() as int, f),
            )
            &&& (forall|i: int| 0 <= i < f.len() ==> f[i] != 0) ==> final(heap)@.tuples.last() == f
            &&& final(heap)@.strings == old(heap)@.strings
            &&& final(heap)@.names == intern_names(old(heap)@.names, "Tuple"@)
            &&& join64(res.0, res.1) == ref_value(
                tag_code(Tag::Tuple) as u128,
                intern_code(old(heap)@.names, "Tuple"@) as u128,
                0,
                f.len() as u128,
                old(heap)@.tuples.len() as u128,
            )
        }),
{
    let ghost h0 = heap@;
    let v = Value::from_lohi(lo, hi);
    let ghost items = h0.tuples[handle_field(v.0) as int];
    let ghost fall = flat_items(h0, items, start_field(v.0) as int, end_field(v.0) as int);
    let vs = v.start();
    let ve = v.end();
    let mut capacity: usize = 0;
    let mut ti = vs;
    while ti < ve
        invariant
            heap@ == h0,
            vs == start_field(v.0),
            ve == end_field(v.0),
            vs <= ti,
            vs < ve ==> ti <= ve,
            vs >= ve ==> ti == vs,
            items == h0.tuples[handle_field(v.0) as int],
            is_tuple(v.0),
            handle_field(v.0) < h0.tuples.len(),
            vs < ve ==> ve <= items.len(),
            forall|i: int| vs <= i < ve ==> {
                let x = #[trigger] items[i];
                tag_field(x) < 52 && (is_tuple(x) ==> tuple_ok(h0, x))
            },
            fall == flat_items(h0, items, vs as int, ve as int),
            fall.len() < 0x10000,
            capacity == flat_items(h0, items, vs as int, ti as int).len(),
        decreases ve - ti,
    {
        proof {
            lemma_flat_grows(h0, items, vs as int, ti as int + 1, ve as int);
        }
        let vi = v.vslot(heap, ti);
        let tg = vi.tag();
        proof {
            lemma_tag_code(tg);
            lemma_tag_code(Tag::Tuple);
        }
        if tg == Tag::Tuple {
            capacity = capacity + (vi.end() - vi.start());
        }
        ti = ti + 1;
    }
    proof {
        if vs < ve {
            assert(ti == ve);
        } else {
            assert(fall.len() == 0);
        }
    }
    assert(capacity == fall.len());
    let n = Value::tuple_with_capacity(heap, capacity as u64);
    let ghost hn = h0.tuples.len();
    let ghost zeros = Seq::new(capacity as nat, |i: int| 0u128);
    assert(pushes(zeros, 0u128, 0, capacity as int, Seq::<u128>::empty()) == zeros);
    let mut ti = vs;
    while ti < ve
        invariant
            vs == start_field(v.0),
            ve == end_field(v.0),
            vs <= ti,
            vs < ve ==> ti <= ve,
            vs >= ve ==> ti == vs,
            items == h0.tuples[handle_field(v.0) as int],
            is_tuple(v.0),
            handle_field(v.0) < h0.tuples.len(),
            vs < ve ==> ve <= items.len(),
            forall|i: int| vs <= i < ve ==> {
                let x = #[trigger] items[i];
                tag_field(x) < 52 && (is_tuple(x) ==> tuple_ok(h0, x))
            },
            capacity == fall.len(),
            fall == flat_items(h0, items, vs as int, ve as int),
            is_tuple(n.0),
            start_field(n.0) == 0,
            end_field(n.0) == capacity,
            handle_field(n.0) == hn,
            hn == h0.tuples.len(),
            heap@.tuples.len() == hn + 1,
            forall|j: int| 0 <= j < hn ==> heap@.tuples[j] == h0.tuples[j],
            heap@.tuples[hn as int] == pushes(zeros, 0u128, 0, capacity as int, flat_items(h0, items, vs as int, ti as int)),
            zeros.len() == capacity,
            heap@.strings == h0.strings,
            heap@.names == intern_names(h0.names, "Tuple"@),
        decreases ve - ti,
    {
        let ghost before = flat_items(h0, items, vs as int, ti as int);
        let vi = v.vslot(heap, ti);
        let tg = vi.tag();
        proof {
            lemma_tag_code(tg);
            lemma_tag_code(Tag::Tuple);
        }
        if tg == Tag::Tuple {
            let ghost inner = inner_items(h0, vi.0);
            let is = vi.start();
            let ie = vi.end();
            let mut vti = is;
            assert(before + inner.subrange(0, 0) =~= before);
            while vti < ie
                invariant
                    is <= vti <= ie,
                    tuple_ok(h0, vi.0),
                    is == start_field(vi.0),
                    ie == end_field(vi.0),
                    inner == inner_items(h0, vi.0),
                    is_tuple(n.0),
                    start_field(n.0) == 0,
                    end_field(n.0) == capacity,
                    handle_field(n.0) == hn,
                    hn == h0.tuples.len(),
                    heap@.tuples.len() == hn + 1,
                    forall|j: int| 0 <= j < hn ==> heap@.tuples[j] == h0.tuples[j],
                    heap@.tuples[hn as int] == pushes(zeros, 0u128, 0, capacity as int, before + inner.subrange(0, vti - is)),
                    zeros.len() == capacity,
                    heap@.strings == h0.strings,
                    heap@.names == intern_names(h0.names, "Tuple"@),
                decreases ie - vti,
            {
                let x = vi.vslot(heap, vti);
                let ghost done = before + inner.subrange(0, vti - is);
                assert(x.0 == inner[vti - is]);
                proof {
                    lemma_pushes_len(zeros, 0u128, 0, capacity as int, done);
                }
                n.push(heap, x);
                vti = vti + 1;
                assert((before + inner.subrange(0, vti - is)).drop_last() =~= done);
            }
            assert(before + inner.subrange(0, ie - is) =~= flat_items(h0, items, vs as int, ti as int + 1));
        } else {
            assert(before =~= flat_items(h0, items, vs as int, ti as int + 1));
        }
        ti = ti + 1;
    }
    proof {
        if vs >= ve {
            assert(flat_items(h0, items, vs as int, ti as int) == fall);
        }
        assert(heap@.tuples =~= h0.tuples.push(pushes(zeros, 0u128, 0, capacity as int, fall)));
        if forall|i: int| 0 <= i < fall.len() ==> fall[i] != 0 {
            lemma_pushes_fill(capacity as nat, 0u128, fall);
            assert(fall + Seq::new((capacity - fall.len()) as nat, |i: int| 0u128) =~= fall);
        }
    }
    n.lohi()
}

/// The descriptions of this module's entries in the compiler's table.
pub open spec fn table() -> Seq<Known> {
    seq![
        known(".flatten:(Tuple)->Tuple"@, seq![MachineType::I128], seq!["Value"@], Emission::Call, "Value"@, MachineType::I128),
    ]
}

/// The compiler's entries for the functions of this module.
pub fn import() -> (res: Vec<FFI>)
    ensures
        lib_ok(res@),
        entries_are(res@, table()),
{
    proof {
        reveal_strlit("U8");
        reveal_strlit("U64");
        reveal_strlit("String");
        reveal_strlit("Tuple");
        reveal_strlit("Value");
        assert("U8"@.len() == 2);
        assert("U64"@.len() == 3);
        assert("String"@.len() == 6);
        assert("Tuple"@.len() == 5);
        assert("Value"@.len() == 5);
    }
    let a0 = vec![MachineType::I128];
    assert(a0@ =~= seq![MachineType::I128]);
    let n0 = vec!["Value"];
    assert(n0@ =~= seq!["Value"]);
    let e0 = entry(a0, n0, ".flatten:(Tuple)->Tuple", Emission::Call, "Value", MachineType::I128);
    let res = vec![e0];
    assert(res@ =~= seq![e0]);
    res
}

/// Flattening: nothing gives no items; one more item adds its own items
/// at the end where it is a tuple, and nothing where it is not.
pub proof fn lemma_flat_items(h: HeapView, items: Seq<u128>, s: int, k: int)
    requires
        s <= k,
    ensures
        flat_items(h, items, s, s) == Seq::<u128>::empty(),
        is_tuple(items[k]) ==> flat_items(h, items, s, k + 1) == flat_items(h, items, s, k)
            + h.tuples[handle_field(items[k]) as int].subrange(start_field(items[k]) as int, end_field(items[k]) as int),
        !is_tuple(items[k]) ==> flat_items(h, items, s, k + 1) == flat_items(h, items, s, k),
{
    assert(flat_items(h, items, s, k) + Seq::<u128>::empty() =~= flat_items(h, items, s, k));
}

} // verus!
