//! `.join`: the strings of a tuple joined with a separator.

use vstd::prelude::*;
use crate::recipes::cranelift::{FFI, Emission, Known, entry, entries_are, known, lib_ok};
use crate::opt::MachineType;
use crate::value::{Value, Heap, HeapView, Tag, tag_code, join64, is_string, is_tuple, start_field, end_field, handle_field, ref_value, intern_code, intern_names, pushes, lemma_pushes_fill, lemma_pushes_len};

verus! {

/// The characters of the string `v`.
pub open spec fn text_of(h: HeapView, v: u128) -> Seq<char> {
    h.strings[handle_field(v) as int].subrange(start_field(v) as int, end_field(v) as int)
}

/// `v` is a string whose range is in order and inside its buffer.
pub open spec fn string_ok(h: HeapView, v: u128) -> bool {
    &&& is_string(v)
    &&& handle_field(v) < h.strings.len()
    &&& start_field(v) <= end_field(v) <= h.strings[handle_field(v) as int].len()
}

/// The texts of the strings `items[s..k]`, separated by `sep`.
pub open spec fn joined(h: HeapView, items: Seq<u128>, s: int, k: int, sep: Seq<char>) -> Seq<char>
    decreases k - s,
{
    if k <= s {
        Seq::empty()
    } else {
        joined(h, items, s, k - 1, sep) + (if k - 1 > s {
            sep
        } else {
            Seq::empty()
        }) + text_of(h, items[k - 1])
    }
}

/// What joining needs: `t` is a tuple whose range lies in its buffer, its
/// items and `sep` are well-formed strings, and the joined text has fewer
/// than 65536 characters.
pub open spec fn join_ready(h: HeapView, t: u128, sep: u128) -> bool {
    &&& is_tuple(t)
    &&& handle_field(t) < h.tuples.len()
    &&& start_field(t) < end_field(t) ==> end_field(t) <= h.tuples[handle_field(t) as int].len()
    &&& string_ok(h, sep)
    &&& forall|i: int|
        start_field(t) <= i < end_field(t) ==> string_ok(h, #[trigger] h.tuples[handle_field(t) as int][i])
    &&& joined(
        h,
        h.tuples[handle_field(t) as int],
        start_field(t) as int,
        end_field(t) as int,
        text_of(h, sep),
    ).len() < 0x10000
}

/// Whether the string `v` is well formed in `heap`.
pub fn string_is_ok(heap: &Heap, v: &Value) -> (res: bool)
    ensures
        res == string_ok(heap@, v.0),
{
    proof {
        crate::value::lemma_packed(v.0, 0, 0, 0);
    }
    if v.to_parts().0 != Tag::String.code() {
        return false;
    }
    let h = v.cptr();
    if h >= heap.string_count() as u64 {
        return false;
    }
    let n = heap.string_len(h as usize);
    v.start() <= v.end() && v.end() <= n
}

/// Whether `s_u64` may run on these arguments: `join_ready` holds.
pub fn can_join(heap: &Heap, t_lo: u64, t_hi: u64, sep_lo: u64, sep_hi: u64) -> (res: bool)
    ensures
        res == join_ready(heap@, join64(t_lo, t_hi), join64(sep_lo, sep_hi)),
{
    let t = Value::from_lohi(t_lo, t_hi);
    let sep = Value::from_lohi(sep_lo, sep_hi);
    proof {
        crate::value::lemma_packed(t.0, 0, 0, 0);
    }
    if t.to_parts().0 != Tag::Tuple.code() {
        return false;
    }
    let h = t.tptr();
    if h >= heap.tuple_count() as u64 {
        return false;
    }
    let n = heap.tuple_len(h as usize);
    let ts = t.start();
    let te = t.end();
    if ts < te && te > n {
        return false;
    }
    if !string_is_ok(heap, &sep) {
        return false;
    }
    if ts >= te {
        return true;
    }
    proof {
        crate::value::lemma_packed_ref(sep.0, 0, 0, 0);
    }
    let ghost items = heap@.tuples[h as int];
    let ghost sept = text_of(heap@, sep.0);
    let sep_len = sep.end() - sep.start();
    let mut total: usize = 0;
    let mut ti = ts;
    while ti < te
        invariant
            t.0 == join64(t_lo, t_hi),
            sep.0 == join64(sep_lo, sep_hi),
            is_tuple(t.0),
            ts == start_field(t.0),
            te == end_field(t.0),
            ts <= ti <= te,
            te <= items.len(),
            sep_len < 0x10000,
            items == heap@.tuples[h as int],
            h == handle_field(t.0),
            h < heap@.tuples.len(),
            string_ok(heap@, sep.0),
            sep_len == sept.len(),
            sept == text_of(heap@, sep.0),
            forall|i: int| ts <= i < ti ==> string_ok(heap@, #[trigger] items[i]),
            total == joined(heap@, items, ts as int, ti as int, sept).len(),
            total < 0x10000,
        decreases te - ti,
    {
        let s = t.vslot(heap, ti);
        proof {
            crate::value::lemma_packed_ref(s.0, 0, 0, 0);
        }
        if !string_is_ok(heap, &s) {
            proof {
                assert(!string_ok(heap@, items[ti as int]));
            }
            return false;
        }
        let add = (if ti > ts { sep_len } else { 0 }) + (s.end() - s.start());
        if add >= 0x10000 - total {
            proof {
                lemma_joined_grows(heap@, items, ts as int, ti as int + 1, te as int, sept);
            }
            return false;
        }
        total = total + add;
        ti = ti + 1;
    }
    true
}

/// Joining more strings gives no shorter text.
pub proof fn lemma_joined_grows(h: HeapView, items: Seq<u128>, s: int, k: int, m: int, sep: Seq<char>)
    requires
        s <= k <= m,
    ensures
        joined(h, items, s, k, sep).len() <= joined(h, items, s, m, sep).len(),
    decreases m - k,
{
    if k < m {
        lemma_joined_grows(h, items, s, k, m - 1, sep);
    }
}

/// The strings of the tuple `t` (by its halves) joined with the string
/// `sep`, written into a new string of exactly their length with `.push`,
/// returned as its halves.
pub fn s_u64(heap: &mut Heap, t_lo: u64, t_hi: u64, sep_lo: u64, sep_hi: u64) -> (res: (u64, u64))
    requires
        join_ready(old(heap)@, join64(t_lo, t_hi), join64(sep_lo, sep_hi)),
    ensures
        ({
            let j = joined(
                old(heap)@,
                old(heap)@.tuples[handle_field(join64(t_lo, t_hi)) as int],
                start_field(join64(t_lo, t_hi)) as int,
                end_field(join64(t_lo, t_hi)) as int,
                text_of(old(heap)@, join64(sep_lo, sep_hi)),
            );
            &&& final(heap)@.strings == old(heap)@.strings.push(
                pushes(Seq::new(j.len(), |i: int| '\0'), '\0', 0, j.len() as int, j),
            )
            &&& (forall|i: int| 0 <= i < j.len() ==> j[i] != '\0') ==> final(heap)@.strings.last() == j
            &&& final(heap)@.tuples == old(heap)@.tuples
            &&& final(heap)@.names == intern_names(old(heap)@.names, "String"@)
            &&& join64(res.0, res.1) == ref_value(
                tag_code(Tag::String) as u128,
                intern_code(old(heap)@.names, "String"@) as u128,
                0,
                j.len() as u128,
                old(heap)@.strings.len() as u128,
            )
        }),
{
    let ghost h0 = heap@;
    let t = Value::from_lohi(t_lo, t_hi);
    let sep = Value::from_lohi(sep_lo, sep_hi);
    let ghost items = h0.tuples[handle_field(t.0) as int];
    let ghost sept = text_of(h0, sep.0);
    let ghost jall = joined(h0, items, start_field(t.0) as int, end_field(t.0) as int, sept);
    let ts = t.start();
    let te = t.end();
    let ss = sep.start();
    let se = sep.end();
    let sep_len = se - ss;
    let mut r_len: usize = 0;
    let mut ti = ts;
    while ti < te
        invariant
            heap@ == h0,
            ts == start_field(t.0),
            te == end_field(t.0),
            ts <= ti,
            ts < te ==> ti <= te,
            ts >= te ==> ti == ts,
            items == h0.tuples[handle_field(t.0) as int],
            is_tuple(t.0),
            handle_field(t.0) < h0.tuples.len(),
            ts < te ==> te <= items.len(),
            forall|i: int| ts <= i < te ==> string_ok(h0, #[trigger] items[i]),
            sep_len == sept.len(),
            sept == text_of(h0, sep.0),
            jall == joined(h0, items, ts as int, te as int, sept),
            jall.len() < 0x10000,
            r_len == joined(h0, items, ts as int, ti as int, sept).len(),
        decreases te - ti,
    {
        proof {
            lemma_joined_grows(h0, items, ts as int, ti as int + 1, te as int, sept);
        }
        if ti > ts {
            r_len = r_len + sep_len;
        }
        let s = t.vslot(heap, ti);
        r_len = r_len + (s.end() - s.start());
        ti = ti + 1;
    }
    proof {
        if ts < te {
            assert(ti == te);
        } else {
            assert(jall.len() == 0);
        }
    }
    assert(r_len == jall.len());
    let r = Value::string_with_capacity(heap, r_len as u64);
    let ghost r0 = r.0;
    let ghost hr = h0.strings.len();
    let ghost zeros = Seq::new(r_len as nat, |i: int| '\0');
    assert(pushes(zeros, '\0', 0, r_len as int, Seq::<char>::empty()) == zeros);
    let mut ti = ts;
    while ti < te
        invariant
            ts == start_field(t.0),
            te == end_field(t.0),
            ts <= ti,
            ts < te ==> ti <= te,
            ts >= te ==> ti == ts,
            items == h0.tuples[handle_field(t.0) as int],
            is_tuple(t.0),
            handle_field(t.0) < h0.tuples.len(),
            ts < te ==> te <= items.len(),
            forall|i: int| ts <= i < te ==> string_ok(h0, #[trigger] items[i]),
            string_ok(h0, sep.0),
            ss == start_field(sep.0),
            se == end_field(sep.0),
            sept == text_of(h0, sep.0),
            r_len == jall.len(),
            is_string(r.0),
            start_field(r.0) == 0,
            end_field(r.0) == r_len,
            handle_field(r.0) == hr,
            hr == h0.strings.len(),
            heap@.strings.len() == hr + 1,
            forall|j: int| 0 <= j < hr ==> heap@.strings[j] == h0.strings[j],
            heap@.strings[hr as int] == pushes(zeros, '\0', 0, r_len as int, joined(h0, items, ts as int, ti as int, sept)),
            zeros.len() == r_len,
            heap@.tuples == h0.tuples,
            heap@.names == intern_names(h0.names, "String"@),
        decreases te - ti,
    {
        let ghost before = joined(h0, items, ts as int, ti as int, sept);
        if ti > ts {
            let mut si = ss;
            while si < se
                invariant
                    ss <= si <= se,
                    string_ok(h0, sep.0),
                    ss == start_field(sep.0),
                    se == end_field(sep.0),
                    sept == text_of(h0, sep.0),
                    is_string(r.0),
                    start_field(r.0) == 0,
                    end_field(r.0) == r_len,
                    handle_field(r.0) == hr,
                    hr == h0.strings.len(),
                    heap@.strings.len() == hr + 1,
                    forall|j: int| 0 <= j < hr ==> heap@.strings[j] == h0.strings[j],
                    heap@.strings[hr as int] == pushes(zeros, '\0', 0, r_len as int, before + sept.subrange(0, si - ss)),
                    zeros.len() == r_len,
                    heap@.tuples == h0.tuples,
                    heap@.names == intern_names(h0.names, "String"@),
                decreases se - si,
            {
                let c = sep.cslot(heap, si);
                proof {
                    lemma_pushes_len(zeros, '\0', 0, r_len as int, before + sept.subrange(0, si - ss));
                }
                let ghost done = before + sept.subrange(0, si - ss);
                assert(c == sept[si - ss]);
                r.pushc(heap, c);
                si = si + 1;
                assert((before + sept.subrange(0, si - ss)).drop_last() =~= done);
            }
        }
        let ghost mid = before + (if ti > ts { sept } else { Seq::empty() });
        assert(mid =~= before + (if ti > ts { sept.subrange(0, se - ss) } else { Seq::<char>::empty() }));
        let s = t.vslot(heap, ti);
        let ghost st = text_of(h0, s.0);
        let cs0 = s.start();
        let ce = s.end();
        let mut ci = cs0;
        assert(mid + st.subrange(0, 0) =~= mid);
        while ci < ce
            invariant
                cs0 <= ci <= ce,
                string_ok(h0, s.0),
                cs0 == start_field(s.0),
                ce == end_field(s.0),
                st == text_of(h0, s.0),
                is_string(r.0),
                start_field(r.0) == 0,
                end_field(r.0) == r_len,
                handle_field(r.0) == hr,
                hr == h0.strings.len(),
                heap@.strings.len() == hr + 1,
                forall|j: int| 0 <= j < hr ==> heap@.strings[j] == h0.strings[j],
                heap@.strings[hr as int] == pushes(zeros, '\0', 0, r_len as int, mid + st.subrange(0, ci - cs0)),
                zeros.len() == r_len,
                heap@.tuples == h0.tuples,
                heap@.names == intern_names(h0.names, "String"@),
            decreases ce - ci,
        {
            let c = s.cslot(heap, ci);
            proof {
                lemma_pushes_len(zeros, '\0', 0, r_len as int, mid + st.subrange(0, ci - cs0));
            }
            let ghost done = mid + st.subrange(0, ci - cs0);
            assert(c == st[ci - cs0]);
            r.pushc(heap, c);
            ci = ci + 1;
            assert((mid + st.subrange(0, ci - cs0)).drop_last() =~= done);
        }
        assert(mid + st.subrange(0, ce - cs0) =~= joined(h0, items, ts as int, ti as int + 1, sept));
        ti = ti + 1;
    }
    proof {
        if ts >= te {
            assert(joined(h0, items, ts as int, ti as int, sept) == jall);
        }
        assert(heap@.strings =~= h0.strings.push(pushes(zeros, '\0', 0, r_len as int, jall)));
        if forall|i: int| 0 <= i < jall.len() ==> jall[i] != '\0' {
            lemma_pushes_fill(r_len as nat, '\0', jall);
            assert(jall + Seq::new((r_len - jall.len()) as nat, |i: int| '\0') =~= jall);
        }
    }
    r.lohi()
}

/// The descriptions of this module's entries in the compiler's table.
pub open spec fn table() -> Seq<Known> {
    seq![
        known(".join:(Tuple,String)->String"@, seq![MachineType::I128, MachineType::I128], seq!["Tuple"@, "String"@], Emission::Call, "String"@, MachineType::I128),
    ]
}

/// The compiler's entries for the functions of this module.
pub fn import() -> (res: Vec<FFI>)
    ensures
        lib_ok(res@),
        entries_are(res@, table()),
{
    proof {
        reveal_strlit("U8");
        reveal_strlit("U64");
        reveal_strlit("String");
        reveal_strlit("Tuple");
        reveal_strlit("Value");
        assert("U8"@.len() == 2);
        assert("U64"@.len() == 3);
        assert("String"@.len() == 6);
        assert("Tuple"@.len() == 5);
        assert("Value"@.len() == 5);
    }
    let a0 = vec![MachineType::I128, MachineType::I128];
    assert(a0@ =~= seq![MachineType::I128, MachineType::I128]);
    let n0 = vec!["Tuple", "String"];
    assert(n0@ =~= seq!["Tuple", "String"]);
    let e0 = entry(a0, n0, ".join:(Tuple,String)->String", Emission::Call, "String", MachineType::I128);
    let res = vec![e0];
    assert(res@ =~= seq![e0]);
    res
}

/// Joining: nothing gives the empty text, one string its own text, two
/// strings their texts with the separator between them, and one more
/// string adds the separator and its text at the end.
pub proof fn lemma_joined(h: HeapView, items: Seq<u128>, s: int, k: int, sep: Seq<char>)
    requires
        s <= k,
    ensures
        joined(h, items, s, s, sep) == Seq::<char>::empty(),
        joined(h, items, s, s + 1, sep) == text_of(h, items[s]),
        joined(h, items, s, s + 2, sep) == text_of(h, items[s]) + sep + text_of(h, items[s + 1]),
        s < k ==> joined(h, items, s, k + 1, sep) == joined(h, items, s, k, sep) + sep + text_of(h, items[k]),
{
    assert(joined(h, items, s, s, sep) == Seq::<char>::empty());
    assert(joined(h, items, s, s + 1, sep) =~= text_of(h, items[s]));
    assert(joined(h, items, s, s + 2, sep) =~= text_of(h, items[s]) + sep + text_of(h, items[s + 1]));
}

} // verus!
