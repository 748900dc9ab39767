use l1_ir::recipes::cranelift_impl::{cast_u64_as_string, range1, range2, range3, string_join2, string_push, tuple_flatten, tuple_index, tuple_length, tuple_new, tuple_push, tuple_trim};
use l1_ir::value::{Heap, Value};

#[test]
fn length_of_tuples_and_strings() {
   let mut heap = Heap::new();
   let x = Value::u64(&mut heap, 1, "U64");
   let t = Value::tuple(&mut heap, &[x, x, x], "Tuple");
   let (lo, hi) = t.lohi();
   assert_eq!(tuple_length::s_u64(lo, hi), 3);
   let s = Value::string(&mut heap, "hello", "String").slice(1, 3);
   let (lo, hi) = s.lohi();
   assert_eq!(tuple_length::s_u64(lo, hi), 2);
}

#[test]
fn index_of_tuple() {
   let mut heap = Heap::new();
   let x = Value::u64(&mut heap, 10, "U64");
   let y = Value::u64(&mut heap, 20, "U64");
   let t = Value::tuple(&mut heap, &[x, y], "Tuple");
   let (lo, hi) = t.lohi();
   let (ilo, ihi) = tuple_index::s_u64(&heap, lo, hi, 1);
   assert_eq!(Value::from_lohi(ilo, ihi).0, y.0);
}

#[test]
fn flatten_skips_non_tuples() {
   let mut heap = Heap::new();
   let a = Value::u64(&mut heap, 1, "U64");
   let b = Value::u64(&mut heap, 2, "U64");
   let c = Value::u64(&mut heap, 3, "U64");
   let t1 = Value::tuple(&mut heap, &[a, b], "Tuple");
   let t2 = Value::tuple(&mut heap, &[c], "Tuple");
   let t3 = Value::tuple(&mut heap, &[], "Tuple");
   let outer = Value::tuple(&mut heap, &[t1, a, t3, t2], "Tuple");
   let (lo, hi) = outer.lohi();
   let (flo, fhi) = tuple_flatten::s_u64(&mut heap, lo, hi);
   let f = Value::from_lohi(flo, fhi);
   assert_eq!(f.end(), 3);
   assert_eq!(f.debug_string(&heap), "(1,2,3)");
}

#[test]
fn join_with_separator() {
   let mut heap = Heap::new();
   let a = Value::string(&mut heap, "ab", "String");
   let b = Value::string(&mut heap, "", "String");
   let c = Value::string(&mut heap, "xyz", "String").slice(1, 3);
   let t = Value::tuple(&mut heap, &[a, b, c], "Tuple");
   let sep = Value::string(&mut heap, ", ", "String");
   let (lo, hi) = t.lohi();
   let (slo, shi) = sep.lohi();
   let (rlo, rhi) = string_join2::s_u64(&mut heap, lo, hi, slo, shi);
   let r = Value::from_lohi(rlo, rhi);
   assert_eq!(r.literal(&heap), "ab, , yz");
   let e = Value::tuple(&mut heap, &[], "Tuple");
   let (lo, hi) = e.lohi();
   let (rlo, rhi) = string_join2::s_u64(&mut heap, lo, hi, slo, shi);
   assert_eq!(Value::from_lohi(rlo, rhi).literal(&heap), "");
}

#[test]
fn push_into_strings_and_tuples() {
   let mut heap = Heap::new();
   let s = Value::string_with_capacity(&mut heap, 2);
   let (lo, hi) = s.lohi();
   assert_eq!(string_push::s_u64(&mut heap, lo, hi, 'o'), 0);
   assert_eq!(string_push::s_u64(&mut heap, lo, hi, 'k'), 0);
   assert_eq!(string_push::s_u64(&mut heap, lo, hi, '!'), 0);
   assert_eq!(s.literal(&heap), "ok");
   let t = Value(tuple_new::s_u64(&mut heap, 2));
   assert_eq!(t.debug_string(&heap), "(_,_)");
   let x = Value::u64(&mut heap, 5, "U64");
   assert_eq!(tuple_push::s_u64(&mut heap, t.0, x.0), 0);
   assert_eq!(t.debug_string(&heap), "(5,_)");
   let trimmed = Value(tuple_trim::s_u64(&heap, t.0));
   assert_eq!(trimmed.end(), 1);
   assert_eq!(trimmed.debug_string(&heap), "(5)");
}

#[test]
fn numbers_as_strings() {
   let mut heap = Heap::new();
   let (lo, hi) = cast_u64_as_string::s_u64(&mut heap, 1234567890);
   assert_eq!(Value::from_lohi(lo, hi).literal(&heap), "1234567890");
   let (lo, hi) = cast_u64_as_string::s_u64(&mut heap, 0);
   assert_eq!(Value::from_lohi(lo, hi).literal(&heap), "0");
   let (lo, hi) = cast_u64_as_string::s_i64(&mut heap, -42);
   assert_eq!(Value::from_lohi(lo, hi).literal(&heap), "-42");
   let (lo, hi) = cast_u64_as_string::s_i64(&mut heap, i64::MIN);
   assert_eq!(Value::from_lohi(lo, hi).literal(&heap), "-9223372036854775808");
   assert_eq!(Value::from_lohi(lo, hi).name(&heap), "");
}

#[test]
fn range_recipes() {
   let mut heap = Heap::new();
   let (lo, hi) = range2::s_i64(&mut heap, 3, 6);
   assert_eq!(Value::from_lohi(lo, hi).debug_string(&heap), "(3,4,5)");
   let (lo, hi) = range2::s_i64(&mut heap, -1, 6);
   assert_eq!(Value::from_lohi(lo, hi).end(), 0);
   let r = Value(range3::s_u64(&mut heap, 0, 10, 4));
   assert_eq!(r.debug_string(&heap), "(0,4,8)");
}

#[test]
fn readiness_checks() {
   let mut heap = Heap::new();
   let a = Value::string(&mut heap, "ab", "String");
   let n = Value::u64(&mut heap, 1, "U64");
   let good = Value::tuple(&mut heap, &[a, a], "Tuple");
   let bad = Value::tuple(&mut heap, &[a, n], "Tuple");
   let sep = Value::string(&mut heap, "-", "String");
   let (glo, ghi) = good.lohi();
   let (blo, bhi) = bad.lohi();
   let (slo, shi) = sep.lohi();
   assert!(string_join2::can_join(&heap, glo, ghi, slo, shi));
   assert!(!string_join2::can_join(&heap, blo, bhi, slo, shi));
   assert!(!string_join2::can_join(&heap, slo, shi, slo, shi));
   assert!(!string_join2::can_join(&heap, glo, ghi, glo, ghi));
   assert!(string_join2::string_is_ok(&heap, &a));
   assert!(!string_join2::string_is_ok(&heap, &a.slice(2, 1)));
   let nested = Value::tuple(&mut heap, &[good, n], "Tuple");
   let (nlo, nhi) = nested.lohi();
   assert!(tuple_flatten::can_flatten(&heap, nlo, nhi));
   assert!(tuple_flatten::tuple_is_ok(&heap, &good));
   assert!(!tuple_flatten::can_flatten(&heap, slo, shi));
   let broken = Value::tuple(&mut heap, &[Value(u128::MAX)], "Tuple");
   let (xlo, xhi) = broken.lohi();
   assert!(!tuple_flatten::can_flatten(&heap, xlo, xhi));
}

#[test]
fn range_of_one_bound_counts_from_zero() {
   let mut heap = Heap::new();
   let r = Value(range1::s_u64(&mut heap, 5));
   assert_eq!(r.debug_string(&heap), "(0,1,2,3,4)");
   let e = Value(range1::s_u64(&mut heap, 0));
   assert_eq!(e.debug_string(&heap), "()");
}
