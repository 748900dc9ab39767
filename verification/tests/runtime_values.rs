use l1_ir::value::{Heap, Tag, Value};

#[test]
fn halves_round_trip() {
   let v = Value::from_lohi(0x1234, 0xabcd);
   assert_eq!(v.0, (0xabcdu128 << 64) | 0x1234);
   assert_eq!(v.lohi(), (0x1234, 0xabcd));
   let w = Value(u128::MAX - 7);
   let (lo, hi) = w.lohi();
   assert_eq!(Value::from_lohi(lo, hi).0, w.0);
}

#[test]
fn parts_round_trip() {
   let v = Value::from_parts(47, 3, 99);
   assert_eq!(v.to_parts(), (47, 3, 99));
   assert_eq!(v.0, (47u128 << 112) | (3u128 << 96) | 99);
   let w = Value(0xdead_beef_0000_1111_2222_3333_4444_5555);
   let (t, n, s) = w.to_parts();
   assert_eq!(Value::from_parts(t, n, s).0, w.0);
}

#[test]
fn tag_codes() {
   for c in 0u16..52 {
      let t = Tag::from_code(c).unwrap();
      assert_eq!(t.code(), c);
   }
   assert!(Tag::from_code(52).is_none());
   assert!(Tag::from_code(u16::MAX).is_none());
   assert_eq!(Tag::U812.name(), "U812");
   assert_eq!(Tag::Tuple.code(), 51);
   assert_eq!(Tag::String.code(), 50);
}

#[test]
fn zero_value() {
   let heap = Heap::new();
   let z = Value::zero();
   assert_eq!(z.0, 0);
   assert_eq!(z.tag_as_str(), "Zero");
   assert_eq!(z.name(&heap), "_");
   assert_eq!(z.debug_string(&heap), "_");
}

#[test]
fn wide_numbers() {
   let mut heap = Heap::new();
   let v = Value::i64(&mut heap, i64::MIN, "I");
   assert_eq!(v.slot(Tag::I64, 0), i64::MIN as i128);
   assert_eq!(v.debug_string(&heap), "-9223372036854775808");
   let w = Value::u64(&mut heap, u64::MAX, "U");
   assert_eq!(w.slot(Tag::U64, 0), u64::MAX as i128);
   assert_eq!(w.debug_string(&heap), "18446744073709551615");
   let f = Value::f64_bits(&mut heap, 4623139235229744497, "F");
   assert_eq!(f.tag_as_str(), "F64");
   assert_eq!(f.slot(Tag::F64, 0), 4623139235229744497);
}

#[test]
fn vector_lanes() {
   let mut heap = Heap::new();
   let v = Value::u8s(&mut heap, &[1, 2, 3, 4, 5, 6, 7, 8, 9, 10, 11, 255], "V");
   assert_eq!(v.tag_as_str(), "U812");
   assert_eq!(v.slot(Tag::U8, 11), 255);
   assert_eq!(v.slot(Tag::I8, 11), -1);
   assert_eq!(v.debug_string(&heap), "(1,2,3,4,5,6,7,8,9,10,11,255)");
   let e = Value::u16s(&mut heap, &[], "E");
   assert_eq!(e.tag_as_str(), "Unit");
   assert_eq!(e.debug_string(&heap), "()");
   let s = Value::i32s(&mut heap, &[i32::MIN, -1, i32::MAX], "S");
   assert_eq!(s.slot(Tag::I32, 0), i32::MIN as i128);
   assert_eq!(s.slot(Tag::U32, 1), 0xffff_ffff);
   assert_eq!(s.debug_string(&heap), "(-2147483648,-1,2147483647)");
   let f = Value::f32s_bits(&mut heap, &[1078774989, 1056964608], "F");
   assert_eq!(f.tag_as_str(), "F322");
   assert_eq!(f.slot(Tag::F32, 1), 1056964608);
}

#[test]
fn names_are_interned() {
   let mut heap = Heap::new();
   let a = Value::u8(&mut heap, 1, "A");
   let b = Value::u8(&mut heap, 2, "B");
   let c = Value::u8(&mut heap, 3, "A");
   assert_eq!(a.to_parts().1, 1);
   assert_eq!(b.to_parts().1, 2);
   assert_eq!(c.to_parts().1, 1);
   assert_eq!(heap.intern("B"), 2);
   assert_eq!(heap.intern("C"), 3);
   assert_eq!(c.name(&heap), "A");
}

#[test]
fn tuples_on_the_heap() {
   let mut heap = Heap::new();
   let x = Value::u64(&mut heap, 7, "U64");
   let y = Value::string(&mut heap, "hi", "String");
   let t = Value::tuple(&mut heap, &[x, y], "Pair");
   assert_eq!(t.tag_as_str(), "Tuple");
   assert_eq!(t.start(), 0);
   assert_eq!(t.end(), 2);
   assert_eq!(t.tptr(), 0);
   assert_eq!(y.cptr(), 0);
   assert_eq!(t.vslot(&heap, 0).0, x.0);
   assert_eq!(t.vslot(&heap, 1).0, y.0);
   assert_eq!(t.debug_string(&heap), r#"(7,"hi")"#);
   let e = Value::tuple(&mut heap, &[], "Tuple");
   assert_eq!(e.debug_string(&heap), "()");
   let n = Value::tuple(&mut heap, &[t, e], "Tuple");
   assert_eq!(n.debug_string(&heap), r#"((7,"hi"),())"#);
   assert!(n.same_text(&Value(n.0), &heap));
   assert!(!n.same_text(&t, &heap));
}

#[test]
fn push_fills_free_items() {
   let mut heap = Heap::new();
   let t = Value::tuple_with_capacity(&mut heap, 3);
   assert_eq!(t.name(&heap), "Tuple");
   let a = Value::u64(&mut heap, 1, "U64");
   let b = Value::u64(&mut heap, 2, "U64");
   t.push(&mut heap, a);
   t.push(&mut heap, b);
   assert_eq!(t.vslot(&heap, 0).0, a.0);
   assert_eq!(t.vslot(&heap, 1).0, b.0);
   assert_eq!(t.vslot(&heap, 2).0, 0);
   assert_eq!(t.debug_string(&heap), "(1,2,_)");
   let mut u = Value(t.0);
   u.set_end(2);
   assert_eq!(u.end(), 2);
   assert_eq!(u.name(&heap), "_");
   assert_eq!(u.debug_string(&heap), "(1,2)");
   t.push(&mut heap, a);
   t.push(&mut heap, b);
   assert_eq!(t.debug_string(&heap), "(1,2,1)");
}

#[test]
fn strings_fill_and_slice() {
   let mut heap = Heap::new();
   let s = Value::string_with_capacity(&mut heap, 3);
   s.pushc(&mut heap, 'x');
   s.pushc(&mut heap, 'y');
   assert_eq!(s.cslot(&heap, 0), 'x');
   assert_eq!(s.cslot(&heap, 1), 'y');
   assert_eq!(s.cslot(&heap, 2), '\0');
   let t = Value::string(&mut heap, "a\"b", "S");
   assert_eq!(t.debug_string(&heap), r#""a\"b""#);
   let u = t.slice(2, 1);
   assert_eq!(u.literal(&heap), "");
}

#[test]
fn ranges() {
   let mut heap = Heap::new();
   let r = Value::range(&mut heap, 2, 11, 3);
   assert_eq!(r.debug_string(&heap), "(2,5,8)");
   assert_eq!(r.vslot(&heap, 1).name(&heap), "U64");
   assert_eq!(r.name(&heap), "Tuple");
   let e = Value::range(&mut heap, 5, 5, 1);
   assert_eq!(e.end(), 0);
   let top = Value::range(&mut heap, u64::MAX - 1, u64::MAX, 5);
   assert_eq!(top.end(), 1);
   assert_eq!(top.vslot(&heap, 0).slot(Tag::U64, 0), (u64::MAX - 1) as i128);
}

#[test]
fn tuples_print_their_items_texts() {
   let mut heap = Heap::new();
   let z0 = Value::u64(&mut heap, 0, "U64");
   let z1 = Value::u64(&mut heap, 0, "U64");
   let o1 = Value::u64(&mut heap, 1, "U64");
   let a = Value::tuple(&mut heap, &[], "Tuple");
   let b = Value::tuple(&mut heap, &[z0], "Tuple");
   let c = Value::tuple(&mut heap, &[z1, o1], "Tuple");
   let t = Value::tuple(&mut heap, &[a, b, c], "Tuple");
   assert_eq!(t.debug_string(&heap), "((),(0),(0,1))");
   let items: Vec<String> = (t.start()..t.end()).map(|i| t.vslot(&heap, i).debug_string(&heap)).collect();
   assert_eq!(t.debug_string(&heap), format!("({})", items.join(",")));
}

#[test]
fn names_get_small_codes_and_the_heap_stays_bounded() {
   let mut heap = Heap::new();
   let a = Value::unit(&mut heap, "A");
   let b = Value::unit(&mut heap, "B");
   let a2 = Value::unit(&mut heap, "A");
   heap.bounded();
   assert_eq!(a.name(&heap), "A");
   assert_eq!(b.name(&heap), "B");
   assert_eq!(a2.name(&heap), "A");
   assert_eq!(a.0, a2.0);
   assert_ne!(a.0, b.0);
}
