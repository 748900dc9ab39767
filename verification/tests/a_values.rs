use l1_ir::value::{Heap, Tag, Value};

#[test]
fn value_nil() {
   let mut heap = Heap::new();
   let v = Value::unit(&mut heap, "T#0");
   assert_eq!(v.tag_as_str(), "Unit");
   assert_eq!(v.name(&heap), "T#0");
   assert_eq!(v.debug_string(&heap), "()");
}

#[test]
fn value_number_i8() {
   let mut heap = Heap::new();
   let v = Value::i8(&mut heap, -2, "T#1");
   assert_eq!(v.tag_as_str(), "I8");
   assert_eq!(v.name(&heap), "T#1");
   assert_eq!(v.slot(Tag::I8, 0), -2);
   assert_eq!(v.debug_string(&heap), "-2");

   let v = Value::i8(&mut heap, 100, "T#3");
   assert_eq!(v.tag_as_str(), "I8");
   assert_eq!(v.name(&heap), "T#3");
   assert_eq!(v.slot(Tag::I8, 0), 100);
   assert_eq!(v.debug_string(&heap), "100");
}

#[test]
fn value_number_u8() {
   let mut heap = Heap::new();
   let v = Value::u8(&mut heap, 12, "T#3");
   assert_eq!(v.tag_as_str(), "U8");
   assert_eq!(v.name(&heap), "T#3");
   assert_eq!(v.slot(Tag::U8, 0), 12);
   assert_eq!(v.debug_string(&heap), "12");

   let v = Value::u8(&mut heap, 9, "T#4");
   assert_eq!(v.tag_as_str(), "U8");
   assert_eq!(v.name(&heap), "T#4");
   assert_eq!(v.slot(Tag::U8, 0), 9);
   assert_eq!(v.debug_string(&heap), "9");
}

#[test]
fn value_numbers_i8s() {
   let mut heap = Heap::new();
   let v = Value::i8s(&mut heap, &[3,-2,4,7], "T#1");
   assert_eq!(v.tag_as_str(), "I84");
   assert_eq!(v.name(&heap), "T#1");
   assert_eq!(v.slot(Tag::I8, 0), 3);
   assert_eq!(v.slot(Tag::I8, 1), -2);
   assert_eq!(v.slot(Tag::I8, 2), 4);
   assert_eq!(v.slot(Tag::I8, 3), 7);
   assert_eq!(v.debug_string(&heap), "(3,-2,4,7)");
}

#[test]
fn value_numbers_u8s() {
   let mut heap = Heap::new();
   let v = Value::u8s(&mut heap, &[3,0,4,7,101], "T#1");
   assert_eq!(v.tag_as_str(), "U85");
   assert_eq!(v.name(&heap), "T#1");
   assert_eq!(v.slot(Tag::I8, 0), 3);
   assert_eq!(v.slot(Tag::I8, 1), 0);
   assert_eq!(v.slot(Tag::I8, 2), 4);
   assert_eq!(v.slot(Tag::I8, 3), 7);
   assert_eq!(v.slot(Tag::I8, 4), 101);
   assert_eq!(v.debug_string(&heap), "(3,0,4,7,101)");
}

#[test]
fn value_number_i16() {
   let mut heap = Heap::new();
   let v = Value::i16(&mut heap, -2, "T#1");
   assert_eq!(v.tag_as_str(), "I16");
   assert_eq!(v.name(&heap), "T#1");
   assert_eq!(v.slot(Tag::I16, 0), -2);
   assert_eq!(v.debug_string(&heap), "-2");

   let v = Value::i16(&mut heap, 100, "T#3");
   assert_eq!(v.tag_as_str(), "I16");
   assert_eq!(v.name(&heap), "T#3");
   assert_eq!(v.slot(Tag::I16, 0), 100);
   assert_eq!(v.debug_string(&heap), "100");
}

#[test]
fn value_number_u16() {
   let mut heap = Heap::new();
   let v = Value::u16(&mut heap, 12, "T#3");
   assert_eq!(v.tag_as_str(), "U16");
   assert_eq!(v.name(&heap), "T#3");
   assert_eq!(v.slot(Tag::U16, 0), 12);
   assert_eq!(v.debug_string(&heap), "12");

   let v = Value::u16(&mut heap, 9, "T#4");
   assert_eq!(v.tag_as_str(), "U16");
   assert_eq!(v.name(&heap), "T#4");
   assert_eq!(v.slot(Tag::U16, 0), 9);
   assert_eq!(v.debug_string(&heap), "9");
}

#[test]
fn value_numbers_i16s() {
   let mut heap = Heap::new();
   let v = Value::i16s(&mut heap, &[3,-2,4,7], "T#1");
   assert_eq!(v.tag_as_str(), "I164");
   assert_eq!(v.name(&heap), "T#1");
   assert_eq!(v.slot(Tag::I16, 0), 3);
   assert_eq!(v.slot(Tag::I16, 1), -2);
   assert_eq!(v.slot(Tag::I16, 2), 4);
   assert_eq!(v.slot(Tag::I16, 3), 7);
   assert_eq!(v.debug_string(&heap), "(3,-2,4,7)");
}

#[test]
fn value_numbers_u16s() {
   let mut heap = Heap::new();
   let v = Value::u16s(&mut heap, &[3,0,4,7,101], "T#1");
   assert_eq!(v.tag_as_str(), "U165");
   assert_eq!(v.name(&heap), "T#1");
   assert_eq!(v.slot(Tag::I16, 0), 3);
   assert_eq!(v.slot(Tag::I16, 1), 0);
   assert_eq!(v.slot(Tag::I16, 2), 4);
   assert_eq!(v.slot(Tag::I16, 3), 7);
   assert_eq!(v.slot(Tag::I16, 4), 101);
   assert_eq!(v.debug_string(&heap), "(3,0,4,7,101)");
}

#[test]
fn value_number_i32() {
   let mut heap = Heap::new();
   let v = Value::i32(&mut heap, -2, "T#1");
   assert_eq!(v.tag_as_str(), "I32");
   assert_eq!(v.name(&heap), "T#1");
   assert_eq!(v.slot(Tag::I32, 0), -2);
   assert_eq!(v.debug_string(&heap), "-2");

   let v = Value::i32(&mut heap, 100, "T#3");
   assert_eq!(v.tag_as_str(), "I32");
   assert_eq!(v.name(&heap), "T#3");
   assert_eq!(v.slot(Tag::I32, 0), 100);
   assert_eq!(v.debug_string(&heap), "100");
}

#[test]
fn value_number_u32() {
   let mut heap = Heap::new();
   let v = Value::u32(&mut heap, 12, "T#3");
   assert_eq!(v.tag_as_str(), "U32");
   assert_eq!(v.name(&heap), "T#3");
   assert_eq!(v.slot(Tag::U32, 0), 12);
   assert_eq!(v.debug_string(&heap), "12");

   let v = Value::u32(&mut heap, 9, "T#4");
   assert_eq!(v.tag_as_str(), "U32");
   assert_eq!(v.name(&heap), "T#4");
   assert_eq!(v.slot(Tag::U32, 0), 9);
   assert_eq!(v.debug_string(&heap), "9");
}

#[test]
fn value_numbers_i32s() {
   let mut heap = Heap::new();
   let v = Value::i32s(&mut heap, &[3,-2,4], "T#1");
   assert_eq!(v.tag_as_str(), "I323");
   assert_eq!(v.name(&heap), "T#1");
   assert_eq!(v.slot(Tag::I32, 0), 3);
   assert_eq!(v.slot(Tag::I32, 1), -2);
   assert_eq!(v.slot(Tag::I32, 2), 4);
   assert_eq!(v.debug_string(&heap), "(3,-2,4)");
}

#[test]
fn value_numbers_u32s() {
   let mut heap = Heap::new();
   let v = Value::u32s(&mut heap, &[3,0,4], "T#1");
   assert_eq!(v.tag_as_str(), "U323");
   assert_eq!(v.name(&heap), "T#1");
   assert_eq!(v.slot(Tag::U32, 0), 3);
   assert_eq!(v.slot(Tag::U32, 1), 0);
   assert_eq!(v.slot(Tag::U32, 2), 4);
   assert_eq!(v.debug_string(&heap), "(3,0,4)");
}

#[test]
fn value_number_i64() {
   let mut heap = Heap::new();
   let v = Value::i64(&mut heap, -2, "T#1");
   assert_eq!(v.tag_as_str(), "I64");
   assert_eq!(v.name(&heap), "T#1");
   assert_eq!(v.slot(Tag::I64, 0), -2);
   assert_eq!(v.debug_string(&heap), "-2");

   let v = Value::i64(&mut heap, 100, "T#3");
   assert_eq!(v.tag_as_str(), "I64");
   assert_eq!(v.name(&heap), "T#3");
   assert_eq!(v.slot(Tag::I64, 0), 100);
   assert_eq!(v.debug_string(&heap), "100");
}

#[test]
fn value_number_u64() {
   let mut heap = Heap::new();
   let v = Value::u64(&mut heap, 12, "T#3");
   assert_eq!(v.tag_as_str(), "U64");
   assert_eq!(v.name(&heap), "T#3");
   assert_eq!(v.slot(Tag::U64, 0), 12);
   assert_eq!(v.debug_string(&heap), "12");

   let v = Value::u64(&mut heap, 9, "T#4");
   assert_eq!(v.tag_as_str(), "U64");
   assert_eq!(v.name(&heap), "T#4");
   assert_eq!(v.slot(Tag::U64, 0), 9);
   assert_eq!(v.debug_string(&heap), "9");
}

#[test]
fn value_string() {
   let mut heap = Heap::new();
   let v = Value::string(&mut heap, "abc", "T#2");
   assert_eq!(v.tag_as_str(), "String");
   assert_eq!(v.name(&heap), "T#2");
   assert_eq!(v.literal(&heap), "abc");
   assert_eq!(v.debug_string(&heap), r#""abc""#);

   let v2 = v.slice(1,2);
   assert_eq!(v2.tag_as_str(), "String");
   assert_eq!(v2.name(&heap), "T#2");
   assert_eq!(v2.literal(&heap), "b");
   assert_eq!(v2.debug_string(&heap), r#""b""#);
}
