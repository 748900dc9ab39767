use std::sync::Arc;
use l1_ir::ast::{LHSLiteralPart, LHSPart, Type, Value};

#[test]
fn equality_is_symmetric_and_ignores_tags() {
   let a = Value::literal("ab").typed("A");
   let b = Value::Literal(1, 3, Arc::new(vec!['x', 'a', 'b']), None);
   assert!(a == b);
   assert!(b == a);
   assert!(Value::unary(b"3") == Value::literal("000"));
   assert!(Value::literal("000") == Value::unary(b"3"));
   assert!(!(Value::unary(b"3") == Value::literal("00")));
   assert!(!(Value::Literal(2, 1, Arc::new(vec!['a', 'b']), None) == Value::Literal(2, 1, Arc::new(vec!['a', 'b']), None)));
}

#[test]
fn big_unary_numbers() {
   assert!(Value::unary(b"123456789101112131415161718192021") == Value::unary(b"123456789101112131415161718192021"));
   assert!(!(Value::unary(b"123456789101112131415161718192021") == Value::unary(b"123456789101112131415161718192022")));
   assert_eq!(Value::unary(b"18446744073709551616").debug_string(), "18446744073709551616");
   assert!(Value::parse_unary(b"12x").is_none());
   assert!(Value::from_u64(42) == Value::unary(b"42"));
}

#[test]
fn typing_and_tags() {
   let v = Value::literal("a").typed("T");
   assert_eq!(v.typof(), &Some("T".to_string()));
   assert_eq!(Type::nominal("N").nom(), "N");
   assert_eq!(Type::default().nom(), "Value");
   let e = Type::accepts(&Value::literal("a"), &Type::nominal("A"), 7u32).err().unwrap();
   assert_eq!(e.error_type, "Dynamic Type Error");
   assert_eq!(e.error_msg, "Type ? does not satisfy constraint: A");
   assert_eq!(e.span, 7);
   let e = Type::accepts(&Value::literal("a").typed("B"), &Type::nominal("A"), ()).err().unwrap();
   assert_eq!(e.error_msg, r#"Type "B" does not satisfy constraint: A"#);
   let e = Type::accepts(&Value::literal("a"), &Type::function("f"), ()).err().unwrap();
   assert_eq!(e.error_msg, r#"Value "a" is not a function"#);
   let e = Type::accepts(&Value::function("g"), &Type::function("f"), ()).err().unwrap();
   assert_eq!(e.error_msg, "Function #g does not satisfy constraint: Value");
}

#[test]
fn accepts_any_constraint() {
   let v = Value::literal("a").typed("B");
   assert!(Type::accepts_any(&v, &vec![Type::nominal("A"), Type::nominal("B")], ()).is_ok());
   let e = Type::accepts_any(&v, &vec![Type::nominal("A")], ()).err().unwrap();
   assert_eq!(e.error_msg, r#"Value "a" does not satisfy any constraint"#);
   assert!(Type::accepts_any(&v, &vec![], ()).is_err());
}

#[test]
fn pattern_equality() {
   assert!(LHSPart::literal("a").equals(&LHSPart::literal("a")));
   assert!(!LHSPart::literal("a").equals(&LHSPart::literal("b")));
   assert!(LHSPart::any().equals(&LHSPart::any()));
   assert!(!LHSPart::any().equals(&LHSPart::variable(0)));
   assert!(LHSPart::tuple(vec![LHSPart::variable(1)]).equals(&LHSPart::tuple(vec![LHSPart::variable(1)])));
   assert!(!LHSPart::tuple(vec![LHSPart::variable(1)]).equals(&LHSPart::tuple(vec![LHSPart::variable(2)])));
   let u1 = LHSPart::ul(vec![LHSLiteralPart::literal("0")], Some(1), vec![LHSLiteralPart::variable(2)]);
   let u2 = LHSPart::ul(vec![LHSLiteralPart::literal("0")], Some(1), vec![LHSLiteralPart::variable(2)]);
   let u3 = LHSPart::ul(vec![LHSLiteralPart::literal("0")], None, vec![LHSLiteralPart::variable(2)]);
   assert!(u1.equals(&u2));
   assert!(!u1.equals(&u3));
   assert!(LHSLiteralPart::variable(3).equals(&LHSLiteralPart::variable(3)));
   assert!(!LHSLiteralPart::variable(3).equals(&LHSLiteralPart::literal("3")));
}

#[test]
fn decimal_text_forms() {
   assert!(Value::parse_unary(b"+12").unwrap() == Value::unary(b"12"));
   assert!(Value::parse_unary(b"1_2").unwrap() == Value::unary(b"12"));
   assert!(Value::parse_unary(b"_12").is_none());
   assert!(Value::parse_unary(b"++1").is_none());
   assert!(Value::parse_unary(b"+").is_none());
   assert!(Value::parse_unary(b"").is_none());
}
