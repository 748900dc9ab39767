use std::sync::Arc;
use l1_ir::ast::Value;

#[test]
fn eval_literals() {
   assert_eq!(
      Value::Literal(0,1,Arc::new(vec!['a']),None).debug_string(),
      r#""a""#,
   );
   assert_eq!(
      Value::Literal(0,0,Arc::new(vec!['a']),None).debug_string(),
      r#"0"#,
   );
   assert_eq!(
      Value::Literal(1,1,Arc::new(vec!['a']),None).debug_string(),
      r#"0"#,
   );
   assert_eq!(
      Value::Literal(0,3,Arc::new(vec!['a','b','c']),None).debug_string(),
      r#""abc""#,
   );
   assert_eq!(
      Value::Literal(0,2,Arc::new(vec!['a','b','c']),None).debug_string(),
      r#""ab""#,
   );
   assert_eq!(
      Value::Literal(0,1,Arc::new(vec!['a','b','c']),None).debug_string(),
      r#""a""#,
   );
   assert_eq!(
      Value::Literal(0,0,Arc::new(vec!['a','b','c']),None).debug_string(),
      r#"0"#,
   );
   assert_eq!(
      Value::Literal(1,3,Arc::new(vec!['a','b','c']),None).debug_string(),
      r#""bc""#,
   );
   assert_eq!(
      Value::Literal(1,2,Arc::new(vec!['a','b','c']),None).debug_string(),
      r#""b""#,
   );
   assert_eq!(
      Value::Literal(1,1,Arc::new(vec!['a','b','c']),None).debug_string(),
      r#"0"#,
   );
   assert_eq!(
      Value::Literal(2,3,Arc::new(vec!['a','b','c']),None).debug_string(),
      r#""c""#,
   );
   assert_eq!(
      Value::Literal(2,2,Arc::new(vec!['a','b','c']),None).debug_string(),
      r#"0"#,
   );
   assert_eq!(
      Value::Literal(3,3,Arc::new(vec!['a','b','c']),None).debug_string(),
      r#"0"#,
   );
}

#[test]
fn eval_tuples() {
   let a = Value::Literal(0,1,Arc::new(vec!['a']),None);
   let b = Value::Literal(0,1,Arc::new(vec!['b']),None);
   let cd = Value::Literal(0,2,Arc::new(vec!['c','d']),None);
   assert_eq!(
      Value::tuple(vec![]).debug_string(),
      r#"()"#,
   );
   assert_eq!(
      Value::tuple(vec![a.clone()]).debug_string(),
      r#"("a",)"#,
   );
   assert_eq!(
      Value::tuple(vec![b.clone()]).debug_string(),
      r#"("b",)"#,
   );
   assert_eq!(
      Value::tuple(vec![cd.clone()]).debug_string(),
      r#"("cd",)"#,
   );
   assert_eq!(
      Value::tuple(vec![a.clone(),b.clone()]).debug_string(),
      r#"("a","b")"#,
   );
   assert_eq!(
      Value::tuple(vec![a.clone(),cd.clone()]).debug_string(),
      r#"("a","cd")"#,
   );
   assert_eq!(
      Value::tuple(vec![b.clone(),cd.clone()]).debug_string(),
      r#"("b","cd")"#,
   );
   assert_eq!(
      Value::tuple(vec![a.clone(),b.clone(),cd.clone()]).debug_string(),
      r#"("a","b","cd")"#,
   );
}

#[test]
fn eval_functions() {
   assert_eq!(
      Value::Function("+".to_string(),None).debug_string(),
      "+",
   );
   assert_eq!(
      Value::Function("-".to_string(),None).debug_string(),
      "-",
   );
   assert_eq!(
      Value::Function("==".to_string(),None).debug_string(),
      "==",
   );
}

#[test]
fn eval_heterogenous() {
   let a = Value::Literal(0,1,Arc::new(vec!['a']),None);
   let a0 = Value::Literal(0,0,Arc::new(vec!['a']),None);
   let bc = Value::Literal(1,3,Arc::new(vec!['a','b','c']),None);
   let f1 = Value::Function("+".to_string(),None);
   let f23 = Value::Function("-".to_string(),None);
   let t1 = Value::tuple(vec![a.clone(),f1.clone(),bc.clone()]);
   let t2 = Value::tuple(vec![a0.clone(),t1.clone(),f23.clone()]);
   assert_eq!(
      t1.debug_string(),
      r#"("a",+,"bc")"#
   );
   assert_eq!(
      t2.debug_string(),
      r#"(0,("a",+,"bc"),-)"#
   );
}


