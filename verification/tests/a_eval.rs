use l1_ir::ast::{Expression, FunctionDefinition, LHSPart, LIPart, Program, Value};
use l1_ir::eval::eval;

#[test]
fn eval_empty() {
   assert!(
      eval(Program::<()>::program(vec![],vec![]),&[]).ok().unwrap()
      == Value::tuple(vec![])
   );
}

#[test]
fn eval_failure() {
   assert!(
      eval(Program::program(
         vec![],
         vec![Expression::failure(())]
      ),&[]).is_err()
   );
}

#[test]
fn eval_li() {
   assert!(
      eval(Program::program(
         vec![],
         vec![Expression::literal("",())],
      ),&[]).ok().unwrap()
      == Value::literal("")
   );
   assert!(
      eval(Program::program(
         vec![],
         vec![Expression::li(vec![
            LIPart::literal("a")
         ],())],
      ),&[]).ok().unwrap()
      == Value::literal("a")
   );
   assert!(
      eval(Program::program(
         vec![],
         vec![Expression::li(vec![
            LIPart::literal("a"),
            LIPart::literal("bc"),
         ],())],
      ),&[]).ok().unwrap()
      == Value::literal("abc")
   );
}

#[test]
fn eval_ti() {
   assert_eq!(
      eval(Program::program(
         vec![],
         vec![Expression::ti(vec![],())],
      ),&[]).ok().unwrap().debug_string(),
      "()"
   );
}

#[test]
fn eval_function() {
   assert_eq!(
      eval(Program::program(
         vec![FunctionDefinition::define(
            "empty",
            vec![],
            vec![],
         )],
         vec![
            Expression::apply("empty",vec![],()),
         ],
      ),&[]).ok().unwrap().debug_string(),
      r#"()"#
   );
}

#[test]
fn eval_pattern() {
   assert!(
      eval(Program::program(
         vec![],
         vec![Expression::pattern(
            Expression::li(vec![
               LIPart::literal("b"),
               LIPart::literal("cd"),
            ],()),
            vec![],
         ())],
      ),&[]).is_err(),
   );
   assert_eq!(
      eval(Program::program(
         vec![],
         vec![Expression::pattern(
            Expression::li(vec![
               LIPart::literal("b"),
               LIPart::literal("cd"),
            ],()),
            vec![(
               LHSPart::any(),
               Expression::literal("c",())
            )],
         ())],
      ),&[]).ok().unwrap().debug_string(),
      r#""c""#
   );
   assert_eq!(
      eval(Program::program(
         vec![],
         vec![Expression::pattern(
            Expression::li(vec![
               LIPart::literal("b"),
               LIPart::literal("cd"),
            ],()),
            vec![(
               LHSPart::literal("bcd"),
               Expression::literal("e",())
            )],
         ())],
      ),&[]).ok().unwrap().debug_string(),
      r#""e""#
   );
   assert_eq!(
      eval(Program::program(
         vec![],
         vec![Expression::pattern(
            Expression::li(vec![
               LIPart::literal("b"),
               LIPart::literal("cd"),
            ],()),
            vec![(
               LHSPart::variable(123),
               Expression::variable(123,())
            )],
         ())],
      ),&[]).ok().unwrap().debug_string(),
      r#""bcd""#
   );
}
