use l1_ir::ast::{Expression, FunctionDefinition, LHSLiteralPart, LHSPart, LIPart, Program, TIPart, Type, Value};
use l1_ir::eval::eval;

fn run(functions: Vec<FunctionDefinition<()>>, expressions: Vec<Expression<()>>) -> Result<Value, l1_ir::ast::Error<()>> {
   eval(Program::program(functions, expressions), &[])
}

#[test]
fn arguments_are_bound_in_order() {
   let p = Program::program(vec![], vec![Expression::variable(1, ())]);
   let r = eval(p, &[Value::literal("x"), Value::literal("y")]).ok().unwrap();
   assert_eq!(r.debug_string(), r#""y""#);
}

#[test]
fn unbound_variable_is_an_error() {
   let e = run(vec![], vec![Expression::variable(7, ())]).err().unwrap();
   assert_eq!(e.error_type, "Runtime Error");
   assert_eq!(e.error_msg, "v#7 not found");
}

#[test]
fn failure_message() {
   let e = run(vec![], vec![Expression::failure(())]).err().unwrap();
   assert_eq!(e.error_msg, "failure");
}

#[test]
fn last_expression_wins() {
   let r = run(vec![], vec![Expression::literal("a", ()), Expression::literal("b", ())]).ok().unwrap();
   assert!(r == Value::literal("b"));
}

#[test]
fn zeros_build_unary_numbers() {
   let r = run(vec![], vec![Expression::li(vec![LIPart::literal("000"), LIPart::literal("00")], ())]).ok().unwrap();
   assert!(r == Value::unary(b"5"));
   assert_eq!(r.debug_string(), "5");
   let r = run(vec![], vec![Expression::li(vec![
      LIPart::expression(Expression::unary(b"2", ())),
      LIPart::literal("a"),
      LIPart::expression(Expression::unary(b"3", ())),
   ], ())]).ok().unwrap();
   assert!(r == Value::literal("a000"));
}

#[test]
fn function_application() {
   let swap = FunctionDefinition::define(
      "swap",
      vec![(0, Type::default()), (1, Type::default())],
      vec![Expression::ti(vec![TIPart::variable(1), TIPart::variable(0)], ())],
   );
   let r = run(vec![swap], vec![Expression::apply("swap", vec![Expression::literal("a", ()), Expression::literal("b", ())], ())]).ok().unwrap();
   assert_eq!(r.debug_string(), r#"("b","a")"#);
}

#[test]
fn later_definitions_win() {
   let f1 = FunctionDefinition::define("f", vec![], vec![Expression::literal("one", ())]);
   let f2 = FunctionDefinition::define("f", vec![], vec![Expression::literal("two", ())]);
   let r = run(vec![f1, f2], vec![Expression::apply("f", vec![], ())]).ok().unwrap();
   assert!(r == Value::literal("two"));
}

#[test]
fn application_errors() {
   let e = run(vec![], vec![Expression::apply("g", vec![], ())]).err().unwrap();
   assert_eq!(e.error_msg, "f#g undefined");
   let f = FunctionDefinition::define("f", vec![(0, Type::default())], vec![]);
   let e = run(vec![f], vec![Expression::apply("f", vec![], ())]).err().unwrap();
   assert_eq!(e.error_msg, "f#f called with wrong arity");
}

#[test]
fn pattern_errors_and_unpacking() {
   let e = run(vec![], vec![Expression::pattern(Expression::literal("ab", ()), vec![(LHSPart::literal("x"), Expression::literal("y", ()))], ())]).err().unwrap();
   assert_eq!(e.error_msg, r#"pattern did not match on "ab""#);
   let p = Expression::pattern(
      Expression::unary(b"5", ()),
      vec![(
         LHSPart::ul(vec![LHSLiteralPart::literal("00")], Some(3), vec![LHSLiteralPart::literal("0")]),
         Expression::variable(3, ()),
      )],
      (),
   );
   let r = run(vec![], vec![p]).ok().unwrap();
   assert!(r == Value::unary(b"2"));
}

#[test]
fn tuple_patterns_bind_items() {
   let p = Expression::pattern(
      Expression::ti(vec![TIPart::expression(Expression::literal("a", ())), TIPart::expression(Expression::literal("b", ()))], ()),
      vec![(LHSPart::tuple(vec![LHSPart::any(), LHSPart::variable(4)]), Expression::variable(4, ()))],
      (),
   );
   let r = run(vec![], vec![p]).ok().unwrap();
   assert!(r == Value::literal("b"));
}

#[test]
fn map_over_a_tuple() {
   let m = Expression::map(
      LHSPart::variable(0),
      Expression::tuple(vec![Value::literal("a"), Value::literal("b")], ()),
      TIPart::expression(Expression::li(vec![LIPart::variable(0), LIPart::literal("!")], ())),
      (),
   );
   let r = run(vec![], vec![m]).ok().unwrap();
   assert_eq!(r.debug_string(), r#"("a!","b!")"#);
   let bad = Expression::map(LHSPart::variable(0), Expression::literal("a", ()), TIPart::variable(0), ());
   let e = run(vec![], vec![bad]).err().unwrap();
   assert_eq!(e.error_msg, "map over a value that is not a tuple");
}

#[test]
fn map_with_a_guard_skips_items() {
   let m = Expression::map(
      LHSPart::variable(0),
      Expression::tuple(vec![Value::literal("1"), Value::literal("0"), Value::literal("1")], ()),
      TIPart::expression(Expression::pattern(
         Expression::variable(0, ()),
         vec![(LHSPart::literal("1"), Expression::literal("kept", ()))],
         (),
      )),
      (),
   );
   let r = run(vec![], vec![m]).ok().unwrap();
   assert_eq!(r.debug_string(), r#"("kept","kept")"#);
}
