use l1_ir::ast::{Expression, FunctionDefinition, LHSPart, Program, TIPart, Type, Value};
use l1_ir::opt::{apply_fn, cast_plan, check_hardcoded_call, compile_expr, compile_lhs, lhs_accepts, try_compile_expr, try_compile_program, JExpr, JType, compile_program, function_signature, type_cast, Emitter, IntCond, MachineType, Op, TrapKind, TypeContext, ValueRef};
use l1_ir::recipes::cranelift::{import, Emission};

fn r(op: usize, k: usize) -> ValueRef {
   ValueRef { op, k }
}

#[test]
fn constant_program_ops() {
   let p: Program<()> = Program::program(vec![], vec![Expression::unary(b"3", ())]);
   let c = compile_program(&import(), &p);
   let word = (47i64) << 48;
   assert_eq!(
      c.main.ops(),
      &vec![
         Op::CreateBlock,
         Op::FunctionParams(0),
         Op::SwitchToBlock(0),
         Op::Iconst(MachineType::I64, 3),
         Op::Iconst(MachineType::I64, word),
         Op::Iconcat(r(3, 0), r(4, 0)),
         Op::Isplit(r(5, 0)),
         Op::Return(vec![r(6, 0), r(6, 1)]),
         Op::SealBlock(0),
      ]
   );
   assert!(c.functions.is_empty());
}

#[test]
fn empty_program_returns_zero() {
   let p: Program<()> = Program::program(vec![], vec![]);
   let c = compile_program(&import(), &p);
   assert_eq!(
      c.main.ops(),
      &vec![
         Op::CreateBlock,
         Op::FunctionParams(0),
         Op::SwitchToBlock(0),
         Op::Iconst(MachineType::I64, 0),
         Op::Return(vec![r(3, 0), r(3, 0)]),
         Op::SealBlock(0),
      ]
   );
}

#[test]
fn addition_converts_and_open_codes() {
   let p: Program<()> = Program::program(
      vec![],
      vec![Expression::apply("+:(U64,U64)->U64", vec![Expression::unary(b"00", ()), Expression::unary(b"0", ())], ())],
   );
   let c = compile_program(&import(), &p);
   let ops = c.main.ops();
   // both arguments are checked to be numbers, then added in one instruction
   assert_eq!(ops.iter().filter(|o| matches!(o, Op::Trapz(_, TrapKind::BadConversionToInteger))).count(), 2);
   assert_eq!(ops.iter().filter(|o| matches!(o, Op::Iadd(_, _))).count(), 1);
   assert!(!ops.iter().any(|o| matches!(o, Op::Call(_, _))));
   // the sum is tagged as a number before it is returned
   let n = ops.len();
   assert_eq!(ops[n - 1], Op::SealBlock(0));
   assert!(matches!(ops[n - 2], Op::Return(_)));
   assert_eq!(ops[n - 5], Op::Iconst(MachineType::I64, 47i64 << 48));
}

#[test]
fn comparison_yields_a_byte() {
   let p: Program<()> = Program::program(
      vec![],
      vec![Expression::apply("<:(U64,U64)->U8", vec![Expression::unary(b"0", ()), Expression::unary(b"00", ())], ())],
   );
   let c = compile_program(&import(), &p);
   let ops = c.main.ops();
   assert!(ops.iter().any(|o| matches!(o, Op::Compare(IntCond::UnsignedLessThan, _, _))));
   assert!(ops.iter().any(|o| matches!(o, Op::Uextend(MachineType::I64, _))));
}

#[test]
fn unknown_function_is_an_error() {
   let p: Program<()> = Program::program(vec![], vec![Expression::apply("nope", vec![], ())]);
   match try_compile_program(&import(), &p) {
      Err(m) => assert_eq!(m, "attempt to apply undefined function, fn nope"),
      Ok(_) => panic!("expected an error"),
   }
}

#[test]
fn failure_is_not_compiled() {
   let p: Program<()> = Program::program(vec![], vec![Expression::failure(())]);
   match try_compile_program(&import(), &p) {
      Err(m) => assert_eq!(m, "not supported by the compiler: compile expression: Failure"),
      Ok(_) => panic!("expected an error"),
   }
}

#[test]
fn program_functions_are_compiled_and_called() {
   let f: FunctionDefinition<()> = FunctionDefinition::define("f", vec![(0, Type::nominal("U64"))], vec![Expression::variable(0, ()).typed("U64")]);
   let p: Program<()> = Program::program(vec![f], vec![Expression::apply("f", vec![Expression::unary(b"0", ()).typed("U64")], ()).typed("U64")]);
   let c = compile_program(&import(), &p);
   assert!(c.main.ops().iter().any(|o| matches!(o, Op::Call(n, _) if n == "f")));
   assert_eq!(c.functions.len(), 1);
   assert_eq!(c.functions[0].0, "f");
   let fops = c.functions[0].1.ops();
   assert_eq!(fops[0], Op::CreateBlock);
   assert_eq!(fops[1], Op::FunctionParams(0));
   assert_eq!(fops[3], Op::DeclareVar(0, MachineType::I64));
   assert_eq!(fops[4], Op::DefVar(0, r(1, 0)));
   assert_eq!(fops[5], Op::UseVar(0));
   assert_eq!(fops[6], Op::Return(vec![r(5, 0)]));
   let (params, ret) = function_signature(&p.functions[0]).unwrap();
   assert_eq!(params, vec![MachineType::I64]);
   assert_eq!(ret, MachineType::I64);
}

#[test]
fn map_is_a_loop() {
   let p: Program<()> = Program::program(
      vec![],
      vec![Expression::map(
         LHSPart::variable(130),
         Expression::apply("range:(U64)->U64[]", vec![Expression::literal("25", ()).typed("U64")], ()).typed("Value"),
         TIPart::expression(Expression::variable(130, ()).typed("Value")),
         (),
      )
      .typed("Value")],
   );
   let c = compile_program(&import(), &p);
   let ops = c.main.ops();
   let calls: Vec<&str> = ops
      .iter()
      .filter_map(|o| match o {
         Op::Call(n, _) => Some(n.as_str()),
         _ => None,
      })
      .collect();
   assert_eq!(calls, vec!["range:(U64)->U64[]", ".length:(Tuple)->U64", "with_capacity:(U64)->Tuple", "[]:(Tuple,U64)->Value", ".push:(Tuple,Value)->U64", "trim_capacity:(Tuple)->Tuple"]);
   assert!(ops.iter().any(|o| matches!(o, Op::DeclareVar(130, MachineType::I128))));
}

#[test]
fn casts_that_do_not_exist() {
   let mut em = Emitter::new();
   let v = em.value(Op::Iconst(MachineType::I64, 1));
   assert!(cast_plan("U8", "U64").is_none());
   assert_eq!(em.ops().len(), 1);
   let t = type_cast(&mut em, "U64", "Value", v);
   assert_eq!(t, r(2, 0));
   assert_eq!(em.ops()[1], Op::Iconst(MachineType::I64, 47i64 << 48));
   assert_eq!(em.ops()[2], Op::Iconcat(v, r(1, 0)));
}

#[test]
fn tuple_patterns_are_refused() {
   assert!(!lhs_accepts(&LHSPart::tuple(vec![]), "U64"));
   assert!(!lhs_accepts(&LHSPart::literal("1"), "String"));
   assert!(!lhs_accepts(&LHSPart::literal("x"), "U64"));
   assert!(lhs_accepts(&LHSPart::literal("1"), "U8"));
   assert!(lhs_accepts(&LHSPart::variable(4), "String"));
   let mut em = Emitter::new();
   let mut tc = TypeContext::new();
   let b0 = em.emit(Op::CreateBlock);
   let b1 = em.emit(Op::CreateBlock);
   let b2 = em.emit(Op::CreateBlock);
   let v = em.value(Op::Iconst(MachineType::I64, 1));
   compile_lhs(&mut tc, &mut em, b0, b1, &LHSPart::variable(4), b2, v, "U64");
   assert_eq!(tc.get(4), Some("U64".to_string()));
   assert_eq!(em.len(), 9);
   assert_eq!(em.ops()[4], Op::SwitchToBlock(b0));
   assert_eq!(em.ops()[5], Op::DeclareVar(4, MachineType::I64));
   assert_eq!(em.ops()[6], Op::DefVar(4, v));
   assert_eq!(em.ops()[7], Op::Jump(b1, vec![]));
   assert_eq!(em.ops()[8], Op::SealBlock(b0));
}

#[test]
fn literal_patterns_branch_to_the_match_block() {
   let mut em = Emitter::new();
   let mut tc = TypeContext::new();
   let b0 = em.emit(Op::CreateBlock);
   let b1 = em.emit(Op::CreateBlock);
   let b2 = em.emit(Op::CreateBlock);
   let v = em.value(Op::Iconst(MachineType::I64, 1));
   compile_lhs(&mut tc, &mut em, b0, b1, &LHSPart::literal("7"), b2, v, "U64");
   assert_eq!(em.len(), 9);
   assert_eq!(em.ops()[5], Op::CompareImm(IntCond::Equal, v, 7));
   assert_eq!(em.ops()[6], Op::Brnz(r(5, 0), b1, vec![]));
   assert_eq!(em.ops()[7], Op::Jump(b2, vec![]));
   assert_eq!(em.ops()[8], Op::SealBlock(b0));
}

#[test]
fn variable_types_come_from_the_context() {
   let mut em = Emitter::new();
   let mut tc = TypeContext::new();
   let b0 = em.emit(Op::CreateBlock);
   let p: Program<()> = Program::program(vec![], vec![]);
   let lib = import();
   let e = Expression::variable(9, ()).typed("U64");
   match try_compile_expr(&mut tc, &lib, &p, &mut em, b0, &e) {
      Err(m) => assert_eq!(m, "Could not find Type of Variable v#9"),
      Ok(_) => panic!("expected an error"),
   }
   tc.insert(9, "Value".to_string());
   let (je, jt) = compile_expr(&mut tc, &lib, &p, &mut em, b0, &e);
   assert_eq!(jt.name, "U64");
   assert_eq!(jt.jtype, MachineType::I64);
   assert_eq!(je.block, b0);
}

#[test]
fn the_table_of_known_functions() {
   let lib = import();
   assert_eq!(lib.len(), 29);
   let add = lib.iter().find(|f| f.name == "+:(U64,U64)->U64").unwrap();
   assert_eq!(add.emission, Emission::Iadd);
   assert_eq!(add.args, vec![MachineType::I64, MachineType::I64]);
   assert_eq!(add.arg_types[0].name, Some("U64".to_string()));
   let push = lib.iter().find(|f| f.name == ".push:(Tuple,Value)->U64").unwrap();
   assert_eq!(push.emission, Emission::Call);
   assert_eq!(push.rtype, MachineType::I64);
}

fn calls(ops: &[Op]) -> Vec<&str> {
   ops.iter()
      .filter_map(|o| match o {
         Op::Call(n, _) => Some(n.as_str()),
         _ => None,
      })
      .collect()
}

#[test]
fn string_literals_are_built_character_by_character() {
   let p: Program<()> = Program::program(vec![], vec![Expression::literal("\"ab\"", ()).typed("String")]);
   let c = compile_program(&import(), &p);
   let ops = c.main.ops();
   assert_eq!(calls(ops), vec!["with_capacity:(U64)->String", ".push:(String,U32)->U64", ".push:(String,U32)->U64"]);
   assert!(ops.iter().any(|o| *o == Op::Iconst(MachineType::I64, 2)));
   assert!(ops.iter().any(|o| *o == Op::Iconst(MachineType::I32, 'a' as i64)));
   assert!(ops.iter().any(|o| *o == Op::Iconst(MachineType::I32, 'b' as i64)));
}

#[test]
fn string_literal_without_quotes_is_refused() {
   let p: Program<()> = Program::program(vec![], vec![Expression::literal("a", ()).typed("String")]);
   assert!(try_compile_program(&import(), &p).is_err());
}

#[test]
fn tuples_of_numbers() {
   let p: Program<()> = Program::program(vec![], vec![Expression::tuple(vec![Value::unary(b"1"), Value::unary(b"2")], ())]);
   let c = compile_program(&import(), &p);
   let ops = c.main.ops();
   assert_eq!(calls(ops), vec!["with_capacity:(U64)->Tuple", ".push:(Tuple,Value)->U64", ".push:(Tuple,Value)->U64"]);
   assert_eq!(ops[3], Op::Iconst(MachineType::I64, 2));
}

#[test]
fn matches_meet_in_one_block() {
   let p: Program<()> = Program::program(
      vec![],
      vec![Expression::pattern(
         Expression::unary(b"1", ()).typed("U64"),
         vec![
            (LHSPart::literal("1"), Expression::unary(b"5", ()).typed("U64")),
            (LHSPart::any(), Expression::unary(b"6", ()).typed("U64")),
         ],
         (),
      )
      .typed("U64")],
   );
   let c = compile_program(&import(), &p);
   let ops = c.main.ops();
   assert_eq!(ops.iter().filter(|o| matches!(o, Op::Trap(TrapKind::UnreachableCodeReached))).count(), 1);
   assert!(ops.iter().any(|o| matches!(o, Op::AppendBlockParam(_, MachineType::I64))));
   assert!(ops.iter().any(|o| matches!(o, Op::CompareImm(IntCond::Equal, _, 1))));
   assert_eq!(ops.iter().filter(|o| matches!(o, Op::Jump(_, args) if args.len() == 1)).count(), 2);
}

#[test]
fn unknown_types_are_refused() {
   let p: Program<()> = Program::program(vec![], vec![Expression::variable(0, ()).typed("Foo")]);
   match try_compile_program(&import(), &p) {
      Err(m) => assert_eq!(m, "not supported by the compiler: type_by_name(Foo)"),
      Ok(_) => panic!("expected an error"),
   }
}

#[test]
fn top_level_variables_are_loaded_from_the_arguments() {
   let p: Program<()> = Program::program(vec![], vec![Expression::variable(2, ()), Expression::variable(2, ())]);
   let c = compile_program(&import(), &p);
   let ops = c.main.ops();
   assert_eq!(ops[3], Op::DeclareVar(2, MachineType::I128));
   assert_eq!(ops[4], Op::Load(MachineType::I128, r(1, 0), 32));
   assert_eq!(ops[5], Op::DefVar(2, r(4, 0)));
   assert_eq!(ops.iter().filter(|o| matches!(o, Op::Load(..))).count(), 1);
}

#[test]
fn functions_are_not_compiled_until_referenced() {
   let unused: FunctionDefinition<()> = FunctionDefinition::define("unused", vec![], vec![Expression::failure(())]);
   let f: FunctionDefinition<()> = FunctionDefinition::define("f", vec![(0, Type::nominal("U64"))], vec![Expression::variable(0, ()).typed("U64")]);
   let g: FunctionDefinition<()> = FunctionDefinition::define("g", vec![(0, Type::nominal("U64"))], vec![Expression::apply("f", vec![Expression::variable(0, ()).typed("U64")], ()).typed("U64")]);
   let p: Program<()> = Program::program(vec![unused, f, g], vec![Expression::apply("g", vec![Expression::unary(b"1", ()).typed("U64")], ()).typed("U64")]);
   let c = compile_program(&import(), &p);
   let names: Vec<&str> = c.functions.iter().map(|(n, _)| n.as_str()).collect();
   assert_eq!(names, vec!["f", "g"]);
}

#[test]
fn known_functions_split_wide_arguments() {
   let lib = import();
   let mut em = Emitter::new();
   let b0 = em.emit(Op::CreateBlock);
   let t = em.value(Op::Iconst(MachineType::I64, 5));
   let args = vec![(JExpr { block: b0, value: t }, JType { name: "Tuple".to_string(), jtype: MachineType::I128 })];
   let (je, jt) = check_hardcoded_call(&lib, &mut em, b0, &".length:(Tuple)->U64".to_string(), &args).unwrap();
   assert_eq!(em.len(), 4);
   assert_eq!(em.ops()[2], Op::Isplit(t));
   assert_eq!(em.ops()[3], Op::Call(".length:(Tuple)->U64".to_string(), vec![r(2, 0), r(2, 1)]));
   assert_eq!(je.value, r(3, 0));
   assert_eq!(je.block, b0);
   assert_eq!(jt.name, "U64");
   assert!(check_hardcoded_call(&lib, &mut em, b0, &"nope".to_string(), &args).is_none());
   assert_eq!(em.len(), 4);
}

#[test]
fn arguments_are_converted_before_the_call() {
   let lib = import();
   let p: Program<()> = Program::program(vec![], vec![]);
   let mut em = Emitter::new();
   let b0 = em.emit(Op::CreateBlock);
   let a = em.value(Op::Iconst(MachineType::I64, 5));
   let b = em.value(Op::Iconst(MachineType::I64, 6));
   let args = vec![
      (JExpr { block: b0, value: a }, JType { name: "U64".to_string(), jtype: MachineType::I64 }),
      (JExpr { block: b0, value: b }, JType { name: "Value".to_string(), jtype: MachineType::I128 }),
   ];
   let (je, jt) = apply_fn(&lib, &p, &mut em, b0, &"+:(U64,U64)->U64".to_string(), args).unwrap();
   assert_eq!(jt.name, "U64");
   assert_eq!(em.ops()[3], Op::Isplit(b));
   assert_eq!(em.ops()[6], Op::Trapz(r(5, 0), TrapKind::BadConversionToInteger));
   assert_eq!(em.ops()[7], Op::Iadd(a, r(3, 0)));
   assert_eq!(je.value, r(7, 0));
   assert_eq!(em.len(), 8);
}

#[test]
fn entry_and_functions_return_their_last_values() {
   let f: FunctionDefinition<()> = FunctionDefinition::define("f", vec![(0, Type::nominal("Value"))], vec![Expression::variable(0, ()).typed("Value")]);
   let p: Program<()> = Program::program(vec![f], vec![Expression::apply("f", vec![Expression::unary(b"3", ()).typed("Value")], ()).typed("Value")]);
   let c = compile_program(&import(), &p);
   let ops = c.main.ops();
   let n = ops.len();
   assert_eq!(ops[n - 1], Op::SealBlock(0));
   assert_eq!(ops[n - 2], Op::Return(vec![r(n - 3, 0), r(n - 3, 1)]));
   assert!(matches!(ops[n - 3], Op::Isplit(_)));
   let fops = c.functions[0].1.ops();
   let m = fops.len();
   assert_eq!(fops[m - 3], Op::Isplit(r(m - 4, 0)));
   assert_eq!(fops[m - 2], Op::Return(vec![r(m - 3, 0), r(m - 3, 1)]));
   assert!(matches!(fops[m - 4], Op::UseVar(0)));
}

#[test]
fn parameters_are_bound_to_their_own_block_parameters() {
   let f: FunctionDefinition<()> = FunctionDefinition::define(
      "f",
      vec![(0, Type::nominal("U64")), (1, Type::nominal("String")), (2, Type::nominal("U64"))],
      vec![Expression::variable(2, ()).typed("U64")],
   );
   let p: Program<()> = Program::program(vec![f], vec![Expression::apply("f", vec![
      Expression::unary(b"0", ()).typed("U64"),
      Expression::variable(5, ()).typed("String"),
      Expression::unary(b"0", ()).typed("U64"),
   ], ()).typed("U64")]);
   let c = match try_compile_program(&import(), &p) {
      Ok(c) => c,
      Err(m) => panic!("{}", m),
   };
   let fops = c.functions[0].1.ops();
   assert_eq!(fops[3], Op::DeclareVar(0, MachineType::I64));
   assert_eq!(fops[4], Op::DefVar(0, r(1, 0)));
   assert_eq!(fops[5], Op::DeclareVar(1, MachineType::I128));
   assert_eq!(fops[6], Op::Iconcat(r(1, 1), r(1, 2)));
   assert_eq!(fops[7], Op::DefVar(1, r(6, 0)));
   assert_eq!(fops[8], Op::DeclareVar(2, MachineType::I64));
   assert_eq!(fops[9], Op::DefVar(2, r(1, 3)));
   assert_eq!(fops[10], Op::UseVar(2));
   assert_eq!(fops[11], Op::Return(vec![r(10, 0)]));
}

#[test]
fn a_constant_function_returns_its_number() {
   let f: FunctionDefinition<()> = FunctionDefinition::define("f", vec![(0, Type::nominal("U64"))], vec![Expression::unary(b"3", ()).typed("U64")]);
   let p: Program<()> = Program::program(vec![f], vec![Expression::apply("f", vec![Expression::unary(b"0", ()).typed("U64")], ()).typed("U64")]);
   let c = compile_program(&import(), &p);
   let fops = c.functions[0].1.ops();
   assert_eq!(fops[5], Op::Iconst(MachineType::I64, 3));
   assert_eq!(fops[6], Op::Return(vec![r(5, 0)]));
   assert_eq!(fops[7], Op::SealBlock(0));
}

#[test]
fn subtraction_of_two_parameters_is_one_instruction() {
   let f: FunctionDefinition<()> = FunctionDefinition::define(
      "f",
      vec![(0, Type::nominal("U64")), (1, Type::nominal("U64"))],
      vec![Expression::apply("-:(U64,U64)->U64", vec![
         Expression::variable(0, ()).typed("U64"),
         Expression::variable(1, ()).typed("U64"),
      ], ()).typed("U64")],
   );
   let p: Program<()> = Program::program(vec![f], vec![Expression::apply("f", vec![
      Expression::unary(b"5", ()).typed("U64"),
      Expression::unary(b"2", ()).typed("U64"),
   ], ()).typed("U64")]);
   let c = compile_program(&import(), &p);
   let fops = c.functions[0].1.ops();
   assert_eq!(fops[6], Op::DefVar(1, r(1, 1)));
   assert_eq!(fops[7], Op::UseVar(0));
   assert_eq!(fops[8], Op::UseVar(1));
   assert_eq!(fops[9], Op::Isub(r(7, 0), r(8, 0)));
   assert_eq!(fops[10], Op::Return(vec![r(9, 0)]));
}

#[test]
fn nested_arithmetic_is_compiled_in_order() {
   let f: FunctionDefinition<()> = FunctionDefinition::define(
      "f",
      vec![(0, Type::nominal("U64")), (1, Type::nominal("U64"))],
      vec![Expression::apply("*:(U64,U64)->U64", vec![
         Expression::apply("-:(U64,U64)->U64", vec![
            Expression::variable(0, ()).typed("U64"),
            Expression::variable(1, ()).typed("U64"),
         ], ()).typed("U64"),
         Expression::unary(b"7", ()).typed("U64"),
      ], ()).typed("U64")],
   );
   let p: Program<()> = Program::program(vec![f], vec![Expression::apply("f", vec![
      Expression::unary(b"5", ()).typed("U64"),
      Expression::unary(b"2", ()).typed("U64"),
   ], ()).typed("U64")]);
   let c = compile_program(&import(), &p);
   let fops = c.functions[0].1.ops();
   assert_eq!(fops[7], Op::UseVar(0));
   assert_eq!(fops[8], Op::UseVar(1));
   assert_eq!(fops[9], Op::Isub(r(7, 0), r(8, 0)));
   assert_eq!(fops[10], Op::Iconst(MachineType::I64, 7));
   assert_eq!(fops[11], Op::Imul(r(9, 0), r(10, 0)));
   assert_eq!(fops[12], Op::Return(vec![r(11, 0)]));
}
