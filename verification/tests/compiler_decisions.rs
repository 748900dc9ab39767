use l1_ir::ast::{Expression, FunctionDefinition, Type};
use l1_ir::opt::{cast_plan, function_parameters, function_return, jtype_by_name, parse_u64, tag_high_word, type_by_name, CastPlan, MachineType};
use l1_ir::value::Tag;

#[test]
fn machine_types() {
   assert_eq!(type_by_name(&Type::nominal("U8")), MachineType::I8);
   assert_eq!(type_by_name(&Type::nominal("U64")), MachineType::I64);
   assert_eq!(type_by_name(&Type::nominal("Tuple")), MachineType::I128);
   assert_eq!(type_by_name(&Type::default()), MachineType::I128);
   let j = jtype_by_name(&Type::default());
   assert_eq!(j.name, "Value");
   assert_eq!(j.jtype, MachineType::I128);
   let f: FunctionDefinition<()> = FunctionDefinition::define(
      "f",
      vec![(0, Type::nominal("U64")), (1, Type::nominal("U8"))],
      vec![Expression::variable(0, ()).typed("U64")],
   );
   assert_eq!(function_parameters(&f), vec![MachineType::I64, MachineType::I8]);
   assert_eq!(function_return(&f), MachineType::I64);
}

#[test]
fn cast_plans() {
   assert_eq!(cast_plan("U64", "U64"), Some(CastPlan::Keep));
   assert_eq!(cast_plan("Value", "U64"), Some(CastPlan::CheckU64));
   assert_eq!(cast_plan("U64", "Value"), Some(CastPlan::TagU64));
   assert_eq!(cast_plan("U8", "Value"), Some(CastPlan::TagU8));
   assert_eq!(cast_plan("Tuple", "Value"), Some(CastPlan::Keep));
   assert_eq!(cast_plan("Value", "String"), Some(CastPlan::Keep));
   assert_eq!(cast_plan("U8", "U64"), None);
}

#[test]
fn tag_words_and_numbers() {
   assert_eq!(tag_high_word(Tag::U64), 47 << 48);
   assert_eq!(tag_high_word(Tag::U8), 14 << 48);
   assert_eq!(parse_u64("123"), Some(123));
   assert_eq!(parse_u64("+7"), Some(7));
   assert_eq!(parse_u64("18446744073709551615"), Some(u64::MAX));
   assert_eq!(parse_u64("18446744073709551616"), None);
   assert_eq!(parse_u64(""), None);
   assert_eq!(parse_u64("+"), None);
   assert_eq!(parse_u64("1a"), None);
   assert_eq!(parse_u64("-1"), None);
}
