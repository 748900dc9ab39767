//! The compiler to machine code. It decides which machine type holds a value
//! of a given type and how values are converted between representations, and
//! turns a program into lists of instructions for a code generator (`Op`):
//! one for the entry point and one for each function. `expr_typing` and its
//! companions state exactly which programs it accepts and the type of each
//! compiled value; every list refers only to values and blocks defined before
//! their use.

use std::collections::HashMap;
use vstd::prelude::*;
use crate::ast::{Type, FunctionDefinition, Program, Expression, LHSPart, LHSLiteralPart, LIPart, TIPart, Value as AstValue, expr_type, opt_str, type_nom, expr_vars, expr_list_vars};
use crate::value::{Tag, tag_code, lemma_tag_code, packed};
use crate::text::{str_chars, push_chars, push_decimal, chars_to_string, decimal_chars};
use crate::eval::{find_function, lookup_fn};
use crate::recipes::cranelift::{FFI, Emission, lib_ok};

verus! {

/// The machine types that compiled code keeps values in.
#[derive(Clone, Copy, Debug, PartialEq, Eq, Structural)]
pub enum MachineType {
    /// 8-bit integers.
    I8,
    /// 32-bit integers.
    I32,
    /// 64-bit integers.
    I64,
    /// 128-bit packed values.
    I128,
}

/// The machine type for values of the named type; `None` for names the
/// compiler does not know. Unnamed types are packed values.
pub open spec fn machine_type_of(name: Option<Seq<char>>) -> Option<MachineType> {
    match name {
        None => Some(MachineType::I128),
        Some(n) => if n == "U8"@ {
            Some(MachineType::I8)
        } else if n == "U64"@ {
            Some(MachineType::I64)
        } else if n == "String"@ || n == "Tuple"@ || n == "Value"@ {
            Some(MachineType::I128)
        } else {
            None
        },
    }
}

/// Whether the string `s` is `lit`.
pub(crate) fn is_str(s: &str, lit: &str) -> (res: bool)
    ensures
        res == (s@ == lit@),
{
    s.to_string() == lit.to_string()
}

/// The machine type for values of type `tn`.
pub fn type_by_name(tn: &Type) -> (res: MachineType)
    requires
        machine_type_of(opt_str(tn.name)) is Some,
    ensures
        machine_type_of(opt_str(tn.name)) == Some(res),
{
    match &tn.name {
        None => MachineType::I128,
        Some(n) => {
            if is_str(n.as_str(), "U8") {
                MachineType::I8
            } else if is_str(n.as_str(), "U64") {
                MachineType::I64
            } else {
                MachineType::I128
            }
        },
    }
}

/// A type as the compiler tracks it: its name and its machine type.
pub struct JType {
    pub name: String,
    pub jtype: MachineType,
}

/// The machine types of the type names the compiler knows.
pub proof fn lemma_type_names()
    ensures
        machine_type_of(Some("U8"@)) == Some(MachineType::I8),
        machine_type_of(Some("U64"@)) == Some(MachineType::I64),
        machine_type_of(Some("String"@)) == Some(MachineType::I128),
        machine_type_of(Some("Tuple"@)) == Some(MachineType::I128),
        machine_type_of(Some("Value"@)) == Some(MachineType::I128),
{
    reveal_strlit("U8");
    reveal_strlit("U64");
    reveal_strlit("String");
    reveal_strlit("Tuple");
    reveal_strlit("Value");
    assert("U8"@.len() == 2);
    assert("U64"@.len() == 3);
    assert("String"@.len() == 6);
    assert("Tuple"@.len() == 5);
    assert("Value"@.len() == 5);
}

/// The machine type of a tracked type is that of the type it names.
pub open spec fn jtype_ok(j: JType) -> bool {
    machine_type_of(Some(j.name@)) == Some(j.jtype)
}

/// The compiler's view of type `tn`: its name (`Value` when it has none)
/// and its machine type.
pub fn jtype_by_name(tn: &Type) -> (res: JType)
    requires
        machine_type_of(opt_str(tn.name)) is Some,
    ensures
        res.name@ == match tn.name {
            Some(n) => n@,
            None => "Value"@,
        },
        machine_type_of(opt_str(tn.name)) == Some(res.jtype),
{
    let jtype = type_by_name(tn);
    let name = match &tn.name {
        Some(n) => n.clone(),
        None => "Value".to_string(),
    };
    JType { name, jtype }
}

/// The machine types of the parameters of `fd`, in order.
pub fn function_parameters<S>(fd: &FunctionDefinition<S>) -> (res: Vec<MachineType>)
    requires
        forall|i: int| 0 <= i < fd.args@.len() ==> machine_type_of(opt_str(#[trigger] fd.args@[i].1.name)) is Some,
    ensures
        res@.len() == fd.args@.len(),
        forall|i: int| 0 <= i < fd.args@.len() ==> machine_type_of(opt_str(fd.args@[i].1.name)) == Some(#[trigger] res@[i]),
{
    let mut out: Vec<MachineType> = Vec::new();
    let mut k: usize = 0;
    while k < fd.args.len()
        invariant
            k <= fd.args@.len(),
            out@.len() == k,
            forall|i: int| 0 <= i < fd.args@.len() ==> machine_type_of(opt_str(#[trigger] fd.args@[i].1.name)) is Some,
            forall|i: int| 0 <= i < k ==> machine_type_of(opt_str(fd.args@[i].1.name)) == Some(#[trigger] out@[i]),
        decreases fd.args@.len() - k,
    {
        out.push(type_by_name(&fd.args[k].1));
        k = k + 1;
    }
    out
}

/// The machine type of what `fd` returns: that of its last expression.
pub fn function_return<S>(fd: &FunctionDefinition<S>) -> (res: MachineType)
    requires
        fd.body@.len() > 0,
        machine_type_of(opt_str(expr_type(fd.body@[fd.body@.len() - 1]).name)) is Some,
    ensures
        machine_type_of(opt_str(expr_type(fd.body@[fd.body@.len() - 1]).name)) == Some(res),
{
    let t = fd.body[fd.body.len() - 1].typ();
    assert(opt_str(t.name) == opt_str(expr_type(fd.body@[fd.body@.len() - 1]).name));
    type_by_name(&t)
}

/// How compiled code turns a value of one type into another.
#[derive(Clone, Copy, Debug, PartialEq, Eq, Structural)]
pub enum CastPlan {
    /// The representation is the same.
    Keep,
    /// A packed value to a 64-bit number: trap unless its tag is `U64`,
    /// then take the low half.
    CheckU64,
    /// A 64-bit number to a packed value: the high half is the `U64` tag word.
    TagU64,
    /// An 8-bit number to a packed value: widened, with the `U8` tag word.
    TagU8,
}

/// The conversion from type `ot` to type `nt`; `None` where there is none.
pub open spec fn cast_plan_spec(ot: Seq<char>, nt: Seq<char>) -> Option<CastPlan> {
    if ot == nt {
        Some(CastPlan::Keep)
    } else if ot == "Value"@ && nt == "U64"@ {
        Some(CastPlan::CheckU64)
    } else if ot == "U64"@ && nt == "Value"@ {
        Some(CastPlan::TagU64)
    } else if ot == "U8"@ && nt == "Value"@ {
        Some(CastPlan::TagU8)
    } else if (ot == "String"@ || ot == "Tuple"@) && nt == "Value"@ {
        Some(CastPlan::Keep)
    } else if ot == "Value"@ && (nt == "String"@ || nt == "Tuple"@) {
        Some(CastPlan::Keep)
    } else {
        None
    }
}

/// The conversion from type `ot` to type `nt`, as `cast_plan_spec` states it.
pub fn cast_plan(ot: &str, nt: &str) -> (res: Option<CastPlan>)
    ensures
        res == cast_plan_spec(ot@, nt@),
{
    if is_str(ot, nt) {
        Some(CastPlan::Keep)
    } else if is_str(ot, "Value") && is_str(nt, "U64") {
        Some(CastPlan::CheckU64)
    } else if is_str(ot, "U64") && is_str(nt, "Value") {
        Some(CastPlan::TagU64)
    } else if is_str(ot, "U8") && is_str(nt, "Value") {
        Some(CastPlan::TagU8)
    } else if (is_str(ot, "String") || is_str(ot, "Tuple")) && is_str(nt, "Value") {
        Some(CastPlan::Keep)
    } else if is_str(ot, "Value") && (is_str(nt, "String") || is_str(nt, "Tuple")) {
        Some(CastPlan::Keep)
    } else {
        None
    }
}

/// The high 64 bits of a packed value of tag `t` with no name: the tag code
/// in the top 16 bits.
pub fn tag_high_word(t: Tag) -> (res: u64)
    ensures
        res == tag_code(t) * 0x1_0000_0000_0000,
{
    proof {
        crate::value::lemma_tag_code(t);
    }
    (t.code() as u64) * 0x1_0000_0000_0000
}

/// The number that a string of ASCII decimal digits spells, with an
/// optional `+` in front.
pub open spec fn decimal_value(cs: Seq<char>) -> int
    decreases cs.len(),
{
    if cs.len() == 0 {
        0
    } else {
        10 * decimal_value(cs.drop_last()) + (cs.last() as int - '0' as int)
    }
}

/// All characters are ASCII decimal digits, and there is at least one.
pub open spec fn all_digits(cs: Seq<char>) -> bool {
    cs.len() > 0 && forall|i: int| 0 <= i < cs.len() ==> '0' <= #[trigger] cs[i] <= '9'
}

/// The digits of a number text: without its leading `+`, if any.
pub open spec fn unsigned_digits(cs: Seq<char>) -> Seq<char> {
    if cs.len() > 0 && cs[0] == '+' {
        cs.drop_first()
    } else {
        cs
    }
}

/// The 64-bit number that decimal text spells, as `str::parse::<u64>` reads
/// it: an optional `+`, then at least one digit, and a value that fits.
pub open spec fn parse_u64_spec(cs: Seq<char>) -> Option<u64> {
    if all_digits(unsigned_digits(cs)) && decimal_value(unsigned_digits(cs)) <= u64::MAX {
        Some(decimal_value(unsigned_digits(cs)) as u64)
    } else {
        None
    }
}

/// A 64-bit number parsed from decimal text, as `str::parse::<u64>` reads
/// it: an optional `+`, then at least one digit, and a value that fits.
pub fn parse_u64(s: &str) -> (res: Option<u64>)
    ensures
        res is Some <==> all_digits(unsigned_digits(s@)) && decimal_value(unsigned_digits(s@)) <= u64::MAX,
        res is Some ==> res->Some_0 == decimal_value(unsigned_digits(s@)),
        res == parse_u64_spec(s@),
{
    let cs = str_chars(s);
    let mut k: usize = 0;
    if cs.len() > 0 && cs[0] == '+' {
        k = 1;
    }
    let ghost ds = unsigned_digits(s@);
    assert(ds =~= cs@.subrange(k as int, cs@.len() as int));
    if k == cs.len() {
        return None;
    }
    let k0 = k;
    let mut v: u64 = 0;
    let mut fits = true;
    while k < cs.len()
        invariant
            k0 <= k <= cs@.len(),
            k0 < cs@.len(),
            ds == cs@.subrange(k0 as int, cs@.len() as int),
            ds == unsigned_digits(s@),
            forall|i: int| k0 <= i < k ==> '0' <= #[trigger] cs@[i] <= '9',
            fits ==> v == decimal_value(cs@.subrange(k0 as int, k as int)),
            !fits ==> decimal_value(cs@.subrange(k0 as int, k as int)) > u64::MAX,
            decimal_value(cs@.subrange(k0 as int, k as int)) >= 0,
        decreases cs@.len() - k,
    {
        let c = cs[k];
        if !('0' <= c && c <= '9') {
            assert(ds[k - k0] == c);
            return None;
        }
        let d = (c as u32 - '0' as u32) as u64;
        proof {
            assert(cs@.subrange(k0 as int, k + 1).drop_last() =~= cs@.subrange(k0 as int, k as int));
        }
        if fits {
            if v > (u64::MAX - d) / 10 {
                fits = false;
            } else {
                v = v * 10 + d;
            }
        }
        k = k + 1;
    }
    if fits {
        Some(v)
    } else {
        None
    }
}


// ---------------------------------------------------------------------------
// Emitted code.

/// A value computed by emitted code: result `k` of instruction `op`.
#[derive(Clone, Copy, Debug, PartialEq, Eq, Structural)]
pub struct ValueRef {
    pub op: usize,
    pub k: usize,
}

/// Integer comparisons.
#[derive(Clone, Copy, Debug, PartialEq, Eq, Structural)]
pub enum IntCond {
    Equal,
    NotEqual,
    UnsignedLessThan,
    UnsignedLessThanOrEqual,
    UnsignedGreaterThan,
    UnsignedGreaterThanOrEqual,
}

/// Why emitted code traps.
#[derive(Clone, Copy, Debug, PartialEq, Eq, Structural)]
pub enum TrapKind {
    BadConversionToInteger,
    UnreachableCodeReached,
}

/// One instruction for the code generator. Blocks are named by the
/// position of the instruction that creates them, values by the position
/// of the instruction that computes them and the index of the result.
#[derive(Debug, PartialEq)]
pub enum Op {
    /// A new block.
    CreateBlock,
    /// A new parameter of type `1` for block `0`; its value is result 0.
    AppendBlockParam(usize, MachineType),
    /// Parameters for block `0` matching the function's signature; they are
    /// the results, in order.
    FunctionParams(usize),
    SwitchToBlock(usize),
    SealBlock(usize),
    /// Variable `0` holds values of type `1`.
    DeclareVar(usize, MachineType),
    DefVar(usize, ValueRef),
    /// The current value of variable `0`; result 0.
    UseVar(usize),
    Iconst(MachineType, i64),
    Iadd(ValueRef, ValueRef),
    Isub(ValueRef, ValueRef),
    Imul(ValueRef, ValueRef),
    Udiv(ValueRef, ValueRef),
    Urem(ValueRef, ValueRef),
    Bor(ValueRef, ValueRef),
    IaddImm(ValueRef, i64),
    UshrImm(ValueRef, i64),
    Compare(IntCond, ValueRef, ValueRef),
    CompareImm(IntCond, ValueRef, i64),
    Uextend(MachineType, ValueRef),
    Iconcat(ValueRef, ValueRef),
    /// The low and high halves of a 128-bit value: results 0 and 1.
    Isplit(ValueRef),
    Trapz(ValueRef, TrapKind),
    Trap(TrapKind),
    Brnz(ValueRef, usize, Vec<ValueRef>),
    Brz(ValueRef, usize, Vec<ValueRef>),
    Jump(usize, Vec<ValueRef>),
    Return(Vec<ValueRef>),
    Load(MachineType, ValueRef, i32),
    /// A call of the named function; its results are those of its signature.
    Call(String, Vec<ValueRef>),
}

/// The instructions emitted so far.
pub struct Emitter {
    ops: Vec<Op>,
}

impl View for Emitter {
    type V = Seq<Op>;

    /// The instructions emitted so far.
    closed spec fn view(&self) -> Seq<Op> {
        self.ops@
    }
}

/// The value `v` is computed before position `n`.
pub open spec fn ref_ok(v: ValueRef, n: int) -> bool {
    v.op < n
}

/// The values `vs` are all computed before position `n`.
pub open spec fn refs_ok(vs: Seq<ValueRef>, n: int) -> bool {
    forall|i: int| 0 <= i < vs.len() ==> ref_ok(#[trigger] vs[i], n)
}

/// The instruction `op`, at position `n`, refers only to values and blocks
/// defined before it.
pub open spec fn op_ok(op: Op, n: int) -> bool {
    match op {
        Op::CreateBlock => true,
        Op::AppendBlockParam(b, _) => b < n,
        Op::FunctionParams(b) => b < n,
        Op::SwitchToBlock(b) => b < n,
        Op::SealBlock(b) => b < n,
        Op::DeclareVar(_, _) => true,
        Op::DefVar(_, v) => ref_ok(v, n),
        Op::UseVar(_) => true,
        Op::Iconst(_, _) => true,
        Op::Iadd(a, b) => ref_ok(a, n) && ref_ok(b, n),
        Op::Isub(a, b) => ref_ok(a, n) && ref_ok(b, n),
        Op::Imul(a, b) => ref_ok(a, n) && ref_ok(b, n),
        Op::Udiv(a, b) => ref_ok(a, n) && ref_ok(b, n),
        Op::Urem(a, b) => ref_ok(a, n) && ref_ok(b, n),
        Op::Bor(a, b) => ref_ok(a, n) && ref_ok(b, n),
        Op::IaddImm(a, _) => ref_ok(a, n),
        Op::UshrImm(a, _) => ref_ok(a, n),
        Op::Compare(_, a, b) => ref_ok(a, n) && ref_ok(b, n),
        Op::CompareImm(_, a, _) => ref_ok(a, n),
        Op::Uextend(_, a) => ref_ok(a, n),
        Op::Iconcat(a, b) => ref_ok(a, n) && ref_ok(b, n),
        Op::Isplit(a) => ref_ok(a, n),
        Op::Trapz(a, _) => ref_ok(a, n),
        Op::Trap(_) => true,
        Op::Brnz(a, b, args) => ref_ok(a, n) && b < n && refs_ok(args@, n),
        Op::Brz(a, b, args) => ref_ok(a, n) && b < n && refs_ok(args@, n),
        Op::Jump(b, args) => b < n && refs_ok(args@, n),
        Op::Return(vs) => refs_ok(vs@, n),
        Op::Load(_, a, _) => ref_ok(a, n),
        Op::Call(_, args) => refs_ok(args@, n),
    }
}

/// Every instruction refers only to values and blocks defined before it.
pub open spec fn ops_ok(ops: Seq<Op>) -> bool {
    forall|i: int| 0 <= i < ops.len() ==> op_ok(#[trigger] ops[i], i)
}

/// The emitter grew from `old` to `new`: `old` is a prefix of `new`, so
/// what was emitted stays as it was.
pub open spec fn grew(old: Seq<Op>, new: Seq<Op>) -> bool {
    &&& old.len() <= new.len()
    &&& forall|i: int| 0 <= i < old.len() ==> #[trigger] new[i] == old[i]
}

impl Emitter {
    /// Every instruction refers only to what is defined before it.
    #[verifier::type_invariant]
    spec fn well_formed(self) -> bool {
        ops_ok(self.ops@)
    }

    /// No instructions.
    pub fn new() -> (res: Emitter)
        ensures
            res@.len() == 0,
    {
        Emitter { ops: Vec::new() }
    }

    /// The number of instructions emitted so far.
    pub fn len(&self) -> (res: usize)
        ensures
            res == self@.len(),
    {
        self.ops.len()
    }

    /// The instructions emitted so far; each refers only to what is defined
    /// before it.
    pub fn ops(&self) -> (res: &Vec<Op>)
        ensures
            res@ == self@,
            ops_ok(res@),
    {
        proof {
            use_type_invariant(self);
        }
        &self.ops
    }

    /// Appends `op`; its position names what it defines. What was emitted
    /// before stays as it was.
    pub fn emit(&mut self, op: Op) -> (res: usize)
        requires
            op_ok(op, old(self)@.len() as int),
        ensures
            final(self)@ == old(self)@.push(op),
            res == old(self)@.len(),
    {
        proof {
            use_type_invariant(&*self);
        }
        let mut ops: Vec<Op> = Vec::new();
        std::mem::swap(&mut ops, &mut self.ops);
        let n = ops.len();
        let ghost prev = ops@;
        ops.push(op);
        assert forall|i: int| 0 <= i < ops@.len() implies op_ok(#[trigger] ops@[i], i) by {
            if i < n {
                assert(ops@[i] == prev[i]);
            }
        }
        self.ops = ops;
        n
    }

    /// Appends `op` and names its first result.
    pub fn value(&mut self, op: Op) -> (res: ValueRef)
        requires
            op_ok(op, old(self)@.len() as int),
        ensures
            final(self)@ == old(self)@.push(op),
            res == (ValueRef { op: old(self)@.len() as usize, k: 0 }),
    {
        let n = self.emit(op);
        ValueRef { op: n, k: 0 }
    }
}

/// The message `a` + `b` + `c`.
fn message(a: &str, b: &str, c: &str) -> (res: String)
    ensures
        res@ == a@ + b@ + c@,
{
    let mut out: Vec<char> = Vec::new();
    push_chars(&mut out, &str_chars(a));
    push_chars(&mut out, &str_chars(b));
    push_chars(&mut out, &str_chars(c));
    assert(out@ =~= a@ + b@ + c@);
    chars_to_string(&out)
}

/// The message `a` + the decimal digits of `n` + `b`.
fn numbered(a: &str, n: usize, b: &str) -> (res: String)
    ensures
        res@ == a@ + decimal_chars(n as nat) + b@,
{
    let mut out: Vec<char> = Vec::new();
    push_chars(&mut out, &str_chars(a));
    push_decimal(&mut out, n as u128);
    push_chars(&mut out, &str_chars(b));
    assert(out@ =~= a@ + decimal_chars(n as nat) + b@);
    chars_to_string(&out)
}

/// The 64-bit word holding the code of `t` in its top 16 bits, as emitted.
pub open spec fn tag_word(t: Tag) -> i64 {
    (tag_code(t) * 0x1_0000_0000_0000) as i64
}

/// The instructions that convert `v` from `ot` to `nt`, after `n` others.
pub open spec fn cast_ops(plan: CastPlan, v: ValueRef, n: usize) -> Seq<Op> {
    match plan {
        CastPlan::Keep => Seq::empty(),
        CastPlan::CheckU64 => seq![
            Op::Isplit(v),
            Op::UshrImm(ValueRef { op: n, k: 1 }, 48),
            Op::CompareImm(IntCond::Equal, ValueRef { op: (n + 1) as usize, k: 0 }, tag_code(Tag::U64) as i64),
            Op::Trapz(ValueRef { op: (n + 2) as usize, k: 0 }, TrapKind::BadConversionToInteger),
        ],
        CastPlan::TagU64 => seq![
            Op::Iconst(MachineType::I64, tag_word(Tag::U64)),
            Op::Iconcat(v, ValueRef { op: n, k: 0 }),
        ],
        CastPlan::TagU8 => seq![
            Op::Uextend(MachineType::I64, v),
            Op::Iconst(MachineType::I64, tag_word(Tag::U8)),
            Op::Iconcat(ValueRef { op: n, k: 0 }, ValueRef { op: (n + 1) as usize, k: 0 }),
        ],
    }
}

/// The value that the conversion gives, after `n` other instructions.
pub open spec fn cast_result(plan: CastPlan, v: ValueRef, n: usize) -> ValueRef {
    match plan {
        CastPlan::Keep => v,
        CastPlan::CheckU64 => ValueRef { op: n, k: 0 },
        CastPlan::TagU64 => ValueRef { op: (n + 1) as usize, k: 0 },
        CastPlan::TagU8 => ValueRef { op: (n + 2) as usize, k: 0 },
    }
}

/// Emits the conversion of `v` from type `ot` to type `nt`: nothing for
/// the same representation; for a packed value to a 64-bit number, a trap
/// unless the tag is `U64`, then the low half; for a number to a packed
/// value, the tag word as the high half. There must be a conversion.
pub fn type_cast(em: &mut Emitter, ot: &str, nt: &str, v: ValueRef) -> (res: ValueRef)
    requires
        ref_ok(v, old(em)@.len() as int),
        cast_plan_spec(ot@, nt@) is Some,
    ensures
        ref_ok(res, final(em)@.len() as int),
        final(em)@ == old(em)@ + cast_ops(cast_plan_spec(ot@, nt@)->0, v, old(em)@.len() as usize),
        res == cast_result(cast_plan_spec(ot@, nt@)->0, v, old(em)@.len() as usize),
{
    let n = em.len();
    proof {
        lemma_tag_code(Tag::U64);
        lemma_tag_code(Tag::U8);
    }
    match cast_plan(ot, nt) {
        Some(CastPlan::Keep) => {
            assert(em@ =~= old(em)@ + Seq::<Op>::empty());
            v
        },
        Some(CastPlan::CheckU64) => {
            let s = em.emit(Op::Isplit(v));
            let high16 = em.value(Op::UshrImm(ValueRef { op: s, k: 1 }, 48));
            let aeq = em.value(Op::CompareImm(IntCond::Equal, high16, Tag::U64.code() as i64));
            em.emit(Op::Trapz(aeq, TrapKind::BadConversionToInteger));
            assert(em@ =~= old(em)@ + cast_ops(CastPlan::CheckU64, v, n));
            ValueRef { op: s, k: 0 }
        },
        Some(CastPlan::TagU64) => {
            let high64 = em.value(Op::Iconst(MachineType::I64, tag_high_word(Tag::U64) as i64));
            let r = em.value(Op::Iconcat(v, high64));
            assert(em@ =~= old(em)@ + cast_ops(CastPlan::TagU64, v, n));
            r
        },
        Some(CastPlan::TagU8) => {
            let low64 = em.value(Op::Uextend(MachineType::I64, v));
            let high64 = em.value(Op::Iconst(MachineType::I64, tag_high_word(Tag::U8) as i64));
            let r = em.value(Op::Iconcat(low64, high64));
            assert(em@ =~= old(em)@ + cast_ops(CastPlan::TagU8, v, n));
            r
        },
        None => v,
    }
}

/// Emits the conversion of `v` from type `ot` to type `nt` where there is
/// one; the error `Could not cast ..` where there is none, with nothing
/// emitted.
fn checked_cast(em: &mut Emitter, ot: &str, nt: &str, v: ValueRef) -> (res: Result<ValueRef, String>)
    requires
        ref_ok(v, old(em)@.len() as int),
    ensures
        res matches Ok(r) ==> ref_ok(r, final(em)@.len() as int),
        match cast_plan_spec(ot@, nt@) {
            Some(plan) => {
                &&& final(em)@ == old(em)@ + cast_ops(plan, v, old(em)@.len() as usize)
                &&& res == Ok::<ValueRef, String>(cast_result(plan, v, old(em)@.len() as usize))
            },
            None => {
                &&& final(em)@ == old(em)@
                &&& res matches Err(m) && m@ == "Could not cast "@ + ot@ + " as "@ + nt@
            },
        },
{
    match cast_plan(ot, nt) {
        Some(_) => Ok(type_cast(em, ot, nt, v)),
        None => {
            let tail = message(" as ", nt, "");
            proof {
                reveal_strlit("");
                assert(tail@ =~= " as "@ + nt@);
            }
            let m = message("Could not cast ", ot, tail.as_str());
            assert(m@ =~= "Could not cast "@ + ot@ + " as "@ + nt@);
            Err(m)
        },
    }
}

// ---------------------------------------------------------------------------
// The compiler.

/// A compiled expression: the block where control continues and its value.
pub struct JExpr {
    pub block: usize,
    pub value: ValueRef,
}

/// The type names of the variables compiled so far.
pub struct TypeContext {
    entries: HashMap<usize, String>,
}

impl View for TypeContext {
    type V = Map<usize, Seq<char>>;

    /// The type name of each variable that has one.
    closed spec fn view(&self) -> Map<usize, Seq<char>> {
        self.entries@.map_values(|s: String| s@)
    }
}

impl TypeContext {
    /// No variables.
    pub fn new() -> (res: TypeContext)
        ensures
            res@ == Map::<usize, Seq<char>>::empty(),
    {
        let res = TypeContext { entries: HashMap::new() };
        assert(res@ =~= Map::<usize, Seq<char>>::empty());
        res
    }

    /// Records that variable `vi` holds values of type `name`.
    pub fn insert(&mut self, vi: usize, name: String)
        ensures
            final(self)@ == old(self)@.insert(vi, name@),
    {
        broadcast use vstd::std_specs::hash::group_hash_axioms;
        self.entries.insert(vi, name);
        assert(self@ =~= old(self)@.insert(vi, name@));
    }

    /// The type name of variable `vi`, if one was recorded.
    pub fn get(&self, vi: usize) -> (res: Option<String>)
        ensures
            opt_str(res) == if self@.contains_key(vi) {
                Some(self@[vi])
            } else {
                None
            },
    {
        broadcast use vstd::std_specs::hash::group_hash_axioms;
        match self.entries.get(&vi) {
            Some(s) => Some(s.clone()),
            None => None,
        }
    }
}

/// Emits a call of `name` on `args` and names its first result.
fn call(em: &mut Emitter, name: &str, args: Vec<ValueRef>) -> (res: ValueRef)
    requires
        refs_ok(args@, old(em)@.len() as int),
    ensures
        grew(old(em)@, final(em)@),
        final(em)@.len() == old(em)@.len() + 1,
        final(em)@.subrange(0, old(em)@.len() as int) == old(em)@,
        final(em)@ == old(em)@.push(final(em)@[old(em)@.len() as int]),
        is_call_of(final(em)@[old(em)@.len() as int], name@, args@),
        res == (ValueRef { op: old(em)@.len() as usize, k: 0 }),
{
    let r = em.value(Op::Call(name.to_string(), args));
    assert(em@.subrange(0, old(em)@.len() as int) =~= old(em)@);
    r
}

/// Emits the 128-bit constant `v` as its two halves joined.
fn wide_constant(em: &mut Emitter, v: u128) -> (res: ValueRef)
    requires
    ensures
        grew(old(em)@, final(em)@),
        ref_ok(res, final(em)@.len() as int),
        final(em)@ == old(em)@ + wide_ops(v, old(em)@.len() as int),
        res == vr(old(em)@.len() + 2int, 0),
{
    let high = em.value(Op::Iconst(MachineType::I64, #[verifier::truncate] ((v >> 64u32) as i64)));
    let low = em.value(Op::Iconst(MachineType::I64, #[verifier::truncate] (v as i64)));
    let r = em.value(Op::Iconcat(low, high));
    assert(em@ =~= old(em)@ + wide_ops(v, old(em)@.len() as int));
    r
}

/// The type `Value`, held as a packed value.
fn value_type() -> (res: JType)
    ensures
        jtype_ok(res),
        res.name@ == "Value"@,
        res.jtype == MachineType::I128,
{
    proof {
        lemma_type_names();
    }
    JType { name: "Value".to_string(), jtype: MachineType::I128 }
}

/// The machine type for the type named `n`, or the error the compiler
/// gives for a type it does not know.
fn machine_type_named(tn: &Type) -> (res: Result<MachineType, String>)
    ensures
        res matches Ok(t) ==> machine_type_of(opt_str(tn.name)) == Some(t),
        res is Err <==> machine_type_of(opt_str(tn.name)) is None,
{
    match &tn.name {
        None => Ok(MachineType::I128),
        Some(n) => {
            if is_str(n.as_str(), "U8") {
                Ok(MachineType::I8)
            } else if is_str(n.as_str(), "U64") {
                Ok(MachineType::I64)
            } else if is_str(n.as_str(), "String") || is_str(n.as_str(), "Tuple") || is_str(n.as_str(), "Value") {
                Ok(MachineType::I128)
            } else {
                Err(message("not supported by the compiler: type_by_name(", n.as_str(), ")"))
            }
        },
    }
}

/// A 64-bit literal of the program as the machine word that holds it.
fn literal_word(cs: &str) -> (res: Result<i64, String>)
    ensures
        res is Ok <==> parse_u64_spec(cs@) is Some,
        res matches Ok(w) ==> w == parse_u64_spec(cs@)->Some_0 as i64,
{
    match parse_u64(cs) {
        Some(v) => Ok(v as i64),
        None => Err(message("U64 literal expected: ", cs, "")),
    }
}

/// A part before the middle of a literal-unpacking pattern, for a value of
/// type `typ`: literal text must be a number, and the value a 64-bit one.
pub open spec fn prefix_part_ok(part: LHSLiteralPart, typ: Seq<char>) -> bool {
    match part {
        LHSLiteralPart::Literal(cs) => typ == "U64"@ && parse_u64_spec(cs@) is Some,
        LHSLiteralPart::Variable(_) => true,
    }
}

/// Every part before the middle of a literal-unpacking pattern is accepted.
pub open spec fn prefixes_ok(pres: Seq<LHSLiteralPart>, typ: Seq<char>) -> bool {
    forall|i: int| 0 <= i < pres.len() ==> prefix_part_ok(#[trigger] pres[i], typ)
}

/// The variable types after pattern `lhs`, tested against a value of type
/// `typ`, compiles: `None` where the compiler refuses it.
pub open spec fn lhs_typing(lhs: LHSPart, typ: Seq<char>, tc: Map<usize, Seq<char>>) -> Option<Map<usize, Seq<char>>> {
    match lhs {
        LHSPart::Tuple(_) => None,
        LHSPart::Literal(lts) => if (typ == "U8"@ || typ == "U64"@) && parse_u64_spec(lts@) is Some {
            Some(tc)
        } else {
            None
        },
        LHSPart::UnpackLiteral(pres, mid, _) => if prefixes_ok(pres@, typ) {
            Some(match mid {
                Some(mi) => tc.insert(mi, typ),
                None => tc,
            })
        } else {
            None
        },
        LHSPart::Variable(vi) => Some(tc.insert(vi, typ)),
        LHSPart::Any => Some(tc),
    }
}

/// The position of the first known function named `fi`.
pub open spec fn ffi_pos(lib: Seq<FFI>, fi: Seq<char>) -> Option<int>
    decreases lib.len(),
{
    if lib.len() == 0 {
        None
    } else {
        match ffi_pos(lib.drop_last(), fi) {
            Some(k) => Some(k),
            None => if lib.last().name@ == fi {
                Some(lib.len() - 1)
            } else {
                None
            },
        }
    }
}

/// The number of machine values that arguments of machine types `ts` take:
/// two for a 128-bit value, else one.
pub open spec fn value_count(ts: Seq<MachineType>) -> int
    decreases ts.len(),
{
    if ts.len() == 0 {
        0
    } else {
        value_count(ts.drop_last()) + if ts.last() == MachineType::I128 { 2int } else { 1int }
    }
}

/// The number of machine values that emission `em` reads.
pub open spec fn emission_arity(em: Emission) -> int {
    match em {
        Emission::Call => 0,
        Emission::IsZero | Emission::Same => 1,
        _ => 2,
    }
}

/// Arguments with type names `names` fit parameters of types `targets`:
/// as many, each parameter type known, each argument convertible to it.
pub open spec fn args_fit(names: Seq<Seq<char>>, targets: Seq<Type>) -> bool {
    names.len() == targets.len() && args_fit_upto(names, targets, targets.len() as int)
}

/// The first `n` arguments fit their parameters.
pub open spec fn args_fit_upto(names: Seq<Seq<char>>, targets: Seq<Type>, n: int) -> bool {
    forall|i: int| 0 <= i < n ==> arg_fits(names[i], #[trigger] targets[i])
}

/// An argument with type name `name` fits a parameter of type `target`.
pub open spec fn arg_fits(name: Seq<char>, target: Type) -> bool {
    machine_type_of(opt_str(target.name)) is Some && cast_plan_spec(name, type_nom(target)) is Some
}

/// The machine types of the parameter types `targets` are `args`.
pub open spec fn sig_matches(targets: Seq<Type>, args: Seq<MachineType>) -> bool {
    targets.len() == args.len() && forall|i: int| 0 <= i < args.len() ==> machine_type_of(opt_str(#[trigger] targets[i].name)) == Some(args[i])
}

/// The parameter types of function definition `fd`.
pub open spec fn param_types<S>(fd: FunctionDefinition<S>) -> Seq<Type> {
    fd.args@.map_values(|a: (usize, Type)| a.1)
}

/// The type name of the result of applying `fi` to arguments with type
/// names `names`: a known function first, then the program's.
pub open spec fn apply_typing<S>(lib: Seq<FFI>, p: Program<S>, fi: Seq<char>, names: Seq<Seq<char>>) -> Option<Seq<char>> {
    match ffi_pos(lib, fi) {
        Some(k) => {
            let f = lib[k];
            if args_fit(names, f.arg_types@) && sig_matches(f.arg_types@, f.args@)
                && value_count(f.args@) >= emission_arity(f.emission) {
                Some(f.rname@)
            } else {
                None
            }
        },
        None => match lookup_fn(p.functions@, fi) {
            Some(k) => {
                let fd = p.functions@[k];
                if args_fit(names, param_types(fd)) && fd.body@.len() > 0
                    && machine_type_of(opt_str(expr_type(fd.body@[fd.body@.len() - 1]).name)) is Some {
                    Some(type_nom(expr_type(fd.body@[fd.body@.len() - 1])))
                } else {
                    None
                }
            },
            None => None,
        },
    }
}

/// The guard form `cond ? 1 => x` of a map's body.
pub open spec fn is_guarded<S>(e: Expression<S>) -> bool {
    match e {
        Expression::PatternMatch(_, arms, _, _) => arms@.len() == 1 && match arms@[0].0 {
            LHSPart::Literal(gl) => gl@ == "1"@,
            _ => false,
        },
        _ => false,
    }
}

/// A unary constant that fits in a signed 64-bit word.
pub open spec fn small_unary(v: AstValue) -> bool {
    v matches AstValue::Unary(n, _) && n@ <= i64::MAX
}

/// A literal part that is text in quotes.
pub open spec fn quoted<S>(p: LIPart<S>) -> bool {
    p matches LIPart::Literal(cs) && cs@.len() >= 2
}

/// Every part is text in quotes.
pub open spec fn all_quoted<S>(ps: Seq<LIPart<S>>) -> bool {
    forall|i: int| 0 <= i < ps.len() ==> quoted(#[trigger] ps[i])
}

/// Every value is a unary constant that fits in a signed 64-bit word.
pub open spec fn all_small(vs: Seq<AstValue>) -> bool {
    forall|i: int| 0 <= i < vs.len() ==> small_unary(#[trigger] vs[i])
}

/// The variable types after the body `x` of a map compiles with variable
/// types `tc2`: a variable, a guard `cond ? 1 => y` then `y`, or an
/// expression; `None` where it is refused.
pub open spec fn map_body_typing<S>(lib: Seq<FFI>, p: Program<S>, tc2: Map<usize, Seq<char>>, x: TIPart<S>) -> Option<Map<usize, Seq<char>>>
    decreases x, 0nat,
{
    match x {
        TIPart::Variable(_) => Some(tc2),
        TIPart::Expression(xe) => match xe {
            Expression::PatternMatch(gc, arms, _, _) => if is_guarded(xe) {
                match expr_typing(lib, p, tc2, *gc) {
                    None => None,
                    Some((_, tc3)) => match expr_typing(lib, p, tc3, arms@[0].1) {
                        None => None,
                        Some((_, tc4)) => Some(tc4),
                    },
                }
            } else {
                match expr_typing(lib, p, tc2, xe) {
                    None => None,
                    Some((_, tc3)) => Some(tc3),
                }
            },
            _ => match expr_typing(lib, p, tc2, xe) {
                None => None,
                Some((_, tc3)) => Some(tc3),
            },
        },
        _ => None,
    }
}

/// What compiling `e` with variable types `tc` gives: the type name of its
/// value and the variable types after it; `None` where the compiler
/// refuses it.
pub open spec fn expr_typing<S>(lib: Seq<FFI>, p: Program<S>, tc: Map<usize, Seq<char>>, e: Expression<S>) -> Option<(Seq<char>, Map<usize, Seq<char>>)>
    decreases e, 1nat,
{
    match e {
        Expression::FlatMap(lhs, it, x, _, _) => match expr_typing(lib, p, tc, *it) {
            None => None,
            Some((_, tc1)) => {
                let tc2 = match *lhs {
                    LHSPart::Any => Some(tc1),
                    LHSPart::Variable(vi) => Some(tc1.insert(vi, "Value"@)),
                    _ => None,
                };
                match tc2 {
                    None => None,
                    Some(tc2) => match map_body_typing(lib, p, tc2, *x) {
                        None => None,
                        Some(tc3) => Some(("Value"@, tc3)),
                    },
                }
            },
        },
        Expression::ValueIntroduction(v, tt, _) => if small_unary(v) && type_nom(tt) == "Value"@ {
            Some(("Value"@, tc))
        } else if small_unary(v) && type_nom(tt) == "U64"@ {
            Some(("U64"@, tc))
        } else {
            None
        },
        Expression::LiteralIntroduction(lis, tt, _) => if type_nom(tt) == "Unit"@ || type_nom(tt) == "Value"@ {
            Some(("Value"@, tc))
        } else if type_nom(tt) == "U64"@ {
            match lis_typing(lib, p, tc, lis@) {
                None => None,
                Some(tc1) => Some(("U64"@, tc1)),
            }
        } else if type_nom(tt) == "String"@ && all_quoted(lis@) {
            Some(("String"@, tc))
        } else {
            None
        },
        Expression::TupleIntroduction(ts, _, _) => if ts@.len() == 1 && ts@[0] is Tuple {
            if all_small(ts@[0]->Tuple_0@) {
                Some(("Value"@, tc))
            } else {
                None
            }
        } else {
            match tis_typing(lib, p, tc, ts@) {
                None => None,
                Some(tc1) => Some(("Value"@, tc1)),
            }
        },
        Expression::VariableReference(vi, tt, _) => if machine_type_of(opt_str(tt.name)) is Some && tc.contains_key(vi)
            && cast_plan_spec(tc[vi], type_nom(tt)) is Some {
            Some((type_nom(tt), tc))
        } else {
            None
        },
        Expression::FunctionReference(..) => None,
        Expression::FunctionApplication(fi, args, _, _) => match exprs_typing(lib, p, tc, args@) {
            None => None,
            Some((names, tc1)) => match apply_typing(lib, p, fi@, names) {
                None => None,
                Some(r) => Some((r, tc1)),
            },
        },
        Expression::PatternMatch(pe, arms, tt, _) => if machine_type_of(opt_str(tt.name)) is Some && arms@.len() > 0
            && machine_type_of(opt_str(expr_type(arms@[arms@.len() - 1].1).name)) is Some {
            match expr_typing(lib, p, tc, *pe) {
                None => None,
                Some((n0, tc1)) => match lhss_typing(arms@, n0, tc1) {
                    None => None,
                    Some(tc2) => match rhss_typing(lib, p, tc2, arms@) {
                        None => None,
                        Some((names, tc3)) => Some((names.last(), tc3)),
                    },
                },
            }
        } else {
            None
        },
        Expression::Failure(..) => None,
    }
}

/// The variable types after the arguments `es` compile in order, with their
/// type names; `None` where one is refused.
pub open spec fn exprs_typing<S>(lib: Seq<FFI>, p: Program<S>, tc: Map<usize, Seq<char>>, es: Seq<Expression<S>>) -> Option<(Seq<Seq<char>>, Map<usize, Seq<char>>)>
    decreases es, 0nat,
{
    if es.len() == 0 {
        Some((Seq::empty(), tc))
    } else {
        match exprs_typing(lib, p, tc, es.subrange(0, es.len() - 1)) {
            None => None,
            Some((names, tc1)) => match expr_typing(lib, p, tc1, es[es.len() - 1]) {
                None => None,
                Some((n, tc2)) => Some((names.push(n), tc2)),
            },
        }
    }
}

/// The variable types after the parts of a 64-bit literal compile in order:
/// expressions are compiled, literal text must be a number.
pub open spec fn lis_typing<S>(lib: Seq<FFI>, p: Program<S>, tc: Map<usize, Seq<char>>, ps: Seq<LIPart<S>>) -> Option<Map<usize, Seq<char>>>
    decreases ps, 0nat,
{
    if ps.len() == 0 {
        Some(tc)
    } else {
        match lis_typing(lib, p, tc, ps.subrange(0, ps.len() - 1)) {
            None => None,
            Some(tc1) => match ps[ps.len() - 1] {
                LIPart::Expression(x) => match expr_typing(lib, p, tc1, x) {
                    None => None,
                    Some((_, tc2)) => Some(tc2),
                },
                LIPart::Literal(cs) => if parse_u64_spec(cs@) is Some {
                    Some(tc1)
                } else {
                    None
                },
                LIPart::InlineVariable(_) => Some(tc1),
            },
        }
    }
}

/// The variable types after the parts of a tuple compile in order: each
/// must be an expression whose value converts to a packed value.
pub open spec fn tis_typing<S>(lib: Seq<FFI>, p: Program<S>, tc: Map<usize, Seq<char>>, ps: Seq<TIPart<S>>) -> Option<Map<usize, Seq<char>>>
    decreases ps, 0nat,
{
    if ps.len() == 0 {
        Some(tc)
    } else {
        match tis_typing(lib, p, tc, ps.subrange(0, ps.len() - 1)) {
            None => None,
            Some(tc1) => match ps[ps.len() - 1] {
                TIPart::Expression(x) => match expr_typing(lib, p, tc1, x) {
                    None => None,
                    Some((n, tc2)) => if cast_plan_spec(n, "Value"@) is Some {
                        Some(tc2)
                    } else {
                        None
                    },
                },
                _ => None,
            },
        }
    }
}

/// The variable types after the patterns of `arms` are tested in order
/// against a value of type `typ`.
pub open spec fn lhss_typing<S>(arms: Seq<(LHSPart, Expression<S>)>, typ: Seq<char>, tc: Map<usize, Seq<char>>) -> Option<Map<usize, Seq<char>>>
    decreases arms.len(),
{
    if arms.len() == 0 {
        Some(tc)
    } else {
        match lhss_typing(arms.subrange(0, arms.len() - 1), typ, tc) {
            None => None,
            Some(tc1) => lhs_typing(arms[arms.len() - 1].0, typ, tc1),
        }
    }
}

/// The variable types after the right-hand sides of `arms` compile in
/// order, with their type names.
pub open spec fn rhss_typing<S>(lib: Seq<FFI>, p: Program<S>, tc: Map<usize, Seq<char>>, arms: Seq<(LHSPart, Expression<S>)>) -> Option<(Seq<Seq<char>>, Map<usize, Seq<char>>)>
    decreases arms, 0nat,
{
    if arms.len() == 0 {
        Some((Seq::empty(), tc))
    } else {
        match rhss_typing(lib, p, tc, arms.subrange(0, arms.len() - 1)) {
            None => None,
            Some((names, tc1)) => match expr_typing(lib, p, tc1, arms[arms.len() - 1].1) {
                None => None,
                Some((n, tc2)) => Some((names.push(n), tc2)),
            },
        }
    }
}

/// The machine types of compiled arguments.
pub open spec fn arg_jtypes(args: Seq<(JExpr, JType)>) -> Seq<MachineType> {
    args.map_values(|a: (JExpr, JType)| a.1.jtype)
}

/// The type names of compiled arguments.
pub open spec fn arg_names(args: Seq<(JExpr, JType)>) -> Seq<Seq<char>> {
    args.map_values(|a: (JExpr, JType)| a.1.name@)
}

/// The machine values and machine types of compiled arguments.
pub open spec fn arg_values(args: Seq<(JExpr, JType)>) -> Seq<(ValueRef, MachineType)> {
    args.map_values(|a: (JExpr, JType)| (a.0.value, a.1.jtype))
}

/// The instructions that split each 128-bit value of `vs` into its two
/// halves.
pub open spec fn split_ops(vs: Seq<(ValueRef, MachineType)>) -> Seq<Op>
    decreases vs.len(),
{
    if vs.len() == 0 {
        Seq::empty()
    } else {
        let pre = split_ops(vs.drop_last());
        if vs.last().1 == MachineType::I128 {
            pre.push(Op::Isplit(vs.last().0))
        } else {
            pre
        }
    }
}

/// The machine values that `vs` are passed as, the split instructions
/// starting at `n`: the two halves of each 128-bit value, else the value
/// itself.
pub open spec fn split_vals(vs: Seq<(ValueRef, MachineType)>, n: int) -> Seq<ValueRef>
    decreases vs.len(),
{
    if vs.len() == 0 {
        Seq::empty()
    } else {
        let pre = split_vals(vs.drop_last(), n);
        if vs.last().1 == MachineType::I128 {
            let at = (n + split_ops(vs.drop_last()).len()) as usize;
            pre.push(ValueRef { op: at, k: 0 }).push(ValueRef { op: at, k: 1 })
        } else {
            pre.push(vs.last().0)
        }
    }
}

/// Emits the code that splits each 128-bit argument into its two halves;
/// the machine values to pass, in order.
fn split_args(em: &mut Emitter, args: &Vec<(JExpr, JType)>) -> (res: Vec<ValueRef>)
    requires
        forall|i: int| 0 <= i < args@.len() ==> ref_ok(#[trigger] args@[i].0.value, old(em)@.len() as int),
    ensures
        grew(old(em)@, final(em)@),
        refs_ok(res@, final(em)@.len() as int),
        res@.len() == value_count(arg_jtypes(args@)),
        final(em)@ == old(em)@ + split_ops(arg_values(args@)),
        res@ == split_vals(arg_values(args@), old(em)@.len() as int),
{
    let mut out: Vec<ValueRef> = Vec::new();
    let mut k: usize = 0;
    let ghost n = old(em)@.len() as int;
    assert(old(em)@ + split_ops(arg_values(args@.subrange(0, 0))) =~= old(em)@);
    while k < args.len()
        invariant
            k <= args@.len(),
            grew(old(em)@, em@),
            forall|i: int| 0 <= i < args@.len() ==> ref_ok(#[trigger] args@[i].0.value, old(em)@.len() as int),
            refs_ok(out@, em@.len() as int),
            out@.len() == value_count(arg_jtypes(args@.subrange(0, k as int))),
            em@ == old(em)@ + split_ops(arg_values(args@.subrange(0, k as int))),
            out@ == split_vals(arg_values(args@.subrange(0, k as int)), n),
            n == old(em)@.len(),
        decreases args@.len() - k,
    {
        assert(arg_jtypes(args@.subrange(0, k + 1)).drop_last() =~= arg_jtypes(args@.subrange(0, k as int)));
        assert(arg_values(args@.subrange(0, k + 1)).drop_last() =~= arg_values(args@.subrange(0, k as int)));
        let v = args[k].0.value;
        if args[k].1.jtype == MachineType::I128 {
            let s = em.emit(Op::Isplit(v));
            out.push(ValueRef { op: s, k: 0 });
            out.push(ValueRef { op: s, k: 1 });
            assert(em@ =~= old(em)@ + split_ops(arg_values(args@.subrange(0, k + 1))));
        } else {
            out.push(v);
        }
        k = k + 1;
    }
    assert(args@.subrange(0, k as int) =~= args@);
    out
}

/// Emits, in block `lblk`, a branch to `nblk` where `cond` holds, and goes
/// on in a new block, which it returns.
fn branch_off(em: &mut Emitter, lblk: usize, nblk: usize, cond: ValueRef) -> (res: usize)
    requires
        lblk < old(em)@.len(),
        nblk < old(em)@.len(),
        ref_ok(cond, old(em)@.len() as int),
    ensures
        grew(old(em)@, final(em)@),
        res < final(em)@.len(),
        res == old(em)@.len(),
        final(em)@.len() == old(em)@.len() + 5,
        final(em)@.subrange(0, old(em)@.len() as int) == old(em)@,
        final(em)@[res as int] == Op::CreateBlock,
        is_brnz(final(em)@[res + 1], cond, nblk, Seq::empty()),
        is_jump(final(em)@[res + 2], res, Seq::empty()),
        final(em)@[res + 3] == Op::SealBlock(lblk),
        final(em)@[res + 4] == Op::SwitchToBlock(res),
{
    let bb = em.emit(Op::CreateBlock);
    em.emit(Op::Brnz(cond, nblk, Vec::new()));
    em.emit(Op::Jump(bb, Vec::new()));
    em.emit(Op::SealBlock(lblk));
    em.emit(Op::SwitchToBlock(bb));
    assert(em@.subrange(0, old(em)@.len() as int) =~= old(em)@);
    bb
}

/// At `b`: a new block `b`, a branch from block `lblk` to `nblk` where
/// `cond` holds, a jump on to `b`, `lblk` sealed, and control in `b`.
pub open spec fn branch_at(ops: Seq<Op>, b: int, lblk: usize, nblk: usize, cond: ValueRef) -> bool {
    &&& ops[b] == Op::CreateBlock
    &&& is_brnz(ops[b + 1], cond, nblk, Seq::empty())
    &&& is_jump(ops[b + 2], b as usize, Seq::empty())
    &&& ops[b + 3] == Op::SealBlock(lblk)
    &&& ops[b + 4] == Op::SwitchToBlock(b as usize)
}

/// What a literal part with text `cs` takes off the value: its number
/// before the middle of the pattern, its length after it.
pub open spec fn part_amount(cs: Seq<char>, prefix: bool) -> i64 {
    if prefix {
        parse_u64_spec(cs)->0 as i64
    } else {
        cs.len() as i64
    }
}

/// At `pos`, the eight instructions that test one part of a
/// literal-unpacking pattern against `val` in block `lblk`: control goes to
/// `nblk` where `val` is less than the part, else on in a new block, where
/// the part is taken off `val`.
pub open spec fn part_emitted(ops: Seq<Op>, pos: int, part: LHSLiteralPart, prefix: bool, lblk: usize, nblk: usize, val: ValueRef) -> bool {
    match part {
        LHSLiteralPart::Literal(cs) => {
            let sub = part_amount(cs@, prefix);
            &&& ops[pos] == Op::CompareImm(IntCond::UnsignedLessThan, val, sub)
            &&& branch_at(ops, pos + 1, lblk, nblk, ValueRef { op: pos as usize, k: 0 })
            &&& ops[pos + 6] == Op::Iconst(MachineType::I64, sub)
            &&& ops[pos + 7] == Op::Isub(val, ValueRef { op: (pos + 6) as usize, k: 0 })
        },
        LHSLiteralPart::Variable(vi) => {
            &&& ops[pos] == Op::UseVar(vi)
            &&& ops[pos + 1] == Op::Compare(IntCond::UnsignedLessThan, val, ValueRef { op: pos as usize, k: 0 })
            &&& branch_at(ops, pos + 2, lblk, nblk, ValueRef { op: (pos + 1) as usize, k: 0 })
            &&& ops[pos + 7] == Op::Isub(val, ValueRef { op: pos as usize, k: 0 })
        },
    }
}

/// The block where control is after the first `i` parts of `parts`, whose
/// tests start at `base`, were emitted from block `lblk`.
pub open spec fn part_block(parts: Seq<LHSLiteralPart>, lblk: usize, base: int, i: int) -> usize {
    if i <= 0 {
        lblk
    } else if parts[i - 1] is Literal {
        (base + 8 * (i - 1) + 1) as usize
    } else {
        (base + 8 * (i - 1) + 2) as usize
    }
}

/// What is left of `val` after the first `i` parts, whose tests start at
/// `base`, were taken off.
pub open spec fn part_rest(val: ValueRef, base: int, i: int) -> ValueRef {
    if i <= 0 {
        val
    } else {
        ValueRef { op: (base + 8 * i - 1) as usize, k: 0 }
    }
}

/// From `base` on, the tests of the parts `parts` of a literal-unpacking
/// pattern (the first `npre` before its middle) against `val` in block
/// `lblk`, then the middle variable defined to what is left, a jump to
/// `rblk` and the last block sealed.
pub open spec fn unpack_emitted(parts: Seq<LHSLiteralPart>, npre: int, mid: Option<usize>, lblk: usize, rblk: usize, nblk: usize, val: ValueRef, ops: Seq<Op>, base: int) -> bool {
    let m = parts.len() as int;
    let end = base + 8 * m;
    let lb = part_block(parts, lblk, base, m);
    let v = part_rest(val, base, m);
    &&& forall|i: int| 0 <= i < m ==> part_emitted(ops, base + 8 * i, #[trigger] parts[i], i < npre,
        part_block(parts, lblk, base, i), nblk, part_rest(val, base, i))
    &&& match mid {
        Some(mi) => {
            &&& ops.len() == end + 4
            &&& ops[end] == Op::DeclareVar(mi, MachineType::I64)
            &&& ops[end + 1] == Op::DefVar(mi, v)
            &&& is_jump(ops[end + 2], rblk, Seq::empty())
            &&& ops[end + 3] == Op::SealBlock(lb)
        },
        None => {
            &&& ops.len() == end + 2
            &&& is_jump(ops[end], rblk, Seq::empty())
            &&& ops[end + 1] == Op::SealBlock(lb)
        },
    }
}

/// The instructions `new` are `old` followed by the test of pattern `lhs`
/// against `val` from block `lblk`: control in `lblk`, then to `rblk` where
/// the pattern matches and to `nblk` where it does not, the variables it
/// binds declared and defined, and the last block sealed.
pub open spec fn lhs_emitted(lhs: LHSPart, lblk: usize, rblk: usize, nblk: usize, val: ValueRef, old: Seq<Op>, new: Seq<Op>) -> bool {
    let n = old.len() as int;
    &&& new.subrange(0, n) == old
    &&& new[n] == Op::SwitchToBlock(lblk)
    &&& match lhs {
        LHSPart::Any => {
            &&& new.len() == n + 3
            &&& is_jump(new[n + 1], rblk, Seq::empty())
            &&& new[n + 2] == Op::SealBlock(lblk)
        },
        LHSPart::Variable(vi) => {
            &&& new.len() == n + 5
            &&& new[n + 1] == Op::DeclareVar(vi, MachineType::I64)
            &&& new[n + 2] == Op::DefVar(vi, val)
            &&& is_jump(new[n + 3], rblk, Seq::empty())
            &&& new[n + 4] == Op::SealBlock(lblk)
        },
        LHSPart::Literal(lts) => {
            &&& new.len() == n + 5
            &&& new[n + 1] == Op::CompareImm(IntCond::Equal, val, parse_u64_spec(lts@)->0 as i64)
            &&& is_brnz(new[n + 2], ValueRef { op: (n + 1) as usize, k: 0 }, rblk, Seq::empty())
            &&& is_jump(new[n + 3], nblk, Seq::empty())
            &&& new[n + 4] == Op::SealBlock(lblk)
        },
        LHSPart::UnpackLiteral(pres, mid, sufs) => unpack_emitted(pres@ + sufs@, pres@.len() as int, mid, lblk, rblk, nblk, val, new, n + 1),
        LHSPart::Tuple(_) => false,
    }
}

/// What was emitted at the start stays there as more is emitted.
proof fn lemma_part_kept(old: Seq<Op>, new: Seq<Op>, pos: int, part: LHSLiteralPart, prefix: bool, lblk: usize, nblk: usize, val: ValueRef)
    requires
        0 <= pos,
        pos + 8 <= old.len() <= new.len(),
        new.subrange(0, old.len() as int) == old,
        part_emitted(old, pos, part, prefix, lblk, nblk, val),
    ensures
        part_emitted(new, pos, part, prefix, lblk, nblk, val),
{
    assert forall|j: int| 0 <= j < old.len() implies new[j] == old[j] by {
        assert(new.subrange(0, old.len() as int)[j] == new[j]);
    }
}

/// A prefix of a prefix is a prefix.
proof fn lemma_prefix_of_prefix(a: Seq<Op>, b: Seq<Op>, c: Seq<Op>)
    requires
        a.len() <= b.len() <= c.len(),
        b.subrange(0, a.len() as int) == a,
        c.subrange(0, b.len() as int) == b,
    ensures
        c.subrange(0, a.len() as int) == a,
{
    assert forall|j: int| 0 <= j < a.len() implies c.subrange(0, a.len() as int)[j] == a[j] by {
        assert(c.subrange(0, b.len() as int)[j] == b[j]);
        assert(b.subrange(0, a.len() as int)[j] == a[j]);
    }
    assert(c.subrange(0, a.len() as int) =~= a);
}

/// Emits the test of one part of a literal-unpacking pattern: control goes
/// to `nblk` where `val` is less than the part, else on in a new block with
/// the part taken off. That block and the rest of `val` are returned.
fn unpack_part(em: &mut Emitter, lblk: usize, nblk: usize, val: ValueRef, part: &LHSLiteralPart, typ: &str, prefix: bool) -> (res: (usize, ValueRef))
    requires
        lblk < old(em)@.len(),
        nblk < old(em)@.len(),
        ref_ok(val, old(em)@.len() as int),
        prefix ==> prefix_part_ok(*part, typ@),
    ensures
        final(em)@.len() == old(em)@.len() + 8,
        final(em)@.subrange(0, old(em)@.len() as int) == old(em)@,
        part_emitted(final(em)@, old(em)@.len() as int, *part, prefix, lblk, nblk, val),
        res.0 == (if *part is Literal { old(em)@.len() + 1 } else { old(em)@.len() + 2 }),
        res.1 == (ValueRef { op: (old(em)@.len() + 7) as usize, k: 0 }),
{
    let ghost n = old(em)@.len() as int;
    match part {
        LHSLiteralPart::Literal(cs) => {
            let sub: i64 = if prefix {
                match literal_word(cs.as_str()) {
                    Ok(w) => w,
                    Err(_) => 0,
                }
            } else {
                str_chars(cs.as_str()).len() as i64
            };
            let cond = em.value(Op::CompareImm(IntCond::UnsignedLessThan, val, sub));
            let ghost g1 = em@;
            let bb = branch_off(em, lblk, nblk, cond);
            let ghost g2 = em@;
            let len = em.value(Op::Iconst(MachineType::I64, sub));
            let rest = em.value(Op::Isub(val, len));
            assert(em@[n] == g1[n]);
            assert(g2.subrange(0, g1.len() as int)[n] == g2[n]);
            assert(em@.subrange(0, old(em)@.len() as int) =~= old(em)@) by {
                assert forall|j: int| 0 <= j < n implies em@[j] == old(em)@[j] by {
                    assert(g2.subrange(0, g1.len() as int)[j] == g2[j]);
                }
            }
            (bb, rest)
        },
        LHSLiteralPart::Variable(vi) => {
            let jv = em.value(Op::UseVar(*vi));
            let cond = em.value(Op::Compare(IntCond::UnsignedLessThan, val, jv));
            let ghost g1 = em@;
            let bb = branch_off(em, lblk, nblk, cond);
            let ghost g2 = em@;
            let rest = em.value(Op::Isub(val, jv));
            assert(g2.subrange(0, g1.len() as int)[n] == g2[n]);
            assert(g2.subrange(0, g1.len() as int)[n + 1] == g2[n + 1]);
            assert(em@.subrange(0, old(em)@.len() as int) =~= old(em)@) by {
                assert forall|j: int| 0 <= j < n implies em@[j] == old(em)@[j] by {
                    assert(g2.subrange(0, g1.len() as int)[j] == g2[j]);
                }
            }
            (bb, rest)
        },
    }
}

/// Emits the test of pattern `lhs` against `val`, a value of type `typ`,
/// starting in block `lblk`: control goes on to `rblk` where it matches and
/// to `nblk` where it does not, and the variables the pattern binds are
/// declared, defined and recorded in `tc`. The pattern must be one that the
/// compiler handles (`lhs_accepts`).
#[verifier::spinoff_prover]
#[verifier::rlimit(50)]
pub fn compile_lhs(tc: &mut TypeContext, em: &mut Emitter, lblk: usize, rblk: usize, lhs: &LHSPart, nblk: usize, val: ValueRef, typ: &str)
    requires
        lblk < old(em)@.len(),
        rblk < old(em)@.len(),
        nblk < old(em)@.len(),
        ref_ok(val, old(em)@.len() as int),
        lhs_typing(*lhs, typ@, old(tc)@) is Some,
    ensures
        grew(old(em)@, final(em)@),
        lhs_emitted(*lhs, lblk, rblk, nblk, val, old(em)@, final(em)@),
        final(tc)@ == lhs_typing(*lhs, typ@, old(tc)@)->0,
{
    let ghost lblk0 = lblk;
    let ghost val0 = val;
    let ghost n = old(em)@.len() as int;
    let mut lblk = lblk;
    let mut val = val;
    em.emit(Op::SwitchToBlock(lblk));
    let ghost start = em@;
    match lhs {
        LHSPart::Tuple(_lts) => {},
        LHSPart::Literal(lts) => {
            let w = match literal_word(lts.as_str()) {
                Ok(w) => w,
                Err(_) => 0,
            };
            let cond = em.value(Op::CompareImm(IntCond::Equal, val, w));
            em.emit(Op::Brnz(cond, rblk, Vec::new()));
            em.emit(Op::Jump(nblk, Vec::new()));
            em.emit(Op::SealBlock(lblk));
            assert(em@.subrange(0, n) =~= old(em)@);
        },
        LHSPart::UnpackLiteral(pres, mid, sufs) => {
            let ghost parts = pres@ + sufs@;
            let ghost base = n + 1;
            let np = pres.len();
            let ns = sufs.len();
            let mut j: usize = 0;
            while j < np || j - np < ns
                invariant
                    j <= parts.len(),
                    np == pres@.len(),
                    ns == sufs@.len(),
                    parts == pres@ + sufs@,
                    base == n + 1,
                    *lhs == LHSPart::UnpackLiteral(*pres, *mid, *sufs),
                    prefixes_ok(pres@, typ@),
                    tc@ == old(tc)@,
                    em@.len() == base + 8 * j,
                    start.len() == base,
                    start == old(em)@.push(Op::SwitchToBlock(lblk0)),
                    em@.subrange(0, base) == start,
                    lblk == part_block(parts, lblk0, base, j as int),
                    val == part_rest(val0, base, j as int),
                    lblk < em@.len(),
                    rblk < em@.len(),
                    nblk < em@.len(),
                    ref_ok(val, em@.len() as int),
                    forall|i: int| 0 <= i < j ==> part_emitted(em@, base + 8 * i, #[trigger] parts[i], i < np,
                        part_block(parts, lblk0, base, i), nblk, part_rest(val0, base, i)),
                decreases parts.len() - j,
            {
                let cur = em.len();
                assert(cur == base + 8 * j);
                let part = if j < np { &pres[j] } else { &sufs[j - np] };
                assert(*part == parts[j as int]);
                proof {
                    if j < np {
                        assert(prefix_part_ok(pres@[j as int], typ@));
                    }
                }
                let ghost prev = em@;
                let (bb, rest) = unpack_part(em, lblk, nblk, val, part, typ, j < np);
                proof {
                    lemma_prefix_of_prefix(start, prev, em@);
                    assert forall|i: int| 0 <= i < j + 1 implies part_emitted(em@, base + 8 * i, #[trigger] parts[i], i < np,
                        part_block(parts, lblk0, base, i), nblk, part_rest(val0, base, i)) by {
                        if i < j {
                            lemma_part_kept(prev, em@, base + 8 * i, parts[i], i < np,
                                part_block(parts, lblk0, base, i), nblk, part_rest(val0, base, i));
                        }
                    }
                }
                lblk = bb;
                val = rest;
                j = j + 1;
            }
            let ghost g = em@;
            if let Some(mi) = mid {
                em.emit(Op::DeclareVar(*mi, MachineType::I64));
                tc.insert(*mi, typ.to_string());
                em.emit(Op::DefVar(*mi, val));
            }
            em.emit(Op::Jump(rblk, Vec::new()));
            em.emit(Op::SealBlock(lblk));
            proof {
                assert(em@.subrange(0, g.len() as int) =~= g);
                lemma_prefix_of_prefix(start, g, em@);
                assert forall|i: int| 0 <= i < parts.len() implies part_emitted(em@, base + 8 * i, #[trigger] parts[i], i < np,
                    part_block(parts, lblk0, base, i), nblk, part_rest(val0, base, i)) by {
                    lemma_part_kept(g, em@, base + 8 * i, parts[i], i < np,
                        part_block(parts, lblk0, base, i), nblk, part_rest(val0, base, i));
                }
                assert(em@[n] == start[n]);
                assert(em@.subrange(0, n) =~= old(em)@);
            }
        },
        LHSPart::Variable(vi) => {
            em.emit(Op::DeclareVar(*vi, MachineType::I64));
            tc.insert(*vi, typ.to_string());
            em.emit(Op::DefVar(*vi, val));
            em.emit(Op::Jump(rblk, Vec::new()));
            em.emit(Op::SealBlock(lblk));
            assert(em@.subrange(0, n) =~= old(em)@);
        },
        LHSPart::Any => {
            em.emit(Op::Jump(rblk, Vec::new()));
            em.emit(Op::SealBlock(lblk));
            assert(em@.subrange(0, n) =~= old(em)@);
        },
    }
}

/// Whether the compiler handles pattern `lhs` on a value of type `typ`.
pub fn lhs_accepts(lhs: &LHSPart, typ: &str) -> (res: bool)
    ensures
        forall|tc: Map<usize, Seq<char>>| res == (#[trigger] lhs_typing(*lhs, typ@, tc)) is Some,
{
    match lhs {
        LHSPart::Tuple(_) => false,
        LHSPart::Literal(lts) => (is_str(typ, "U8") || is_str(typ, "U64")) && literal_word(lts.as_str()).is_ok(),
        LHSPart::UnpackLiteral(pres, mid, sufs) => {
            let mut k: usize = 0;
            while k < pres.len()
                invariant
                    k <= pres@.len(),
                    *lhs == LHSPart::UnpackLiteral(*pres, *mid, *sufs),
                    forall|i: int| 0 <= i < k ==> prefix_part_ok(#[trigger] pres@[i], typ@),
                decreases pres@.len() - k,
            {
                match &pres[k] {
                    LHSLiteralPart::Literal(cs) => {
                        if !(is_str(typ, "U64") && literal_word(cs.as_str()).is_ok()) {
                            assert(!prefix_part_ok(pres@[k as int], typ@));
                            assert(!prefixes_ok(pres@, typ@));
                            return false;
                        }
                    },
                    LHSLiteralPart::Variable(_) => {},
                }
                k = k + 1;
            }
            true
        },
        LHSPart::Variable(_) => true,
        LHSPart::Any => true,
    }
}

/// A function found in a prefix of the table is found at the same place in
/// the whole table.
pub(crate) proof fn lemma_ffi_pos_prefix(lib: Seq<FFI>, fi: Seq<char>, n: int)
    requires
        0 <= n <= lib.len(),
        ffi_pos(lib.subrange(0, n), fi) is Some,
    ensures
        ffi_pos(lib, fi) == ffi_pos(lib.subrange(0, n), fi),
    decreases lib.len(),
{
    if n == lib.len() {
        assert(lib.subrange(0, n) =~= lib);
    } else {
        assert(lib.drop_last().subrange(0, n) =~= lib.subrange(0, n));
        lemma_ffi_pos_prefix(lib.drop_last(), fi, n);
    }
}

/// The position of the first known function named `fi`, if there is one.
fn find_ffi(lib: &Vec<FFI>, fi: &str) -> (res: Option<usize>)
    ensures
        match res {
            Some(k) => ffi_pos(lib@, fi@) == Some(k as int) && k < lib@.len() && lib@[k as int].name@ == fi@,
            None => ffi_pos(lib@, fi@) is None,
        },
{
    let mut k: usize = 0;
    while k < lib.len()
        invariant
            k <= lib@.len(),
            ffi_pos(lib@.subrange(0, k as int), fi@) is None,
        decreases lib@.len() - k,
    {
        assert(lib@.subrange(0, k + 1).drop_last() =~= lib@.subrange(0, k as int));
        if is_str(lib[k].name.as_str(), fi) {
            proof {
                lemma_ffi_pos_prefix(lib@, fi@, k + 1);
            }
            return Some(k);
        }
        k = k + 1;
    }
    assert(lib@.subrange(0, k as int) =~= lib@);
    None
}

/// The instruction that an open-coded known function is emitted as, on the
/// machine values `vals`.
pub open spec fn open_coded(em: Emission, vals: Seq<ValueRef>) -> Op {
    match em {
        Emission::Isub => Op::Isub(vals[0], vals[1]),
        Emission::Imul => Op::Imul(vals[0], vals[1]),
        Emission::Udiv => Op::Udiv(vals[0], vals[1]),
        Emission::Urem => Op::Urem(vals[0], vals[1]),
        Emission::Compare(cc) => Op::Compare(cc, vals[0], vals[1]),
        Emission::Bor => Op::Bor(vals[0], vals[1]),
        Emission::IsZero => Op::CompareImm(IntCond::Equal, vals[0], 0),
        _ => Op::Iadd(vals[0], vals[1]),
    }
}

/// `op` jumps to block `b` passing `args`.
pub open spec fn is_jump(op: Op, b: usize, args: Seq<ValueRef>) -> bool {
    match op {
        Op::Jump(b2, a) => b2 == b && a@ == args,
        _ => false,
    }
}

/// `op` branches to block `b` passing `args` where `cond` is not zero.
pub open spec fn is_brnz(op: Op, cond: ValueRef, b: usize, args: Seq<ValueRef>) -> bool {
    match op {
        Op::Brnz(c, b2, a) => c == cond && b2 == b && a@ == args,
        _ => false,
    }
}

/// `op` branches to block `b` passing `args` where `cond` is zero.
pub open spec fn is_brz(op: Op, cond: ValueRef, b: usize, args: Seq<ValueRef>) -> bool {
    match op {
        Op::Brz(c, b2, a) => c == cond && b2 == b && a@ == args,
        _ => false,
    }
}

/// `op` calls the function named `name` on the values `vals`.
pub open spec fn is_call_of(op: Op, name: Seq<char>, vals: Seq<ValueRef>) -> bool {
    match op {
        Op::Call(f, args) => f@ == name && args@ == vals,
        _ => false,
    }
}

/// The instructions `new` are `old` followed by the emission of a call of
/// the known function `ffi` on `vals`, whose value is `v`: a call of the
/// runtime function (its two results joined for a 128-bit result), the
/// argument itself, or one open-coded instruction.
pub open spec fn ffi_emitted(ffi: FFI, vals: Seq<ValueRef>, old: Seq<Op>, new: Seq<Op>, v: ValueRef) -> bool {
    let n = old.len();
    match ffi.emission {
        Emission::Call => {
            &&& new.subrange(0, n as int) == old
            &&& is_call_of(new[n as int], ffi.name@, vals)
            &&& ffi.rtype == MachineType::I128 ==> new.len() == n + 2
                && new[n + 1int] == Op::Iconcat(ValueRef { op: n as usize, k: 0 }, ValueRef { op: n as usize, k: 1 })
                && v == (ValueRef { op: (n + 1) as usize, k: 0 })
            &&& ffi.rtype != MachineType::I128 ==> new.len() == n + 1 && v == (ValueRef { op: n as usize, k: 0 })
        },
        Emission::Same => new == old && v == vals[0],
        _ => new == old.push(open_coded(ffi.emission, vals)) && v == (ValueRef { op: n as usize, k: 0 }),
    }
}

/// Emits a call of the known function `ffi` on the machine values `vals`:
/// a call of the runtime function, or the open-coded instruction. There are
/// as many values as the open-coded instruction reads.
fn emit_ffi(em: &mut Emitter, ffi: &FFI, vals: Vec<ValueRef>) -> (res: ValueRef)
    requires
        refs_ok(vals@, old(em)@.len() as int),
        vals@.len() >= emission_arity(ffi.emission),
    ensures
        grew(old(em)@, final(em)@),
        ref_ok(res, final(em)@.len() as int),
        ffi_emitted(*ffi, vals@, old(em)@, final(em)@, res),
{
    match ffi.emission {
        Emission::Call => {
            let c = call(em, ffi.name.as_str(), vals);
            if ffi.rtype == MachineType::I128 {
                let ghost mid = em@;
                let r = em.value(Op::Iconcat(c, ValueRef { op: c.op, k: 1 }));
                assert(em@.subrange(0, old(em)@.len() as int) =~= mid.subrange(0, old(em)@.len() as int));
                assert(em@[old(em)@.len() as int] == mid[old(em)@.len() as int]);
                r
            } else {
                c
            }
        },
        Emission::Iadd => em.value(Op::Iadd(vals[0], vals[1])),
        Emission::Isub => em.value(Op::Isub(vals[0], vals[1])),
        Emission::Imul => em.value(Op::Imul(vals[0], vals[1])),
        Emission::Udiv => em.value(Op::Udiv(vals[0], vals[1])),
        Emission::Urem => em.value(Op::Urem(vals[0], vals[1])),
        Emission::Compare(cc) => em.value(Op::Compare(cc, vals[0], vals[1])),
        Emission::Bor => em.value(Op::Bor(vals[0], vals[1])),
        Emission::IsZero => em.value(Op::CompareImm(IntCond::Equal, vals[0], 0)),
        Emission::Same => vals[0],
    }
}

/// The compiled arguments `args` have the machine types `ts`.
pub open spec fn jtypes_are(args: Seq<(JExpr, JType)>, ts: Seq<MachineType>) -> bool {
    args.len() == ts.len() && forall|i: int| 0 <= i < ts.len() ==> (#[trigger] args[i]).1.jtype == ts[i]
}

/// Emits a call of the known function `fi` on `args`: each 128-bit
/// argument split into its halves, then the function's emission on the
/// machine values; `None`, with nothing emitted, where `fi` is not a known
/// function. The arguments must have the machine types of its signature.
pub fn check_hardcoded_call(lib: &Vec<FFI>, em: &mut Emitter, blk: usize, fi: &String, args: &Vec<(JExpr, JType)>) -> (res: Option<(JExpr, JType)>)
    requires
        lib_ok(lib@),
        forall|i: int| 0 <= i < args@.len() ==> ref_ok(#[trigger] args@[i].0.value, old(em)@.len() as int),
        ffi_pos(lib@, fi@) matches Some(k) ==> jtypes_are(args@, lib@[k].args@)
            && value_count(lib@[k].args@) >= emission_arity(lib@[k].emission),
    ensures
        grew(old(em)@, final(em)@),
        match ffi_pos(lib@, fi@) {
            None => res is None && final(em)@ == old(em)@,
            Some(k) => res matches Some(r) && {
                &&& jtype_ok(r.1)
                &&& r.0.block == blk
                &&& ref_ok(r.0.value, final(em)@.len() as int)
                &&& r.1.name@ == lib@[k].rname@
                &&& r.1.jtype == lib@[k].rtype
                &&& ffi_emitted(lib@[k], split_vals(arg_values(args@), old(em)@.len() as int),
                    old(em)@ + split_ops(arg_values(args@)), final(em)@, r.0.value)
            },
        },
{
    let k = match find_ffi(lib, fi.as_str()) {
        Some(k) => k,
        None => {
            return None;
        },
    };
    let ffi = &lib[k];
    assert(arg_jtypes(args@) =~= ffi.args@);
    let val = split_args(em, args);
    let v = emit_ffi(em, ffi, val);
    Some((JExpr { block: blk, value: v }, JType { name: ffi.rname.clone(), jtype: ffi.rtype }))
}

/// Whether the compiled arguments `args` have the machine types `ts`.
fn same_jtypes(args: &Vec<(JExpr, JType)>, ts: &Vec<MachineType>) -> (res: bool)
    ensures
        res == jtypes_are(args@, ts@),
{
    if args.len() != ts.len() {
        return false;
    }
    let mut i: usize = 0;
    while i < args.len()
        invariant
            i <= args@.len(),
            args@.len() == ts@.len(),
            forall|j: int| 0 <= j < i ==> (#[trigger] args@[j]).1.jtype == ts@[j],
        decreases args@.len() - i,
    {
        if args[i].1.jtype != ts[i] {
            return false;
        }
        i = i + 1;
    }
    true
}

/// Whether arguments of machine types `ts` give at least as many machine
/// values as emission `e` reads.
fn enough_values(ts: &Vec<MachineType>, e: Emission) -> (res: bool)
    ensures
        res == (value_count(ts@) >= emission_arity(e)),
{
    let need: u128 = match e {
        Emission::Call => 0,
        Emission::IsZero | Emission::Same => 1,
        _ => 2,
    };
    let mut c: u128 = 0;
    let mut i: usize = 0;
    while i < ts.len()
        invariant
            i <= ts@.len(),
            c == value_count(ts@.subrange(0, i as int)),
            c <= 2 * i,
        decreases ts@.len() - i,
    {
        assert(ts@.subrange(0, i + 1).drop_last() =~= ts@.subrange(0, i as int));
        if ts[i] == MachineType::I128 {
            c = c + 2;
        } else {
            c = c + 1;
        }
        i = i + 1;
    }
    assert(ts@.subrange(0, i as int) =~= ts@);
    c >= need
}

/// The compiler's view of type `tn`, or the error for a type it does not know.
fn jtype_named(tn: &Type) -> (res: Result<JType, String>)
    ensures
        res matches Ok(j) ==> jtype_ok(j),
        res is Err <==> machine_type_of(opt_str(tn.name)) is None,
        res matches Ok(j) ==> machine_type_of(opt_str(tn.name)) == Some(j.jtype) && j.name@ == type_nom(*tn),
{
    proof {
        lemma_type_names();
    }
    match machine_type_named(tn) {
        Ok(t) => Ok(JType { name: tn.nom(), jtype: t }),
        Err(m) => Err(m),
    }
}

/// The same type names give the same `type_nom`.
proof fn lemma_nom_of_view(a: Type, b: Type)
    requires
        opt_str(a.name) == opt_str(b.name),
    ensures
        type_nom(a) == type_nom(b),
{
}

/// The parameter types that the arguments of `fi` are converted to: a
/// known function's, else those of the program's function.
pub open spec fn apply_targets<S>(lib: Seq<FFI>, p: Program<S>, fi: Seq<char>) -> Seq<Type> {
    match ffi_pos(lib, fi) {
        Some(k) => lib[k].arg_types@,
        None => match lookup_fn(p.functions@, fi) {
            Some(k) => param_types(p.functions@[k]),
            None => Seq::empty(),
        },
    }
}

/// The conversions of the values of `args` to the types `targets`, in
/// order, the first emitted at `n`.
pub open spec fn coerce_ops(args: Seq<(JExpr, JType)>, targets: Seq<Type>, n: int) -> Seq<Op>
    decreases args.len(),
{
    if args.len() == 0 {
        Seq::empty()
    } else {
        let i = args.len() - 1;
        let pre = coerce_ops(args.drop_last(), targets, n);
        pre + cast_ops(cast_plan_spec(args[i].1.name@, type_nom(targets[i]))->0, args[i].0.value, (n + pre.len()) as usize)
    }
}

/// The converted arguments: each value converted to the type of its
/// parameter, with that type's machine type.
pub open spec fn coerce_vals(args: Seq<(JExpr, JType)>, targets: Seq<Type>, n: int) -> Seq<(ValueRef, MachineType)>
    decreases args.len(),
{
    if args.len() == 0 {
        Seq::empty()
    } else {
        let i = args.len() - 1;
        let pre = coerce_ops(args.drop_last(), targets, n);
        coerce_vals(args.drop_last(), targets, n).push((
            cast_result(cast_plan_spec(args[i].1.name@, type_nom(targets[i]))->0, args[i].0.value, (n + pre.len()) as usize),
            machine_type_of(opt_str(targets[i].name))->0,
        ))
    }
}

/// The instructions `new` are `old` followed by a call of the program's
/// function `name` on `vals`, whose value `v` is its result, or its two
/// results joined where `wide`.
pub open spec fn call_emitted(name: Seq<char>, wide: bool, vals: Seq<ValueRef>, old: Seq<Op>, new: Seq<Op>, v: ValueRef) -> bool {
    let n = old.len();
    &&& new.subrange(0, n as int) == old
    &&& is_call_of(new[n as int], name, vals)
    &&& wide ==> new.len() == n + 2
        && new[n + 1int] == Op::Iconcat(ValueRef { op: n as usize, k: 0 }, ValueRef { op: n as usize, k: 1 })
        && v == (ValueRef { op: (n + 1) as usize, k: 0 })
    &&& !wide ==> new.len() == n + 1 && v == (ValueRef { op: n as usize, k: 0 })
}

/// The instructions `new` are `old` followed by the application of `fi` to
/// `args`, whose value is `v` of machine type `t`: each argument converted
/// to its parameter's type, each 128-bit one split, then the known
/// function's emission or a call of the program's function.
pub open spec fn apply_emitted<S>(lib: Seq<FFI>, p: Program<S>, fi: Seq<char>, args: Seq<(JExpr, JType)>, old: Seq<Op>, new: Seq<Op>, v: ValueRef, t: MachineType) -> bool {
    let targets = apply_targets(lib, p, fi);
    let vs = coerce_vals(args, targets, old.len() as int);
    let mid = old + coerce_ops(args, targets, old.len() as int);
    let vals = split_vals(vs, mid.len() as int);
    match ffi_pos(lib, fi) {
        Some(k) => ffi_emitted(lib[k], vals, mid + split_ops(vs), new, v),
        None => call_emitted(fi, t == MachineType::I128, vals, mid + split_ops(vs), new, v),
    }
}

/// Emits the application of the function `fi` to the compiled arguments
/// `args`: each is converted to the type of its parameter, then the known
/// function is emitted, or the program's function called. An error exactly
/// where `apply_typing` refuses the application: `fi` names no function,
/// the arguments do not fit its parameters, or a type has no machine
/// representation.
pub fn apply_fn<S>(lib: &Vec<FFI>, p: &Program<S>, em: &mut Emitter, blk: usize, fi: &String, args: Vec<(JExpr, JType)>) -> (res: Result<(JExpr, JType), String>)
    requires
        lib_ok(lib@),
        forall|i: int| 0 <= i < args@.len() ==> ref_ok(#[trigger] args@[i].0.value, old(em)@.len() as int),
    ensures
        res matches Ok(r) ==> jtype_ok(r.1),
        grew(old(em)@, final(em)@),
        res matches Ok(r) ==> r.0.block == blk && ref_ok(r.0.value, final(em)@.len() as int),
        match apply_typing(lib@, *p, fi@, arg_names(args@)) {
            Some(n) => res matches Ok(r) && r.1.name@ == n,
            None => res is Err,
        },
        res matches Ok(r) ==> apply_emitted(lib@, *p, fi@, args@, old(em)@, final(em)@, r.0.value, r.1.jtype),
{
    let ghost names = arg_names(args@);
    let ghost n0 = old(em)@.len() as int;
    let lk = find_ffi(lib, fi.as_str());
    let pk = find_function(&p.functions, fi);
    let n_targets: usize = match lk {
        Some(k) => lib[k].arg_types.len(),
        None => match pk {
            Some(k) => p.functions[k].args.len(),
            None => {
                return Err(message("attempt to apply undefined function, fn ", fi.as_str(), ""));
            },
        },
    };
    let ghost targets: Seq<Type> = match lk {
        Some(k) => lib@[k as int].arg_types@,
        None => param_types(p.functions@[pk->0 as int]),
    };
    assert(targets.len() == n_targets);
    if args.len() != n_targets {
        return Err(message("Wrong argument types to function: ", fi.as_str(), ""));
    }
    let mut coerced: Vec<(JExpr, JType)> = Vec::new();
    let mut ji: usize = 0;
    while ji < args.len()
        invariant
            ji <= args@.len(),
            args@.len() == n_targets,
            targets.len() == n_targets,
            names == arg_names(args@),
            lk matches Some(k) ==> k < lib@.len() && targets == lib@[k as int].arg_types@ && ffi_pos(lib@, fi@) == Some(k as int),
            lk is None ==> ffi_pos(lib@, fi@) is None,
            lk is None ==> (pk matches Some(k) && k < p.functions@.len() && targets == param_types(p.functions@[k as int])),
            pk matches Some(k) ==> lookup_fn(p.functions@, fi@) == Some(k as int),
            grew(old(em)@, em@),
            forall|i: int| 0 <= i < args@.len() ==> ref_ok(#[trigger] args@[i].0.value, old(em)@.len() as int),
            coerced@.len() == ji,
            forall|i: int| 0 <= i < coerced@.len() ==> ref_ok(#[trigger] coerced@[i].0.value, em@.len() as int),
            args_fit_upto(names, targets, ji as int),
            forall|i: int| 0 <= i < ji ==> machine_type_of(opt_str(targets[i].name)) == Some((#[trigger] coerced@[i]).1.jtype),
            forall|i: int| 0 <= i < ji ==> (#[trigger] coerced@[i]).1.name@ == type_nom(targets[i]),
            n0 == old(em)@.len(),
            em@ == old(em)@ + coerce_ops(args@.subrange(0, ji as int), targets, n0),
            arg_values(coerced@) == coerce_vals(args@.subrange(0, ji as int), targets, n0),
        decreases args@.len() - ji,
    {
        let target: &Type = match lk {
            Some(k) => &lib[k].arg_types[ji],
            None => match pk {
                Some(k) => &p.functions[k].args[ji].1,
                None => &p.functions[0].args[0].1,
            },
        };
        assert(*target == targets[ji as int]);
        assert(names[ji as int] == args@[ji as int].1.name@);
        let nt = match jtype_named(target) {
            Ok(j) => j,
            Err(m) => {
                assert(!arg_fits(names[ji as int], targets[ji as int]));
                assert(!args_fit(names, targets));
                return Err(m);
            },
        };
        let v = match checked_cast(em, args[ji].1.name.as_str(), nt.name.as_str(), args[ji].0.value) {
            Ok(v) => v,
            Err(m) => {
                assert(!arg_fits(names[ji as int], targets[ji as int]));
                assert(!args_fit(names, targets));
                return Err(m);
            },
        };
        coerced.push((JExpr { block: args[ji].0.block, value: v }, nt));
        proof {
            let sub = args@.subrange(0, ji + 1);
            assert(sub.drop_last() =~= args@.subrange(0, ji as int));
            assert(sub[ji as int] == args@[ji as int]);
            assert(em@ =~= old(em)@ + coerce_ops(sub, targets, n0));
            assert(arg_values(coerced@) =~= coerce_vals(sub, targets, n0));
        }
        ji = ji + 1;
    }
    assert(args_fit(names, targets));
    assert(args@.subrange(0, ji as int) =~= args@);
    assert(targets == apply_targets(lib@, *p, fi@));
    match lk {
        Some(k) => proof {
            let a = lib@[k as int].args@;
            if jtypes_are(coerced@, a) {
                assert forall|i: int| 0 <= i < a.len() implies machine_type_of(opt_str(#[trigger] targets[i].name)) == Some(a[i]) by {
                    assert(coerced@[i].1.jtype == a[i]);
                }
            }
            if sig_matches(targets, a) {
                assert forall|i: int| 0 <= i < a.len() implies (#[trigger] coerced@[i]).1.jtype == a[i] by {
                    assert(machine_type_of(opt_str(targets[i].name)) == Some(a[i]));
                }
            }
            assert(jtypes_are(coerced@, a) <==> sig_matches(targets, a));
        },
        None => {},
    }
    if let Some(k) = lk {
        if !same_jtypes(&coerced, &lib[k].args) || !enough_values(&lib[k].args, lib[k].emission) {
            return Err(message("Wrong argument types to function: ", fi.as_str(), ""));
        }
        assert(arg_jtypes(coerced@) =~= lib@[k as int].args@);
        if let Some(r) = check_hardcoded_call(lib, em, blk, fi, &coerced) {
            return Ok(r);
        }
    }
    let k = match pk {
        Some(k) => k,
        None => {
            return Err(message("function undefined: ", fi.as_str(), ""));
        },
    };
    let pf = &p.functions[k];
    if pf.body.len() == 0 {
        return Err(message("not supported by the compiler: a function without a body: ", fi.as_str(), ""));
    }
    let ftype = pf.body[pf.body.len() - 1].typ();
    proof {
        lemma_nom_of_view(ftype, expr_type(pf.body@[pf.body@.len() - 1]));
    }
    let rt = match jtype_named(&ftype) {
        Ok(j) => j,
        Err(m) => {
            return Err(m);
        },
    };
    let ghost mid = em@;
    let cargs = split_args(em, &coerced);
    let ghost before = em@;
    let c = call(em, fi.as_str(), cargs);
    let cval = if rt.jtype == MachineType::I128 {
        let ghost g = em@;
        let r = em.value(Op::Iconcat(c, ValueRef { op: c.op, k: 1 }));
        assert(em@.subrange(0, before.len() as int) =~= g.subrange(0, before.len() as int));
        assert(em@[before.len() as int] == g[before.len() as int]);
        r
    } else {
        c
    };
    Ok((JExpr { block: blk, value: cval }, rt))
}

/// Compiling `e` with variable types `tc` gave `res`, leaving variable
/// types `tc_after`, as `expr_typing` says: the type name of the value and
/// the variable types where it is compiled, an error where it is refused.
pub open spec fn compiled_as<S>(lib: Seq<FFI>, p: Program<S>, tc: Map<usize, Seq<char>>, e: Expression<S>, res: Result<(JExpr, JType), String>, tc_after: Map<usize, Seq<char>>) -> bool {
    match expr_typing(lib, p, tc, e) {
        Some(t) => res matches Ok(r) && r.1.name@ == t.0 && tc_after == t.1,
        None => res is Err,
    }
}

/// Arguments refused in a prefix are refused in the whole.
proof fn lemma_exprs_none<S>(lib: Seq<FFI>, p: Program<S>, tc: Map<usize, Seq<char>>, es: Seq<Expression<S>>, n: int)
    requires
        0 <= n <= es.len(),
        exprs_typing(lib, p, tc, es.subrange(0, n)) is None,
    ensures
        exprs_typing(lib, p, tc, es) is None,
    decreases es.len(),
{
    if n < es.len() {
        assert(es.subrange(0, es.len() - 1).subrange(0, n) =~= es.subrange(0, n));
        lemma_exprs_none(lib, p, tc, es.subrange(0, es.len() - 1), n);
    } else {
        assert(es.subrange(0, n) =~= es);
    }
}

/// Literal parts refused in a prefix are refused in the whole.
proof fn lemma_lis_none<S>(lib: Seq<FFI>, p: Program<S>, tc: Map<usize, Seq<char>>, ps: Seq<LIPart<S>>, n: int)
    requires
        0 <= n <= ps.len(),
        lis_typing(lib, p, tc, ps.subrange(0, n)) is None,
    ensures
        lis_typing(lib, p, tc, ps) is None,
    decreases ps.len(),
{
    if n < ps.len() {
        assert(ps.subrange(0, ps.len() - 1).subrange(0, n) =~= ps.subrange(0, n));
        lemma_lis_none(lib, p, tc, ps.subrange(0, ps.len() - 1), n);
    } else {
        assert(ps.subrange(0, n) =~= ps);
    }
}

/// Tuple parts refused in a prefix are refused in the whole.
proof fn lemma_tis_none<S>(lib: Seq<FFI>, p: Program<S>, tc: Map<usize, Seq<char>>, ps: Seq<TIPart<S>>, n: int)
    requires
        0 <= n <= ps.len(),
        tis_typing(lib, p, tc, ps.subrange(0, n)) is None,
    ensures
        tis_typing(lib, p, tc, ps) is None,
    decreases ps.len(),
{
    if n < ps.len() {
        assert(ps.subrange(0, ps.len() - 1).subrange(0, n) =~= ps.subrange(0, n));
        lemma_tis_none(lib, p, tc, ps.subrange(0, ps.len() - 1), n);
    } else {
        assert(ps.subrange(0, n) =~= ps);
    }
}

/// Patterns refused in a prefix of the arms are refused in the whole.
proof fn lemma_lhss_none<S>(arms: Seq<(LHSPart, Expression<S>)>, typ: Seq<char>, tc: Map<usize, Seq<char>>, n: int)
    requires
        0 <= n <= arms.len(),
        lhss_typing(arms.subrange(0, n), typ, tc) is None,
    ensures
        lhss_typing(arms, typ, tc) is None,
    decreases arms.len(),
{
    if n < arms.len() {
        assert(arms.subrange(0, arms.len() - 1).subrange(0, n) =~= arms.subrange(0, n));
        lemma_lhss_none(arms.subrange(0, arms.len() - 1), typ, tc, n);
    } else {
        assert(arms.subrange(0, n) =~= arms);
    }
}

/// Right-hand sides refused in a prefix of the arms are refused in the whole.
proof fn lemma_rhss_none<S>(lib: Seq<FFI>, p: Program<S>, tc: Map<usize, Seq<char>>, arms: Seq<(LHSPart, Expression<S>)>, n: int)
    requires
        0 <= n <= arms.len(),
        rhss_typing(lib, p, tc, arms.subrange(0, n)) is None,
    ensures
        rhss_typing(lib, p, tc, arms) is None,
    decreases arms.len(),
{
    if n < arms.len() {
        assert(arms.subrange(0, arms.len() - 1).subrange(0, n) =~= arms.subrange(0, n));
        lemma_rhss_none(lib, p, tc, arms.subrange(0, arms.len() - 1), n);
    } else {
        assert(arms.subrange(0, n) =~= arms);
    }
}

/// The instructions of the 128-bit constant `w` after `n` others: its high
/// half, its low half, the two joined.
pub open spec fn wide_ops(w: u128, n: int) -> Seq<Op> {
    seq![
        Op::Iconst(MachineType::I64, (w >> 64u32) as i64),
        Op::Iconst(MachineType::I64, w as i64),
        Op::Iconcat(vr(n + 1, 0), vr(n, 0)),
    ]
}

/// The intermediate instruction lists, blocks and values through which
/// the code of an expression is emitted, with those of its sub-expressions.
pub struct Emit {
    pub states: Seq<Seq<Op>>,
    pub mids: Seq<Seq<Op>>,
    pub blocks: Seq<usize>,
    pub vals: Seq<ValueRef>,
    pub xvals: Seq<ValueRef>,
    pub subs: Seq<Emit>,
    pub cargs: Seq<(JExpr, JType)>,
    pub t: MachineType,
}

/// What compiling `e` with variable types `tc`, starting in block `blk`,
/// emits: `new` is `old` followed by its code, which ends in block `rb`
/// with the value `v` of the expression.
pub open spec fn expr_emitted<S>(lib: Seq<FFI>, p: Program<S>, tc: Map<usize, Seq<char>>, e: Expression<S>, blk: usize, old: Seq<Op>, new: Seq<Op>, rb: usize, v: ValueRef) -> bool {
    exists|w: Emit| #[trigger] emits(lib, p, tc, e, blk, old, new, rb, v, w)
}

/// `expr_emitted`, through the intermediate lists, blocks and values `w`.
/// Sub-expressions are compiled in order, each as this relation says, with
/// the variable types that `expr_typing` gives at that point.
pub open spec fn emits<S>(lib: Seq<FFI>, p: Program<S>, tc: Map<usize, Seq<char>>, e: Expression<S>, blk: usize, old: Seq<Op>, new: Seq<Op>, rb: usize, v: ValueRef, w: Emit) -> bool
    decreases e, 1nat,
{
    let n = old.len() as int;
    match e {
        Expression::VariableReference(vi, tt, _) => {
            let plan = cast_plan_spec(tc[vi], type_nom(tt))->0;
            &&& new == old.push(Op::UseVar(vi)) + cast_ops(plan, vr(n, 0), (n + 1) as usize)
            &&& v == cast_result(plan, vr(n, 0), (n + 1) as usize)
            &&& rb == blk
        },
        Expression::ValueIntroduction(av, tt, _) => av matches AstValue::Unary(m, _) && {
            &&& new == old + unary_ops(m@, type_nom(tt), n)
            &&& v == unary_result(type_nom(tt), n)
            &&& rb == blk
        },
        Expression::FunctionApplication(fi, args, _, _) => {
            let c = w.subs[0];
            &&& w.subs.len() == 1
            &&& exprs_chain(lib, p, tc, args@, blk, old, c)
            &&& c.blocks.last() == rb
            &&& w.cargs.len() == c.vals.len()
            &&& (forall|i: int| 0 <= i < c.vals.len() ==> (#[trigger] w.cargs[i]).0.value == c.vals[i])
            &&& arg_names(w.cargs) == (exprs_typing(lib, p, tc, args@)->0).0
            &&& apply_emitted(lib, p, fi@, w.cargs, c.states.last(), new, v, w.t)
        },
        Expression::LiteralIntroduction(lis, tt, _) => {
            let nom = type_nom(tt);
            if nom == "Unit"@ {
                new == old + wide_ops(packed(tag_code(Tag::Unit) as u128, 0, 0), n) && v == vr(n + 2, 0) && rb == blk
            } else if nom == "U64"@ {
                &&& lis_chain(lib, p, tc, lis@, blk, old.push(Op::Iconst(MachineType::I64, 0)), vr(n, 0), w)
                &&& w.states.last() == new
                &&& w.blocks.last() == rb
                &&& w.vals.last() == v
            } else if nom == "Value"@ {
                new == old + wide_ops(packed(tag_code(Tag::U64) as u128, 0, 123), n) && v == vr(n + 2, 0) && rb == blk
            } else {
                string_emitted(new, n, string_chars(lis@)) && new.subrange(0, n) == old && v == vr(new.len() - 1, 0) && rb == blk
            }
        },
        Expression::TupleIntroduction(ts, _, _) => {
            let values = ts@.len() == 1 && ts@[0] is Tuple;
            let cnt = if values { ts@[0]->Tuple_0@.len() as int } else { ts@.len() as int };
            let map = vr(n + 1, 0);
            let maphi = vr(n + 1, 1);
            &&& new.subrange(0, n) == old
            &&& new.len() >= n + 3
            &&& new[n] == Op::Iconst(MachineType::I64, cnt as i64)
            &&& is_call_of(new[n + 1], "with_capacity:(U64)->Tuple"@, seq![vr(n, 0)])
            &&& new.last() == Op::Iconcat(map, maphi)
            &&& v == vr(new.len() - 1, 0)
            &&& if values {
                &&& new.len() == n + 2 + 3 * cnt + 1
                &&& rb == blk
                &&& forall|i: int| 0 <= i < cnt ==> small_values_pushed(new, n + 2 + 3 * i, #[trigger] ts@[0]->Tuple_0@[i], map, maphi)
            } else {
                &&& tis_chain(lib, p, tc, ts@, blk, new.subrange(0, n + 2), map, maphi, w)
                &&& w.states.last() == new.subrange(0, new.len() - 1)
                &&& w.blocks.last() == rb
            }
        },
        Expression::PatternMatch(pe, arms, _, _) => {
            let tc1 = (expr_typing(lib, p, tc, *pe)->0).1;
            let sname = (expr_typing(lib, p, tc, *pe)->0).0;
            let tc2 = lhss_typing(arms@, sname, tc1)->0;
            let k = arms@.len() as int;
            let st = machine_type_of(opt_str(expr_type(arms@[k - 1].1).name))->0;
            let s1 = w.mids[0];
            let s2 = w.mids[1];
            let s3 = w.states.last();
            let r = w.subs[1];
            let s4 = r.states.last();
            let base = s1.len() as int;
            &&& w.mids.len() == 2
            &&& w.subs.len() == 2
            &&& w.blocks.len() == 1
            &&& w.vals.len() == 1
            &&& emits(lib, p, tc, *pe, blk, old, s1, w.blocks[0], w.vals[0], w.subs[0])
            &&& grew(s1, s2)
            &&& pattern_head(s2, base, k, st, w.blocks[0])
            &&& lhss_chain(arms@, base, k, w.vals[0], s2, w.states)
            &&& rhss_chain(lib, p, tc2, arms@, base, s3, r)
            &&& new.len() == s4.len() + 4
            &&& new.subrange(0, s4.len() as int) == s4
            &&& new[s4.len() as int] == Op::SwitchToBlock(base as usize)
            &&& new[s4.len() + 1int] == Op::Trap(TrapKind::UnreachableCodeReached)
            &&& new[s4.len() + 2int] == Op::SealBlock(base as usize)
            &&& new[s4.len() + 3int] == Op::SwitchToBlock((base + 1) as usize)
            &&& rb == base + 1
            &&& v == vr(base + 2, 0)
        },
        Expression::FlatMap(lhs, it, x, _, _) => {
            let tc1 = (expr_typing(lib, p, tc, *it)->0).1;
            let tc2 = match *lhs {
                LHSPart::Variable(vi) => tc1.insert(vi, "Value"@),
                _ => tc1,
            };
            let s1 = w.mids[0];
            let f = frame_at(s1.len() as int);
            let s2 = w.mids[1];
            let s3 = w.mids[2];
            let s4 = w.mids[3];
            let b1 = w.blocks[0];
            let bin = w.blocks[1];
            let xv = w.vals[1];
            let q = s4.len() as int;
            &&& w.mids.len() == 4
            &&& w.blocks.len() == 2
            &&& w.vals.len() == 2
            &&& w.subs.len() == 3
            &&& emits(lib, p, tc, *it, blk, old, s1, b1, w.vals[0], w.subs[0])
            &&& frame_emitted(s1, s2, w.vals[0], f)
            &&& match *lhs {
                LHSPart::Variable(vi) => s3 == s2.push(Op::DeclareVar(vi, MachineType::I128)).push(Op::DefVar(vi, f.item)),
                _ => s3 == s2,
            }
            &&& map_body_emitted(lib, p, tc2, *x, f, s3, s4, bin, xv, w.subs[1], w.subs[2])
            &&& new.len() == q + 10
            &&& new.subrange(0, q) == s4
            &&& new[q] == Op::Isplit(xv)
            &&& is_call_of(new[q + 1], ".push:(Tuple,Value)->U64"@, seq![f.map_lo, f.map_hi, vr(q, 0), vr(q, 1)])
            &&& new[q + 2] == Op::IaddImm(f.i, 1)
            &&& is_jump(new[q + 3], f.loop_controller, seq![vr(q + 2, 0)])
            &&& new[q + 4] == Op::SealBlock(bin)
            &&& new[q + 5] == Op::SealBlock(f.loop_controller)
            &&& new[q + 6] == Op::SealBlock(b1)
            &&& new[q + 7] == Op::SwitchToBlock(f.after_loop)
            &&& is_call_of(new[q + 8], "trim_capacity:(Tuple)->Tuple"@, seq![f.map_lo, f.map_hi])
            &&& new[q + 9] == Op::Iconcat(vr(q + 8, 0), vr(q + 8, 1))
            &&& rb == f.after_loop
            &&& v == vr(q + 9, 0)
        },
        _ => false,
    }
}

/// What the body `x` of a map emits in the loop whose frame is `f`, with
/// variable types `tc2`: `s4` is `s3` followed by its code, which ends in
/// block `bin` with value `xv`. A guard `cond ? 1 => y` is compiled (through
/// `g`), then a branch that goes on to the next item where it is 0, then
/// `y`; an expression is compiled as it is (through `bsub`); a variable is
/// read.
pub open spec fn map_body_emitted<S>(lib: Seq<FFI>, p: Program<S>, tc2: Map<usize, Seq<char>>, x: TIPart<S>, f: LoopFrame, s3: Seq<Op>, s4: Seq<Op>, bin: usize, xv: ValueRef, g: Emit, bsub: Emit) -> bool
    decreases x, 0nat,
{
    match x {
        TIPart::Variable(vi) => s4 == s3.push(Op::UseVar(vi)) && xv == vr(s3.len() as int, 0) && bin == f.in_loop,
        TIPart::Expression(xe) => match xe {
            Expression::PatternMatch(gc, arms, _, _) => if is_guarded(xe) {
                let tc3 = (expr_typing(lib, p, tc2, *gc)->0).1;
                let sg = g.mids[0];
                let bg = g.blocks[0];
                let gv = g.vals[0];
                let l = sg.len() as int;
                let sh = g.mids[1];
                &&& g.mids.len() == 2
                &&& g.blocks.len() == 1
                &&& g.vals.len() == 1
                &&& g.subs.len() == 1
                &&& emits(lib, p, tc2, *gc, f.in_loop, s3, sg, bg, gv, g.subs[0])
                &&& sh.len() == l + 10
                &&& sh.subrange(0, l) == sg
                &&& sh[l] == Op::CreateBlock
                &&& sh[l + 1] == Op::CreateBlock
                &&& is_brz(sh[l + 2], gv, l as usize, Seq::empty())
                &&& is_jump(sh[l + 3], (l + 1) as usize, Seq::empty())
                &&& sh[l + 4] == Op::SealBlock(bg)
                &&& sh[l + 5] == Op::SwitchToBlock(l as usize)
                &&& sh[l + 6] == Op::IaddImm(f.i, 1)
                &&& is_jump(sh[l + 7], f.loop_controller, seq![vr(l + 6, 0)])
                &&& sh[l + 8] == Op::SealBlock(l as usize)
                &&& sh[l + 9] == Op::SwitchToBlock((l + 1) as usize)
                &&& emits(lib, p, tc3, arms@[0].1, (l + 1) as usize, sh, s4, bin, xv, bsub)
            } else {
                emits(lib, p, tc2, xe, f.in_loop, s3, s4, bin, xv, bsub)
            },
            _ => emits(lib, p, tc2, xe, f.in_loop, s3, s4, bin, xv, bsub),
        },
        _ => false,
    }
}

/// The chain through which the expressions `es` are compiled in order from
/// block `blk`: `w.states` are the instruction lists before each and after
/// the last, `w.blocks` the blocks, `w.vals` their values, `w.subs` how each
/// was emitted.
pub open spec fn exprs_chain<S>(lib: Seq<FFI>, p: Program<S>, tc: Map<usize, Seq<char>>, es: Seq<Expression<S>>, blk: usize, old: Seq<Op>, w: Emit) -> bool
    decreases es, 0nat,
{
    let n = es.len() as int;
    &&& w.states.len() == n + 1
    &&& w.blocks.len() == n + 1
    &&& w.vals.len() == n
    &&& w.subs.len() == n
    &&& w.states[0] == old
    &&& w.blocks[0] == blk
    &&& n > 0 ==> {
        let pre = es.subrange(0, n - 1);
        let tc1 = (exprs_typing(lib, p, tc, pre)->0).1;
        &&& exprs_chain(lib, p, tc, pre, blk, old, Emit {
            states: w.states.drop_last(),
            blocks: w.blocks.drop_last(),
            vals: w.vals.drop_last(),
            subs: w.subs.drop_last(),
            ..w
        })
        &&& emits(lib, p, tc1, es[n - 1], w.blocks[n - 1], w.states[n - 1], w.states[n], w.blocks[n], w.vals[n - 1], w.subs[n - 1])
    }
}

/// The empty chain.
pub open spec fn start_chain(old: Seq<Op>, blk: usize) -> Emit {
    Emit {
        states: seq![old],
        mids: Seq::empty(),
        blocks: seq![blk],
        vals: Seq::empty(),
        xvals: Seq::empty(),
        subs: Seq::empty(),
        cargs: Seq::empty(),
        t: MachineType::I64,
    }
}

/// The chain `w` with one more expression, emitted through `sub` up to
/// `new`, ending in block `b` with value `v`.
pub open spec fn chain_push(w: Emit, new: Seq<Op>, b: usize, v: ValueRef, sub: Emit) -> Emit {
    Emit { states: w.states.push(new), blocks: w.blocks.push(b), vals: w.vals.push(v), subs: w.subs.push(sub), ..w }
}

/// One more expression compiled after those of a chain extends the chain.
proof fn lemma_exprs_chain_push<S>(lib: Seq<FFI>, p: Program<S>, tc: Map<usize, Seq<char>>, es: Seq<Expression<S>>, e: Expression<S>, blk: usize, old: Seq<Op>, w: Emit, new: Seq<Op>, b: usize, v: ValueRef, sub: Emit)
    requires
        exprs_chain(lib, p, tc, es, blk, old, w),
        emits(lib, p, (exprs_typing(lib, p, tc, es)->0).1, e, w.blocks.last(), w.states.last(), new, b, v, sub),
    ensures
        exprs_chain(lib, p, tc, es.push(e), blk, old, chain_push(w, new, b, v, sub)),
{
    let w2 = chain_push(w, new, b, v, sub);
    assert(es.push(e).subrange(0, es.len() as int) =~= es);
    assert(w2.states.drop_last() =~= w.states);
    assert(w2.blocks.drop_last() =~= w.blocks);
    assert(w2.vals.drop_last() =~= w.vals);
    assert(w2.subs.drop_last() =~= w.subs);
    assert((Emit { states: w2.states.drop_last(), blocks: w2.blocks.drop_last(), vals: w2.vals.drop_last(), subs: w2.subs.drop_last(), ..w2 }) == w);
}

/// The last of the `n` parts of the chain `w` of a 64-bit literal, `part`,
/// compiled with variable types `tc1`: an expression whose value is added,
/// a number added, or a variable used and added.
pub open spec fn lis_step<S>(lib: Seq<FFI>, p: Program<S>, tc1: Map<usize, Seq<char>>, part: LIPart<S>, w: Emit, n: int) -> bool
    decreases part, 0nat,
{
    let mid = w.states[n - 1];
    let a = w.vals[n - 1];
    match part {
        LIPart::Expression(x) => {
            let mid2 = w.mids[n - 1];
            &&& emits(lib, p, tc1, x, w.blocks[n - 1], mid, mid2, w.blocks[n], w.xvals[n - 1], w.subs[n - 1])
            &&& w.states[n] == mid2.push(Op::Iadd(a, w.xvals[n - 1]))
            &&& w.vals[n] == vr(mid2.len() as int, 0)
        },
        LIPart::Literal(cs) => {
            &&& w.states[n] == mid.push(Op::IaddImm(a, parse_u64_spec(cs@)->0 as i64))
            &&& w.blocks[n] == w.blocks[n - 1]
            &&& w.vals[n] == vr(mid.len() as int, 0)
        },
        LIPart::InlineVariable(vi) => {
            &&& w.states[n] == mid.push(Op::UseVar(vi)).push(Op::Iadd(a, vr(mid.len() as int, 0)))
            &&& w.blocks[n] == w.blocks[n - 1]
            &&& w.vals[n] == vr(mid.len() + 1int, 0)
        },
    }
}

/// The chain `w` of a 64-bit literal's parts with one more.
pub open spec fn lis_push(w: Emit, new: Seq<Op>, b: usize, acc: ValueRef, mid2: Seq<Op>, xv: ValueRef, sub: Emit) -> Emit {
    Emit { states: w.states.push(new), blocks: w.blocks.push(b), vals: w.vals.push(acc), mids: w.mids.push(mid2), xvals: w.xvals.push(xv), subs: w.subs.push(sub), ..w }
}

/// One more part added after those of a chain extends the chain.
proof fn lemma_lis_chain_push<S>(lib: Seq<FFI>, p: Program<S>, tc: Map<usize, Seq<char>>, ps: Seq<LIPart<S>>, part: LIPart<S>, blk: usize, old: Seq<Op>, acc0: ValueRef, w: Emit, w2: Emit)
    requires
        lis_chain(lib, p, tc, ps, blk, old, acc0, w),
        w2.states.drop_last() == w.states,
        w2.blocks.drop_last() == w.blocks,
        w2.vals.drop_last() == w.vals,
        w2.mids.drop_last() == w.mids,
        w2.xvals.drop_last() == w.xvals,
        w2.subs.drop_last() == w.subs,
        w2.states.len() == w.states.len() + 1,
        w2.blocks.len() == w.blocks.len() + 1,
        w2.vals.len() == w.vals.len() + 1,
        w2.mids.len() == w.mids.len() + 1,
        w2.xvals.len() == w.xvals.len() + 1,
        w2.subs.len() == w.subs.len() + 1,
        w2.cargs == w.cargs,
        w2.t == w.t,
        lis_step(lib, p, lis_typing(lib, p, tc, ps)->0, part, w2, ps.len() + 1int),
    ensures
        lis_chain(lib, p, tc, ps.push(part), blk, old, acc0, w2),
{
    assert(ps.push(part).subrange(0, ps.len() as int) =~= ps);
    assert(w2.states[0] == w.states[0]);
    assert(w2.blocks[0] == w.blocks[0]);
    assert(w2.vals[0] == w.vals[0]);
    assert((Emit { states: w2.states.drop_last(), blocks: w2.blocks.drop_last(), vals: w2.vals.drop_last(), mids: w2.mids.drop_last(), xvals: w2.xvals.drop_last(), subs: w2.subs.drop_last(), ..w2 }) == w);
}

/// The chain through which the parts `ps` of a 64-bit literal are added in
/// order to the running sum, which starts as `acc0`: `w.states` are the
/// lists, `w.blocks` the blocks, `w.vals` the sums, `w.mids` the lists
/// after each part's expression, `w.subs` how each was emitted.
pub open spec fn lis_chain<S>(lib: Seq<FFI>, p: Program<S>, tc: Map<usize, Seq<char>>, ps: Seq<LIPart<S>>, blk: usize, old: Seq<Op>, acc0: ValueRef, w: Emit) -> bool
    decreases ps, 0nat,
{
    let n = ps.len() as int;
    &&& w.states.len() == n + 1
    &&& w.blocks.len() == n + 1
    &&& w.vals.len() == n + 1
    &&& w.mids.len() == n
    &&& w.xvals.len() == n
    &&& w.subs.len() == n
    &&& w.states[0] == old
    &&& w.blocks[0] == blk
    &&& w.vals[0] == acc0
    &&& n > 0 ==> {
        let pre = ps.subrange(0, n - 1);
        let tc1 = lis_typing(lib, p, tc, pre)->0;
        let mid = w.states[n - 1];
        let a = w.vals[n - 1];
        &&& lis_chain(lib, p, tc, pre, blk, old, acc0, Emit {
            states: w.states.drop_last(),
            blocks: w.blocks.drop_last(),
            vals: w.vals.drop_last(),
            mids: w.mids.drop_last(),
            xvals: w.xvals.drop_last(),
            subs: w.subs.drop_last(),
            ..w
        })
        &&& lis_step(lib, p, tc1, ps[n - 1], w, n)
    }
}

/// The characters of a string literal's parts, each without its quotes.
pub open spec fn string_chars<S>(ps: Seq<LIPart<S>>) -> Seq<char>
    decreases ps.len(),
{
    if ps.len() == 0 {
        Seq::empty()
    } else {
        string_chars(ps.drop_last()) + match ps.last() {
            LIPart::Literal(cs) => cs@.subrange(1, cs@.len() - 1),
            _ => Seq::empty(),
        }
    }
}

/// From `n` on, a string literal with characters `cs`: its length, a new
/// string of that capacity, each character pushed onto it, and the string
/// as the last instruction's value.
pub open spec fn string_emitted(ops: Seq<Op>, n: int, cs: Seq<char>) -> bool {
    &&& ops.len() == n + 2 + 2 * cs.len() + 1
    &&& ops[n] == Op::Iconst(MachineType::I64, cs.len() as i64)
    &&& is_call_of(ops[n + 1], "with_capacity:(U64)->String"@, seq![vr(n, 0)])
    &&& forall|i: int| 0 <= i < cs.len() ==> char_pushed(ops, n + 2 + 2 * i, #[trigger] cs[i], vr(n + 1, 0), vr(n + 1, 1))
    &&& ops[ops.len() - 1] == Op::Iconcat(vr(n + 1, 0), vr(n + 1, 1))
}

/// At `j`, the character `c` pushed onto the string whose halves are `lo`, `hi`.
pub open spec fn char_pushed(ops: Seq<Op>, j: int, c: char, lo: ValueRef, hi: ValueRef) -> bool {
    &&& ops[j] == Op::Iconst(MachineType::I32, (c as u32) as i64)
    &&& is_call_of(ops[j + 1], ".push:(String,U32)->U64"@, seq![lo, hi, vr(j, 0)])
}

/// At `j`, the unary constant `x` pushed, tagged as a number, onto the tuple
/// whose halves are `lo`, `hi`.
pub open spec fn small_values_pushed(ops: Seq<Op>, j: int, x: AstValue, lo: ValueRef, hi: ValueRef) -> bool {
    &&& x matches AstValue::Unary(m, _) && ops[j] == Op::Iconst(MachineType::I64, m@ as i64)
    &&& ops[j + 1] == Op::Iconst(MachineType::I64, tag_word(Tag::U64))
    &&& is_call_of(ops[j + 2], ".push:(Tuple,Value)->U64"@, seq![lo, hi, vr(j, 0), vr(j + 1, 0)])
}

/// The chain through which the parts `ps` of a tuple are emitted in order:
/// each expression's code, its value converted to `Value`, split and pushed
/// onto the tuple whose halves are `lo`, `hi`. `w.states` are the lists,
/// `w.mids` those after each expression, `w.blocks` the blocks, `w.subs` how
/// each was emitted, and the expressions' values are `w.xvals`.
pub open spec fn tis_chain<S>(lib: Seq<FFI>, p: Program<S>, tc: Map<usize, Seq<char>>, ps: Seq<TIPart<S>>, blk: usize, old: Seq<Op>, lo: ValueRef, hi: ValueRef, w: Emit) -> bool
    decreases ps, 0nat,
{
    let n = ps.len() as int;
    &&& w.states.len() == n + 1
    &&& w.blocks.len() == n + 1
    &&& w.mids.len() == n
    &&& w.xvals.len() == n
    &&& w.subs.len() == n
    &&& w.states[0] == old
    &&& w.blocks[0] == blk
    &&& n > 0 ==> {
        let pre = ps.subrange(0, n - 1);
        let tc1 = tis_typing(lib, p, tc, pre)->0;
        &&& tis_chain(lib, p, tc, pre, blk, old, lo, hi, Emit {
            states: w.states.drop_last(),
            blocks: w.blocks.drop_last(),
            mids: w.mids.drop_last(),
            xvals: w.xvals.drop_last(),
            subs: w.subs.drop_last(),
            ..w
        })
        &&& match ps[n - 1] {
            TIPart::Expression(x) => {
                let mid2 = w.mids[n - 1];
                let xv = w.xvals[n - 1];
                let plan = cast_plan_spec((expr_typing(lib, p, tc1, x)->0).0, "Value"@)->0;
                let mid3 = mid2 + cast_ops(plan, xv, mid2.len() as usize);
                let l = mid3.len() as int;
                let new = w.states[n];
                &&& emits(lib, p, tc1, x, w.blocks[n - 1], w.states[n - 1], mid2, w.blocks[n], xv, w.subs[n - 1])
                &&& new.len() == l + 2
                &&& new.subrange(0, l) == mid3
                &&& new[l] == Op::Isplit(cast_result(plan, xv, mid2.len() as usize))
                &&& is_call_of(new[l + 1], ".push:(Tuple,Value)->U64"@, seq![lo, hi, vr(l, 0), vr(l, 1)])
            },
            _ => false,
        }
    }
}

/// The chain `w` of tuple parts with one more, whose expression's code
/// ends at `mid2` in block `b` with value `xv`, emitted through `sub`.
pub open spec fn tis_push(w: Emit, new: Seq<Op>, mid2: Seq<Op>, b: usize, xv: ValueRef, sub: Emit) -> Emit {
    Emit { states: w.states.push(new), mids: w.mids.push(mid2), blocks: w.blocks.push(b), xvals: w.xvals.push(xv), subs: w.subs.push(sub), ..w }
}

/// One more tuple part emitted after those of a chain extends the chain.
proof fn lemma_tis_chain_push<S>(lib: Seq<FFI>, p: Program<S>, tc: Map<usize, Seq<char>>, ps: Seq<TIPart<S>>, part: TIPart<S>, blk: usize, old: Seq<Op>, lo: ValueRef, hi: ValueRef, w: Emit, new: Seq<Op>, mid2: Seq<Op>, b: usize, xv: ValueRef, sub: Emit)
    requires
        tis_chain(lib, p, tc, ps, blk, old, lo, hi, w),
        part matches TIPart::Expression(x) && {
            let tc1 = tis_typing(lib, p, tc, ps)->0;
            let plan = cast_plan_spec((expr_typing(lib, p, tc1, x)->0).0, "Value"@)->0;
            let mid3 = mid2 + cast_ops(plan, xv, mid2.len() as usize);
            let l = mid3.len() as int;
            &&& emits(lib, p, tc1, x, w.blocks.last(), w.states.last(), mid2, b, xv, sub)
            &&& new.len() == l + 2
            &&& new.subrange(0, l) == mid3
            &&& new[l] == Op::Isplit(cast_result(plan, xv, mid2.len() as usize))
            &&& is_call_of(new[l + 1], ".push:(Tuple,Value)->U64"@, seq![lo, hi, vr(l, 0), vr(l, 1)])
        },
    ensures
        tis_chain(lib, p, tc, ps.push(part), blk, old, lo, hi, tis_push(w, new, mid2, b, xv, sub)),
{
    let w2 = tis_push(w, new, mid2, b, xv, sub);
    assert(ps.push(part).subrange(0, ps.len() as int) =~= ps);
    assert(w2.states.drop_last() =~= w.states);
    assert(w2.mids.drop_last() =~= w.mids);
    assert(w2.blocks.drop_last() =~= w.blocks);
    assert(w2.xvals.drop_last() =~= w.xvals);
    assert(w2.subs.drop_last() =~= w.subs);
    assert((Emit { states: w2.states.drop_last(), blocks: w2.blocks.drop_last(), mids: w2.mids.drop_last(), xvals: w2.xvals.drop_last(), subs: w2.subs.drop_last(), ..w2 }) == w);
}

/// The block that tests arm `i` of `k` whose blocks start at `base`: the
/// blocks made for the arms, then the block that fails at `base`.
pub open spec fn arm_block(base: int, k: int, i: int) -> usize {
    if i < k {
        (base + 3 + 2 * i) as usize
    } else {
        base as usize
    }
}

/// From `base` on, the start of a match of `k` arms after its scrutinee,
/// which ended in block `b1`: the block that fails, the block where the
/// arms meet with its parameter of machine type `st`, a test block and a
/// value block per arm, a jump to the first test, and `b1` sealed.
pub open spec fn pattern_head(ops: Seq<Op>, base: int, k: int, st: MachineType, b1: usize) -> bool {
    &&& ops.len() == base + 3 + 2 * k + 2
    &&& ops[base] == Op::CreateBlock
    &&& ops[base + 1] == Op::CreateBlock
    &&& ops[base + 2] == Op::AppendBlockParam((base + 1) as usize, st)
    &&& forall|i: int| 0 <= i < 2 * k ==> #[trigger] ops[base + 3 + i] == Op::CreateBlock
    &&& is_jump(ops[base + 3 + 2 * k], arm_block(base, k, 0), Seq::empty())
    &&& ops[base + 4 + 2 * k] == Op::SealBlock(b1)
}

/// The chain of the tests of the patterns of `arms`, in order, against the
/// scrutinee's value `v1`: each from its test block, on to its value block
/// where it matches and to the next test where it does not; `states` are
/// the lists before each and after the last.
pub open spec fn lhss_chain<S>(arms: Seq<(LHSPart, Expression<S>)>, base: int, k: int, v1: ValueRef, old: Seq<Op>, states: Seq<Seq<Op>>) -> bool
    decreases arms.len(),
{
    let n = arms.len() as int;
    &&& states.len() == n + 1
    &&& states[0] == old
    &&& n > 0 ==> {
        &&& lhss_chain(arms.subrange(0, n - 1), base, k, v1, old, states.drop_last())
        &&& lhs_emitted(arms[n - 1].0, arm_block(base, k, n - 1), (base + 4 + 2 * (n - 1)) as usize, arm_block(base, k, n), v1, states[n - 1], states[n])
    }
}

/// The chain of the right-hand sides of `arms`, in order: each in its value
/// block, its value passed to the block where the arms meet, and its last
/// block sealed. `w.states` are the lists, `w.mids` those after each
/// expression, `w.blocks` the blocks where each ended, `w.vals` their values.
pub open spec fn rhss_chain<S>(lib: Seq<FFI>, p: Program<S>, tc: Map<usize, Seq<char>>, arms: Seq<(LHSPart, Expression<S>)>, base: int, old: Seq<Op>, w: Emit) -> bool
    decreases arms, 0nat,
{
    let n = arms.len() as int;
    &&& w.states.len() == n + 1
    &&& w.mids.len() == n
    &&& w.blocks.len() == n
    &&& w.vals.len() == n
    &&& w.subs.len() == n
    &&& w.states[0] == old
    &&& n > 0 ==> {
        let i = n - 1;
        let pre = arms.subrange(0, i);
        let tc1 = (rhss_typing(lib, p, tc, pre)->0).1;
        let mid = w.states[i];
        let mid2 = w.mids[i];
        let new = w.states[n];
        &&& rhss_chain(lib, p, tc, pre, base, old, Emit {
            states: w.states.drop_last(),
            mids: w.mids.drop_last(),
            blocks: w.blocks.drop_last(),
            vals: w.vals.drop_last(),
            subs: w.subs.drop_last(),
            ..w
        })
        &&& emits(lib, p, tc1, arms[i].1, (base + 4 + 2 * i) as usize, mid.push(Op::SwitchToBlock((base + 4 + 2 * i) as usize)), mid2, w.blocks[i], w.vals[i], w.subs[i])
        &&& new.len() == mid2.len() + 2
        &&& new.subrange(0, mid2.len() as int) == mid2
        &&& is_jump(new[mid2.len() as int], (base + 1) as usize, seq![w.vals[i]])
        &&& new[mid2.len() + 1int] == Op::SealBlock(w.blocks[i])
    }
}

/// One more pattern tested after those of a chain extends the chain.
proof fn lemma_lhss_chain_push<S>(arms: Seq<(LHSPart, Expression<S>)>, a: (LHSPart, Expression<S>), base: int, k: int, v1: ValueRef, old: Seq<Op>, states: Seq<Seq<Op>>, new: Seq<Op>)
    requires
        lhss_chain(arms, base, k, v1, old, states),
        lhs_emitted(a.0, arm_block(base, k, arms.len() as int), (base + 4 + 2 * arms.len()) as usize, arm_block(base, k, arms.len() + 1int), v1, states.last(), new),
    ensures
        lhss_chain(arms.push(a), base, k, v1, old, states.push(new)),
{
    assert(arms.push(a).subrange(0, arms.len() as int) =~= arms);
    assert(states.push(new).drop_last() =~= states);
}

/// The chain `w` of right-hand sides with one more, whose code after
/// `mid2` ends in block `b` with value `av`, emitted through `sub`.
pub open spec fn rhs_push(w: Emit, new: Seq<Op>, mid2: Seq<Op>, b: usize, av: ValueRef, sub: Emit) -> Emit {
    Emit { states: w.states.push(new), mids: w.mids.push(mid2), blocks: w.blocks.push(b), vals: w.vals.push(av), subs: w.subs.push(sub), ..w }
}

/// One more right-hand side emitted after those of a chain extends the chain.
proof fn lemma_rhss_chain_push<S>(lib: Seq<FFI>, p: Program<S>, tc: Map<usize, Seq<char>>, arms: Seq<(LHSPart, Expression<S>)>, a: (LHSPart, Expression<S>), base: int, old: Seq<Op>, w: Emit, new: Seq<Op>, mid2: Seq<Op>, b: usize, av: ValueRef, sub: Emit)
    requires
        rhss_chain(lib, p, tc, arms, base, old, w),
        emits(lib, p, (rhss_typing(lib, p, tc, arms)->0).1, a.1, (base + 4 + 2 * arms.len()) as usize,
            w.states.last().push(Op::SwitchToBlock((base + 4 + 2 * arms.len()) as usize)), mid2, b, av, sub),
        new.len() == mid2.len() + 2,
        new.subrange(0, mid2.len() as int) == mid2,
        is_jump(new[mid2.len() as int], (base + 1) as usize, seq![av]),
        new[mid2.len() + 1int] == Op::SealBlock(b),
    ensures
        rhss_chain(lib, p, tc, arms.push(a), base, old, rhs_push(w, new, mid2, b, av, sub)),
{
    let w2 = rhs_push(w, new, mid2, b, av, sub);
    assert(arms.push(a).subrange(0, arms.len() as int) =~= arms);
    assert(w2.states.drop_last() =~= w.states);
    assert(w2.mids.drop_last() =~= w.mids);
    assert(w2.blocks.drop_last() =~= w.blocks);
    assert(w2.vals.drop_last() =~= w.vals);
    assert(w2.subs.drop_last() =~= w.subs);
    assert((Emit { states: w2.states.drop_last(), mids: w2.mids.drop_last(), blocks: w2.blocks.drop_last(), vals: w2.vals.drop_last(), subs: w2.subs.drop_last(), ..w2 }) == w);
}

/// Emits the code of expression `e`, starting in block `blk`, as
/// `try_compile_expr` does; `e` must be one that the compiler handles
/// (`expr_typing`).
pub fn compile_expr<S>(tc: &mut TypeContext, lib: &Vec<FFI>, p: &Program<S>, em: &mut Emitter, blk: usize, e: &Expression<S>) -> (res: (JExpr, JType))
    requires
        lib_ok(lib@),
        blk < old(em)@.len(),
        expr_typing(lib@, *p, old(tc)@, *e) is Some,
    ensures
        jtype_ok(res.1),
        grew(old(em)@, final(em)@),
        res.0.block < final(em)@.len() && ref_ok(res.0.value, final(em)@.len() as int),
        res.1.name@ == (expr_typing(lib@, *p, old(tc)@, *e)->0).0,
        final(tc)@ == (expr_typing(lib@, *p, old(tc)@, *e)->0).1,
        expr_emitted(lib@, *p, old(tc)@, *e, blk, old(em)@, final(em)@, res.0.block, res.0.value),
        *e matches Expression::ValueIntroduction(v, tt, _) ==> v matches AstValue::Unary(n, _) && {
            &&& final(em)@ == old(em)@ + unary_ops(n@, type_nom(tt), old(em)@.len() as int)
            &&& res.0.value == unary_result(type_nom(tt), old(em)@.len() as int)
            &&& res.0.block == blk
        },
        *e matches Expression::VariableReference(vi, tt, _) ==> {
            let n = old(em)@.len() as int;
            let plan = cast_plan_spec(old(tc)@[vi], type_nom(tt))->0;
            &&& final(em)@ == old(em)@.push(Op::UseVar(vi)) + cast_ops(plan, ValueRef { op: n as usize, k: 0 }, (n + 1) as usize)
            &&& res.0.value == cast_result(plan, ValueRef { op: n as usize, k: 0 }, (n + 1) as usize)
            &&& res.0.block == blk
        },
{
    match try_compile_expr(tc, lib, p, em, blk, e) {
        Ok(r) => r,
        Err(_) => {
            proof {
                assert(false);
            }
            (JExpr { block: blk, value: ValueRef { op: 0, k: 0 } }, JType { name: String::new(), jtype: MachineType::I64 })
        },
    }
}

/// Emits the code of expression `e`, starting in block `blk`: it records
/// the types of the variables it binds in `tc`, and gives the block where
/// control goes on and the value with its type. An error for what the
/// compiler does not handle: failures, function references, patterns on
/// tuples, maps over patterns that can fail, variables with no recorded
/// type, unknown types and functions, and conversions with no
/// representation.
pub fn try_compile_expr<S>(tc: &mut TypeContext, lib: &Vec<FFI>, p: &Program<S>, em: &mut Emitter, blk: usize, e: &Expression<S>) -> (res: Result<(JExpr, JType), String>)
    requires
        lib_ok(lib@),
        blk < old(em)@.len(),
    ensures
        res matches Ok(r) ==> jtype_ok(r.1),
        grew(old(em)@, final(em)@),
        res matches Ok(r) ==> r.0.block < final(em)@.len() && ref_ok(r.0.value, final(em)@.len() as int),
        compiled_as(lib@, *p, old(tc)@, *e, res, final(tc)@),
        res matches Ok(r) ==> expr_emitted(lib@, *p, old(tc)@, *e, blk, old(em)@, final(em)@, r.0.block, r.0.value),
        *e matches Expression::ValueIntroduction(v, tt, _) ==> (res matches Ok(r) ==> v matches AstValue::Unary(n, _) && {
            &&& final(em)@ == old(em)@ + unary_ops(n@, type_nom(tt), old(em)@.len() as int)
            &&& r.0.value == unary_result(type_nom(tt), old(em)@.len() as int)
            &&& r.0.block == blk
        }),
        *e matches Expression::VariableReference(vi, tt, _) ==> (res matches Ok(r) ==> {
            let n = old(em)@.len() as int;
            let plan = cast_plan_spec(old(tc)@[vi], type_nom(tt))->0;
            &&& final(em)@ == old(em)@.push(Op::UseVar(vi)) + cast_ops(plan, ValueRef { op: n as usize, k: 0 }, (n + 1) as usize)
            &&& r.0.value == cast_result(plan, ValueRef { op: n as usize, k: 0 }, (n + 1) as usize)
            &&& r.0.block == blk
        }),
    decreases e, 2nat,
{
    match e {
        Expression::FlatMap(..) => compile_flatmap(tc, lib, p, em, blk, e),
        Expression::ValueIntroduction(v, tt, _span) => {
            let r = compile_unary(em, blk, v, tt);
            proof {
                if r is Ok {
                    assert(emits(lib@, *p, old(tc)@, *e, blk, old(em)@, em@, r->Ok_0.0.block, r->Ok_0.0.value, start_chain(em@, blk)));
                }
            }
            r
        },
        Expression::LiteralIntroduction(..) => compile_literal(tc, lib, p, em, blk, e),
        Expression::TupleIntroduction(..) => compile_tuple(tc, lib, p, em, blk, e),
        Expression::VariableReference(vi, tt, _span) => {
            let jv = em.value(Op::UseVar(*vi));
            let jt = match jtype_named(tt) {
                Ok(j) => j,
                Err(m) => {
                    return Err(m);
                },
            };
            let ot = match tc.get(*vi) {
                Some(o) => o,
                None => {
                    return Err(numbered("Could not find Type of Variable v#", *vi, ""));
                },
            };
            let nv = match checked_cast(em, ot.as_str(), jt.name.as_str(), jv) {
                Ok(v) => v,
                Err(m) => {
                    return Err(m);
                },
            };
            assert(emits(lib@, *p, old(tc)@, *e, blk, old(em)@, em@, blk, nv, start_chain(em@, blk)));
            Ok((JExpr { block: blk, value: nv }, jt))
        },
        Expression::FunctionReference(..) => Err("not supported by the compiler: compile expression: FunctionReference".to_string()),
        Expression::FunctionApplication(fi, args, _tt, _span) => {
            let ghost blk0 = blk;
            let mut blk = blk;
            let mut arg_types: Vec<(JExpr, JType)> = Vec::new();
            let ghost mut w = start_chain(old(em)@, blk);
            let mut k: usize = 0;
            assert(arg_names(arg_types@) =~= Seq::<Seq<char>>::empty());
            assert(args@.subrange(0, 0) =~= Seq::<Expression<S>>::empty());
            while k < args.len()
                invariant
                lib_ok(lib@),
                    k <= args@.len(),
                    *e == Expression::FunctionApplication(*fi, *args, *_tt, *_span),
                    grew(old(em)@, em@),
                    blk < em@.len(),
                    forall|i: int| 0 <= i < arg_types@.len() ==> ref_ok(#[trigger] arg_types@[i].0.value, em@.len() as int),
                    exprs_typing(lib@, *p, old(tc)@, args@.subrange(0, k as int)) == Some((arg_names(arg_types@), tc@)),
                    arg_types@.len() == k,
                    w.vals.len() == k,
                    forall|i: int| 0 <= i < k ==> (#[trigger] arg_types@[i]).0.value == w.vals[i],
                    exprs_chain(lib@, *p, old(tc)@, args@.subrange(0, k as int), blk0, old(em)@, w),
                    w.states.last() == em@,
                    w.blocks.last() == blk,
                decreases args@.len() - k,
            {
                assert(decreases_to!(*e => e->FunctionApplication_1));
                assert(decreases_to!(e->FunctionApplication_1@ => e->FunctionApplication_1@[k as int]));
                let ghost names0 = arg_names(arg_types@);
                assert(args@.subrange(0, k + 1).subrange(0, k as int) =~= args@.subrange(0, k as int));
                let ghost mid = em@;
                let ghost b = blk;
                let ghost tc0 = tc@;
                match try_compile_expr(tc, lib, p, em, blk, &args[k]) {
                    Ok((je, jt)) => {
                        let ghost n = jt.name@;
                        blk = je.block;
                        arg_types.push((je, jt));
                        assert(arg_names(arg_types@) =~= names0.push(n));
                        proof {
                            let sub = choose|sub: Emit| emits(lib@, *p, tc0, args@[k as int], b, mid, em@, blk, je.value, sub);
                            lemma_exprs_chain_push(lib@, *p, old(tc)@, args@.subrange(0, k as int), args@[k as int], blk0, old(em)@, w, em@, blk, je.value, sub);
                            assert(args@.subrange(0, k as int).push(args@[k as int]) =~= args@.subrange(0, k + 1));
                            w = chain_push(w, em@, blk, je.value, sub);
                        }
                    },
                    Err(m) => {
                        proof {
                            lemma_exprs_none(lib@, *p, old(tc)@, args@, k + 1);
                        }
                        return Err(m);
                    },
                }
                k = k + 1;
            }
            assert(args@.subrange(0, k as int) =~= args@);
            let ghost mid = em@;
            let ghost cargs = arg_types@;
            let r = apply_fn(lib, p, em, blk, fi, arg_types);
            proof {
                if r is Ok {
                    let ew = Emit { subs: seq![w], cargs: cargs, t: r->Ok_0.1.jtype, ..w };
                    assert(ew.subs[0] == w);
                    assert(emits(lib@, *p, old(tc)@, *e, blk0, old(em)@, em@, r->Ok_0.0.block, r->Ok_0.0.value, ew));
                }
            }
            r
        },
        Expression::PatternMatch(..) => compile_pattern(tc, lib, p, em, blk, e),
        Expression::Failure(..) => Err("not supported by the compiler: compile expression: Failure".to_string()),
    }
}

/// The instructions of the unary constant `n` of type name `t`, after `at`
/// others: the number, joined with the tag word of `U64` for a `Value`.
pub open spec fn unary_ops(n: nat, t: Seq<char>, at: int) -> Seq<Op> {
    if t == "Value"@ {
        seq![
            Op::Iconst(MachineType::I64, n as i64),
            Op::Iconst(MachineType::I64, tag_word(Tag::U64)),
            Op::Iconcat(ValueRef { op: at as usize, k: 0 }, ValueRef { op: (at + 1) as usize, k: 0 }),
        ]
    } else {
        seq![Op::Iconst(MachineType::I64, n as i64)]
    }
}

/// The value of the unary constant of type name `t`, after `at` other
/// instructions.
pub open spec fn unary_result(t: Seq<char>, at: int) -> ValueRef {
    if t == "Value"@ {
        ValueRef { op: (at + 2) as usize, k: 0 }
    } else {
        ValueRef { op: at as usize, k: 0 }
    }
}

/// Emits a unary constant of type `Value` (tagged as a number) or `U64`.
fn compile_unary(em: &mut Emitter, blk: usize, v: &AstValue, tt: &Type) -> (res: Result<(JExpr, JType), String>)
    requires
        blk < old(em)@.len(),
    ensures
        res matches Ok(r) ==> jtype_ok(r.1),
        grew(old(em)@, final(em)@),
        res matches Ok(r) ==> r.0.block == blk && ref_ok(r.0.value, final(em)@.len() as int),
        res is Ok <==> small_unary(*v) && (type_nom(*tt) == "Value"@ || type_nom(*tt) == "U64"@),
        res matches Ok(r) ==> r.1.name@ == type_nom(*tt),
        res matches Ok(r) ==> *v matches AstValue::Unary(n, _) && {
            &&& final(em)@ == old(em)@ + unary_ops(n@, type_nom(*tt), old(em)@.len() as int)
            &&& r.0.value == unary_result(type_nom(*tt), old(em)@.len() as int)
        },
{
    proof {
        reveal_strlit("Value");
        reveal_strlit("U64");
        lemma_type_names();
        lemma_tag_code(Tag::U64);
    }
    let ghost n0 = old(em)@.len() as int;
    match v {
        AstValue::Unary(n, _) => {
            let tname = tt.nom();
            let ui = match n.to_i64() {
                Some(u) => u,
                None => {
                    return Err("not supported by the compiler: a unary constant that does not fit in 64 bits".to_string());
                },
            };
            if is_str(tname.as_str(), "Value") {
                let vlow = em.value(Op::Iconst(MachineType::I64, ui));
                let vhigh = em.value(Op::Iconst(MachineType::I64, tag_high_word(Tag::U64) as i64));
                let r = em.value(Op::Iconcat(vlow, vhigh));
                assert(em@ =~= old(em)@ + unary_ops(n@, type_nom(*tt), n0));
                Ok((JExpr { block: blk, value: r }, value_type()))
            } else if is_str(tname.as_str(), "U64") {
                let r = em.value(Op::Iconst(MachineType::I64, ui));
                assert(type_nom(*tt) != "Value"@);
                assert(em@ =~= old(em)@ + unary_ops(n@, type_nom(*tt), n0));
                Ok((JExpr { block: blk, value: r }, JType { name: "U64".to_string(), jtype: MachineType::I64 }))
            } else {
                Err(message("not supported by the compiler: compile expression Value::Unary of type ", tname.as_str(), ""))
            }
        },
        _ => Err("not supported by the compiler: compile expression of a non-unary value".to_string()),
    }
}

/// The values and blocks of the loop that a map compiles to.
pub struct LoopFrame {
    pub map_lo: ValueRef,
    pub map_hi: ValueRef,
    pub loop_controller: usize,
    pub in_loop: usize,
    pub i: ValueRef,
    pub after_loop: usize,
    pub item: ValueRef,
}

/// The frame of the loop whose start is emitted after `n` instructions.
pub open spec fn frame_at(n: int) -> LoopFrame {
    LoopFrame {
        map_lo: vr(n + 2, 0),
        map_hi: vr(n + 2, 1),
        loop_controller: (n + 3) as usize,
        in_loop: (n + 5) as usize,
        i: vr(n + 6, 0),
        after_loop: (n + 7) as usize,
        item: vr(n + 16, 0),
    }
}

/// Everything the frame names is defined before position `n`.
spec fn frame_ok(f: LoopFrame, n: int) -> bool {
    &&& ref_ok(f.map_lo, n)
    &&& ref_ok(f.map_hi, n)
    &&& f.loop_controller < n
    &&& f.in_loop < n
    &&& ref_ok(f.i, n)
    &&& f.after_loop < n
    &&& ref_ok(f.item, n)
}

/// The value `k` of instruction `op`.
pub open spec fn vr(op: int, k: int) -> ValueRef {
    ValueRef { op: op as usize, k: k as usize }
}

/// `new` is `old` followed by the start of the loop over the items of the
/// tuple `t`, whose values and blocks `f` names, with `n` the length of `old`:
/// the tuple split into halves, its length, a new tuple of that capacity;
/// the block that tests the counter (its parameter) against the length and
/// goes on to the body or after the loop; entered with counter 0; the body's
/// block (its parameter the counter), where the item at the counter is read
/// and joined into one value.
pub open spec fn frame_emitted(old: Seq<Op>, new: Seq<Op>, t: ValueRef, f: LoopFrame) -> bool {
    let n = old.len() as int;
    &&& new.len() == n + 17
    &&& new.subrange(0, n) == old
    &&& new[n] == Op::Isplit(t)
    &&& is_call_of(new[n + 1], ".length:(Tuple)->U64"@, seq![vr(n, 0), vr(n, 1)])
    &&& is_call_of(new[n + 2], "with_capacity:(U64)->Tuple"@, seq![vr(n + 1, 0)])
    &&& new[n + 3] == Op::CreateBlock
    &&& new[n + 4] == Op::AppendBlockParam((n + 3) as usize, MachineType::I64)
    &&& new[n + 5] == Op::CreateBlock
    &&& new[n + 6] == Op::AppendBlockParam((n + 5) as usize, MachineType::I64)
    &&& new[n + 7] == Op::CreateBlock
    &&& new[n + 8] == Op::Iconst(MachineType::I64, 0)
    &&& is_jump(new[n + 9], (n + 3) as usize, seq![vr(n + 8, 0)])
    &&& new[n + 10] == Op::SwitchToBlock((n + 3) as usize)
    &&& new[n + 11] == Op::Compare(IntCond::UnsignedLessThan, vr(n + 4, 0), vr(n + 1, 0))
    &&& is_brnz(new[n + 12], vr(n + 11, 0), (n + 5) as usize, seq![vr(n + 4, 0)])
    &&& is_jump(new[n + 13], (n + 7) as usize, Seq::empty())
    &&& new[n + 14] == Op::SwitchToBlock((n + 5) as usize)
    &&& is_call_of(new[n + 15], "[]:(Tuple,U64)->Value"@, seq![vr(n, 0), vr(n, 1), vr(n + 6, 0)])
    &&& new[n + 16] == Op::Iconcat(vr(n + 15, 0), vr(n + 15, 1))
    &&& f == frame_at(n)
}

/// Emits the start of the loop over the items of the tuple `t`: the new
/// tuple, the block that tests the counter, the loop body's block with the
/// current item, and the block after the loop. Control is left in the body.
fn loop_frame(em: &mut Emitter, t: ValueRef) -> (res: LoopFrame)
    requires
        ref_ok(t, old(em)@.len() as int),
    ensures
        grew(old(em)@, final(em)@),
        frame_ok(res, final(em)@.len() as int),
        frame_emitted(old(em)@, final(em)@, t, res),
{
    let sp = em.emit(Op::Isplit(t));
    let e_lo = ValueRef { op: sp, k: 0 };
    let e_hi = ValueRef { op: sp, k: 1 };
    let map_len = call(em, ".length:(Tuple)->U64", vec![e_lo, e_hi]);
    let cap_args = vec![map_len];
    assert(cap_args@ =~= seq![map_len]);
    let map_new = call(em, "with_capacity:(U64)->Tuple", cap_args);
    let loop_controller = em.emit(Op::CreateBlock);
    let lc_i = em.value(Op::AppendBlockParam(loop_controller, MachineType::I64));
    let in_loop = em.emit(Op::CreateBlock);
    let i = em.value(Op::AppendBlockParam(in_loop, MachineType::I64));
    let after_loop = em.emit(Op::CreateBlock);
    let zero = em.value(Op::Iconst(MachineType::I64, 0));
    let entry_args = vec![zero];
    assert(entry_args@ =~= seq![zero]);
    em.emit(Op::Jump(loop_controller, entry_args));
    em.emit(Op::SwitchToBlock(loop_controller));
    let cond = em.value(Op::Compare(IntCond::UnsignedLessThan, lc_i, map_len));
    let body_args = vec![lc_i];
    assert(body_args@ =~= seq![lc_i]);
    em.emit(Op::Brnz(cond, in_loop, body_args));
    em.emit(Op::Jump(after_loop, Vec::new()));
    em.emit(Op::SwitchToBlock(in_loop));
    let ii = call(em, "[]:(Tuple,U64)->Value", vec![e_lo, e_hi, i]);
    let item = em.value(Op::Iconcat(ii, ValueRef { op: ii.op, k: 1 }));
    assert(em@.subrange(0, old(em)@.len() as int) =~= old(em)@);
    LoopFrame { map_lo: map_new, map_hi: ValueRef { op: map_new.op, k: 1 }, loop_controller, in_loop, i, after_loop, item }
}

/// Emits the body `x` of the map `e` in the loop whose frame is `fr`: a
/// variable is read; a guard `cond ? 1 => y` is tested, going on to the next
/// item where it is 0, then `y` is compiled; an expression is compiled. The
/// block where the body ends and its value.
#[verifier::spinoff_prover]
#[verifier::rlimit(80)]
fn compile_map_body<S>(tc: &mut TypeContext, lib: &Vec<FFI>, p: &Program<S>, em: &mut Emitter, fr: &LoopFrame, x: &TIPart<S>, e: &Expression<S>) -> (res: Result<(usize, ValueRef, Ghost<(Emit, Emit)>), String>)
    requires
        lib_ok(lib@),
        e is FlatMap,
        *x == *e->FlatMap_2,
        frame_ok(*fr, old(em)@.len() as int),
    ensures
        grew(old(em)@, final(em)@),
        res matches Ok(r) ==> r.0 < final(em)@.len() && ref_ok(r.1, final(em)@.len() as int),
        res is Ok <==> map_body_typing(lib@, *p, old(tc)@, *x) is Some,
        res is Ok ==> final(tc)@ == map_body_typing(lib@, *p, old(tc)@, *x)->0,
        res matches Ok(r) ==> map_body_emitted(lib@, *p, old(tc)@, *x, *fr, old(em)@, final(em)@, r.0, r.1, r.2@.0, r.2@.1),
    decreases e, 0nat,
{
    let in_loop = fr.in_loop;
    let i = fr.i;
    let loop_controller = fr.loop_controller;
    match x {
        TIPart::Variable(vi) => {
            let v = em.value(Op::UseVar(*vi));
            assert(map_body_emitted(lib@, *p, old(tc)@, *x, *fr, old(em)@, em@, in_loop, v, start_chain(em@, 0), start_chain(em@, 0)));
            Ok((in_loop, v, Ghost((start_chain(em@, 0), start_chain(em@, 0)))))
        },
        TIPart::Expression(xe) => {
            assert(decreases_to!(*e => e->FlatMap_2));
            assert(decreases_to!(e->FlatMap_2 => e->FlatMap_2->Expression_0));
            let guarded = match xe {
                Expression::PatternMatch(_gc, plrs, _, _) => plrs.len() == 1 && match &plrs[0].0 {
                    LHSPart::Literal(gl) => is_str(gl.as_str(), "1"),
                    _ => false,
                },
                _ => false,
            };
            assert(guarded == is_guarded(*xe));
            if guarded {
                match xe {
                    Expression::PatternMatch(gc, plrs, _, _) => {
                        assert(decreases_to!(e->FlatMap_2->Expression_0 => e->FlatMap_2->Expression_0->PatternMatch_0));
                        let ghost tc2 = tc@;
                        let lie = match try_compile_expr(tc, lib, p, em, in_loop, gc) {
                            Ok(r) => r.0,
                            Err(m) => {
                                return Err(m);
                            },
                        };
                        let ghost sg = em@;
                        let ghost tc3 = tc@;
                        let ghost gsub = choose|sub: Emit| emits(lib@, *p, tc2, **gc, in_loop, old(em)@, sg, lie.block, lie.value, sub);
                        let skip = em.emit(Op::CreateBlock);
                        let push = em.emit(Op::CreateBlock);
                        em.emit(Op::Brz(lie.value, skip, Vec::new()));
                        em.emit(Op::Jump(push, Vec::new()));
                        em.emit(Op::SealBlock(lie.block));
                        em.emit(Op::SwitchToBlock(skip));
                        let i2 = em.value(Op::IaddImm(i, 1));
                        let jargs = vec![i2];
                        assert(jargs@ =~= seq![vr(sg.len() + 6int, 0)]);
                        em.emit(Op::Jump(loop_controller, jargs));
                        em.emit(Op::SealBlock(skip));
                        em.emit(Op::SwitchToBlock(push));
                        let ghost sh = em@;
                        assert(sh.subrange(0, sg.len() as int) =~= sg);
                        assert(decreases_to!(e->FlatMap_2->Expression_0 => e->FlatMap_2->Expression_0->PatternMatch_1));
                        assert(decreases_to!(e->FlatMap_2->Expression_0->PatternMatch_1@ => e->FlatMap_2->Expression_0->PatternMatch_1@[0]));
                        assert(decreases_to!(e->FlatMap_2->Expression_0->PatternMatch_1@[0] => e->FlatMap_2->Expression_0->PatternMatch_1@[0].1));
                        let lie2 = match try_compile_expr(tc, lib, p, em, push, &plrs[0].1) {
                            Ok(r) => r.0,
                            Err(m) => {
                                return Err(m);
                            },
                        };
                        let ghost bsub = choose|sub: Emit| emits(lib@, *p, tc3, plrs@[0].1, push, sh, em@, lie2.block, lie2.value, sub);
                        let ghost g = Emit { mids: seq![sg, sh], blocks: seq![lie.block], vals: seq![lie.value], subs: seq![gsub], ..gsub };
                        proof {
                            assert(g.subs[0] == gsub);
                            assert(map_body_emitted(lib@, *p, tc2, *x, *fr, old(em)@, em@, lie2.block, lie2.value, g, bsub));
                            assert(map_body_emitted(lib@, *p, old(tc)@, *x, *fr, old(em)@, em@, lie2.block, lie2.value, g, bsub));
                        }
                        Ok((lie2.block, lie2.value, Ghost((g, bsub))))
                    },
                    _ => Err("not supported by the compiler: a map".to_string()),
                }
            } else {
                let ghost tc2 = tc@;
                let lie = match try_compile_expr(tc, lib, p, em, in_loop, xe) {
                    Ok(r) => r.0,
                    Err(m) => {
                        return Err(m);
                    },
                };
                let ghost bsub = choose|sub: Emit| emits(lib@, *p, tc2, *xe, in_loop, old(em)@, em@, lie.block, lie.value, sub);
                proof {
                    assert(map_body_emitted(lib@, *p, tc2, *x, *fr, old(em)@, em@, lie.block, lie.value, bsub, bsub));
                    assert(map_body_emitted(lib@, *p, old(tc)@, *x, *fr, old(em)@, em@, lie.block, lie.value, bsub, bsub));
                }
                Ok((lie.block, lie.value, Ghost((bsub, bsub))))
            }
        },
        TIPart::Tuple(_ts) => Err("not supported by the compiler: .flatmap Tuple".to_string()),
        TIPart::InlineVariable(_vi) => Err("not supported by the compiler: .flatmap InlineVariable".to_string()),
    }
}

/// Emits a map over a tuple: a loop over its items that binds each to the
/// pattern, skips it where a guard of the form `cond ? 1 => x` is 0, and
/// pushes the value of the body onto a new tuple.
#[verifier::spinoff_prover]
#[verifier::rlimit(60)]
fn compile_flatmap<S>(tc: &mut TypeContext, lib: &Vec<FFI>, p: &Program<S>, em: &mut Emitter, blk: usize, e: &Expression<S>) -> (res: Result<(JExpr, JType), String>)
    requires
        lib_ok(lib@),
        blk < old(em)@.len(),
        e is FlatMap,
    ensures
        res matches Ok(r) ==> jtype_ok(r.1),
        grew(old(em)@, final(em)@),
        res matches Ok(r) ==> r.0.block < final(em)@.len() && ref_ok(r.0.value, final(em)@.len() as int),
        compiled_as(lib@, *p, old(tc)@, *e, res, final(tc)@),
        res matches Ok(r) ==> expr_emitted(lib@, *p, old(tc)@, *e, blk, old(em)@, final(em)@, r.0.block, r.0.value),
    decreases e, 1nat,
{
    let (lhs, iterable, x) = match e {
        Expression::FlatMap(lhs, iterable, x, _, _) => (lhs, iterable, x),
        _ => {
            return Err("not supported by the compiler: a map".to_string());
        },
    };
    assert(decreases_to!(*e => e->FlatMap_1));
    let (je, _jt) = match try_compile_expr(tc, lib, p, em, blk, iterable) {
        Ok(r) => r,
        Err(m) => {
            return Err(m);
        },
    };
    let ghost blk_in = blk;
    let ghost s1 = em@;
    let ghost sub0 = choose|sub: Emit| emits(lib@, *p, old(tc)@, **iterable, blk_in, old(em)@, s1, je.block, je.value, sub);
    let blk = je.block;
    let fr = loop_frame(em, je.value);
    let ghost s2 = em@;
    let map_lo = fr.map_lo;
    let map_hi = fr.map_hi;
    let loop_controller = fr.loop_controller;
    let in_loop0 = fr.in_loop;
    let i = fr.i;
    let after_loop = fr.after_loop;
    let item = fr.item;
    match &**lhs {
        LHSPart::Any => {},
        LHSPart::Variable(vi) => {
            em.emit(Op::DeclareVar(*vi, MachineType::I128));
            tc.insert(*vi, "Value".to_string());
            em.emit(Op::DefVar(*vi, item));
        },
        _ => {
            return Err("Invalid IR: for loop bindings must not be fallible".to_string());
        },
    }
    let ghost s3 = em@;
    let ghost tc2 = tc@;
    let (in_loop, x_val, Ghost(gb)) = match compile_map_body(tc, lib, p, em, &fr, x, e) {
        Ok(r) => r,
        Err(m) => {
            return Err(m);
        },
    };
    let ghost s4 = em@;
    let ghost q = s4.len() as int;
    let xs = em.emit(Op::Isplit(x_val));
    let pargs = vec![map_lo, map_hi, ValueRef { op: xs, k: 0 }, ValueRef { op: xs, k: 1 }];
    assert(pargs@ =~= seq![map_lo, map_hi, vr(q, 0), vr(q, 1)]);
    call(em, ".push:(Tuple,Value)->U64", pargs);
    let i3 = em.value(Op::IaddImm(i, 1));
    let jargs = vec![i3];
    assert(jargs@ =~= seq![vr(q + 2, 0)]);
    em.emit(Op::Jump(loop_controller, jargs));
    em.emit(Op::SealBlock(in_loop));
    em.emit(Op::SealBlock(loop_controller));
    em.emit(Op::SealBlock(blk));
    em.emit(Op::SwitchToBlock(after_loop));
    let targs = vec![map_lo, map_hi];
    assert(targs@ =~= seq![map_lo, map_hi]);
    let out = call(em, "trim_capacity:(Tuple)->Tuple", targs);
    let v = em.value(Op::Iconcat(out, ValueRef { op: out.op, k: 1 }));
    proof {
        assert(em@.subrange(0, q) =~= s4);
        let w = Emit { mids: seq![s1, s2, s3, s4], blocks: seq![blk, in_loop], vals: seq![je.value, x_val], subs: seq![sub0, gb.0, gb.1], ..sub0 };
        assert(w.subs[1] == gb.0);
        assert(w.subs[2] == gb.1);
        assert(w.mids[2] == s3);
        assert(fr == frame_at(s1.len() as int));
        assert(emits(lib@, *p, old(tc)@, *e, blk_in, old(em)@, em@, after_loop, v, w));
    }
    Ok((JExpr { block: after_loop, value: v }, value_type()))
}

/// Emits a literal of type `Unit`, `U64` (the sum of its parts), `Value`
/// or `String` (built character by character).
fn compile_literal<S>(tc: &mut TypeContext, lib: &Vec<FFI>, p: &Program<S>, em: &mut Emitter, blk: usize, e: &Expression<S>) -> (res: Result<(JExpr, JType), String>)
    requires
        lib_ok(lib@),
        blk < old(em)@.len(),
        e is LiteralIntroduction,
    ensures
        res matches Ok(r) ==> jtype_ok(r.1),
        grew(old(em)@, final(em)@),
        res matches Ok(r) ==> r.0.block < final(em)@.len() && ref_ok(r.0.value, final(em)@.len() as int),
        compiled_as(lib@, *p, old(tc)@, *e, res, final(tc)@),
        res matches Ok(r) ==> expr_emitted(lib@, *p, old(tc)@, *e, blk, old(em)@, final(em)@, r.0.block, r.0.value),
    decreases e, 1nat,
{
    proof {
        reveal_strlit("Unit");
        reveal_strlit("U64");
        reveal_strlit("Value");
        reveal_strlit("String");
        lemma_type_names();
    }
    let (lis, tt) = match e {
        Expression::LiteralIntroduction(lis, tt, _) => (lis, tt),
        _ => {
            return Err("not supported by the compiler: a literal".to_string());
        },
    };
    let nom = tt.nom();
    let ghost n0 = old(em)@.len() as int;
    let ghost blk0 = blk;
    if is_str(nom.as_str(), "Unit") {
        let v = crate::value::Value::from_parts(Tag::Unit.code(), 0, 0).0;
        let r = wide_constant(em, v);
        assert(emits(lib@, *p, old(tc)@, *e, blk0, old(em)@, em@, blk, r, start_chain(em@, blk)));
        Ok((JExpr { block: blk, value: r }, value_type()))
    } else if is_str(nom.as_str(), "U64") {
        let mut blk = blk;
        let mut val = em.value(Op::Iconst(MachineType::I64, 0));
        let ghost s0 = em@;
        let ghost mut lw = Emit { vals: seq![val], ..start_chain(em@, blk) };
        assert(lis@.subrange(0, 0).len() == 0);
        let mut k: usize = 0;
        assert(lis@.subrange(0, 0) =~= Seq::<LIPart<S>>::empty());
        let ghost whole = expr_typing(lib@, *p, old(tc)@, *e);
        assert(nom@ == "U64"@);
        assert(type_nom(*tt) == "U64"@);
        assert(type_nom(*tt) != "Unit"@);
        assert("U64"@.len() == 3);
        assert("Value"@.len() == 5);
        assert(type_nom(*tt) != "Value"@);
        assert(whole == match lis_typing(lib@, *p, old(tc)@, lis@) {
            None => None,
            Some(tc1) => Some(("U64"@, tc1)),
        });
        while k < lis.len()
            invariant
            lib_ok(lib@),
                k <= lis@.len(),
                e is LiteralIntroduction,
                *lis == e->LiteralIntroduction_0,
                whole == expr_typing(lib@, *p, old(tc)@, *e),
                whole == match lis_typing(lib@, *p, old(tc)@, lis@) {
                    None => None,
                    Some(tc1) => Some(("U64"@, tc1)),
                },
                grew(old(em)@, em@),
                blk < em@.len(),
                ref_ok(val, em@.len() as int),
                lis_typing(lib@, *p, old(tc)@, lis@.subrange(0, k as int)) == Some(tc@),
                s0 == old(em)@.push(Op::Iconst(MachineType::I64, 0)),
                lis_chain(lib@, *p, old(tc)@, lis@.subrange(0, k as int), blk0, s0, vr(n0, 0), lw),
                lw.states.last() == em@,
                lw.blocks.last() == blk,
                lw.vals.last() == val,
            decreases lis@.len() - k,
        {
            assert(lis@.subrange(0, k + 1).subrange(0, k as int) =~= lis@.subrange(0, k as int));
            let ghost mid = em@;
            let ghost bb = blk;
            let ghost a = val;
            let ghost tcb = tc@;
            let ghost kk = lw.states.len() as int;
            assert(lis@.subrange(0, k as int).push(lis@[k as int]) =~= lis@.subrange(0, k + 1));
            match &lis[k] {
                LIPart::Expression(x) => {
                    assert(decreases_to!(*e => e->LiteralIntroduction_0));
                    assert(decreases_to!(e->LiteralIntroduction_0@ => e->LiteralIntroduction_0@[k as int]));
                    assert(decreases_to!(e->LiteralIntroduction_0@[k as int] => e->LiteralIntroduction_0@[k as int]->Expression_0));
                    let je = match try_compile_expr(tc, lib, p, em, blk, x) {
                        Ok(r) => r.0,
                        Err(m) => {
                            proof {
                                lemma_lis_none(lib@, *p, old(tc)@, lis@, k + 1);
                            }
                            return Err(m);
                        },
                    };
                    blk = je.block;
                    let ghost mid2 = em@;
                    val = em.value(Op::Iadd(val, je.value));
                    proof {
                        let sub = choose|sub: Emit| emits(lib@, *p, tcb, *x, bb, mid, mid2, blk, je.value, sub);
                        let w2 = lis_push(lw, em@, blk, val, mid2, je.value, sub);
                        assert(w2.states.drop_last() =~= lw.states);
                        assert(w2.blocks.drop_last() =~= lw.blocks);
                        assert(w2.vals.drop_last() =~= lw.vals);
                        assert(w2.mids.drop_last() =~= lw.mids);
                        assert(w2.xvals.drop_last() =~= lw.xvals);
                        assert(w2.subs.drop_last() =~= lw.subs);
                        assert(lis_step(lib@, *p, tcb, lis@[k as int], w2, k + 1));
                        lemma_lis_chain_push(lib@, *p, old(tc)@, lis@.subrange(0, k as int), lis@[k as int], blk0, s0, vr(n0, 0), lw, w2);
                        lw = w2;
                    }
                },
                LIPart::Literal(cs) => {
                    let w = match literal_word(cs.as_str()) {
                        Ok(w) => w,
                        Err(m) => {
                            proof {
                                lemma_lis_none(lib@, *p, old(tc)@, lis@, k + 1);
                            }
                            return Err(m);
                        },
                    };
                    val = em.value(Op::IaddImm(val, w));
                    proof {
                        let w2 = lis_push(lw, em@, blk, val, Seq::empty(), val, lw);
                        assert(w2.states.drop_last() =~= lw.states);
                        assert(w2.blocks.drop_last() =~= lw.blocks);
                        assert(w2.vals.drop_last() =~= lw.vals);
                        assert(w2.mids.drop_last() =~= lw.mids);
                        assert(w2.xvals.drop_last() =~= lw.xvals);
                        assert(w2.subs.drop_last() =~= lw.subs);
                        assert(lis_step(lib@, *p, tcb, lis@[k as int], w2, k + 1));
                        lemma_lis_chain_push(lib@, *p, old(tc)@, lis@.subrange(0, k as int), lis@[k as int], blk0, s0, vr(n0, 0), lw, w2);
                        lw = w2;
                    }
                },
                LIPart::InlineVariable(vi) => {
                    let jv = em.value(Op::UseVar(*vi));
                    val = em.value(Op::Iadd(val, jv));
                    proof {
                        let w2 = lis_push(lw, em@, blk, val, Seq::empty(), val, lw);
                        assert(w2.states.drop_last() =~= lw.states);
                        assert(w2.blocks.drop_last() =~= lw.blocks);
                        assert(w2.vals.drop_last() =~= lw.vals);
                        assert(w2.mids.drop_last() =~= lw.mids);
                        assert(w2.xvals.drop_last() =~= lw.xvals);
                        assert(w2.subs.drop_last() =~= lw.subs);
                        assert(lis_step(lib@, *p, tcb, lis@[k as int], w2, k + 1));
                        lemma_lis_chain_push(lib@, *p, old(tc)@, lis@.subrange(0, k as int), lis@[k as int], blk0, s0, vr(n0, 0), lw, w2);
                        lw = w2;
                    }
                },
            }
            k = k + 1;
        }
        assert(lis@.subrange(0, k as int) =~= lis@);
        assert(emits(lib@, *p, old(tc)@, *e, blk0, old(em)@, em@, blk, val, lw));
        Ok((JExpr { block: blk, value: val }, JType { name: "U64".to_string(), jtype: MachineType::I64 }))
    } else if is_str(nom.as_str(), "Value") {
        let v = crate::value::Value::from_parts(Tag::U64.code(), 0, 123).0;
        let r = wide_constant(em, v);
        assert(emits(lib@, *p, old(tc)@, *e, blk0, old(em)@, em@, blk, r, start_chain(em@, blk)));
        Ok((JExpr { block: blk, value: r }, value_type()))
    } else if is_str(nom.as_str(), "String") {
        let mut s_value: Vec<char> = Vec::new();
        let mut k: usize = 0;
        let ghost whole = expr_typing(lib@, *p, old(tc)@, *e);
        assert(whole == if all_quoted(lis@) {
            Some(("String"@, old(tc)@))
        } else {
            None::<(Seq<char>, Map<usize, Seq<char>>)>
        });
        while k < lis.len()
            invariant
                k <= lis@.len(),
                forall|i: int| 0 <= i < k ==> quoted(#[trigger] lis@[i]),
                s_value@ == string_chars(lis@.subrange(0, k as int)),
                whole == expr_typing(lib@, *p, old(tc)@, *e),
                whole == if all_quoted(lis@) {
                    Some(("String"@, old(tc)@))
                } else {
                    None::<(Seq<char>, Map<usize, Seq<char>>)>
                },
            decreases lis@.len() - k,
        {
            match &lis[k] {
                LIPart::Literal(cs) => {
                    let chars = str_chars(cs.as_str());
                    if chars.len() < 2 {
                        assert(!quoted(lis@[k as int]));
                        return Err(message("not supported by the compiler: a string literal without its quotes: ", cs.as_str(), ""));
                    }
                    let ghost sv0 = s_value@;
                    let mut j: usize = 1;
                    while j < chars.len() - 1
                        invariant
                            2 <= chars@.len(),
                            1 <= j <= chars@.len() - 1,
                            s_value@ == sv0 + chars@.subrange(1, j as int),
                        decreases chars@.len() - j,
                    {
                        s_value.push(chars[j]);
                        assert(chars@.subrange(1, j + 1) =~= chars@.subrange(1, j as int).push(chars@[j as int]));
                        j = j + 1;
                    }
                    proof {
                        let pre1 = lis@.subrange(0, k + 1);
                        assert(pre1.drop_last() =~= lis@.subrange(0, k as int));
                        assert(pre1.last() == lis@[k as int]);
                        assert(chars@ == cs@);
                    }
                },
                LIPart::Expression(_) => {
                    assert(!quoted(lis@[k as int]));
                    return Err("not supported by the compiler: Introduce String Literal Expression".to_string());
                },
                LIPart::InlineVariable(_) => {
                    assert(!quoted(lis@[k as int]));
                    return Err("not supported by the compiler: Introduce String Literal Inline Variable".to_string());
                },
            }
            k = k + 1;
        }
        assert(all_quoted(lis@));
        assert(lis@.subrange(0, k as int) =~= lis@);
        let ghost cs_all = s_value@;
        let s_len = em.value(Op::Iconst(MachineType::I64, #[verifier::truncate] (s_value.len() as i64)));
        let cap_args = vec![s_len];
        assert(cap_args@ =~= seq![vr(n0, 0)]);
        let s_new = call(em, "with_capacity:(U64)->String", cap_args);
        let s_hi = ValueRef { op: s_new.op, k: 1 };
        let ghost s0 = em@;
        let mut k: usize = 0;
        while k < s_value.len()
            invariant
                k <= s_value@.len(),
                grew(old(em)@, em@),
                ref_ok(s_new, em@.len() as int),
                s_hi.op == s_new.op,
                s_new == vr(n0 + 1, 0),
                s_hi == vr(n0 + 1, 1),
                s0.len() == n0 + 2,
                grew(s0, em@),
                em@.len() == n0 + 2 + 2 * k,
                forall|i: int| 0 <= i < k ==> char_pushed(em@, n0 + 2 + 2 * i, #[trigger] s_value@[i], s_new, s_hi),
            decreases s_value@.len() - k,
        {
            let ghost prev = em@;
            let c: u32 = s_value[k] as u32;
            let s_c = em.value(Op::Iconst(MachineType::I32, c as i64));
            let pargs = vec![s_new, s_hi, s_c];
            assert(pargs@ =~= seq![s_new, s_hi, vr(prev.len() as int, 0)]);
            call(em, ".push:(String,U32)->U64", pargs);
            proof {
                assert(char_pushed(em@, n0 + 2 + 2 * k, s_value@[k as int], s_new, s_hi));
                assert forall|i: int| 0 <= i < k + 1 implies char_pushed(em@, n0 + 2 + 2 * i, #[trigger] s_value@[i], s_new, s_hi) by {
                    if i < k {
                        assert(char_pushed(prev, n0 + 2 + 2 * i, s_value@[i], s_new, s_hi));
                        assert(em@[n0 + 2 + 2 * i] == prev[n0 + 2 + 2 * i]);
                        assert(em@[n0 + 3 + 2 * i] == prev[n0 + 3 + 2 * i]);
                    }
                }
            }
            k = k + 1;
        }
        let r = em.value(Op::Iconcat(s_new, s_hi));
        proof {
            assert(em@.subrange(0, n0) =~= old(em)@);
            assert(string_emitted(em@, n0, string_chars(lis@)));
            assert(emits(lib@, *p, old(tc)@, *e, blk0, old(em)@, em@, blk, r, start_chain(em@, blk)));
        }
        Ok((JExpr { block: blk, value: r }, JType { name: "String".to_string(), jtype: MachineType::I128 }))
    } else {
        Err(message("not supported by the compiler: Unknown literal introduction: ", nom.as_str(), ""))
    }
}

/// Emits a tuple: of the numbers of a single part that holds values, or of
/// the values of parts that are all expressions, each packed as a value.
#[verifier::spinoff_prover]
#[verifier::rlimit(60)]
fn compile_tuple<S>(tc: &mut TypeContext, lib: &Vec<FFI>, p: &Program<S>, em: &mut Emitter, blk: usize, e: &Expression<S>) -> (res: Result<(JExpr, JType), String>)
    requires
        lib_ok(lib@),
        blk < old(em)@.len(),
        e is TupleIntroduction,
    ensures
        res matches Ok(r) ==> jtype_ok(r.1),
        grew(old(em)@, final(em)@),
        res matches Ok(r) ==> r.0.block < final(em)@.len() && ref_ok(r.0.value, final(em)@.len() as int),
        compiled_as(lib@, *p, old(tc)@, *e, res, final(tc)@),
        res matches Ok(r) ==> expr_emitted(lib@, *p, old(tc)@, *e, blk, old(em)@, final(em)@, r.0.block, r.0.value),
    decreases e, 1nat,
{
    proof {
        reveal_strlit("Value");
    }
    let ts = match e {
        Expression::TupleIntroduction(ts, _, _) => ts,
        _ => {
            return Err("not supported by the compiler: compile_expr Expression::TupleIntroduction".to_string());
        },
    };
    let ghost whole = expr_typing(lib@, *p, old(tc)@, *e);
    let values = ts.len() == 1 && match &ts[0] {
        TIPart::Tuple(_) => true,
        _ => false,
    };
    let n: usize = if values {
        match &ts[0] {
            TIPart::Tuple(vals) => vals.len(),
            _ => 0,
        }
    } else {
        ts.len()
    };
    let ghost n0 = old(em)@.len() as int;
    let ghost blk0 = blk;
    let map_len = em.value(Op::Iconst(MachineType::I64, #[verifier::truncate] (n as i64)));
    let cap_args = vec![map_len];
    assert(cap_args@ =~= seq![vr(n0, 0)]);
    let map_new = call(em, "with_capacity:(U64)->Tuple", cap_args);
    let map_hi = ValueRef { op: map_new.op, k: 1 };
    let mut blk = blk;
    let ghost s0 = em@;
    assert(em@[n0] == Op::Iconst(MachineType::I64, n as i64));
    assert(is_call_of(em@[n0 + 1], "with_capacity:(U64)->Tuple"@, seq![vr(n0, 0)]));
    proof {
        lemma_tag_code(Tag::U64);
        assert(em@.subrange(0, n0) =~= old(em)@);
    }
    let ghost mut tw = Emit { blocks: seq![blk], ..start_chain(em@, blk) };
    if values {
        let vals = match &ts[0] {
            TIPart::Tuple(vals) => vals,
            _ => {
                return Err("not supported by the compiler: compile_expr Expression::TupleIntroduction".to_string());
            },
        };
        assert(whole == if all_small(vals@) {
            Some(("Value"@, old(tc)@))
        } else {
            None::<(Seq<char>, Map<usize, Seq<char>>)>
        });
        let mut k: usize = 0;
        while k < vals.len()
            invariant
                k <= vals@.len(),
                grew(old(em)@, em@),
                blk < em@.len(),
                ref_ok(map_new, em@.len() as int),
                map_hi.op == map_new.op,
                forall|i: int| 0 <= i < k ==> small_unary(#[trigger] vals@[i]),
                map_new == vr(n0 + 1, 0),
                map_hi == vr(n0 + 1, 1),
                blk == blk0,
                em@.len() == n0 + 2 + 3 * k,
                grew(s0, em@),
                s0.len() == n0 + 2,
                forall|i: int| 0 <= i < k ==> small_values_pushed(em@, n0 + 2 + 3 * i, #[trigger] vals@[i], map_new, map_hi),
                whole == expr_typing(lib@, *p, old(tc)@, *e),
                whole == if all_small(vals@) {
                    Some(("Value"@, old(tc)@))
                } else {
                    None::<(Seq<char>, Map<usize, Seq<char>>)>
                },
            decreases vals@.len() - k,
        {
            let ui = match &vals[k] {
                AstValue::Unary(n, _) => match n.to_i64() {
                    Some(u) => u,
                    None => {
                        assert(!small_unary(vals@[k as int]));
                        return Err("not supported by the compiler: a unary constant that does not fit in 64 bits".to_string());
                    },
                },
                _ => {
                    assert(!small_unary(vals@[k as int]));
                    return Err("not supported by the compiler: compile expression of a non-unary value".to_string());
                },
            };
            let ghost prev = em@;
            let vlow = em.value(Op::Iconst(MachineType::I64, ui));
            let vhigh = em.value(Op::Iconst(MachineType::I64, tag_high_word(Tag::U64) as i64));
            let pargs = vec![map_new, map_hi, vlow, vhigh];
            assert(pargs@ =~= seq![map_new, map_hi, vr(prev.len() as int, 0), vr(prev.len() + 1int, 0)]);
            call(em, ".push:(Tuple,Value)->U64", pargs);
            proof {
                assert(small_values_pushed(em@, n0 + 2 + 3 * k, vals@[k as int], map_new, map_hi));
                assert forall|i: int| 0 <= i < k + 1 implies small_values_pushed(em@, n0 + 2 + 3 * i, #[trigger] vals@[i], map_new, map_hi) by {
                    if i < k {
                        assert(small_values_pushed(prev, n0 + 2 + 3 * i, vals@[i], map_new, map_hi));
                        assert(em@[n0 + 2 + 3 * i] == prev[n0 + 2 + 3 * i]);
                        assert(em@[n0 + 3 + 3 * i] == prev[n0 + 3 + 3 * i]);
                        assert(em@[n0 + 4 + 3 * i] == prev[n0 + 4 + 3 * i]);
                    }
                }
            }
            k = k + 1;
        }
        assert(all_small(vals@));
    } else {
        assert(whole == match tis_typing(lib@, *p, old(tc)@, ts@) {
            None => None,
            Some(tc1) => Some(("Value"@, tc1)),
        });
        let mut k: usize = 0;
        assert(ts@.subrange(0, 0) =~= Seq::<TIPart<S>>::empty());
        while k < ts.len()
            invariant
            lib_ok(lib@),
                k <= ts@.len(),
                e is TupleIntroduction,
                *ts == e->TupleIntroduction_0,
                grew(old(em)@, em@),
                blk < em@.len(),
                ref_ok(map_new, em@.len() as int),
                map_hi.op == map_new.op,
                tis_typing(lib@, *p, old(tc)@, ts@.subrange(0, k as int)) == Some(tc@),
                map_new == vr(n0 + 1, 0),
                map_hi == vr(n0 + 1, 1),
                tis_chain(lib@, *p, old(tc)@, ts@.subrange(0, k as int), blk0, s0, map_new, map_hi, tw),
                tw.states.last() == em@,
                tw.blocks.last() == blk,
                grew(s0, em@),
                s0.len() == n0 + 2,
                whole == expr_typing(lib@, *p, old(tc)@, *e),
                whole == match tis_typing(lib@, *p, old(tc)@, ts@) {
                    None => None,
                    Some(tc1) => Some(("Value"@, tc1)),
                },
            decreases ts@.len() - k,
        {
            assert(ts@.subrange(0, k + 1).subrange(0, k as int) =~= ts@.subrange(0, k as int));
            match &ts[k] {
                TIPart::Expression(te) => {
                    assert(decreases_to!(*e => e->TupleIntroduction_0));
                    assert(decreases_to!(e->TupleIntroduction_0@ => e->TupleIntroduction_0@[k as int]));
                    assert(decreases_to!(e->TupleIntroduction_0@[k as int] => e->TupleIntroduction_0@[k as int]->Expression_0));
                    let ghost before = em@;
                    let ghost bb = blk;
                    let ghost tcb = tc@;
                    let (je, jt) = match try_compile_expr(tc, lib, p, em, blk, te) {
                        Ok(r) => r,
                        Err(m) => {
                            proof {
                                lemma_tis_none(lib@, *p, old(tc)@, ts@, k + 1);
                            }
                            return Err(m);
                        },
                    };
                    blk = je.block;
                    let ghost mid2 = em@;
                    let v = match checked_cast(em, jt.name.as_str(), "Value", je.value) {
                        Ok(v) => v,
                        Err(m) => {
                            proof {
                                lemma_tis_none(lib@, *p, old(tc)@, ts@, k + 1);
                            }
                            return Err(m);
                        },
                    };
                    let ghost mid3 = em@;
                    let sp = em.emit(Op::Isplit(v));
                    let pargs = vec![map_new, map_hi, ValueRef { op: sp, k: 0 }, ValueRef { op: sp, k: 1 }];
                    assert(pargs@ =~= seq![map_new, map_hi, vr(mid3.len() as int, 0), vr(mid3.len() as int, 1)]);
                    call(em, ".push:(Tuple,Value)->U64", pargs);
                    proof {
                        let sub = choose|sub: Emit| emits(lib@, *p, tcb, *te, bb, before, mid2, je.block, je.value, sub);
                        assert(em@.subrange(0, mid3.len() as int) =~= mid3);
                        assert(ts@[k as int] == TIPart::Expression(*te));
                        lemma_tis_chain_push(lib@, *p, old(tc)@, ts@.subrange(0, k as int), ts@[k as int], blk0, s0, map_new, map_hi, tw, em@, mid2, je.block, je.value, sub);
                        assert(ts@.subrange(0, k as int).push(ts@[k as int]) =~= ts@.subrange(0, k + 1));
                        tw = tis_push(tw, em@, mid2, je.block, je.value, sub);
                    }
                },
                _ => {
                    proof {
                        lemma_tis_none(lib@, *p, old(tc)@, ts@, k + 1);
                    }
                    return Err("not supported by the compiler: compile_expr Expression::TupleIntroduction".to_string());
                },
            }
            k = k + 1;
        }
        assert(ts@.subrange(0, k as int) =~= ts@);
    }
    let ghost fin = em@;
    let r = em.value(Op::Iconcat(map_new, map_hi));
    proof {
        assert(em@.subrange(0, n0 + 2) =~= s0);
        assert(em@.subrange(0, em@.len() - 1) =~= fin);
        assert(em@.subrange(0, n0) =~= old(em)@);
        assert(emits(lib@, *p, old(tc)@, *e, blk0, old(em)@, em@, blk, r, tw));
    }
    Ok((JExpr { block: blk, value: r }, value_type()))
}

/// Emits a match: the scrutinee, then for each arm a block that tests its
/// pattern and one that computes its value and jumps to the block where the
/// arms meet, whose parameter is the result; a trap where no arm matches.
#[verifier::spinoff_prover]
#[verifier::rlimit(80)]
fn compile_pattern<S>(tc: &mut TypeContext, lib: &Vec<FFI>, p: &Program<S>, em: &mut Emitter, blk: usize, e: &Expression<S>) -> (res: Result<(JExpr, JType), String>)
    requires
        lib_ok(lib@),
        blk < old(em)@.len(),
        e is PatternMatch,
    ensures
        res matches Ok(r) ==> jtype_ok(r.1),
        grew(old(em)@, final(em)@),
        res matches Ok(r) ==> r.0.block < final(em)@.len() && ref_ok(r.0.value, final(em)@.len() as int),
        compiled_as(lib@, *p, old(tc)@, *e, res, final(tc)@),
        res matches Ok(r) ==> expr_emitted(lib@, *p, old(tc)@, *e, blk, old(em)@, final(em)@, r.0.block, r.0.value),
    decreases e, 1nat,
{
    let (pe, lrs, tt) = match e {
        Expression::PatternMatch(pe, lrs, tt, _) => (pe, lrs, tt),
        _ => {
            return Err("not supported by the compiler: a match".to_string());
        },
    };
    let ghost whole = expr_typing(lib@, *p, old(tc)@, *e);
    let ghost blk_in = blk;
    let mut rjt = match jtype_named(tt) {
        Ok(j) => j,
        Err(m) => {
            return Err(m);
        },
    };
    assert(decreases_to!(*e => e->PatternMatch_0));
    let (je, jt) = match try_compile_expr(tc, lib, p, em, blk, pe) {
        Ok(r) => r,
        Err(m) => {
            return Err(m);
        },
    };
    let ghost g1 = em@;
    let ghost tc1 = tc@;
    let ghost sub0 = choose|sub: Emit| emits(lib@, *p, old(tc)@, **pe, blk, old(em)@, g1, je.block, je.value, sub);
    let ghost base = g1.len() as int;
    let blk = je.block;
    let failblk = em.emit(Op::CreateBlock);
    let succblk = em.emit(Op::CreateBlock);
    if lrs.len() == 0 {
        return Err("not supported by the compiler: a match without arms".to_string());
    }
    let last_type = lrs[lrs.len() - 1].1.typ();
    assert(opt_str(last_type.name) == opt_str(expr_type(lrs@[lrs@.len() - 1].1).name));
    let st = match machine_type_named(&last_type) {
        Ok(t) => t,
        Err(m) => {
            return Err(m);
        },
    };
    assert(whole == match lhss_typing(lrs@, jt.name@, tc1) {
        None => None,
        Some(tc2) => match rhss_typing(lib@, *p, tc2, lrs@) {
            None => None,
            Some((names, tc3)) => Some((names.last(), tc3)),
        },
    });
    let param = em.value(Op::AppendBlockParam(succblk, st));
    let mut lblocks: Vec<usize> = Vec::new();
    let mut rblocks: Vec<usize> = Vec::new();
    let mut k: usize = 0;
    while k < lrs.len()
        invariant
            k <= lrs@.len(),
            grew(old(em)@, g1),
            grew(g1, em@),
            lblocks@.len() == k,
            rblocks@.len() == k,
            forall|i: int| 0 <= i < k ==> #[trigger] lblocks@[i] < em@.len(),
            forall|i: int| 0 <= i < k ==> #[trigger] rblocks@[i] < em@.len(),
            base == g1.len(),
            failblk == base,
            succblk == base + 1,
            em@.len() == base + 3 + 2 * k,
            em@[base] == Op::CreateBlock,
            em@[base + 1] == Op::CreateBlock,
            em@[base + 2] == Op::AppendBlockParam(succblk, st),
            forall|i: int| 0 <= i < 2 * k ==> #[trigger] em@[base + 3 + i] == Op::CreateBlock,
            forall|i: int| 0 <= i < k ==> #[trigger] lblocks@[i] == base + 3 + 2 * i,
            forall|i: int| 0 <= i < k ==> #[trigger] rblocks@[i] == base + 4 + 2 * i,
        decreases lrs@.len() - k,
    {
        let ghost prev = em@;
        let lb = em.emit(Op::CreateBlock);
        let rb = em.emit(Op::CreateBlock);
        lblocks.push(lb);
        rblocks.push(rb);
        proof {
            assert forall|i: int| 0 <= i < 2 * (k + 1) implies #[trigger] em@[base + 3 + i] == Op::CreateBlock by {
                if i < 2 * k {
                    assert(em@[base + 3 + i] == prev[base + 3 + i]);
                }
            }
        }
        k = k + 1;
    }
    lblocks.push(failblk);
    em.emit(Op::Jump(lblocks[0], Vec::new()));
    em.emit(Op::SealBlock(blk));
    let ghost g2 = em@;
    let ghost kk = lrs@.len() as int;
    proof {
        assert forall|i: int| 0 <= i <= kk implies #[trigger] lblocks@[i] == arm_block(base, kk, i) by {}
        assert(pattern_head(g2, base, kk, st, blk));
    }
    let ghost mut lstates: Seq<Seq<Op>> = seq![g2];
    let mut k: usize = 0;
    assert(lrs@.subrange(0, 0) =~= Seq::<(LHSPart, Expression<S>)>::empty());
    while k < lrs.len()
        invariant
        lib_ok(lib@),
            k <= lrs@.len(),
            grew(old(em)@, g2),
            grew(g2, em@),
            lblocks@.len() == lrs@.len() + 1,
            rblocks@.len() == lrs@.len(),
            forall|i: int| 0 <= i < lblocks@.len() ==> #[trigger] lblocks@[i] < em@.len(),
            forall|i: int| 0 <= i < rblocks@.len() ==> #[trigger] rblocks@[i] < em@.len(),
            ref_ok(je.value, em@.len() as int),
            lhss_typing(lrs@.subrange(0, k as int), jt.name@, tc1) == Some(tc@),
            kk == lrs@.len(),
            forall|i: int| 0 <= i <= kk ==> #[trigger] lblocks@[i] == arm_block(base, kk, i),
            forall|i: int| 0 <= i < kk ==> #[trigger] rblocks@[i] == base + 4 + 2 * i,
            lhss_chain(lrs@.subrange(0, k as int), base, kk, je.value, g2, lstates),
            lstates.last() == em@,
            whole == expr_typing(lib@, *p, old(tc)@, *e),
            whole == match lhss_typing(lrs@, jt.name@, tc1) {
                None => None,
                Some(tc2) => match rhss_typing(lib@, *p, tc2, lrs@) {
                    None => None,
                    Some((names, tc3)) => Some((names.last(), tc3)),
                },
            },
        decreases lrs@.len() - k,
    {
        assert(lrs@.subrange(0, k + 1).subrange(0, k as int) =~= lrs@.subrange(0, k as int));
        if !lhs_accepts(&lrs[k].0, jt.name.as_str()) {
            proof {
                assert(lhs_typing(lrs@[k as int].0, jt.name@, tc@) is None);
                lemma_lhss_none(lrs@, jt.name@, tc1, k + 1);
            }
            return Err(numbered("not supported by the compiler: the pattern of arm ", k, ""));
        }
        let ghost before = em@;
        compile_lhs(tc, em, lblocks[k], rblocks[k], &lrs[k].0, lblocks[k + 1], je.value, jt.name.as_str());
        proof {
            lemma_lhss_chain_push(lrs@.subrange(0, k as int), lrs@[k as int], base, kk, je.value, g2, lstates, em@);
            assert(lrs@.subrange(0, k as int).push(lrs@[k as int]) =~= lrs@.subrange(0, k + 1));
            lstates = lstates.push(em@);
        }
        k = k + 1;
    }
    assert(lrs@.subrange(0, k as int) =~= lrs@);
    let ghost tc2 = tc@;
    let ghost g3 = em@;
    let ghost mut rw = Emit { blocks: Seq::empty(), ..start_chain(em@, 0) };
    assert(rw.mids =~= Seq::<Seq<Op>>::empty());
    assert(rw.blocks =~= Seq::<usize>::empty());
    assert(lrs@.subrange(0, 0).len() == 0);
    let ghost mut names: Seq<Seq<char>> = Seq::empty();
    let mut k: usize = 0;
    assert(lrs@.subrange(0, 0) =~= Seq::<(LHSPart, Expression<S>)>::empty());
    while k < lrs.len()
        invariant
        lib_ok(lib@),
            k <= lrs@.len(),
            e is PatternMatch,
            *lrs == e->PatternMatch_1,
            grew(old(em)@, g2),
            grew(g2, em@),
            rblocks@.len() == lrs@.len(),
            forall|i: int| 0 <= i < rblocks@.len() ==> #[trigger] rblocks@[i] < em@.len(),
            succblk < em@.len(),
            rhss_typing(lib@, *p, tc2, lrs@.subrange(0, k as int)) == Some((names, tc@)),
            kk == lrs@.len(),
            forall|i: int| 0 <= i < kk ==> #[trigger] rblocks@[i] == base + 4 + 2 * i,
            succblk == base + 1,
            rhss_chain(lib@, *p, tc2, lrs@.subrange(0, k as int), base, g3, rw),
            rw.states.last() == em@,
            names.len() == k,
            k > 0 ==> rjt.name@ == names.last(),
            jtype_ok(rjt),
            whole == expr_typing(lib@, *p, old(tc)@, *e),
            whole == match rhss_typing(lib@, *p, tc2, lrs@) {
                None => None,
                Some((names, tc3)) => Some((names.last(), tc3)),
            },
        decreases lrs@.len() - k,
    {
        assert(lrs@.subrange(0, k + 1).subrange(0, k as int) =~= lrs@.subrange(0, k as int));
        let ghost before = em@;
        em.emit(Op::SwitchToBlock(rblocks[k]));
        let ghost sw = em@;
        let ghost tcb = tc@;
        assert(decreases_to!(*e => e->PatternMatch_1));
        assert(decreases_to!(e->PatternMatch_1@ => e->PatternMatch_1@[k as int]));
        assert(decreases_to!(e->PatternMatch_1@[k as int] => e->PatternMatch_1@[k as int].1));
        let (je2, jt2) = match try_compile_expr(tc, lib, p, em, rblocks[k], &lrs[k].1) {
            Ok(r) => r,
            Err(m) => {
                proof {
                    lemma_rhss_none(lib@, *p, tc2, lrs@, k + 1);
                }
                return Err(m);
            },
        };
        proof {
            names = names.push(jt2.name@);
        }
        rjt = jt2;
        let ghost mid2 = em@;
        let jargs = vec![je2.value];
        assert(jargs@ =~= seq![je2.value]);
        em.emit(Op::Jump(succblk, jargs));
        em.emit(Op::SealBlock(je2.block));
        proof {
            let sub = choose|sub: Emit| emits(lib@, *p, tcb, lrs@[k as int].1, rblocks@[k as int], sw, mid2, je2.block, je2.value, sub);
            assert(sw == before.push(Op::SwitchToBlock((base + 4 + 2 * k) as usize)));
            assert(em@.subrange(0, mid2.len() as int) =~= mid2);
            lemma_rhss_chain_push(lib@, *p, tc2, lrs@.subrange(0, k as int), lrs@[k as int], base, g3, rw, em@, mid2, je2.block, je2.value, sub);
            assert(lrs@.subrange(0, k as int).push(lrs@[k as int]) =~= lrs@.subrange(0, k + 1));
            rw = rhs_push(rw, em@, mid2, je2.block, je2.value, sub);
        }
        k = k + 1;
    }
    assert(lrs@.subrange(0, k as int) =~= lrs@);
    let ghost s4 = em@;
    em.emit(Op::SwitchToBlock(failblk));
    em.emit(Op::Trap(TrapKind::UnreachableCodeReached));
    em.emit(Op::SealBlock(failblk));
    em.emit(Op::SwitchToBlock(succblk));
    proof {
        assert(em@.subrange(0, s4.len() as int) =~= s4);
        let w = Emit { mids: seq![g1, g2], states: lstates, subs: seq![sub0, rw], blocks: seq![blk], vals: seq![je.value], ..rw };
        assert(w.subs[1] == rw);
        assert(w.mids[0] == g1);
        assert(w.mids[1] == g2);
        assert(emits(lib@, *p, old(tc)@, *e, blk_in, old(em)@, em@, succblk, param, w));
    }
    Ok((JExpr { block: succblk, value: param }, rjt))
}

/// Whether `x` occurs in `v`.
fn occurs(v: &Vec<usize>, x: usize) -> (res: bool)
    ensures
        res == v@.contains(x),
{
    let mut k: usize = 0;
    while k < v.len()
        invariant
            k <= v@.len(),
            forall|i: int| 0 <= i < k ==> v@[i] != x,
        decreases v@.len() - k,
    {
        if v[k] == x {
            return true;
        }
        k = k + 1;
    }
    false
}

/// The machine signature of function `fd`: the machine types of its
/// parameters and of its result, that of its last expression. An error for a
/// function without a body or with a type that has no machine representation.
pub fn function_signature<S>(fd: &FunctionDefinition<S>) -> (res: Result<(Vec<MachineType>, MachineType), String>)
    ensures
        res is Ok <==> fd.body@.len() > 0
            && machine_type_of(opt_str(expr_type(fd.body@[fd.body@.len() - 1]).name)) is Some
            && params_known(fd.args@),
        res matches Ok(r) ==> r.0@.len() == fd.args@.len()
            && machine_type_of(opt_str(expr_type(fd.body@[fd.body@.len() - 1]).name)) == Some(r.1)
            && forall|i: int| 0 <= i < fd.args@.len() ==> machine_type_of(opt_str(fd.args@[i].1.name)) == Some(#[trigger] r.0@[i]),
{
    if fd.body.len() == 0 {
        return Err(message("not supported by the compiler: a function without a body: ", fd.name.as_str(), ""));
    }
    let t = fd.body[fd.body.len() - 1].typ();
    assert(opt_str(t.name) == opt_str(expr_type(fd.body@[fd.body@.len() - 1]).name));
    let r = match machine_type_named(&t) {
        Ok(r) => r,
        Err(m) => {
            return Err(m);
        },
    };
    let mut out: Vec<MachineType> = Vec::new();
    let mut k: usize = 0;
    while k < fd.args.len()
        invariant
            k <= fd.args@.len(),
            out@.len() == k,
            forall|i: int| 0 <= i < k ==> machine_type_of(opt_str(fd.args@[i].1.name)) == Some(#[trigger] out@[i]),
        decreases fd.args@.len() - k,
    {
        match machine_type_named(&fd.args[k].1) {
            Ok(t) => out.push(t),
            Err(m) => {
                return Err(m);
            },
        }
        k = k + 1;
    }
    assert forall|i: int| 0 <= i < fd.args@.len() implies machine_type_of(opt_str(#[trigger] fd.args@[i].1.name)) is Some by {
        assert(machine_type_of(opt_str(fd.args@[i].1.name)) == Some(out@[i]));
    }
    assert(params_known(fd.args@));
    Ok((out, r))
}

/// The variable types after the parameters `args` are bound.
pub open spec fn params_tc(tc: Map<usize, Seq<char>>, args: Seq<(usize, Type)>) -> Map<usize, Seq<char>>
    decreases args.len(),
{
    if args.len() == 0 {
        tc
    } else {
        params_tc(tc, args.drop_last()).insert(args.last().0, type_nom(args.last().1))
    }
}

/// The variable types after the function `fi` of the program compiles,
/// starting from `tc`; `None` where it is refused: no such function, no
/// body, a type without a machine representation, or a refused expression.
pub open spec fn fn_typing<S>(lib: Seq<FFI>, p: Program<S>, tc: Map<usize, Seq<char>>, fi: Seq<char>) -> Option<Map<usize, Seq<char>>> {
    match lookup_fn(p.functions@, fi) {
        None => None,
        Some(k) => {
            let fd = p.functions@[k];
            if fd.body@.len() > 0 && machine_type_of(opt_str(expr_type(fd.body@[fd.body@.len() - 1]).name)) is Some
                && params_known(fd.args@) && fd.args@.len() < usize::MAX / 2 {
                match exprs_typing(lib, p, params_tc(tc, fd.args@), fd.body@) {
                    None => None,
                    Some((_, tc1)) => Some(tc1),
                }
            } else {
                None
            }
        },
    }
}

/// Every parameter type has a machine representation.
pub open spec fn params_known(args: Seq<(usize, Type)>) -> bool {
    forall|i: int| 0 <= i < args.len() ==> machine_type_of(opt_str(#[trigger] args[i].1.name)) is Some
}

/// The variable types after each of `vs` is bound to a packed argument.
pub open spec fn values_tc(tc: Map<usize, Seq<char>>, vs: Seq<usize>) -> Map<usize, Seq<char>>
    decreases vs.len(),
{
    if vs.len() == 0 {
        tc
    } else {
        values_tc(tc, vs.drop_last()).insert(vs.last(), "Value"@)
    }
}

/// The variable types after the entry point of program `p` compiles,
/// starting from `tc`: every variable that its expressions read is bound to
/// a packed argument, then the expressions compile in order, and the last
/// one's value must convert to a packed value; `None` where it is refused.
pub open spec fn main_typing<S>(lib: Seq<FFI>, p: Program<S>, tc: Map<usize, Seq<char>>) -> Option<Map<usize, Seq<char>>> {
    let tc1 = values_tc(tc, expr_list_vars(p.expressions@));
    if p.expressions@.len() == 0 {
        Some(tc1)
    } else {
        match exprs_typing(lib, p, tc1, p.expressions@) {
            None => None,
            Some((names, tc2)) => if cast_plan_spec(names.last(), "Value"@) is Some {
                Some(tc2)
            } else {
                None
            },
        }
    }
}

/// `new` is `s` followed by the return of `v` (its two halves where
/// `wide`) from block `b`, then `b` sealed.
pub open spec fn returned(s: Seq<Op>, new: Seq<Op>, v: ValueRef, b: usize, wide: bool) -> bool {
    let l = s.len() as int;
    &&& new.subrange(0, l) == s
    &&& wide ==> new.len() == l + 3 && new[l] == Op::Isplit(v)
        && is_return_of(new[l + 1], seq![vr(l, 0), vr(l, 1)]) && new[l + 2] == Op::SealBlock(b)
    &&& !wide ==> new.len() == l + 2 && is_return_of(new[l], seq![v]) && new[l + 1] == Op::SealBlock(b)
}

/// The expressions `body`, compiled in order from block `entry` after the
/// instructions `start` with variable types `tc0`, then the return of the
/// last one's value (its two halves where `wide`): `new`.
pub open spec fn body_returned<S>(lib: Seq<FFI>, p: Program<S>, tc0: Map<usize, Seq<char>>, body: Seq<Expression<S>>, entry: usize, start: Seq<Op>, new: Seq<Op>, wide: bool) -> bool {
    exists|w: Emit| #[trigger] exprs_chain(lib, p, tc0, body, entry, start, w)
        && body.len() > 0
        && returned(w.states.last(), new, w.vals.last(), w.blocks.last(), wide)
}

/// The program's function named `fi`, where there is one.
pub open spec fn named_fn<S>(p: Program<S>, fi: Seq<char>) -> FunctionDefinition<S> {
    p.functions@[lookup_fn(p.functions@, fi)->0]
}

/// The machine type of a parameter.
pub open spec fn param_type(arg: (usize, Type)) -> MachineType {
    machine_type_of(opt_str(arg.1.name))->0
}

/// How many block parameters a parameter of type `t` takes: two halves for
/// a 128-bit value, else one.
pub open spec fn param_width(t: MachineType) -> int {
    if t == MachineType::I128 {
        2
    } else {
        1
    }
}

/// The position of the first block parameter of `args[a]`: the widths of
/// the parameters before it added up.
pub open spec fn param_pos(args: Seq<(usize, Type)>, a: int) -> int
    decreases a,
{
    if a <= 0 {
        0
    } else {
        param_pos(args, a - 1) + param_width(param_type(args[a - 1]))
    }
}

/// `s` followed by the binding of the first `a` parameters `args` to the
/// block parameters of the instruction `params`, in order: each variable
/// declared with its machine type, then defined as its block parameter, or
/// as the join of its two halves for a 128-bit one.
pub open spec fn params_bound(args: Seq<(usize, Type)>, params: int, s: Seq<Op>, a: int) -> Seq<Op>
    decreases a,
{
    if a <= 0 {
        s
    } else {
        let prev = params_bound(args, params, s, a - 1);
        let vi = args[a - 1].0;
        let t = param_type(args[a - 1]);
        let pos = param_pos(args, a - 1);
        let d = prev.push(Op::DeclareVar(vi, t));
        if t == MachineType::I128 {
            let c = d.push(Op::Iconcat(vr(params, pos), vr(params, pos + 1)));
            c.push(Op::DefVar(vi, vr(d.len() as int, 0)))
        } else {
            d.push(Op::DefVar(vi, vr(params, pos)))
        }
    }
}

/// `old` followed by the entry block of a function, created, given the
/// function's parameters and switched to, then its parameters `args` bound.
pub open spec fn fn_entry(old: Seq<Op>, args: Seq<(usize, Type)>) -> Seq<Op> {
    let n = old.len() as int;
    let s3 = old + seq![Op::CreateBlock, Op::FunctionParams(n as usize), Op::SwitchToBlock(n as usize)];
    params_bound(args, n + 1, s3, args.len() as int)
}

/// The body of the program's function `fi` returns its last expression's
/// value, the parameters bound first: the code emitted after `old` is `new`.
pub open spec fn fn_returns<S>(lib: Seq<FFI>, p: Program<S>, tc: Map<usize, Seq<char>>, fi: Seq<char>, old: Seq<Op>, new: Seq<Op>) -> bool {
    let fd = named_fn(p, fi);
    body_returned(lib, p, params_tc(tc, fd.args@), fd.body@, old.len() as usize, fn_entry(old, fd.args@), new, returns_wide(fd))
}

/// The function `fd` returns a 128-bit value.
pub open spec fn returns_wide<S>(fd: FunctionDefinition<S>) -> bool {
    machine_type_of(opt_str(expr_type(fd.body@[fd.body@.len() - 1]).name)) == Some(MachineType::I128)
}

/// `new` is `old` followed by the code of a function: its entry block,
/// whose parameters are the function's, control in it, and at the end a
/// return, then the last block sealed.
pub open spec fn function_emitted(old: Seq<Op>, new: Seq<Op>) -> bool {
    let n = old.len() as int;
    &&& grew(old, new)
    &&& new.len() >= n + 5
    &&& new[n] == Op::CreateBlock
    &&& new[n + 1] == Op::FunctionParams(n as usize)
    &&& new[n + 2] == Op::SwitchToBlock(n as usize)
    &&& new[new.len() - 2] is Return
    &&& new.last() is SealBlock
}

/// Emits the body of the program's function `fi`, as `try_compile_fn`
/// does; the function must be one that the compiler handles (`fn_typing`).
pub fn compile_fn<S>(tc: &mut TypeContext, lib: &Vec<FFI>, p: &Program<S>, em: &mut Emitter, fi: &String)
    requires
        lib_ok(lib@),
        fn_typing(lib@, *p, old(tc)@, fi@) is Some,
    ensures
        grew(old(em)@, final(em)@),
        function_emitted(old(em)@, final(em)@),
        fn_returns(lib@, *p, old(tc)@, fi@, old(em)@, final(em)@),
        final(tc)@ == fn_typing(lib@, *p, old(tc)@, fi@)->0,
{
    let r = try_compile_fn(tc, lib, p, em, fi);
    assert(r is Ok);
}

/// Emits the body of the program's function `fi`: its parameters are
/// bound to the function's arguments, 128-bit ones passed as two halves,
/// its expressions are compiled in order and the last one's value returned.
/// An error where `fi` names no function of the program, or where the
/// function or one of its expressions cannot be compiled.
pub fn try_compile_fn<S>(tc: &mut TypeContext, lib: &Vec<FFI>, p: &Program<S>, em: &mut Emitter, fi: &String) -> (res: Result<(), String>)
    requires
        lib_ok(lib@),
    ensures
        grew(old(em)@, final(em)@),
        res is Ok ==> function_emitted(old(em)@, final(em)@),
        res is Ok ==> fn_returns(lib@, *p, old(tc)@, fi@, old(em)@, final(em)@),
        res is Ok <==> fn_typing(lib@, *p, old(tc)@, fi@) is Some,
        res is Ok ==> final(tc)@ == fn_typing(lib@, *p, old(tc)@, fi@)->0,
{
    let k = match find_function(&p.functions, fi) {
        Some(k) => k,
        None => {
            return Err(message("Could not find local function: ", fi.as_str(), ""));
        },
    };
    let pf = &p.functions[k];
    let hrets = match function_signature(pf) {
        Ok(sig) => sig.1,
        Err(m) => {
            return Err(m);
        },
    };
    if pf.args.len() >= usize::MAX / 2 {
        return Err(message("not supported by the compiler: too many parameters: ", fi.as_str(), ""));
    }
    let ghost whole = fn_typing(lib@, *p, old(tc)@, fi@);
    assert(whole == match exprs_typing(lib@, *p, params_tc(old(tc)@, pf.args@), pf.body@) {
        None => None,
        Some((_, tc1)) => Some(tc1),
    });
    let mut blk = em.emit(Op::CreateBlock);
    let params = em.emit(Op::FunctionParams(blk));
    em.emit(Op::SwitchToBlock(blk));
    let ghost g3 = em@;
    assert(g3 =~= old(em)@ + seq![Op::CreateBlock, Op::FunctionParams(blk), Op::SwitchToBlock(blk)]);
    let mut pi: usize = 0;
    let mut a: usize = 0;
    assert(pf.args@.subrange(0, 0) =~= Seq::<(usize, Type)>::empty());
    while a < pf.args.len()
        invariant
            a <= pf.args@.len(),
            pf.args@.len() < usize::MAX / 2,
            params_known(pf.args@),
            pi <= 2 * a,
            grew(old(em)@, em@),
            grew(g3, em@),
            blk < em@.len(),
            params < em@.len(),
            tc@ == params_tc(old(tc)@, pf.args@.subrange(0, a as int)),
            params == old(em)@.len() + 1,
            blk == old(em)@.len(),
            pi == param_pos(pf.args@, a as int),
            em@ == params_bound(pf.args@, params as int, g3, a as int),
        decreases pf.args@.len() - a,
    {
        assert(pf.args@.subrange(0, a + 1).drop_last() =~= pf.args@.subrange(0, a as int));
        let vi = pf.args[a].0;
        let ptyp = match machine_type_named(&pf.args[a].1) {
            Ok(t) => t,
            Err(m) => {
                assert(machine_type_of(opt_str(pf.args@[a as int].1.name)) is Some);
                return Err(m);
            },
        };
        em.emit(Op::DeclareVar(vi, ptyp));
        tc.insert(vi, pf.args[a].1.nom());
        let pval = if ptyp == MachineType::I128 {
            let v = em.value(Op::Iconcat(ValueRef { op: params, k: pi }, ValueRef { op: params, k: pi + 1 }));
            pi = pi + 2;
            v
        } else {
            let v = ValueRef { op: params, k: pi };
            pi = pi + 1;
            v
        };
        em.emit(Op::DefVar(vi, pval));
        a = a + 1;
    }
    assert(pf.args@.subrange(0, a as int) =~= pf.args@);
    assert(em@ == fn_entry(old(em)@, pf.args@));
    let ghost tc0 = tc@;
    let ghost start = em@;
    let ghost entry = blk;
    let ghost mut w = start_chain(em@, blk);
    let ghost mut names: Seq<Seq<char>> = Seq::empty();
    let mut last: Option<ValueRef> = None;
    let mut b: usize = 0;
    assert(pf.body@.subrange(0, 0) =~= Seq::<Expression<S>>::empty());
    while b < pf.body.len()
        invariant
        lib_ok(lib@),
            b <= pf.body@.len(),
            grew(old(em)@, em@),
            grew(g3, em@),
            blk < em@.len(),
            last matches Some(v) ==> ref_ok(v, em@.len() as int),
            b > 0 ==> last is Some,
            exprs_typing(lib@, *p, tc0, pf.body@.subrange(0, b as int)) == Some((names, tc@)),
            exprs_chain(lib@, *p, tc0, pf.body@.subrange(0, b as int), entry, start, w),
            w.states.last() == em@,
            w.blocks.last() == blk,
            b > 0 ==> last == Some(w.vals.last()),
            grew(g3, start),
            grew(start, em@),
            whole == fn_typing(lib@, *p, old(tc)@, fi@),
            whole == match exprs_typing(lib@, *p, tc0, pf.body@) {
                None => None,
                Some((_, tc1)) => Some(tc1),
            },
        decreases pf.body@.len() - b,
    {
        assert(pf.body@.subrange(0, b + 1).subrange(0, b as int) =~= pf.body@.subrange(0, b as int));
        let ghost mid = em@;
        let ghost bb = blk;
        let ghost tcb = tc@;
        match try_compile_expr(tc, lib, p, em, blk, &pf.body[b]) {
            Ok((je, jt)) => {
                proof {
                    names = names.push(jt.name@);
                    let sub = choose|sub: Emit| emits(lib@, *p, tcb, pf.body@[b as int], bb, mid, em@, je.block, je.value, sub);
                    lemma_exprs_chain_push(lib@, *p, tc0, pf.body@.subrange(0, b as int), pf.body@[b as int], entry, start, w, em@, je.block, je.value, sub);
                    assert(pf.body@.subrange(0, b as int).push(pf.body@[b as int]) =~= pf.body@.subrange(0, b + 1));
                    w = chain_push(w, em@, je.block, je.value, sub);
                }
                blk = je.block;
                last = Some(je.value);
            },
            Err(m) => {
                proof {
                    lemma_exprs_none(lib@, *p, tc0, pf.body@, b + 1);
                }
                return Err(m);
            },
        }
        b = b + 1;
    }
    assert(pf.body@.subrange(0, b as int) =~= pf.body@);
    let v = match last {
        Some(v) => v,
        None => {
            return Err(message("not supported by the compiler: a function without a body: ", fi.as_str(), ""));
        },
    };
    let ghost sl = em@;
    if hrets == MachineType::I128 {
        let sp = em.emit(Op::Isplit(v));
        let rets = vec![ValueRef { op: sp, k: 0 }, ValueRef { op: sp, k: 1 }];
        assert(rets@ =~= seq![vr(sl.len() as int, 0), vr(sl.len() as int, 1)]);
        em.emit(Op::Return(rets));
    } else {
        let rets = vec![v];
        assert(rets@ =~= seq![v]);
        em.emit(Op::Return(rets));
    }
    em.emit(Op::SealBlock(blk));
    proof {
        assert(em@.subrange(0, sl.len() as int) =~= sl);
        assert(named_fn(*p, fi@) == *pf);
        assert(returned(w.states.last(), em@, w.vals.last(), w.blocks.last(), returns_wide(*pf)));
        assert(body_returned(lib@, *p, tc0, pf.body@, entry, start, em@, returns_wide(*pf)));
        assert(tc0 == params_tc(old(tc)@, pf.args@));
        assert(entry == old(em)@.len() as usize);
        assert(grew(old(em)@, start));
        assert(body_returned(lib@, *p, params_tc(old(tc)@, named_fn(*p, fi@).args@), named_fn(*p, fi@).body@,
            old(em)@.len() as usize, start, em@, returns_wide(named_fn(*p, fi@))));
    }
    Ok(())
}

/// The top-level expressions `es`, compiled in order from block `entry`
/// after the instructions `start` with variable types `tc0`, then the
/// return of the two halves of the last one's value converted to `Value`
/// (of 0 twice where there are none): `new`.
pub open spec fn main_returned<S>(lib: Seq<FFI>, p: Program<S>, tc0: Map<usize, Seq<char>>, es: Seq<Expression<S>>, entry: usize, start: Seq<Op>, new: Seq<Op>) -> bool {
    exists|w: Emit| #[trigger] exprs_chain(lib, p, tc0, es, entry, start, w) && {
        let s = w.states.last();
        let b = w.blocks.last();
        let l = s.len() as int;
        if es.len() == 0 {
            &&& new.len() == l + 3
            &&& new.subrange(0, l) == s
            &&& new[l] == Op::Iconst(MachineType::I64, 0)
            &&& is_return_of(new[l + 1], seq![vr(l, 0), vr(l, 0)])
            &&& new[l + 2] == Op::SealBlock(b)
        } else {
            let plan = cast_plan_spec((exprs_typing(lib, p, tc0, es)->0).0.last(), "Value"@)->0;
            returned(s + cast_ops(plan, w.vals.last(), l as usize), new, cast_result(plan, w.vals.last(), l as usize), b, true)
        }
    }
}

/// The entry function emitted after `old` returns the value of the last
/// top-level expression: `new`.
pub open spec fn main_returns<S>(lib: Seq<FFI>, p: Program<S>, tc: Map<usize, Seq<char>>, old: Seq<Op>, new: Seq<Op>) -> bool {
    exists|start: Seq<Op>| grew(old, start) && #[trigger] main_returned(lib, p, values_tc(tc, expr_list_vars(p.expressions@)),
        p.expressions@, old.len() as usize, start, new)
}

/// The offset in the argument array of top-level variable `vi`: 16 bytes
/// per variable, as a 32-bit offset.
pub open spec fn arg_offset(vi: usize) -> i32 {
    (((vi as u64) % 0x1000_0000) * 16) as i32
}

/// At `j`, top-level variable `vi` declared as a 128-bit variable, loaded
/// from its place in the argument array (the first parameter `args`), and
/// defined to what was loaded.
pub open spec fn var_loaded(ops: Seq<Op>, j: int, vi: usize, args: ValueRef) -> bool {
    &&& ops[j] == Op::DeclareVar(vi, MachineType::I128)
    &&& ops[j + 1] == Op::Load(MachineType::I128, args, arg_offset(vi))
    &&& ops[j + 2] == Op::DefVar(vi, ValueRef { op: (j + 1) as usize, k: 0 })
}

/// Top-level variable `vi` is loaded from the arguments somewhere after the
/// entry block's first instructions at `n`.
pub open spec fn var_loaded_after(ops: Seq<Op>, n: int, vi: usize) -> bool {
    exists|j: int| n + 3 <= j && j + 3 <= ops.len() && #[trigger] var_loaded(ops, j, vi, ValueRef { op: (n + 1) as usize, k: 0 })
}

/// Each variable of the top-level expressions `es` is loaded from the
/// arguments after the entry block's first instructions at `n`.
pub open spec fn vars_loaded<S>(ops: Seq<Op>, n: int, es: Seq<Expression<S>>) -> bool {
    forall|i: int| 0 <= i < expr_list_vars(es).len() ==> #[trigger] var_loaded_after(ops, n, expr_list_vars(es)[i])
}

/// `op` returns the values `vals`.
pub open spec fn is_return_of(op: Op, vals: Seq<ValueRef>) -> bool {
    match op {
        Op::Return(vs) => vs@ == vals,
        _ => false,
    }
}

/// The entry function ends by returning the two halves of a 128-bit value:
/// those of the value split just before, or 0 twice where there are no
/// expressions; then its last block is sealed.
pub open spec fn main_return(ops: Seq<Op>, empty: bool) -> bool {
    let r = ops.len() - 3;
    &&& ops.len() >= 3
    &&& empty ==> ops[r] == Op::Iconst(MachineType::I64, 0)
        && is_return_of(ops[r + 1], seq![ValueRef { op: r as usize, k: 0 }, ValueRef { op: r as usize, k: 0 }])
    &&& !empty ==> ops[r] is Isplit
        && is_return_of(ops[r + 1], seq![ValueRef { op: r as usize, k: 0 }, ValueRef { op: r as usize, k: 1 }])
    &&& ops[r + 2] is SealBlock
}

/// Emits the program's top-level expressions as its entry function, as
/// `try_compile_main` does; they must be ones that the compiler handles
/// (`main_typing`).
pub fn compile_main<S>(tc: &mut TypeContext, lib: &Vec<FFI>, p: &Program<S>, em: &mut Emitter)
    requires
        lib_ok(lib@),
        main_typing(lib@, *p, old(tc)@) is Some,
    ensures
        grew(old(em)@, final(em)@),
        function_emitted(old(em)@, final(em)@),
        main_return(final(em)@, p.expressions@.len() == 0),
        main_returns(lib@, *p, old(tc)@, old(em)@, final(em)@),
        vars_loaded(final(em)@, old(em)@.len() as int, p.expressions@),
        final(tc)@ == main_typing(lib@, *p, old(tc)@)->0,
{
    let r = try_compile_main(tc, lib, p, em);
    assert(r is Ok);
}

/// Emits the entry point of the program: it takes a pointer to its
/// arguments and their count, binds each variable `i` that the top-level
/// expressions read to the 128-bit argument at offset `16 * i`, compiles
/// the expressions in order and returns the last one's value, packed, as two
/// halves; with no expressions it returns zero.
#[verifier::spinoff_prover]
#[verifier::rlimit(80)]
pub fn try_compile_main<S>(tc: &mut TypeContext, lib: &Vec<FFI>, p: &Program<S>, em: &mut Emitter) -> (res: Result<(), String>)
    requires
        lib_ok(lib@),
    ensures
        grew(old(em)@, final(em)@),
        res is Ok ==> function_emitted(old(em)@, final(em)@),
        res is Ok ==> main_return(final(em)@, p.expressions@.len() == 0),
        res is Ok ==> main_returns(lib@, *p, old(tc)@, old(em)@, final(em)@),
        res is Ok ==> vars_loaded(final(em)@, old(em)@.len() as int, p.expressions@),
        res is Ok <==> main_typing(lib@, *p, old(tc)@) is Some,
        res is Ok ==> final(tc)@ == main_typing(lib@, *p, old(tc)@)->0,
{
    proof {
        reveal_strlit("Value");
    }
    let ghost whole = main_typing(lib@, *p, old(tc)@);
    let mut blk = em.emit(Op::CreateBlock);
    let params = em.emit(Op::FunctionParams(blk));
    em.emit(Op::SwitchToBlock(blk));
    let ghost g3 = em@;
    let mut pars: Vec<usize> = Vec::new();
    let mut k: usize = 0;
    assert(p.expressions@.subrange(0, 0) =~= Seq::<Expression<S>>::empty());
    while k < p.expressions.len()
        invariant
            k <= p.expressions@.len(),
            pars@ == expr_list_vars(p.expressions@.subrange(0, k as int)),
        decreases p.expressions@.len() - k,
    {
        assert(p.expressions@.subrange(0, k + 1).subrange(0, k as int) =~= p.expressions@.subrange(0, k as int));
        p.expressions[k].vars(&mut pars);
        k = k + 1;
    }
    assert(p.expressions@.subrange(0, k as int) =~= p.expressions@);
    let mut declared: Vec<usize> = Vec::new();
    let ghost mut pos: Seq<int> = Seq::empty();
    let ghost n = old(em)@.len() as int;
    let ghost argv = ValueRef { op: params, k: 0 };
    let mut k: usize = 0;
    assert(pars@.subrange(0, 0) =~= Seq::<usize>::empty());
    while k < pars.len()
        invariant
            k <= pars@.len(),
            grew(old(em)@, em@),
            grew(g3, em@),
            g3.len() == n + 3,
            blk == n,
            params == n + 1,
            argv == (ValueRef { op: params, k: 0 }),
            pos.len() == declared@.len(),
            forall|i: int| 0 <= i < declared@.len() ==> n + 3 <= #[trigger] pos[i] && pos[i] + 3 <= em@.len()
                && var_loaded(em@, pos[i], declared@[i], argv),
            forall|i: int| 0 <= i < k ==> declared@.contains(#[trigger] pars@[i]),
            blk < em@.len(),
            params < em@.len(),
            tc@ == values_tc(old(tc)@, pars@.subrange(0, k as int)),
            forall|i: int| 0 <= i < declared@.len() ==> tc@.contains_key(#[trigger] declared@[i]) && tc@[declared@[i]] == "Value"@,
        decreases pars@.len() - k,
    {
        assert(pars@.subrange(0, k + 1).drop_last() =~= pars@.subrange(0, k as int));
        let pi = pars[k];
        if !occurs(&declared, pi) {
            let ghost prev = em@;
            let ghost dprev = declared@;
            declared.push(pi);
            let at = em.emit(Op::DeclareVar(pi, MachineType::I128));
            tc.insert(pi, "Value".to_string());
            let offset: i32 = #[verifier::truncate] (((pi as u64 % 0x1000_0000) * 16) as i32);
            let arg = em.value(Op::Load(MachineType::I128, ValueRef { op: params, k: 0 }, offset));
            em.emit(Op::DefVar(pi, arg));
            proof {
                pos = pos.push(at as int);
                assert(var_loaded(em@, at as int, pi, argv));
                assert forall|i: int| 0 <= i < declared@.len() implies n + 3 <= #[trigger] pos[i] && pos[i] + 3 <= em@.len()
                    && var_loaded(em@, pos[i], declared@[i], argv) by {
                    if i < dprev.len() {
                        assert(declared@[i] == dprev[i]);
                    }
                }
                assert forall|i: int| 0 <= i < k + 1 implies declared@.contains(#[trigger] pars@[i]) by {
                    if i < k {
                        assert(dprev.contains(pars@[i]));
                        let m = choose|m: int| 0 <= m < dprev.len() && dprev[m] == pars@[i];
                        assert(declared@[m] == pars@[i]);
                    } else {
                        assert(declared@[dprev.len() as int] == pi);
                    }
                }
            }
        } else {
            assert(tc@.insert(pi, "Value"@) =~= tc@);
        }
        k = k + 1;
    }
    assert(pars@.subrange(0, k as int) =~= pars@);
    let ghost g4 = em@;
    let ghost tc1 = tc@;
    assert(tc1 == values_tc(old(tc)@, expr_list_vars(p.expressions@)));
    let ghost start = em@;
    let ghost entry = blk;
    let ghost mut w = start_chain(em@, blk);
    if p.expressions.len() == 0 {
        let zero = em.value(Op::Iconst(MachineType::I64, 0));
        let rets = vec![zero, zero];
        assert(rets@ =~= seq![zero, zero]);
        em.emit(Op::Return(rets));
    } else {
        let ghost mut names: Seq<Seq<char>> = Seq::empty();
        let mut last: Option<(JExpr, JType)> = None;
        let mut k: usize = 0;
        assert(p.expressions@.subrange(0, 0) =~= Seq::<Expression<S>>::empty());
        assert(whole == match exprs_typing(lib@, *p, tc1, p.expressions@) {
            None => None,
            Some((names, tc2)) => if cast_plan_spec(names.last(), "Value"@) is Some {
                Some(tc2)
            } else {
                None
            },
        });
        while k < p.expressions.len()
            invariant
            lib_ok(lib@),
                k <= p.expressions@.len(),
                whole == main_typing(lib@, *p, old(tc)@),
                whole == match exprs_typing(lib@, *p, tc1, p.expressions@) {
                    None => None,
                    Some((names, tc2)) => if cast_plan_spec(names.last(), "Value"@) is Some {
                        Some(tc2)
                    } else {
                        None
                    },
                },
                grew(old(em)@, em@),
            grew(g3, em@),
                grew(g4, em@),
                exprs_chain(lib@, *p, tc1, p.expressions@.subrange(0, k as int), entry, start, w),
                w.states.last() == em@,
                w.blocks.last() == blk,
                k > 0 ==> (last matches Some(r) && r.0.value == w.vals.last()),
                blk < em@.len(),
                last matches Some(r) ==> ref_ok(r.0.value, em@.len() as int) && r.1.name@ == names.last(),
                k > 0 ==> last is Some,
                names.len() == k,
                exprs_typing(lib@, *p, tc1, p.expressions@.subrange(0, k as int)) == Some((names, tc@)),
            decreases p.expressions@.len() - k,
        {
            assert(p.expressions@.subrange(0, k + 1).subrange(0, k as int) =~= p.expressions@.subrange(0, k as int));
            let ghost mid = em@;
            let ghost bb = blk;
            let ghost tcb = tc@;
            match try_compile_expr(tc, lib, p, em, blk, &p.expressions[k]) {
                Ok(r) => {
                    proof {
                        names = names.push(r.1.name@);
                        let sub = choose|sub: Emit| emits(lib@, *p, tcb, p.expressions@[k as int], bb, mid, em@, r.0.block, r.0.value, sub);
                        lemma_exprs_chain_push(lib@, *p, tc1, p.expressions@.subrange(0, k as int), p.expressions@[k as int], entry, start, w, em@, r.0.block, r.0.value, sub);
                        assert(p.expressions@.subrange(0, k as int).push(p.expressions@[k as int]) =~= p.expressions@.subrange(0, k + 1));
                        w = chain_push(w, em@, r.0.block, r.0.value, sub);
                    }
                    blk = r.0.block;
                    last = Some(r);
                },
                Err(m) => {
                    proof {
                        lemma_exprs_none(lib@, *p, tc1, p.expressions@, k + 1);
                    }
                    return Err(m);
                },
            }
            k = k + 1;
        }
        assert(p.expressions@.subrange(0, k as int) =~= p.expressions@);
        let (je, jt) = match last {
            Some(r) => r,
            None => {
                return Err("not supported by the compiler: a program without expressions".to_string());
            },
        };
        let v = match checked_cast(em, jt.name.as_str(), "Value", je.value) {
            Ok(v) => v,
            Err(m) => {
                return Err(m);
            },
        };
        let ghost m = em@;
        let sp = em.emit(Op::Isplit(v));
        let rets = vec![ValueRef { op: sp, k: 0 }, ValueRef { op: sp, k: 1 }];
        assert(rets@ =~= seq![vr(m.len() as int, 0), vr(m.len() as int, 1)]);
        em.emit(Op::Return(rets));
    }
    em.emit(Op::SealBlock(blk));
    proof {
        if p.expressions.len() == 0 {
            assert(p.expressions@.subrange(0, 0) =~= p.expressions@);
            assert(em@.subrange(0, start.len() as int) =~= start);
            assert(exprs_chain(lib@, *p, tc1, p.expressions@, entry, start, w));
            assert(w.states.last() == start);
        } else {
            let plan = cast_plan_spec((exprs_typing(lib@, *p, tc1, p.expressions@)->0).0.last(), "Value"@)->0;
            let m0 = w.states.last() + cast_ops(plan, w.vals.last(), w.states.last().len() as usize);
            assert(exprs_chain(lib@, *p, tc1, p.expressions@, entry, start, w));
            assert(em@.subrange(0, m0.len() as int) =~= m0);
            assert(returned(m0, em@, cast_result(plan, w.vals.last(), w.states.last().len() as usize), w.blocks.last(), true));
        }
        assert(main_returned(lib@, *p, tc1, p.expressions@, entry, start, em@));
        assert(grew(old(em)@, start));
        assert(entry == old(em)@.len() as usize);
        assert(main_returned(lib@, *p, values_tc(old(tc)@, expr_list_vars(p.expressions@)), p.expressions@, old(em)@.len() as usize, start, em@));
    }
    proof {
        assert forall|i: int| 0 <= i < expr_list_vars(p.expressions@).len() implies
            #[trigger] var_loaded_after(em@, n, expr_list_vars(p.expressions@)[i]) by {
            let vi = pars@[i];
            assert(declared@.contains(vi));
            let m = choose|m: int| 0 <= m < declared@.len() && declared@[m] == vi;
            let j = pos[m];
            assert(var_loaded(g4, j, vi, argv));
            assert(var_loaded(em@, j, vi, argv));
        }
    }
    Ok(())
}

/// A compiled program: the code of its entry point and that of each of its
/// functions, by name.
pub struct CompiledProgram {
    pub main: Emitter,
    pub functions: Vec<(String, Emitter)>,
}

/// The names of the definitions `fs`, each once, in order of first
/// definition.
pub open spec fn distinct_names<S>(fs: Seq<FunctionDefinition<S>>) -> Seq<Seq<char>>
    decreases fs.len(),
{
    if fs.len() == 0 {
        Seq::empty()
    } else {
        let prev = distinct_names(fs.drop_last());
        if prev.contains(fs.last().name@) {
            prev
        } else {
            prev.push(fs.last().name@)
        }
    }
}

/// The views of strings.
pub open spec fn string_views(ss: Seq<String>) -> Seq<Seq<char>> {
    ss.map_values(|s: String| s@)
}

/// The names of the program's functions, each once, in order of first
/// definition.
pub fn function_names<S>(p: &Program<S>) -> (res: Vec<String>)
    ensures
        string_views(res@) == distinct_names(p.functions@),
        forall|i: int| 0 <= i < res@.len() ==> lookup_fn(p.functions@, (#[trigger] res@[i])@) is Some,
{
    let mut names: Vec<String> = Vec::new();
    let mut k: usize = 0;
    assert(p.functions@.subrange(0, 0) =~= Seq::<FunctionDefinition<S>>::empty());
    assert(string_views(names@) =~= Seq::<Seq<char>>::empty());
    while k < p.functions.len()
        invariant
            k <= p.functions@.len(),
            string_views(names@) == distinct_names(p.functions@.subrange(0, k as int)),
            forall|i: int| 0 <= i < names@.len() ==> lookup_fn(p.functions@, (#[trigger] names@[i])@) is Some,
        decreases p.functions@.len() - k,
    {
        assert(p.functions@.subrange(0, k + 1).drop_last() =~= p.functions@.subrange(0, k as int));
        let name = &p.functions[k].name;
        let ghost prev = string_views(names@);
        let mut seen = false;
        let mut j: usize = 0;
        while j < names.len()
            invariant
                j <= names@.len(),
                prev == string_views(names@),
                seen ==> prev.contains(name@),
                !seen ==> forall|i: int| 0 <= i < j ==> prev[i] != name@,
            decreases names@.len() - j,
        {
            if is_str(names[j].as_str(), name.as_str()) {
                assert(prev[j as int] == name@);
                seen = true;
            }
            j = j + 1;
        }
        if !seen {
            proof {
                lemma_lookup_defined(p.functions@, k as int);
            }
            let n = name.clone();
            names.push(n);
            assert(string_views(names@) =~= prev.push(name@));
        }
        k = k + 1;
    }
    assert(p.functions@.subrange(0, k as int) =~= p.functions@);
    names
}

/// A name that some definition carries is found.
proof fn lemma_lookup_defined<S>(fs: Seq<FunctionDefinition<S>>, k: int)
    requires
        0 <= k < fs.len(),
    ensures
        lookup_fn(fs, fs[k].name@) is Some,
    decreases fs.len(),
{
    if fs[fs.len() - 1].name@ != fs[k].name@ {
        lemma_lookup_defined(fs.subrange(0, fs.len() - 1), k);
    }
}

/// The names of the functions that expression `e` applies, in order of
/// appearance, wherever they stand in it.
pub open spec fn expr_calls<S>(e: Expression<S>) -> Seq<Seq<char>>
    decreases e, 1nat,
{
    match e {
        Expression::FlatMap(_, it, x, _, _) => expr_calls(*it) + ti_calls(*x),
        Expression::LiteralIntroduction(lis, _, _) => lis_calls(lis@),
        Expression::TupleIntroduction(ts, _, _) => tis_calls(ts@),
        Expression::FunctionApplication(fi, args, _, _) => seq![fi@] + exprs_calls(args@),
        Expression::PatternMatch(pe, arms, _, _) => expr_calls(*pe) + arms_calls(arms@),
        _ => Seq::empty(),
    }
}

/// The functions that a tuple part applies.
pub open spec fn ti_calls<S>(p: TIPart<S>) -> Seq<Seq<char>>
    decreases p, 1nat,
{
    match p {
        TIPart::Expression(x) => expr_calls(x),
        _ => Seq::empty(),
    }
}

/// The functions that a literal part applies.
pub open spec fn li_calls<S>(p: LIPart<S>) -> Seq<Seq<char>>
    decreases p, 1nat,
{
    match p {
        LIPart::Expression(x) => expr_calls(x),
        _ => Seq::empty(),
    }
}

/// The functions that the expressions `es` apply, in order.
pub open spec fn exprs_calls<S>(es: Seq<Expression<S>>) -> Seq<Seq<char>>
    decreases es, 0nat,
{
    if es.len() == 0 {
        Seq::empty()
    } else {
        exprs_calls(es.subrange(0, es.len() - 1)) + expr_calls(es[es.len() - 1])
    }
}

/// The functions that the literal parts `ps` apply, in order.
pub open spec fn lis_calls<S>(ps: Seq<LIPart<S>>) -> Seq<Seq<char>>
    decreases ps, 0nat,
{
    if ps.len() == 0 {
        Seq::empty()
    } else {
        lis_calls(ps.subrange(0, ps.len() - 1)) + li_calls(ps[ps.len() - 1])
    }
}

/// The functions that the tuple parts `ps` apply, in order.
pub open spec fn tis_calls<S>(ps: Seq<TIPart<S>>) -> Seq<Seq<char>>
    decreases ps, 0nat,
{
    if ps.len() == 0 {
        Seq::empty()
    } else {
        tis_calls(ps.subrange(0, ps.len() - 1)) + ti_calls(ps[ps.len() - 1])
    }
}

/// The functions that the right-hand sides of `arms` apply, in order.
pub open spec fn arms_calls<S>(arms: Seq<(LHSPart, Expression<S>)>) -> Seq<Seq<char>>
    decreases arms, 0nat,
{
    if arms.len() == 0 {
        Seq::empty()
    } else {
        arms_calls(arms.subrange(0, arms.len() - 1)) + expr_calls(arms[arms.len() - 1].1)
    }
}

/// Appends the names of the functions that `e` applies to `out`.
fn collect_calls<S>(e: &Expression<S>, out: &mut Vec<String>)
    ensures
        string_views(final(out)@) == string_views(old(out)@) + expr_calls(*e),
    decreases e, 1nat,
{
    let ghost before = string_views(out@);
    match e {
        Expression::FlatMap(_, it, x, _, _) => {
            assert(decreases_to!(*e => e->FlatMap_1));
            collect_calls(it, out);
            let ghost mid = string_views(out@);
            assert(mid =~= before + expr_calls(**it));
            match &**x {
                TIPart::Expression(xe) => {
                    assert(decreases_to!(*e => e->FlatMap_2));
                    assert(decreases_to!(e->FlatMap_2 => e->FlatMap_2->Expression_0));
                    collect_calls(xe, out);
                    assert(ti_calls(**x) == expr_calls(*xe));
                },
                _ => {
                    assert(ti_calls(**x) == Seq::<Seq<char>>::empty());
                },
            }
            assert(expr_calls(*e) == expr_calls(**it) + ti_calls(**x));
            assert(string_views(out@) =~= before + expr_calls(*e));
        },
        Expression::LiteralIntroduction(lis, _, _) => {
            let mut k: usize = 0;
            assert(lis@.subrange(0, 0) =~= Seq::<LIPart<S>>::empty());
            assert(string_views(out@) =~= before + lis_calls(lis@.subrange(0, 0)));
            while k < lis.len()
                invariant
                    k <= lis@.len(),
                    e is LiteralIntroduction,
                    *lis == e->LiteralIntroduction_0,
                    string_views(out@) == before + lis_calls(lis@.subrange(0, k as int)),
                decreases lis@.len() - k,
            {
                assert(lis@.subrange(0, k + 1).subrange(0, k as int) =~= lis@.subrange(0, k as int));
                let ghost mid = string_views(out@);
                assert(lis@.subrange(0, k + 1)[k as int] == lis@[k as int]);
                match &lis[k] {
                    LIPart::Expression(x) => {
                        assert(decreases_to!(*e => e->LiteralIntroduction_0));
                        assert(decreases_to!(e->LiteralIntroduction_0@ => e->LiteralIntroduction_0@[k as int]));
                        assert(decreases_to!(e->LiteralIntroduction_0@[k as int] => e->LiteralIntroduction_0@[k as int]->Expression_0));
                        collect_calls(x, out);
                        assert(li_calls(lis@[k as int]) == expr_calls(*x));
                    },
                    _ => {
                        assert(li_calls(lis@[k as int]) == Seq::<Seq<char>>::empty());
                    },
                }
                assert(string_views(out@) =~= mid + li_calls(lis@[k as int]));
                assert(string_views(out@) =~= before + lis_calls(lis@.subrange(0, k + 1)));
                k = k + 1;
            }
            assert(lis@.subrange(0, k as int) =~= lis@);
        },
        Expression::TupleIntroduction(ts, _, _) => {
            let mut k: usize = 0;
            assert(ts@.subrange(0, 0) =~= Seq::<TIPart<S>>::empty());
            assert(string_views(out@) =~= before + tis_calls(ts@.subrange(0, 0)));
            while k < ts.len()
                invariant
                    k <= ts@.len(),
                    e is TupleIntroduction,
                    *ts == e->TupleIntroduction_0,
                    string_views(out@) == before + tis_calls(ts@.subrange(0, k as int)),
                decreases ts@.len() - k,
            {
                assert(ts@.subrange(0, k + 1).subrange(0, k as int) =~= ts@.subrange(0, k as int));
                let ghost mid = string_views(out@);
                assert(ts@.subrange(0, k + 1)[k as int] == ts@[k as int]);
                match &ts[k] {
                    TIPart::Expression(x) => {
                        assert(decreases_to!(*e => e->TupleIntroduction_0));
                        assert(decreases_to!(e->TupleIntroduction_0@ => e->TupleIntroduction_0@[k as int]));
                        assert(decreases_to!(e->TupleIntroduction_0@[k as int] => e->TupleIntroduction_0@[k as int]->Expression_0));
                        collect_calls(x, out);
                        assert(ti_calls(ts@[k as int]) == expr_calls(*x));
                    },
                    _ => {
                        assert(ti_calls(ts@[k as int]) == Seq::<Seq<char>>::empty());
                    },
                }
                assert(string_views(out@) =~= mid + ti_calls(ts@[k as int]));
                assert(string_views(out@) =~= before + tis_calls(ts@.subrange(0, k + 1)));
                k = k + 1;
            }
            assert(ts@.subrange(0, k as int) =~= ts@);
        },
        Expression::FunctionApplication(fi, args, _, _) => {
            out.push(fi.clone());
            let ghost start = string_views(out@);
            assert(start =~= before + seq![fi@]);
            let mut k: usize = 0;
            assert(args@.subrange(0, 0) =~= Seq::<Expression<S>>::empty());
            assert(string_views(out@) =~= start + exprs_calls(args@.subrange(0, 0)));
            while k < args.len()
                invariant
                    k <= args@.len(),
                    e is FunctionApplication,
                    *args == e->FunctionApplication_1,
                    string_views(out@) == start + exprs_calls(args@.subrange(0, k as int)),
                decreases args@.len() - k,
            {
                assert(args@.subrange(0, k + 1).subrange(0, k as int) =~= args@.subrange(0, k as int));
                assert(decreases_to!(*e => e->FunctionApplication_1));
                assert(decreases_to!(e->FunctionApplication_1@ => e->FunctionApplication_1@[k as int]));
                collect_calls(&args[k], out);
                assert(string_views(out@) =~= start + exprs_calls(args@.subrange(0, k + 1)));
                k = k + 1;
            }
            assert(args@.subrange(0, k as int) =~= args@);
            assert(string_views(out@) =~= before + expr_calls(*e));
        },
        Expression::PatternMatch(pe, arms, _, _) => {
            assert(decreases_to!(*e => e->PatternMatch_0));
            collect_calls(pe, out);
            let ghost start = string_views(out@);
            let mut k: usize = 0;
            assert(arms@.subrange(0, 0) =~= Seq::<(LHSPart, Expression<S>)>::empty());
            assert(string_views(out@) =~= start + arms_calls(arms@.subrange(0, 0)));
            while k < arms.len()
                invariant
                    k <= arms@.len(),
                    e is PatternMatch,
                    *arms == e->PatternMatch_1,
                    string_views(out@) == start + arms_calls(arms@.subrange(0, k as int)),
                decreases arms@.len() - k,
            {
                assert(arms@.subrange(0, k + 1).subrange(0, k as int) =~= arms@.subrange(0, k as int));
                assert(decreases_to!(*e => e->PatternMatch_1));
                assert(decreases_to!(e->PatternMatch_1@ => e->PatternMatch_1@[k as int]));
                assert(decreases_to!(e->PatternMatch_1@[k as int] => e->PatternMatch_1@[k as int].1));
                collect_calls(&arms[k].1, out);
                assert(string_views(out@) =~= start + arms_calls(arms@.subrange(0, k + 1)));
                k = k + 1;
            }
            assert(arms@.subrange(0, k as int) =~= arms@);
            assert(string_views(out@) =~= before + expr_calls(*e));
        },
        _ => {
            assert(string_views(out@) =~= before + expr_calls(*e));
        },
    }
}

/// The functions that the body of the program's function `m` applies.
pub open spec fn body_calls<S>(p: Program<S>, m: Seq<char>) -> Seq<Seq<char>> {
    match lookup_fn(p.functions@, m) {
        Some(k) => exprs_calls(p.functions@[k].body@),
        None => Seq::empty(),
    }
}

/// The functions reached one step after those in `prev`: those in `prev`,
/// and those that a top-level expression or the body of a function in
/// `prev` applies, where no known function of that name takes the call.
pub open spec fn next_reached<S>(lib: Seq<FFI>, p: Program<S>, prev: Set<Seq<char>>) -> Set<Seq<char>> {
    Set::new(|n: Seq<char>| distinct_names(p.functions@).contains(n) && (prev.contains(n) || (ffi_pos(lib, n) is None && (
        exprs_calls(p.expressions@).contains(n) || exists|m: Seq<char>| #[trigger] prev.contains(m) && body_calls(p, m).contains(n)))))
}

/// The functions of the program reached within `k` steps from its
/// top-level expressions.
pub open spec fn reach_set<S>(lib: Seq<FFI>, p: Program<S>, k: nat) -> Set<Seq<char>>
    decreases k,
{
    if k == 0 {
        Set::empty()
    } else {
        next_reached(lib, p, reach_set(lib, p, (k - 1) as nat))
    }
}

/// The functions of the program that its top-level expressions reach,
/// directly or through other functions. The program has no more functions
/// than distinct names, so as many steps reach them all.
pub open spec fn is_reached<S>(lib: Seq<FFI>, p: Program<S>, n: Seq<char>) -> bool {
    reach_set(lib, p, distinct_names(p.functions@).len()).contains(n)
}

/// The names `ns` that are reached, in order.
pub open spec fn keep_reached<S>(lib: Seq<FFI>, p: Program<S>, ns: Seq<Seq<char>>) -> Seq<Seq<char>>
    decreases ns.len(),
{
    if ns.len() == 0 {
        Seq::empty()
    } else if is_reached(lib, p, ns.last()) {
        keep_reached(lib, p, ns.drop_last()).push(ns.last())
    } else {
        keep_reached(lib, p, ns.drop_last())
    }
}

/// The functions that compiling program `p` compiles: those its top-level
/// expressions reach, in order of first definition.
pub open spec fn compiled_names<S>(lib: Seq<FFI>, p: Program<S>) -> Seq<Seq<char>> {
    keep_reached(lib, p, distinct_names(p.functions@))
}

/// Whether `s` is among `v`.
fn contains_str(v: &Vec<String>, s: &String) -> (res: bool)
    ensures
        res == string_views(v@).contains(s@),
{
    let mut k: usize = 0;
    while k < v.len()
        invariant
            k <= v@.len(),
            forall|i: int| 0 <= i < k ==> string_views(v@)[i] != s@,
        decreases v@.len() - k,
    {
        if is_str(v[k].as_str(), s.as_str()) {
            assert(string_views(v@)[k as int] == s@);
            return true;
        }
        k = k + 1;
    }
    false
}

/// The names of the functions that the expressions `es` apply, in order.
fn calls_of<S>(es: &Vec<Expression<S>>) -> (res: Vec<String>)
    ensures
        string_views(res@) == exprs_calls(es@),
{
    let mut out: Vec<String> = Vec::new();
    let mut k: usize = 0;
    assert(es@.subrange(0, 0) =~= Seq::<Expression<S>>::empty());
    assert(string_views(out@) =~= exprs_calls(es@.subrange(0, 0)));
    while k < es.len()
        invariant
            k <= es@.len(),
            string_views(out@) == exprs_calls(es@.subrange(0, k as int)),
        decreases es@.len() - k,
    {
        assert(es@.subrange(0, k + 1).subrange(0, k as int) =~= es@.subrange(0, k as int));
        collect_calls(&es[k], &mut out);
        k = k + 1;
    }
    assert(es@.subrange(0, k as int) =~= es@);
    out
}

/// Whether the body of some function named in `cur` applies `d`.
fn called_by_some<S>(p: &Program<S>, cur: &Vec<String>, d: &String) -> (res: bool)
    ensures
        res == exists|m: Seq<char>| string_views(cur@).contains(m) && #[trigger] body_calls(*p, m).contains(d@),
{
    let mut k: usize = 0;
    while k < cur.len()
        invariant
            k <= cur@.len(),
            forall|i: int| 0 <= i < k ==> !body_calls(*p, #[trigger] string_views(cur@)[i]).contains(d@),
        decreases cur@.len() - k,
    {
        assert(string_views(cur@)[k as int] == cur@[k as int]@);
        let found = match find_function(&p.functions, &cur[k]) {
            Some(f) => {
                let calls = calls_of(&p.functions[f].body);
                let c = contains_str(&calls, d);
                assert(c == body_calls(*p, string_views(cur@)[k as int]).contains(d@));
                c
            },
            None => {
                assert(body_calls(*p, string_views(cur@)[k as int]) == Seq::<Seq<char>>::empty());
                false
            },
        };
        if found {
            assert(string_views(cur@).contains(string_views(cur@)[k as int]));
            return true;
        }
        k = k + 1;
    }
    assert forall|m: Seq<char>| string_views(cur@).contains(m) implies !#[trigger] body_calls(*p, m).contains(d@) by {
        let i = choose|i: int| 0 <= i < string_views(cur@).len() && string_views(cur@)[i] == m;
        assert(!body_calls(*p, string_views(cur@)[i]).contains(d@));
    }
    false
}

/// The functions of program `p` that its top-level expressions reach,
/// directly or through other functions, in order of first definition.
pub fn reached_functions<S>(lib: &Vec<FFI>, p: &Program<S>) -> (res: Vec<String>)
    ensures
        string_views(res@) == compiled_names(lib@, *p),
        forall|i: int| 0 <= i < res@.len() ==> lookup_fn(p.functions@, (#[trigger] res@[i])@) is Some,
{
    broadcast use vstd::seq_lib::lemma_seq_contains_after_push;
    let names = function_names(p);
    let ghost nv = string_views(names@);
    let roots = calls_of(&p.expressions);
    let mut cur: Vec<String> = Vec::new();
    let mut k: usize = 0;
    while k < names.len()
        invariant
            k <= names@.len(),
            nv == string_views(names@),
            nv == distinct_names(p.functions@),
            string_views(roots@) == exprs_calls(p.expressions@),
            forall|n: Seq<char>| #![trigger string_views(cur@).contains(n)] string_views(cur@).contains(n) <==> reach_set(lib@, *p, k as nat).contains(n),
        decreases names@.len() - k,
    {
        let mut next: Vec<String> = Vec::new();
        let mut i: usize = 0;
        while i < names.len()
            invariant
                i <= names@.len(),
                nv == string_views(names@),
                nv == distinct_names(p.functions@),
                string_views(roots@) == exprs_calls(p.expressions@),
                forall|n: Seq<char>| #![trigger string_views(cur@).contains(n)] string_views(cur@).contains(n) <==> reach_set(lib@, *p, k as nat).contains(n),
                forall|j: int| 0 <= j < i ==> (string_views(next@).contains(#[trigger] nv[j]) <==> reach_set(lib@, *p, (k + 1) as nat).contains(nv[j])),
                forall|n: Seq<char>| string_views(next@).contains(n) ==> nv.subrange(0, i as int).contains(n),
            decreases names@.len() - i,
        {
            let d = &names[i];
            assert(nv[i as int] == d@);
            assert(nv.contains(d@));
            let inc = contains_str(&cur, d) || (find_ffi(lib, d.as_str()).is_none() && (contains_str(&roots, d) || called_by_some(p, &cur, d)));
            proof {
                let prev = reach_set(lib@, *p, k as nat);
                let ex_cur = exists|m: Seq<char>| string_views(cur@).contains(m) && #[trigger] body_calls(*p, m).contains(d@);
                let ex_prev = exists|m: Seq<char>| #[trigger] prev.contains(m) && body_calls(*p, m).contains(d@);
                if ex_cur {
                    let m = choose|m: Seq<char>| string_views(cur@).contains(m) && #[trigger] body_calls(*p, m).contains(d@);
                    assert(prev.contains(m));
                }
                if ex_prev {
                    let m = choose|m: Seq<char>| #[trigger] prev.contains(m) && body_calls(*p, m).contains(d@);
                    assert(string_views(cur@).contains(m));
                }
                assert(ex_cur == ex_prev);
                assert(reach_set(lib@, *p, (k + 1) as nat) == next_reached(lib@, *p, prev));
                assert(inc == reach_set(lib@, *p, (k + 1) as nat).contains(d@));
            }
            let ghost before = string_views(next@);
            if inc {
                next.push(d.clone());
                assert(string_views(next@) =~= before.push(d@));
            }
            proof {
                assert forall|n: Seq<char>| string_views(next@).contains(n) implies
                    (before.contains(n) || (inc && n == d@)) by {
                    if inc {
                        assert(before.push(d@).contains(n));
                    }
                }
                assert forall|n: Seq<char>| before.contains(n) implies string_views(next@).contains(n) by {
                    if inc {
                        let j = choose|j: int| 0 <= j < before.len() && before[j] == n;
                        assert(string_views(next@)[j] == n);
                    }
                }
                if inc {
                    assert(string_views(next@)[before.len() as int] == d@);
                }
                assert forall|n: Seq<char>| string_views(next@).contains(n) implies nv.subrange(0, i + 1).contains(n) by {
                    if before.contains(n) {
                        let j = choose|j: int| 0 <= j < i && nv.subrange(0, i as int)[j] == n;
                        assert(nv.subrange(0, i + 1)[j] == n);
                    } else {
                        assert(n == d@);
                        assert(nv.subrange(0, i + 1)[i as int] == n);
                    }
                }
                assert forall|j: int| 0 <= j < i + 1 implies (string_views(next@).contains(#[trigger] nv[j]) <==> reach_set(lib@, *p, (k + 1) as nat).contains(nv[j])) by {
                    if j == i {
                        if !inc && before.contains(d@) {
                            let j2 = choose|j2: int| 0 <= j2 < i && nv.subrange(0, i as int)[j2] == d@;
                            assert(nv[j2] == d@);
                        }
                    }
                }
            }
            i = i + 1;
        }
        proof {
            assert forall|n: Seq<char>| #![trigger string_views(next@).contains(n)] string_views(next@).contains(n) <==> reach_set(lib@, *p, (k + 1) as nat).contains(n) by {
                if nv.contains(n) {
                    let j = choose|j: int| 0 <= j < nv.len() && nv[j] == n;
                    assert(string_views(next@).contains(nv[j]) <==> reach_set(lib@, *p, (k + 1) as nat).contains(nv[j]));
                } else {
                    assert(nv.subrange(0, i as int) =~= nv);
                }
            }
        }
        cur = next;
        k = k + 1;
    }
    let mut out: Vec<String> = Vec::new();
    let mut i: usize = 0;
    assert(nv.subrange(0, 0) =~= Seq::<Seq<char>>::empty());
    assert(string_views(out@) =~= keep_reached(lib@, *p, nv.subrange(0, 0)));
    while i < names.len()
        invariant
            i <= names@.len(),
            k == names@.len(),
            nv == string_views(names@),
            nv == distinct_names(p.functions@),
            forall|n: Seq<char>| #![trigger string_views(cur@).contains(n)] string_views(cur@).contains(n) <==> reach_set(lib@, *p, k as nat).contains(n),
            string_views(out@) == keep_reached(lib@, *p, nv.subrange(0, i as int)),
            forall|j: int| 0 <= j < names@.len() ==> lookup_fn(p.functions@, (#[trigger] names@[j])@) is Some,
            forall|j: int| 0 <= j < out@.len() ==> lookup_fn(p.functions@, (#[trigger] out@[j])@) is Some,
        decreases names@.len() - i,
    {
        assert(nv.subrange(0, i + 1).drop_last() =~= nv.subrange(0, i as int));
        assert(nv[i as int] == names@[i as int]@);
        let ghost before = string_views(out@);
        if contains_str(&cur, &names[i]) {
            out.push(names[i].clone());
            assert(string_views(out@) =~= before.push(nv[i as int]));
        }
        i = i + 1;
    }
    assert(nv.subrange(0, i as int) =~= nv);
    out
}

/// The variable types after the functions `names` compile in order,
/// starting from `tc`; `None` where one is refused.
pub open spec fn fns_typing<S>(lib: Seq<FFI>, p: Program<S>, tc: Map<usize, Seq<char>>, names: Seq<Seq<char>>) -> Option<Map<usize, Seq<char>>>
    decreases names.len(),
{
    if names.len() == 0 {
        Some(tc)
    } else {
        match fns_typing(lib, p, tc, names.drop_last()) {
            None => None,
            Some(tc1) => fn_typing(lib, p, tc1, names.last()),
        }
    }
}

/// Functions refused in a prefix of the list are refused in the whole.
proof fn lemma_fns_none<S>(lib: Seq<FFI>, p: Program<S>, tc: Map<usize, Seq<char>>, names: Seq<Seq<char>>, n: int)
    requires
        0 <= n <= names.len(),
        fns_typing(lib, p, tc, names.subrange(0, n)) is None,
    ensures
        fns_typing(lib, p, tc, names) is None,
    decreases names.len(),
{
    if n < names.len() {
        assert(names.drop_last().subrange(0, n) =~= names.subrange(0, n));
        lemma_fns_none(lib, p, tc, names.drop_last(), n);
    } else {
        assert(names.subrange(0, n) =~= names);
    }
}

/// Whether program `p` compiles: its entry point from no variable types,
/// then each function that its top-level expressions reach, once, in order
/// of first definition, with the variable types that the ones before left.
/// Functions that are never reached are not compiled.
pub open spec fn program_typing<S>(lib: Seq<FFI>, p: Program<S>) -> Option<Map<usize, Seq<char>>> {
    match main_typing(lib, p, Map::empty()) {
        None => None,
        Some(tc1) => fns_typing(lib, p, tc1, compiled_names(lib, p)),
    }
}

/// The variable types with which the `i`-th compiled function of `p` is
/// compiled: those after the entry function and the functions before it.
pub open spec fn compiled_tc<S>(lib: Seq<FFI>, p: Program<S>, i: int) -> Map<usize, Seq<char>> {
    fns_typing(lib, p, main_typing(lib, p, Map::empty())->0, compiled_names(lib, p).subrange(0, i))->0
}

/// Compiles program `p`, as `try_compile_program` does; it must be one that
/// the compiler handles (`program_typing`).
pub fn compile_program<S>(lib: &Vec<FFI>, p: &Program<S>) -> (res: CompiledProgram)
    requires
        lib_ok(lib@),
        program_typing(lib@, *p) is Some,
    ensures
        res.functions@.map_values(|f: (String, Emitter)| f.0@) == compiled_names(lib@, *p),
        forall|i: int| 0 <= i < res.functions@.len() ==> lookup_fn(p.functions@, (#[trigger] res.functions@[i]).0@) is Some,
        function_emitted(Seq::empty(), res.main@),
        main_returns(lib@, *p, Map::empty(), Seq::empty(), res.main@),
        vars_loaded(res.main@, 0, p.expressions@),
        forall|i: int| 0 <= i < res.functions@.len() ==> function_emitted(Seq::empty(), (#[trigger] res.functions@[i]).1@),
        forall|i: int| 0 <= i < res.functions@.len() ==> fn_returns(lib@, *p, compiled_tc(lib@, *p, i), (#[trigger] res.functions@[i]).0@, Seq::empty(), res.functions@[i].1@),
{
    match try_compile_program(lib, p) {
        Ok(c) => c,
        Err(_) => {
            proof {
                assert(false);
            }
            CompiledProgram { main: Emitter::new(), functions: Vec::new() }
        },
    }
}

/// Compiles program `p` with the known functions `lib`: its entry point,
/// then each function that the entry point reaches, directly or through
/// other functions, sharing one record of variable types. Functions are not
/// compiled until referenced. An error exactly where `program_typing`
/// refuses the program.
pub fn try_compile_program<S>(lib: &Vec<FFI>, p: &Program<S>) -> (res: Result<CompiledProgram, String>)
    requires
        lib_ok(lib@),
    ensures
        res is Ok <==> program_typing(lib@, *p) is Some,
        res matches Ok(c) ==> c.functions@.map_values(|f: (String, Emitter)| f.0@) == compiled_names(lib@, *p),
        res matches Ok(c) ==> forall|i: int| 0 <= i < c.functions@.len() ==> lookup_fn(p.functions@, (#[trigger] c.functions@[i]).0@) is Some,
        res matches Ok(c) ==> function_emitted(Seq::empty(), c.main@),
        res matches Ok(c) ==> main_returns(lib@, *p, Map::empty(), Seq::empty(), c.main@),
        res matches Ok(c) ==> vars_loaded(c.main@, 0, p.expressions@),
        res matches Ok(c) ==> forall|i: int| 0 <= i < c.functions@.len() ==> function_emitted(Seq::empty(), (#[trigger] c.functions@[i]).1@),
        res matches Ok(c) ==> forall|i: int| 0 <= i < c.functions@.len() ==> fn_returns(lib@, *p, compiled_tc(lib@, *p, i), (#[trigger] c.functions@[i]).0@, Seq::empty(), c.functions@[i].1@),
{
    let mut tc = TypeContext::new();
    let mut main = Emitter::new();
    assert(main@ =~= Seq::<Op>::empty());
    match try_compile_main(&mut tc, lib, p, &mut main) {
        Ok(()) => {},
        Err(m) => {
            return Err(m);
        },
    }
    let ghost tc1 = tc@;
    let names = reached_functions(lib, p);
    let ghost nv = string_views(names@);
    let mut functions: Vec<(String, Emitter)> = Vec::new();
    let mut k: usize = 0;
    assert(nv.subrange(0, 0) =~= Seq::<Seq<char>>::empty());
    assert(functions@.map_values(|f: (String, Emitter)| f.0@) =~= nv.subrange(0, 0));
    while k < names.len()
        invariant
        lib_ok(lib@),
            k <= names@.len(),
            nv == string_views(names@),
            nv == compiled_names(lib@, *p),
            program_typing(lib@, *p) == fns_typing(lib@, *p, tc1, nv),
            fns_typing(lib@, *p, tc1, nv.subrange(0, k as int)) == Some(tc@),
            functions@.map_values(|f: (String, Emitter)| f.0@) == nv.subrange(0, k as int),
            forall|i: int| 0 <= i < names@.len() ==> lookup_fn(p.functions@, (#[trigger] names@[i])@) is Some,
            forall|i: int| 0 <= i < functions@.len() ==> lookup_fn(p.functions@, (#[trigger] functions@[i]).0@) is Some,
            function_emitted(Seq::empty(), main@),
            main_returns(lib@, *p, Map::empty(), Seq::empty(), main@),
            vars_loaded(main@, 0, p.expressions@),
            forall|i: int| 0 <= i < functions@.len() ==> function_emitted(Seq::empty(), (#[trigger] functions@[i]).1@),
            forall|i: int| 0 <= i < functions@.len() ==> fn_returns(lib@, *p, compiled_tc(lib@, *p, i), (#[trigger] functions@[i]).0@, Seq::empty(), functions@[i].1@),
            tc1 == main_typing(lib@, *p, Map::empty())->0,
        decreases names@.len() - k,
    {
        assert(nv.subrange(0, k + 1).drop_last() =~= nv.subrange(0, k as int));
        assert(nv[k as int] == names@[k as int]@);
        let mut em = Emitter::new();
        assert(em@ =~= Seq::<Op>::empty());
        let ghost tck = tc@;
        assert(nv.subrange(0, k as int) =~= compiled_names(lib@, *p).subrange(0, k as int));
        assert(tck == compiled_tc(lib@, *p, k as int));
        match try_compile_fn(&mut tc, lib, p, &mut em, &names[k]) {
            Ok(()) => {},
            Err(m) => {
                proof {
                    lemma_fns_none(lib@, *p, tc1, nv, k + 1);
                }
                return Err(m);
            },
        }
        let ghost nk = names@[k as int];
        let name = names[k].clone();
        assert(lookup_fn(p.functions@, nk@) is Some);
        let ghost before = functions@.map_values(|f: (String, Emitter)| f.0@);
        functions.push((name, em));
        assert(functions@.map_values(|f: (String, Emitter)| f.0@) =~= before.push(nk@));
        k = k + 1;
    }
    assert(nv.subrange(0, k as int) =~= nv);
    Ok(CompiledProgram { main, functions })
}

} // verus!
