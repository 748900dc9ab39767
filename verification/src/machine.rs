//! What the emitted instructions compute, for straight-line code: each
//! instruction's results from the values before it, in the way the code
//! generator's IR documents them (integers of a fixed width, wrapping
//! arithmetic, unsigned division and comparison). Branches, calls, loads
//! and explicit traps leave this fragment: running code that holds one
//! gives no state.

use vstd::prelude::*;
use crate::ast::{Type, Program, Expression, Value as AstValue, ValueView, ErrorView, type_nom, opt_str};
use crate::eval::{Env, bind_args, eval_spec, step_spec, Step};
use crate::opt::{cast_ops, cast_result, tag_word, MachineType, machine_type_of, IntCond, emits, exprs_typing, Op, ValueRef, Emit, CastPlan, param_type, param_pos, params_bound, fn_entry,
    params_known, vr, params_tc, fn_typing, fn_returns, named_fn, exprs_chain, returned, cast_plan_spec, returns_wide, expr_typing, unary_ops,
    ffi_pos, open_coded, small_unary, args_fit, sig_matches, value_count, coerce_ops, coerce_vals, split_ops, split_vals, arg_names, apply_emitted, ffi_emitted, apply_targets};
use crate::value::{Tag, tag_code, packed, tag_field, low64, lemma_tag_code};
use crate::recipes::cranelift::{FFI, Emission, entries_are, entry_is, known_table};

verus! {

/// A machine value: its type and its bits, read as an unsigned number.
pub struct MValue {
    pub t: MachineType,
    pub bits: int,
}

/// One more than the largest number of type `t`.
pub open spec fn modulus(t: MachineType) -> int {
    match t {
        MachineType::I8 => 0x100,
        MachineType::I32 => 0x1_0000_0000,
        MachineType::I64 => 0x1_0000_0000_0000_0000,
        MachineType::I128 => half() * half(),
    }
}

/// One more than the largest 64-bit number: the weight of a high half.
pub open spec fn half() -> int {
    0x1_0000_0000_0000_0000
}

/// The number `x` as a value of type `t`, wrapped around its width.
pub open spec fn wrap(t: MachineType, x: int) -> MValue {
    MValue { t, bits: x % modulus(t) }
}

/// `v` is a value of its type.
pub open spec fn in_range(v: MValue) -> bool {
    0 <= v.bits < modulus(v.t)
}

/// The unsigned comparison `cond` of `a` and `b`.
pub open spec fn holds(cond: IntCond, a: int, b: int) -> bool {
    match cond {
        IntCond::Equal => a == b,
        IntCond::NotEqual => a != b,
        IntCond::UnsignedLessThan => a < b,
        IntCond::UnsignedLessThanOrEqual => a <= b,
        IntCond::UnsignedGreaterThan => a > b,
        IntCond::UnsignedGreaterThanOrEqual => a >= b,
    }
}

/// A truth value as an 8-bit number: 1 or 0.
pub open spec fn flag(b: bool) -> MValue {
    MValue { t: MachineType::I8, bits: if b { 1 } else { 0 } }
}

/// Two to the power `k`.
pub open spec fn pow2(k: nat) -> int
    decreases k,
{
    if k == 0 {
        1
    } else {
        2 * pow2((k - 1) as nat)
    }
}

/// Where straight-line code has got to: the results of each instruction so
/// far, in order (none for one that computes nothing), the variables'
/// current values, and the values returned, once a return is reached.
pub struct MState {
    pub vals: Seq<Seq<MValue>>,
    pub vars: Map<usize, MValue>,
    pub ret: Option<Seq<MValue>>,
}

/// The value that `v` names in `st`, where it names one.
pub open spec fn value_of(st: MState, v: ValueRef) -> Option<MValue> {
    if v.op < st.vals.len() && v.k < st.vals[v.op as int].len() {
        Some(st.vals[v.op as int][v.k as int])
    } else {
        None
    }
}

/// The values that `vs` name in `st`, where each names one.
pub open spec fn values_of(st: MState, vs: Seq<ValueRef>) -> Option<Seq<MValue>> {
    if forall|i: int| 0 <= i < vs.len() ==> value_of(st, #[trigger] vs[i]) is Some {
        Some(vs.map_values(|v: ValueRef| value_of(st, v)->0))
    } else {
        None
    }
}

/// `st` with one more instruction's results.
pub open spec fn produce(st: MState, rs: Seq<MValue>) -> MState {
    MState { vals: st.vals.push(rs), ..st }
}

/// An instruction with two operands: its result from theirs, `None` where
/// it traps (a division by 0).
pub open spec fn binary(op: Op, a: MValue, b: MValue) -> Option<MValue> {
    match op {
        Op::Iadd(_, _) => Some(wrap(a.t, a.bits + b.bits)),
        Op::Isub(_, _) => Some(wrap(a.t, a.bits - b.bits)),
        Op::Imul(_, _) => Some(wrap(a.t, a.bits * b.bits)),
        Op::Udiv(_, _) => if b.bits == 0 {
            None
        } else {
            Some(MValue { t: a.t, bits: a.bits / b.bits })
        },
        Op::Urem(_, _) => if b.bits == 0 {
            None
        } else {
            Some(MValue { t: a.t, bits: a.bits % b.bits })
        },
        Op::Bor(_, _) => Some(MValue { t: a.t, bits: bit_or(a.bits, b.bits, a.t) }),
        Op::Compare(cond, _, _) => Some(flag(holds(cond, a.bits, b.bits))),
        Op::Iconcat(_, _) => Some(MValue { t: MachineType::I128, bits: a.bits + b.bits * half() }),
        _ => None,
    }
}

/// The bitwise or of two numbers of type `t`.
pub open spec fn bit_or(a: int, b: int, t: MachineType) -> int {
    match t {
        MachineType::I8 => ((a as u8) | (b as u8)) as int,
        MachineType::I32 => ((a as u32) | (b as u32)) as int,
        MachineType::I64 => ((a as u64) | (b as u64)) as int,
        MachineType::I128 => ((a as u128) | (b as u128)) as int,
    }
}

/// The two operands of an instruction that has two.
pub open spec fn operands(op: Op) -> Option<(ValueRef, ValueRef)> {
    match op {
        Op::Iadd(a, b) => Some((a, b)),
        Op::Isub(a, b) => Some((a, b)),
        Op::Imul(a, b) => Some((a, b)),
        Op::Udiv(a, b) => Some((a, b)),
        Op::Urem(a, b) => Some((a, b)),
        Op::Bor(a, b) => Some((a, b)),
        Op::Compare(_, a, b) => Some((a, b)),
        Op::Iconcat(a, b) => Some((a, b)),
        _ => None,
    }
}

/// One instruction run from `st`, the function's parameters being `ps`:
/// the state after it, or `None` where it traps, reads a value or variable
/// that has none, or leaves straight-line code. Nothing after a return
/// runs.
pub open spec fn op_step(op: Op, ps: Seq<MValue>, st: MState) -> Option<MState> {
    if st.ret is Some {
        Some(produce(st, Seq::empty()))
    } else if operands(op) is Some {
        let (a, b) = operands(op)->0;
        match (value_of(st, a), value_of(st, b)) {
            (Some(x), Some(y)) => match binary(op, x, y) {
                Some(r) => Some(produce(st, seq![r])),
                None => None,
            },
            _ => None,
        }
    } else {
        match op {
            Op::CreateBlock => Some(produce(st, Seq::empty())),
            Op::FunctionParams(_) => Some(produce(st, ps)),
            Op::SwitchToBlock(_) => Some(produce(st, Seq::empty())),
            Op::SealBlock(_) => Some(produce(st, Seq::empty())),
            Op::DeclareVar(_, _) => Some(produce(st, Seq::empty())),
            Op::DefVar(x, v) => match value_of(st, v) {
                Some(y) => Some(MState { vars: st.vars.insert(x, y), ..produce(st, Seq::empty()) }),
                None => None,
            },
            Op::UseVar(x) => if st.vars.contains_key(x) {
                Some(produce(st, seq![st.vars[x]]))
            } else {
                None
            },
            Op::Iconst(t, c) => Some(produce(st, seq![wrap(t, c as int)])),
            Op::IaddImm(v, c) => match value_of(st, v) {
                Some(x) => Some(produce(st, seq![wrap(x.t, x.bits + c as int)])),
                None => None,
            },
            Op::UshrImm(v, c) => match value_of(st, v) {
                Some(x) => if 0 <= c < 128 {
                    Some(produce(st, seq![MValue { t: x.t, bits: x.bits / pow2(c as nat) }]))
                } else {
                    None
                },
                None => None,
            },
            Op::CompareImm(cond, v, c) => match value_of(st, v) {
                Some(x) => Some(produce(st, seq![flag(holds(cond, x.bits, wrap(x.t, c as int).bits))])),
                None => None,
            },
            Op::Uextend(t, v) => match value_of(st, v) {
                Some(x) => Some(produce(st, seq![MValue { t, bits: x.bits }])),
                None => None,
            },
            Op::Isplit(v) => match value_of(st, v) {
                Some(x) => Some(produce(st, halves(x))),
                None => None,
            },
            Op::Trapz(v, _) => match value_of(st, v) {
                Some(x) => if x.bits == 0 {
                    None
                } else {
                    Some(produce(st, Seq::empty()))
                },
                None => None,
            },
            Op::Return(vs) => match values_of(st, vs@) {
                Some(rs) => Some(MState { ret: Some(rs), ..produce(st, Seq::empty()) }),
                None => None,
            },
            _ => None,
        }
    }
}

/// The low and high halves of a 128-bit value.
pub open spec fn split(x: MValue) -> Seq<MValue> {
    seq![MValue { t: MachineType::I64, bits: x.bits % half() }, MValue { t: MachineType::I64, bits: x.bits / half() }]
}

/// How a value is passed to or returned from a function: a 128-bit one as
/// its two halves, any other as it is.
pub open spec fn halves(x: MValue) -> Seq<MValue> {
    if x.t == MachineType::I128 {
        split(x)
    } else {
        seq![x]
    }
}

/// The straight-line code `ops` run from the start, the function's
/// parameters being `ps`: the state at its end, or `None`.
pub open spec fn run(ops: Seq<Op>, ps: Seq<MValue>) -> Option<MState>
    decreases ops.len(),
{
    if ops.len() == 0 {
        Some(MState { vals: Seq::empty(), vars: Map::empty(), ret: None })
    } else {
        match run(ops.drop_last(), ps) {
            Some(st) => op_step(ops.last(), ps, st),
            None => None,
        }
    }
}

/// The arguments `xs` as the function receives them: each as `halves`
/// gives it, in order.
pub open spec fn passed(xs: Seq<MValue>) -> Seq<MValue>
    decreases xs.len(),
{
    if xs.len() == 0 {
        Seq::empty()
    } else {
        passed(xs.drop_last()) + halves(xs.last())
    }
}

/// The variables after the first `n` parameters `args` are bound to the
/// arguments `xs`, in order: a later parameter of the same variable wins.
pub open spec fn machine_bind(args: Seq<(usize, Type)>, xs: Seq<MValue>, n: int) -> Map<usize, MValue>
    decreases n,
{
    if n <= 0 {
        Map::empty()
    } else {
        machine_bind(args, xs, n - 1).insert(args[n - 1].0, xs[n - 1])
    }
}

/// The arguments `xs` fit the parameters `args`: one each, of the
/// parameter's machine type.
pub open spec fn fits_params(args: Seq<(usize, Type)>, xs: Seq<MValue>) -> bool {
    &&& xs.len() == args.len()
    &&& forall|i: int| 0 <= i < xs.len() ==> (#[trigger] xs[i]).t == param_type(args[i]) && in_range(xs[i])
}

/// Running code is running its prefix, then the last instruction.
proof fn lemma_run_push(ops: Seq<Op>, op: Op, ps: Seq<MValue>)
    ensures
        run(ops.push(op), ps) == match run(ops, ps) {
            Some(st) => op_step(op, ps, st),
            None => None,
        },
{
    assert(ops.push(op).drop_last() =~= ops);
}

/// Each instruction run adds one entry of results.
proof fn lemma_run_len(ops: Seq<Op>, ps: Seq<MValue>)
    ensures
        run(ops, ps) matches Some(st) ==> st.vals.len() == ops.len(),
    decreases ops.len(),
{
    if ops.len() > 0 {
        lemma_run_len(ops.drop_last(), ps);
    }
}

/// Passing two lists of arguments one after the other passes each in turn.
proof fn lemma_passed_concat(u: Seq<MValue>, v: Seq<MValue>)
    ensures
        passed(u + v) == passed(u) + passed(v),
    decreases v.len(),
{
    if v.len() == 0 {
        assert(u + v =~= u);
        assert(passed(u) + passed(v) =~= passed(u));
    } else {
        assert((u + v).drop_last() =~= u + v.drop_last());
        assert((u + v).last() == v.last());
        lemma_passed_concat(u, v.drop_last());
        assert(passed(u + v) =~= passed(u) + passed(v));
    }
}

/// Among the arguments passed, those of parameter `b` stand at
/// `param_pos(args, b)`, as `halves` gives them.
proof fn lemma_passed_at(args: Seq<(usize, Type)>, xs: Seq<MValue>, b: int)
    requires
        fits_params(args, xs),
        0 <= b < xs.len(),
    ensures
        param_pos(args, b) + halves(xs[b]).len() <= passed(xs).len(),
        forall|j: int| 0 <= j < halves(xs[b]).len() ==> passed(xs)[param_pos(args, b) + j] == #[trigger] halves(xs[b])[j],
{
    let u = xs.subrange(0, b);
    let v = xs.subrange(b + 1, xs.len() as int);
    assert(xs =~= u.push(xs[b]) + v);
    assert(u.push(xs[b]).drop_last() =~= u);
    lemma_passed_concat(u.push(xs[b]), v);
    assert forall|i: int| 0 <= i < b implies param_type(args[i]) == (#[trigger] u[i]).t by {}
    lemma_passed_len(args, u, b);
    let ps = passed(xs);
    assert(ps == passed(u) + halves(xs[b]) + passed(v));
    assert forall|j: int| 0 <= j < halves(xs[b]).len() implies ps[param_pos(args, b) + j] == #[trigger] halves(xs[b])[j] by {
        assert((passed(u) + halves(xs[b]))[passed(u).len() + j] == halves(xs[b])[j]);
    }
}

/// The arguments passed take as many places as the parameters' widths.
proof fn lemma_passed_len(args: Seq<(usize, Type)>, ys: Seq<MValue>, a: int)
    requires
        a == ys.len(),
        a <= args.len(),
        forall|i: int| 0 <= i < a ==> param_type(args[i]) == (#[trigger] ys[i]).t,
    ensures
        passed(ys).len() == param_pos(args, a),
    decreases a,
{
    if a > 0 {
        let zs = ys.drop_last();
        assert forall|i: int| 0 <= i < a - 1 implies param_type(args[i]) == (#[trigger] zs[i]).t by {
            assert(zs[i] == ys[i]);
        }
        lemma_passed_len(args, zs, a - 1);
        assert(ys[a - 1].t == param_type(args[a - 1]));
    }
}

/// The start of a function's code: its entry block, whose parameters are
/// the function's, and control in it.
pub open spec fn entry_ops() -> Seq<Op> {
    seq![Op::CreateBlock, Op::FunctionParams(0), Op::SwitchToBlock(0)]
}

/// The start of a function's code, run: its parameters are the results of
/// the second instruction.
proof fn lemma_entry_run(ps: Seq<MValue>)
    ensures
        run(entry_ops(), ps) == Some(MState { vals: seq![Seq::empty(), ps, Seq::empty()], vars: Map::empty(), ret: None }),
{
    let s0 = MState { vals: Seq::empty(), vars: Map::empty(), ret: None };
    assert(run(Seq::<Op>::empty(), ps) == Some(s0));
    let e1 = Seq::<Op>::empty().push(Op::CreateBlock);
    let e2 = e1.push(Op::FunctionParams(0));
    lemma_run_push(Seq::<Op>::empty(), Op::CreateBlock, ps);
    lemma_run_push(e1, Op::FunctionParams(0), ps);
    lemma_run_push(e2, Op::SwitchToBlock(0), ps);
    assert(e2.push(Op::SwitchToBlock(0)) =~= entry_ops());
    assert(produce(produce(produce(s0, Seq::empty()), ps), Seq::empty()).vals =~= seq![Seq::empty(), ps, Seq::empty()]);
}

/// A parameter's place among those passed is at most twice its position.
proof fn lemma_param_pos(args: Seq<(usize, Type)>, a: int)
    requires
        0 <= a,
    ensures
        0 <= param_pos(args, a) <= 2 * a,
    decreases a,
{
    if a > 0 {
        lemma_param_pos(args, a - 1);
    }
}

/// Declaring a variable and defining it as the value `v` holds, `x`.
#[verifier::spinoff_prover]
proof fn lemma_bind_narrow(prev: Seq<Op>, ps: Seq<MValue>, vi: usize, t: MachineType, v: ValueRef, x: MValue)
    requires
        run(prev, ps) matches Some(st) && st.ret is None && value_of(st, v) == Some(x),
    ensures
        run(prev.push(Op::DeclareVar(vi, t)).push(Op::DefVar(vi, v)), ps) matches Some(s2)
            && s2.vars == run(prev, ps)->0.vars.insert(vi, x)
            && s2.ret is None
            && s2.vals == run(prev, ps)->0.vals + seq![Seq::empty(), Seq::empty()],
{
    let st = run(prev, ps)->0;
    let d = prev.push(Op::DeclareVar(vi, t));
    lemma_run_push(prev, Op::DeclareVar(vi, t), ps);
    let sd = produce(st, Seq::empty());
    assert(run(d, ps) == Some(sd));
    assert(value_of(sd, v) == Some(x));
    lemma_run_push(d, Op::DefVar(vi, v), ps);
    assert(sd.vals.push(Seq::empty()) =~= st.vals + seq![Seq::empty(), Seq::empty()]);
}

/// Declaring a variable, joining the halves that `lo` and `hi` hold into
/// one value and defining the variable as that value.
#[verifier::spinoff_prover]
proof fn lemma_bind_wide(prev: Seq<Op>, ps: Seq<MValue>, vi: usize, t: MachineType, lo: ValueRef, hi: ValueRef, x: MValue)
    requires
        run(prev, ps) matches Some(st) && st.ret is None && st.vals.len() == prev.len()
            && value_of(st, lo) == Some(split(x)[0]) && value_of(st, hi) == Some(split(x)[1]),
        x.t == MachineType::I128,
        in_range(x),
        prev.len() + 2 <= usize::MAX,
    ensures
        ({
            let d = prev.push(Op::DeclareVar(vi, t));
            run(d.push(Op::Iconcat(lo, hi)).push(Op::DefVar(vi, vr(d.len() as int, 0))), ps) matches Some(s2)
                && s2.vars == run(prev, ps)->0.vars.insert(vi, x)
                && s2.ret is None
                && s2.vals == run(prev, ps)->0.vals + seq![Seq::empty(), seq![x], Seq::empty()]
        }),
{
    let st = run(prev, ps)->0;
    let d = prev.push(Op::DeclareVar(vi, t));
    lemma_run_push(prev, Op::DeclareVar(vi, t), ps);
    let sd = produce(st, Seq::empty());
    assert(run(d, ps) == Some(sd));
    assert(value_of(sd, lo) == Some(split(x)[0]));
    assert(value_of(sd, hi) == Some(split(x)[1]));
    let c = d.push(Op::Iconcat(lo, hi));
    lemma_run_push(d, Op::Iconcat(lo, hi), ps);
    assert(x.bits == x.bits % half() + x.bits / half() * half()) by (nonlinear_arith)
        requires
            half() > 0,
    ;
    assert(binary(Op::Iconcat(lo, hi), split(x)[0], split(x)[1]) == Some(x));
    let sc = produce(sd, seq![x]);
    assert(run(c, ps) == Some(sc));
    assert(sc.vals[d.len() as int] == seq![x]);
    assert(value_of(sc, vr(d.len() as int, 0)) == Some(x));
    lemma_run_push(c, Op::DefVar(vi, vr(d.len() as int, 0)), ps);
    assert(sc.vals.push(Seq::empty()) =~= st.vals + seq![Seq::empty(), seq![x], Seq::empty()]);
}

/// The first `a` parameters bound: each one's variable holds its
/// argument, and the function's parameters stay the results of the second
/// instruction.
proof fn lemma_params_bound(args: Seq<(usize, Type)>, xs: Seq<MValue>, a: int)
    requires
        params_known(args),
        3 * args.len() + 3 <= usize::MAX,
        fits_params(args, xs),
        0 <= a <= args.len(),
    ensures
        run(params_bound(args, 1, entry_ops(), a), passed(xs)) matches Some(st)
            && st.vars == machine_bind(args, xs, a)
            && st.ret is None
            && st.vals.len() == params_bound(args, 1, entry_ops(), a).len()
            && st.vals.len() >= 3
            && st.vals.len() <= 3 + 3 * a
            && st.vals[1] == passed(xs),
    decreases a,
{
    let ps = passed(xs);
    lemma_param_pos(args, a);
    if a == 0 {
        lemma_entry_run(ps);
    } else {
        let b = a - 1;
        lemma_params_bound(args, xs, b);
        let prev = params_bound(args, 1, entry_ops(), b);
        let st = run(prev, ps)->0;
        let vi = args[b].0;
        let t = param_type(args[b]);
        let pos = param_pos(args, b);
        lemma_passed_at(args, xs, b);
        lemma_param_pos(args, b);
        assert(xs[b].t == t && in_range(xs[b]));
        assert(vr(1, pos).op == 1 && vr(1, pos).k == pos);
        assert(value_of(st, vr(1, pos)) == Some(ps[pos]));
        let ops = params_bound(args, 1, entry_ops(), a);
        if t == MachineType::I128 {
            assert(halves(xs[b]) == split(xs[b]));
            assert(ps[pos + 0] == split(xs[b])[0]);
            assert(ps[pos + 1] == split(xs[b])[1]);
            assert(vr(1, pos + 1).op == 1 && vr(1, pos + 1).k == pos + 1);
            assert(value_of(st, vr(1, pos + 1)) == Some(ps[pos + 1]));
            lemma_bind_wide(prev, ps, vi, t, vr(1, pos), vr(1, pos + 1), xs[b]);
        } else {
            assert(ps[pos + 0] == halves(xs[b])[0]);
            lemma_bind_narrow(prev, ps, vi, t, vr(1, pos), xs[b]);
        }
    }
}

/// Binding the parameters: the code that starts a function and binds its
/// parameters `args`, run on arguments `xs` passed as a function receives
/// them, leaves each parameter's variable holding its own argument, bound
/// in order as the evaluator binds them (a later parameter of the same
/// variable wins).
pub proof fn lemma_entry_binds(args: Seq<(usize, Type)>, xs: Seq<MValue>)
    requires
        params_known(args),
        args.len() < usize::MAX / 2,
        3 * args.len() + 3 <= usize::MAX,
        fits_params(args, xs),
    ensures
        run(fn_entry(Seq::empty(), args), passed(xs)) matches Some(st)
            && st.vars == machine_bind(args, xs, args.len() as int)
            && st.ret is None,
        fn_entry(Seq::empty(), args).len() <= 3 + 3 * args.len(),
{
    assert(Seq::<Op>::empty() + seq![Op::CreateBlock, Op::FunctionParams(0), Op::SwitchToBlock(0)] =~= entry_ops());
    lemma_params_bound(args, xs, args.len() as int);
}

/// The position of the last of the first `n` parameters `args` that binds
/// the variable `x`; -1 where none does.
pub open spec fn last_param(args: Seq<(usize, Type)>, x: usize, n: int) -> int
    decreases n,
{
    if n <= 0 {
        -1
    } else if args[n - 1].0 == x {
        n - 1
    } else {
        last_param(args, x, n - 1)
    }
}

/// The variable `x`, bound by parameter `j` and by none after it, holds
/// that parameter's argument in the machine.
proof fn lemma_machine_bound_at(args: Seq<(usize, Type)>, xs: Seq<MValue>, x: usize, n: int)
    requires
        0 <= n <= args.len(),
        n <= xs.len(),
        last_param(args, x, n) >= 0,
    ensures
        0 <= last_param(args, x, n) < n,
        args[last_param(args, x, n)].0 == x,
        machine_bind(args, xs, n).contains_key(x),
        machine_bind(args, xs, n)[x] == xs[last_param(args, x, n)],
    decreases n,
{
    if args[n - 1].0 != x {
        lemma_machine_bound_at(args, xs, x, n - 1);
    }
}

/// The variable `x`, bound by parameter `j` and by none after it, holds
/// that parameter's argument in the evaluator.
proof fn lemma_bound_at(args: Seq<(usize, Type)>, vs: Seq<ValueView>, x: usize, n: int)
    requires
        0 <= n <= args.len(),
        n <= vs.len(),
        last_param(args, x, n) >= 0,
    ensures
        bind_args(args, vs, n).contains_key(x),
        bind_args(args, vs, n)[x] == vs[last_param(args, x, n)],
    decreases n,
{
    if args[n - 1].0 != x {
        lemma_bound_at(args, vs, x, n - 1);
    }
}

/// The type that parameter binding gives `x` is that of its last
/// parameter.
proof fn lemma_params_tc_at(tc: Map<usize, Seq<char>>, args: Seq<(usize, Type)>, x: usize)
    requires
        last_param(args, x, args.len() as int) >= 0,
    ensures
        params_tc(tc, args).contains_key(x),
        params_tc(tc, args)[x] == type_nom(args[last_param(args, x, args.len() as int)].1),
    decreases args.len(),
{
    let n = args.len() as int;
    let pre = args.drop_last();
    lemma_last_param_prefix(args, x, n - 1);
    lemma_last_param_range(args, x, n);
    if args[n - 1].0 != x {
        lemma_params_tc_at(tc, pre, x);
        let j = last_param(args, x, n);
        assert(j == last_param(pre, x, n - 1));
        assert(pre[j] == args[j]);
    }
}

/// The last parameter of a variable is one of the parameters, and binds it.
proof fn lemma_last_param_range(args: Seq<(usize, Type)>, x: usize, n: int)
    ensures
        last_param(args, x, n) >= 0 ==> last_param(args, x, n) < n && args[last_param(args, x, n)].0 == x,
        last_param(args, x, n) >= -1,
    decreases n,
{
    if n > 0 && args[n - 1].0 != x {
        lemma_last_param_range(args, x, n - 1);
    }
}

/// Dropping the last parameter changes nothing for the others.
proof fn lemma_last_param_prefix(args: Seq<(usize, Type)>, x: usize, m: int)
    requires
        0 <= m < args.len(),
    ensures
        last_param(args.drop_last(), x, m) == last_param(args, x, m),
    decreases m,
{
    if m > 0 {
        lemma_last_param_prefix(args, x, m - 1);
    }
}

/// Names of the same type have the same machine type.
proof fn lemma_same_nom(a: Type, b: Type)
    requires
        type_nom(a) == type_nom(b),
    ensures
        machine_type_of(opt_str(a.name)) == machine_type_of(opt_str(b.name)),
{
    reveal_strlit("Value");
    reveal_strlit("U8");
    reveal_strlit("U64");
    reveal_strlit("String");
    reveal_strlit("Tuple");
    assert("Value"@.len() == 5);
    assert("U8"@.len() == 2);
    assert("U64"@.len() == 3);
    assert("String"@.len() == 6);
    assert("Value"@ != "Tuple"@ ==> true);
    assert("Value"@[0] != "Tuple"@[0]);
}

/// The return that ends a function's code, run after `s`, whose value
/// `v` holds `x`: it returns `x` as a function returns it.
#[verifier::spinoff_prover]
proof fn lemma_return_run(s: Seq<Op>, new: Seq<Op>, ps: Seq<MValue>, v: ValueRef, b: usize, x: MValue)
    requires
        run(s, ps) matches Some(st) && st.ret is None && st.vals.len() == s.len() && value_of(st, v) == Some(x),
        returned(s, new, v, b, x.t == MachineType::I128),
        s.len() + 1 <= usize::MAX,
    ensures
        run(new, ps) matches Some(st) && st.ret == Some(halves(x)),
{
    let st = run(s, ps)->0;
    let l = s.len() as int;
    if x.t == MachineType::I128 {
        assert(new =~= s.push(new[l]).push(new[l + 1]).push(new[l + 2]));
        lemma_run_push(s, new[l], ps);
        let s2 = produce(st, split(x));
        assert(run(s.push(new[l]), ps) == Some(s2));
        let rets = new[l + 1]->Return_0@;
        assert(value_of(s2, vr(l, 0)) == Some(split(x)[0]));
        assert(value_of(s2, vr(l, 1)) == Some(split(x)[1]));
        assert(values_of(s2, rets) == Some(split(x))) by {
            assert(rets.map_values(|r: ValueRef| value_of(s2, r)->0) =~= split(x));
        }
        lemma_run_push(s.push(new[l]), new[l + 1], ps);
        lemma_run_push(s.push(new[l]).push(new[l + 1]), new[l + 2], ps);
    } else {
        assert(new =~= s.push(new[l]).push(new[l + 1]));
        let rets = new[l]->Return_0@;
        assert(values_of(st, rets) == Some(seq![x])) by {
            assert(rets.map_values(|r: ValueRef| value_of(st, r)->0) =~= seq![x]);
        }
        lemma_run_push(s, new[l], ps);
        lemma_run_push(s.push(new[l]), new[l + 1], ps);
    }
}

/// The compiler and the evaluator agree on a function whose body returns
/// one of its parameters, `x`, as that parameter's own type: evaluating
/// the body where the parameters are bound to arguments `vs` gives the
/// argument of the last parameter of `x`, and the function's compiled code
/// `new`, run on machine arguments `xs` passed as a function receives
/// them, returns the machine value of that same argument (a 128-bit one as
/// its two halves).
pub proof fn lemma_returns_parameter<S>(
    lib: Seq<FFI>,
    p: Program<S>,
    tc: Map<usize, Seq<char>>,
    fi: Seq<char>,
    new: Seq<Op>,
    x: usize,
    tt: Type,
    span: S,
    vs: Seq<ValueView>,
    xs: Seq<MValue>,
    fuel: nat,
)
    requires
        fn_typing(lib, p, tc, fi) is Some,
        fn_returns(lib, p, tc, fi, Seq::empty(), new),
        named_fn(p, fi).body@ == seq![Expression::VariableReference(x, tt, span)],
        last_param(named_fn(p, fi).args@, x, named_fn(p, fi).args@.len() as int) >= 0,
        type_nom(tt) == type_nom(named_fn(p, fi).args@[last_param(named_fn(p, fi).args@, x, named_fn(p, fi).args@.len() as int)].1),
        vs.len() == named_fn(p, fi).args@.len(),
        fits_params(named_fn(p, fi).args@, xs),
        3 * xs.len() + 6 <= usize::MAX,
        fuel > 0,
    ensures
        ({
            let args = named_fn(p, fi).args@;
            let j = last_param(args, x, args.len() as int);
            &&& eval_spec(fuel, p, bind_args(args, vs, vs.len() as int), Expression::VariableReference(x, tt, span)).0 == Ok::<ValueView, ErrorView<S>>(vs[j])
            &&& run(new, passed(xs)) matches Some(st) && st.ret == Some(halves(xs[j]))
        }),
{
    let fd = named_fn(p, fi);
    let args = fd.args@;
    let n = args.len() as int;
    let j = last_param(args, x, n);
    let ps = passed(xs);
    lemma_bound_at(args, vs, x, n);
    lemma_machine_bound_at(args, xs, x, n);
    lemma_entry_binds(args, xs);
    let start = fn_entry(Seq::empty(), args);
    let st0 = run(start, ps)->0;
    lemma_run_len(start, ps);
    let tc0 = params_tc(tc, args);
    lemma_params_tc_at(tc, args, x);
    let body = fd.body@;
    let wide = returns_wide(fd);
    let w = choose|w: Emit| #[trigger] exprs_chain(lib, p, tc0, body, 0, start, w)
        && body.len() > 0
        && returned(w.states.last(), new, w.vals.last(), w.blocks.last(), wide);
    assert(body.subrange(0, 0) =~= Seq::<Expression<S>>::empty());
    assert(cast_plan_spec(tc0[x], type_nom(tt)) == Some(CastPlan::Keep));
    let m = start.len() as int;
    let s1 = w.states[1];
    assert(exprs_typing(lib, p, tc0, body.subrange(0, 0)) == Some((Seq::<Seq<char>>::empty(), tc0)));
    assert(w.states[0] == start);
    assert(emits(lib, p, tc0, body[0], w.blocks[0], start, s1, w.blocks[1], w.vals[0], w.subs[0]));
    assert(s1 =~= start.push(Op::UseVar(x)));
    assert(w.vals.last() == vr(m, 0));
    lemma_run_push(start, Op::UseVar(x), ps);
    let st1 = produce(st0, seq![xs[j]]);
    assert(run(s1, ps) == Some(st1));
    assert(value_of(st1, vr(m, 0)) == Some(xs[j]));
    lemma_same_nom(tt, args[j].1);
    assert(wide == (xs[j].t == MachineType::I128));
    lemma_return_run(s1, new, ps, vr(m, 0), w.blocks.last(), xs[j]);
    assert(run(new, ps) matches Some(st) && st.ret == Some(halves(xs[j])));
    let env = bind_args(args, vs, vs.len() as int);
    let e = Expression::VariableReference(x, tt, span);
    assert(step_spec(fuel, p, env, e).0 == Step::<S>::Done(Ok(vs[j])));
}

/// The compiler and the evaluator agree on a function whose body is a
/// unary constant of type `U64`: the evaluator gives the number `n` that
/// the constant holds, in any environment, and the function's compiled code
/// `new`, run on any machine arguments `xs` that fit its parameters,
/// returns the 64-bit number `n`.
pub proof fn lemma_returns_constant<S>(
    lib: Seq<FFI>,
    p: Program<S>,
    tc: Map<usize, Seq<char>>,
    fi: Seq<char>,
    new: Seq<Op>,
    av: AstValue,
    tt: Type,
    span: S,
    env: Env,
    xs: Seq<MValue>,
    fuel: nat,
)
    requires
        fn_typing(lib, p, tc, fi) is Some,
        fn_returns(lib, p, tc, fi, Seq::empty(), new),
        named_fn(p, fi).body@ == seq![Expression::ValueIntroduction(av, tt, span)],
        type_nom(tt) == "U64"@,
        fits_params(named_fn(p, fi).args@, xs),
        3 * xs.len() + 6 <= usize::MAX,
        fuel > 0,
    ensures
        av@ matches ValueView::Unary(n, _) && {
            &&& eval_spec(fuel, p, env, Expression::ValueIntroduction(av, tt, span)).0 == Ok::<ValueView, ErrorView<S>>(av@)
            &&& run(new, passed(xs)) matches Some(st) && st.ret == Some(seq![MValue { t: MachineType::I64, bits: n as int }])
        },
{
    reveal_strlit("U64");
    reveal_strlit("Value");
    assert("U64"@.len() == 3);
    assert("Value"@.len() == 5);
    let fd = named_fn(p, fi);
    let args = fd.args@;
    let ps = passed(xs);
    lemma_entry_binds(args, xs);
    let start = fn_entry(Seq::empty(), args);
    let st0 = run(start, ps)->0;
    lemma_run_len(start, ps);
    let tc0 = params_tc(tc, args);
    let body = fd.body@;
    let e = body[0];
    assert(body.subrange(0, 0) =~= Seq::<Expression<S>>::empty());
    assert(exprs_typing(lib, p, tc0, body.subrange(0, 0)) == Some((Seq::<Seq<char>>::empty(), tc0)));
    assert(expr_typing(lib, p, tc0, e) is Some);
    let m = av->Unary_0@;
    assert(m <= i64::MAX);
    let wide = returns_wide(fd);
    assert(!wide);
    let w = choose|w: Emit| #[trigger] exprs_chain(lib, p, tc0, body, 0, start, w)
        && body.len() > 0
        && returned(w.states.last(), new, w.vals.last(), w.blocks.last(), wide);
    let k = start.len() as int;
    let s1 = w.states[1];
    assert(w.states[0] == start);
    assert(emits(lib, p, tc0, e, w.blocks[0], start, s1, w.blocks[1], w.vals[0], w.subs[0]));
    assert(unary_ops(m, "U64"@, k) == seq![Op::Iconst(MachineType::I64, m as i64)]);
    assert(s1 =~= start.push(Op::Iconst(MachineType::I64, m as i64)));
    assert(w.vals.last() == vr(k, 0));
    lemma_run_push(start, Op::Iconst(MachineType::I64, m as i64), ps);
    let x = MValue { t: MachineType::I64, bits: m as int };
    assert(wrap(MachineType::I64, (m as i64) as int) == x);
    let st1 = produce(st0, seq![x]);
    assert(run(s1, ps) == Some(st1));
    assert(value_of(st1, vr(k, 0)) == Some(x));
    lemma_return_run(s1, new, ps, vr(k, 0), w.blocks.last(), x);
    assert(halves(x) == seq![x]);
    assert(step_spec(fuel, p, env, e).0 == Step::<S>::Done(Ok(av@)));
}

/// An emission that open-codes one instruction on two operands.
pub open spec fn binary_emission(e: Emission) -> bool {
    !(e is Call || e is Same || e is IsZero)
}

/// What the instruction that the emission `e` open-codes computes from
/// `x` and `y`; `None` where it traps.
pub open spec fn emission_result(e: Emission, x: MValue, y: MValue) -> Option<MValue> {
    binary(open_coded(e, seq![vr(0, 0), vr(0, 0)]), x, y)
}

/// Code whose run fails fails whatever follows it.
proof fn lemma_run_none(s: Seq<Op>, new: Seq<Op>, ps: Seq<MValue>)
    requires
        run(s, ps) is None,
        s.len() <= new.len(),
        new.subrange(0, s.len() as int) == s,
    ensures
        run(new, ps) is None,
    decreases new.len(),
{
    if new.len() > s.len() {
        assert(new.drop_last().subrange(0, s.len() as int) =~= s);
        lemma_run_none(s, new.drop_last(), ps);
    } else {
        assert(new =~= s);
    }
}

/// The application of a known function that open-codes an instruction on
/// two operands, to two arguments of type `U64` that it takes as they are:
/// that instruction on the two values.
#[verifier::spinoff_prover]
#[verifier::rlimit(40)]
proof fn lemma_apply_open_coded<S>(lib: Seq<FFI>, p: Program<S>, g: Seq<char>, cargs: Seq<(crate::opt::JExpr, crate::opt::JType)>, s2: Seq<Op>, s1: Seq<Op>, v: ValueRef, t: MachineType, va: ValueRef, vb: ValueRef)
    requires
        apply_emitted(lib, p, g, cargs, s2, s1, v, t),
        cargs.len() == 2,
        cargs[0].1.name@ == "U64"@,
        cargs[1].1.name@ == "U64"@,
        cargs[0].0.value == va,
        cargs[1].0.value == vb,
        ffi_pos(lib, g) matches Some(k) && binary_emission(lib[k].emission) && lib[k].arg_types@.len() == 2
            && type_nom(lib[k].arg_types@[0]) == "U64"@ && type_nom(lib[k].arg_types@[1]) == "U64"@,
    ensures
        s1 == s2.push(open_coded(lib[ffi_pos(lib, g)->0].emission, seq![va, vb])),
        v == vr(s2.len() as int, 0),
{
    reveal_strlit("U64");
    reveal_strlit("U8");
    reveal_strlit("Value");
    assert("U64"@.len() == 3);
    assert("U8"@.len() == 2);
    assert("Value"@.len() == 5);
    let k = ffi_pos(lib, g)->0;
    let f = lib[k];
    let targets = apply_targets(lib, p, g);
    assert(targets == f.arg_types@);
    let c1s = cargs.drop_last();
    let c0s = c1s.drop_last();
    let q = s2.len() as int;
    assert(c0s =~= Seq::<(crate::opt::JExpr, crate::opt::JType)>::empty());
    assert(c1s[0] == cargs[0]);
    assert(c1s.len() - 1 == 0);
    assert(cast_plan_spec(cargs[0].1.name@, type_nom(targets[0])) == Some(CastPlan::Keep));
    assert(cast_plan_spec(cargs[1].1.name@, type_nom(targets[1])) == Some(CastPlan::Keep));
    assert(coerce_ops(c0s, targets, q) == Seq::<Op>::empty());
    assert(coerce_vals(c0s, targets, q) == Seq::<(ValueRef, MachineType)>::empty());
    assert(coerce_ops(c1s, targets, q) =~= Seq::<Op>::empty());
    assert(machine_type_of(opt_str(targets[0].name)) == Some(MachineType::I64));
    assert(machine_type_of(opt_str(targets[1].name)) == Some(MachineType::I64));
    assert(coerce_vals(c1s, targets, q) =~= seq![(va, MachineType::I64)]);
    assert(coerce_ops(cargs, targets, q) =~= Seq::<Op>::empty());
    let cv = coerce_vals(cargs, targets, q);
    assert(cv =~= seq![(va, MachineType::I64), (vb, MachineType::I64)]);
    let cv1 = cv.drop_last();
    let cv0 = cv1.drop_last();
    assert(cv0 =~= Seq::<(ValueRef, MachineType)>::empty());
    assert(cv1 =~= seq![(va, MachineType::I64)]);
    assert(split_ops(cv0) == Seq::<Op>::empty());
    assert(split_vals(cv0, q) == Seq::<ValueRef>::empty());
    assert(split_ops(cv1) == Seq::<Op>::empty());
    assert(split_vals(cv1, q) =~= seq![va]);
    assert(split_ops(cv) =~= Seq::<Op>::empty());
    assert(split_vals(cv, q) =~= seq![va, vb]);
    assert(s2 + Seq::<Op>::empty() =~= s2);
    assert(ffi_emitted(f, seq![va, vb], s2, s1, v));
}

/// The known function `g` open-codes an instruction on two operands, takes
/// two `U64` values as 64-bit numbers and gives a `U64`.
pub open spec fn number_fn(lib: Seq<FFI>, g: Seq<char>) -> bool {
    ffi_pos(lib, g) matches Some(k) && {
        let f = lib[k];
        &&& binary_emission(f.emission)
        &&& f.args@ == seq![MachineType::I64, MachineType::I64]
        &&& f.arg_types@.len() == 2
        &&& opt_str(f.arg_types@[0].name) == Some("U64"@)
        &&& opt_str(f.arg_types@[1].name) == Some("U64"@)
        &&& f.rname@ == "U64"@
    }
}

/// `e` is a number expression over variables of types `tc`: a variable of
/// type `U64` read as that type, a unary constant of type `U64` that fits
/// in 63 bits, or a known function that `number_fn` admits applied to two
/// number expressions.
pub open spec fn number_expr<S>(lib: Seq<FFI>, tc: Map<usize, Seq<char>>, e: Expression<S>) -> bool
    decreases e,
{
    match e {
        Expression::VariableReference(x, tt, _) => opt_str(tt.name) == Some("U64"@) && tc.contains_key(x) && tc[x] == "U64"@,
        Expression::ValueIntroduction(av, tt, _) => type_nom(tt) == "U64"@ && small_unary(av),
        Expression::FunctionApplication(g, pxs, _, _) => pxs@.len() == 2 && number_fn(lib, g@)
            && number_expr(lib, tc, pxs@[0]) && number_expr(lib, tc, pxs@[1]),
        _ => false,
    }
}

/// What a number expression computes where the variables hold `vars`:
/// the variable's value, the constant as a 64-bit number, or the known
/// function's instruction on its arguments' values; `None` where that
/// traps.
pub open spec fn number_value<S>(lib: Seq<FFI>, vars: Map<usize, MValue>, e: Expression<S>) -> Option<MValue>
    decreases e,
{
    match e {
        Expression::VariableReference(x, _, _) => Some(vars[x]),
        Expression::ValueIntroduction(av, _, _) => Some(MValue { t: MachineType::I64, bits: av->Unary_0@ as int }),
        Expression::FunctionApplication(g, pxs, _, _) => if pxs@.len() == 2 {
            match (number_value(lib, vars, pxs@[0]), number_value(lib, vars, pxs@[1])) {
                (Some(x), Some(y)) => emission_result(lib[ffi_pos(lib, g@)->0].emission, x, y),
                _ => None,
            }
        } else {
            None
        },
        _ => None,
    }
}

/// A known function's position is one of the table's.
proof fn lemma_ffi_pos_range(lib: Seq<FFI>, g: Seq<char>)
    ensures
        ffi_pos(lib, g) matches Some(k) ==> 0 <= k < lib.len(),
    decreases lib.len(),
{
    if lib.len() > 0 {
        lemma_ffi_pos_range(lib.drop_last(), g);
    }
}

/// A number expression is compiled as a `U64`, with the variable types
/// unchanged.
proof fn lemma_number_typing<S>(lib: Seq<FFI>, p: Program<S>, tc: Map<usize, Seq<char>>, e: Expression<S>)
    requires
        number_expr(lib, tc, e),
    ensures
        expr_typing(lib, p, tc, e) == Some(("U64"@, tc)),
    decreases e,
{
    reveal_strlit("U64");
    reveal_strlit("U8");
    reveal_strlit("Value");
    assert("U64"@.len() == 3);
    assert("U8"@.len() == 2);
    assert("Value"@.len() == 5);
    match e {
        Expression::FunctionApplication(g, pxs, _, _) => {
            let es = pxs@;
            assert(decreases_to!(e => pxs));
            assert(decreases_to!(pxs@ => pxs@[0]));
            assert(decreases_to!(pxs@ => pxs@[1]));
            lemma_number_typing(lib, p, tc, es[0]);
            lemma_number_typing(lib, p, tc, es[1]);
            let es1 = es.subrange(0, 1);
            assert(es1.subrange(0, 0) =~= Seq::<Expression<S>>::empty());
            assert(es1[0] == es[0]);
            assert(exprs_typing(lib, p, tc, es1.subrange(0, 0)) == Some((Seq::<Seq<char>>::empty(), tc)));
            assert(Seq::<Seq<char>>::empty().push("U64"@) =~= seq!["U64"@]);
            assert(seq!["U64"@].push("U64"@) =~= seq!["U64"@, "U64"@]);
            assert(exprs_typing(lib, p, tc, es1) == Some((seq!["U64"@], tc)));
            assert(es.subrange(0, es.len() - 1) =~= es.subrange(0, 1));
            assert(exprs_typing(lib, p, tc, es) == Some((seq!["U64"@, "U64"@], tc)));
            let k = ffi_pos(lib, g@)->0;
            lemma_ffi_pos_range(lib, g@);
            let f = lib[k];
            let names = seq!["U64"@, "U64"@];
            assert(args_fit(names, f.arg_types@));
            assert(sig_matches(f.arg_types@, f.args@));
            assert(value_count(f.args@) == 2) by {
                let a = f.args@;
                assert(a.drop_last().drop_last() =~= Seq::<MachineType>::empty());
                assert(a.drop_last() =~= seq![MachineType::I64]);
                assert(value_count(a.drop_last().drop_last()) == 0);
                assert(value_count(a.drop_last()) == 1);
            }
        },
        _ => {},
    }
}

/// Every variable that the number expression `e` reads holds a value in
/// `vars`, of a type narrower than 128 bits.
pub open spec fn reads_ok<S>(vars: Map<usize, MValue>, e: Expression<S>) -> bool
    decreases e,
{
    match e {
        Expression::VariableReference(x, _, _) => vars.contains_key(x) && vars[x].t != MachineType::I128,
        Expression::FunctionApplication(_, pxs, _, _) => pxs@.len() == 2 && reads_ok(vars, pxs@[0]) && reads_ok(vars, pxs@[1]),
        _ => true,
    }
}

/// Every variable that the number expression `e` reads is one of the
/// parameters `args`, and its last parameter has type `U64`.
pub open spec fn params_read<S>(args: Seq<(usize, Type)>, e: Expression<S>) -> bool
    decreases e,
{
    match e {
        Expression::VariableReference(x, _, _) => last_param(args, x, args.len() as int) >= 0
            && type_nom(args[last_param(args, x, args.len() as int)].1) == "U64"@,
        Expression::FunctionApplication(_, pxs, _, _) => pxs@.len() == 2 && params_read(args, pxs@[0]) && params_read(args, pxs@[1]),
        _ => true,
    }
}

/// The code of a number expression extends the code before it.
proof fn lemma_number_grew<S>(lib: Seq<FFI>, p: Program<S>, tc: Map<usize, Seq<char>>, e: Expression<S>, blk: usize, old: Seq<Op>, new: Seq<Op>, rb: usize, v: ValueRef, w: Emit)
    requires
        emits(lib, p, tc, e, blk, old, new, rb, v, w),
        number_expr(lib, tc, e),
    ensures
        old.len() < new.len(),
        new.subrange(0, old.len() as int) == old,
    decreases e,
{
    reveal_strlit("U64");
    reveal_strlit("Value");
    assert("U64"@.len() == 3);
    assert("Value"@.len() == 5);
    match e {
        Expression::FunctionApplication(g, pxs, _, _) => {
            assert(decreases_to!(e => pxs));
            assert(decreases_to!(pxs@ => pxs@[0]));
            assert(decreases_to!(pxs@ => pxs@[1]));
            let es = pxs@;
            let c = w.subs[0];
            lemma_number_typing(lib, p, tc, es[0]);
            lemma_number_typing(lib, p, tc, es[1]);
            lemma_chain_two(lib, p, tc, es, blk, old, c);
            lemma_number_grew(lib, p, tc, es[0], c.blocks[0], old, c.states[1], c.blocks[1], c.vals[0], c.subs[0]);
            lemma_number_grew(lib, p, tc, es[1], c.blocks[1], c.states[1], c.states[2], c.blocks[2], c.vals[1], c.subs[1]);
            let cargs = w.cargs;
            lemma_number_typing(lib, p, tc, e);
            lemma_cargs_u64(lib, p, tc, es, cargs, c);
            lemma_apply_open_coded(lib, p, g@, cargs, c.states[2], new, v, w.t, c.vals[0], c.vals[1]);
            assert(new.subrange(0, old.len() as int) =~= old);
        },
        _ => {},
    }
}

/// A chain of two number expressions: the first compiled after `old`, the
/// second after it with the same variable types.
proof fn lemma_chain_two<S>(lib: Seq<FFI>, p: Program<S>, tc: Map<usize, Seq<char>>, es: Seq<Expression<S>>, blk: usize, old: Seq<Op>, c: Emit)
    requires
        exprs_chain(lib, p, tc, es, blk, old, c),
        es.len() == 2,
        expr_typing(lib, p, tc, es[0]) == Some(("U64"@, tc)),
    ensures
        c.states.len() == 3,
        c.blocks.len() == 3,
        c.vals.len() == 2,
        emits(lib, p, tc, es[0], c.blocks[0], old, c.states[1], c.blocks[1], c.vals[0], c.subs[0]),
        emits(lib, p, tc, es[1], c.blocks[1], c.states[1], c.states[2], c.blocks[2], c.vals[1], c.subs[1]),
{
    let es1 = es.subrange(0, 1);
    assert(es.subrange(0, es.len() - 1) =~= es1);
    assert(es1.subrange(0, 0) =~= Seq::<Expression<S>>::empty());
    assert(es1[0] == es[0]);
    assert(exprs_typing(lib, p, tc, es1.subrange(0, 0)) == Some((Seq::<Seq<char>>::empty(), tc)));
    assert(exprs_typing(lib, p, tc, es1) == Some((Seq::<Seq<char>>::empty().push("U64"@), tc)));
    let c1 = Emit { states: c.states.drop_last(), blocks: c.blocks.drop_last(), vals: c.vals.drop_last(), subs: c.subs.drop_last(), ..c };
    assert(exprs_chain(lib, p, tc, es1, blk, old, c1));
}

/// The compiled arguments of an application of two number expressions are
/// `U64`s, with the chain's values.
proof fn lemma_cargs_u64<S>(lib: Seq<FFI>, p: Program<S>, tc: Map<usize, Seq<char>>, es: Seq<Expression<S>>, cargs: Seq<(crate::opt::JExpr, crate::opt::JType)>, c: Emit)
    requires
        es.len() == 2,
        expr_typing(lib, p, tc, es[0]) == Some(("U64"@, tc)),
        expr_typing(lib, p, tc, es[1]) == Some(("U64"@, tc)),
        cargs.len() == c.vals.len(),
        c.vals.len() == 2,
        forall|i: int| 0 <= i < c.vals.len() ==> (#[trigger] cargs[i]).0.value == c.vals[i],
        arg_names(cargs) == (exprs_typing(lib, p, tc, es)->0).0,
    ensures
        cargs[0].1.name@ == "U64"@,
        cargs[1].1.name@ == "U64"@,
        cargs[0].0.value == c.vals[0],
        cargs[1].0.value == c.vals[1],
{
    let es1 = es.subrange(0, 1);
    assert(es.subrange(0, es.len() - 1) =~= es1);
    assert(es1.subrange(0, 0) =~= Seq::<Expression<S>>::empty());
    assert(es1[0] == es[0]);
    assert(exprs_typing(lib, p, tc, es1.subrange(0, 0)) == Some((Seq::<Seq<char>>::empty(), tc)));
    assert(exprs_typing(lib, p, tc, es1) == Some((Seq::<Seq<char>>::empty().push("U64"@), tc)));
    assert(exprs_typing(lib, p, tc, es) == Some((Seq::<Seq<char>>::empty().push("U64"@).push("U64"@), tc)));
    assert(arg_names(cargs)[0] == cargs[0].1.name@);
    assert(arg_names(cargs)[1] == cargs[1].1.name@);
    assert(cargs[0].0.value == c.vals[0]);
    assert(cargs[1].0.value == c.vals[1]);
}

/// A variable read, run after code `old` that left the state `st`.
proof fn lemma_var_code(old: Seq<Op>, new: Seq<Op>, ps: Seq<MValue>, st: MState, x: usize)
    requires
        new == old.push(Op::UseVar(x)),
        run(old, ps) == Some(st),
        st.ret is None,
        st.vals.len() == old.len(),
        st.vars.contains_key(x),
        new.len() <= usize::MAX,
    ensures
        run(new, ps) matches Some(st2) && st2.vars == st.vars && st2.ret is None
            && st2.vals.len() == new.len() && st2.vals.subrange(0, old.len() as int) == st.vals
            && value_of(st2, vr(old.len() as int, 0)) == Some(st.vars[x]),
{
    lemma_run_push(old, Op::UseVar(x), ps);
    let st2 = produce(st, seq![st.vars[x]]);
    assert(run(new, ps) == Some(st2));
    assert(st2.vals.subrange(0, old.len() as int) =~= st.vals);
}

/// A constant, run after code `old` that left the state `st`.
proof fn lemma_const_code(old: Seq<Op>, new: Seq<Op>, ps: Seq<MValue>, st: MState, m: nat)
    requires
        new == old.push(Op::Iconst(MachineType::I64, m as i64)),
        m <= i64::MAX,
        new.len() <= usize::MAX,
        run(old, ps) == Some(st),
        st.ret is None,
        st.vals.len() == old.len(),
    ensures
        run(new, ps) matches Some(st2) && st2.vars == st.vars && st2.ret is None
            && st2.vals.len() == new.len() && st2.vals.subrange(0, old.len() as int) == st.vals
            && value_of(st2, vr(old.len() as int, 0)) == Some(MValue { t: MachineType::I64, bits: m as int }),
{
    lemma_run_push(old, Op::Iconst(MachineType::I64, m as i64), ps);
    let x = MValue { t: MachineType::I64, bits: m as int };
    assert(wrap(MachineType::I64, (m as i64) as int) == x);
    let st2 = produce(st, seq![x]);
    assert(run(new, ps) == Some(st2));
    assert(st2.vals.subrange(0, old.len() as int) =~= st.vals);
}

/// The open-coded instruction of a known function, run on the values of
/// its two arguments.
proof fn lemma_op_code(s2: Seq<Op>, new: Seq<Op>, ps: Seq<MValue>, st: MState, stb: MState, e: Emission, va: ValueRef, vb: ValueRef, ra: MValue, rb: MValue, n: int)
    requires
        binary_emission(e),
        new == s2.push(open_coded(e, seq![va, vb])),
        run(s2, ps) == Some(stb),
        stb.ret is None,
        stb.vars == st.vars,
        stb.vals.len() == s2.len(),
        0 <= n <= st.vals.len(),
        n <= s2.len(),
        stb.vals.subrange(0, n) == st.vals.subrange(0, n),
        value_of(stb, va) == Some(ra),
        value_of(stb, vb) == Some(rb),
        ra.t != MachineType::I128,
        new.len() <= usize::MAX,
    ensures
        match emission_result(e, ra, rb) {
            Some(r) => run(new, ps) matches Some(st2) && st2.vars == st.vars && st2.ret is None
                && st2.vals.len() == new.len() && st2.vals.subrange(0, n) == st.vals.subrange(0, n)
                && value_of(st2, vr(s2.len() as int, 0)) == Some(r) && r.t != MachineType::I128,
            None => run(new, ps) is None,
        },
{
    let op = open_coded(e, seq![va, vb]);
    lemma_run_push(s2, op, ps);
    assert(operands(op) == Some((va, vb)));
    assert(binary(op, ra, rb) == emission_result(e, ra, rb));
    match emission_result(e, ra, rb) {
        None => {},
        Some(r) => {
            let st2 = produce(stb, seq![r]);
            assert(run(new, ps) == Some(st2));
            assert(st2.vals.subrange(0, n) =~= stb.vals.subrange(0, n));
        },
    }
}

/// The code of a number expression, run after code `old` that left the
/// state `st`, computes the expression's value from the variables, and
/// changes neither them nor the values before it; where the value traps,
/// so does the run.
#[verifier::spinoff_prover]
#[verifier::rlimit(60)]
proof fn lemma_number_code<S>(lib: Seq<FFI>, p: Program<S>, tc: Map<usize, Seq<char>>, e: Expression<S>, blk: usize, old: Seq<Op>, new: Seq<Op>, rb: usize, v: ValueRef, w: Emit, ps: Seq<MValue>, st: MState)
    requires
        emits(lib, p, tc, e, blk, old, new, rb, v, w),
        number_expr(lib, tc, e),
        reads_ok(st.vars, e),
        run(old, ps) == Some(st),
        st.ret is None,
        st.vals.len() == old.len(),
        new.len() <= usize::MAX,
    ensures
        match number_value(lib, st.vars, e) {
            Some(r) => run(new, ps) matches Some(st2) && st2.vars == st.vars && st2.ret is None
                && st2.vals.len() == new.len() && st2.vals.subrange(0, old.len() as int) == st.vals
                && value_of(st2, v) == Some(r) && r.t != MachineType::I128,
            None => run(new, ps) is None,
        },
    decreases e,
{
    reveal_strlit("U64");
    reveal_strlit("Value");
    assert("U64"@.len() == 3);
    assert("Value"@.len() == 5);
    lemma_number_grew(lib, p, tc, e, blk, old, new, rb, v, w);
    let n = old.len() as int;
    match e {
        Expression::VariableReference(x, tt, _) => {
            assert(cast_plan_spec(tc[x], type_nom(tt)) == Some(CastPlan::Keep));
            assert(new =~= old.push(Op::UseVar(x)));
            lemma_var_code(old, new, ps, st, x);
        },
        Expression::ValueIntroduction(av, tt, _) => {
            let m = av->Unary_0@;
            assert(unary_ops(m, "U64"@, n) == seq![Op::Iconst(MachineType::I64, m as i64)]);
            assert(new =~= old.push(Op::Iconst(MachineType::I64, m as i64)));
            lemma_const_code(old, new, ps, st, m);
        },
        Expression::FunctionApplication(g, pxs, _, _) => {
            assert(decreases_to!(e => pxs));
            assert(decreases_to!(pxs@ => pxs@[0]));
            assert(decreases_to!(pxs@ => pxs@[1]));
            let es = pxs@;
            let c = w.subs[0];
            lemma_number_typing(lib, p, tc, es[0]);
            lemma_number_typing(lib, p, tc, es[1]);
            lemma_chain_two(lib, p, tc, es, blk, old, c);
            let s1 = c.states[1];
            let s2 = c.states[2];
            lemma_number_grew(lib, p, tc, es[0], c.blocks[0], old, s1, c.blocks[1], c.vals[0], c.subs[0]);
            lemma_number_grew(lib, p, tc, es[1], c.blocks[1], s1, s2, c.blocks[2], c.vals[1], c.subs[1]);
            let cargs = w.cargs;
            lemma_cargs_u64(lib, p, tc, es, cargs, c);
            lemma_apply_open_coded(lib, p, g@, cargs, s2, new, v, w.t, c.vals[0], c.vals[1]);
            let op = open_coded(lib[ffi_pos(lib, g@)->0].emission, seq![c.vals[0], c.vals[1]]);
            lemma_number_code(lib, p, tc, es[0], c.blocks[0], old, s1, c.blocks[1], c.vals[0], c.subs[0], ps, st);
            match number_value(lib, st.vars, es[0]) {
                None => {
                    assert(new.subrange(0, s1.len() as int) =~= s1);
                    lemma_run_none(s1, new, ps);
                },
                Some(ra) => {
                    let sta = run(s1, ps)->0;
                    lemma_number_code(lib, p, tc, es[1], c.blocks[1], s1, s2, c.blocks[2], c.vals[1], c.subs[1], ps, sta);
                    match number_value(lib, st.vars, es[1]) {
                        None => {
                            assert(new.subrange(0, s2.len() as int) =~= s2);
                            lemma_run_none(s2, new, ps);
                        },
                        Some(rb2) => {
                            let stb = run(s2, ps)->0;
                            assert(value_of(stb, c.vals[0]) == Some(ra)) by {
                                assert(stb.vals.subrange(0, s1.len() as int)[c.vals[0].op as int] == stb.vals[c.vals[0].op as int]);
                            }
                            assert(stb.vals.subrange(0, n) =~= st.vals.subrange(0, n)) by {
                                assert(stb.vals.subrange(0, s1.len() as int).subrange(0, n) =~= stb.vals.subrange(0, n));
                                assert(sta.vals.subrange(0, n) =~= st.vals.subrange(0, n));
                            }
                            lemma_op_code(s2, new, ps, st, stb, lib[ffi_pos(lib, g@)->0].emission, c.vals[0], c.vals[1], ra, rb2, n);
                            assert(st.vals.subrange(0, n) =~= st.vals);
                        },
                    }
                },
            }
        },
        _ => {},
    }
}

/// Variables read as parameters hold their arguments, none of them 128
/// bits wide.
proof fn lemma_params_reads<S>(args: Seq<(usize, Type)>, xs: Seq<MValue>, e: Expression<S>)
    requires
        params_read(args, e),
        fits_params(args, xs),
    ensures
        reads_ok(machine_bind(args, xs, args.len() as int), e),
    decreases e,
{
    reveal_strlit("U64");
    reveal_strlit("U8");
    reveal_strlit("Value");
    assert("U64"@.len() == 3);
    assert("U8"@.len() == 2);
    assert("Value"@.len() == 5);
    match e {
        Expression::VariableReference(x, _, _) => {
            lemma_machine_bound_at(args, xs, x, args.len() as int);
            let j = last_param(args, x, args.len() as int);
            assert(xs[j].t == param_type(args[j]));
        },
        Expression::FunctionApplication(_, pxs, _, _) => {
            assert(decreases_to!(e => pxs));
            assert(decreases_to!(pxs@ => pxs@[0]));
            assert(decreases_to!(pxs@ => pxs@[1]));
            lemma_params_reads(args, xs, pxs@[0]);
            lemma_params_reads(args, xs, pxs@[1]);
        },
        _ => {},
    }
}

/// Compiled arithmetic computes what its instructions mean: the compiled
/// code `new` of a function whose body is a number expression over its
/// `U64` parameters, not declared as a packed value, run on machine
/// arguments `xs` passed as a function receives them, returns the value
/// that the expression computes from the arguments bound to its parameters,
/// and traps where that computation traps (a division by 0).
pub proof fn lemma_returns_number<S>(
    lib: Seq<FFI>,
    p: Program<S>,
    tc: Map<usize, Seq<char>>,
    fi: Seq<char>,
    new: Seq<Op>,
    xs: Seq<MValue>,
)
    requires
        fn_typing(lib, p, tc, fi) is Some,
        fn_returns(lib, p, tc, fi, Seq::empty(), new),
        named_fn(p, fi).body@.len() == 1,
        number_expr(lib, params_tc(tc, named_fn(p, fi).args@), named_fn(p, fi).body@[0]),
        params_read(named_fn(p, fi).args@, named_fn(p, fi).body@[0]),
        !returns_wide(named_fn(p, fi)),
        fits_params(named_fn(p, fi).args@, xs),
        3 * xs.len() + 3 <= usize::MAX,
        new.len() <= usize::MAX,
    ensures
        ({
            let args = named_fn(p, fi).args@;
            match number_value(lib, machine_bind(args, xs, args.len() as int), named_fn(p, fi).body@[0]) {
                Some(r) => run(new, passed(xs)) matches Some(st) && st.ret == Some(seq![r]),
                None => run(new, passed(xs)) is None,
            }
        }),
{
    let fd = named_fn(p, fi);
    let args = fd.args@;
    let ps = passed(xs);
    lemma_entry_binds(args, xs);
    let start = fn_entry(Seq::empty(), args);
    let st0 = run(start, ps)->0;
    lemma_run_len(start, ps);
    lemma_params_reads(args, xs, fd.body@[0]);
    let tc0 = params_tc(tc, args);
    let body = fd.body@;
    let e = body[0];
    let w = choose|w: Emit| #[trigger] exprs_chain(lib, p, tc0, body, 0, start, w)
        && body.len() > 0
        && returned(w.states.last(), new, w.vals.last(), w.blocks.last(), false);
    assert(body.subrange(0, 0) =~= Seq::<Expression<S>>::empty());
    assert(exprs_typing(lib, p, tc0, body.subrange(0, 0)) == Some((Seq::<Seq<char>>::empty(), tc0)));
    let s1 = w.states[1];
    assert(w.states[0] == start);
    assert(emits(lib, p, tc0, e, w.blocks[0], start, s1, w.blocks[1], w.vals[0], w.subs[0]));
    assert(s1.len() <= new.len());
    lemma_number_code(lib, p, tc0, e, w.blocks[0], start, s1, w.blocks[1], w.vals[0], w.subs[0], ps, st0);
    match number_value(lib, st0.vars, e) {
        Some(r) => {
            lemma_return_run(s1, new, ps, w.vals[0], w.blocks.last(), r);
            assert(halves(r) == seq![r]);
        },
        None => {
            lemma_run_none(s1, new, ps);
        },
    }
}

/// In the table of known functions, `-` on two `U64`s is a known function
/// that `number_fn` admits, open-coded as the wrapping 64-bit subtraction
/// of its second argument from its first.
pub proof fn lemma_table_subtracts(lib: Seq<FFI>, x: MValue, y: MValue)
    requires
        entries_are(lib, known_table()),
        x.t == MachineType::I64,
    ensures
        number_fn(lib, "-:(U64,U64)->U64"@),
        emission_result(lib[ffi_pos(lib, "-:(U64,U64)->U64"@)->0].emission, x, y) == Some(wrap(MachineType::I64, x.bits - y.bits)),
{
    reveal_strlit("-:(U64,U64)->U64");
    reveal_strlit("+:(U64,U64)->U64");
    reveal_strlit("U64");
    let name = "-:(U64,U64)->U64"@;
    assert(name[0] != "+:(U64,U64)->U64"@[0]);
    let t = known_table();
    assert(t.len() >= 2);
    assert(t[0] == crate::recipes::cranelift_impl::add::table()[0]);
    assert(t[1] == crate::recipes::cranelift_impl::sub::table()[0]);
    assert(entry_is(lib[0], t[0]));
    assert(entry_is(lib[1], t[1]));
    let pre = lib.subrange(0, 2);
    assert(pre.drop_last() =~= lib.subrange(0, 1));
    assert(pre.drop_last().drop_last() =~= Seq::<FFI>::empty());
    let one = lib.subrange(0, 1);
    assert(one.drop_last() =~= Seq::<FFI>::empty());
    assert(one.last() == lib[0]);
    assert(lib[0].name@ != name);
    assert(ffi_pos(Seq::<FFI>::empty(), name) is None);
    assert(ffi_pos(one.drop_last(), name) is None);
    assert(ffi_pos(one, name) is None);
    assert(ffi_pos(pre, name) == Some(1int));
    crate::opt::lemma_ffi_pos_prefix(lib, name, 2);
    assert(lib[1].args@ == seq![MachineType::I64, MachineType::I64]);
}

/// The position of a known function: the first entry with its name.
proof fn lemma_ffi_pos_at(lib: Seq<FFI>, name: Seq<char>, k: int)
    requires
        0 <= k < lib.len(),
        lib[k].name@ == name,
        forall|i: int| 0 <= i < k ==> #[trigger] lib[i].name@ != name,
    ensures
        ffi_pos(lib, name) == Some(k),
{
    let pre = lib.subrange(0, k);
    lemma_ffi_pos_none(pre, name);
    assert(lib.subrange(0, k + 1).drop_last() =~= pre);
    crate::opt::lemma_ffi_pos_prefix(lib, name, k + 1);
}

/// No entry has the name: it is not found.
proof fn lemma_ffi_pos_none(lib: Seq<FFI>, name: Seq<char>)
    requires
        forall|i: int| 0 <= i < lib.len() ==> #[trigger] lib[i].name@ != name,
    ensures
        ffi_pos(lib, name) is None,
    decreases lib.len(),
{
    if lib.len() > 0 {
        let pre = lib.drop_last();
        assert forall|i: int| 0 <= i < pre.len() implies #[trigger] pre[i].name@ != name by {
            assert(pre[i] == lib[i]);
        }
        lemma_ffi_pos_none(pre, name);
    }
}

/// Where the open-coded and pass-through functions stand in the table of
/// known functions, and how each is described.
#[verifier::spinoff_prover]
#[verifier::rlimit(80)]
proof fn lemma_table_positions(lib: Seq<FFI>)
    requires
        entries_are(lib, known_table()),
    ensures
        ffi_pos(lib, "+:(U64,U64)->U64"@) == Some(0int),
        entry_is(lib[0], crate::recipes::cranelift_impl::add::table()[0]),
        ffi_pos(lib, "-:(U64,U64)->U64"@) == Some(1int),
        entry_is(lib[1], crate::recipes::cranelift_impl::sub::table()[0]),
        ffi_pos(lib, "==:(U64,U64)->U8"@) == Some(2int),
        entry_is(lib[2], crate::recipes::cranelift_impl::eq::table()[0]),
        ffi_pos(lib, "!=:(U64,U64)->U8"@) == Some(3int),
        entry_is(lib[3], crate::recipes::cranelift_impl::ne::table()[0]),
        ffi_pos(lib, "<:(U64,U64)->U8"@) == Some(4int),
        entry_is(lib[4], crate::recipes::cranelift_impl::lt::table()[0]),
        ffi_pos(lib, "<=:(U64,U64)->U8"@) == Some(5int),
        entry_is(lib[5], crate::recipes::cranelift_impl::lte::table()[0]),
        ffi_pos(lib, ">:(U64,U64)->U8"@) == Some(6int),
        entry_is(lib[6], crate::recipes::cranelift_impl::gt::table()[0]),
        ffi_pos(lib, ">=:(U64,U64)->U8"@) == Some(7int),
        entry_is(lib[7], crate::recipes::cranelift_impl::gte::table()[0]),
        ffi_pos(lib, "*:(U64,U64)->U64"@) == Some(8int),
        entry_is(lib[8], crate::recipes::cranelift_impl::mul::table()[0]),
        ffi_pos(lib, "/:(U64,U64)->U64"@) == Some(9int),
        entry_is(lib[9], crate::recipes::cranelift_impl::div::table()[0]),
        ffi_pos(lib, "%:(U64,U64)->U64"@) == Some(10int),
        entry_is(lib[10], crate::recipes::cranelift_impl::rem::table()[0]),
        ffi_pos(lib, "not:(U8)->U8"@) == Some(11int),
        entry_is(lib[11], crate::recipes::cranelift_impl::not::table()[0]),
        ffi_pos(lib, "or:(U8,U8)->U8"@) == Some(12int),
        entry_is(lib[12], crate::recipes::cranelift_impl::or::table()[0]),
        ffi_pos(lib, "as:(I64)->U64"@) == Some(13int),
        entry_is(lib[13], crate::recipes::cranelift_impl::cast_i64_as_u64::table()[0]),
{
    reveal_strlit("%:(U64,U64)->U64");
    reveal_strlit("<=:(U64,U64)->U8");
    reveal_strlit("/:(U64,U64)->U64");
    reveal_strlit("==:(U64,U64)->U8");
    reveal_strlit("-:(U64,U64)->U64");
    reveal_strlit("!=:(U64,U64)->U8");
    reveal_strlit("not:(U8)->U8");
    reveal_strlit("+:(U64,U64)->U64");
    reveal_strlit("<:(U64,U64)->U8");
    reveal_strlit("*:(U64,U64)->U64");
    reveal_strlit(">:(U64,U64)->U8");
    reveal_strlit("as:(I64)->U64");
    reveal_strlit(">=:(U64,U64)->U8");
    reveal_strlit("or:(U8,U8)->U8");
    let t = known_table();
    assert(t.len() >= 14);
    assert(t[0] == crate::recipes::cranelift_impl::add::table()[0]);
    assert(entry_is(lib[0], t[0]));
    assert(t[1] == crate::recipes::cranelift_impl::sub::table()[0]);
    assert(entry_is(lib[1], t[1]));
    assert(t[2] == crate::recipes::cranelift_impl::eq::table()[0]);
    assert(entry_is(lib[2], t[2]));
    assert(t[3] == crate::recipes::cranelift_impl::ne::table()[0]);
    assert(entry_is(lib[3], t[3]));
    assert(t[4] == crate::recipes::cranelift_impl::lt::table()[0]);
    assert(entry_is(lib[4], t[4]));
    assert(t[5] == crate::recipes::cranelift_impl::lte::table()[0]);
    assert(entry_is(lib[5], t[5]));
    assert(t[6] == crate::recipes::cranelift_impl::gt::table()[0]);
    assert(entry_is(lib[6], t[6]));
    assert(t[7] == crate::recipes::cranelift_impl::gte::table()[0]);
    assert(entry_is(lib[7], t[7]));
    assert(t[8] == crate::recipes::cranelift_impl::mul::table()[0]);
    assert(entry_is(lib[8], t[8]));
    assert(t[9] == crate::recipes::cranelift_impl::div::table()[0]);
    assert(entry_is(lib[9], t[9]));
    assert(t[10] == crate::recipes::cranelift_impl::rem::table()[0]);
    assert(entry_is(lib[10], t[10]));
    assert(t[11] == crate::recipes::cranelift_impl::not::table()[0]);
    assert(entry_is(lib[11], t[11]));
    assert(t[12] == crate::recipes::cranelift_impl::or::table()[0]);
    assert(entry_is(lib[12], t[12]));
    assert(t[13] == crate::recipes::cranelift_impl::cast_i64_as_u64::table()[0]);
    assert(entry_is(lib[13], t[13]));
    lemma_ffi_pos_at(lib, "+:(U64,U64)->U64"@, 0);
    assert forall|i: int| 0 <= i < 1 implies #[trigger] lib[i].name@ != "-:(U64,U64)->U64"@ by {
        if i == 0 {
            assert(lib[0].name@[0] != "-:(U64,U64)->U64"@[0]);
        }
    }
    lemma_ffi_pos_at(lib, "-:(U64,U64)->U64"@, 1);
    assert forall|i: int| 0 <= i < 2 implies #[trigger] lib[i].name@ != "==:(U64,U64)->U8"@ by {
        if i == 0 {
            assert(lib[0].name@[0] != "==:(U64,U64)->U8"@[0]);
        } else if i == 1 {
            assert(lib[1].name@[0] != "==:(U64,U64)->U8"@[0]);
        }
    }
    lemma_ffi_pos_at(lib, "==:(U64,U64)->U8"@, 2);
    assert forall|i: int| 0 <= i < 3 implies #[trigger] lib[i].name@ != "!=:(U64,U64)->U8"@ by {
        if i == 0 {
            assert(lib[0].name@[0] != "!=:(U64,U64)->U8"@[0]);
        } else if i == 1 {
            assert(lib[1].name@[0] != "!=:(U64,U64)->U8"@[0]);
        } else if i == 2 {
            assert(lib[2].name@[0] != "!=:(U64,U64)->U8"@[0]);
        }
    }
    lemma_ffi_pos_at(lib, "!=:(U64,U64)->U8"@, 3);
    assert forall|i: int| 0 <= i < 4 implies #[trigger] lib[i].name@ != "<:(U64,U64)->U8"@ by {
        if i == 0 {
            assert(lib[0].name@[0] != "<:(U64,U64)->U8"@[0]);
        } else if i == 1 {
            assert(lib[1].name@[0] != "<:(U64,U64)->U8"@[0]);
        } else if i == 2 {
            assert(lib[2].name@[0] != "<:(U64,U64)->U8"@[0]);
        } else if i == 3 {
            assert(lib[3].name@[0] != "<:(U64,U64)->U8"@[0]);
        }
    }
    lemma_ffi_pos_at(lib, "<:(U64,U64)->U8"@, 4);
    assert forall|i: int| 0 <= i < 5 implies #[trigger] lib[i].name@ != "<=:(U64,U64)->U8"@ by {
        if i == 0 {
            assert(lib[0].name@[0] != "<=:(U64,U64)->U8"@[0]);
        } else if i == 1 {
            assert(lib[1].name@[0] != "<=:(U64,U64)->U8"@[0]);
        } else if i == 2 {
            assert(lib[2].name@[0] != "<=:(U64,U64)->U8"@[0]);
        } else if i == 3 {
            assert(lib[3].name@[0] != "<=:(U64,U64)->U8"@[0]);
        } else if i == 4 {
            assert(lib[4].name@[1] != "<=:(U64,U64)->U8"@[1]);
        }
    }
    lemma_ffi_pos_at(lib, "<=:(U64,U64)->U8"@, 5);
    assert forall|i: int| 0 <= i < 6 implies #[trigger] lib[i].name@ != ">:(U64,U64)->U8"@ by {
        if i == 0 {
            assert(lib[0].name@[0] != ">:(U64,U64)->U8"@[0]);
        } else if i == 1 {
            assert(lib[1].name@[0] != ">:(U64,U64)->U8"@[0]);
        } else if i == 2 {
            assert(lib[2].name@[0] != ">:(U64,U64)->U8"@[0]);
        } else if i == 3 {
            assert(lib[3].name@[0] != ">:(U64,U64)->U8"@[0]);
        } else if i == 4 {
            assert(lib[4].name@[0] != ">:(U64,U64)->U8"@[0]);
        } else if i == 5 {
            assert(lib[5].name@[0] != ">:(U64,U64)->U8"@[0]);
        }
    }
    lemma_ffi_pos_at(lib, ">:(U64,U64)->U8"@, 6);
    assert forall|i: int| 0 <= i < 7 implies #[trigger] lib[i].name@ != ">=:(U64,U64)->U8"@ by {
        if i == 0 {
            assert(lib[0].name@[0] != ">=:(U64,U64)->U8"@[0]);
        } else if i == 1 {
            assert(lib[1].name@[0] != ">=:(U64,U64)->U8"@[0]);
        } else if i == 2 {
            assert(lib[2].name@[0] != ">=:(U64,U64)->U8"@[0]);
        } else if i == 3 {
            assert(lib[3].name@[0] != ">=:(U64,U64)->U8"@[0]);
        } else if i == 4 {
            assert(lib[4].name@[0] != ">=:(U64,U64)->U8"@[0]);
        } else if i == 5 {
            assert(lib[5].name@[0] != ">=:(U64,U64)->U8"@[0]);
        } else if i == 6 {
            assert(lib[6].name@[1] != ">=:(U64,U64)->U8"@[1]);
        }
    }
    lemma_ffi_pos_at(lib, ">=:(U64,U64)->U8"@, 7);
    assert forall|i: int| 0 <= i < 8 implies #[trigger] lib[i].name@ != "*:(U64,U64)->U64"@ by {
        if i == 0 {
            assert(lib[0].name@[0] != "*:(U64,U64)->U64"@[0]);
        } else if i == 1 {
            assert(lib[1].name@[0] != "*:(U64,U64)->U64"@[0]);
        } else if i == 2 {
            assert(lib[2].name@[0] != "*:(U64,U64)->U64"@[0]);
        } else if i == 3 {
            assert(lib[3].name@[0] != "*:(U64,U64)->U64"@[0]);
        } else if i == 4 {
            assert(lib[4].name@[0] != "*:(U64,U64)->U64"@[0]);
        } else if i == 5 {
            assert(lib[5].name@[0] != "*:(U64,U64)->U64"@[0]);
        } else if i == 6 {
            assert(lib[6].name@[0] != "*:(U64,U64)->U64"@[0]);
        } else if i == 7 {
            assert(lib[7].name@[0] != "*:(U64,U64)->U64"@[0]);
        }
    }
    lemma_ffi_pos_at(lib, "*:(U64,U64)->U64"@, 8);
    assert forall|i: int| 0 <= i < 9 implies #[trigger] lib[i].name@ != "/:(U64,U64)->U64"@ by {
        if i == 0 {
            assert(lib[0].name@[0] != "/:(U64,U64)->U64"@[0]);
        } else if i == 1 {
            assert(lib[1].name@[0] != "/:(U64,U64)->U64"@[0]);
        } else if i == 2 {
            assert(lib[2].name@[0] != "/:(U64,U64)->U64"@[0]);
        } else if i == 3 {
            assert(lib[3].name@[0] != "/:(U64,U64)->U64"@[0]);
        } else if i == 4 {
            assert(lib[4].name@[0] != "/:(U64,U64)->U64"@[0]);
        } else if i == 5 {
            assert(lib[5].name@[0] != "/:(U64,U64)->U64"@[0]);
        } else if i == 6 {
            assert(lib[6].name@[0] != "/:(U64,U64)->U64"@[0]);
        } else if i == 7 {
            assert(lib[7].name@[0] != "/:(U64,U64)->U64"@[0]);
        } else if i == 8 {
            assert(lib[8].name@[0] != "/:(U64,U64)->U64"@[0]);
        }
    }
    lemma_ffi_pos_at(lib, "/:(U64,U64)->U64"@, 9);
    assert forall|i: int| 0 <= i < 10 implies #[trigger] lib[i].name@ != "%:(U64,U64)->U64"@ by {
        if i == 0 {
            assert(lib[0].name@[0] != "%:(U64,U64)->U64"@[0]);
        } else if i == 1 {
            assert(lib[1].name@[0] != "%:(U64,U64)->U64"@[0]);
        } else if i == 2 {
            assert(lib[2].name@[0] != "%:(U64,U64)->U64"@[0]);
        } else if i == 3 {
            assert(lib[3].name@[0] != "%:(U64,U64)->U64"@[0]);
        } else if i == 4 {
            assert(lib[4].name@[0] != "%:(U64,U64)->U64"@[0]);
        } else if i == 5 {
            assert(lib[5].name@[0] != "%:(U64,U64)->U64"@[0]);
        } else if i == 6 {
            assert(lib[6].name@[0] != "%:(U64,U64)->U64"@[0]);
        } else if i == 7 {
            assert(lib[7].name@[0] != "%:(U64,U64)->U64"@[0]);
        } else if i == 8 {
            assert(lib[8].name@[0] != "%:(U64,U64)->U64"@[0]);
        } else if i == 9 {
            assert(lib[9].name@[0] != "%:(U64,U64)->U64"@[0]);
        }
    }
    lemma_ffi_pos_at(lib, "%:(U64,U64)->U64"@, 10);
    assert forall|i: int| 0 <= i < 11 implies #[trigger] lib[i].name@ != "not:(U8)->U8"@ by {
        if i == 0 {
            assert(lib[0].name@[0] != "not:(U8)->U8"@[0]);
        } else if i == 1 {
            assert(lib[1].name@[0] != "not:(U8)->U8"@[0]);
        } else if i == 2 {
            assert(lib[2].name@[0] != "not:(U8)->U8"@[0]);
        } else if i == 3 {
            assert(lib[3].name@[0] != "not:(U8)->U8"@[0]);
        } else if i == 4 {
            assert(lib[4].name@[0] != "not:(U8)->U8"@[0]);
        } else if i == 5 {
            assert(lib[5].name@[0] != "not:(U8)->U8"@[0]);
        } else if i == 6 {
            assert(lib[6].name@[0] != "not:(U8)->U8"@[0]);
        } else if i == 7 {
            assert(lib[7].name@[0] != "not:(U8)->U8"@[0]);
        } else if i == 8 {
            assert(lib[8].name@[0] != "not:(U8)->U8"@[0]);
        } else if i == 9 {
            assert(lib[9].name@[0] != "not:(U8)->U8"@[0]);
        } else if i == 10 {
            assert(lib[10].name@[0] != "not:(U8)->U8"@[0]);
        }
    }
    lemma_ffi_pos_at(lib, "not:(U8)->U8"@, 11);
    assert forall|i: int| 0 <= i < 12 implies #[trigger] lib[i].name@ != "or:(U8,U8)->U8"@ by {
        if i == 0 {
            assert(lib[0].name@[0] != "or:(U8,U8)->U8"@[0]);
        } else if i == 1 {
            assert(lib[1].name@[0] != "or:(U8,U8)->U8"@[0]);
        } else if i == 2 {
            assert(lib[2].name@[0] != "or:(U8,U8)->U8"@[0]);
        } else if i == 3 {
            assert(lib[3].name@[0] != "or:(U8,U8)->U8"@[0]);
        } else if i == 4 {
            assert(lib[4].name@[0] != "or:(U8,U8)->U8"@[0]);
        } else if i == 5 {
            assert(lib[5].name@[0] != "or:(U8,U8)->U8"@[0]);
        } else if i == 6 {
            assert(lib[6].name@[0] != "or:(U8,U8)->U8"@[0]);
        } else if i == 7 {
            assert(lib[7].name@[0] != "or:(U8,U8)->U8"@[0]);
        } else if i == 8 {
            assert(lib[8].name@[0] != "or:(U8,U8)->U8"@[0]);
        } else if i == 9 {
            assert(lib[9].name@[0] != "or:(U8,U8)->U8"@[0]);
        } else if i == 10 {
            assert(lib[10].name@[0] != "or:(U8,U8)->U8"@[0]);
        } else if i == 11 {
            assert(lib[11].name@[0] != "or:(U8,U8)->U8"@[0]);
        }
    }
    lemma_ffi_pos_at(lib, "or:(U8,U8)->U8"@, 12);
    assert forall|i: int| 0 <= i < 13 implies #[trigger] lib[i].name@ != "as:(I64)->U64"@ by {
        if i == 0 {
            assert(lib[0].name@[0] != "as:(I64)->U64"@[0]);
        } else if i == 1 {
            assert(lib[1].name@[0] != "as:(I64)->U64"@[0]);
        } else if i == 2 {
            assert(lib[2].name@[0] != "as:(I64)->U64"@[0]);
        } else if i == 3 {
            assert(lib[3].name@[0] != "as:(I64)->U64"@[0]);
        } else if i == 4 {
            assert(lib[4].name@[0] != "as:(I64)->U64"@[0]);
        } else if i == 5 {
            assert(lib[5].name@[0] != "as:(I64)->U64"@[0]);
        } else if i == 6 {
            assert(lib[6].name@[0] != "as:(I64)->U64"@[0]);
        } else if i == 7 {
            assert(lib[7].name@[0] != "as:(I64)->U64"@[0]);
        } else if i == 8 {
            assert(lib[8].name@[0] != "as:(I64)->U64"@[0]);
        } else if i == 9 {
            assert(lib[9].name@[0] != "as:(I64)->U64"@[0]);
        } else if i == 10 {
            assert(lib[10].name@[0] != "as:(I64)->U64"@[0]);
        } else if i == 11 {
            assert(lib[11].name@[0] != "as:(I64)->U64"@[0]);
        } else if i == 12 {
            assert(lib[12].name@[0] != "as:(I64)->U64"@[0]);
        }
    }
    lemma_ffi_pos_at(lib, "as:(I64)->U64"@, 13);
}

/// What the instruction that the one-operand emission `e` stands for
/// gives on `x`: the argument itself for a pass-through, else the
/// instruction's comparison of `x` with its constant.
pub open spec fn emission_unary(e: Emission, x: MValue) -> Option<MValue> {
    if e is Same {
        Some(x)
    } else {
        match open_coded(e, seq![vr(0, 0)]) {
            Op::CompareImm(c, _, imm) => Some(flag(holds(c, x.bits, wrap(x.t, imm as int).bits))),
            _ => None,
        }
    }
}

/// What the table's known function `name` computes from two arguments, as
/// its open-coded instruction; `None` where it traps or is not open-coded.
pub open spec fn table_binary(lib: Seq<FFI>, name: Seq<char>, x: MValue, y: MValue) -> Option<MValue> {
    match ffi_pos(lib, name) {
        Some(k) => if binary_emission(lib[k].emission) {
            emission_result(lib[k].emission, x, y)
        } else {
            None
        },
        None => None,
    }
}

/// What the table's known function `name` computes from one argument.
pub open spec fn table_unary(lib: Seq<FFI>, name: Seq<char>, x: MValue) -> Option<MValue> {
    match ffi_pos(lib, name) {
        Some(k) => emission_unary(lib[k].emission, x),
        None => None,
    }
}

/// The machine signature of the table's known function `name`: the
/// machine types of its arguments and of its result.
pub open spec fn table_sig(lib: Seq<FFI>, name: Seq<char>) -> Option<(Seq<MachineType>, MachineType)> {
    match ffi_pos(lib, name) {
        Some(k) => Some((lib[k].args@, lib[k].rtype)),
        None => None,
    }
}

/// The operators of the table of known functions, open-coded, compute what
/// their names say on 64-bit numbers `x` and `y`: `+`, `-` and `*` wrap
/// around 64 bits; `/` and `%` divide without sign and trap on a divisor
/// of 0; the comparisons, without sign, give the 8-bit 1 where they hold
/// and 0 where not.
#[verifier::spinoff_prover]
#[verifier::rlimit(60)]
pub proof fn lemma_table_operators(lib: Seq<FFI>, x: MValue, y: MValue)
    requires
        entries_are(lib, known_table()),
        x.t == MachineType::I64,
        y.t == MachineType::I64,
    ensures
        table_binary(lib, "+:(U64,U64)->U64"@, x, y) == Some(MValue { t: MachineType::I64, bits: (x.bits + y.bits) % 0x1_0000_0000_0000_0000 }),
        table_binary(lib, "-:(U64,U64)->U64"@, x, y) == Some(MValue { t: MachineType::I64, bits: (x.bits - y.bits) % 0x1_0000_0000_0000_0000 }),
        table_binary(lib, "*:(U64,U64)->U64"@, x, y) == Some(MValue { t: MachineType::I64, bits: (x.bits * y.bits) % 0x1_0000_0000_0000_0000 }),
        y.bits != 0 ==> table_binary(lib, "/:(U64,U64)->U64"@, x, y) == Some(MValue { t: MachineType::I64, bits: x.bits / y.bits }),
        y.bits != 0 ==> table_binary(lib, "%:(U64,U64)->U64"@, x, y) == Some(MValue { t: MachineType::I64, bits: x.bits % y.bits }),
        y.bits == 0 ==> table_binary(lib, "/:(U64,U64)->U64"@, x, y) is None,
        y.bits == 0 ==> table_binary(lib, "%:(U64,U64)->U64"@, x, y) is None,
        table_binary(lib, "==:(U64,U64)->U8"@, x, y) == Some(flag(x.bits == y.bits)),
        table_binary(lib, "!=:(U64,U64)->U8"@, x, y) == Some(flag(x.bits != y.bits)),
        table_binary(lib, "<:(U64,U64)->U8"@, x, y) == Some(flag(x.bits < y.bits)),
        table_binary(lib, "<=:(U64,U64)->U8"@, x, y) == Some(flag(x.bits <= y.bits)),
        table_binary(lib, ">:(U64,U64)->U8"@, x, y) == Some(flag(x.bits > y.bits)),
        table_binary(lib, ">=:(U64,U64)->U8"@, x, y) == Some(flag(x.bits >= y.bits)),
        table_unary(lib, "as:(I64)->U64"@, x) == Some(x),
        table_sig(lib, "+:(U64,U64)->U64"@) == Some((seq![MachineType::I64, MachineType::I64], MachineType::I64)),
        table_sig(lib, "-:(U64,U64)->U64"@) == Some((seq![MachineType::I64, MachineType::I64], MachineType::I64)),
        table_sig(lib, "*:(U64,U64)->U64"@) == Some((seq![MachineType::I64, MachineType::I64], MachineType::I64)),
        table_sig(lib, "/:(U64,U64)->U64"@) == Some((seq![MachineType::I64, MachineType::I64], MachineType::I64)),
        table_sig(lib, "%:(U64,U64)->U64"@) == Some((seq![MachineType::I64, MachineType::I64], MachineType::I64)),
        table_sig(lib, "==:(U64,U64)->U8"@) == Some((seq![MachineType::I64, MachineType::I64], MachineType::I8)),
        table_sig(lib, "!=:(U64,U64)->U8"@) == Some((seq![MachineType::I64, MachineType::I64], MachineType::I8)),
        table_sig(lib, "<:(U64,U64)->U8"@) == Some((seq![MachineType::I64, MachineType::I64], MachineType::I8)),
        table_sig(lib, "<=:(U64,U64)->U8"@) == Some((seq![MachineType::I64, MachineType::I64], MachineType::I8)),
        table_sig(lib, ">:(U64,U64)->U8"@) == Some((seq![MachineType::I64, MachineType::I64], MachineType::I8)),
        table_sig(lib, ">=:(U64,U64)->U8"@) == Some((seq![MachineType::I64, MachineType::I64], MachineType::I8)),
        table_sig(lib, "as:(I64)->U64"@) == Some((seq![MachineType::I64], MachineType::I64)),
{
    lemma_table_positions(lib);
}

/// The logical operators of the table of known functions, open-coded, on
/// truth values `p` and `q` (8-bit 0 or 1): `not` gives 1 exactly where its
/// argument is 0, `or` gives 1 exactly where either argument is 1.
#[verifier::spinoff_prover]
pub proof fn lemma_table_logic(lib: Seq<FFI>, p: MValue, q: MValue)
    requires
        entries_are(lib, known_table()),
        p.t == MachineType::I8,
        q.t == MachineType::I8,
        p.bits == 0 || p.bits == 1,
        q.bits == 0 || q.bits == 1,
    ensures
        table_unary(lib, "not:(U8)->U8"@, p) == Some(flag(p.bits == 0)),
        table_binary(lib, "or:(U8,U8)->U8"@, p, q) == Some(flag(p.bits == 1 || q.bits == 1)),
        table_sig(lib, "not:(U8)->U8"@) == Some((seq![MachineType::I8], MachineType::I8)),
        table_sig(lib, "or:(U8,U8)->U8"@) == Some((seq![MachineType::I8, MachineType::I8], MachineType::I8)),
{
    lemma_table_positions(lib);
    let a = p.bits as u8;
    let b = q.bits as u8;
    assert((a == 0 || a == 1) && (b == 0 || b == 1) ==> ((a | b) == 1) == (a == 1 || b == 1) && ((a | b) == 0 || (a | b) == 1)) by (bit_vector);
}

/// Where the functions that compiled code calls stand in the table of
/// known functions, and how each is described (part 1).
#[verifier::spinoff_prover]
#[verifier::rlimit(80)]
proof fn lemma_call_positions_1(lib: Seq<FFI>)
    requires
        entries_are(lib, known_table()),
    ensures
        ffi_pos(lib, "as:(U64)->String"@) == Some(14int),
        entry_is(lib[14], crate::recipes::cranelift_impl::cast_u64_as_string::table()[0]),
        ffi_pos(lib, "as:(I64)->String"@) == Some(15int),
        entry_is(lib[15], crate::recipes::cranelift_impl::cast_u64_as_string::table()[1]),
        ffi_pos(lib, "range:(U64)->U64[]"@) == Some(16int),
        entry_is(lib[16], crate::recipes::cranelift_impl::range1::table()[0]),
        ffi_pos(lib, "range:(I64,I64)->I64[]"@) == Some(17int),
        entry_is(lib[17], crate::recipes::cranelift_impl::range2::table()[0]),
        ffi_pos(lib, "range:(U64,U64,U64)->U64[]"@) == Some(18int),
        entry_is(lib[18], crate::recipes::cranelift_impl::range3::table()[0]),
{
    reveal_strlit("!=:(U64,U64)->U8");
    reveal_strlit("%:(U64,U64)->U64");
    reveal_strlit("*:(U64,U64)->U64");
    reveal_strlit("+:(U64,U64)->U64");
    reveal_strlit("-:(U64,U64)->U64");
    reveal_strlit("/:(U64,U64)->U64");
    reveal_strlit("<:(U64,U64)->U8");
    reveal_strlit("<=:(U64,U64)->U8");
    reveal_strlit("==:(U64,U64)->U8");
    reveal_strlit(">:(U64,U64)->U8");
    reveal_strlit(">=:(U64,U64)->U8");
    reveal_strlit("as:(I64)->String");
    reveal_strlit("as:(I64)->U64");
    reveal_strlit("as:(U64)->String");
    reveal_strlit("not:(U8)->U8");
    reveal_strlit("or:(U8,U8)->U8");
    reveal_strlit("range:(I64,I64)->I64[]");
    reveal_strlit("range:(U64)->U64[]");
    reveal_strlit("range:(U64,U64,U64)->U64[]");
    let t = known_table();
    assert(t.len() >= 19);
    assert(t[0] == crate::recipes::cranelift_impl::add::table()[0]);
    assert(entry_is(lib[0], t[0]));
    assert(t[1] == crate::recipes::cranelift_impl::sub::table()[0]);
    assert(entry_is(lib[1], t[1]));
    assert(t[2] == crate::recipes::cranelift_impl::eq::table()[0]);
    assert(entry_is(lib[2], t[2]));
    assert(t[3] == crate::recipes::cranelift_impl::ne::table()[0]);
    assert(entry_is(lib[3], t[3]));
    assert(t[4] == crate::recipes::cranelift_impl::lt::table()[0]);
    assert(entry_is(lib[4], t[4]));
    assert(t[5] == crate::recipes::cranelift_impl::lte::table()[0]);
    assert(entry_is(lib[5], t[5]));
    assert(t[6] == crate::recipes::cranelift_impl::gt::table()[0]);
    assert(entry_is(lib[6], t[6]));
    assert(t[7] == crate::recipes::cranelift_impl::gte::table()[0]);
    assert(entry_is(lib[7], t[7]));
    assert(t[8] == crate::recipes::cranelift_impl::mul::table()[0]);
    assert(entry_is(lib[8], t[8]));
    assert(t[9] == crate::recipes::cranelift_impl::div::table()[0]);
    assert(entry_is(lib[9], t[9]));
    assert(t[10] == crate::recipes::cranelift_impl::rem::table()[0]);
    assert(entry_is(lib[10], t[10]));
    assert(t[11] == crate::recipes::cranelift_impl::not::table()[0]);
    assert(entry_is(lib[11], t[11]));
    assert(t[12] == crate::recipes::cranelift_impl::or::table()[0]);
    assert(entry_is(lib[12], t[12]));
    assert(t[13] == crate::recipes::cranelift_impl::cast_i64_as_u64::table()[0]);
    assert(entry_is(lib[13], t[13]));
    assert(t[14] == crate::recipes::cranelift_impl::cast_u64_as_string::table()[0]);
    assert(entry_is(lib[14], t[14]));
    assert(t[15] == crate::recipes::cranelift_impl::cast_u64_as_string::table()[1]);
    assert(entry_is(lib[15], t[15]));
    assert(t[16] == crate::recipes::cranelift_impl::range1::table()[0]);
    assert(entry_is(lib[16], t[16]));
    assert(t[17] == crate::recipes::cranelift_impl::range2::table()[0]);
    assert(entry_is(lib[17], t[17]));
    assert(t[18] == crate::recipes::cranelift_impl::range3::table()[0]);
    assert(entry_is(lib[18], t[18]));
    assert forall|i: int| 0 <= i < 14 implies #[trigger] lib[i].name@ != "as:(U64)->String"@ by {
        if i == 0 {
            assert(lib[0].name@[0] != "as:(U64)->String"@[0]);
        } else if i == 1 {
            assert(lib[1].name@[0] != "as:(U64)->String"@[0]);
        } else if i == 2 {
            assert(lib[2].name@[0] != "as:(U64)->String"@[0]);
        } else if i == 3 {
            assert(lib[3].name@[0] != "as:(U64)->String"@[0]);
        } else if i == 4 {
            assert(lib[4].name@[0] != "as:(U64)->String"@[0]);
        } else if i == 5 {
            assert(lib[5].name@[0] != "as:(U64)->String"@[0]);
        } else if i == 6 {
            assert(lib[6].name@[0] != "as:(U64)->String"@[0]);
        } else if i == 7 {
            assert(lib[7].name@[0] != "as:(U64)->String"@[0]);
        } else if i == 8 {
            assert(lib[8].name@[0] != "as:(U64)->String"@[0]);
        } else if i == 9 {
            assert(lib[9].name@[0] != "as:(U64)->String"@[0]);
        } else if i == 10 {
            assert(lib[10].name@[0] != "as:(U64)->String"@[0]);
        } else if i == 11 {
            assert(lib[11].name@[0] != "as:(U64)->String"@[0]);
        } else if i == 12 {
            assert(lib[12].name@[0] != "as:(U64)->String"@[0]);
        } else if i == 13 {
            assert(lib[13].name@[4] != "as:(U64)->String"@[4]);
        }
    }
    lemma_ffi_pos_at(lib, "as:(U64)->String"@, 14);
    assert forall|i: int| 0 <= i < 15 implies #[trigger] lib[i].name@ != "as:(I64)->String"@ by {
        if i == 0 {
            assert(lib[0].name@[0] != "as:(I64)->String"@[0]);
        } else if i == 1 {
            assert(lib[1].name@[0] != "as:(I64)->String"@[0]);
        } else if i == 2 {
            assert(lib[2].name@[0] != "as:(I64)->String"@[0]);
        } else if i == 3 {
            assert(lib[3].name@[0] != "as:(I64)->String"@[0]);
        } else if i == 4 {
            assert(lib[4].name@[0] != "as:(I64)->String"@[0]);
        } else if i == 5 {
            assert(lib[5].name@[0] != "as:(I64)->String"@[0]);
        } else if i == 6 {
            assert(lib[6].name@[0] != "as:(I64)->String"@[0]);
        } else if i == 7 {
            assert(lib[7].name@[0] != "as:(I64)->String"@[0]);
        } else if i == 8 {
            assert(lib[8].name@[0] != "as:(I64)->String"@[0]);
        } else if i == 9 {
            assert(lib[9].name@[0] != "as:(I64)->String"@[0]);
        } else if i == 10 {
            assert(lib[10].name@[0] != "as:(I64)->String"@[0]);
        } else if i == 11 {
            assert(lib[11].name@[0] != "as:(I64)->String"@[0]);
        } else if i == 12 {
            assert(lib[12].name@[0] != "as:(I64)->String"@[0]);
        } else if i == 13 {
            assert(lib[13].name@[10] != "as:(I64)->String"@[10]);
        } else if i == 14 {
            assert(lib[14].name@[4] != "as:(I64)->String"@[4]);
        }
    }
    lemma_ffi_pos_at(lib, "as:(I64)->String"@, 15);
    assert forall|i: int| 0 <= i < 16 implies #[trigger] lib[i].name@ != "range:(U64)->U64[]"@ by {
        if i == 0 {
            assert(lib[0].name@[0] != "range:(U64)->U64[]"@[0]);
        } else if i == 1 {
            assert(lib[1].name@[0] != "range:(U64)->U64[]"@[0]);
        } else if i == 2 {
            assert(lib[2].name@[0] != "range:(U64)->U64[]"@[0]);
        } else if i == 3 {
            assert(lib[3].name@[0] != "range:(U64)->U64[]"@[0]);
        } else if i == 4 {
            assert(lib[4].name@[0] != "range:(U64)->U64[]"@[0]);
        } else if i == 5 {
            assert(lib[5].name@[0] != "range:(U64)->U64[]"@[0]);
        } else if i == 6 {
            assert(lib[6].name@[0] != "range:(U64)->U64[]"@[0]);
        } else if i == 7 {
            assert(lib[7].name@[0] != "range:(U64)->U64[]"@[0]);
        } else if i == 8 {
            assert(lib[8].name@[0] != "range:(U64)->U64[]"@[0]);
        } else if i == 9 {
            assert(lib[9].name@[0] != "range:(U64)->U64[]"@[0]);
        } else if i == 10 {
            assert(lib[10].name@[0] != "range:(U64)->U64[]"@[0]);
        } else if i == 11 {
            assert(lib[11].name@[0] != "range:(U64)->U64[]"@[0]);
        } else if i == 12 {
            assert(lib[12].name@[0] != "range:(U64)->U64[]"@[0]);
        } else if i == 13 {
            assert(lib[13].name@[0] != "range:(U64)->U64[]"@[0]);
        } else if i == 14 {
            assert(lib[14].name@[0] != "range:(U64)->U64[]"@[0]);
        } else if i == 15 {
            assert(lib[15].name@[0] != "range:(U64)->U64[]"@[0]);
        }
    }
    lemma_ffi_pos_at(lib, "range:(U64)->U64[]"@, 16);
    assert forall|i: int| 0 <= i < 17 implies #[trigger] lib[i].name@ != "range:(I64,I64)->I64[]"@ by {
        if i == 0 {
            assert(lib[0].name@[0] != "range:(I64,I64)->I64[]"@[0]);
        } else if i == 1 {
            assert(lib[1].name@[0] != "range:(I64,I64)->I64[]"@[0]);
        } else if i == 2 {
            assert(lib[2].name@[0] != "range:(I64,I64)->I64[]"@[0]);
        } else if i == 3 {
            assert(lib[3].name@[0] != "range:(I64,I64)->I64[]"@[0]);
        } else if i == 4 {
            assert(lib[4].name@[0] != "range:(I64,I64)->I64[]"@[0]);
        } else if i == 5 {
            assert(lib[5].name@[0] != "range:(I64,I64)->I64[]"@[0]);
        } else if i == 6 {
            assert(lib[6].name@[0] != "range:(I64,I64)->I64[]"@[0]);
        } else if i == 7 {
            assert(lib[7].name@[0] != "range:(I64,I64)->I64[]"@[0]);
        } else if i == 8 {
            assert(lib[8].name@[0] != "range:(I64,I64)->I64[]"@[0]);
        } else if i == 9 {
            assert(lib[9].name@[0] != "range:(I64,I64)->I64[]"@[0]);
        } else if i == 10 {
            assert(lib[10].name@[0] != "range:(I64,I64)->I64[]"@[0]);
        } else if i == 11 {
            assert(lib[11].name@[0] != "range:(I64,I64)->I64[]"@[0]);
        } else if i == 12 {
            assert(lib[12].name@[0] != "range:(I64,I64)->I64[]"@[0]);
        } else if i == 13 {
            assert(lib[13].name@[0] != "range:(I64,I64)->I64[]"@[0]);
        } else if i == 14 {
            assert(lib[14].name@[0] != "range:(I64,I64)->I64[]"@[0]);
        } else if i == 15 {
            assert(lib[15].name@[0] != "range:(I64,I64)->I64[]"@[0]);
        } else if i == 16 {
            assert(lib[16].name@[7] != "range:(I64,I64)->I64[]"@[7]);
        }
    }
    lemma_ffi_pos_at(lib, "range:(I64,I64)->I64[]"@, 17);
    assert forall|i: int| 0 <= i < 18 implies #[trigger] lib[i].name@ != "range:(U64,U64,U64)->U64[]"@ by {
        if i == 0 {
            assert(lib[0].name@[0] != "range:(U64,U64,U64)->U64[]"@[0]);
        } else if i == 1 {
            assert(lib[1].name@[0] != "range:(U64,U64,U64)->U64[]"@[0]);
        } else if i == 2 {
            assert(lib[2].name@[0] != "range:(U64,U64,U64)->U64[]"@[0]);
        } else if i == 3 {
            assert(lib[3].name@[0] != "range:(U64,U64,U64)->U64[]"@[0]);
        } else if i == 4 {
            assert(lib[4].name@[0] != "range:(U64,U64,U64)->U64[]"@[0]);
        } else if i == 5 {
            assert(lib[5].name@[0] != "range:(U64,U64,U64)->U64[]"@[0]);
        } else if i == 6 {
            assert(lib[6].name@[0] != "range:(U64,U64,U64)->U64[]"@[0]);
        } else if i == 7 {
            assert(lib[7].name@[0] != "range:(U64,U64,U64)->U64[]"@[0]);
        } else if i == 8 {
            assert(lib[8].name@[0] != "range:(U64,U64,U64)->U64[]"@[0]);
        } else if i == 9 {
            assert(lib[9].name@[0] != "range:(U64,U64,U64)->U64[]"@[0]);
        } else if i == 10 {
            assert(lib[10].name@[0] != "range:(U64,U64,U64)->U64[]"@[0]);
        } else if i == 11 {
            assert(lib[11].name@[0] != "range:(U64,U64,U64)->U64[]"@[0]);
        } else if i == 12 {
            assert(lib[12].name@[0] != "range:(U64,U64,U64)->U64[]"@[0]);
        } else if i == 13 {
            assert(lib[13].name@[0] != "range:(U64,U64,U64)->U64[]"@[0]);
        } else if i == 14 {
            assert(lib[14].name@[0] != "range:(U64,U64,U64)->U64[]"@[0]);
        } else if i == 15 {
            assert(lib[15].name@[0] != "range:(U64,U64,U64)->U64[]"@[0]);
        } else if i == 16 {
            assert(lib[16].name@[10] != "range:(U64,U64,U64)->U64[]"@[10]);
        } else if i == 17 {
            assert(lib[17].name@[7] != "range:(U64,U64,U64)->U64[]"@[7]);
        }
    }
    lemma_ffi_pos_at(lib, "range:(U64,U64,U64)->U64[]"@, 18);
}

/// Where the functions that compiled code calls stand in the table of
/// known functions, and how each is described (part 2).
#[verifier::spinoff_prover]
#[verifier::rlimit(80)]
proof fn lemma_call_positions_2(lib: Seq<FFI>)
    requires
        entries_are(lib, known_table()),
    ensures
        ffi_pos(lib, "println:(Value)->U64"@) == Some(19int),
        entry_is(lib[19], crate::recipes::cranelift_impl::std_println::table()[0]),
        ffi_pos(lib, ".join:(Tuple,String)->String"@) == Some(20int),
        entry_is(lib[20], crate::recipes::cranelift_impl::string_join2::table()[0]),
        ffi_pos(lib, ".push:(String,U32)->U64"@) == Some(21int),
        entry_is(lib[21], crate::recipes::cranelift_impl::string_push::table()[0]),
        ffi_pos(lib, "with_capacity:(U64)->String"@) == Some(22int),
        entry_is(lib[22], crate::recipes::cranelift_impl::string_push::table()[1]),
        ffi_pos(lib, ".flatten:(Tuple)->Tuple"@) == Some(23int),
        entry_is(lib[23], crate::recipes::cranelift_impl::tuple_flatten::table()[0]),
{
    reveal_strlit("!=:(U64,U64)->U8");
    reveal_strlit("%:(U64,U64)->U64");
    reveal_strlit("*:(U64,U64)->U64");
    reveal_strlit("+:(U64,U64)->U64");
    reveal_strlit("-:(U64,U64)->U64");
    reveal_strlit(".flatten:(Tuple)->Tuple");
    reveal_strlit(".join:(Tuple,String)->String");
    reveal_strlit(".push:(String,U32)->U64");
    reveal_strlit("/:(U64,U64)->U64");
    reveal_strlit("<:(U64,U64)->U8");
    reveal_strlit("<=:(U64,U64)->U8");
    reveal_strlit("==:(U64,U64)->U8");
    reveal_strlit(">:(U64,U64)->U8");
    reveal_strlit(">=:(U64,U64)->U8");
    reveal_strlit("as:(I64)->String");
    reveal_strlit("as:(I64)->U64");
    reveal_strlit("as:(U64)->String");
    reveal_strlit("not:(U8)->U8");
    reveal_strlit("or:(U8,U8)->U8");
    reveal_strlit("println:(Value)->U64");
    reveal_strlit("range:(I64,I64)->I64[]");
    reveal_strlit("range:(U64)->U64[]");
    reveal_strlit("range:(U64,U64,U64)->U64[]");
    reveal_strlit("with_capacity:(U64)->String");
    let t = known_table();
    assert(t.len() >= 24);
    assert(t[0] == crate::recipes::cranelift_impl::add::table()[0]);
    assert(entry_is(lib[0], t[0]));
    assert(t[1] == crate::recipes::cranelift_impl::sub::table()[0]);
    assert(entry_is(lib[1], t[1]));
    assert(t[2] == crate::recipes::cranelift_impl::eq::table()[0]);
    assert(entry_is(lib[2], t[2]));
    assert(t[3] == crate::recipes::cranelift_impl::ne::table()[0]);
    assert(entry_is(lib[3], t[3]));
    assert(t[4] == crate::recipes::cranelift_impl::lt::table()[0]);
    assert(entry_is(lib[4], t[4]));
    assert(t[5] == crate::recipes::cranelift_impl::lte::table()[0]);
    assert(entry_is(lib[5], t[5]));
    assert(t[6] == crate::recipes::cranelift_impl::gt::table()[0]);
    assert(entry_is(lib[6], t[6]));
    assert(t[7] == crate::recipes::cranelift_impl::gte::table()[0]);
    assert(entry_is(lib[7], t[7]));
    assert(t[8] == crate::recipes::cranelift_impl::mul::table()[0]);
    assert(entry_is(lib[8], t[8]));
    assert(t[9] == crate::recipes::cranelift_impl::div::table()[0]);
    assert(entry_is(lib[9], t[9]));
    assert(t[10] == crate::recipes::cranelift_impl::rem::table()[0]);
    assert(entry_is(lib[10], t[10]));
    assert(t[11] == crate::recipes::cranelift_impl::not::table()[0]);
    assert(entry_is(lib[11], t[11]));
    assert(t[12] == crate::recipes::cranelift_impl::or::table()[0]);
    assert(entry_is(lib[12], t[12]));
    assert(t[13] == crate::recipes::cranelift_impl::cast_i64_as_u64::table()[0]);
    assert(entry_is(lib[13], t[13]));
    assert(t[14] == crate::recipes::cranelift_impl::cast_u64_as_string::table()[0]);
    assert(entry_is(lib[14], t[14]));
    assert(t[15] == crate::recipes::cranelift_impl::cast_u64_as_string::table()[1]);
    assert(entry_is(lib[15], t[15]));
    assert(t[16] == crate::recipes::cranelift_impl::range1::table()[0]);
    assert(entry_is(lib[16], t[16]));
    assert(t[17] == crate::recipes::cranelift_impl::range2::table()[0]);
    assert(entry_is(lib[17], t[17]));
    assert(t[18] == crate::recipes::cranelift_impl::range3::table()[0]);
    assert(entry_is(lib[18], t[18]));
    assert(t[19] == crate::recipes::cranelift_impl::std_println::table()[0]);
    assert(entry_is(lib[19], t[19]));
    assert(t[20] == crate::recipes::cranelift_impl::string_join2::table()[0]);
    assert(entry_is(lib[20], t[20]));
    assert(t[21] == crate::recipes::cranelift_impl::string_push::table()[0]);
    assert(entry_is(lib[21], t[21]));
    assert(t[22] == crate::recipes::cranelift_impl::string_push::table()[1]);
    assert(entry_is(lib[22], t[22]));
    assert(t[23] == crate::recipes::cranelift_impl::tuple_flatten::table()[0]);
    assert(entry_is(lib[23], t[23]));
    assert forall|i: int| 0 <= i < 19 implies #[trigger] lib[i].name@ != "println:(Value)->U64"@ by {
        if i == 0 {
            assert(lib[0].name@[0] != "println:(Value)->U64"@[0]);
        } else if i == 1 {
            assert(lib[1].name@[0] != "println:(Value)->U64"@[0]);
        } else if i == 2 {
            assert(lib[2].name@[0] != "println:(Value)->U64"@[0]);
        } else if i == 3 {
            assert(lib[3].name@[0] != "println:(Value)->U64"@[0]);
        } else if i == 4 {
            assert(lib[4].name@[0] != "println:(Value)->U64"@[0]);
        } else if i == 5 {
            assert(lib[5].name@[0] != "println:(Value)->U64"@[0]);
        } else if i == 6 {
            assert(lib[6].name@[0] != "println:(Value)->U64"@[0]);
        } else if i == 7 {
            assert(lib[7].name@[0] != "println:(Value)->U64"@[0]);
        } else if i == 8 {
            assert(lib[8].name@[0] != "println:(Value)->U64"@[0]);
        } else if i == 9 {
            assert(lib[9].name@[0] != "println:(Value)->U64"@[0]);
        } else if i == 10 {
            assert(lib[10].name@[0] != "println:(Value)->U64"@[0]);
        } else if i == 11 {
            assert(lib[11].name@[0] != "println:(Value)->U64"@[0]);
        } else if i == 12 {
            assert(lib[12].name@[0] != "println:(Value)->U64"@[0]);
        } else if i == 13 {
            assert(lib[13].name@[0] != "println:(Value)->U64"@[0]);
        } else if i == 14 {
            assert(lib[14].name@[0] != "println:(Value)->U64"@[0]);
        } else if i == 15 {
            assert(lib[15].name@[0] != "println:(Value)->U64"@[0]);
        } else if i == 16 {
            assert(lib[16].name@[0] != "println:(Value)->U64"@[0]);
        } else if i == 17 {
            assert(lib[17].name@[0] != "println:(Value)->U64"@[0]);
        } else if i == 18 {
            assert(lib[18].name@[0] != "println:(Value)->U64"@[0]);
        }
    }
    lemma_ffi_pos_at(lib, "println:(Value)->U64"@, 19);
    assert forall|i: int| 0 <= i < 20 implies #[trigger] lib[i].name@ != ".join:(Tuple,String)->String"@ by {
        if i == 0 {
            assert(lib[0].name@[0] != ".join:(Tuple,String)->String"@[0]);
        } else if i == 1 {
            assert(lib[1].name@[0] != ".join:(Tuple,String)->String"@[0]);
        } else if i == 2 {
            assert(lib[2].name@[0] != ".join:(Tuple,String)->String"@[0]);
        } else if i == 3 {
            assert(lib[3].name@[0] != ".join:(Tuple,String)->String"@[0]);
        } else if i == 4 {
            assert(lib[4].name@[0] != ".join:(Tuple,String)->String"@[0]);
        } else if i == 5 {
            assert(lib[5].name@[0] != ".join:(Tuple,String)->String"@[0]);
        } else if i == 6 {
            assert(lib[6].name@[0] != ".join:(Tuple,String)->String"@[0]);
        } else if i == 7 {
            assert(lib[7].name@[0] != ".join:(Tuple,String)->String"@[0]);
        } else if i == 8 {
            assert(lib[8].name@[0] != ".join:(Tuple,String)->String"@[0]);
        } else if i == 9 {
            assert(lib[9].name@[0] != ".join:(Tuple,String)->String"@[0]);
        } else if i == 10 {
            assert(lib[10].name@[0] != ".join:(Tuple,String)->String"@[0]);
        } else if i == 11 {
            assert(lib[11].name@[0] != ".join:(Tuple,String)->String"@[0]);
        } else if i == 12 {
            assert(lib[12].name@[0] != ".join:(Tuple,String)->String"@[0]);
        } else if i == 13 {
            assert(lib[13].name@[0] != ".join:(Tuple,String)->String"@[0]);
        } else if i == 14 {
            assert(lib[14].name@[0] != ".join:(Tuple,String)->String"@[0]);
        } else if i == 15 {
            assert(lib[15].name@[0] != ".join:(Tuple,String)->String"@[0]);
        } else if i == 16 {
            assert(lib[16].name@[0] != ".join:(Tuple,String)->String"@[0]);
        } else if i == 17 {
            assert(lib[17].name@[0] != ".join:(Tuple,String)->String"@[0]);
        } else if i == 18 {
            assert(lib[18].name@[0] != ".join:(Tuple,String)->String"@[0]);
        } else if i == 19 {
            assert(lib[19].name@[0] != ".join:(Tuple,String)->String"@[0]);
        }
    }
    lemma_ffi_pos_at(lib, ".join:(Tuple,String)->String"@, 20);
    assert forall|i: int| 0 <= i < 21 implies #[trigger] lib[i].name@ != ".push:(String,U32)->U64"@ by {
        if i == 0 {
            assert(lib[0].name@[0] != ".push:(String,U32)->U64"@[0]);
        } else if i == 1 {
            assert(lib[1].name@[0] != ".push:(String,U32)->U64"@[0]);
        } else if i == 2 {
            assert(lib[2].name@[0] != ".push:(String,U32)->U64"@[0]);
        } else if i == 3 {
            assert(lib[3].name@[0] != ".push:(String,U32)->U64"@[0]);
        } else if i == 4 {
            assert(lib[4].name@[0] != ".push:(String,U32)->U64"@[0]);
        } else if i == 5 {
            assert(lib[5].name@[0] != ".push:(String,U32)->U64"@[0]);
        } else if i == 6 {
            assert(lib[6].name@[0] != ".push:(String,U32)->U64"@[0]);
        } else if i == 7 {
            assert(lib[7].name@[0] != ".push:(String,U32)->U64"@[0]);
        } else if i == 8 {
            assert(lib[8].name@[0] != ".push:(String,U32)->U64"@[0]);
        } else if i == 9 {
            assert(lib[9].name@[0] != ".push:(String,U32)->U64"@[0]);
        } else if i == 10 {
            assert(lib[10].name@[0] != ".push:(String,U32)->U64"@[0]);
        } else if i == 11 {
            assert(lib[11].name@[0] != ".push:(String,U32)->U64"@[0]);
        } else if i == 12 {
            assert(lib[12].name@[0] != ".push:(String,U32)->U64"@[0]);
        } else if i == 13 {
            assert(lib[13].name@[0] != ".push:(String,U32)->U64"@[0]);
        } else if i == 14 {
            assert(lib[14].name@[0] != ".push:(String,U32)->U64"@[0]);
        } else if i == 15 {
            assert(lib[15].name@[0] != ".push:(String,U32)->U64"@[0]);
        } else if i == 16 {
            assert(lib[16].name@[0] != ".push:(String,U32)->U64"@[0]);
        } else if i == 17 {
            assert(lib[17].name@[0] != ".push:(String,U32)->U64"@[0]);
        } else if i == 18 {
            assert(lib[18].name@[0] != ".push:(String,U32)->U64"@[0]);
        } else if i == 19 {
            assert(lib[19].name@[0] != ".push:(String,U32)->U64"@[0]);
        } else if i == 20 {
            assert(lib[20].name@[1] != ".push:(String,U32)->U64"@[1]);
        }
    }
    lemma_ffi_pos_at(lib, ".push:(String,U32)->U64"@, 21);
    assert forall|i: int| 0 <= i < 22 implies #[trigger] lib[i].name@ != "with_capacity:(U64)->String"@ by {
        if i == 0 {
            assert(lib[0].name@[0] != "with_capacity:(U64)->String"@[0]);
        } else if i == 1 {
            assert(lib[1].name@[0] != "with_capacity:(U64)->String"@[0]);
        } else if i == 2 {
            assert(lib[2].name@[0] != "with_capacity:(U64)->String"@[0]);
        } else if i == 3 {
            assert(lib[3].name@[0] != "with_capacity:(U64)->String"@[0]);
        } else if i == 4 {
            assert(lib[4].name@[0] != "with_capacity:(U64)->String"@[0]);
        } else if i == 5 {
            assert(lib[5].name@[0] != "with_capacity:(U64)->String"@[0]);
        } else if i == 6 {
            assert(lib[6].name@[0] != "with_capacity:(U64)->String"@[0]);
        } else if i == 7 {
            assert(lib[7].name@[0] != "with_capacity:(U64)->String"@[0]);
        } else if i == 8 {
            assert(lib[8].name@[0] != "with_capacity:(U64)->String"@[0]);
        } else if i == 9 {
            assert(lib[9].name@[0] != "with_capacity:(U64)->String"@[0]);
        } else if i == 10 {
            assert(lib[10].name@[0] != "with_capacity:(U64)->String"@[0]);
        } else if i == 11 {
            assert(lib[11].name@[0] != "with_capacity:(U64)->String"@[0]);
        } else if i == 12 {
            assert(lib[12].name@[0] != "with_capacity:(U64)->String"@[0]);
        } else if i == 13 {
            assert(lib[13].name@[0] != "with_capacity:(U64)->String"@[0]);
        } else if i == 14 {
            assert(lib[14].name@[0] != "with_capacity:(U64)->String"@[0]);
        } else if i == 15 {
            assert(lib[15].name@[0] != "with_capacity:(U64)->String"@[0]);
        } else if i == 16 {
            assert(lib[16].name@[0] != "with_capacity:(U64)->String"@[0]);
        } else if i == 17 {
            assert(lib[17].name@[0] != "with_capacity:(U64)->String"@[0]);
        } else if i == 18 {
            assert(lib[18].name@[0] != "with_capacity:(U64)->String"@[0]);
        } else if i == 19 {
            assert(lib[19].name@[0] != "with_capacity:(U64)->String"@[0]);
        } else if i == 20 {
            assert(lib[20].name@[0] != "with_capacity:(U64)->String"@[0]);
        } else if i == 21 {
            assert(lib[21].name@[0] != "with_capacity:(U64)->String"@[0]);
        }
    }
    lemma_ffi_pos_at(lib, "with_capacity:(U64)->String"@, 22);
    assert forall|i: int| 0 <= i < 23 implies #[trigger] lib[i].name@ != ".flatten:(Tuple)->Tuple"@ by {
        if i == 0 {
            assert(lib[0].name@[0] != ".flatten:(Tuple)->Tuple"@[0]);
        } else if i == 1 {
            assert(lib[1].name@[0] != ".flatten:(Tuple)->Tuple"@[0]);
        } else if i == 2 {
            assert(lib[2].name@[0] != ".flatten:(Tuple)->Tuple"@[0]);
        } else if i == 3 {
            assert(lib[3].name@[0] != ".flatten:(Tuple)->Tuple"@[0]);
        } else if i == 4 {
            assert(lib[4].name@[0] != ".flatten:(Tuple)->Tuple"@[0]);
        } else if i == 5 {
            assert(lib[5].name@[0] != ".flatten:(Tuple)->Tuple"@[0]);
        } else if i == 6 {
            assert(lib[6].name@[0] != ".flatten:(Tuple)->Tuple"@[0]);
        } else if i == 7 {
            assert(lib[7].name@[0] != ".flatten:(Tuple)->Tuple"@[0]);
        } else if i == 8 {
            assert(lib[8].name@[0] != ".flatten:(Tuple)->Tuple"@[0]);
        } else if i == 9 {
            assert(lib[9].name@[0] != ".flatten:(Tuple)->Tuple"@[0]);
        } else if i == 10 {
            assert(lib[10].name@[0] != ".flatten:(Tuple)->Tuple"@[0]);
        } else if i == 11 {
            assert(lib[11].name@[0] != ".flatten:(Tuple)->Tuple"@[0]);
        } else if i == 12 {
            assert(lib[12].name@[0] != ".flatten:(Tuple)->Tuple"@[0]);
        } else if i == 13 {
            assert(lib[13].name@[0] != ".flatten:(Tuple)->Tuple"@[0]);
        } else if i == 14 {
            assert(lib[14].name@[0] != ".flatten:(Tuple)->Tuple"@[0]);
        } else if i == 15 {
            assert(lib[15].name@[0] != ".flatten:(Tuple)->Tuple"@[0]);
        } else if i == 16 {
            assert(lib[16].name@[0] != ".flatten:(Tuple)->Tuple"@[0]);
        } else if i == 17 {
            assert(lib[17].name@[0] != ".flatten:(Tuple)->Tuple"@[0]);
        } else if i == 18 {
            assert(lib[18].name@[0] != ".flatten:(Tuple)->Tuple"@[0]);
        } else if i == 19 {
            assert(lib[19].name@[0] != ".flatten:(Tuple)->Tuple"@[0]);
        } else if i == 20 {
            assert(lib[20].name@[1] != ".flatten:(Tuple)->Tuple"@[1]);
        } else if i == 21 {
            assert(lib[21].name@[1] != ".flatten:(Tuple)->Tuple"@[1]);
        } else if i == 22 {
            assert(lib[22].name@[0] != ".flatten:(Tuple)->Tuple"@[0]);
        }
    }
    lemma_ffi_pos_at(lib, ".flatten:(Tuple)->Tuple"@, 23);
}

/// Where the functions that compiled code calls stand in the table of
/// known functions, and how each is described (part 3).
#[verifier::spinoff_prover]
#[verifier::rlimit(80)]
proof fn lemma_call_positions_3(lib: Seq<FFI>)
    requires
        entries_are(lib, known_table()),
    ensures
        ffi_pos(lib, "[]:(Tuple,U64)->Value"@) == Some(24int),
        entry_is(lib[24], crate::recipes::cranelift_impl::tuple_index::table()[0]),
        ffi_pos(lib, ".length:(Tuple)->U64"@) == Some(25int),
        entry_is(lib[25], crate::recipes::cranelift_impl::tuple_length::table()[0]),
        ffi_pos(lib, "with_capacity:(U64)->Tuple"@) == Some(26int),
        entry_is(lib[26], crate::recipes::cranelift_impl::tuple_new::table()[0]),
        ffi_pos(lib, ".push:(Tuple,Value)->U64"@) == Some(27int),
        entry_is(lib[27], crate::recipes::cranelift_impl::tuple_push::table()[0]),
        ffi_pos(lib, "trim_capacity:(Tuple)->Tuple"@) == Some(28int),
        entry_is(lib[28], crate::recipes::cranelift_impl::tuple_trim::table()[0]),
{
    reveal_strlit("!=:(U64,U64)->U8");
    reveal_strlit("%:(U64,U64)->U64");
    reveal_strlit("*:(U64,U64)->U64");
    reveal_strlit("+:(U64,U64)->U64");
    reveal_strlit("-:(U64,U64)->U64");
    reveal_strlit(".flatten:(Tuple)->Tuple");
    reveal_strlit(".join:(Tuple,String)->String");
    reveal_strlit(".length:(Tuple)->U64");
    reveal_strlit(".push:(String,U32)->U64");
    reveal_strlit(".push:(Tuple,Value)->U64");
    reveal_strlit("/:(U64,U64)->U64");
    reveal_strlit("<:(U64,U64)->U8");
    reveal_strlit("<=:(U64,U64)->U8");
    reveal_strlit("==:(U64,U64)->U8");
    reveal_strlit(">:(U64,U64)->U8");
    reveal_strlit(">=:(U64,U64)->U8");
    reveal_strlit("[]:(Tuple,U64)->Value");
    reveal_strlit("as:(I64)->String");
    reveal_strlit("as:(I64)->U64");
    reveal_strlit("as:(U64)->String");
    reveal_strlit("not:(U8)->U8");
    reveal_strlit("or:(U8,U8)->U8");
    reveal_strlit("println:(Value)->U64");
    reveal_strlit("range:(I64,I64)->I64[]");
    reveal_strlit("range:(U64)->U64[]");
    reveal_strlit("range:(U64,U64,U64)->U64[]");
    reveal_strlit("trim_capacity:(Tuple)->Tuple");
    reveal_strlit("with_capacity:(U64)->String");
    reveal_strlit("with_capacity:(U64)->Tuple");
    let t = known_table();
    assert(t.len() >= 29);
    assert(t[0] == crate::recipes::cranelift_impl::add::table()[0]);
    assert(entry_is(lib[0], t[0]));
    assert(t[1] == crate::recipes::cranelift_impl::sub::table()[0]);
    assert(entry_is(lib[1], t[1]));
    assert(t[2] == crate::recipes::cranelift_impl::eq::table()[0]);
    assert(entry_is(lib[2], t[2]));
    assert(t[3] == crate::recipes::cranelift_impl::ne::table()[0]);
    assert(entry_is(lib[3], t[3]));
    assert(t[4] == crate::recipes::cranelift_impl::lt::table()[0]);
    assert(entry_is(lib[4], t[4]));
    assert(t[5] == crate::recipes::cranelift_impl::lte::table()[0]);
    assert(entry_is(lib[5], t[5]));
    assert(t[6] == crate::recipes::cranelift_impl::gt::table()[0]);
    assert(entry_is(lib[6], t[6]));
    assert(t[7] == crate::recipes::cranelift_impl::gte::table()[0]);
    assert(entry_is(lib[7], t[7]));
    assert(t[8] == crate::recipes::cranelift_impl::mul::table()[0]);
    assert(entry_is(lib[8], t[8]));
    assert(t[9] == crate::recipes::cranelift_impl::div::table()[0]);
    assert(entry_is(lib[9], t[9]));
    assert(t[10] == crate::recipes::cranelift_impl::rem::table()[0]);
    assert(entry_is(lib[10], t[10]));
    assert(t[11] == crate::recipes::cranelift_impl::not::table()[0]);
    assert(entry_is(lib[11], t[11]));
    assert(t[12] == crate::recipes::cranelift_impl::or::table()[0]);
    assert(entry_is(lib[12], t[12]));
    assert(t[13] == crate::recipes::cranelift_impl::cast_i64_as_u64::table()[0]);
    assert(entry_is(lib[13], t[13]));
    assert(t[14] == crate::recipes::cranelift_impl::cast_u64_as_string::table()[0]);
    assert(entry_is(lib[14], t[14]));
    assert(t[15] == crate::recipes::cranelift_impl::cast_u64_as_string::table()[1]);
    assert(entry_is(lib[15], t[15]));
    assert(t[16] == crate::recipes::cranelift_impl::range1::table()[0]);
    assert(entry_is(lib[16], t[16]));
    assert(t[17] == crate::recipes::cranelift_impl::range2::table()[0]);
    assert(entry_is(lib[17], t[17]));
    assert(t[18] == crate::recipes::cranelift_impl::range3::table()[0]);
    assert(entry_is(lib[18], t[18]));
    assert(t[19] == crate::recipes::cranelift_impl::std_println::table()[0]);
    assert(entry_is(lib[19], t[19]));
    assert(t[20] == crate::recipes::cranelift_impl::string_join2::table()[0]);
    assert(entry_is(lib[20], t[20]));
    assert(t[21] == crate::recipes::cranelift_impl::string_push::table()[0]);
    assert(entry_is(lib[21], t[21]));
    assert(t[22] == crate::recipes::cranelift_impl::string_push::table()[1]);
    assert(entry_is(lib[22], t[22]));
    assert(t[23] == crate::recipes::cranelift_impl::tuple_flatten::table()[0]);
    assert(entry_is(lib[23], t[23]));
    assert(t[24] == crate::recipes::cranelift_impl::tuple_index::table()[0]);
    assert(entry_is(lib[24], t[24]));
    assert(t[25] == crate::recipes::cranelift_impl::tuple_length::table()[0]);
    assert(entry_is(lib[25], t[25]));
    assert(t[26] == crate::recipes::cranelift_impl::tuple_new::table()[0]);
    assert(entry_is(lib[26], t[26]));
    assert(t[27] == crate::recipes::cranelift_impl::tuple_push::table()[0]);
    assert(entry_is(lib[27], t[27]));
    assert(t[28] == crate::recipes::cranelift_impl::tuple_trim::table()[0]);
    assert(entry_is(lib[28], t[28]));
    assert forall|i: int| 0 <= i < 24 implies #[trigger] lib[i].name@ != "[]:(Tuple,U64)->Value"@ by {
        if i == 0 {
            assert(lib[0].name@[0] != "[]:(Tuple,U64)->Value"@[0]);
        } else if i == 1 {
            assert(lib[1].name@[0] != "[]:(Tuple,U64)->Value"@[0]);
        } else if i == 2 {
            assert(lib[2].name@[0] != "[]:(Tuple,U64)->Value"@[0]);
        } else if i == 3 {
            assert(lib[3].name@[0] != "[]:(Tuple,U64)->Value"@[0]);
        } else if i == 4 {
            assert(lib[4].name@[0] != "[]:(Tuple,U64)->Value"@[0]);
        } else if i == 5 {
            assert(lib[5].name@[0] != "[]:(Tuple,U64)->Value"@[0]);
        } else if i == 6 {
            assert(lib[6].name@[0] != "[]:(Tuple,U64)->Value"@[0]);
        } else if i == 7 {
            assert(lib[7].name@[0] != "[]:(Tuple,U64)->Value"@[0]);
        } else if i == 8 {
            assert(lib[8].name@[0] != "[]:(Tuple,U64)->Value"@[0]);
        } else if i == 9 {
            assert(lib[9].name@[0] != "[]:(Tuple,U64)->Value"@[0]);
        } else if i == 10 {
            assert(lib[10].name@[0] != "[]:(Tuple,U64)->Value"@[0]);
        } else if i == 11 {
            assert(lib[11].name@[0] != "[]:(Tuple,U64)->Value"@[0]);
        } else if i == 12 {
            assert(lib[12].name@[0] != "[]:(Tuple,U64)->Value"@[0]);
        } else if i == 13 {
            assert(lib[13].name@[0] != "[]:(Tuple,U64)->Value"@[0]);
        } else if i == 14 {
            assert(lib[14].name@[0] != "[]:(Tuple,U64)->Value"@[0]);
        } else if i == 15 {
            assert(lib[15].name@[0] != "[]:(Tuple,U64)->Value"@[0]);
        } else if i == 16 {
            assert(lib[16].name@[0] != "[]:(Tuple,U64)->Value"@[0]);
        } else if i == 17 {
            assert(lib[17].name@[0] != "[]:(Tuple,U64)->Value"@[0]);
        } else if i == 18 {
            assert(lib[18].name@[0] != "[]:(Tuple,U64)->Value"@[0]);
        } else if i == 19 {
            assert(lib[19].name@[0] != "[]:(Tuple,U64)->Value"@[0]);
        } else if i == 20 {
            assert(lib[20].name@[0] != "[]:(Tuple,U64)->Value"@[0]);
        } else if i == 21 {
            assert(lib[21].name@[0] != "[]:(Tuple,U64)->Value"@[0]);
        } else if i == 22 {
            assert(lib[22].name@[0] != "[]:(Tuple,U64)->Value"@[0]);
        } else if i == 23 {
            assert(lib[23].name@[0] != "[]:(Tuple,U64)->Value"@[0]);
        }
    }
    lemma_ffi_pos_at(lib, "[]:(Tuple,U64)->Value"@, 24);
    assert forall|i: int| 0 <= i < 25 implies #[trigger] lib[i].name@ != ".length:(Tuple)->U64"@ by {
        if i == 0 {
            assert(lib[0].name@[0] != ".length:(Tuple)->U64"@[0]);
        } else if i == 1 {
            assert(lib[1].name@[0] != ".length:(Tuple)->U64"@[0]);
        } else if i == 2 {
            assert(lib[2].name@[0] != ".length:(Tuple)->U64"@[0]);
        } else if i == 3 {
            assert(lib[3].name@[0] != ".length:(Tuple)->U64"@[0]);
        } else if i == 4 {
            assert(lib[4].name@[0] != ".length:(Tuple)->U64"@[0]);
        } else if i == 5 {
            assert(lib[5].name@[0] != ".length:(Tuple)->U64"@[0]);
        } else if i == 6 {
            assert(lib[6].name@[0] != ".length:(Tuple)->U64"@[0]);
        } else if i == 7 {
            assert(lib[7].name@[0] != ".length:(Tuple)->U64"@[0]);
        } else if i == 8 {
            assert(lib[8].name@[0] != ".length:(Tuple)->U64"@[0]);
        } else if i == 9 {
            assert(lib[9].name@[0] != ".length:(Tuple)->U64"@[0]);
        } else if i == 10 {
            assert(lib[10].name@[0] != ".length:(Tuple)->U64"@[0]);
        } else if i == 11 {
            assert(lib[11].name@[0] != ".length:(Tuple)->U64"@[0]);
        } else if i == 12 {
            assert(lib[12].name@[0] != ".length:(Tuple)->U64"@[0]);
        } else if i == 13 {
            assert(lib[13].name@[0] != ".length:(Tuple)->U64"@[0]);
        } else if i == 14 {
            assert(lib[14].name@[0] != ".length:(Tuple)->U64"@[0]);
        } else if i == 15 {
            assert(lib[15].name@[0] != ".length:(Tuple)->U64"@[0]);
        } else if i == 16 {
            assert(lib[16].name@[0] != ".length:(Tuple)->U64"@[0]);
        } else if i == 17 {
            assert(lib[17].name@[0] != ".length:(Tuple)->U64"@[0]);
        } else if i == 18 {
            assert(lib[18].name@[0] != ".length:(Tuple)->U64"@[0]);
        } else if i == 19 {
            assert(lib[19].name@[0] != ".length:(Tuple)->U64"@[0]);
        } else if i == 20 {
            assert(lib[20].name@[1] != ".length:(Tuple)->U64"@[1]);
        } else if i == 21 {
            assert(lib[21].name@[1] != ".length:(Tuple)->U64"@[1]);
        } else if i == 22 {
            assert(lib[22].name@[0] != ".length:(Tuple)->U64"@[0]);
        } else if i == 23 {
            assert(lib[23].name@[1] != ".length:(Tuple)->U64"@[1]);
        } else if i == 24 {
            assert(lib[24].name@[0] != ".length:(Tuple)->U64"@[0]);
        }
    }
    lemma_ffi_pos_at(lib, ".length:(Tuple)->U64"@, 25);
    assert forall|i: int| 0 <= i < 26 implies #[trigger] lib[i].name@ != "with_capacity:(U64)->Tuple"@ by {
        if i == 0 {
            assert(lib[0].name@[0] != "with_capacity:(U64)->Tuple"@[0]);
        } else if i == 1 {
            assert(lib[1].name@[0] != "with_capacity:(U64)->Tuple"@[0]);
        } else if i == 2 {
            assert(lib[2].name@[0] != "with_capacity:(U64)->Tuple"@[0]);
        } else if i == 3 {
            assert(lib[3].name@[0] != "with_capacity:(U64)->Tuple"@[0]);
        } else if i == 4 {
            assert(lib[4].name@[0] != "with_capacity:(U64)->Tuple"@[0]);
        } else if i == 5 {
            assert(lib[5].name@[0] != "with_capacity:(U64)->Tuple"@[0]);
        } else if i == 6 {
            assert(lib[6].name@[0] != "with_capacity:(U64)->Tuple"@[0]);
        } else if i == 7 {
            assert(lib[7].name@[0] != "with_capacity:(U64)->Tuple"@[0]);
        } else if i == 8 {
            assert(lib[8].name@[0] != "with_capacity:(U64)->Tuple"@[0]);
        } else if i == 9 {
            assert(lib[9].name@[0] != "with_capacity:(U64)->Tuple"@[0]);
        } else if i == 10 {
            assert(lib[10].name@[0] != "with_capacity:(U64)->Tuple"@[0]);
        } else if i == 11 {
            assert(lib[11].name@[0] != "with_capacity:(U64)->Tuple"@[0]);
        } else if i == 12 {
            assert(lib[12].name@[0] != "with_capacity:(U64)->Tuple"@[0]);
        } else if i == 13 {
            assert(lib[13].name@[0] != "with_capacity:(U64)->Tuple"@[0]);
        } else if i == 14 {
            assert(lib[14].name@[0] != "with_capacity:(U64)->Tuple"@[0]);
        } else if i == 15 {
            assert(lib[15].name@[0] != "with_capacity:(U64)->Tuple"@[0]);
        } else if i == 16 {
            assert(lib[16].name@[0] != "with_capacity:(U64)->Tuple"@[0]);
        } else if i == 17 {
            assert(lib[17].name@[0] != "with_capacity:(U64)->Tuple"@[0]);
        } else if i == 18 {
            assert(lib[18].name@[0] != "with_capacity:(U64)->Tuple"@[0]);
        } else if i == 19 {
            assert(lib[19].name@[0] != "with_capacity:(U64)->Tuple"@[0]);
        } else if i == 20 {
            assert(lib[20].name@[0] != "with_capacity:(U64)->Tuple"@[0]);
        } else if i == 21 {
            assert(lib[21].name@[0] != "with_capacity:(U64)->Tuple"@[0]);
        } else if i == 22 {
            assert(lib[22].name@[21] != "with_capacity:(U64)->Tuple"@[21]);
        } else if i == 23 {
            assert(lib[23].name@[0] != "with_capacity:(U64)->Tuple"@[0]);
        } else if i == 24 {
            assert(lib[24].name@[0] != "with_capacity:(U64)->Tuple"@[0]);
        } else if i == 25 {
            assert(lib[25].name@[0] != "with_capacity:(U64)->Tuple"@[0]);
        }
    }
    lemma_ffi_pos_at(lib, "with_capacity:(U64)->Tuple"@, 26);
    assert forall|i: int| 0 <= i < 27 implies #[trigger] lib[i].name@ != ".push:(Tuple,Value)->U64"@ by {
        if i == 0 {
            assert(lib[0].name@[0] != ".push:(Tuple,Value)->U64"@[0]);
        } else if i == 1 {
            assert(lib[1].name@[0] != ".push:(Tuple,Value)->U64"@[0]);
        } else if i == 2 {
            assert(lib[2].name@[0] != ".push:(Tuple,Value)->U64"@[0]);
        } else if i == 3 {
            assert(lib[3].name@[0] != ".push:(Tuple,Value)->U64"@[0]);
        } else if i == 4 {
            assert(lib[4].name@[0] != ".push:(Tuple,Value)->U64"@[0]);
        } else if i == 5 {
            assert(lib[5].name@[0] != ".push:(Tuple,Value)->U64"@[0]);
        } else if i == 6 {
            assert(lib[6].name@[0] != ".push:(Tuple,Value)->U64"@[0]);
        } else if i == 7 {
            assert(lib[7].name@[0] != ".push:(Tuple,Value)->U64"@[0]);
        } else if i == 8 {
            assert(lib[8].name@[0] != ".push:(Tuple,Value)->U64"@[0]);
        } else if i == 9 {
            assert(lib[9].name@[0] != ".push:(Tuple,Value)->U64"@[0]);
        } else if i == 10 {
            assert(lib[10].name@[0] != ".push:(Tuple,Value)->U64"@[0]);
        } else if i == 11 {
            assert(lib[11].name@[0] != ".push:(Tuple,Value)->U64"@[0]);
        } else if i == 12 {
            assert(lib[12].name@[0] != ".push:(Tuple,Value)->U64"@[0]);
        } else if i == 13 {
            assert(lib[13].name@[0] != ".push:(Tuple,Value)->U64"@[0]);
        } else if i == 14 {
            assert(lib[14].name@[0] != ".push:(Tuple,Value)->U64"@[0]);
        } else if i == 15 {
            assert(lib[15].name@[0] != ".push:(Tuple,Value)->U64"@[0]);
        } else if i == 16 {
            assert(lib[16].name@[0] != ".push:(Tuple,Value)->U64"@[0]);
        } else if i == 17 {
            assert(lib[17].name@[0] != ".push:(Tuple,Value)->U64"@[0]);
        } else if i == 18 {
            assert(lib[18].name@[0] != ".push:(Tuple,Value)->U64"@[0]);
        } else if i == 19 {
            assert(lib[19].name@[0] != ".push:(Tuple,Value)->U64"@[0]);
        } else if i == 20 {
            assert(lib[20].name@[1] != ".push:(Tuple,Value)->U64"@[1]);
        } else if i == 21 {
            assert(lib[21].name@[7] != ".push:(Tuple,Value)->U64"@[7]);
        } else if i == 22 {
            assert(lib[22].name@[0] != ".push:(Tuple,Value)->U64"@[0]);
        } else if i == 23 {
            assert(lib[23].name@[1] != ".push:(Tuple,Value)->U64"@[1]);
        } else if i == 24 {
            assert(lib[24].name@[0] != ".push:(Tuple,Value)->U64"@[0]);
        } else if i == 25 {
            assert(lib[25].name@[1] != ".push:(Tuple,Value)->U64"@[1]);
        } else if i == 26 {
            assert(lib[26].name@[0] != ".push:(Tuple,Value)->U64"@[0]);
        }
    }
    lemma_ffi_pos_at(lib, ".push:(Tuple,Value)->U64"@, 27);
    assert forall|i: int| 0 <= i < 28 implies #[trigger] lib[i].name@ != "trim_capacity:(Tuple)->Tuple"@ by {
        if i == 0 {
            assert(lib[0].name@[0] != "trim_capacity:(Tuple)->Tuple"@[0]);
        } else if i == 1 {
            assert(lib[1].name@[0] != "trim_capacity:(Tuple)->Tuple"@[0]);
        } else if i == 2 {
            assert(lib[2].name@[0] != "trim_capacity:(Tuple)->Tuple"@[0]);
        } else if i == 3 {
            assert(lib[3].name@[0] != "trim_capacity:(Tuple)->Tuple"@[0]);
        } else if i == 4 {
            assert(lib[4].name@[0] != "trim_capacity:(Tuple)->Tuple"@[0]);
        } else if i == 5 {
            assert(lib[5].name@[0] != "trim_capacity:(Tuple)->Tuple"@[0]);
        } else if i == 6 {
            assert(lib[6].name@[0] != "trim_capacity:(Tuple)->Tuple"@[0]);
        } else if i == 7 {
            assert(lib[7].name@[0] != "trim_capacity:(Tuple)->Tuple"@[0]);
        } else if i == 8 {
            assert(lib[8].name@[0] != "trim_capacity:(Tuple)->Tuple"@[0]);
        } else if i == 9 {
            assert(lib[9].name@[0] != "trim_capacity:(Tuple)->Tuple"@[0]);
        } else if i == 10 {
            assert(lib[10].name@[0] != "trim_capacity:(Tuple)->Tuple"@[0]);
        } else if i == 11 {
            assert(lib[11].name@[0] != "trim_capacity:(Tuple)->Tuple"@[0]);
        } else if i == 12 {
            assert(lib[12].name@[0] != "trim_capacity:(Tuple)->Tuple"@[0]);
        } else if i == 13 {
            assert(lib[13].name@[0] != "trim_capacity:(Tuple)->Tuple"@[0]);
        } else if i == 14 {
            assert(lib[14].name@[0] != "trim_capacity:(Tuple)->Tuple"@[0]);
        } else if i == 15 {
            assert(lib[15].name@[0] != "trim_capacity:(Tuple)->Tuple"@[0]);
        } else if i == 16 {
            assert(lib[16].name@[0] != "trim_capacity:(Tuple)->Tuple"@[0]);
        } else if i == 17 {
            assert(lib[17].name@[0] != "trim_capacity:(Tuple)->Tuple"@[0]);
        } else if i == 18 {
            assert(lib[18].name@[0] != "trim_capacity:(Tuple)->Tuple"@[0]);
        } else if i == 19 {
            assert(lib[19].name@[0] != "trim_capacity:(Tuple)->Tuple"@[0]);
        } else if i == 20 {
            assert(lib[20].name@[0] != "trim_capacity:(Tuple)->Tuple"@[0]);
        } else if i == 21 {
            assert(lib[21].name@[0] != "trim_capacity:(Tuple)->Tuple"@[0]);
        } else if i == 22 {
            assert(lib[22].name@[0] != "trim_capacity:(Tuple)->Tuple"@[0]);
        } else if i == 23 {
            assert(lib[23].name@[0] != "trim_capacity:(Tuple)->Tuple"@[0]);
        } else if i == 24 {
            assert(lib[24].name@[0] != "trim_capacity:(Tuple)->Tuple"@[0]);
        } else if i == 25 {
            assert(lib[25].name@[0] != "trim_capacity:(Tuple)->Tuple"@[0]);
        } else if i == 26 {
            assert(lib[26].name@[0] != "trim_capacity:(Tuple)->Tuple"@[0]);
        } else if i == 27 {
            assert(lib[27].name@[0] != "trim_capacity:(Tuple)->Tuple"@[0]);
        }
    }
    lemma_ffi_pos_at(lib, "trim_capacity:(Tuple)->Tuple"@, 28);
}

/// The functions of the table of known functions that compiled code
/// calls rather than open-codes: each is found by its name and emitted as a
/// call of the runtime function of that name, with the machine types of
/// its arguments and result that its name states (a 128-bit value for a
/// `String`, `Tuple` or `Value`, 64 bits for a `U64` or `I64`, 32 for a
/// `U32`).
pub proof fn lemma_table_calls(lib: Seq<FFI>)
    requires
        entries_are(lib, known_table()),
    ensures
        table_call(lib, "as:(U64)->String"@) == Some((seq![MachineType::I64], MachineType::I128)),
        table_call(lib, "as:(I64)->String"@) == Some((seq![MachineType::I64], MachineType::I128)),
        table_call(lib, "range:(U64)->U64[]"@) == Some((seq![MachineType::I64], MachineType::I128)),
        table_call(lib, "range:(I64,I64)->I64[]"@) == Some((seq![MachineType::I64, MachineType::I64], MachineType::I128)),
        table_call(lib, "range:(U64,U64,U64)->U64[]"@) == Some((seq![MachineType::I64, MachineType::I64, MachineType::I64], MachineType::I128)),
        table_call(lib, "println:(Value)->U64"@) == Some((seq![MachineType::I128], MachineType::I64)),
        table_call(lib, ".join:(Tuple,String)->String"@) == Some((seq![MachineType::I128, MachineType::I128], MachineType::I128)),
        table_call(lib, ".push:(String,U32)->U64"@) == Some((seq![MachineType::I128, MachineType::I32], MachineType::I64)),
        table_call(lib, "with_capacity:(U64)->String"@) == Some((seq![MachineType::I64], MachineType::I128)),
        table_call(lib, ".flatten:(Tuple)->Tuple"@) == Some((seq![MachineType::I128], MachineType::I128)),
        table_call(lib, "[]:(Tuple,U64)->Value"@) == Some((seq![MachineType::I128, MachineType::I64], MachineType::I128)),
        table_call(lib, ".length:(Tuple)->U64"@) == Some((seq![MachineType::I128], MachineType::I64)),
        table_call(lib, "with_capacity:(U64)->Tuple"@) == Some((seq![MachineType::I64], MachineType::I128)),
        table_call(lib, ".push:(Tuple,Value)->U64"@) == Some((seq![MachineType::I128, MachineType::I128], MachineType::I64)),
        table_call(lib, "trim_capacity:(Tuple)->Tuple"@) == Some((seq![MachineType::I128], MachineType::I128)),
{
    lemma_call_positions_1(lib);
    lemma_call_positions_2(lib);
    lemma_call_positions_3(lib);
}

/// The machine signature of the table's known function `name`, where it
/// is emitted as a call.
pub open spec fn table_call(lib: Seq<FFI>, name: Seq<char>) -> Option<(Seq<MachineType>, MachineType)> {
    match ffi_pos(lib, name) {
        Some(k) => if lib[k].emission is Call {
            Some((lib[k].args@, lib[k].rtype))
        } else {
            None
        },
        None => None,
    }
}

/// Two to the power 48: the weight of a tag within the high half.
proof fn lemma_pow2_48()
    ensures
        pow2(48) == 0x1_0000_0000_0000,
{
    reveal_with_fuel(pow2, 49);
}

/// A number below 2^64 joined with a high half of tag `c` times 2^48 is
/// the packed value of tag `c`, no name, and that number in its slots.
proof fn lemma_tagged_join(x: u128, c: u128)
    requires
        x < 0x1_0000_0000_0000_0000,
        c < 0x10000,
    ensures
        x + c * 0x1_0000_0000_0000 * 0x1_0000_0000_0000_0000 == packed(c, 0, x) as int,
{
    assert(x + c * 0x1_0000_0000_0000_0000_0000_0000_0000 == ((c << 112u128) | (0u128 << 96u128) | x) as int) by (bit_vector)
        requires
            x < 0x1_0000_0000_0000_0000,
            c < 0x10000,
    ;
    assert(c * 0x1_0000_0000_0000 * 0x1_0000_0000_0000_0000 == c * 0x1_0000_0000_0000_0000_0000_0000_0000) by (nonlinear_arith);
}

/// The tag of a packed value is its high half divided by 2^48, and its low
/// half is its low 64 bits.
proof fn lemma_high_tag(b: u128)
    ensures
        (b / 0x1_0000_0000_0000_0000) / 0x1_0000_0000_0000 == tag_field(b) as int,
        b % 0x1_0000_0000_0000_0000 == low64(b) as int,
{
    assert((b >> 64u128) >> 48u128 == b >> 112u128) by (bit_vector);
    assert(b >> 64u128 == b / 0x1_0000_0000_0000_0000) by (bit_vector);
    assert((b >> 64u128) >> 48u128 == (b >> 64u128) / 0x1_0000_0000_0000) by (bit_vector);
    assert(b & 0xffff_ffff_ffff_ffff == b % 0x1_0000_0000_0000_0000) by (bit_vector);
}

/// A 64-bit number tagged as a `U64`, run.
#[verifier::spinoff_prover]
proof fn lemma_tag_u64_run(old: Seq<Op>, ps: Seq<MValue>, st: MState, v: ValueRef, x: MValue)
    requires
        run(old, ps) == Some(st),
        st.ret is None,
        st.vals.len() == old.len(),
        value_of(st, v) == Some(x),
        in_range(x),
        old.len() + 4 <= usize::MAX,
    ensures
        x.t == MachineType::I64 ==> (run(old + cast_ops(CastPlan::TagU64, v, old.len() as usize), ps) matches Some(st2)
            && value_of(st2, cast_result(CastPlan::TagU64, v, old.len() as usize))
                == Some(MValue { t: MachineType::I128, bits: packed(tag_code(Tag::U64) as u128, 0, x.bits as u128) as int })),
{
    lemma_tag_code(Tag::U64);
    lemma_tag_code(Tag::U8);
    let n = old.len() as int;
    let h = 0x1_0000_0000_0000_0000int;
    if x.t == MachineType::I64 {
        let ops = cast_ops(CastPlan::TagU64, v, n as usize);
        let c0 = Op::Iconst(MachineType::I64, tag_word(Tag::U64));
        let c1 = Op::Iconcat(v, vr(n, 0));
        assert(old + ops =~= old.push(c0).push(c1));
        lemma_run_push(old, c0, ps);
        let tw = MValue { t: MachineType::I64, bits: tag_code(Tag::U64) * 0x1_0000_0000_0000 };
        assert(wrap(MachineType::I64, tag_word(Tag::U64) as int) == tw);
        let s1 = produce(st, seq![tw]);
        lemma_run_push(old.push(c0), c1, ps);
        assert(value_of(s1, v) == Some(x));
        assert(value_of(s1, vr(n, 0)) == Some(tw));
        lemma_tagged_join(x.bits as u128, tag_code(Tag::U64) as u128);
        let s2 = produce(s1, seq![MValue { t: MachineType::I128, bits: x.bits + tw.bits * h }]);
        assert(run(old + ops, ps) == Some(s2));
    }
}

/// An 8-bit number tagged as a `U8`, run.
#[verifier::spinoff_prover]
proof fn lemma_tag_u8_run(old: Seq<Op>, ps: Seq<MValue>, st: MState, v: ValueRef, x: MValue)
    requires
        run(old, ps) == Some(st),
        st.ret is None,
        st.vals.len() == old.len(),
        value_of(st, v) == Some(x),
        in_range(x),
        old.len() + 4 <= usize::MAX,
    ensures
        x.t == MachineType::I8 ==> (run(old + cast_ops(CastPlan::TagU8, v, old.len() as usize), ps) matches Some(st2)
            && value_of(st2, cast_result(CastPlan::TagU8, v, old.len() as usize))
                == Some(MValue { t: MachineType::I128, bits: packed(tag_code(Tag::U8) as u128, 0, x.bits as u128) as int })),
{
    lemma_tag_code(Tag::U64);
    lemma_tag_code(Tag::U8);
    let n = old.len() as int;
    let h = 0x1_0000_0000_0000_0000int;
    if x.t == MachineType::I8 {
        let ops = cast_ops(CastPlan::TagU8, v, n as usize);
        let c0 = Op::Uextend(MachineType::I64, v);
        let c1 = Op::Iconst(MachineType::I64, tag_word(Tag::U8));
        let c2 = Op::Iconcat(vr(n, 0), vr(n + 1, 0));
        assert(old + ops =~= old.push(c0).push(c1).push(c2));
        lemma_run_push(old, c0, ps);
        let wx = MValue { t: MachineType::I64, bits: x.bits };
        let s1 = produce(st, seq![wx]);
        lemma_run_push(old.push(c0), c1, ps);
        let tw = MValue { t: MachineType::I64, bits: tag_code(Tag::U8) * 0x1_0000_0000_0000 };
        assert(wrap(MachineType::I64, tag_word(Tag::U8) as int) == tw);
        let s2 = produce(s1, seq![tw]);
        lemma_run_push(old.push(c0).push(c1), c2, ps);
        assert(value_of(s2, vr(n, 0)) == Some(wx));
        assert(value_of(s2, vr(n + 1, 0)) == Some(tw));
        lemma_tagged_join(x.bits as u128, tag_code(Tag::U8) as u128);
        let s3 = produce(s2, seq![MValue { t: MachineType::I128, bits: x.bits + tw.bits * h }]);
        assert(run(old + ops, ps) == Some(s3));
    }
}

/// A packed value checked to be a `U64`, run.
#[verifier::spinoff_prover]
proof fn lemma_check_u64_run(old: Seq<Op>, ps: Seq<MValue>, st: MState, v: ValueRef, x: MValue)
    requires
        run(old, ps) == Some(st),
        st.ret is None,
        st.vals.len() == old.len(),
        value_of(st, v) == Some(x),
        in_range(x),
        old.len() + 4 <= usize::MAX,
    ensures
        x.t == MachineType::I128 && tag_field(x.bits as u128) == tag_code(Tag::U64) as u128
            ==> (run(old + cast_ops(CastPlan::CheckU64, v, old.len() as usize), ps) matches Some(st2)
            && value_of(st2, cast_result(CastPlan::CheckU64, v, old.len() as usize))
                == Some(MValue { t: MachineType::I64, bits: low64(x.bits as u128) as int })),
        x.t == MachineType::I128 && tag_field(x.bits as u128) != tag_code(Tag::U64) as u128
            ==> run(old + cast_ops(CastPlan::CheckU64, v, old.len() as usize), ps) is None,
{
    lemma_tag_code(Tag::U64);
    lemma_tag_code(Tag::U8);
    let n = old.len() as int;
    let h = 0x1_0000_0000_0000_0000int;
    if x.t == MachineType::I128 {
        let ops = cast_ops(CastPlan::CheckU64, v, n as usize);
        let c0 = Op::Isplit(v);
        let c1 = Op::UshrImm(vr(n, 1), 48);
        let c2 = Op::CompareImm(IntCond::Equal, vr(n + 1, 0), tag_code(Tag::U64) as i64);
        let c3 = Op::Trapz(vr(n + 2, 0), crate::opt::TrapKind::BadConversionToInteger);
        assert(old + ops =~= old.push(c0).push(c1).push(c2).push(c3));
        let b = x.bits as u128;
        lemma_high_tag(b);
        lemma_pow2_48();
        lemma_run_push(old, c0, ps);
        let s1 = produce(st, split(x));
        lemma_run_push(old.push(c0), c1, ps);
        assert(value_of(s1, vr(n, 1)) == Some(split(x)[1]));
        let tg = MValue { t: MachineType::I64, bits: tag_field(b) as int };
        let s2 = produce(s1, seq![tg]);
        assert(run(old.push(c0).push(c1), ps) == Some(s2));
        lemma_run_push(old.push(c0).push(c1), c2, ps);
        assert(value_of(s2, vr(n + 1, 0)) == Some(tg));
        assert(tag_field(b) < 0x10000) by (bit_vector);
        let fl = flag(holds(IntCond::Equal, tg.bits, wrap(MachineType::I64, tag_code(Tag::U64) as int).bits));
        let s3 = produce(s2, seq![fl]);
        assert(run(old.push(c0).push(c1).push(c2), ps) == Some(s3));
        lemma_run_push(old.push(c0).push(c1).push(c2), c3, ps);
        assert(value_of(s3, vr(n + 2, 0)) == Some(fl));
        if tag_field(b) == tag_code(Tag::U64) as u128 {
            let s4 = produce(s3, Seq::empty());
            assert(run(old + ops, ps) == Some(s4));
            assert(value_of(s4, vr(n, 0)) == Some(split(x)[0]));
        }
    }
}

/// Converting between numbers and packed values, run after code `old`
/// that left the value `x` at `v`: a 64-bit number becomes the packed value
/// of tag `U64`, no name, and the number in its slots, and an 8-bit number
/// the one of tag `U8`; a packed value of tag `U64` becomes the 64-bit
/// number in its low half, and any other packed value traps.
pub proof fn lemma_cast_run(old: Seq<Op>, ps: Seq<MValue>, st: MState, v: ValueRef, x: MValue)
    requires
        run(old, ps) == Some(st),
        st.ret is None,
        st.vals.len() == old.len(),
        value_of(st, v) == Some(x),
        in_range(x),
        old.len() + 4 <= usize::MAX,
    ensures
        x.t == MachineType::I64 ==> (run(old + cast_ops(CastPlan::TagU64, v, old.len() as usize), ps) matches Some(st2)
            && value_of(st2, cast_result(CastPlan::TagU64, v, old.len() as usize))
                == Some(MValue { t: MachineType::I128, bits: packed(tag_code(Tag::U64) as u128, 0, x.bits as u128) as int })),
        x.t == MachineType::I8 ==> (run(old + cast_ops(CastPlan::TagU8, v, old.len() as usize), ps) matches Some(st2)
            && value_of(st2, cast_result(CastPlan::TagU8, v, old.len() as usize))
                == Some(MValue { t: MachineType::I128, bits: packed(tag_code(Tag::U8) as u128, 0, x.bits as u128) as int })),
        x.t == MachineType::I128 && tag_field(x.bits as u128) == tag_code(Tag::U64) as u128
            ==> (run(old + cast_ops(CastPlan::CheckU64, v, old.len() as usize), ps) matches Some(st2)
            && value_of(st2, cast_result(CastPlan::CheckU64, v, old.len() as usize))
                == Some(MValue { t: MachineType::I64, bits: low64(x.bits as u128) as int })),
        x.t == MachineType::I128 && tag_field(x.bits as u128) != tag_code(Tag::U64) as u128
            ==> run(old + cast_ops(CastPlan::CheckU64, v, old.len() as usize), ps) is None,
{
    lemma_tag_u64_run(old, ps, st, v, x);
    lemma_tag_u8_run(old, ps, st, v, x);
    lemma_check_u64_run(old, ps, st, v, x);
}

/// A unary constant compiled as a `Value`, run after code `old`: it gives
/// the packed value of tag `U64`, no name, and the number in its slots.
pub proof fn lemma_value_constant_run(old: Seq<Op>, ps: Seq<MValue>, st: MState, m: nat)
    requires
        run(old, ps) == Some(st),
        st.ret is None,
        st.vals.len() == old.len(),
        m <= i64::MAX,
        old.len() + 3 <= usize::MAX,
    ensures
        run(old + unary_ops(m, "Value"@, old.len() as int), ps) matches Some(st2)
            && value_of(st2, crate::opt::unary_result("Value"@, old.len() as int))
                == Some(MValue { t: MachineType::I128, bits: packed(tag_code(Tag::U64) as u128, 0, m as u128) as int }),
{
    lemma_tag_code(Tag::U64);
    let n = old.len() as int;
    let c0 = Op::Iconst(MachineType::I64, m as i64);
    let c1 = Op::Iconst(MachineType::I64, tag_word(Tag::U64));
    let c2 = Op::Iconcat(ValueRef { op: n as usize, k: 0 }, ValueRef { op: (n + 1) as usize, k: 0 });
    assert(old + unary_ops(m, "Value"@, n) =~= old.push(c0).push(c1).push(c2));
    lemma_run_push(old, c0, ps);
    let x = MValue { t: MachineType::I64, bits: m as int };
    assert(wrap(MachineType::I64, (m as i64) as int) == x);
    let s1 = produce(st, seq![x]);
    lemma_run_push(old.push(c0), c1, ps);
    let tw = MValue { t: MachineType::I64, bits: tag_code(Tag::U64) * 0x1_0000_0000_0000 };
    assert(wrap(MachineType::I64, tag_word(Tag::U64) as int) == tw);
    let s2 = produce(s1, seq![tw]);
    lemma_run_push(old.push(c0).push(c1), c2, ps);
    assert(value_of(s2, ValueRef { op: n as usize, k: 0 }) == Some(x));
    assert(value_of(s2, ValueRef { op: (n + 1) as usize, k: 0 }) == Some(tw));
    lemma_tagged_join(m as u128, tag_code(Tag::U64) as u128);
    let s3 = produce(s2, seq![MValue { t: MachineType::I128, bits: x.bits + tw.bits * 0x1_0000_0000_0000_0000 }]);
    assert(run(old + unary_ops(m, "Value"@, n), ps) == Some(s3));
}

} // verus!
