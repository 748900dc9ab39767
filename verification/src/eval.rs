//! The evaluator of the IR, which defines what programs mean.
//!
//! Its meaning is given by `eval_spec`, a big-step semantics bounded by fuel:
//! every evaluation step, and every nested evaluation, spends one unit.

use std::collections::HashMap;
use std::sync::Arc;
use vstd::prelude::*;
use crate::ast::{Value, ValueView, Error, ErrorView, error, Type, Program, FunctionDefinition, Expression, LIPart, TIPart, LHSPart, LHSLiteralPart, view_wf, view_eq, all_zero, views, debug_view, expr_span, lemma_tuple_view, lemma_views_push, push_debug, value_eq};
use crate::natural::{Natural, nat_add, nat_sub, nat_lt, nat_eq, nat_from_u64, nat_to_u32};
use crate::text::{decimal_chars, push_chars, push_decimal, str_chars, chars_to_string};

verus! {

/// A variable environment, by view.
pub type Env = Map<usize, ValueView>;

/// The view of a variable environment.
pub open spec fn env_view(m: Map<usize, Value>) -> Env {
    m.map_values(|v: Value| v@)
}

/// Every value bound in the environment is well formed.
pub open spec fn env_wf(env: Env) -> bool {
    forall|k: usize| env.contains_key(k) ==> view_wf(#[trigger] env[k])
}

// ---------------------------------------------------------------------------
// Well-formed programs: every value written into them is well formed.

/// Every value that the expression introduces literally is well formed.
pub open spec fn expr_wf<S>(e: Expression<S>) -> bool
    decreases e, 1nat,
{
    match e {
        Expression::FlatMap(_, x, t, _, _) => expr_wf(*x) && ti_wf(*t),
        Expression::ValueIntroduction(v, _, _) => view_wf(v@),
        Expression::LiteralIntroduction(lis, _, _) => forall|i: int|
            0 <= i < lis@.len() ==> li_wf(#[trigger] lis@[i]),
        Expression::TupleIntroduction(tis, _, _) => forall|i: int|
            0 <= i < tis@.len() ==> ti_wf(#[trigger] tis@[i]),
        Expression::FunctionApplication(_, es, _, _) => forall|i: int|
            0 <= i < es@.len() ==> expr_wf(#[trigger] es@[i]),
        Expression::PatternMatch(x, lrs, _, _) => expr_wf(*x) && forall|i: int|
            0 <= i < lrs@.len() ==> expr_wf((#[trigger] lrs@[i]).1),
        _ => true,
    }
}

/// A well-formed literal-introduction part.
pub open spec fn li_wf<S>(p: LIPart<S>) -> bool
    decreases p, 0nat,
{
    match p {
        LIPart::Expression(x) => expr_wf(x),
        _ => true,
    }
}

/// A well-formed tuple-introduction part.
pub open spec fn ti_wf<S>(p: TIPart<S>) -> bool
    decreases p, 0nat,
{
    match p {
        TIPart::Tuple(vs) => forall|i: int| 0 <= i < vs@.len() ==> view_wf((#[trigger] vs@[i])@),
        TIPart::Expression(x) => expr_wf(x),
        _ => true,
    }
}

/// A well-formed function definition.
pub open spec fn fn_wf<S>(f: FunctionDefinition<S>) -> bool {
    forall|i: int| 0 <= i < f.body@.len() ==> expr_wf(#[trigger] f.body@[i])
}

/// A program whose definitions and expressions are all well formed.
pub open spec fn program_wf<S>(p: Program<S>) -> bool {
    &&& forall|i: int| 0 <= i < p.functions@.len() ==> fn_wf(#[trigger] p.functions@[i])
    &&& forall|i: int| 0 <= i < p.expressions@.len() ==> expr_wf(#[trigger] p.expressions@[i])
}

// ---------------------------------------------------------------------------
// Errors.

/// A runtime error with the message `msg` at `span`.
pub open spec fn rt_error<S>(msg: Seq<char>, span: S) -> ErrorView<S> {
    ErrorView { error_type: "Runtime Error"@, error_msg: msg, span }
}

/// The message for an unbound variable.
pub open spec fn var_not_found(vi: usize) -> Seq<char> {
    "v#"@ + decimal_chars(vi as nat) + " not found"@
}

/// The message for an inlined variable that is not an untyped tuple.
pub open spec fn inline_tuple_not_found(vi: usize) -> Seq<char> {
    "inline tuple v#"@ + decimal_chars(vi as nat) + " not found"@
}

/// The message for running out of fuel.
pub open spec fn out_of_fuel() -> Seq<char> {
    "evaluation ran out of fuel"@
}

/// The message for a unary number too large to spell out as `'0'`s.
pub open spec fn unary_too_large() -> Seq<char> {
    "unary value too large to spell out"@
}

/// An error and an error view, compared: the same kind and message at a copy
/// of the same span.
pub open spec fn err_matches<S: Clone>(e: Error<S>, f: ErrorView<S>) -> bool {
    &&& e.error_type@ == f.error_type
    &&& e.error_msg@ == f.error_msg
    &&& cloned(f.span, e.span)
}

/// An evaluated value and an error, compared: the same value, or the same
/// kind and message at a copy of the same span.
pub open spec fn result_matches<S: Clone>(
    r: Result<Value, Error<S>>,
    s: Result<ValueView, ErrorView<S>>,
) -> bool {
    match (r, s) {
        (Ok(v), Ok(w)) => v@ == w,
        (Err(e), Err(f)) => err_matches(e, f),
        _ => false,
    }
}

// ---------------------------------------------------------------------------
// Patterns.

/// The position of the definition that a call of `name` reaches: the last
/// one with that name.
pub open spec fn lookup_fn<S>(fs: Seq<FunctionDefinition<S>>, name: Seq<char>) -> Option<int>
    decreases fs.len(),
{
    if fs.len() == 0 {
        None
    } else if fs[fs.len() - 1].name@ == name {
        Some(fs.len() - 1)
    } else {
        lookup_fn(fs.subrange(0, fs.len() - 1), name)
    }
}

/// A literal pattern against a value: a literal value matches when its
/// characters agree with the first ones of the pattern; a unary number
/// matches a pattern of exactly as many `'0'`s.
pub open spec fn literal_pattern_matches(lcs: Seq<char>, rv: ValueView) -> bool {
    match rv {
        ValueView::Literal(rs, re, rcs, _) => re - rs <= lcs.len() && forall|i: int|
            0 <= i < re - rs ==> #[trigger] lcs[i] == rcs[rs + i],
        ValueView::Unary(ri, _) => lcs.len() == ri && all_zero(lcs),
        _ => false,
    }
}

/// Takes the parts `parts[i..]` of a literal-unpacking pattern off the
/// unary number `lu`: what is left, or `None` where a part does not fit.
pub open spec fn unpack_parts(env: Env, parts: Seq<LHSLiteralPart>, i: int, lu: nat) -> Option<nat>
    decreases parts.len() - i,
{
    if i < 0 || i >= parts.len() {
        Some(lu)
    } else {
        match parts[i] {
            LHSLiteralPart::Literal(pcs) => if pcs@.len() > lu || !all_zero(pcs@) {
                None
            } else {
                unpack_parts(env, parts, i + 1, (lu - pcs@.len()) as nat)
            },
            LHSLiteralPart::Variable(pid) => if env.contains_key(pid) && env[pid] is Unary {
                let pu = env[pid]->Unary_0;
                if lu < pu {
                    None
                } else {
                    unpack_parts(env, parts, i + 1, (lu - pu) as nat)
                }
            } else {
                None
            },
        }
    }
}

/// Matches the value `rv` against the pattern `lhs`: whether it matches, and
/// the environment with the bindings made on the way (also when it fails).
pub open spec fn lhs_spec(env: Env, lhs: LHSPart, rv: ValueView) -> (bool, Env)
    decreases lhs, 0int,
{
    match lhs {
        LHSPart::Any => (true, env),
        LHSPart::Variable(lid) => if env.contains_key(lid) {
            (view_eq(env[lid], rv), env)
        } else {
            (true, env.insert(lid, rv))
        },
        LHSPart::Literal(lcs) => (literal_pattern_matches(lcs@, rv), env),
        LHSPart::UnpackLiteral(pre, mid, suf) => match rv {
            ValueView::Unary(n, _) => match unpack_parts(env, pre@, 0, n) {
                None => (false, env),
                Some(l1) => match unpack_parts(env, suf@, 0, l1) {
                    None => (false, env),
                    Some(l2) => match mid {
                        Some(m) => (true, env.insert(m, ValueView::Unary(l2, None))),
                        None => (l2 == 0, env),
                    },
                },
            },
            _ => (false, env),
        },
        LHSPart::Tuple(lcs) => match rv {
            ValueView::Tuple(rs, re, rts, _) => if lcs@.len() != re - rs {
                (false, env)
            } else {
                tuple_lhs_spec(env, lcs@, rts, rs as int, 0)
            },
            _ => (false, env),
        },
    }
}

/// Matches the items `rts[rs + i..]` against the patterns `ls[i..]`, in order,
/// stopping at the first that fails.
pub open spec fn tuple_lhs_spec(env: Env, ls: Seq<LHSPart>, rts: Seq<ValueView>, rs: int, i: int) -> (
    bool,
    Env,
)
    decreases ls, ls.len() - i,
{
    if i < 0 || i >= ls.len() {
        (true, env)
    } else {
        let (ok, env1) = lhs_spec(env, ls[i], rts[rs + i]);
        if !ok {
            (false, env1)
        } else {
            tuple_lhs_spec(env1, ls, rts, rs, i + 1)
        }
    }
}

/// The first arm from `i` on whose pattern matches `v`, and the environment
/// after the attempts.
pub open spec fn arms_spec<S>(env: Env, arms: Seq<(LHSPart, Expression<S>)>, i: int, v: ValueView) -> (
    Option<int>,
    Env,
)
    decreases arms.len() - i,
{
    if i < 0 || i >= arms.len() {
        (None, env)
    } else {
        let (ok, env1) = lhs_spec(env, arms[i].0, v);
        if ok {
            (Some(i), env1)
        } else {
            arms_spec(env1, arms, i + 1, v)
        }
    }
}

// ---------------------------------------------------------------------------
// Literal building.

/// `n` characters `'0'`.
pub open spec fn zeros(n: nat) -> Seq<char> {
    Seq::new(n, |i: int| '0')
}

/// Adds the characters `cs` to a literal under construction: while no other
/// character has been collected, `'0'`s count towards the unary number.
pub open spec fn ucat_chars(lui: nat, lcs: Seq<char>, cs: Seq<char>) -> (nat, Seq<char>) {
    if lcs.len() == 0 && all_zero(cs) {
        ((lui + cs.len()) as nat, lcs)
    } else {
        (lui, lcs + cs)
    }
}

/// Adds the unary number `u` to a literal under construction: to the count
/// while no character has been collected, else as `u` characters `'0'`
/// (`None` when `u` does not fit in a `u32`).
pub open spec fn ucat_unary(lui: nat, lcs: Seq<char>, u: nat) -> Option<(nat, Seq<char>)> {
    if lcs.len() == 0 {
        Some(((lui + u) as nat, lcs))
    } else if u <= u32::MAX {
        Some((lui, lcs + zeros(u)))
    } else {
        None
    }
}

/// The literal that a finished construction stands for.
pub open spec fn literal_result(lui: nat, lcs: Seq<char>) -> ValueView {
    if lcs.len() == 0 {
        ValueView::Unary(lui, None)
    } else {
        ValueView::Literal(0, lcs.len(), lcs, None)
    }
}

// ---------------------------------------------------------------------------
// The evaluation semantics.

/// What one evaluation step leads to.
pub enum Step<S> {
    /// The evaluation has its result.
    Done(Result<ValueView, ErrorView<S>>),
    /// The evaluation goes on with this expression in the same environment.
    Continue(Expression<S>),
    /// The evaluation goes on with this expression in a fresh environment.
    Enter(Env, Expression<S>),
}

/// The result of evaluating `e` in `env` with `fuel`, and the environment
/// afterwards.
pub open spec fn eval_spec<S>(fuel: nat, p: Program<S>, env: Env, e: Expression<S>) -> (
    Result<ValueView, ErrorView<S>>,
    Env,
)
    decreases fuel, 6nat, 0int,
{
    if fuel == 0 {
        (Err(rt_error(out_of_fuel(), expr_span(e))), env)
    } else {
        let (st, env1) = step_spec(fuel, p, env, e);
        match st {
            Step::Done(r) => (r, env1),
            Step::Continue(e2) => eval_spec((fuel - 1) as nat, p, env1, e2),
            Step::Enter(env2, e2) => (eval_spec((fuel - 1) as nat, p, env2, e2).0, env1),
        }
    }
}

/// The parameters of a function bound to the arguments, in order.
pub open spec fn bind_args(args: Seq<(usize, Type)>, ps: Seq<ValueView>, n: int) -> Env
    decreases n,
{
    if n <= 0 {
        Map::empty()
    } else {
        bind_args(args, ps, n - 1).insert(args[n - 1].0, ps[n - 1])
    }
}

/// One evaluation step of `e`.
pub open spec fn step_spec<S>(fuel: nat, p: Program<S>, env: Env, e: Expression<S>) -> (Step<S>, Env)
    decreases fuel, 5nat, 0int,
{
    if fuel == 0 {
        (Step::Done(Err(rt_error(out_of_fuel(), expr_span(e)))), env)
    } else {
        match e {
            Expression::ValueIntroduction(v, _, _) => (Step::Done(Ok(v@)), env),
            Expression::LiteralIntroduction(lps, _, span) => {
                let (r, env1) = li_case(fuel, p, env, lps@, span);
                (Step::Done(r), env1)
            },
            Expression::TupleIntroduction(tps, _, span) => {
                let (r, env1) = ti_case(fuel, p, env, tps@, span);
                (Step::Done(r), env1)
            },
            Expression::FunctionReference(fi, _, _) => (
                Step::Done(Ok(ValueView::Function(fi@, None))),
                env,
            ),
            Expression::VariableReference(li, _, span) => if env.contains_key(li) {
                (Step::Done(Ok(env[li])), env)
            } else {
                (Step::Done(Err(rt_error(var_not_found(li), span))), env)
            },
            Expression::FunctionApplication(fi, pxs, _, span) => apply_case(
                fuel,
                p,
                env,
                fi@,
                pxs@,
                span,
            ),
            Expression::PatternMatch(re, lrs, _, span) => pattern_case(fuel, p, env, *re, lrs@, span),
            Expression::Failure(_, span) => (Step::Done(Err(rt_error("failure"@, span))), env),
            Expression::FlatMap(lhs, me, x, _, span) => {
                let (r, env1) = map_case(fuel, p, env, *lhs, *me, *x, span);
                (Step::Done(r), env1)
            },
        }
    }
}

/// A literal introduction: a single literal part as it is; any other parts
/// built up in order.
pub open spec fn li_case<S>(fuel: nat, p: Program<S>, env: Env, lps: Seq<LIPart<S>>, span: S) -> (
    Result<ValueView, ErrorView<S>>,
    Env,
)
    decreases fuel, 4nat, 0int,
{
    if lps.len() == 1 && lps[0] is Literal {
        let cs = lps[0]->Literal_0@;
        (Ok(ValueView::Literal(0, cs.len(), cs, None)), env)
    } else {
        let (r, env1) = li_fold(fuel, p, env, lps, 0, 0, Seq::empty(), span);
        match r {
            Ok((lui, lcs)) => (Ok(literal_result(lui, lcs)), env1),
            Err(er) => (Err(er), env1),
        }
    }
}

/// A tuple introduction: a single tuple part shares its values; any other
/// parts are collected in order.
pub open spec fn ti_case<S>(fuel: nat, p: Program<S>, env: Env, tps: Seq<TIPart<S>>, span: S) -> (
    Result<ValueView, ErrorView<S>>,
    Env,
)
    decreases fuel, 4nat, 0int,
{
    if tps.len() == 1 && tps[0] is Tuple {
        let vs = views(tps[0]->Tuple_0@);
        (Ok(ValueView::Tuple(0, vs.len(), vs, None)), env)
    } else {
        let (r, env1) = ti_fold(fuel, p, env, tps, 0, Seq::empty(), span);
        match r {
            Ok(tcs) => (Ok(ValueView::Tuple(0, tcs.len(), tcs, None)), env1),
            Err(er) => (Err(er), env1),
        }
    }
}

/// A function application: the arguments are evaluated in order in the
/// caller's environment; the body runs in a fresh environment binding the
/// parameters, and its last expression gives the result.
pub open spec fn apply_case<S>(
    fuel: nat,
    p: Program<S>,
    env: Env,
    fi: Seq<char>,
    pxs: Seq<Expression<S>>,
    span: S,
) -> (Step<S>, Env)
    decreases fuel, 4nat, 0int,
{
    match lookup_fn(p.functions@, fi) {
        None => (Step::Done(Err(rt_error("f#"@ + fi + " undefined"@, span))), env),
        Some(k) => {
            let f = p.functions@[k];
            if pxs.len() != f.args@.len() {
                (Step::Done(Err(rt_error("f#"@ + fi + " called with wrong arity"@, span))), env)
            } else {
                let (ra, env1) = args_fold(fuel, p, env, pxs, 0, Seq::empty());
                match ra {
                    Err(er) => (Step::Done(Err(er)), env1),
                    Ok(ps) => {
                        let nenv = bind_args(f.args@, ps, ps.len() as int);
                        if f.body@.len() == 0 {
                            (Step::Done(Ok(ValueView::Tuple(0, 0, Seq::empty(), None))), env1)
                        } else {
                            let (rb, nenv2) = body_fold(fuel, p, nenv, f.body@, 0);
                            match rb {
                                Err(er) => (Step::Done(Err(er)), env1),
                                Ok(_) => (Step::Enter(nenv2, f.body@[f.body@.len() - 1]), env1),
                            }
                        }
                    },
                }
            }
        },
    }
}

/// A pattern match: the value is matched against the arms in order, and the
/// evaluation goes on with the first arm that matches.
pub open spec fn pattern_case<S>(
    fuel: nat,
    p: Program<S>,
    env: Env,
    re: Expression<S>,
    lrs: Seq<(LHSPart, Expression<S>)>,
    span: S,
) -> (Step<S>, Env)
    decreases fuel, 4nat, 0int,
{
    if fuel == 0 {
        (Step::Done(Err(rt_error(out_of_fuel(), span))), env)
    } else {
        let (rv, env1) = eval_spec((fuel - 1) as nat, p, env, re);
        match rv {
            Err(er) => (Step::Done(Err(er)), env1),
            Ok(v) => {
                let (m, env2) = arms_spec(env1, lrs, 0, v);
                match m {
                    Some(k) => (Step::Continue(lrs[k].1), env2),
                    None => (
                        Step::Done(Err(rt_error("pattern did not match on "@ + debug_view(v), span))),
                        env2,
                    ),
                }
            },
        }
    }
}

/// A map: the part `x` is collected for each item of the tuple that `me`
/// evaluates to; a body in the guard form `cond ? 1 => y` collects `y` only
/// for the items whose condition matches `1`, and skips the others.
pub open spec fn map_case<S>(
    fuel: nat,
    p: Program<S>,
    env: Env,
    lhs: LHSPart,
    me: Expression<S>,
    x: TIPart<S>,
    span: S,
) -> (Result<ValueView, ErrorView<S>>, Env)
    decreases fuel, 4nat, 0int,
{
    if fuel == 0 {
        (Err(rt_error(out_of_fuel(), span)), env)
    } else {
        let (rv, env1) = eval_spec((fuel - 1) as nat, p, env, me);
        match rv {
            Err(er) => (Err(er), env1),
            Ok(ValueView::Tuple(s, e, vs, _)) => {
                let (r, env2) = map_fold(fuel, p, env1, lhs, x, vs, s as int, e as int, Seq::empty(), span);
                match r {
                    Ok(acc) => (Ok(ValueView::Tuple(0, acc.len(), acc, None)), env2),
                    Err(er) => (Err(er), env2),
                }
            },
            Ok(_) => (Err(rt_error("map over a value that is not a tuple"@, span)), env1),
        }
    }
}

/// Builds a literal from the parts `lps[i..]`.
pub open spec fn li_fold<S>(
    fuel: nat,
    p: Program<S>,
    env: Env,
    lps: Seq<LIPart<S>>,
    i: int,
    lui: nat,
    lcs: Seq<char>,
    span: S,
) -> (Result<(nat, Seq<char>), ErrorView<S>>, Env)
    decreases fuel, 2nat, lps.len() - i,
{
    if fuel == 0 {
        (Err(rt_error(out_of_fuel(), span)), env)
    } else if i < 0 || i >= lps.len() {
        (Ok((lui, lcs)), env)
    } else {
        match lps[i] {
            LIPart::Literal(cs) => {
                let (l2, c2) = ucat_chars(lui, lcs, cs@);
                li_fold(fuel, p, env, lps, i + 1, l2, c2, span)
            },
            LIPart::InlineVariable(vi) => if env.contains_key(vi) {
                match env[vi] {
                    ValueView::Literal(vs, ve, vcs, _) => {
                        let (l2, c2) = ucat_chars(lui, lcs, vcs.subrange(vs as int, ve as int));
                        li_fold(fuel, p, env, lps, i + 1, l2, c2, span)
                    },
                    ValueView::Unary(u, _) => match ucat_unary(lui, lcs, u) {
                        Some((l2, c2)) => li_fold(fuel, p, env, lps, i + 1, l2, c2, span),
                        None => (Err(rt_error(unary_too_large(), span)), env),
                    },
                    _ => (Err(rt_error(var_not_found(vi), span)), env),
                }
            } else {
                (Err(rt_error(var_not_found(vi), span)), env)
            },
            LIPart::Expression(pe) => {
                let (r, env1) = eval_spec((fuel - 1) as nat, p, env, pe);
                match r {
                    Err(er) => (Err(er), env1),
                    Ok(ValueView::Literal(vs, ve, vcs, _)) => {
                        let (l2, c2) = ucat_chars(lui, lcs, vcs.subrange(vs as int, ve as int));
                        li_fold(fuel, p, env1, lps, i + 1, l2, c2, span)
                    },
                    Ok(ValueView::Unary(u, _)) => match ucat_unary(lui, lcs, u) {
                        Some((l2, c2)) => li_fold(fuel, p, env1, lps, i + 1, l2, c2, span),
                        None => (Err(rt_error(unary_too_large(), span)), env1),
                    },
                    Ok(_) => (Err(rt_error("invalid literal expression"@, span)), env1),
                }
            },
        }
    }
}

/// Adds the items of the tuple-introduction part `tp` to `acc`.
pub open spec fn ti_part<S>(fuel: nat, p: Program<S>, env: Env, tp: TIPart<S>, acc: Seq<ValueView>, span: S) -> (
    Result<Seq<ValueView>, ErrorView<S>>,
    Env,
)
    decreases fuel, 1nat, 0int,
{
    if fuel == 0 {
        (Err(rt_error(out_of_fuel(), span)), env)
    } else {
        match tp {
            TIPart::Tuple(vs) => (Ok(acc + views(vs@)), env),
            TIPart::Variable(vi) => if env.contains_key(vi) {
                (Ok(acc.push(env[vi])), env)
            } else {
                (Err(rt_error(var_not_found(vi), span)), env)
            },
            TIPart::InlineVariable(vi) => if env.contains_key(vi) && env[vi] is Tuple
                && env[vi]->Tuple_3 is None {
                let t = env[vi];
                (Ok(acc + t->Tuple_2.subrange(t->Tuple_0 as int, t->Tuple_1 as int)), env)
            } else {
                (Err(rt_error(inline_tuple_not_found(vi), span)), env)
            },
            TIPart::Expression(te) => {
                let (r, env1) = eval_spec((fuel - 1) as nat, p, env, te);
                match r {
                    Err(er) => (Err(er), env1),
                    Ok(v) => (Ok(acc.push(v)), env1),
                }
            },
        }
    }
}

/// Collects the items of the parts `tps[i..]` after `acc`.
pub open spec fn ti_fold<S>(
    fuel: nat,
    p: Program<S>,
    env: Env,
    tps: Seq<TIPart<S>>,
    i: int,
    acc: Seq<ValueView>,
    span: S,
) -> (Result<Seq<ValueView>, ErrorView<S>>, Env)
    decreases fuel, 2nat, tps.len() - i,
{
    if i < 0 || i >= tps.len() {
        (Ok(acc), env)
    } else {
        let (r, env1) = ti_part(fuel, p, env, tps[i], acc, span);
        match r {
            Err(er) => (Err(er), env1),
            Ok(acc2) => ti_fold(fuel, p, env1, tps, i + 1, acc2, span),
        }
    }
}

/// Evaluates the arguments `xs[i..]`, in order, after `acc`.
pub open spec fn args_fold<S>(
    fuel: nat,
    p: Program<S>,
    env: Env,
    xs: Seq<Expression<S>>,
    i: int,
    acc: Seq<ValueView>,
) -> (Result<Seq<ValueView>, ErrorView<S>>, Env)
    decreases fuel, 2nat, xs.len() - i,
{
    if fuel == 0 || i < 0 || i >= xs.len() {
        (Ok(acc), env)
    } else {
        let (r, env1) = eval_spec((fuel - 1) as nat, p, env, xs[i]);
        match r {
            Err(er) => (Err(er), env1),
            Ok(v) => args_fold(fuel, p, env1, xs, i + 1, acc.push(v)),
        }
    }
}

/// Evaluates the body expressions `body[i..]` but the last, in order, for
/// their effect on the environment.
pub open spec fn body_fold<S>(fuel: nat, p: Program<S>, env: Env, body: Seq<Expression<S>>, i: int) -> (
    Result<(), ErrorView<S>>,
    Env,
)
    decreases fuel, 2nat, body.len() - i,
{
    if fuel == 0 || i < 0 || i + 1 >= body.len() {
        (Ok(()), env)
    } else {
        let (r, env1) = eval_spec((fuel - 1) as nat, p, env, body[i]);
        match r {
            Err(er) => (Err(er), env1),
            Ok(_) => body_fold(fuel, p, env1, body, i + 1),
        }
    }
}

/// Maps over the items `vs[k..e]`: binds each with `lhs` (which must be a
/// variable or `_`) and collects the items of the part `x`.
pub open spec fn map_fold<S>(
    fuel: nat,
    p: Program<S>,
    env: Env,
    lhs: LHSPart,
    x: TIPart<S>,
    vs: Seq<ValueView>,
    k: int,
    e: int,
    acc: Seq<ValueView>,
    span: S,
) -> (Result<Seq<ValueView>, ErrorView<S>>, Env)
    decreases fuel, 3nat, e - k,
{
    if fuel == 0 || k >= e {
        (Ok(acc), env)
    } else {
        let env1 = match lhs {
            LHSPart::Variable(vi) => env.insert(vi, vs[k]),
            _ => env,
        };
        if !(lhs is Any || lhs is Variable) {
            (Err(rt_error("map binding must be a variable or _"@, span)), env)
        } else {
            let (r, env2) = if is_guard_part(x) {
                guarded_part(fuel, p, env1, x, acc)
            } else {
                ti_part(fuel, p, env1, x, acc, span)
            };
            match r {
                Err(er) => (Err(er), env2),
                Ok(acc2) => map_fold(fuel, p, env2, lhs, x, vs, k + 1, e, acc2, span),
            }
        }
    }
}


/// The body of a map in the guard form `cond ? 1 => y`: a pattern match
/// with the single arm `1`.
pub open spec fn is_guard_part<S>(x: TIPart<S>) -> bool {
    x matches TIPart::Expression(te) && crate::opt::is_guarded(te)
}

/// One item of a map whose body has the guard form `cond ? 1 => y`: the
/// condition is evaluated; where it matches `1`, `y` is evaluated and
/// collected after `acc`, else the item is skipped.
pub open spec fn guarded_part<S>(fuel: nat, p: Program<S>, env: Env, x: TIPart<S>, acc: Seq<ValueView>) -> (
    Result<Seq<ValueView>, ErrorView<S>>,
    Env,
)
    decreases fuel, 1nat, 0int,
{
    match x {
        TIPart::Expression(Expression::PatternMatch(gc, arms, _, span)) => if fuel == 0 {
            (Err(rt_error(out_of_fuel(), span)), env)
        } else {
            let (rg, env1) = eval_spec((fuel - 1) as nat, p, env, *gc);
            match rg {
                Err(er) => (Err(er), env1),
                Ok(g) => {
                    let (m, env2) = lhs_spec(env1, arms@[0].0, g);
                    if m {
                        let (ry, env3) = eval_spec((fuel - 1) as nat, p, env2, arms@[0].1);
                        match ry {
                            Err(er) => (Err(er), env3),
                            Ok(y) => (Ok(acc.push(y)), env3),
                        }
                    } else {
                        (Ok(acc), env2)
                    }
                },
            }
        },
        _ => (Ok(acc), env),
    }
}

/// The environment a program starts in: variable `i` holds the argument `i`.
pub open spec fn top_env(args: Seq<ValueView>, n: int) -> Env
    decreases n,
{
    if n <= 0 {
        Map::empty()
    } else {
        top_env(args, n - 1).insert((n - 1) as usize, args[n - 1])
    }
}

/// The empty tuple, the value of a program with no expressions.
pub open spec fn unit_view() -> ValueView {
    ValueView::Tuple(0, 0, Seq::empty(), None)
}

/// Evaluates the top-level expressions `p.expressions[i..]` in order, in one
/// shared environment, each with `fuel`: the value of the last one (`last`
/// when none is left), or the first error.
pub open spec fn program_spec<S>(fuel: nat, p: Program<S>, env: Env, i: int, last: ValueView) -> Result<
    ValueView,
    ErrorView<S>,
>
    decreases p.expressions@.len() - i,
{
    if i < 0 || i >= p.expressions@.len() {
        Ok(last)
    } else {
        let (r, env1) = eval_spec(fuel, p, env, p.expressions@[i]);
        match r {
            Err(er) => Err(er),
            Ok(v) => program_spec(fuel, p, env1, i + 1, v),
        }
    }
}

/// The fuel that each top-level expression is evaluated with.
pub open spec fn top_fuel() -> nat {
    u64::MAX as nat
}

/// What evaluating the program `p` on the arguments `args` gives.
pub open spec fn run_spec<S>(p: Program<S>, args: Seq<ValueView>) -> Result<ValueView, ErrorView<S>> {
    program_spec(top_fuel(), p, top_env(args, args.len() as int), 0, unit_view())
}


// ---------------------------------------------------------------------------
// Execution.

broadcast use vstd::std_specs::hash::group_hash_axioms;

/// The value bound to `k`, if any.
fn env_get<'a>(m: &'a HashMap<usize, Value>, k: usize) -> (res: Option<&'a Value>)
    ensures
        match res {
            Some(v) => m@.contains_key(k) && *v == m@[k],
            None => !m@.contains_key(k),
        },
{
    m.get(&k)
}

/// Binds `k` to `v`.
fn env_insert(m: &mut HashMap<usize, Value>, k: usize, v: Value)
    ensures
        final(m)@ == old(m)@.insert(k, v),
        env_view(final(m)@) == env_view(old(m)@).insert(k, v@),
{
    m.insert(k, v);
    assert(env_view(m@) =~= env_view(old(m)@).insert(k, v@));
}

/// Takes the parts of a literal-unpacking pattern off `lu`, as `unpack_parts`
/// states it.
#[verifier::loop_isolation(false)]
fn unpack(lctx: &HashMap<usize, Value>, parts: &Vec<LHSLiteralPart>, lu: Natural) -> (res: Option<
    Natural,
>)
    ensures
        match (res, unpack_parts(env_view(lctx@), parts@, 0, lu@)) {
            (Some(a), Some(b)) => a@ == b,
            (None, None) => true,
            _ => false,
        },
{
    let ghost env = env_view(lctx@);
    let mut lu = lu;
    let ghost lu0 = lu@;
    let mut k: usize = 0;
    while k < parts.len()
        invariant
            k <= parts@.len(),
            unpack_parts(env, parts@, 0, lu0) == unpack_parts(env, parts@, k as int, lu@),
        decreases parts@.len() - k,
    {
        match &parts[k] {
            LHSLiteralPart::Literal(pcs) => {
                let pcs = str_chars(pcs.as_str());
                let n = nat_from_u64(pcs.len() as u64);
                if nat_lt(&lu, &n) {
                    return None;
                }
                let mut z: usize = 0;
                while z < pcs.len()
                    invariant
                        z <= pcs@.len(),
                        forall|j: int| 0 <= j < z ==> pcs@[j] == '0',
                    decreases pcs@.len() - z,
                {
                    if pcs[z] != '0' {
                        return None;
                    }
                    z = z + 1;
                }
                lu = nat_sub(&lu, &n);
            },
            LHSLiteralPart::Variable(pid) => {
                match env_get(lctx, *pid) {
                    Some(Value::Unary(pu, _)) => {
                        if nat_lt(&lu, pu) {
                            return None;
                        }
                        lu = nat_sub(&lu, pu);
                    },
                    _ => {
                        return None;
                    },
                }
            },
        }
        k = k + 1;
    }
    Some(lu)
}

/// Matches `rval` against `lhs`, binding the variables of the pattern in
/// `lctx` on the way, as `lhs_spec` states it.
#[verifier::loop_isolation(false)]
pub fn eval_lhs<S>(lctx: &mut HashMap<usize, Value>, pctx: &Program<S>, lhs: &LHSPart, rval: &Value) -> (res: bool)
    requires
        view_wf(rval@),
        env_wf(env_view(old(lctx)@)),
    ensures
        res == lhs_spec(env_view(old(lctx)@), *lhs, rval@).0,
        env_view(final(lctx)@) == lhs_spec(env_view(old(lctx)@), *lhs, rval@).1,
        env_wf(env_view(final(lctx)@)),
    decreases lhs,
{
    match lhs {
        LHSPart::Any => true,
        LHSPart::Variable(lid) => {
            if let Some(lval) = env_get(lctx, *lid) {
                return value_eq(lval, rval);
            }
            env_insert(lctx, *lid, rval.clone());
            true
        },
        LHSPart::Literal(lcs) => {
            let lcs = str_chars(lcs.as_str());
            match rval {
                Value::Literal(rs, re, rcs, _) => {
                    let n = *re - *rs;
                    if n > lcs.len() {
                        return false;
                    }
                    let mut li: usize = 0;
                    while li < n
                        invariant
                            li <= n,
                            forall|j: int| 0 <= j < li ==> #[trigger] lcs@[j] == rcs@[*rs + j],
                        decreases n - li,
                    {
                        if lcs[li] != rcs[*rs + li] {
                            return false;
                        }
                        li = li + 1;
                    }
                    true
                },
                Value::Unary(ri, _) => {
                    let n = nat_from_u64(lcs.len() as u64);
                    if !nat_eq(&n, ri) {
                        return false;
                    }
                    let mut li: usize = 0;
                    while li < lcs.len()
                        invariant
                            li <= lcs@.len(),
                            forall|j: int| 0 <= j < li ==> lcs@[j] == '0',
                        decreases lcs@.len() - li,
                    {
                        if lcs[li] != '0' {
                            return false;
                        }
                        li = li + 1;
                    }
                    true
                },
                _ => false,
            }
        },
        LHSPart::UnpackLiteral(prel, midl, sufl) => {
            match rval {
                Value::Unary(lu, _) => {
                    let l1 = match unpack(lctx, prel, lu.clone()) {
                        Some(l1) => l1,
                        None => {
                            return false;
                        },
                    };
                    let l2 = match unpack(lctx, sufl, l1) {
                        Some(l2) => l2,
                        None => {
                            return false;
                        },
                    };
                    match midl {
                        Some(m) => {
                            env_insert(lctx, *m, Value::Unary(l2, None));
                            true
                        },
                        None => {
                            let z = nat_from_u64(0);
                            nat_eq(&l2, &z)
                        },
                    }
                },
                _ => false,
            }
        },
        LHSPart::Tuple(lcs) => {
            match rval {
                Value::Tuple(rs, re, rts, rt) => {
                    proof {
                        lemma_tuple_view(*rs, *re, *rts, *rt);
                    }
                    if lcs.len() != *re - *rs {
                        return false;
                    }
                    let ghost env0 = env_view(old(lctx)@);
                    let mut li: usize = 0;
                    while li < lcs.len()
                        invariant
                            li <= lcs@.len(),
                            lcs@.len() == *re - *rs,
                            env_wf(env_view(lctx@)),
                            tuple_lhs_spec(env0, lcs@, views(rts@), *rs as int, 0)
                                == tuple_lhs_spec(env_view(lctx@), lcs@, views(rts@), *rs as int, li as int),
                        decreases lcs@.len() - li,
                    {
                        assert(decreases_to!(*lhs => lhs->Tuple_0));
                        assert(decreases_to!(lhs->Tuple_0 => lhs->Tuple_0@));
                        assert(decreases_to!(lhs->Tuple_0@ => lhs->Tuple_0@[li as int]));
                        assert(views(rts@)[*rs + li] == rts@[*rs + li]@);
                        if !eval_lhs(lctx, pctx, &lcs[li], &rts[*rs + li]) {
                            return false;
                        }
                        li = li + 1;
                    }
                    true
                },
                _ => false,
            }
        },
    }
}


/// A runtime error with the message `msg` at a copy of `span`.
fn runtime_error<S: Clone>(msg: &Vec<char>, span: &S) -> (res: Error<S>)
    ensures
        res.error_type@ == "Runtime Error"@,
        res.error_msg@ == msg@,
        cloned(*span, res.span),
{
    error("Runtime Error", chars_to_string(msg).as_str(), span)
}

/// The message `prefix` + the decimal digits of `vi` + `suffix`.
fn numbered_message(prefix: &str, vi: usize, suffix: &str) -> (res: Vec<char>)
    ensures
        res@ == prefix@ + decimal_chars(vi as nat) + suffix@,
{
    let mut msg: Vec<char> = Vec::new();
    push_chars(&mut msg, &str_chars(prefix));
    push_decimal(&mut msg, vi as u128);
    push_chars(&mut msg, &str_chars(suffix));
    assert(msg@ =~= prefix@ + decimal_chars(vi as nat) + suffix@);
    msg
}

/// The message `prefix` + `name` + `suffix`.
fn named_message(prefix: &str, name: &String, suffix: &str) -> (res: Vec<char>)
    ensures
        res@ == prefix@ + name@ + suffix@,
{
    let mut msg: Vec<char> = Vec::new();
    push_chars(&mut msg, &str_chars(prefix));
    push_chars(&mut msg, &str_chars(name.as_str()));
    push_chars(&mut msg, &str_chars(suffix));
    assert(msg@ =~= prefix@ + name@ + suffix@);
    msg
}

/// The span of an expression.
fn span_of<S>(e: &Expression<S>) -> (res: &S)
    ensures
        *res == expr_span(*e),
{
    match e {
        Expression::FlatMap(_, _, _, _, s) => s,
        Expression::ValueIntroduction(_, _, s) => s,
        Expression::LiteralIntroduction(_, _, s) => s,
        Expression::TupleIntroduction(_, _, s) => s,
        Expression::VariableReference(_, _, s) => s,
        Expression::FunctionReference(_, _, s) => s,
        Expression::FunctionApplication(_, _, _, s) => s,
        Expression::PatternMatch(_, _, _, s) => s,
        Expression::Failure(_, s) => s,
    }
}

/// Adds the characters `v[vs..ve]` to a literal under construction, as
/// `ucat_chars` states it.
fn ucatcs(lui: &mut Natural, lcs: &mut Vec<char>, vs: usize, ve: usize, v: &Vec<char>)
    requires
        vs <= ve <= v@.len(),
    ensures
        (final(lui)@, final(lcs)@) == ucat_chars(old(lui)@, old(lcs)@, v@.subrange(vs as int, ve as int)),
{
    let ghost cs = v@.subrange(vs as int, ve as int);
    let mut unary = lcs.len() == 0;
    if unary {
        let mut vi = vs;
        while vi < ve
            invariant
                vs <= vi <= ve <= v@.len(),
                cs == v@.subrange(vs as int, ve as int),
                unary == forall|j: int| vs <= j < vi ==> v@[j] == '0',
            decreases ve - vi,
        {
            if v[vi] != '0' {
                unary = false;
            }
            vi = vi + 1;
        }
        proof {
            if unary {
                assert forall|j: int| 0 <= j < cs.len() implies cs[j] == '0' by {
                    assert(cs[j] == v@[vs + j]);
                }
            } else {
                let j = choose|j: int| vs <= j < ve && v@[j] != '0';
                assert(cs[j - vs] == v@[j]);
            }
        }
        if unary {
            let n = nat_from_u64((ve - vs) as u64);
            *lui = nat_add(lui, &n);
        }
    }
    if !unary {
        let ghost before = lcs@;
        let mut vi = vs;
        while vi < ve
            invariant
                vs <= vi <= ve <= v@.len(),
                lcs@ == before + v@.subrange(vs as int, vi as int),
            decreases ve - vi,
        {
            lcs.push(v[vi]);
            vi = vi + 1;
            assert(lcs@ =~= before + v@.subrange(vs as int, vi as int));
        }
    }
}

/// Adds the unary number `u` to a literal under construction, as `ucat_unary`
/// states it; `false` where that has no result.
fn ucatu(lui: &mut Natural, lcs: &mut Vec<char>, u: &Natural) -> (res: bool)
    ensures
        match ucat_unary(old(lui)@, old(lcs)@, u@) {
            Some((l2, c2)) => res && final(lui)@ == l2 && final(lcs)@ == c2,
            None => !res,
        },
{
    if lcs.len() == 0 {
        *lui = nat_add(lui, u);
        true
    } else {
        match nat_to_u32(u) {
            Some(n) => {
                let ghost before = lcs@;
                let mut k: u32 = 0;
                while k < n
                    invariant
                        k <= n,
                        lcs@ == before + zeros(k as nat),
                    decreases n - k,
                {
                    lcs.push('0');
                    k = k + 1;
                    assert(lcs@ =~= before + zeros(k as nat));
                }
                true
            },
            None => false,
        }
    }
}

/// The position of the definition that a call of `name` reaches.
pub fn find_function<S>(fs: &Vec<FunctionDefinition<S>>, name: &String) -> (res: Option<usize>)
    ensures
        match res {
            Some(k) => k < fs@.len() && lookup_fn(fs@, name@) == Some(k as int),
            None => lookup_fn(fs@, name@) is None,
        },
{
    let mut k = fs.len();
    assert(fs@.subrange(0, k as int) =~= fs@);
    while k > 0
        invariant
            k <= fs@.len(),
            lookup_fn(fs@, name@) == lookup_fn(fs@.subrange(0, k as int), name@),
        decreases k,
    {
        if fs[k - 1].name == *name {
            return Some(k - 1);
        }
        assert(fs@.subrange(0, k as int).subrange(0, k - 1) =~= fs@.subrange(0, k - 1));
        k = k - 1;
    }
    None
}

/// The result of one step of execution.
enum Stepped<'a, S> {
    Done(Result<Value, Error<S>>),
    Continue(&'a Expression<S>),
    Enter(HashMap<usize, Value>, &'a Expression<S>),
}

/// An executed step agrees with a step of the semantics.
spec fn step_matches<S: Clone>(st: Stepped<'_, S>, sp: Step<S>) -> bool {
    match (st, sp) {
        (Stepped::Done(r), Step::Done(s)) => result_matches(r, s),
        (Stepped::Continue(e1), Step::Continue(e2)) => *e1 == e2,
        (Stepped::Enter(m, e1), Step::Enter(env, e2)) => env_view(m@) == env && *e1 == e2,
        _ => false,
    }
}

/// What every executed step leaves well formed.
spec fn step_wf<S>(st: Stepped<'_, S>) -> bool {
    match st {
        Stepped::Done(Ok(v)) => view_wf(v@),
        Stepped::Done(Err(_)) => true,
        Stepped::Continue(e) => expr_wf(*e),
        Stepped::Enter(m, e) => env_wf(env_view(m@)) && expr_wf(*e),
    }
}

/// Evaluates `e` in `lctx`, as `eval_spec` states it.
pub fn eval_e<S: Clone>(lctx: &mut HashMap<usize, Value>, pctx: &Program<S>, e: &Expression<S>, fuel: u64) -> (res: Result<Value, Error<S>>)
    requires
        program_wf(*pctx),
        expr_wf(*e),
        env_wf(env_view(old(lctx)@)),
    ensures
        result_matches(res, eval_spec(fuel as nat, *pctx, env_view(old(lctx)@), *e).0),
        env_view(final(lctx)@) == eval_spec(fuel as nat, *pctx, env_view(old(lctx)@), *e).1,
        env_wf(env_view(final(lctx)@)),
        res is Ok ==> view_wf(res->Ok_0@),
    decreases fuel, 6nat,
{
    let ghost env0 = env_view(old(lctx)@);
    let ghost fuel0 = fuel as nat;
    let ghost e0 = *e;
    let mut cur = e;
    let mut left = fuel;
    loop
        invariant
            program_wf(*pctx),
            expr_wf(*cur),
            env_wf(env_view(lctx@)),
            left <= fuel0,
            fuel0 == fuel as nat,
            e0 == *e,
            env0 == env_view(old(lctx)@),
            eval_spec(fuel0, *pctx, env0, e0) == eval_spec(left as nat, *pctx, env_view(lctx@), *cur),
        decreases left,
    {
        if left == 0 {
            return Err(runtime_error(&str_chars("evaluation ran out of fuel"), span_of(cur)));
        }
        match step(lctx, pctx, cur, left) {
            Stepped::Done(r) => {
                return r;
            },
            Stepped::Continue(e2) => {
                cur = e2;
                left = left - 1;
            },
            Stepped::Enter(m, e2) => {
                return eval_tail(m, pctx, e2, left - 1);
            },
        }
    }
}

/// Evaluates `e` in its own environment `lctx`, as `eval_spec` states it.
fn eval_tail<S: Clone>(lctx: HashMap<usize, Value>, pctx: &Program<S>, e: &Expression<S>, fuel: u64) -> (res: Result<Value, Error<S>>)
    requires
        program_wf(*pctx),
        expr_wf(*e),
        env_wf(env_view(lctx@)),
    ensures
        result_matches(res, eval_spec(fuel as nat, *pctx, env_view(lctx@), *e).0),
        res is Ok ==> view_wf(res->Ok_0@),
    decreases fuel, 6nat,
{
    let ghost env0 = env_view(lctx@);
    let ghost fuel0 = fuel as nat;
    let ghost e0 = *e;
    let mut env = lctx;
    let mut cur = e;
    let mut left = fuel;
    loop
        invariant
            program_wf(*pctx),
            expr_wf(*cur),
            env_wf(env_view(env@)),
            left <= fuel0,
            fuel0 == fuel as nat,
            e0 == *e,
            env0 == env_view(lctx@),
            eval_spec(fuel0, *pctx, env0, e0).0 == eval_spec(left as nat, *pctx, env_view(env@), *cur).0,
        decreases left,
    {
        if left == 0 {
            return Err(runtime_error(&str_chars("evaluation ran out of fuel"), span_of(cur)));
        }
        match step(&mut env, pctx, cur, left) {
            Stepped::Done(r) => {
                return r;
            },
            Stepped::Continue(e2) => {
                cur = e2;
                left = left - 1;
            },
            Stepped::Enter(m, e2) => {
                env = m;
                cur = e2;
                left = left - 1;
            },
        }
    }
}

/// One step of execution, as `step_spec` states it.
fn step<'a, S: Clone>(lctx: &mut HashMap<usize, Value>, pctx: &'a Program<S>, e: &'a Expression<S>, fuel: u64) -> (res: Stepped<'a, S>)
    requires
        fuel > 0,
        program_wf(*pctx),
        expr_wf(*e),
        env_wf(env_view(old(lctx)@)),
    ensures
        step_matches(res, step_spec(fuel as nat, *pctx, env_view(old(lctx)@), *e).0),
        env_view(final(lctx)@) == step_spec(fuel as nat, *pctx, env_view(old(lctx)@), *e).1,
        env_wf(env_view(final(lctx)@)),
        step_wf(res),
    decreases fuel, 5nat,
{
    match e {
        Expression::ValueIntroduction(v, _, _) => Stepped::Done(Ok(v.clone())),
        Expression::FunctionReference(fi, _, _) => Stepped::Done(Ok(Value::Function(fi.clone(), None))),
        Expression::VariableReference(li, _, span) => {
            match env_get(lctx, *li) {
                Some(lv) => Stepped::Done(Ok(lv.clone())),
                None => Stepped::Done(Err(runtime_error(&numbered_message("v#", *li, " not found"), span))),
            }
        },
        Expression::Failure(_, span) => Stepped::Done(Err(runtime_error(&str_chars("failure"), span))),
        Expression::LiteralIntroduction(lps, _, span) => Stepped::Done(exec_li(lctx, pctx, lps, span, fuel)),
        Expression::TupleIntroduction(tps, _, span) => Stepped::Done(exec_ti(lctx, pctx, tps, span, fuel)),
        Expression::FunctionApplication(fi, pxs, _, span) => exec_apply(lctx, pctx, fi, pxs, span, fuel),
        Expression::PatternMatch(re, lrs, _, span) => exec_pattern(lctx, pctx, re, lrs, span, fuel),
        Expression::FlatMap(lhs, me, x, _, span) => Stepped::Done(exec_map(lctx, pctx, lhs, me, x, span, fuel)),
    }
}

/// A literal introduction, as `li_case` states it.
#[verifier::loop_isolation(false)]
fn exec_li<S: Clone>(lctx: &mut HashMap<usize, Value>, pctx: &Program<S>, lps: &Vec<LIPart<S>>, span: &S, fuel: u64) -> (res: Result<Value, Error<S>>)
    requires
        fuel > 0,
        program_wf(*pctx),
        forall|i: int| 0 <= i < lps@.len() ==> li_wf(#[trigger] lps@[i]),
        env_wf(env_view(old(lctx)@)),
    ensures
        result_matches(res, li_case(fuel as nat, *pctx, env_view(old(lctx)@), lps@, *span).0),
        env_view(final(lctx)@) == li_case(fuel as nat, *pctx, env_view(old(lctx)@), lps@, *span).1,
        env_wf(env_view(final(lctx)@)),
        res is Ok ==> view_wf(res->Ok_0@),
    decreases fuel, 4nat,
{
    if lps.len() == 1 {
        if let LIPart::Literal(lcs) = &lps[0] {
            let cs = str_chars(lcs.as_str());
            let n = cs.len();
            return Ok(Value::Literal(0, n, Arc::new(cs), None));
        }
    }
    let ghost env0 = env_view(lctx@);
    let mut lui = nat_from_u64(0);
    let mut lcs: Vec<char> = Vec::new();
    let mut k: usize = 0;
    while k < lps.len()
        invariant
            k <= lps@.len(),
            env_wf(env_view(lctx@)),
            li_fold(fuel as nat, *pctx, env0, lps@, 0, 0, Seq::empty(), *span)
                == li_fold(fuel as nat, *pctx, env_view(lctx@), lps@, k as int, lui@, lcs@, *span),
        decreases lps@.len() - k,
    {
        match &lps[k] {
            LIPart::Literal(cs) => {
                let cs = str_chars(cs.as_str());
                let n = cs.len();
                assert(cs@.subrange(0, n as int) =~= cs@);
                ucatcs(&mut lui, &mut lcs, 0, n, &cs);
            },
            LIPart::InlineVariable(vi) => {
                match env_get(lctx, *vi) {
                    Some(Value::Literal(vs, ve, vcs, _)) => {
                        ucatcs(&mut lui, &mut lcs, *vs, *ve, vcs);
                    },
                    Some(Value::Unary(u, _)) => {
                        if !ucatu(&mut lui, &mut lcs, u) {
                            return Err(runtime_error(&str_chars("unary value too large to spell out"), span));
                        }
                    },
                    _ => {
                        return Err(runtime_error(&numbered_message("v#", *vi, " not found"), span));
                    },
                }
            },
            LIPart::Expression(pe) => {
                match eval_e(lctx, pctx, pe, fuel - 1) {
                    Err(er) => {
                        return Err(er);
                    },
                    Ok(Value::Literal(vs, ve, vcs, _)) => {
                        ucatcs(&mut lui, &mut lcs, vs, ve, &vcs);
                    },
                    Ok(Value::Unary(u, _)) => {
                        if !ucatu(&mut lui, &mut lcs, &u) {
                            return Err(runtime_error(&str_chars("unary value too large to spell out"), span));
                        }
                    },
                    Ok(_) => {
                        return Err(runtime_error(&str_chars("invalid literal expression"), span));
                    },
                }
            },
        }
        k = k + 1;
    }
    if lcs.len() == 0 {
        Ok(Value::Unary(lui, None))
    } else {
        let n = lcs.len();
        Ok(Value::Literal(0, n, Arc::new(lcs), None))
    }
}

/// Adds the items of one tuple-introduction part to `tcs`, as `ti_part` states it.
fn exec_ti_part<S: Clone>(lctx: &mut HashMap<usize, Value>, pctx: &Program<S>, tp: &TIPart<S>, tcs: &mut Vec<Value>, span: &S, fuel: u64) -> (res: Result<(), Error<S>>)
    requires
        fuel > 0,
        program_wf(*pctx),
        ti_wf(*tp),
        env_wf(env_view(old(lctx)@)),
        forall|i: int| 0 <= i < old(tcs)@.len() ==> view_wf((#[trigger] old(tcs)@[i])@),
    ensures
        match (res, ti_part(fuel as nat, *pctx, env_view(old(lctx)@), *tp, views(old(tcs)@), *span).0) {
            (Ok(_), Ok(acc)) => views(final(tcs)@) == acc,
            (Err(e), Err(f)) => err_matches(e, f),
            _ => false,
        },
        env_view(final(lctx)@) == ti_part(fuel as nat, *pctx, env_view(old(lctx)@), *tp, views(old(tcs)@), *span).1,
        env_wf(env_view(final(lctx)@)),
        forall|i: int| 0 <= i < final(tcs)@.len() ==> view_wf((#[trigger] final(tcs)@[i])@),
    decreases fuel, 1nat,
{
    let ghost acc0 = views(tcs@);
    match tp {
        TIPart::Tuple(vs) => {
            let mut k: usize = 0;
            while k < vs.len()
                invariant
                    k <= vs@.len(),
                    forall|i: int| 0 <= i < vs@.len() ==> view_wf((#[trigger] vs@[i])@),
                    views(tcs@) == acc0 + views(vs@).subrange(0, k as int),
                    forall|i: int| 0 <= i < tcs@.len() ==> view_wf((#[trigger] tcs@[i])@),
                decreases vs@.len() - k,
            {
                let c = vs[k].clone();
                let ghost before = tcs@;
                let ghost cv = c;
                tcs.push(c);
                proof {
                    lemma_views_push(before, cv);
                }
                k = k + 1;
                assert(views(tcs@) =~= acc0 + views(vs@).subrange(0, k as int));
            }
            assert(views(vs@).subrange(0, vs@.len() as int) =~= views(vs@));
            Ok(())
        },
        TIPart::Variable(vi) => {
            match env_get(lctx, *vi) {
                Some(vt) => {
                    tcs.push(vt.clone());
                    assert(views(tcs@) =~= acc0.push(env_view(lctx@)[*vi]));
                    Ok(())
                },
                None => Err(runtime_error(&numbered_message("v#", *vi, " not found"), span)),
            }
        },
        TIPart::InlineVariable(vi) => {
            match env_get(lctx, *vi) {
                Some(Value::Tuple(vs, ve, vcs, None)) => {
                    proof {
                        lemma_tuple_view(*vs, *ve, *vcs, None);
                        assert(view_wf(env_view(lctx@)[*vi]));
                    }
                    let mut ti: usize = *vs;
                    while ti < *ve
                        invariant
                            *vs <= ti <= *ve <= vcs@.len(),
                            forall|i: int| *vs <= i < *ve ==> view_wf(#[trigger] views(vcs@)[i]),
                            views(tcs@) == acc0 + views(vcs@).subrange(*vs as int, ti as int),
                            forall|i: int| 0 <= i < tcs@.len() ==> view_wf((#[trigger] tcs@[i])@),
                        decreases *ve - ti,
                    {
                        assert(views(vcs@)[ti as int] == vcs@[ti as int]@);
                        let c = vcs[ti].clone();
                        let ghost before = tcs@;
                        let ghost cv = c;
                        tcs.push(c);
                        proof {
                            lemma_views_push(before, cv);
                        }
                        ti = ti + 1;
                        assert(views(tcs@) =~= acc0 + views(vcs@).subrange(*vs as int, ti as int));
                    }
                    Ok(())
                },
                _ => Err(runtime_error(&numbered_message("inline tuple v#", *vi, " not found"), span)),
            }
        },
        TIPart::Expression(te) => {
            match eval_e(lctx, pctx, te, fuel - 1) {
                Err(er) => Err(er),
                Ok(v) => {
                    tcs.push(v);
                    assert(views(tcs@) =~= acc0.push(v@));
                    Ok(())
                },
            }
        },
    }
}

/// Whether the body of a map has the guard form `cond ? 1 => y`.
fn guard_form<S>(x: &TIPart<S>) -> (res: bool)
    ensures
        res == is_guard_part(*x),
{
    match x {
        TIPart::Expression(Expression::PatternMatch(_, arms, _, _)) => {
            if arms.len() == 1 {
                match &arms[0].0 {
                    LHSPart::Literal(gl) => crate::opt::is_str(gl.as_str(), "1"),
                    _ => false,
                }
            } else {
                false
            }
        },
        _ => false,
    }
}

/// One item of a map whose body has the guard form, as `guarded_part`
/// states it.
fn exec_guarded<S: Clone>(lctx: &mut HashMap<usize, Value>, pctx: &Program<S>, x: &TIPart<S>, tcs: &mut Vec<Value>, fuel: u64) -> (res: Result<(), Error<S>>)
    requires
        fuel > 0,
        program_wf(*pctx),
        ti_wf(*x),
        is_guard_part(*x),
        env_wf(env_view(old(lctx)@)),
        forall|i: int| 0 <= i < old(tcs)@.len() ==> view_wf((#[trigger] old(tcs)@[i])@),
    ensures
        match (res, guarded_part(fuel as nat, *pctx, env_view(old(lctx)@), *x, views(old(tcs)@)).0) {
            (Ok(_), Ok(acc)) => views(final(tcs)@) == acc,
            (Err(e), Err(f)) => err_matches(e, f),
            _ => false,
        },
        env_view(final(lctx)@) == guarded_part(fuel as nat, *pctx, env_view(old(lctx)@), *x, views(old(tcs)@)).1,
        env_wf(env_view(final(lctx)@)),
        forall|i: int| 0 <= i < final(tcs)@.len() ==> view_wf((#[trigger] final(tcs)@[i])@),
    decreases fuel, 1nat,
{
    let ghost acc0 = views(tcs@);
    match x {
        TIPart::Expression(Expression::PatternMatch(gc, arms, _, _)) => {
            assert(expr_wf((arms@[0]).1));
            let g = match eval_e(lctx, pctx, gc, fuel - 1) {
                Err(er) => {
                    return Err(er);
                },
                Ok(g) => g,
            };
            if eval_lhs(lctx, pctx, &arms[0].0, &g) {
                match eval_e(lctx, pctx, &arms[0].1, fuel - 1) {
                    Err(er) => Err(er),
                    Ok(v) => {
                        tcs.push(v);
                        assert(views(tcs@) =~= acc0.push(v@));
                        Ok(())
                    },
                }
            } else {
                Ok(())
            }
        },
        _ => Ok(()),
    }
}

/// A tuple introduction, as `ti_case` states it.
#[verifier::loop_isolation(false)]
fn exec_ti<S: Clone>(lctx: &mut HashMap<usize, Value>, pctx: &Program<S>, tps: &Vec<TIPart<S>>, span: &S, fuel: u64) -> (res: Result<Value, Error<S>>)
    requires
        fuel > 0,
        program_wf(*pctx),
        forall|i: int| 0 <= i < tps@.len() ==> ti_wf(#[trigger] tps@[i]),
        env_wf(env_view(old(lctx)@)),
    ensures
        result_matches(res, ti_case(fuel as nat, *pctx, env_view(old(lctx)@), tps@, *span).0),
        env_view(final(lctx)@) == ti_case(fuel as nat, *pctx, env_view(old(lctx)@), tps@, *span).1,
        env_wf(env_view(final(lctx)@)),
        res is Ok ==> view_wf(res->Ok_0@),
    decreases fuel, 4nat,
{
    if tps.len() == 1 {
        if let TIPart::Tuple(tcs) = &tps[0] {
            let n = tcs.len();
            let a = tcs.clone();
            proof {
                lemma_tuple_view(0, n, a, None);
            }
            return Ok(Value::Tuple(0, n, a, None));
        }
    }
    let ghost env0 = env_view(lctx@);
    let mut tcs: Vec<Value> = Vec::new();
    assert(views(tcs@) =~= Seq::<ValueView>::empty());
    let mut k: usize = 0;
    while k < tps.len()
        invariant
            k <= tps@.len(),
            env_wf(env_view(lctx@)),
            forall|i: int| 0 <= i < tcs@.len() ==> view_wf((#[trigger] tcs@[i])@),
            ti_fold(fuel as nat, *pctx, env0, tps@, 0, Seq::empty(), *span)
                == ti_fold(fuel as nat, *pctx, env_view(lctx@), tps@, k as int, views(tcs@), *span),
        decreases tps@.len() - k,
    {
        match exec_ti_part(lctx, pctx, &tps[k], &mut tcs, span, fuel) {
            Err(er) => {
                return Err(er);
            },
            Ok(_) => {},
        }
        k = k + 1;
    }
    let n = tcs.len();
    let a = Arc::new(tcs);
    proof {
        lemma_tuple_view(0, n, a, None);
    }
    Ok(Value::Tuple(0, n, a, None))
}

/// A function application, as `apply_case` states it.
#[verifier::loop_isolation(false)]
fn exec_apply<'a, S: Clone>(lctx: &mut HashMap<usize, Value>, pctx: &'a Program<S>, fi: &String, pxs: &Vec<Expression<S>>, span: &S, fuel: u64) -> (res: Stepped<'a, S>)
    requires
        fuel > 0,
        program_wf(*pctx),
        forall|i: int| 0 <= i < pxs@.len() ==> expr_wf(#[trigger] pxs@[i]),
        env_wf(env_view(old(lctx)@)),
    ensures
        step_matches(res, apply_case(fuel as nat, *pctx, env_view(old(lctx)@), fi@, pxs@, *span).0),
        env_view(final(lctx)@) == apply_case(fuel as nat, *pctx, env_view(old(lctx)@), fi@, pxs@, *span).1,
        env_wf(env_view(final(lctx)@)),
        step_wf(res),
    decreases fuel, 4nat,
{
    let k = match find_function(&pctx.functions, fi) {
        None => {
            return Stepped::Done(Err(runtime_error(&named_message("f#", fi, " undefined"), span)));
        },
        Some(k) => k,
    };
    let f = &pctx.functions[k];
    proof {
        assert(fn_wf(pctx.functions@[k as int]));
    }
    if pxs.len() != f.args.len() {
        return Stepped::Done(
            Err(runtime_error(&named_message("f#", fi, " called with wrong arity"), span)),
        );
    }
    let ghost env0 = env_view(lctx@);
    let mut ps: Vec<Value> = Vec::new();
    assert(views(ps@) =~= Seq::<ValueView>::empty());
    let mut i: usize = 0;
    while i < pxs.len()
        invariant
            i <= pxs@.len(),
            fuel > 0,
            program_wf(*pctx),
            forall|j: int| 0 <= j < pxs@.len() ==> expr_wf(#[trigger] pxs@[j]),
            env_wf(env_view(lctx@)),
            ps@.len() == i,
            forall|j: int| 0 <= j < ps@.len() ==> view_wf((#[trigger] ps@[j])@),
            args_fold(fuel as nat, *pctx, env0, pxs@, 0, Seq::empty()) == args_fold(
                fuel as nat,
                *pctx,
                env_view(lctx@),
                pxs@,
                i as int,
                views(ps@),
            ),
        decreases pxs@.len() - i,
    {
        match eval_e(lctx, pctx, &pxs[i], fuel - 1) {
            Err(er) => {
                return Stepped::Done(Err(er));
            },
            Ok(v) => {
                let ghost before = ps@;
                let ghost vv = v;
                ps.push(v);
                proof {
                    lemma_views_push(before, vv);
                }
            },
        }
        i = i + 1;
    }
    let mut nenv: HashMap<usize, Value> = HashMap::new();
    assert(env_view(nenv@) =~= Map::empty());
    let mut j: usize = 0;
    while j < ps.len()
        invariant
            j <= ps@.len(),
            ps@.len() == f.args@.len(),
            forall|i: int| 0 <= i < ps@.len() ==> view_wf((#[trigger] ps@[i])@),
            env_wf(env_view(nenv@)),
            env_view(nenv@) == bind_args(f.args@, views(ps@), j as int),
        decreases ps@.len() - j,
    {
        let c = ps[j].clone();
        env_insert(&mut nenv, f.args[j].0, c);
        j = j + 1;
    }
    if f.body.len() == 0 {
        let a: Arc<Vec<Value>> = Arc::new(Vec::new());
        proof {
            lemma_tuple_view(0, 0, a, None);
            assert(views(a@) =~= Seq::<ValueView>::empty());
        }
        return Stepped::Done(Ok(Value::Tuple(0, 0, a, None)));
    }
    let nb = f.body.len();
    let ghost nenv0 = env_view(nenv@);
    let mut b: usize = 0;
    while b + 1 < nb
        invariant
            b < nb,
            nb == f.body@.len(),
            fuel > 0,
            program_wf(*pctx),
            fn_wf(*f),
            env_wf(env_view(nenv@)),
            body_fold(fuel as nat, *pctx, nenv0, f.body@, 0) == body_fold(
                fuel as nat,
                *pctx,
                env_view(nenv@),
                f.body@,
                b as int,
            ),
        decreases nb - b,
    {
        match eval_e(&mut nenv, pctx, &f.body[b], fuel - 1) {
            Err(er) => {
                return Stepped::Done(Err(er));
            },
            Ok(_) => {},
        }
        b = b + 1;
    }
    Stepped::Enter(nenv, &f.body[nb - 1])
}

/// A pattern match, as `pattern_case` states it.
#[verifier::loop_isolation(false)]
fn exec_pattern<'a, S: Clone>(lctx: &mut HashMap<usize, Value>, pctx: &Program<S>, re: &Expression<S>, lrs: &'a Vec<(LHSPart, Expression<S>)>, span: &S, fuel: u64) -> (res: Stepped<'a, S>)
    requires
        fuel > 0,
        program_wf(*pctx),
        expr_wf(*re),
        forall|i: int| 0 <= i < lrs@.len() ==> expr_wf((#[trigger] lrs@[i]).1),
        env_wf(env_view(old(lctx)@)),
    ensures
        step_matches(res, pattern_case(fuel as nat, *pctx, env_view(old(lctx)@), *re, lrs@, *span).0),
        env_view(final(lctx)@) == pattern_case(fuel as nat, *pctx, env_view(old(lctx)@), *re, lrs@, *span).1,
        env_wf(env_view(final(lctx)@)),
        step_wf(res),
    decreases fuel, 4nat,
{
    let rv = match eval_e(lctx, pctx, re, fuel - 1) {
        Err(er) => {
            return Stepped::Done(Err(er));
        },
        Ok(v) => v,
    };
    let ghost env1 = env_view(lctx@);
    let mut k: usize = 0;
    while k < lrs.len()
        invariant
            k <= lrs@.len(),
            view_wf(rv@),
            env_wf(env_view(lctx@)),
            forall|i: int| 0 <= i < lrs@.len() ==> expr_wf((#[trigger] lrs@[i]).1),
            arms_spec(env1, lrs@, 0, rv@) == arms_spec(env_view(lctx@), lrs@, k as int, rv@),
        decreases lrs@.len() - k,
    {
        if eval_lhs(lctx, pctx, &lrs[k].0, &rv) {
            return Stepped::Continue(&lrs[k].1);
        }
        k = k + 1;
    }
    let mut msg = str_chars("pattern did not match on ");
    push_debug(&mut msg, &rv);
    Stepped::Done(Err(runtime_error(&msg, span)))
}

/// A map, as `map_case` states it.
#[verifier::loop_isolation(false)]
fn exec_map<S: Clone>(lctx: &mut HashMap<usize, Value>, pctx: &Program<S>, lhs: &LHSPart, me: &Expression<S>, x: &TIPart<S>, span: &S, fuel: u64) -> (res: Result<Value, Error<S>>)
    requires
        fuel > 0,
        program_wf(*pctx),
        expr_wf(*me),
        ti_wf(*x),
        env_wf(env_view(old(lctx)@)),
    ensures
        result_matches(res, map_case(fuel as nat, *pctx, env_view(old(lctx)@), *lhs, *me, *x, *span).0),
        env_view(final(lctx)@) == map_case(fuel as nat, *pctx, env_view(old(lctx)@), *lhs, *me, *x, *span).1,
        env_wf(env_view(final(lctx)@)),
        res is Ok ==> view_wf(res->Ok_0@),
    decreases fuel, 4nat,
{
    let rv = match eval_e(lctx, pctx, me, fuel - 1) {
        Err(er) => {
            return Err(er);
        },
        Ok(v) => v,
    };
    match rv {
        Value::Tuple(s, e, vs, t) => {
            proof {
                lemma_tuple_view(s, e, vs, t);
            }
            let ghost env1 = env_view(lctx@);
            let mut acc: Vec<Value> = Vec::new();
            assert(views(acc@) =~= Seq::<ValueView>::empty());
            let mut k: usize = s;
            while k < e
                invariant
                    s <= k <= e <= vs@.len(),
                    forall|i: int| s <= i < e ==> view_wf(#[trigger] views(vs@)[i]),
                    fuel > 0,
                    program_wf(*pctx),
                    ti_wf(*x),
                    env_wf(env_view(lctx@)),
                    forall|i: int| 0 <= i < acc@.len() ==> view_wf((#[trigger] acc@[i])@),
                    map_fold(fuel as nat, *pctx, env1, *lhs, *x, views(vs@), s as int, e as int, Seq::empty(), *span)
                        == map_fold(fuel as nat, *pctx, env_view(lctx@), *lhs, *x, views(vs@), k as int, e as int, views(acc@), *span),
                decreases e - k,
            {
                match lhs {
                    LHSPart::Variable(vi) => {
                        assert(views(vs@)[k as int] == vs@[k as int]@);
                        let c = vs[k].clone();
                        env_insert(lctx, *vi, c);
                    },
                    LHSPart::Any => {},
                    _ => {
                        return Err(runtime_error(&str_chars("map binding must be a variable or _"), span));
                    },
                }
                let part = if guard_form(x) {
                    exec_guarded(lctx, pctx, x, &mut acc, fuel)
                } else {
                    exec_ti_part(lctx, pctx, x, &mut acc, span, fuel)
                };
                match part {
                    Err(er) => {
                        return Err(er);
                    },
                    Ok(_) => {},
                }
                k = k + 1;
            }
            let n = acc.len();
            let a = Arc::new(acc);
            proof {
                lemma_tuple_view(0, n, a, None);
            }
            Ok(Value::Tuple(0, n, a, None))
        },
        _ => Err(runtime_error(&str_chars("map over a value that is not a tuple"), span)),
    }
}

/// Evaluates the program `p` with variable `i` bound to `args[i]`: its
/// top-level expressions run in order in one environment, and the value of
/// the last one is the result (the empty tuple when there is none); the
/// first error stops the evaluation.
pub fn eval<S: Clone>(p: Program<S>, args: &[Value]) -> (res: Result<Value, Error<S>>)
    requires
        program_wf(p),
        forall|i: int| 0 <= i < args@.len() ==> view_wf((#[trigger] args@[i])@),
    ensures
        result_matches(res, run_spec(p, views(args@))),
{
    let mut ctx: HashMap<usize, Value> = HashMap::new();
    assert(env_view(ctx@) =~= Map::empty());
    let mut i: usize = 0;
    while i < args.len()
        invariant
            i <= args@.len(),
            forall|j: int| 0 <= j < args@.len() ==> view_wf((#[trigger] args@[j])@),
            env_wf(env_view(ctx@)),
            env_view(ctx@) == top_env(views(args@), i as int),
        decreases args@.len() - i,
    {
        let c = args[i].clone();
        env_insert(&mut ctx, i, c);
        i = i + 1;
    }
    let ghost env0 = env_view(ctx@);
    let mut top = Value::tuple(Vec::new());
    assert(views(Seq::<Value>::empty()) =~= Seq::<ValueView>::empty());
    let mut k: usize = 0;
    while k < p.expressions.len()
        invariant
            k <= p.expressions@.len(),
            program_wf(p),
            env_wf(env_view(ctx@)),
            view_wf(top@),
            run_spec(p, views(args@)) == program_spec(top_fuel(), p, env_view(ctx@), k as int, top@),
        decreases p.expressions@.len() - k,
    {
        match eval_e(&mut ctx, &p, &p.expressions[k], u64::MAX) {
            Err(er) => {
                return Err(er);
            },
            Ok(v) => {
                top = v;
            },
        }
        k = k + 1;
    }
    Ok(top)
}

/// The expression that a pattern match examines.
pub open spec fn match_scrutinee<S>(pm: Expression<S>) -> Expression<S> {
    match pm {
        Expression::PatternMatch(x, _, _, _) => *x,
        _ => pm,
    }
}

/// A pattern whose only arm binds a fresh variable and reads it back
/// evaluates to the value matched.
pub proof fn lemma_bind_then_read<S>(
    fuel: nat,
    p: Program<S>,
    env: Env,
    pm: Expression<S>,
    i: usize,
    v: ValueView,
)
    requires
        fuel >= 2,
        pm is PatternMatch,
        pm->PatternMatch_1@.len() == 1,
        pm->PatternMatch_1@[0].0 == LHSPart::Variable(i),
        pm->PatternMatch_1@[0].1 is VariableReference,
        pm->PatternMatch_1@[0].1->VariableReference_0 == i,
        eval_spec((fuel - 1) as nat, p, env, match_scrutinee(pm)).0 == Ok::<ValueView, ErrorView<S>>(v),
        !eval_spec((fuel - 1) as nat, p, env, match_scrutinee(pm)).1.contains_key(i),
    ensures
        eval_spec(fuel, p, env, pm).0 == Ok::<ValueView, ErrorView<S>>(v),
{
    let env1 = eval_spec((fuel - 1) as nat, p, env, match_scrutinee(pm)).1;
    let env2 = env1.insert(i, v);
    assert(lhs_spec(env1, LHSPart::Variable(i), v) == (true, env2));
    assert(arms_spec(env1, pm->PatternMatch_1@, 0, v) == (Some(0int), env2));
    assert(pattern_case(fuel, p, env, match_scrutinee(pm), pm->PatternMatch_1@, pm->PatternMatch_3)
        == (Step::Continue(pm->PatternMatch_1@[0].1), env2));
    assert(step_spec(fuel, p, env, pm) == (Step::Continue(pm->PatternMatch_1@[0].1), env2));
    assert(step_spec((fuel - 1) as nat, p, env2, pm->PatternMatch_1@[0].1).0 == Step::<S>::Done(Ok(v)));
    assert(eval_spec((fuel - 1) as nat, p, env2, pm->PatternMatch_1@[0].1).0 == Ok::<ValueView, ErrorView<S>>(v));
}

/// A value written into a program evaluates to itself.
pub proof fn lemma_value_evaluates<S>(fuel: nat, p: Program<S>, env: Env, e: Expression<S>)
    requires
        fuel > 0,
        e is ValueIntroduction,
    ensures
        eval_spec(fuel, p, env, e) == (Ok::<ValueView, ErrorView<S>>(e->ValueIntroduction_0@), env),
{
    assert(step_spec(fuel, p, env, e) == (Step::<S>::Done(Ok(e->ValueIntroduction_0@)), env));
}

/// The arm `_` matches every value, leaving the environment as it is.
pub proof fn lemma_any_matches<S>(env: Env, arms: Seq<(LHSPart, Expression<S>)>, k: int, v: ValueView)
    requires
        0 <= k < arms.len(),
        arms[k].0 == LHSPart::Any,
    ensures
        arms_spec(env, arms, k, v) == (Some(k), env),
{
}

/// A program without expressions evaluates to the empty tuple.
pub proof fn lemma_empty_program<S>(p: Program<S>, args: Seq<ValueView>)
    requires
        p.expressions@.len() == 0,
    ensures
        run_spec(p, args) == Ok::<ValueView, ErrorView<S>>(unit_view()),
{
}

/// A variable pattern binds a variable that is not bound yet, and
/// matches anything; a variable that is already bound matches only a value
/// equal to the one it holds, and keeps it. `_` matches anything and binds
/// nothing.
pub proof fn lemma_variable_pattern(env: Env, x: usize, v: ValueView)
    ensures
        env.contains_key(x) ==> lhs_spec(env, LHSPart::Variable(x), v) == (view_eq(env[x], v), env),
        !env.contains_key(x) ==> lhs_spec(env, LHSPart::Variable(x), v) == (true, env.insert(x, v)),
        lhs_spec(env, LHSPart::Any, v) == (true, env),
{
}

/// A tuple pattern that names one fresh variable twice matches a pair
/// exactly when its two items are equal; the variable is then bound to the
/// first.
pub proof fn lemma_repeated_variable(env: Env, x: usize, lcs: Vec<LHSPart>, a: ValueView, b: ValueView, t: Option<Seq<char>>)
    requires
        !env.contains_key(x),
        lcs@ == seq![LHSPart::Variable(x), LHSPart::Variable(x)],
    ensures
        lhs_spec(env, LHSPart::Tuple(lcs), ValueView::Tuple(0, 2, seq![a, b], t)).0 == view_eq(a, b),
        lhs_spec(env, LHSPart::Tuple(lcs), ValueView::Tuple(0, 2, seq![a, b], t)).1 == env.insert(x, a),
{
    let rts = seq![a, b];
    let env1 = env.insert(x, a);
    assert(lhs_spec(env, lcs@[0], rts[0]) == (true, env1));
    assert(env1.contains_key(x) && env1[x] == a);
    assert(lhs_spec(env1, lcs@[1], rts[1]) == (view_eq(a, b), env1));
    assert(tuple_lhs_spec(env1, lcs@, rts, 0, 2) == (true, env1));
    assert(tuple_lhs_spec(env1, lcs@, rts, 0, 1) == (if view_eq(a, b) { (true, env1) } else { (false, env1) }));
    assert(tuple_lhs_spec(env, lcs@, rts, 0, 0) == tuple_lhs_spec(env1, lcs@, rts, 0, 1));
}

/// A literal pattern matches a literal value exactly when the value's
/// text is a prefix of the pattern's, and a unary number exactly when the
/// pattern is that many `'0'`s; it binds nothing and matches nothing else.
pub proof fn lemma_literal_pattern(lcs: String, s: nat, e: nat, cs: Seq<char>, t: Option<Seq<char>>, n: nat, v: ValueView, env: Env)
    requires
        s <= e <= cs.len(),
    ensures
        lhs_spec(env, LHSPart::Literal(lcs), ValueView::Literal(s, e, cs, t)) == (lcs@.len() >= e - s
            && lcs@.subrange(0, e - s) == cs.subrange(s as int, e as int), env),
        lhs_spec(env, LHSPart::Literal(lcs), ValueView::Unary(n, t)) == (lcs@ == zeros(n), env),
        (v is Tuple || v is Function) ==> lhs_spec(env, LHSPart::Literal(lcs), v) == (false, env),
{
    let a = lcs@;
    let b = cs.subrange(s as int, e as int);
    if a.len() >= e - s && a.subrange(0, e - s) == b {
        assert forall|i: int| 0 <= i < e - s implies #[trigger] a[i] == cs[s + i] by {
            assert(a.subrange(0, e - s)[i] == a[i]);
            assert(b[i] == cs[s + i]);
        }
    }
    if literal_pattern_matches(a, ValueView::Literal(s, e, cs, t)) {
        assert forall|i: int| 0 <= i < e - s implies a.subrange(0, e - s)[i] == b[i] by {
            assert(a[i] == cs[s + i]);
        }
        assert(a.subrange(0, e - s) =~= b);
    }
    if a == zeros(n) {
        assert(all_zero(a));
    }
    if a.len() == n && all_zero(a) {
        assert(a =~= zeros(n));
    }
}

/// Unpacking a unary number with the pattern `pre .. m .. suf`, where
/// `pre` and `suf` are runs of `'0'`s of lengths `a` and `b`: it matches
/// exactly when the number is at least `a + b`, and binds `m` to the
/// number less `a + b`.
pub proof fn lemma_unpack_zeros(env: Env, pre: Vec<LHSLiteralPart>, m: usize, suf: Vec<LHSLiteralPart>, pcs: String, scs: String, n: nat, t: Option<Seq<char>>)
    requires
        pre@ == seq![LHSLiteralPart::Literal(pcs)],
        suf@ == seq![LHSLiteralPart::Literal(scs)],
        all_zero(pcs@),
        all_zero(scs@),
    ensures
        lhs_spec(env, LHSPart::UnpackLiteral(pre, Some(m), suf), ValueView::Unary(n, t)).0 == (n >= pcs@.len() + scs@.len()),
        n >= pcs@.len() + scs@.len() ==> lhs_spec(env, LHSPart::UnpackLiteral(pre, Some(m), suf), ValueView::Unary(n, t)).1
            == env.insert(m, ValueView::Unary((n - pcs@.len() - scs@.len()) as nat, None)),
{
    let a = pcs@.len();
    let b = scs@.len();
    assert(unpack_parts(env, pre@, 1, (n - a) as nat) == Some((n - a) as nat));
    if n >= a {
        assert(unpack_parts(env, pre@, 0, n) == Some((n - a) as nat));
        assert(unpack_parts(env, suf@, 1, (n - a - b) as nat) == Some((n - a - b) as nat));
        if n - a >= b {
            assert(unpack_parts(env, suf@, 0, (n - a) as nat) == Some((n - a - b) as nat));
        } else {
            assert(unpack_parts(env, suf@, 0, (n - a) as nat) is None);
        }
    } else {
        assert(unpack_parts(env, pre@, 0, n) is None);
    }
}

/// The first arm whose pattern matches is taken: with patterns that bind
/// nothing (`_` and literals), the arm chosen is the first whose pattern
/// matches the value, and none is chosen where none matches.
pub proof fn lemma_first_arm<S>(env: Env, arms: Seq<(LHSPart, Expression<S>)>, v: ValueView, k: int)
    requires
        forall|j: int| 0 <= j < arms.len() ==> (#[trigger] arms[j].0 is Any || arms[j].0 is Literal),
        0 <= k <= arms.len(),
        forall|j: int| 0 <= j < k ==> !(#[trigger] lhs_spec(env, arms[j].0, v)).0,
    ensures
        k < arms.len() && lhs_spec(env, arms[k].0, v).0 ==> arms_spec(env, arms, 0, v) == (Some(k), env),
        k == arms.len() ==> arms_spec(env, arms, 0, v) == (None::<int>, env),
{
    lemma_arms_from(env, arms, v, 0, k);
}

/// `lemma_first_arm`, from the arm `i` on.
proof fn lemma_arms_from<S>(env: Env, arms: Seq<(LHSPart, Expression<S>)>, v: ValueView, i: int, k: int)
    requires
        forall|j: int| 0 <= j < arms.len() ==> (#[trigger] arms[j].0 is Any || arms[j].0 is Literal),
        0 <= i <= k <= arms.len(),
        forall|j: int| 0 <= j < k ==> !(#[trigger] lhs_spec(env, arms[j].0, v)).0,
    ensures
        k < arms.len() && lhs_spec(env, arms[k].0, v).0 ==> arms_spec(env, arms, i, v) == (Some(k), env),
        k == arms.len() ==> arms_spec(env, arms, i, v) == (None::<int>, env),
    decreases k - i,
{
    if i < k {
        assert(!lhs_spec(env, arms[i].0, v).0);
        assert(arms[i].0 is Any || arms[i].0 is Literal);
        assert(lhs_spec(env, arms[i].0, v).1 == env);
        lemma_arms_from(env, arms, v, i + 1, k);
    } else if k < arms.len() {
        assert(arms[k].0 is Any || arms[k].0 is Literal);
        assert(lhs_spec(env, arms[k].0, v).1 == env);
    }
}

/// The texts of the literal parts `lps[i..]`, one after another.
pub open spec fn part_texts<S>(lps: Seq<LIPart<S>>, i: int) -> Seq<char>
    decreases lps.len() - i,
{
    if i < 0 || i >= lps.len() {
        Seq::empty()
    } else {
        lps[i]->Literal_0@ + part_texts(lps, i + 1)
    }
}

/// Building from literal parts only, from the part `i` on: once some text
/// is collected, the rest is appended to it; while none is, runs of `'0'`s
/// add to the count.
proof fn lemma_li_texts<S>(fuel: nat, p: Program<S>, env: Env, lps: Seq<LIPart<S>>, i: int, lui: nat, lcs: Seq<char>, span: S)
    requires
        fuel > 0,
        0 <= i <= lps.len(),
        forall|j: int| 0 <= j < lps.len() ==> (#[trigger] lps[j]) is Literal,
    ensures
        lcs.len() > 0 ==> li_fold(fuel, p, env, lps, i, lui, lcs, span) == (Ok::<(nat, Seq<char>), ErrorView<S>>((lui, lcs + part_texts(lps, i))), env),
        lcs.len() == 0 && all_zero(part_texts(lps, i)) ==> li_fold(fuel, p, env, lps, i, lui, lcs, span)
            == (Ok::<(nat, Seq<char>), ErrorView<S>>(((lui + part_texts(lps, i).len()) as nat, lcs)), env),
    decreases lps.len() - i,
{
    if i < lps.len() {
        let cs = lps[i]->Literal_0@;
        let rest = part_texts(lps, i + 1);
        assert(lps[i] is Literal);
        assert(part_texts(lps, i) == cs + rest);
        let (l2, c2) = ucat_chars(lui, lcs, cs);
        lemma_li_texts(fuel, p, env, lps, i + 1, l2, c2, span);
        if lcs.len() > 0 {
            assert(lcs + cs + rest =~= lcs + (cs + rest));
        }
        if lcs.len() == 0 && all_zero(cs + rest) {
            assert forall|j: int| 0 <= j < cs.len() implies cs[j] == '0' by {
                assert((cs + rest)[j] == cs[j]);
            }
            assert forall|j: int| 0 <= j < rest.len() implies rest[j] == '0' by {
                assert((cs + rest)[cs.len() + j] == rest[j]);
            }
        }
    } else {
        assert(lcs + Seq::<char>::empty() =~= lcs);
    }
}

/// A literal built from literal texts only: one text stays as it is; two
/// or more make the unary number of their total length where they are all
/// `'0'`s, and their joined text where the first holds another character.
pub proof fn lemma_literal_texts<S>(fuel: nat, p: Program<S>, env: Env, lps: Seq<LIPart<S>>, span: S)
    requires
        fuel > 0,
        lps.len() >= 1,
        forall|j: int| 0 <= j < lps.len() ==> (#[trigger] lps[j]) is Literal,
    ensures
        lps.len() == 1 ==> li_case(fuel, p, env, lps, span) == (Ok::<ValueView, ErrorView<S>>(
            ValueView::Literal(0, lps[0]->Literal_0@.len(), lps[0]->Literal_0@, None)), env),
        lps.len() >= 2 && all_zero(part_texts(lps, 0)) ==> li_case(fuel, p, env, lps, span)
            == (Ok::<ValueView, ErrorView<S>>(ValueView::Unary(part_texts(lps, 0).len(), None)), env),
        lps.len() >= 2 && !all_zero(lps[0]->Literal_0@) ==> li_case(fuel, p, env, lps, span)
            == (Ok::<ValueView, ErrorView<S>>(ValueView::Literal(0, part_texts(lps, 0).len(), part_texts(lps, 0), None)), env),
{
    assert(lps[0] is Literal);
    if lps.len() >= 2 {
        let cs = lps[0]->Literal_0@;
        lemma_li_texts(fuel, p, env, lps, 0, 0, Seq::empty(), span);
        if !all_zero(cs) {
            assert(cs.len() > 0);
            lemma_li_texts(fuel, p, env, lps, 1, 0, cs, span);
            assert(part_texts(lps, 0) == cs + part_texts(lps, 1));
            assert(ucat_chars(0, Seq::empty(), cs) == (0nat, cs));
            assert(Seq::<char>::empty() + cs =~= cs);
        }
    }
}

/// The items that the tuple parts `tps[i..]` stand for in `env`: a
/// variable's value, and the items of a tuple spliced in.
pub open spec fn part_items<S>(env: Env, tps: Seq<TIPart<S>>, i: int) -> Seq<ValueView>
    decreases tps.len() - i,
{
    if i < 0 || i >= tps.len() {
        Seq::empty()
    } else {
        let here = match tps[i] {
            TIPart::Variable(x) => seq![env[x]],
            TIPart::InlineVariable(x) => env[x]->Tuple_2.subrange(env[x]->Tuple_0 as int, env[x]->Tuple_1 as int),
            _ => Seq::empty(),
        };
        here + part_items(env, tps, i + 1)
    }
}

/// The part `tp` reads a bound variable, or splices a bound tuple that
/// carries no type name.
pub open spec fn reads_bound<S>(env: Env, tp: TIPart<S>) -> bool {
    match tp {
        TIPart::Variable(x) => env.contains_key(x),
        TIPart::InlineVariable(x) => env.contains_key(x) && env[x] is Tuple && env[x]->Tuple_3 is None,
        _ => false,
    }
}

/// Collecting variable and splice parts from `i` on appends their items.
proof fn lemma_ti_items<S>(fuel: nat, p: Program<S>, env: Env, tps: Seq<TIPart<S>>, i: int, acc: Seq<ValueView>, span: S)
    requires
        fuel > 0,
        0 <= i <= tps.len(),
        forall|j: int| 0 <= j < tps.len() ==> reads_bound(env, #[trigger] tps[j]),
    ensures
        ti_fold(fuel, p, env, tps, i, acc, span) == (Ok::<Seq<ValueView>, ErrorView<S>>(acc + part_items(env, tps, i)), env),
    decreases tps.len() - i,
{
    if i < tps.len() {
        assert(reads_bound(env, tps[i]));
        let here = match tps[i] {
            TIPart::Variable(x) => seq![env[x]],
            TIPart::InlineVariable(x) => env[x]->Tuple_2.subrange(env[x]->Tuple_0 as int, env[x]->Tuple_1 as int),
            _ => Seq::empty(),
        };
        assert(ti_part(fuel, p, env, tps[i], acc, span) == (Ok::<Seq<ValueView>, ErrorView<S>>(acc + here), env)) by {
            if tps[i] is Variable {
                assert(acc.push(env[tps[i]->Variable_0]) =~= acc + here);
            }
        }
        lemma_ti_items(fuel, p, env, tps, i + 1, acc + here, span);
        assert(acc + here + part_items(env, tps, i + 1) =~= acc + part_items(env, tps, i));
    } else {
        assert(acc + Seq::<ValueView>::empty() =~= acc);
    }
}

/// A tuple built from parts that read variables and splice tuples holds
/// the variables' values and the spliced items, in order; a tuple built
/// from one part of values holds those values.
pub proof fn lemma_tuple_parts<S>(fuel: nat, p: Program<S>, env: Env, tps: Seq<TIPart<S>>, vs: Arc<Vec<Value>>, span: S)
    requires
        fuel > 0,
    ensures
        (forall|j: int| 0 <= j < tps.len() ==> reads_bound(env, #[trigger] tps[j])) ==> ti_case(fuel, p, env, tps, span)
            == (Ok::<ValueView, ErrorView<S>>(ValueView::Tuple(0, part_items(env, tps, 0).len(), part_items(env, tps, 0), None)), env),
        ti_case(fuel, p, env, seq![TIPart::Tuple(vs)], span)
            == (Ok::<ValueView, ErrorView<S>>(ValueView::Tuple(0, vs@.len(), views(vs@), None)), env),
{
    if forall|j: int| 0 <= j < tps.len() ==> reads_bound(env, #[trigger] tps[j]) {
        lemma_ti_items(fuel, p, env, tps, 0, Seq::empty(), span);
        assert(Seq::<ValueView>::empty() + part_items(env, tps, 0) =~= part_items(env, tps, 0));
        if tps.len() == 1 {
            assert(reads_bound(env, tps[0]));
        }
    }
    assert(seq![TIPart::<S>::Tuple(vs)][0] is Tuple);
}

/// A call reaches the last definition of its name, and reaches none
/// where no definition has it.
pub proof fn lemma_lookup_fn<S>(fs: Seq<FunctionDefinition<S>>, name: Seq<char>)
    ensures
        lookup_fn(fs, name) matches Some(k) ==> 0 <= k < fs.len() && fs[k].name@ == name
            && forall|j: int| k < j < fs.len() ==> (#[trigger] fs[j]).name@ != name,
        lookup_fn(fs, name) is None ==> forall|j: int| 0 <= j < fs.len() ==> (#[trigger] fs[j]).name@ != name,
    decreases fs.len(),
{
    if fs.len() > 0 && fs[fs.len() - 1].name@ != name {
        let n = fs.len() - 1;
        let pre = fs.subrange(0, n);
        lemma_lookup_fn(pre, name);
        assert(lookup_fn(fs, name) == lookup_fn(pre, name));
        match lookup_fn(pre, name) {
            Some(k) => {
                assert(fs[k] == pre[k]);
                assert forall|j: int| k < j < fs.len() implies (#[trigger] fs[j]).name@ != name by {
                    if j < n {
                        assert(fs[j] == pre[j]);
                    }
                }
            },
            None => {
                assert forall|j: int| 0 <= j < fs.len() implies (#[trigger] fs[j]).name@ != name by {
                    if j < n {
                        assert(fs[j] == pre[j]);
                    }
                }
            },
        }
    }
}

/// The arguments `xs[i..]`, variables bound in `env`, evaluate to their
/// values after `acc`.
proof fn lemma_args_vars<S>(fuel: nat, p: Program<S>, env: Env, pxs: Seq<Expression<S>>, xs: Seq<usize>, i: int, acc: Seq<ValueView>)
    requires
        fuel >= 2,
        0 <= i <= pxs.len(),
        pxs.len() == xs.len(),
        forall|j: int| 0 <= j < pxs.len() ==> (#[trigger] pxs[j]) is VariableReference && pxs[j]->VariableReference_0 == xs[j]
            && env.contains_key(xs[j]),
    ensures
        args_fold(fuel, p, env, pxs, i, acc) == (Ok::<Seq<ValueView>, ErrorView<S>>(acc + xs.subrange(i, xs.len() as int).map_values(|x: usize| env[x])), env),
    decreases pxs.len() - i,
{
    if i < pxs.len() {
        assert(pxs[i] is VariableReference);
        assert(step_spec((fuel - 1) as nat, p, env, pxs[i]) == (Step::<S>::Done(Ok(env[xs[i]])), env));
        assert(eval_spec((fuel - 1) as nat, p, env, pxs[i]) == (Ok::<ValueView, ErrorView<S>>(env[xs[i]]), env));
        lemma_args_vars(fuel, p, env, pxs, xs, i + 1, acc.push(env[xs[i]]));
        let m = xs.subrange(i, xs.len() as int).map_values(|x: usize| env[x]);
        let m1 = xs.subrange(i + 1, xs.len() as int).map_values(|x: usize| env[x]);
        assert(m[0] == env[xs[i]]);
        assert forall|j: int| 0 <= j < m1.len() implies m1[j] == m[j + 1] by {}
        assert(acc.push(env[xs[i]]) + xs.subrange(i + 1, xs.len() as int).map_values(|x: usize| env[x])
            =~= acc + xs.subrange(i, xs.len() as int).map_values(|x: usize| env[x]));
    } else {
        assert(acc + xs.subrange(i, xs.len() as int).map_values(|x: usize| env[x]) =~= acc);
    }
}

/// Applying a function of one body expression to variables: the body is
/// evaluated where the function's parameters are bound, in order, to the
/// variables' values, and gives the call's result; the caller's variables
/// stay as they were.
pub proof fn lemma_apply_binds<S>(fuel: nat, p: Program<S>, env: Env, fi: String, pxs: Arc<Vec<Expression<S>>>, t: Type, span: S, xs: Seq<usize>)
    requires
        fuel >= 2,
        lookup_fn(p.functions@, fi@) matches Some(k) && p.functions@[k].args@.len() == pxs@.len() && p.functions@[k].body@.len() == 1,
        pxs@.len() == xs.len(),
        forall|j: int| 0 <= j < pxs@.len() ==> (#[trigger] pxs@[j]) is VariableReference && pxs@[j]->VariableReference_0 == xs[j]
            && env.contains_key(xs[j]),
    ensures
        ({
            let f = p.functions@[lookup_fn(p.functions@, fi@)->0];
            let vals = xs.map_values(|x: usize| env[x]);
            &&& eval_spec(fuel, p, env, Expression::FunctionApplication(fi, pxs, t, span)).0
                == eval_spec((fuel - 1) as nat, p, bind_args(f.args@, vals, vals.len() as int), f.body@[0]).0
            &&& eval_spec(fuel, p, env, Expression::FunctionApplication(fi, pxs, t, span)).1 == env
        }),
{
    lemma_args_vars(fuel, p, env, pxs@, xs, 0, Seq::empty());
    let vals = xs.map_values(|x: usize| env[x]);
    assert(xs.subrange(0, xs.len() as int) =~= xs);
    assert(Seq::<ValueView>::empty() + xs.subrange(0, xs.len() as int).map_values(|x: usize| env[x]) =~= vals);
    let k = lookup_fn(p.functions@, fi@)->0;
    let f = p.functions@[k];
    let nenv = bind_args(f.args@, vals, vals.len() as int);
    assert(body_fold(fuel, p, nenv, f.body@, 0) == (Ok::<(), ErrorView<S>>(()), nenv));
    assert(apply_case(fuel, p, env, fi@, pxs@, span) == (Step::Enter(nenv, f.body@[0]), env));
    assert(step_spec(fuel, p, env, Expression::FunctionApplication(fi, pxs, t, span)) == (Step::Enter(nenv, f.body@[0]), env));
}

/// Mapping the items `vs[k..e]` with a variable pattern and a body that
/// reads the variable back collects the items themselves, in order.
proof fn lemma_map_fold_identity<S>(fuel: nat, p: Program<S>, env: Env, x: usize, vs: Seq<ValueView>, k: int, e: int, acc: Seq<ValueView>, span: S)
    requires
        fuel > 0,
        0 <= k <= e <= vs.len(),
    ensures
        map_fold(fuel, p, env, LHSPart::Variable(x), TIPart::Variable(x), vs, k, e, acc, span).0
            == Ok::<Seq<ValueView>, ErrorView<S>>(acc + vs.subrange(k, e)),
    decreases e - k,
{
    if k < e {
        let env1 = env.insert(x, vs[k]);
        assert(!is_guard_part(TIPart::<S>::Variable(x)));
        assert(ti_part(fuel, p, env1, TIPart::Variable(x), acc, span) == (Ok::<Seq<ValueView>, ErrorView<S>>(acc.push(vs[k])), env1));
        lemma_map_fold_identity(fuel, p, env1, x, vs, k + 1, e, acc.push(vs[k]), span);
        assert(acc.push(vs[k]) + vs.subrange(k + 1, e) =~= acc + vs.subrange(k, e));
    } else {
        assert(acc + vs.subrange(k, e) =~= acc);
    }
}

/// A map that binds each item to a variable and collects the variable
/// gives a tuple of the items of the tuple mapped over, in order; a map
/// over a value that is not a tuple is an error.
pub proof fn lemma_map_identity<S>(fuel: nat, p: Program<S>, env: Env, x: usize, me: Expression<S>, span: S, s: nat, e: nat, vs: Seq<ValueView>, t: Option<Seq<char>>)
    requires
        fuel > 1,
    ensures
        eval_spec((fuel - 1) as nat, p, env, me).0 == Ok::<ValueView, ErrorView<S>>(ValueView::Tuple(s, e, vs, t)) && s <= e <= vs.len()
            ==> map_case(fuel, p, env, LHSPart::Variable(x), me, TIPart::Variable(x), span).0
                == Ok::<ValueView, ErrorView<S>>(ValueView::Tuple(0, (e - s) as nat, vs.subrange(s as int, e as int), None)),
        (eval_spec((fuel - 1) as nat, p, env, me).0 matches Ok(v) && !(v is Tuple))
            ==> map_case(fuel, p, env, LHSPart::Variable(x), me, TIPart::Variable(x), span).0 is Err,
{
    let (rv, env1) = eval_spec((fuel - 1) as nat, p, env, me);
    if rv == Ok::<ValueView, ErrorView<S>>(ValueView::Tuple(s, e, vs, t)) && s <= e <= vs.len() {
        lemma_map_fold_identity(fuel, p, env1, x, vs, s as int, e as int, Seq::empty(), span);
        assert(Seq::<ValueView>::empty() + vs.subrange(s as int, e as int) =~= vs.subrange(s as int, e as int));
    }
}

/// `failure` always fails, with the message `failure`, wherever it
/// stands; a reference to a variable that is not bound fails too.
pub proof fn lemma_failure<S>(fuel: nat, p: Program<S>, env: Env, t: Type, span: S, x: usize)
    requires
        fuel > 0,
    ensures
        eval_spec(fuel, p, env, Expression::Failure(t, span)).0 == Err::<ValueView, ErrorView<S>>(rt_error("failure"@, span)),
        !env.contains_key(x) ==> eval_spec(fuel, p, env, Expression::VariableReference(x, t, span)).0
            == Err::<ValueView, ErrorView<S>>(rt_error(var_not_found(x), span)),
        env.contains_key(x) ==> eval_spec(fuel, p, env, Expression::VariableReference(x, t, span)).0
            == Ok::<ValueView, ErrorView<S>>(env[x]),
{
    assert(step_spec(fuel, p, env, Expression::Failure(t, span)).0 == Step::<S>::Done(Err(rt_error("failure"@, span))));
    if !env.contains_key(x) {
        assert(step_spec(fuel, p, env, Expression::VariableReference(x, t, span)).0
            == Step::<S>::Done(Err(rt_error(var_not_found(x), span))));
    } else {
        assert(step_spec(fuel, p, env, Expression::VariableReference(x, t, span)).0 == Step::<S>::Done(Ok(env[x])));
    }
}

/// Unary numbers in a literal: two unary variables join into the unary
/// number of their sum; a unary variable after some text adds that many
/// `'0'`s to it (a number too large for 32 bits is an error there).
pub proof fn lemma_literal_unary<S>(fuel: nat, p: Program<S>, env: Env, x: usize, y: usize, cs: String, span: S)
    requires
        fuel > 0,
        env.contains_key(x) && env[x] is Unary,
        env.contains_key(y) && env[y] is Unary,
        !all_zero(cs@),
    ensures
        li_case(fuel, p, env, seq![LIPart::InlineVariable(x), LIPart::InlineVariable(y)], span).0
            == Ok::<ValueView, ErrorView<S>>(ValueView::Unary(env[x]->Unary_0 + env[y]->Unary_0, None)),
        env[y]->Unary_0 <= u32::MAX ==> li_case(fuel, p, env, seq![LIPart::Literal(cs), LIPart::InlineVariable(y)], span).0
            == Ok::<ValueView, ErrorView<S>>(ValueView::Literal(0, cs@.len() + env[y]->Unary_0, cs@ + zeros(env[y]->Unary_0), None)),
        env[y]->Unary_0 > u32::MAX ==> li_case(fuel, p, env, seq![LIPart::Literal(cs), LIPart::InlineVariable(y)], span).0 is Err,
{
    let a = env[x]->Unary_0;
    let b = env[y]->Unary_0;
    let l1 = seq![LIPart::<S>::InlineVariable(x), LIPart::InlineVariable(y)];
    assert(li_fold(fuel, p, env, l1, 2, a + b, Seq::empty(), span) == (Ok::<(nat, Seq<char>), ErrorView<S>>((a + b, Seq::<char>::empty())), env));
    assert(li_fold(fuel, p, env, l1, 1, a, Seq::empty(), span) == li_fold(fuel, p, env, l1, 2, a + b, Seq::empty(), span));
    assert(li_fold(fuel, p, env, l1, 0, 0, Seq::empty(), span) == li_fold(fuel, p, env, l1, 1, a, Seq::empty(), span));
    let l2 = seq![LIPart::<S>::Literal(cs), LIPart::InlineVariable(y)];
    assert(cs@.len() > 0);
    assert(ucat_chars(0, Seq::empty(), cs@) == (0nat, Seq::<char>::empty() + cs@));
    assert(Seq::<char>::empty() + cs@ =~= cs@);
    if b <= u32::MAX {
        assert(li_fold(fuel, p, env, l2, 2, 0, cs@ + zeros(b), span) == (Ok::<(nat, Seq<char>), ErrorView<S>>((0nat, cs@ + zeros(b))), env));
        assert(li_fold(fuel, p, env, l2, 1, 0, cs@, span) == li_fold(fuel, p, env, l2, 2, 0, cs@ + zeros(b), span));
        assert((cs@ + zeros(b)).len() == cs@.len() + b);
    }
}

/// Unpacking a unary number with the pattern `p .. m`, where the variable
/// `p` holds the unary number `u`: it matches exactly when the number is at
/// least `u`, and binds `m` to the number less `u`.
pub proof fn lemma_unpack_variable(env: Env, pre: Vec<LHSLiteralPart>, pv: usize, m: usize, suf: Vec<LHSLiteralPart>, n: nat, t: Option<Seq<char>>)
    requires
        pre@ == seq![LHSLiteralPart::Variable(pv)],
        suf@.len() == 0,
        env.contains_key(pv) && env[pv] is Unary,
    ensures
        lhs_spec(env, LHSPart::UnpackLiteral(pre, Some(m), suf), ValueView::Unary(n, t)).0 == (n >= env[pv]->Unary_0),
        n >= env[pv]->Unary_0 ==> lhs_spec(env, LHSPart::UnpackLiteral(pre, Some(m), suf), ValueView::Unary(n, t)).1
            == env.insert(m, ValueView::Unary((n - env[pv]->Unary_0) as nat, None)),
{
    let u = env[pv]->Unary_0;
    if n >= u {
        assert(unpack_parts(env, pre@, 1, (n - u) as nat) == Some((n - u) as nat));
        assert(unpack_parts(env, pre@, 0, n) == Some((n - u) as nat));
        assert(unpack_parts(env, suf@, 0, (n - u) as nat) == Some((n - u) as nat));
    } else {
        assert(unpack_parts(env, pre@, 0, n) is None);
    }
}

/// The arguments of a program are its variables `0`, `1`, ..., in order.
pub proof fn lemma_top_env(args: Seq<ValueView>, n: int, i: int)
    requires
        0 <= i < n <= args.len(),
        n <= usize::MAX,
    ensures
        top_env(args, n).contains_key(i as usize),
        top_env(args, n)[i as usize] == args[i],
    decreases n,
{
    if i < n - 1 {
        lemma_top_env(args, n - 1, i);
    }
}

/// A program whose only expression reads variable `i` gives its argument
/// `i`, and fails where it has no such argument.
pub proof fn lemma_program_reads_argument<S>(p: Program<S>, args: Seq<ValueView>, i: usize, t: Type, span: S)
    requires
        p.expressions@ == seq![Expression::VariableReference(i, t, span)],
        args.len() <= usize::MAX,
    ensures
        i < args.len() ==> run_spec(p, args) == Ok::<ValueView, ErrorView<S>>(args[i as int]),
        i >= args.len() ==> run_spec(p, args) is Err,
{
    let env = top_env(args, args.len() as int);
    if i < args.len() {
        lemma_top_env(args, args.len() as int, i as int);
    } else {
        lemma_top_env_domain(args, args.len() as int, i);
    }
    lemma_failure(top_fuel(), p, env, t, span, i);
    let e = Expression::VariableReference(i, t, span);
    assert(p.expressions@[0] == e);
    let (r, env1) = eval_spec(top_fuel(), p, env, e);
    match r {
        Ok(v) => {
            assert(program_spec(top_fuel(), p, env1, 1, v) == Ok::<ValueView, ErrorView<S>>(v));
        },
        Err(_) => {},
    }
}

/// Only the variables below the number of arguments are bound at the start.
proof fn lemma_top_env_domain(args: Seq<ValueView>, n: int, i: usize)
    requires
        0 <= n <= i,
        n <= usize::MAX,
    ensures
        !top_env(args, n).contains_key(i),
    decreases n,
{
    if n > 0 {
        lemma_top_env_domain(args, n - 1, i);
    }
}

} // verus!
