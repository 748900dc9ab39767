//! The syntax tree of the IR: values, types, patterns, expressions, function
//! definitions and programs.

use std::sync::Arc;
use vstd::prelude::*;
use crate::natural::{Natural, nat_eq, nat_from_u64, nat_parse_decimal, nat_to_decimal, decimal_parse};
use crate::text::{decimal_chars, push_chars, str_chars, chars_to_string, debug_str, str_debug};

verus! {

/// An error raised while checking or evaluating a program.
pub struct Error<S> {
    pub error_type: String,
    pub error_msg: String,
    pub span: S,
}

/// The plain contents of an error: its kind, its message, and where it arose.
pub struct ErrorView<S> {
    pub error_type: Seq<char>,
    pub error_msg: Seq<char>,
    pub span: S,
}

/// An error of the given kind and message, at a copy of the span `s`.
pub fn error<S: Clone>(t: &str, m: &str, s: &S) -> (res: Error<S>)
    ensures
        res.error_type@ == t@,
        res.error_msg@ == m@,
        cloned(*s, res.span),
{
    Error { error_type: t.to_string(), error_msg: m.to_string(), span: s.clone() }
}

/// The text of an optional string.
pub open spec fn opt_str(o: Option<String>) -> Option<Seq<char>> {
    match o {
        Some(s) => Some(s@),
        None => None,
    }
}

/// A value of the language.
pub enum Value {
    /// A unary number: the literal of that many `0`s.
    Unary(Natural, Option<String>),
    /// The characters `[start, end)` of a shared character buffer.
    Literal(usize, usize, Arc<Vec<char>>, Option<String>),
    /// The values `[start, end)` of a shared value buffer.
    Tuple(usize, usize, Arc<Vec<Value>>, Option<String>),
    /// A reference to a function by name.
    Function(String, Option<String>),
}

/// The mathematical content of a value: buffers become sequences, and
/// unary numbers become natural numbers.
pub enum ValueView {
    Unary(nat, Option<Seq<char>>),
    Literal(nat, nat, Seq<char>, Option<Seq<char>>),
    Tuple(nat, nat, Seq<ValueView>, Option<Seq<char>>),
    Function(Seq<char>, Option<Seq<char>>),
}

/// The view of a value.
pub open spec fn value_view(v: Value) -> ValueView
    decreases v,
{
    match v {
        Value::Unary(n, t) => ValueView::Unary(n@, opt_str(t)),
        Value::Literal(s, e, cs, t) => ValueView::Literal(s as nat, e as nat, cs@, opt_str(t)),
        Value::Tuple(s, e, vs, t) => ValueView::Tuple(
            s as nat,
            e as nat,
            Seq::new(
                vs@.len(),
                |i: int|
                    if 0 <= i < vs@.len() {
                        value_view(vs@[i])
                    } else {
                        ValueView::Unary(0, None)
                    },
            ),
            opt_str(t),
        ),
        Value::Function(f, t) => ValueView::Function(f@, opt_str(t)),
    }
}

impl View for Value {
    type V = ValueView;

    open spec fn view(&self) -> ValueView {
        value_view(*self)
    }
}

/// The views of a sequence of values.
pub open spec fn views(vs: Seq<Value>) -> Seq<ValueView> {
    Seq::new(vs.len(), |i: int| vs[i]@)
}

/// The views of a sequence with one more value.
pub proof fn lemma_views_push(vs: Seq<Value>, v: Value)
    ensures
        views(vs.push(v)) == views(vs).push(v@),
{
    assert(views(vs.push(v)) =~= views(vs).push(v@));
}

/// The view of a tuple value holds the views of its items.
pub proof fn lemma_tuple_view(s: usize, e: usize, vs: Arc<Vec<Value>>, t: Option<String>)
    ensures
        Value::Tuple(s, e, vs, t)@ == ValueView::Tuple(s as nat, e as nat, views(vs@), opt_str(t)),
{
    let v = Value::Tuple(s, e, vs, t);
    let w = ValueView::Tuple(s as nat, e as nat, views(vs@), opt_str(t));
    match v@ {
        ValueView::Tuple(s2, e2, ws, t2) => {
            assert(s2 == s);
            assert(e2 == e);
            assert(t2 == opt_str(t));
            assert(ws.len() == views(vs@).len());
            assert forall|i: int| 0 <= i < ws.len() implies ws[i] == views(vs@)[i] by {
            }
            assert(ws =~= views(vs@));
        },
        _ => { assert(false); },
    }
}

/// The range `[s, e)` lies within a buffer of `len` items.
pub open spec fn slice_ok(s: nat, e: nat, len: nat) -> bool {
    s <= e <= len
}

/// Every character is `'0'`.
pub open spec fn all_zero(cs: Seq<char>) -> bool {
    forall|i: int| 0 <= i < cs.len() ==> cs[i] == '0'
}

/// A value whose literal and tuple ranges, at every depth, lie within their buffers.
pub open spec fn view_wf(v: ValueView) -> bool
    decreases v,
{
    match v {
        ValueView::Unary(..) => true,
        ValueView::Function(..) => true,
        ValueView::Literal(s, e, cs, _) => slice_ok(s, e, cs.len()),
        ValueView::Tuple(s, e, vs, _) => slice_ok(s, e, vs.len()) && forall|i: int|
            s <= i < e ==> view_wf(#[trigger] vs[i]),
    }
}

/// Equality of values: literals and tuples compare their ranges item by
/// item; a unary number equals a literal of as many `'0'`s; the type tags
/// play no part. A range outside its buffer equals nothing.
pub open spec fn view_eq(a: ValueView, b: ValueView) -> bool
    decreases a,
{
    match (a, b) {
        (ValueView::Literal(ls, le, lv, _), ValueView::Literal(rs, re, rv, _)) => {
            &&& slice_ok(ls, le, lv.len())
            &&& slice_ok(rs, re, rv.len())
            &&& le - ls == re - rs
            &&& lv.subrange(ls as int, le as int) == rv.subrange(rs as int, re as int)
        },
        (ValueView::Tuple(ls, le, lv, _), ValueView::Tuple(rs, re, rv, _)) => {
            &&& slice_ok(ls, le, lv.len())
            &&& slice_ok(rs, re, rv.len())
            &&& le - ls == re - rs
            &&& forall|i: int|
                0 <= i < le - ls ==> view_eq(#[trigger] lv[ls + i], rv[rs + i])
        },
        (ValueView::Function(lf, _), ValueView::Function(rf, _)) => lf == rf,
        (ValueView::Unary(li, _), ValueView::Unary(ri, _)) => li == ri,
        (ValueView::Unary(li, _), ValueView::Literal(rs, re, rv, _)) => {
            &&& slice_ok(rs, re, rv.len())
            &&& all_zero(rv.subrange(rs as int, re as int))
            &&& li == re - rs
        },
        (ValueView::Literal(ls, le, lv, _), ValueView::Unary(ri, _)) => {
            &&& slice_ok(ls, le, lv.len())
            &&& all_zero(lv.subrange(ls as int, le as int))
            &&& ri == le - ls
        },
        _ => false,
    }
}


/// The type tag a value carries.
pub open spec fn view_tag(v: ValueView) -> Option<Seq<char>> {
    match v {
        ValueView::Unary(_, t) => t,
        ValueView::Literal(_, _, _, t) => t,
        ValueView::Tuple(_, _, _, t) => t,
        ValueView::Function(_, t) => t,
    }
}

/// The same value with another type tag.
pub open spec fn with_tag(v: ValueView, t: Option<Seq<char>>) -> ValueView {
    match v {
        ValueView::Unary(n, _) => ValueView::Unary(n, t),
        ValueView::Literal(s, e, cs, _) => ValueView::Literal(s, e, cs, t),
        ValueView::Tuple(s, e, vs, _) => ValueView::Tuple(s, e, vs, t),
        ValueView::Function(f, _) => ValueView::Function(f, t),
    }
}

/// The `Debug` text of a value: a literal of `'0'`s (the empty literal
/// included) shows as its length, any other literal in double quotes; a tuple
/// shows its items between parentheses, separated by commas, with a trailing
/// comma when it has exactly one; functions show their name, unary numbers
/// their decimal digits.
pub open spec fn debug_view(v: ValueView) -> Seq<char>
    decreases v, 0nat,
{
    match v {
        ValueView::Literal(s, e, cs, _) => if all_zero(cs.subrange(s as int, e as int)) {
            decimal_chars((e - s) as nat)
        } else {
            seq!['"'] + cs.subrange(s as int, e as int) + seq!['"']
        },
        ValueView::Tuple(s, e, vs, _) => seq!['('] + debug_items(vs, s as int, e as int) + (if e
            - s == 1 {
            seq![',']
        } else {
            Seq::empty()
        }) + seq![')'],
        ValueView::Function(f, _) => f,
        ValueView::Unary(n, _) => decimal_chars(n),
    }
}

/// The `Debug` texts of the items `[lo, hi)`, separated by commas.
pub open spec fn debug_items(vs: Seq<ValueView>, lo: int, hi: int) -> Seq<char>
    decreases vs, hi - lo,
{
    if 0 <= lo < hi <= vs.len() {
        debug_items(vs, lo, hi - 1) + (if hi - 1 > lo {
            seq![',']
        } else {
            Seq::empty()
        }) + debug_view(vs[hi - 1])
    } else {
        Seq::empty()
    }
}

impl Clone for Value {
    fn clone(&self) -> (res: Self)
        ensures
            res@ == self@,
    {
        match self {
            Value::Unary(n, t) => Value::Unary(n.clone(), t.clone()),
            Value::Literal(s, e, cs, t) => Value::Literal(*s, *e, cs.clone(), t.clone()),
            Value::Tuple(s, e, vs, t) => {
                let vs2 = vs.clone();
                let t2 = t.clone();
                proof {
                    lemma_tuple_view(*s, *e, *vs, *t);
                    lemma_tuple_view(*s, *e, vs2, t2);
                }
                Value::Tuple(*s, *e, vs2, t2)
            },
            Value::Function(f, t) => Value::Function(f.clone(), t.clone()),
        }
    }
}

/// Equality of two values, as `view_eq` states it.
#[verifier::loop_isolation(false)]
pub fn value_eq(a: &Value, b: &Value) -> (res: bool)
    ensures
        res == view_eq(a@, b@),
    decreases a@,
{
    match (a, b) {
        (Value::Literal(ls, le, lv, lt), Value::Literal(rs, re, rv, rt)) => {
            assert(a@ == ValueView::Literal(*ls as nat, *le as nat, lv@, opt_str(*lt)));
            assert(b@ == ValueView::Literal(*rs as nat, *re as nat, rv@, opt_str(*rt)));
            if !(*ls <= *le && *le <= lv.len() && *rs <= *re && *re <= rv.len()) {
                return false;
            }
            if *le - *ls != *re - *rs {
                return false;
            }
            let n = *le - *ls;
            let mut i: usize = 0;
            while i < n
                invariant
                    *ls <= *le <= lv@.len(),
                    *rs <= *re <= rv@.len(),
                    n == *le - *ls,
                    n == *re - *rs,
                    i <= n,
                    forall|j: int| 0 <= j < i ==> #[trigger] lv@[*ls + j] == rv@[*rs + j],
                decreases n - i,
            {
                if lv[*ls + i] != rv[*rs + i] {
                    assert(lv@.subrange(*ls as int, *le as int)[i as int] != rv@.subrange(
                        *rs as int,
                        *re as int,
                    )[i as int]);
                    return false;
                }
                i = i + 1;
            }
            assert forall|j: int| 0 <= j < n implies lv@.subrange(*ls as int, *le as int)[j]
                == rv@.subrange(*rs as int, *re as int)[j] by {
                assert(lv@[*ls + j] == rv@[*rs + j]);
            }
            assert(lv@.subrange(*ls as int, *le as int) =~= rv@.subrange(*rs as int, *re as int));
            true
        },
        (Value::Tuple(ls, le, lv, lt), Value::Tuple(rs, re, rv, rt)) => {
            proof {
                lemma_tuple_view(*ls, *le, *lv, *lt);
                lemma_tuple_view(*rs, *re, *rv, *rt);
            }
            if !(*ls <= *le && *le <= lv.len() && *rs <= *re && *re <= rv.len()) {
                return false;
            }
            if *le - *ls != *re - *rs {
                return false;
            }
            let n = *le - *ls;
            let mut i: usize = 0;
            while i < n
                invariant
                    *ls <= *le <= lv@.len(),
                    *rs <= *re <= rv@.len(),
                    n == *le - *ls,
                    n == *re - *rs,
                    i <= n,
                    forall|j: int| 0 <= j < i ==> view_eq(#[trigger] lv@[*ls + j]@, rv@[*rs + j]@),
                decreases n - i,
            {
                proof {
                    let k = *ls + i;
                    let tv = ValueView::Tuple(*ls as nat, *le as nat, views(lv@), opt_str(*lt));
                    assert(a@ == tv);
                    assert(views(lv@)[k as int] == lv@[k as int]@);
                    assert(decreases_to!(tv => tv->Tuple_2));
                    assert(decreases_to!(tv->Tuple_2 => tv->Tuple_2[k as int]));
                }
                if !value_eq(&lv[*ls + i], &rv[*rs + i]) {
                    assert(views(lv@)[*ls + i] == lv@[*ls + i]@);
                    return false;
                }
                i = i + 1;
            }
            assert forall|j: int| 0 <= j < n implies view_eq(
                #[trigger] views(lv@)[*ls + j],
                views(rv@)[*rs + j],
            ) by {
                assert(views(lv@)[*ls + j] == lv@[*ls + j]@);
                assert(views(rv@)[*rs + j] == rv@[*rs + j]@);
            }
            true
        },
        (Value::Function(lf, _), Value::Function(rf, _)) => *lf == *rf,
        (Value::Unary(li, _), Value::Unary(ri, _)) => nat_eq(li, ri),
        (Value::Unary(li, _), Value::Literal(rs, re, rv, _)) => {
            if !(*rs <= *re && *re <= rv.len()) {
                return false;
            }
            let mut k: usize = *rs;
            while k < *re
                invariant
                    *rs <= k <= *re <= rv@.len(),
                    forall|j: int| *rs <= j < k ==> rv@[j] == '0',
                decreases *re - k,
            {
                if rv[k] != '0' {
                    assert(rv@.subrange(*rs as int, *re as int)[k - *rs] != '0');
                    return false;
                }
                k = k + 1;
            }
            let n = nat_from_u64((*re - *rs) as u64);
            nat_eq(li, &n)
        },
        (Value::Literal(ls, le, lv, _), Value::Unary(ri, _)) => {
            if !(*ls <= *le && *le <= lv.len()) {
                return false;
            }
            let mut k: usize = *ls;
            while k < *le
                invariant
                    *ls <= k <= *le <= lv@.len(),
                    forall|j: int| *ls <= j < k ==> lv@[j] == '0',
                decreases *le - k,
            {
                if lv[k] != '0' {
                    assert(lv@.subrange(*ls as int, *le as int)[k - *ls] != '0');
                    return false;
                }
                k = k + 1;
            }
            let n = nat_from_u64((*le - *ls) as u64);
            nat_eq(ri, &n)
        },
        _ => false,
    }
}

impl PartialEq for Value {
    fn eq(&self, other: &Self) -> (res: bool) {
        value_eq(self, other)
    }
}

impl vstd::std_specs::cmp::PartialEqSpecImpl for Value {
    open spec fn obeys_eq_spec() -> bool {
        true
    }

    open spec fn eq_spec(&self, other: &Self) -> bool {
        view_eq(self@, other@)
    }
}


/// Appends the `Debug` text of `v` to `out`.
#[verifier::loop_isolation(false)]
pub fn push_debug(out: &mut Vec<char>, v: &Value)
    requires
        view_wf(v@),
    ensures
        final(out)@ == old(out)@ + debug_view(v@),
    decreases v@,
{
    match v {
        Value::Literal(s, e, cs, t) => {
            assert(v@ == ValueView::Literal(*s as nat, *e as nat, cs@, opt_str(*t)));
            let mut unary = true;
            let mut k: usize = *s;
            while k < *e
                invariant
                    *s <= k <= *e <= cs@.len(),
                    unary == forall|j: int| *s <= j < k ==> cs@[j] == '0',
                decreases *e - k,
            {
                if cs[k] != '0' {
                    unary = false;
                }
                k = k + 1;
            }
            let ghost sub = cs@.subrange(*s as int, *e as int);
            assert(unary == all_zero(sub)) by {
                if unary {
                    assert forall|j: int| 0 <= j < sub.len() implies sub[j] == '0' by {
                        assert(sub[j] == cs@[*s + j]);
                    }
                } else {
                    let j = choose|j: int| *s <= j < *e && cs@[j] != '0';
                    assert(sub[j - *s] != '0');
                }
            }
            if unary {
                crate::text::push_decimal(out, (*e - *s) as u128);
            } else {
                out.push('"');
                let mut k: usize = *s;
                while k < *e
                    invariant
                        *s <= k <= *e <= cs@.len(),
                        out@ == old(out)@ + seq!['"'] + cs@.subrange(*s as int, k as int),
                    decreases *e - k,
                {
                    out.push(cs[k]);
                    k = k + 1;
                    assert(out@ =~= old(out)@ + seq!['"'] + cs@.subrange(*s as int, k as int));
                }
                out.push('"');
                assert(out@ =~= old(out)@ + debug_view(v@));
            }
        },
        Value::Tuple(s, e, vs, t) => {
            proof {
                lemma_tuple_view(*s, *e, *vs, *t);
            }
            let ghost tv = ValueView::Tuple(*s as nat, *e as nat, views(vs@), opt_str(*t));
            let ghost start = old(out)@ + seq!['('];
            out.push('(');
            let mut k: usize = *s;
            while k < *e
                invariant
                    *s <= k <= *e <= vs@.len(),
                    v@ == tv,
                    out@ == start + debug_items(views(vs@), *s as int, k as int),
                decreases *e - k,
            {
                if k > *s {
                    out.push(',');
                }
                proof {
                    assert(views(vs@)[k as int] == vs@[k as int]@);
                    assert(decreases_to!(tv => tv->Tuple_2));
                    assert(decreases_to!(tv->Tuple_2 => tv->Tuple_2[k as int]));
                    assert(view_wf(tv->Tuple_2[k as int]));
                }
                push_debug(out, &vs[k]);
                k = k + 1;
                assert(out@ =~= start + debug_items(views(vs@), *s as int, k as int));
            }
            if *e - *s == 1 {
                out.push(',');
            }
            out.push(')');
            assert(out@ =~= old(out)@ + debug_view(v@));
        },
        Value::Function(f, _) => {
            let fs = str_chars(f.as_str());
            push_chars(out, &fs);
        },
        Value::Unary(n, _) => {
            let ds = nat_to_decimal(n);
            push_chars(out, &ds);
        },
    }
}

impl Value {
    /// The type tag of the value.
    pub fn typof(&self) -> (res: &Option<String>)
        ensures
            opt_str(*res) == view_tag(self@),
    {
        match self {
            Value::Unary(_, tt) => tt,
            Value::Literal(_, _, _, tt) => tt,
            Value::Tuple(s, e, vs, tt) => {
                proof {
                    lemma_tuple_view(*s, *e, *vs, *tt);
                }
                tt
            },
            Value::Function(_, tt) => tt,
        }
    }

    /// The unary number `v`.
    pub fn from_u64(v: u64) -> (res: Value)
        ensures
            res@ == ValueView::Unary(v as nat, None),
    {
        Value::Unary(nat_from_u64(v), None)
    }

    /// The unary number spelled in decimal by `buf`; the bytes must parse
    /// (`BigUint::parse_bytes` with radix 10).
    pub fn unary(buf: &[u8]) -> (res: Value)
        requires
            decimal_parse(buf@) is Some,
        ensures
            res@ == ValueView::Unary(decimal_parse(buf@).unwrap(), None),
    {
        let n = nat_parse_decimal(buf);
        match n {
            Some(n) => Value::Unary(n, None),
            None => {
                assert(false);
                Value::from_u64(0)
            },
        }
    }

    /// The unary number spelled in decimal by `buf`, or `None` where the
    /// bytes do not parse.
    pub fn parse_unary(buf: &[u8]) -> (res: Option<Value>)
        ensures
            res is Some <==> decimal_parse(buf@) is Some,
            res is Some ==> res.unwrap()@ == ValueView::Unary(decimal_parse(buf@).unwrap(), None),
    {
        match nat_parse_decimal(buf) {
            Some(_) => Some(Value::unary(buf)),
            None => None,
        }
    }

    /// The literal holding the characters of `cs`.
    pub fn literal(cs: &str) -> (res: Value)
        ensures
            res@ == ValueView::Literal(0, cs@.len(), cs@, None),
    {
        let cs = str_chars(cs);
        let n = cs.len();
        Value::Literal(0, n, Arc::new(cs), None)
    }

    /// The tuple of the values `ts`.
    pub fn tuple(ts: Vec<Value>) -> (res: Value)
        ensures
            res@ == ValueView::Tuple(0, ts@.len(), views(ts@), None),
    {
        let n = ts.len();
        let a = Arc::new(ts);
        proof {
            lemma_tuple_view(0, n, a, None);
        }
        Value::Tuple(0, n, a, None)
    }

    /// A reference to the function named `fid`.
    pub fn function(fid: &str) -> (res: Value)
        ensures
            res@ == ValueView::Function(fid@, None),
    {
        Value::Function(fid.to_string(), None)
    }

    /// The same value tagged with the type `tt`.
    pub fn typed(self, tt: &str) -> (res: Value)
        ensures
            res@ == with_tag(self@, Some(tt@)),
    {
        let tt = tt.to_string();
        match self {
            Value::Unary(ui, _) => Value::Unary(ui, Some(tt)),
            Value::Literal(cs, ce, cvs, _) => Value::Literal(cs, ce, cvs, Some(tt)),
            Value::Tuple(ts, te, tvs, t) => {
                proof {
                    lemma_tuple_view(ts, te, tvs, t);
                    lemma_tuple_view(ts, te, tvs, Some(tt));
                }
                Value::Tuple(ts, te, tvs, Some(tt))
            },
            Value::Function(fi, _) => Value::Function(fi, Some(tt)),
        }
    }

    /// The `Debug` text of the value.
    pub fn debug_string(&self) -> (res: String)
        requires
            view_wf(self@),
        ensures
            res@ == debug_view(self@),
    {
        let mut out: Vec<char> = Vec::new();
        push_debug(&mut out, self);
        assert(out@ =~= debug_view(self@));
        chars_to_string(&out)
    }
}


/// A gradual type: a nominal name, a literal pattern, a structure, a
/// function identity and invariants, each optional.
pub struct Type {
    pub name: Option<String>,
    pub regex: Option<String>,
    pub strct: Option<Vec<Type>>,
    pub fnid: Option<String>,
    pub invariants: Vec<String>,
}

/// The plain contents of a type.
pub struct TypeView {
    pub name: Option<Seq<char>>,
    pub regex: Option<Seq<char>>,
    pub strct: Option<Seq<TypeView>>,
    pub fnid: Option<Seq<char>>,
    pub invariants: Seq<Seq<char>>,
}

/// The view of a type.
pub open spec fn type_view(t: Type) -> TypeView
    decreases t,
{
    TypeView {
        name: opt_str(t.name),
        regex: opt_str(t.regex),
        strct: match t.strct {
            Some(ts) => Some(
                Seq::new(
                    ts@.len(),
                    |i: int|
                        if 0 <= i < ts@.len() {
                            type_view(ts@[i])
                        } else {
                            TypeView {
                                name: None,
                                regex: None,
                                strct: None,
                                fnid: None,
                                invariants: Seq::empty(),
                            }
                        },
                ),
            ),
            None => None,
        },
        fnid: opt_str(t.fnid),
        invariants: Seq::new(t.invariants@.len(), |i: int| t.invariants@[i]@),
    }
}

impl View for Type {
    type V = TypeView;

    open spec fn view(&self) -> TypeView {
        type_view(*self)
    }
}

impl Clone for Type {
    fn clone(&self) -> (res: Self)
        ensures
            res@ == self@,
        decreases self,
    {
        let strct = match &self.strct {
            Some(ts) => {
                let mut out: Vec<Type> = Vec::new();
                let mut k: usize = 0;
                while k < ts.len()
                    invariant
                        self.strct == Some(*ts),
                        k <= ts@.len(),
                        out@.len() == k,
                        forall|j: int| 0 <= j < k ==> (#[trigger] out@[j])@ == ts@[j]@,
                    decreases ts@.len() - k,
                {
                    assert(decreases_to!(*self => self.strct));
                    assert(decreases_to!(self.strct => self.strct->Some_0));
                    assert(decreases_to!(self.strct->Some_0 => self.strct->Some_0@));
                    assert(decreases_to!(self.strct->Some_0@ => self.strct->Some_0@[k as int]));
                    out.push(ts[k].clone());
                    k = k + 1;
                }
                Some(out)
            },
            None => None,
        };
        let mut invariants: Vec<String> = Vec::new();
        let mut k: usize = 0;
        while k < self.invariants.len()
            invariant
                k <= self.invariants@.len(),
                invariants@ == self.invariants@.subrange(0, k as int),
            decreases self.invariants@.len() - k,
        {
            invariants.push(self.invariants[k].clone());
            k = k + 1;
            assert(invariants@ =~= self.invariants@.subrange(0, k as int));
        }
        assert(invariants@ =~= self.invariants@);
        let res = Type {
            name: self.name.clone(),
            regex: self.regex.clone(),
            strct,
            fnid: self.fnid.clone(),
            invariants,
        };
        assert(res@.strct =~= self@.strct);
        assert(res@.invariants =~= self@.invariants);
        res
    }
}

/// The name a type goes by: its nominal name, or `Value`.
pub open spec fn type_nom(t: Type) -> Seq<char> {
    match t.name {
        Some(n) => n@,
        None => "Value"@,
    }
}

/// A type that constrains nothing but, possibly, its name.
pub open spec fn only_named(t: Type, n: Option<Seq<char>>) -> bool {
    &&& opt_str(t.name) == n
    &&& t.regex is None
    &&& t.strct is None
    &&& t.fnid is None
    &&& t.invariants@.len() == 0
}

/// A value satisfies a constraint whose literal and structural parts are
/// absent: it is the named function, when a function is required, and it
/// carries the required nominal type, when one is required.
pub open spec fn accepts_spec(v: ValueView, c: Type) -> bool {
    &&& (c.fnid is Some ==> v is Function && v->Function_0 == c.fnid->Some_0@)
    &&& (c.name is Some ==> view_tag(v) == Some(c.name->Some_0@))
}

/// The message of the first check of `c` that `v` fails.
pub open spec fn reject_message(v: ValueView, c: Type) -> Seq<char> {
    if c.fnid is Some && !(v is Function) {
        "Value "@ + debug_view(v) + " is not a function"@
    } else if c.fnid is Some && v->Function_0 != c.fnid->Some_0@ {
        "Function #"@ + v->Function_0 + " does not satisfy constraint: "@ + type_nom(c)
    } else if view_tag(v) is Some {
        "Type "@ + str_debug(view_tag(v)->Some_0) + " does not satisfy constraint: "@ + type_nom(c)
    } else {
        "Type ? does not satisfy constraint: "@ + type_nom(c)
    }
}

/// What `accepts` needs in order to word its messages.
pub open spec fn accepts_requires(v: ValueView, c: Type) -> bool {
    &&& c.regex is None
    &&& c.strct is None
    &&& (c.fnid is Some && !(v is Function)) ==> view_wf(v)
}

impl Type {
    /// The name the type goes by: its nominal name, or `Value`.
    pub fn nom(&self) -> (res: String)
        ensures
            res@ == type_nom(*self),
    {
        match &self.name {
            Some(n) => n.clone(),
            None => "Value".to_string(),
        }
    }

    /// The type that constrains nothing.
    pub fn default() -> (res: Type)
        ensures
            only_named(res, None),
    {
        Type { name: None, regex: None, strct: None, fnid: None, invariants: Vec::new() }
    }

    /// The nominal type `n`.
    pub fn nominal(n: &str) -> (res: Type)
        ensures
            only_named(res, Some(n@)),
    {
        Type {
            name: Some(n.to_string()),
            regex: None,
            strct: None,
            fnid: None,
            invariants: Vec::new(),
        }
    }

    /// The type of literals matching the pattern `r`.
    pub fn regex(r: &str) -> (res: Type)
        ensures
            res.name is None,
            res.regex is Some && res.regex->Some_0@ == r@,
            res.strct is None,
            res.fnid is None,
            res.invariants@.len() == 0,
    {
        Type {
            name: None,
            regex: Some(r.to_string()),
            strct: None,
            fnid: None,
            invariants: Vec::new(),
        }
    }

    /// The type of the function `f`.
    pub fn function(f: &str) -> (res: Type)
        ensures
            res.name is None,
            res.regex is None,
            res.strct is None,
            res.fnid is Some && res.fnid->Some_0@ == f@,
            res.invariants@.len() == 0,
    {
        Type {
            name: None,
            regex: None,
            strct: None,
            fnid: Some(f.to_string()),
            invariants: Vec::new(),
        }
    }

    /// A dynamic type error with the message `msg` at `span`.
    pub fn reject<S>(msg: &str, span: S) -> (res: Error<S>)
        ensures
            res.error_type@ == "Dynamic Type Error"@,
            res.error_msg@ == msg@,
            res.span == span,
    {
        Error { error_type: "Dynamic Type Error".to_string(), error_msg: msg.to_string(), span }
    }

    /// Checks `v` against `constraint`. Literal and structural constraints are
    /// not implemented and are left out.
    pub fn accepts<S>(v: &Value, constraint: &Type, span: S) -> (res: Result<(), Error<S>>)
        requires
            accepts_requires(v@, *constraint),
        ensures
            res is Ok <==> accepts_spec(v@, *constraint),
            res matches Err(e) ==> {
                &&& e.error_type@ == "Dynamic Type Error"@
                &&& e.error_msg@ == reject_message(v@, *constraint)
                &&& e.span == span
            },
    {
        let mut msg: Vec<char> = Vec::new();
        if let Some(cfi) = &constraint.fnid {
            if let Value::Function(vfi, _) = v {
                if *cfi != *vfi {
                    push_chars(&mut msg, &str_chars("Function #"));
                    push_chars(&mut msg, &str_chars(vfi.as_str()));
                    push_chars(&mut msg, &str_chars(" does not satisfy constraint: "));
                    push_chars(&mut msg, &str_chars(constraint.nom().as_str()));
                    assert(msg@ =~= reject_message(v@, *constraint));
                    return Err(Type::reject(chars_to_string(&msg).as_str(), span));
                }
            } else {
                push_chars(&mut msg, &str_chars("Value "));
                let mut d: Vec<char> = Vec::new();
                push_debug(&mut d, v);
                push_chars(&mut msg, &d);
                push_chars(&mut msg, &str_chars(" is not a function"));
                assert(msg@ =~= reject_message(v@, *constraint));
                return Err(Type::reject(chars_to_string(&msg).as_str(), span));
            }
        }
        if let Some(cnom) = &constraint.name {
            if let Some(vnom) = v.typof() {
                if *cnom != *vnom {
                    push_chars(&mut msg, &str_chars("Type "));
                    push_chars(&mut msg, &debug_str(vnom.as_str()));
                    push_chars(&mut msg, &str_chars(" does not satisfy constraint: "));
                    push_chars(&mut msg, &str_chars(constraint.nom().as_str()));
                    assert(msg@ =~= reject_message(v@, *constraint));
                    return Err(Type::reject(chars_to_string(&msg).as_str(), span));
                }
            } else {
                push_chars(&mut msg, &str_chars("Type ? does not satisfy constraint: "));
                push_chars(&mut msg, &str_chars(constraint.nom().as_str()));
                assert(msg@ =~= reject_message(v@, *constraint));
                return Err(Type::reject(chars_to_string(&msg).as_str(), span));
            }
        }
        Ok(())
    }

    /// Checks `v` against each of `constraints`, and accepts it when one of
    /// them does.
    pub fn accepts_any<S: Clone>(v: &Value, constraints: &Vec<Type>, span: S) -> (res: Result<
        (),
        Error<S>,
    >)
        requires
            forall|i: int|
                0 <= i < constraints@.len() ==> accepts_requires(v@, #[trigger] constraints@[i]),
            (forall|i: int|
                0 <= i < constraints@.len() ==> !accepts_spec(v@, #[trigger] constraints@[i]))
                ==> view_wf(v@),
        ensures
            res is Ok <==> exists|i: int|
                0 <= i < constraints@.len() && accepts_spec(v@, #[trigger] constraints@[i]),
            res matches Err(e) ==> {
                &&& e.error_type@ == "Dynamic Type Error"@
                &&& e.error_msg@ == "Value "@ + debug_view(v@) + " does not satisfy any constraint"@
                &&& e.span == span
            },
    {
        let mut accepts = false;
        let mut k: usize = 0;
        while k < constraints.len()
            invariant
                k <= constraints@.len(),
                forall|i: int|
                    0 <= i < constraints@.len() ==> accepts_requires(v@, #[trigger] constraints@[i]),
                accepts <==> exists|i: int|
                    0 <= i < k && accepts_spec(v@, #[trigger] constraints@[i]),
            decreases constraints@.len() - k,
        {
            if Type::accepts(v, &constraints[k], span.clone()).is_ok() {
                accepts = true;
            }
            k = k + 1;
        }
        if accepts {
            Ok(())
        } else {
            let mut msg: Vec<char> = Vec::new();
            push_chars(&mut msg, &str_chars("Value "));
            push_debug(&mut msg, v);
            push_chars(&mut msg, &str_chars(" does not satisfy any constraint"));
            assert(msg@ =~= "Value "@ + debug_view(v@) + " does not satisfy any constraint"@);
            Err(Type::reject(chars_to_string(&msg).as_str(), span))
        }
    }
}


/// A function: its name, its parameters (variable indices with their
/// types) and the expressions of its body; the last one gives the result.
pub struct FunctionDefinition<S> {
    pub name: String,
    pub args: Vec<(usize, Type)>,
    pub body: Vec<Expression<S>>,
}

/// A program: function definitions, and the expressions evaluated in order.
/// Where two definitions share a name, the later one is the one called.
pub struct Program<S> {
    pub functions: Vec<FunctionDefinition<S>>,
    pub expressions: Vec<Expression<S>>,
}

/// A part of a literal introduction.
pub enum LIPart<S> {
    Literal(String),
    InlineVariable(usize),
    Expression(Expression<S>),
}

/// A part of a tuple introduction.
pub enum TIPart<S> {
    Tuple(Arc<Vec<Value>>),
    Variable(usize),
    InlineVariable(usize),
    Expression(Expression<S>),
}

/// A part of a literal-unpacking pattern.
pub enum LHSLiteralPart {
    Literal(String),
    Variable(usize),
}

/// A pattern.
pub enum LHSPart {
    Tuple(Vec<LHSPart>),
    Literal(String),
    UnpackLiteral(Vec<LHSLiteralPart>, Option<usize>, Vec<LHSLiteralPart>),
    Variable(usize),
    Any,
}

/// An expression, with its type and its span.
pub enum Expression<S> {
    FlatMap(Arc<LHSPart>, Arc<Expression<S>>, Arc<TIPart<S>>, Type, S),
    ValueIntroduction(Value, Type, S),
    LiteralIntroduction(Arc<Vec<LIPart<S>>>, Type, S),
    TupleIntroduction(Arc<Vec<TIPart<S>>>, Type, S),
    VariableReference(usize, Type, S),
    FunctionReference(String, Type, S),
    FunctionApplication(String, Arc<Vec<Expression<S>>>, Type, S),
    PatternMatch(Arc<Expression<S>>, Arc<Vec<(LHSPart, Expression<S>)>>, Type, S),
    Failure(Type, S),
}

/// The type an expression carries.
pub open spec fn expr_type<S>(e: Expression<S>) -> Type {
    match e {
        Expression::FlatMap(_, _, _, t, _) => t,
        Expression::ValueIntroduction(_, t, _) => t,
        Expression::LiteralIntroduction(_, t, _) => t,
        Expression::TupleIntroduction(_, t, _) => t,
        Expression::VariableReference(_, t, _) => t,
        Expression::FunctionReference(_, t, _) => t,
        Expression::FunctionApplication(_, _, t, _) => t,
        Expression::PatternMatch(_, _, t, _) => t,
        Expression::Failure(t, _) => t,
    }
}

/// The span of an expression.
pub open spec fn expr_span<S>(e: Expression<S>) -> S {
    match e {
        Expression::FlatMap(_, _, _, _, s) => s,
        Expression::ValueIntroduction(_, _, s) => s,
        Expression::LiteralIntroduction(_, _, s) => s,
        Expression::TupleIntroduction(_, _, s) => s,
        Expression::VariableReference(_, _, s) => s,
        Expression::FunctionReference(_, _, s) => s,
        Expression::FunctionApplication(_, _, _, s) => s,
        Expression::PatternMatch(_, _, _, s) => s,
        Expression::Failure(_, s) => s,
    }
}

/// The same expression carrying the type `t`.
pub open spec fn with_expr_type<S>(e: Expression<S>, t: Type) -> Expression<S> {
    match e {
        Expression::FlatMap(l, x, y, _, s) => Expression::FlatMap(l, x, y, t, s),
        Expression::ValueIntroduction(v, _, s) => Expression::ValueIntroduction(v, t, s),
        Expression::LiteralIntroduction(v, _, s) => Expression::LiteralIntroduction(v, t, s),
        Expression::TupleIntroduction(v, _, s) => Expression::TupleIntroduction(v, t, s),
        Expression::VariableReference(v, _, s) => Expression::VariableReference(v, t, s),
        Expression::FunctionReference(v, _, s) => Expression::FunctionReference(v, t, s),
        Expression::FunctionApplication(f, a, _, s) => Expression::FunctionApplication(f, a, t, s),
        Expression::PatternMatch(x, a, _, s) => Expression::PatternMatch(x, a, t, s),
        Expression::Failure(_, s) => Expression::Failure(t, s),
    }
}

// ---------------------------------------------------------------------------
// Structural equality, which ignores types and spans.

/// Equality of literal-unpacking parts.
pub open spec fn lhs_lit_part_eq(a: LHSLiteralPart, b: LHSLiteralPart) -> bool {
    match (a, b) {
        (LHSLiteralPart::Literal(l), LHSLiteralPart::Literal(r)) => l@ == r@,
        (LHSLiteralPart::Variable(l), LHSLiteralPart::Variable(r)) => l == r,
        _ => false,
    }
}

/// Two sequences of literal-unpacking parts are equal item by item.
pub open spec fn lhs_lit_parts_eq(a: Seq<LHSLiteralPart>, b: Seq<LHSLiteralPart>) -> bool {
    a.len() == b.len() && forall|i: int| 0 <= i < a.len() ==> lhs_lit_part_eq(#[trigger] a[i], b[i])
}

/// Equality of patterns.
pub open spec fn lhs_eq(a: LHSPart, b: LHSPart) -> bool
    decreases a,
{
    match (a, b) {
        (LHSPart::Any, LHSPart::Any) => true,
        (LHSPart::Variable(l), LHSPart::Variable(r)) => l == r,
        (LHSPart::Literal(l), LHSPart::Literal(r)) => l@ == r@,
        (LHSPart::Tuple(l), LHSPart::Tuple(r)) => l@.len() == r@.len() && forall|i: int|
            0 <= i < l@.len() ==> lhs_eq(#[trigger] l@[i], r@[i]),
        (LHSPart::UnpackLiteral(lp, lm, ls), LHSPart::UnpackLiteral(rp, rm, rs)) => {
            &&& lhs_lit_parts_eq(lp@, rp@)
            &&& lm == rm
            &&& lhs_lit_parts_eq(ls@, rs@)
        },
        _ => false,
    }
}

/// Equality of expressions, ignoring types and spans.
pub open spec fn expr_eq<S, T>(a: Expression<S>, b: Expression<T>) -> bool
    decreases a,
{
    match (a, b) {
        (Expression::ValueIntroduction(l, _, _), Expression::ValueIntroduction(r, _, _)) => view_eq(
            l@,
            r@,
        ),
        (Expression::VariableReference(l, _, _), Expression::VariableReference(r, _, _)) => l == r,
        (Expression::FunctionReference(l, _, _), Expression::FunctionReference(r, _, _)) => l@
            == r@,
        (Expression::LiteralIntroduction(l, _, _), Expression::LiteralIntroduction(r, _, _)) => l@.len()
            == r@.len() && forall|i: int| 0 <= i < l@.len() ==> li_eq(#[trigger] l@[i], r@[i]),
        (Expression::TupleIntroduction(l, _, _), Expression::TupleIntroduction(r, _, _)) => l@.len()
            == r@.len() && forall|i: int| 0 <= i < l@.len() ==> ti_eq(#[trigger] l@[i], r@[i]),
        (
            Expression::FunctionApplication(lf, l, _, _),
            Expression::FunctionApplication(rf, r, _, _),
        ) => lf@ == rf@ && l@.len() == r@.len() && forall|i: int|
            0 <= i < l@.len() ==> expr_eq(#[trigger] l@[i], r@[i]),
        (Expression::PatternMatch(le, l, _, _), Expression::PatternMatch(re, r, _, _)) => {
            &&& expr_eq(*le, *re)
            &&& l@.len() == r@.len()
            &&& forall|i: int|
                0 <= i < l@.len() ==> lhs_eq((#[trigger] l@[i]).0, r@[i].0) && expr_eq(
                    l@[i].1,
                    r@[i].1,
                )
        },
        (Expression::Failure(_, _), Expression::Failure(_, _)) => true,
        _ => false,
    }
}

/// Equality of literal-introduction parts.
pub open spec fn li_eq<S, T>(a: LIPart<S>, b: LIPart<T>) -> bool
    decreases a,
{
    match (a, b) {
        (LIPart::Literal(l), LIPart::Literal(r)) => l@ == r@,
        (LIPart::InlineVariable(l), LIPart::InlineVariable(r)) => l == r,
        (LIPart::Expression(l), LIPart::Expression(r)) => expr_eq(l, r),
        _ => false,
    }
}

/// Equality of tuple-introduction parts.
pub open spec fn ti_eq<S, T>(a: TIPart<S>, b: TIPart<T>) -> bool
    decreases a,
{
    match (a, b) {
        (TIPart::InlineVariable(l), TIPart::InlineVariable(r)) => l == r,
        (TIPart::Variable(l), TIPart::Variable(r)) => l == r,
        (TIPart::Tuple(l), TIPart::Tuple(r)) => l@.len() == r@.len() && forall|i: int|
            0 <= i < l@.len() ==> view_eq((#[trigger] l@[i])@, r@[i]@),
        (TIPart::Expression(l), TIPart::Expression(r)) => expr_eq(l, r),
        _ => false,
    }
}


impl LHSLiteralPart {
    /// Structural equality.
    pub fn equals(&self, other: &LHSLiteralPart) -> (res: bool)
        ensures
            res == lhs_lit_part_eq(*self, *other),
    {
        match (self, other) {
            (LHSLiteralPart::Literal(lcs), LHSLiteralPart::Literal(rcs)) => *lcs == *rcs,
            (LHSLiteralPart::Variable(lcs), LHSLiteralPart::Variable(rcs)) => *lcs == *rcs,
            _ => false,
        }
    }

    /// The literal part `cs`.
    pub fn literal(cs: &str) -> (res: LHSLiteralPart)
        ensures
            res matches LHSLiteralPart::Literal(l) && l@ == cs@,
    {
        LHSLiteralPart::Literal(cs.to_string())
    }

    /// The variable part `v`.
    pub fn variable(v: usize) -> (res: LHSLiteralPart)
        ensures
            res == LHSLiteralPart::Variable(v),
    {
        LHSLiteralPart::Variable(v)
    }
}

/// Equality of two sequences of literal-unpacking parts.
fn lit_parts_equal(l: &Vec<LHSLiteralPart>, r: &Vec<LHSLiteralPart>) -> (res: bool)
    ensures
        res == lhs_lit_parts_eq(l@, r@),
{
    if l.len() != r.len() {
        return false;
    }
    let mut k: usize = 0;
    while k < l.len()
        invariant
            l@.len() == r@.len(),
            k <= l@.len(),
            forall|i: int| 0 <= i < k ==> lhs_lit_part_eq(#[trigger] l@[i], r@[i]),
        decreases l@.len() - k,
    {
        if !l[k].equals(&r[k]) {
            return false;
        }
        k = k + 1;
    }
    true
}

impl LHSPart {
    /// Patterns name no variables in use.
    pub fn vars(&self, _vars: &mut Vec<usize>)
        ensures
            final(_vars)@ == old(_vars)@,
    {
    }

    /// Structural equality.
    #[verifier::loop_isolation(false)]
    pub fn equals(&self, other: &LHSPart) -> (res: bool)
        ensures
            res == lhs_eq(*self, *other),
        decreases self,
    {
        match (self, other) {
            (LHSPart::Any, LHSPart::Any) => true,
            (LHSPart::Variable(lv), LHSPart::Variable(rv)) => *lv == *rv,
            (LHSPart::Literal(lv), LHSPart::Literal(rv)) => *lv == *rv,
            (LHSPart::Tuple(lv), LHSPart::Tuple(rv)) => {
                if lv.len() != rv.len() {
                    return false;
                }
                let mut k: usize = 0;
                while k < lv.len()
                    invariant
                        *self == LHSPart::Tuple(*lv),
                        lv@.len() == rv@.len(),
                        k <= lv@.len(),
                        forall|i: int| 0 <= i < k ==> lhs_eq(#[trigger] lv@[i], rv@[i]),
                    decreases lv@.len() - k,
                {
                    assert(decreases_to!(*self => self->Tuple_0));
                    assert(decreases_to!(self->Tuple_0 => self->Tuple_0@));
                    assert(decreases_to!(self->Tuple_0@ => self->Tuple_0@[k as int]));
                    if !lv[k].equals(&rv[k]) {
                        return false;
                    }
                    k = k + 1;
                }
                true
            },
            (LHSPart::UnpackLiteral(lpre, lmid, lsuf), LHSPart::UnpackLiteral(rpre, rmid, rsuf)) => {
                lit_parts_equal(lpre, rpre) && *lmid == *rmid && lit_parts_equal(lsuf, rsuf)
            },
            _ => false,
        }
    }

    /// The literal-unpacking pattern `pre`, `mid`, `suf`.
    pub fn ul(pre: Vec<LHSLiteralPart>, mid: Option<usize>, suf: Vec<LHSLiteralPart>) -> (res: LHSPart)
        ensures
            res == LHSPart::UnpackLiteral(pre, mid, suf),
    {
        LHSPart::UnpackLiteral(pre, mid, suf)
    }

    /// The pattern that matches anything.
    pub fn any() -> (res: LHSPart)
        ensures
            res == LHSPart::Any,
    {
        LHSPart::Any
    }

    /// The pattern that binds (or compares with) the variable `vi`.
    pub fn variable(vi: usize) -> (res: LHSPart)
        ensures
            res == LHSPart::Variable(vi),
    {
        LHSPart::Variable(vi)
    }

    /// The tuple pattern of the patterns `ts`.
    pub fn tuple(ts: Vec<LHSPart>) -> (res: LHSPart)
        ensures
            res == LHSPart::Tuple(ts),
    {
        LHSPart::Tuple(ts)
    }

    /// The literal pattern `cs`.
    pub fn literal(cs: &str) -> (res: LHSPart)
        ensures
            res matches LHSPart::Literal(l) && l@ == cs@,
    {
        LHSPart::Literal(cs.to_string())
    }
}


impl<S> LIPart<S> {
    /// Structural equality, ignoring types and spans.
    pub fn equals(&self, other: &LIPart<()>) -> (res: bool)
        ensures
            res == li_eq(*self, *other),
        decreases self,
    {
        match (self, other) {
            (LIPart::Literal(lcs), LIPart::Literal(rcs)) => *lcs == *rcs,
            (LIPart::InlineVariable(lv), LIPart::InlineVariable(rv)) => *lv == *rv,
            (LIPart::Expression(le), LIPart::Expression(re)) => {
                assert(decreases_to!(*self => self->Expression_0));
                le.equals(re)
            },
            _ => false,
        }
    }
}

impl<S> TIPart<S> {
    /// Structural equality, ignoring types and spans.
    #[verifier::loop_isolation(false)]
    pub fn equals(&self, other: &TIPart<()>) -> (res: bool)
        ensures
            res == ti_eq(*self, *other),
        decreases self,
    {
        match (self, other) {
            (TIPart::InlineVariable(lv), TIPart::InlineVariable(rv)) => *lv == *rv,
            (TIPart::Variable(lv), TIPart::Variable(rv)) => *lv == *rv,
            (TIPart::Tuple(lts), TIPart::Tuple(rts)) => {
                if lts.len() != rts.len() {
                    return false;
                }
                let mut k: usize = 0;
                while k < lts.len()
                    invariant
                        lts@.len() == rts@.len(),
                        k <= lts@.len(),
                        forall|i: int| 0 <= i < k ==> view_eq((#[trigger] lts@[i])@, rts@[i]@),
                    decreases lts@.len() - k,
                {
                    if !value_eq(&lts[k], &rts[k]) {
                        return false;
                    }
                    k = k + 1;
                }
                true
            },
            (TIPart::Expression(le), TIPart::Expression(re)) => {
                assert(decreases_to!(*self => self->Expression_0));
                le.equals(re)
            },
            _ => false,
        }
    }
}

impl<S> Expression<S> {
    /// Structural equality, ignoring types and spans.
    #[verifier::loop_isolation(false)]
    pub fn equals(&self, other: &Expression<()>) -> (res: bool)
        ensures
            res == expr_eq(*self, *other),
        decreases self,
    {
        match (self, other) {
            (Expression::ValueIntroduction(lui, _, _), Expression::ValueIntroduction(rui, _, _)) => {
                value_eq(lui, rui)
            },
            (Expression::VariableReference(lui, _, _), Expression::VariableReference(rui, _, _)) => {
                *lui == *rui
            },
            (Expression::FunctionReference(lui, _, _), Expression::FunctionReference(rui, _, _)) => {
                *lui == *rui
            },
            (Expression::LiteralIntroduction(lli, _, _), Expression::LiteralIntroduction(rli, _, _)) => {
                if lli.len() != rli.len() {
                    return false;
                }
                let mut k: usize = 0;
                while k < lli.len()
                    invariant
                        lli@.len() == rli@.len(),
                        k <= lli@.len(),
                        forall|i: int| 0 <= i < k ==> li_eq(#[trigger] lli@[i], rli@[i]),
                    decreases lli@.len() - k,
                {
                    assert(decreases_to!(*self => self->LiteralIntroduction_0));
                    assert(decreases_to!(self->LiteralIntroduction_0@ => self->LiteralIntroduction_0@[k as int]));
                    if !lli[k].equals(&rli[k]) {
                        return false;
                    }
                    k = k + 1;
                }
                true
            },
            (Expression::TupleIntroduction(lli, _, _), Expression::TupleIntroduction(rli, _, _)) => {
                if lli.len() != rli.len() {
                    return false;
                }
                let mut k: usize = 0;
                while k < lli.len()
                    invariant
                        lli@.len() == rli@.len(),
                        k <= lli@.len(),
                        forall|i: int| 0 <= i < k ==> ti_eq(#[trigger] lli@[i], rli@[i]),
                    decreases lli@.len() - k,
                {
                    assert(decreases_to!(*self => self->TupleIntroduction_0));
                    assert(decreases_to!(self->TupleIntroduction_0@ => self->TupleIntroduction_0@[k as int]));
                    if !lli[k].equals(&rli[k]) {
                        return false;
                    }
                    k = k + 1;
                }
                true
            },
            (
                Expression::FunctionApplication(lf, lps, _, _),
                Expression::FunctionApplication(rf, rps, _, _),
            ) => {
                if *lf != *rf || lps.len() != rps.len() {
                    return false;
                }
                let mut k: usize = 0;
                while k < lps.len()
                    invariant
                        lps@.len() == rps@.len(),
                        k <= lps@.len(),
                        forall|i: int| 0 <= i < k ==> expr_eq(#[trigger] lps@[i], rps@[i]),
                    decreases lps@.len() - k,
                {
                    assert(decreases_to!(*self => self->FunctionApplication_1));
                    assert(decreases_to!(self->FunctionApplication_1@ => self->FunctionApplication_1@[k as int]));
                    if !lps[k].equals(&rps[k]) {
                        return false;
                    }
                    k = k + 1;
                }
                true
            },
            (Expression::PatternMatch(le, lps, _, _), Expression::PatternMatch(re, rps, _, _)) => {
                assert(decreases_to!(*self => self->PatternMatch_0));
                if !le.equals(re) || lps.len() != rps.len() {
                    return false;
                }
                let mut k: usize = 0;
                while k < lps.len()
                    invariant
                        lps@.len() == rps@.len(),
                        k <= lps@.len(),
                        forall|i: int|
                            0 <= i < k ==> lhs_eq((#[trigger] lps@[i]).0, rps@[i].0) && expr_eq(
                                lps@[i].1,
                                rps@[i].1,
                            ),
                    decreases lps@.len() - k,
                {
                    assert(decreases_to!(*self => self->PatternMatch_1));
                    assert(decreases_to!(self->PatternMatch_1@ => self->PatternMatch_1@[k as int]));
                    assert(decreases_to!(self->PatternMatch_1@[k as int] => self->PatternMatch_1@[k as int].1));
                    let (ll, lr) = &lps[k];
                    let (rl, rr) = &rps[k];
                    if !(ll.equals(rl) && lr.equals(rr)) {
                        return false;
                    }
                    k = k + 1;
                }
                true
            },
            (Expression::Failure(_, _), Expression::Failure(_, _)) => true,
            _ => false,
        }
    }
}

impl<S> FunctionDefinition<S> {
    /// Structural equality: the same name, the same parameter variables, and
    /// equal bodies.
    pub fn equals(&self, other: &FunctionDefinition<()>) -> (res: bool)
        ensures
            res == fn_eq(*self, *other),
    {
        if self.name != other.name || self.args.len() != other.args.len() || self.body.len()
            != other.body.len() {
            return false;
        }
        let mut k: usize = 0;
        while k < self.args.len()
            invariant
                self.args@.len() == other.args@.len(),
                k <= self.args@.len(),
                forall|i: int| 0 <= i < k ==> (#[trigger] self.args@[i]).0 == other.args@[i].0,
            decreases self.args@.len() - k,
        {
            if self.args[k].0 != other.args[k].0 {
                return false;
            }
            k = k + 1;
        }
        let mut k: usize = 0;
        while k < self.body.len()
            invariant
                self.args@.len() == other.args@.len(),
                forall|i: int| 0 <= i < self.args@.len() ==> (#[trigger] self.args@[i]).0 == other.args@[i].0,
                self.body@.len() == other.body@.len(),
                k <= self.body@.len(),
                forall|i: int| 0 <= i < k ==> expr_eq(#[trigger] self.body@[i], other.body@[i]),
            decreases self.body@.len() - k,
        {
            if !self.body[k].equals(&other.body[k]) {
                return false;
            }
            k = k + 1;
        }
        true
    }
}

/// Equality of function definitions, ignoring parameter types, types and spans.
pub open spec fn fn_eq<S, T>(a: FunctionDefinition<S>, b: FunctionDefinition<T>) -> bool {
    &&& a.name@ == b.name@
    &&& a.args@.len() == b.args@.len()
    &&& forall|i: int| 0 <= i < a.args@.len() ==> (#[trigger] a.args@[i]).0 == b.args@[i].0
    &&& a.body@.len() == b.body@.len()
    &&& forall|i: int| 0 <= i < a.body@.len() ==> expr_eq(#[trigger] a.body@[i], b.body@[i])
}


// ---------------------------------------------------------------------------
// The variables an expression reads.

/// The variables read by an expression, in order of appearance. The
/// right-hand side of a map and the patterns of a match are not visited.
pub open spec fn expr_vars<S>(e: Expression<S>) -> Seq<usize>
    decreases e, 1nat,
{
    match e {
        Expression::FlatMap(_, x, _, _, _) => expr_vars(*x),
        Expression::VariableReference(vi, _, _) => seq![vi],
        Expression::ValueIntroduction(..) => Seq::empty(),
        Expression::Failure(..) => Seq::empty(),
        Expression::FunctionReference(..) => Seq::empty(),
        Expression::LiteralIntroduction(lis, _, _) => li_list_vars(lis@),
        Expression::TupleIntroduction(tis, _, _) => ti_list_vars(tis@),
        Expression::FunctionApplication(_, es, _, _) => expr_list_vars(es@),
        Expression::PatternMatch(x, lrs, _, _) => expr_vars(*x) + arm_list_vars(lrs@),
    }
}

/// The variables read by a literal-introduction part.
pub open spec fn li_vars<S>(p: LIPart<S>) -> Seq<usize>
    decreases p, 1nat,
{
    match p {
        LIPart::Literal(_) => Seq::empty(),
        LIPart::InlineVariable(vi) => seq![vi],
        LIPart::Expression(x) => expr_vars(x),
    }
}

/// The variables read by a tuple-introduction part.
pub open spec fn ti_vars<S>(p: TIPart<S>) -> Seq<usize>
    decreases p, 1nat,
{
    match p {
        TIPart::Tuple(_) => Seq::empty(),
        TIPart::Variable(vi) => seq![vi],
        TIPart::InlineVariable(vi) => seq![vi],
        TIPart::Expression(x) => expr_vars(x),
    }
}

/// The variables read by a sequence of literal-introduction parts.
pub open spec fn li_list_vars<S>(ps: Seq<LIPart<S>>) -> Seq<usize>
    decreases ps, 0nat,
{
    if ps.len() == 0 {
        Seq::empty()
    } else {
        li_list_vars(ps.subrange(0, ps.len() - 1)) + li_vars(ps[ps.len() - 1])
    }
}

/// The variables read by a sequence of tuple-introduction parts.
pub open spec fn ti_list_vars<S>(ps: Seq<TIPart<S>>) -> Seq<usize>
    decreases ps, 0nat,
{
    if ps.len() == 0 {
        Seq::empty()
    } else {
        ti_list_vars(ps.subrange(0, ps.len() - 1)) + ti_vars(ps[ps.len() - 1])
    }
}

/// The variables read by a sequence of expressions.
pub open spec fn expr_list_vars<S>(es: Seq<Expression<S>>) -> Seq<usize>
    decreases es, 0nat,
{
    if es.len() == 0 {
        Seq::empty()
    } else {
        expr_list_vars(es.subrange(0, es.len() - 1)) + expr_vars(es[es.len() - 1])
    }
}

/// The variables read by the right-hand sides of match arms.
pub open spec fn arm_list_vars<S>(arms: Seq<(LHSPart, Expression<S>)>) -> Seq<usize>
    decreases arms, 0nat,
{
    if arms.len() == 0 {
        Seq::empty()
    } else {
        arm_list_vars(arms.subrange(0, arms.len() - 1)) + expr_vars(arms[arms.len() - 1].1)
    }
}

impl<S> LIPart<S> {
    /// Appends the variables the part reads to `vars`.
    pub fn vars(&self, vars: &mut Vec<usize>)
        ensures
            final(vars)@ == old(vars)@ + li_vars(*self),
        decreases self,
    {
        match self {
            LIPart::Literal(_lcs) => {
                assert(old(vars)@ =~= old(vars)@ + li_vars(*self));
            },
            LIPart::InlineVariable(li) => {
                vars.push(*li);
            },
            LIPart::Expression(le) => {
                assert(decreases_to!(*self => self->Expression_0));
                le.vars(vars);
            },
        }
    }
}

impl<S> TIPart<S> {
    /// Appends the variables the part reads to `vars`.
    pub fn vars(&self, vars: &mut Vec<usize>)
        ensures
            final(vars)@ == old(vars)@ + ti_vars(*self),
        decreases self,
    {
        match self {
            TIPart::Tuple(_ts) => {
                assert(old(vars)@ =~= old(vars)@ + ti_vars(*self));
            },
            TIPart::Variable(ti) => {
                vars.push(*ti);
            },
            TIPart::InlineVariable(ti) => {
                vars.push(*ti);
            },
            TIPart::Expression(e) => {
                assert(decreases_to!(*self => self->Expression_0));
                e.vars(vars);
            },
        }
    }
}

impl<S> Expression<S> {
    /// Appends the variables the expression reads to `vars`.
    #[verifier::loop_isolation(false)]
    pub fn vars(&self, vars: &mut Vec<usize>)
        ensures
            final(vars)@ == old(vars)@ + expr_vars(*self),
        decreases self,
    {
        match self {
            Expression::FlatMap(_lhs, e, _x, _, _) => {
                assert(decreases_to!(*self => self->FlatMap_1));
                e.vars(vars);
            },
            Expression::VariableReference(vi, _, _) => {
                vars.push(*vi);
            },
            Expression::ValueIntroduction(_, _, _) => {
                assert(old(vars)@ =~= old(vars)@ + expr_vars(*self));
            },
            Expression::Failure(_, _) => {
                assert(old(vars)@ =~= old(vars)@ + expr_vars(*self));
            },
            Expression::FunctionReference(_, _, _) => {
                assert(old(vars)@ =~= old(vars)@ + expr_vars(*self));
            },
            Expression::LiteralIntroduction(lis, _, _) => {
                let mut k: usize = 0;
                assert(lis@.subrange(0, 0) =~= Seq::<LIPart<S>>::empty());
                while k < lis.len()
                    invariant
                        k <= lis@.len(),
                        vars@ == old(vars)@ + li_list_vars(lis@.subrange(0, k as int)),
                    decreases lis@.len() - k,
                {
                    assert(decreases_to!(*self => self->LiteralIntroduction_0));
                    assert(decreases_to!(self->LiteralIntroduction_0@ => self->LiteralIntroduction_0@[k as int]));
                    lis[k].vars(vars);
                    assert(lis@.subrange(0, k + 1).subrange(0, k as int) =~= lis@.subrange(0, k as int));
                    k = k + 1;
                    assert(vars@ =~= old(vars)@ + li_list_vars(lis@.subrange(0, k as int)));
                }
                assert(lis@.subrange(0, lis@.len() as int) =~= lis@);
            },
            Expression::TupleIntroduction(tis, _, _) => {
                let mut k: usize = 0;
                assert(tis@.subrange(0, 0) =~= Seq::<TIPart<S>>::empty());
                while k < tis.len()
                    invariant
                        k <= tis@.len(),
                        vars@ == old(vars)@ + ti_list_vars(tis@.subrange(0, k as int)),
                    decreases tis@.len() - k,
                {
                    assert(decreases_to!(*self => self->TupleIntroduction_0));
                    assert(decreases_to!(self->TupleIntroduction_0@ => self->TupleIntroduction_0@[k as int]));
                    tis[k].vars(vars);
                    assert(tis@.subrange(0, k + 1).subrange(0, k as int) =~= tis@.subrange(0, k as int));
                    k = k + 1;
                    assert(vars@ =~= old(vars)@ + ti_list_vars(tis@.subrange(0, k as int)));
                }
                assert(tis@.subrange(0, tis@.len() as int) =~= tis@);
            },
            Expression::FunctionApplication(_, es, _, _) => {
                let mut k: usize = 0;
                assert(es@.subrange(0, 0) =~= Seq::<Expression<S>>::empty());
                while k < es.len()
                    invariant
                        k <= es@.len(),
                        vars@ == old(vars)@ + expr_list_vars(es@.subrange(0, k as int)),
                    decreases es@.len() - k,
                {
                    assert(decreases_to!(*self => self->FunctionApplication_1));
                    assert(decreases_to!(self->FunctionApplication_1@ => self->FunctionApplication_1@[k as int]));
                    es[k].vars(vars);
                    assert(es@.subrange(0, k + 1).subrange(0, k as int) =~= es@.subrange(0, k as int));
                    k = k + 1;
                    assert(vars@ =~= old(vars)@ + expr_list_vars(es@.subrange(0, k as int)));
                }
                assert(es@.subrange(0, es@.len() as int) =~= es@);
            },
            Expression::PatternMatch(e, lrs, _, _) => {
                assert(decreases_to!(*self => self->PatternMatch_0));
                e.vars(vars);
                let ghost mid = vars@;
                let mut k: usize = 0;
                assert(lrs@.subrange(0, 0) =~= Seq::<(LHSPart, Expression<S>)>::empty());
                assert(mid =~= mid + arm_list_vars(lrs@.subrange(0, 0)));
                while k < lrs.len()
                    invariant
                        k <= lrs@.len(),
                        vars@ == mid + arm_list_vars(lrs@.subrange(0, k as int)),
                    decreases lrs@.len() - k,
                {
                    assert(decreases_to!(*self => self->PatternMatch_1));
                    assert(decreases_to!(self->PatternMatch_1@ => self->PatternMatch_1@[k as int]));
                    assert(decreases_to!(self->PatternMatch_1@[k as int] => self->PatternMatch_1@[k as int].1));
                    let (_l, r) = &lrs[k];
                    r.vars(vars);
                    assert(lrs@.subrange(0, k + 1).subrange(0, k as int) =~= lrs@.subrange(0, k as int));
                    k = k + 1;
                    assert(vars@ =~= mid + arm_list_vars(lrs@.subrange(0, k as int)));
                }
                assert(lrs@.subrange(0, lrs@.len() as int) =~= lrs@);
            },
        }
    }
}


impl<S> FunctionDefinition<S> {
    /// The function `name` with parameters `args` and body `body`.
    pub fn define(name: &str, args: Vec<(usize, Type)>, body: Vec<Expression<S>>) -> (res:
        FunctionDefinition<S>)
        ensures
            res.name@ == name@,
            res.args == args,
            res.body == body,
    {
        FunctionDefinition { name: name.to_string(), args, body }
    }
}

impl<S> Program<S> {
    /// The program with the definitions `functions` and the expressions
    /// `expressions`.
    pub fn program(functions: Vec<FunctionDefinition<S>>, expressions: Vec<Expression<S>>) -> (res:
        Program<S>)
        ensures
            res.functions == functions,
            res.expressions == expressions,
    {
        Program { functions, expressions }
    }
}

impl<S> LIPart<S> {
    /// The literal part `cs`.
    pub fn literal(cs: &str) -> (res: LIPart<S>)
        ensures
            res matches LIPart::Literal(l) && l@ == cs@,
    {
        LIPart::Literal(cs.to_string())
    }

    /// The part spelled out by the value of the variable `vi`.
    pub fn variable(vi: usize) -> (res: LIPart<S>)
        ensures
            res == LIPart::<S>::InlineVariable(vi),
    {
        LIPart::InlineVariable(vi)
    }

    /// The part spelled out by the value of `ve`.
    pub fn expression(ve: Expression<S>) -> (res: LIPart<S>)
        ensures
            res == LIPart::Expression(ve),
    {
        LIPart::Expression(ve)
    }
}

impl<S> TIPart<S> {
    /// The part made of the values `ts`.
    pub fn tuple(ts: Vec<Value>) -> (res: TIPart<S>)
        ensures
            res matches TIPart::Tuple(a) && a@ == ts@,
    {
        TIPart::Tuple(Arc::new(ts))
    }

    /// The part made of the value of `e`.
    pub fn expression(e: Expression<S>) -> (res: TIPart<S>)
        ensures
            res == TIPart::Expression(e),
    {
        TIPart::Expression(e)
    }

    /// The part made of the value of the variable `vi`.
    pub fn variable(vi: usize) -> (res: TIPart<S>)
        ensures
            res == TIPart::<S>::Variable(vi),
    {
        TIPart::Variable(vi)
    }
}

impl<S> Expression<S> {
    /// The same expression, of the nominal type `nom`.
    pub fn typed(self, nom: &str) -> (res: Expression<S>)
        ensures
            res == with_expr_type(self, expr_type(res)),
            only_named(expr_type(res), Some(nom@)),
    {
        let nom = Type::nominal(nom);
        match self {
            Expression::FlatMap(lhs, e, x, _, span) => Expression::FlatMap(lhs, e, x, nom, span),
            Expression::ValueIntroduction(vi, _, span) => Expression::ValueIntroduction(vi, nom, span),
            Expression::LiteralIntroduction(vi, _, span) => Expression::LiteralIntroduction(
                vi,
                nom,
                span,
            ),
            Expression::TupleIntroduction(vi, _, span) => Expression::TupleIntroduction(
                vi,
                nom,
                span,
            ),
            Expression::VariableReference(vi, _, span) => Expression::VariableReference(
                vi,
                nom,
                span,
            ),
            Expression::FunctionReference(vi, _, span) => Expression::FunctionReference(
                vi,
                nom,
                span,
            ),
            Expression::FunctionApplication(fi, ps, _, span) => Expression::FunctionApplication(
                fi,
                ps,
                nom,
                span,
            ),
            Expression::PatternMatch(pe, lrs, _, span) => Expression::PatternMatch(
                pe,
                lrs,
                nom,
                span,
            ),
            Expression::Failure(_, span) => Expression::Failure(nom, span),
        }
    }

    /// The type the expression carries.
    pub fn typ(&self) -> (res: Type)
        ensures
            res@ == expr_type(*self)@,
    {
        match self {
            Expression::FlatMap(_lhs, _e, _x, tt, _span) => tt.clone(),
            Expression::ValueIntroduction(_vi, tt, _span) => tt.clone(),
            Expression::LiteralIntroduction(_vi, tt, _span) => tt.clone(),
            Expression::TupleIntroduction(_vi, tt, _span) => tt.clone(),
            Expression::VariableReference(_vi, tt, _span) => tt.clone(),
            Expression::FunctionReference(_vi, tt, _span) => tt.clone(),
            Expression::FunctionApplication(_fi, _ps, tt, _span) => tt.clone(),
            Expression::PatternMatch(_pe, _lrs, tt, _span) => tt.clone(),
            Expression::Failure(tt, _span) => tt.clone(),
        }
    }

    /// The map of `x` over the items of `e`, each bound by `lhs`.
    pub fn map(lhs: LHSPart, e: Expression<S>, x: TIPart<S>, span: S) -> (res: Expression<S>)
        ensures
            res matches Expression::FlatMap(l, ee, xx, t, sp) && *l == lhs && *ee == e && *xx == x
                && only_named(t, None) && sp == span,
    {
        Expression::FlatMap(Arc::new(lhs), Arc::new(e), Arc::new(x), Type::default(), span)
    }

    /// The unary number spelled in decimal by `ui`.
    pub fn unary(ui: &[u8], span: S) -> (res: Expression<S>)
        requires
            decimal_parse(ui@) is Some,
        ensures
            res matches Expression::ValueIntroduction(v, t, sp) && v@ == ValueView::Unary(
                decimal_parse(ui@).unwrap(),
                None,
            ) && only_named(t, None) && sp == span,
    {
        Expression::ValueIntroduction(Value::unary(ui), Type::default(), span)
    }

    /// A reference to the variable `vi`.
    pub fn variable(vi: usize, span: S) -> (res: Expression<S>)
        ensures
            res matches Expression::VariableReference(v, t, sp) && v == vi && only_named(t, None)
                && sp == span,
    {
        Expression::VariableReference(vi, Type::default(), span)
    }

    /// The expression that always fails.
    pub fn failure(span: S) -> (res: Expression<S>)
        ensures
            res matches Expression::Failure(t, sp) && only_named(t, None) && sp == span,
    {
        Expression::Failure(Type::default(), span)
    }

    /// The literal `cs`.
    pub fn literal(cs: &str, span: S) -> (res: Expression<S>)
        ensures
            res matches Expression::LiteralIntroduction(ps, t, sp) && ps@.len() == 1 && ps@[0] is Literal && ps@[0]->Literal_0@ == cs@ && only_named(t, None) && sp == span,
    {
        let v = vec![LIPart::Literal(cs.to_string())];
        Expression::LiteralIntroduction(Arc::new(v), Type::default(), span)
    }

    /// The empty literal, of the type `Unit`.
    pub fn unit(span: S) -> (res: Expression<S>)
        ensures
            res matches Expression::LiteralIntroduction(ps, t, sp) && ps@.len() == 1 && ps@[0] is Literal && ps@[0]->Literal_0@ == Seq::<char>::empty() && only_named(t, Some("Unit"@)) && sp == span,
    {
        let e = String::new();
        let v = vec![LIPart::Literal(e)];
        Expression::LiteralIntroduction(Arc::new(v), Type::nominal("Unit"), span)
    }

    /// The literal made of the parts `lps`.
    pub fn li(lps: Vec<LIPart<S>>, span: S) -> (res: Expression<S>)
        ensures
            res matches Expression::LiteralIntroduction(ps, t, sp) && ps@ == lps@ && only_named(t, None) && sp == span,
    {
        Expression::LiteralIntroduction(Arc::new(lps), Type::default(), span)
    }

    /// The tuple of the values `tps`.
    pub fn tuple(tps: Vec<Value>, span: S) -> (res: Expression<S>)
        ensures
            res matches Expression::TupleIntroduction(ps, t, sp) && ps@.len() == 1 && ps@[0] is Tuple && ps@[0]->Tuple_0@ == tps@ && only_named(t, None) && sp == span,
    {
        let v = vec![TIPart::tuple(tps)];
        Expression::TupleIntroduction(Arc::new(v), Type::default(), span)
    }

    /// The tuple made of the parts `tps`.
    pub fn ti(tps: Vec<TIPart<S>>, span: S) -> (res: Expression<S>)
        ensures
            res matches Expression::TupleIntroduction(ps, t, sp) && ps@ == tps@ && only_named(t, None) && sp == span,
    {
        Expression::TupleIntroduction(Arc::new(tps), Type::default(), span)
    }

    /// The application of the function `fi` to `args`.
    pub fn apply(fi: &str, args: Vec<Expression<S>>, span: S) -> (res: Expression<S>)
        ensures
            res matches Expression::FunctionApplication(f, a, t, sp) && f@ == fi@ && a@ == args@ && only_named(t, None) && sp == span,
    {
        Expression::FunctionApplication(fi.to_string(), Arc::new(args), Type::default(), span)
    }

    /// The match of the value of `v` against the arms `lrs`, in order.
    pub fn pattern(v: Expression<S>, lrs: Vec<(LHSPart, Expression<S>)>, span: S) -> (res:
        Expression<S>)
        ensures
            res matches Expression::PatternMatch(x, a, t, sp) && *x == v && a@ == lrs@ && only_named(t, None) && sp == span,
    {
        Expression::PatternMatch(Arc::new(v), Arc::new(lrs), Type::default(), span)
    }
}

/// Equality of values is symmetric.
pub proof fn lemma_eq_symmetric(a: ValueView, b: ValueView)
    ensures
        view_eq(a, b) == view_eq(b, a),
    decreases a,
{
    match (a, b) {
        (ValueView::Tuple(ls, le, lv, _), ValueView::Tuple(rs, re, rv, _)) => {
            if slice_ok(ls, le, lv.len()) && slice_ok(rs, re, rv.len()) && le - ls == re - rs {
                assert forall|i: int| 0 <= i < le - ls implies view_eq(#[trigger] lv[ls + i], rv[rs + i])
                    == view_eq(rv[rs + i], lv[ls + i]) by {
                    lemma_eq_symmetric(lv[ls + i], rv[rs + i]);
                }
                assert((forall|i: int| 0 <= i < le - ls ==> view_eq(#[trigger] lv[ls + i], rv[rs + i]))
                    == (forall|i: int| 0 <= i < re - rs ==> view_eq(#[trigger] rv[rs + i], lv[ls + i])));
            }
        },
        _ => {},
    }
}

/// A well-formed value equals itself.
pub proof fn lemma_eq_reflexive(a: ValueView)
    requires
        view_wf(a),
    ensures
        view_eq(a, a),
    decreases a,
{
    match a {
        ValueView::Tuple(s, e, vs, _) => {
            assert forall|i: int| 0 <= i < e - s implies view_eq(#[trigger] vs[s + i], vs[s + i]) by {
                assert(view_wf(vs[s + i]));
                lemma_eq_reflexive(vs[s + i]);
            }
        },
        _ => {},
    }
}

/// The type tags of values play no part in their equality.
pub proof fn lemma_eq_ignores_tags(a: ValueView, b: ValueView, t: Option<Seq<char>>, u: Option<Seq<char>>)
    ensures
        view_eq(with_tag(a, t), with_tag(b, u)) == view_eq(a, b),
{
}

/// A unary number equals exactly the literals of as many `'0'`s.
pub proof fn lemma_unary_is_zeros(n: nat, cs: Seq<char>, t: Option<Seq<char>>, u: Option<Seq<char>>)
    ensures
        view_eq(ValueView::Unary(n, t), ValueView::Literal(0, cs.len(), cs, u)) <==> (all_zero(cs) && cs.len()
            == n),
{
    assert(cs.subrange(0, cs.len() as int) =~= cs);
}

/// A value tagged with a nominal type is accepted by that type, and by no
/// other nominal type.
pub proof fn lemma_nominal_acceptance(v: ValueView, n: Seq<char>, c: Type)
    requires
        c.fnid is None,
        c.name is Some,
    ensures
        accepts_spec(with_tag(v, Some(n)), c) <==> c.name->Some_0@ == n,
{
}

/// A function value is accepted by a function type exactly when they name
/// the same function.
pub proof fn lemma_function_acceptance(f: Seq<char>, t: Option<Seq<char>>, c: Type)
    requires
        c.fnid is Some,
        c.name is None,
    ensures
        accepts_spec(ValueView::Function(f, t), c) <==> c.fnid->Some_0@ == f,
{
}

/// Equality of values is transitive.
pub proof fn lemma_eq_transitive(a: ValueView, b: ValueView, c: ValueView)
    requires
        view_eq(a, b),
        view_eq(b, c),
    ensures
        view_eq(a, c),
    decreases a,
{
    match (a, b, c) {
        (ValueView::Tuple(ls, le, lv, _), ValueView::Tuple(ms, me, mv, _), ValueView::Tuple(rs, re, rv, _)) => {
            assert forall|i: int| 0 <= i < le - ls implies view_eq(#[trigger] lv[ls + i], rv[rs + i]) by {
                assert(view_eq(lv[ls + i], mv[ms + i]));
                assert(view_eq(mv[ms + i], rv[rs + i]));
                lemma_eq_transitive(lv[ls + i], mv[ms + i], rv[rs + i]);
            }
        },
        (ValueView::Literal(ls, le, lv, _), ValueView::Unary(n, _), ValueView::Literal(rs, re, rv, _)) => {
            let x = lv.subrange(ls as int, le as int);
            let y = rv.subrange(rs as int, re as int);
            assert(x =~= y) by {
                assert forall|i: int| 0 <= i < x.len() implies x[i] == y[i] by {
                    assert(x[i] == '0');
                    assert(y[i] == '0');
                }
            }
        },
        (ValueView::Literal(ls, le, lv, _), ValueView::Literal(ms, me, mv, _), ValueView::Unary(n, _)) => {
            let x = lv.subrange(ls as int, le as int);
            let y = mv.subrange(ms as int, me as int);
            assert forall|i: int| 0 <= i < x.len() implies x[i] == '0' by {
                assert(x[i] == y[i]);
            }
        },
        (ValueView::Unary(n, _), ValueView::Literal(ms, me, mv, _), ValueView::Literal(rs, re, rv, _)) => {
            let y = mv.subrange(ms as int, me as int);
            let z = rv.subrange(rs as int, re as int);
            assert forall|i: int| 0 <= i < z.len() implies z[i] == '0' by {
                assert(z[i] == y[i]);
            }
        },
        _ => {},
    }
}

/// A value tagged with `t` carries the tag `t`.
pub proof fn lemma_typed_tag(v: ValueView, t: Option<Seq<char>>)
    ensures
        view_tag(with_tag(v, t)) == t,
{
}

/// An expression given the type `t` has the type `t`.
pub proof fn lemma_typed_expression<S>(e: Expression<S>, t: Type)
    ensures
        expr_type(with_expr_type(e, t)) == t,
        expr_span(with_expr_type(e, t)) == expr_span(e),
{
}

/// Two function values are equal exactly when they name the same
/// function, whatever their type names.
pub proof fn lemma_eq_functions(f: Seq<char>, t: Option<Seq<char>>, g: Seq<char>, u: Option<Seq<char>>)
    ensures
        view_eq(ValueView::Function(f, t), ValueView::Function(g, u)) <==> f == g,
{
}

/// Two unary numbers are equal exactly when they are the same number,
/// whatever their type names.
pub proof fn lemma_eq_unary(m: nat, t: Option<Seq<char>>, n: nat, u: Option<Seq<char>>)
    ensures
        view_eq(ValueView::Unary(m, t), ValueView::Unary(n, u)) <==> m == n,
{
}

/// Two literals are equal exactly when their characters are, one for one;
/// a unary number equals a literal exactly when the literal is that many
/// `'0'`s.
pub proof fn lemma_eq_literals(ls: nat, le: nat, lv: Seq<char>, lt: Option<Seq<char>>, rs: nat, re: nat, rv: Seq<char>, rt: Option<Seq<char>>, n: nat)
    requires
        ls <= le <= lv.len(),
        rs <= re <= rv.len(),
    ensures
        view_eq(ValueView::Literal(ls, le, lv, lt), ValueView::Literal(rs, re, rv, rt))
            <==> (le - ls == re - rs && forall|i: int| 0 <= i < le - ls ==> #[trigger] lv[ls + i] == rv[rs + i]),
        view_eq(ValueView::Unary(n, lt), ValueView::Literal(rs, re, rv, rt))
            <==> (re - rs == n && forall|i: int| rs <= i < re ==> rv[i] == '0'),
        view_eq(ValueView::Literal(rs, re, rv, rt), ValueView::Unary(n, lt))
            <==> (re - rs == n && forall|i: int| rs <= i < re ==> rv[i] == '0'),
{
    let a = lv.subrange(ls as int, le as int);
    let b = rv.subrange(rs as int, re as int);
    if le - ls == re - rs && forall|i: int| 0 <= i < le - ls ==> #[trigger] lv[ls + i] == rv[rs + i] {
        assert forall|i: int| 0 <= i < a.len() implies a[i] == b[i] by {
            assert(lv[ls + i] == rv[rs + i]);
        }
        assert(a =~= b);
    }
    if a == b {
        assert(b.len() == a.len());
        assert forall|i: int| 0 <= i < le - ls implies #[trigger] lv[ls + i] == rv[rs + i] by {
            assert(a[i] == lv[ls + i]);
            assert(b[i] == rv[rs + i]);
        }
    }
    if forall|i: int| rs <= i < re ==> rv[i] == '0' {
        assert forall|i: int| 0 <= i < b.len() implies b[i] == '0' by {
            assert(b[i] == rv[rs + i]);
        }
    }
    if all_zero(b) {
        assert forall|i: int| rs <= i < re implies rv[i] == '0' by {
            assert(b[i - rs] == rv[i]);
        }
    }
}

/// Values of different kinds are never equal: a function equals only a
/// function, and a tuple only a tuple.
pub proof fn lemma_eq_kinds(a: ValueView, b: ValueView)
    ensures
        (a is Function) != (b is Function) ==> !view_eq(a, b),
        (a is Tuple) != (b is Tuple) ==> !view_eq(a, b),
{
}

/// A literal made only of `'0'`s prints as its length in decimal, as the
/// unary number of that length does; any other literal prints as its
/// characters in double quotes.
pub proof fn lemma_debug_literal(s: nat, e: nat, cs: Seq<char>, t: Option<Seq<char>>)
    requires
        s <= e <= cs.len(),
    ensures
        (forall|i: int| s <= i < e ==> cs[i] == '0') ==> debug_view(ValueView::Literal(s, e, cs, t)) == decimal_chars((e - s) as nat)
            && debug_view(ValueView::Literal(s, e, cs, t)) == debug_view(ValueView::Unary((e - s) as nat, t)),
        (exists|i: int| s <= i < e && cs[i] != '0') ==> debug_view(ValueView::Literal(s, e, cs, t))
            == seq!['"'] + cs.subrange(s as int, e as int) + seq!['"'],
{
    let b = cs.subrange(s as int, e as int);
    if forall|i: int| s <= i < e ==> cs[i] == '0' {
        assert forall|i: int| 0 <= i < b.len() implies b[i] == '0' by {
            assert(b[i] == cs[s + i]);
        }
    }
    if exists|i: int| s <= i < e && cs[i] != '0' {
        let i = choose|i: int| s <= i < e && cs[i] != '0';
        assert(b[i - s] == cs[i]);
    }
}

/// A tuple prints as its items' texts, separated by commas, in
/// parentheses, with a comma after a single item: `()`, `(a,)`, `(a,b)`;
/// one more item adds a comma and its text before the closing parenthesis.
pub proof fn lemma_debug_tuple(vs: Seq<ValueView>, x: ValueView, y: ValueView, t: Option<Seq<char>>)
    ensures
        debug_view(ValueView::Tuple(0, 0, vs, t)) == seq!['(', ')'],
        debug_view(ValueView::Tuple(0, 1, seq![x], t)) == seq!['('] + debug_view(x) + seq![',', ')'],
        debug_view(ValueView::Tuple(0, 2, seq![x, y], t)) == seq!['('] + debug_view(x) + seq![','] + debug_view(y) + seq![')'],
        vs.len() >= 2 ==> debug_view(ValueView::Tuple(0, vs.len() + 1, vs.push(x), t))
            == debug_view(ValueView::Tuple(0, vs.len(), vs, t)).drop_last() + seq![','] + debug_view(x) + seq![')'],
{
    assert(debug_items(vs, 0, 0) == Seq::<char>::empty());
    assert(seq!['('] + Seq::<char>::empty() + Seq::<char>::empty() + seq![')'] =~= seq!['(', ')']);
    let one = seq![x];
    assert(debug_items(one, 0, 0) == Seq::<char>::empty());
    assert(debug_items(one, 0, 1) =~= debug_view(x));
    assert(seq!['('] + debug_view(x) + seq![','] + seq![')'] =~= seq!['('] + debug_view(x) + seq![',', ')']);
    let two = seq![x, y];
    assert(debug_items(two, 0, 0) == Seq::<char>::empty());
    assert(debug_items(two, 0, 1) =~= debug_view(x));
    assert(debug_items(two, 0, 2) =~= debug_view(x) + seq![','] + debug_view(y));
    assert(seq!['('] + (debug_view(x) + seq![','] + debug_view(y)) + Seq::<char>::empty() + seq![')']
        =~= seq!['('] + debug_view(x) + seq![','] + debug_view(y) + seq![')']);
    if vs.len() >= 2 {
        let n = vs.len() as int;
        let w = vs.push(x);
        lemma_debug_items_prefix(vs, x, 0, n);
        let d = debug_items(vs, 0, n);
        assert(debug_items(w, 0, n + 1) == d + seq![','] + debug_view(x));
        let before = seq!['('] + d + Seq::<char>::empty() + seq![')'];
        assert(debug_view(ValueView::Tuple(0, vs.len(), vs, t)) == before);
        assert(before.drop_last() =~= seq!['('] + d);
        assert(seq!['('] + (d + seq![','] + debug_view(x)) + Seq::<char>::empty() + seq![')']
            =~= seq!['('] + d + seq![','] + debug_view(x) + seq![')']);
    }
}

/// The items' texts of a list are unchanged by an item added after them.
proof fn lemma_debug_items_prefix(vs: Seq<ValueView>, x: ValueView, lo: int, hi: int)
    requires
        0 <= lo <= hi <= vs.len(),
    ensures
        debug_items(vs.push(x), lo, hi) == debug_items(vs, lo, hi),
    decreases hi - lo,
{
    if lo < hi {
        lemma_debug_items_prefix(vs, x, lo, hi - 1);
        assert(vs.push(x)[hi - 1] == vs[hi - 1]);
    }
}

/// Two tuples are equal exactly when they have as many items and their
/// items are equal one for one, whatever their type names.
pub proof fn lemma_eq_tuples(ls: nat, le: nat, lv: Seq<ValueView>, lt: Option<Seq<char>>, rs: nat, re: nat, rv: Seq<ValueView>, rt: Option<Seq<char>>)
    requires
        ls <= le <= lv.len(),
        rs <= re <= rv.len(),
    ensures
        view_eq(ValueView::Tuple(ls, le, lv, lt), ValueView::Tuple(rs, re, rv, rt))
            <==> (le - ls == re - rs && forall|i: int| 0 <= i < le - ls ==> view_eq(#[trigger] lv[ls + i], rv[rs + i])),
{
}

/// A unary number prints as its decimal text, and a function as its name.
pub proof fn lemma_debug_unary_function(n: nat, f: Seq<char>, t: Option<Seq<char>>)
    ensures
        debug_view(ValueView::Unary(n, t)) == decimal_chars(n),
        debug_view(ValueView::Function(f, t)) == f,
{
}

/// A type with no name and no function accepts every value; a named type
/// accepts no value without a type name, and a function type no value that
/// is not a function.
pub proof fn lemma_acceptance_edges(v: ValueView, c: Type)
    ensures
        c.fnid is None && c.name is None ==> accepts_spec(v, c),
        c.name is Some && view_tag(v) is None ==> !accepts_spec(v, c),
        c.fnid is Some && !(v is Function) ==> !accepts_spec(v, c),
{
}

/// Expressions are compared without their types and spans: variable
/// references are equal exactly when they read the same variable, function
/// references when they name the same function, values when the values are
/// equal, and any two failures are equal; expressions of different kinds
/// are not.
pub proof fn lemma_expr_eq_leaves<S, T>(x: usize, y: usize, f: String, g: String, a: Value, b: Value, t1: Type, s1: S, t2: Type, s2: T)
    ensures
        expr_eq(Expression::VariableReference(x, t1, s1), Expression::<T>::VariableReference(y, t2, s2)) <==> x == y,
        expr_eq(Expression::FunctionReference(f, t1, s1), Expression::<T>::FunctionReference(g, t2, s2)) <==> f@ == g@,
        expr_eq(Expression::ValueIntroduction(a, t1, s1), Expression::<T>::ValueIntroduction(b, t2, s2)) <==> view_eq(a@, b@),
        expr_eq(Expression::Failure(t1, s1), Expression::<T>::Failure(t2, s2)),
        !expr_eq(Expression::VariableReference(x, t1, s1), Expression::<T>::Failure(t2, s2)),
        !expr_eq(Expression::Failure(t1, s1), Expression::<T>::VariableReference(y, t2, s2)),
{
}

/// Patterns are equal exactly when they have the same form and parts: `_`
/// only `_`, a variable the same variable, a literal the same text.
pub proof fn lemma_lhs_eq_leaves(x: usize, y: usize, a: String, b: String)
    ensures
        lhs_eq(LHSPart::Any, LHSPart::Any),
        lhs_eq(LHSPart::Variable(x), LHSPart::Variable(y)) <==> x == y,
        lhs_eq(LHSPart::Literal(a), LHSPart::Literal(b)) <==> a@ == b@,
        !lhs_eq(LHSPart::Any, LHSPart::Variable(y)),
        !lhs_eq(LHSPart::Variable(x), LHSPart::Any),
        !lhs_eq(LHSPart::Variable(x), LHSPart::Literal(b)),
{
}

} // verus!
