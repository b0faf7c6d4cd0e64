//! The evaluator: executable reduction of syntax trees to values, proved
//! to agree with the specification interpreter in [`crate::semantics`].

use vstd::prelude::*;

use crate::ast::Atom;
use crate::ast::AtomView;
use crate::ast::BindingView;
use crate::ast::Env;
use crate::ast::Sexp;
use crate::ast::SexpView;
use crate::ast::Value;
use crate::ast::ValueView;
use crate::ast::sexp_views;
use crate::ast::value_views;
use crate::ast::view_binding;
use crate::ast::view_sexp;
use crate::ast::view_value;
use crate::semantics::all_eq_first;
use crate::semantics::all_symbols;
use crate::semantics::apply_s;
use crate::semantics::bind_args;
use crate::semantics::cond_s;
use crate::semantics::eval_args_s;
use crate::semantics::eval_s;
use crate::semantics::fits_i64;
use crate::semantics::lookup;
use crate::semantics::nums_s;
use crate::semantics::quote_val;
use crate::semantics::sum_of;
use crate::semantics::sym_name;
use crate::semantics::symbol_names;
use crate::semantics::val_eq;
use vstd::std_specs::cmp::PartialEqSpec;
use vstd::string::StringExecFns;

verus! {

impl Env {
    /// Look a name up, newest binding first, and hand back a copy of the
    /// value bound to it.
    pub fn get(&self, name: &String) -> (r: Option<Value>)
        ensures
            r.deep_view() == lookup(self@, name@),
    {
        let mut i: usize = self.bindings.len();
        proof {
            assert(self@.take(i as int) =~= self@);
        }
        while i > 0
            invariant
                i <= self.bindings.len(),
                lookup(self@, name@) == lookup(self@.take(i as int), name@),
            decreases i,
        {
            let j = i - 1;
            if self.bindings[j].name == *name {
                proof {
                    assert(self@.take(j + 1).last() == view_binding(self.bindings@[j as int]));
                }
                return Some(self.bindings[j].value.clone());
            }
            proof {
                assert(self@.take(j + 1).drop_last() =~= self@.take(j as int));
            }
            i = j;
        }
        proof {
            assert(self@.take(0) =~= Seq::<BindingView>::empty());
        }
        None
    }
}

impl Sexp {
    /// The symbol at the head of a list node, if the node is a list whose
    /// first element is a symbol.
    pub fn name_of_car(&self) -> (r: Option<&str>)
        ensures
            match r {
                Some(s) => self@ matches SexpView::List(items) && items.len() > 0 && items[0]
                    == SexpView::Atom(AtomView::Symbol(s@)),
                None => !(self@ matches SexpView::List(items) && items.len() > 0 && items[0] matches
                    SexpView::Atom(AtomView::Symbol(_))),
            },
    {
        match self {
            Sexp::List(sexps) => {
                if sexps.len() > 0 {
                    proof {
                        assert(sexp_views(sexps@)[0] == view_sexp(sexps@[0]));
                    }
                    match &sexps[0] {
                        Sexp::Atom(Atom::Symbol(s)) => Some(s.as_str()),
                        _ => None,
                    }
                } else {
                    None
                }
            },
            _ => None,
        }
    }
}

/// Whether two words are the same text.
fn word_eq(a: &str, b: &str) -> (r: bool)
    ensures
        r == (a@ == b@),
{
    let s1 = String::from_str(a);
    let s2 = String::from_str(b);
    s1 == s2
}

/// Structural equality of two values, as the `equal` form decides it.
#[verifier::loop_isolation(false)]
pub fn value_eq(a: &Value, b: &Value) -> (r: bool)
    ensures
        r == val_eq(a@, b@),
    decreases *a,
{
    match (a, b) {
        (Value::Number(x), Value::Number(y)) => *x == *y,
        (Value::Symbol(x), Value::Symbol(y)) => *x == *y,
        (Value::List(xs), Value::List(ys)) => {
            proof {
                assert(a@ == ValueView::List(value_views(xs@)));
                assert(b@ == ValueView::List(value_views(ys@)));
            }
            if xs.len() != ys.len() {
                return false;
            }
            let mut i: usize = 0;
            while i < xs.len()
                invariant
                    i <= xs.len(),
                    xs@.len() == ys@.len(),
                    forall|j: int| 0 <= j < i ==> val_eq(value_views(xs@)[j], value_views(ys@)[j]),
                decreases xs@.len() - i,
            {
                let same = value_eq(&xs[i], &ys[i]);
                proof {
                    assert(value_views(xs@)[i as int] == view_value(xs@[i as int]));
                    assert(value_views(ys@)[i as int] == view_value(ys@[i as int]));
                }
                if !same {
                    return false;
                }
                i = i + 1;
            }
            proof {
                assert forall|k: int|
                    0 <= k < value_views(xs@).len() implies val_eq(
                    value_views(xs@)[k],
                    value_views(ys@)[k],
                ) by {
                    assert(val_eq(value_views(xs@)[k], value_views(ys@)[k]));
                }
                assert(val_eq(a@, b@));
            }
            true
        },
        _ => false,
    }
}

impl Sexp {
    /// Reduce the operands `items[start..]` left to right, each against the
    /// environment the one before it left behind, stopping at the first
    /// failure as `eval_args_s` does.
    #[verifier::loop_isolation(false)]
    fn eval_args(items: &Vec<Sexp>, start: usize, env: &mut Env, fuel: u64) -> (r: Option<
        Vec<Value>,
    >)
        requires
            1 <= fuel,
            start <= items@.len(),
        ensures
            ({
                let (vs, e2) = eval_args_s(
                    sexp_views(items@).skip(start as int),
                    old(env)@,
                    fuel as nat,
                );
                final(env)@ == e2 && (match r {
                    Some(out) => vs == Some(value_views(out@)),
                    None => vs is None,
                })
            }),
        decreases fuel, 0int, 0int,
    {
        let ghost ops = sexp_views(items@).skip(start as int);
        let ghost env0 = env@;
        let mut out: Vec<Value> = Vec::new();
        let mut i: usize = start;
        while i < items.len()
            invariant
                start <= i <= items@.len(),
                ({
                    let (vs, e2) = eval_args_s(ops, env0, fuel as nat);
                    let (vs_r, e2_r) = eval_args_s(
                        sexp_views(items@).skip(i as int),
                        env@,
                        fuel as nat,
                    );
                    e2 == e2_r && vs == (match vs_r {
                        Some(rest) => Some(value_views(out@) + rest),
                        None => None::<Seq<ValueView>>,
                    })
                }),
            decreases items@.len() - i,
        {
            proof {
                assert(sexp_views(items@).skip(i as int)[0] == view_sexp(items@[i as int]));
                assert(sexp_views(items@).skip(i as int).drop_first() =~= sexp_views(items@).skip(
                    i + 1,
                ));
            }
            let v = items[i].eval(env, fuel - 1);
            match v {
                Some(v) => {
                    let ghost out_before = out@;
                    out.push(v);
                    proof {
                        assert(value_views(out@) =~= value_views(out_before).push(view_value(v)));
                        assert forall|rest: Seq<ValueView>|
                            true implies value_views(out_before) + (seq![view_value(v)] + rest)
                            == value_views(out@) + rest by {
                            assert(value_views(out_before) + (seq![view_value(v)] + rest)
                                =~= value_views(out@) + rest);
                        }
                    }
                },
                None => {
                    return None;
                },
            }
            i = i + 1;
        }
        proof {
            assert(sexp_views(items@).skip(items@.len() as int) =~= Seq::<SexpView>::empty());
            assert(value_views(out@) + Seq::<ValueView>::empty() =~= value_views(out@));
        }
        Some(out)
    }
}

/// The mathematical integers behind a run of machine integers.
pub open spec fn ints_of(ns: Seq<i64>) -> Seq<int> {
    Seq::new(ns.len(), |i: int| ns[i] as int)
}

/// The sum grows by the element taken in.
proof fn lemma_sum_step(ns: Seq<int>, i: int)
    requires
        0 <= i < ns.len(),
    ensures
        sum_of(ns.take(i + 1)) == sum_of(ns.take(i)) + ns[i],
{
    assert(ns.take(i + 1).drop_last() =~= ns.take(i));
    assert(ns.take(i + 1).last() == ns[i]);
}

/// The sum of the given numbers, where it fits the machine integers.
#[verifier::loop_isolation(false)]
fn sum_fits(ns: &Vec<i64>) -> (r: Option<i64>)
    ensures
        match r {
            Some(t) => fits_i64(sum_of(ints_of(ns@))) && t as int == sum_of(ints_of(ns@)),
            None => !fits_i64(sum_of(ints_of(ns@))),
        },
{
    let mut acc: i128 = 0;
    let mut i: usize = 0;
    proof {
        assert(ints_of(ns@).take(0) =~= Seq::<int>::empty());
    }
    while i < ns.len()
        invariant
            i <= ns@.len(),
            acc == sum_of(ints_of(ns@).take(i as int)),
            -(i as int) * 0x8000_0000_0000_0000 <= acc <= (i as int) * 0x8000_0000_0000_0000,
        decreases ns@.len() - i,
    {
        proof {
            lemma_sum_step(ints_of(ns@), i as int);
            assert(ints_of(ns@)[i as int] == ns@[i as int] as int);
        }
        acc = acc + (ns[i] as i128);
        i = i + 1;
    }
    proof {
        assert(ints_of(ns@).take(ns@.len() as int) =~= ints_of(ns@));
    }
    if acc > (i64::MAX as i128) || acc < (i64::MIN as i128) {
        None
    } else {
        Some(acc as i64)
    }
}

/// The datum behind a `quote` form: the syntax tree itself, read as a
/// value.
#[verifier::loop_isolation(false)]
fn quote_value(s: &Sexp) -> (v: Value)
    ensures
        v@ == quote_val(s@),
    decreases *s,
{
    match s {
        Sexp::Atom(Atom::Number(n)) => Value::Number(*n),
        Sexp::Atom(Atom::Symbol(x)) => Value::Symbol(x.clone()),
        Sexp::List(items) => {
            let mut out: Vec<Value> = Vec::new();
            let mut i: usize = 0;
            while i < items.len()
                invariant
                    i <= items@.len(),
                    out@.len() == i as int,
                    forall|j: int|
                        0 <= j < i ==> view_value(out@[j]) == quote_val(view_sexp(items@[j])),
                decreases items@.len() - i,
            {
                out.push(quote_value(&items[i]));
                i = i + 1;
            }
            proof {
                assert forall|j: int|
                    0 <= j < items@.len() implies view_value(out@[j]) == quote_val(
                    sexp_views(items@)[j],
                ) by {
                    assert(sexp_views(items@)[j] == view_sexp(items@[j]));
                }
                let q = quote_val(view_sexp(Sexp::List(*items)));
                assert(q matches ValueView::List(_));
                assert(value_views(out@) =~= q->List_0);
                assert(view_value(Value::List(out)) == q);
            }
            Value::List(out)
        },
    }
}

impl Sexp {
    /// Reduce the operands and keep the numbers among the results, as the
    /// variadic `add` form does.
    #[verifier::loop_isolation(false)]
    fn eval_kept_nums(items: &Vec<Sexp>, env: &mut Env, fuel: u64) -> (ns: Vec<i64>)
        requires
            1 <= fuel,
            1 <= items@.len(),
        ensures
            ({
                let (s, e2) = nums_s(sexp_views(items@).drop_first(), old(env)@, fuel as nat);
                ints_of(ns@) == s && final(env)@ == e2
            }),
        decreases fuel, 0int, 0int,
    {
        let ghost ops = sexp_views(items@).drop_first();
        let ghost env0 = env@;
        proof {
            assert(ops =~= sexp_views(items@).skip(1));
        }
        let mut ns: Vec<i64> = Vec::new();
        let mut i: usize = 1;
        proof {
            assert(ints_of(ns@) + nums_s(sexp_views(items@).skip(1), env0, fuel as nat).0
                =~= nums_s(sexp_views(items@).skip(1), env0, fuel as nat).0);
        }
        while i < items.len()
            invariant
                1 <= i <= items@.len(),
                ({
                    let (s, e2) = nums_s(ops, env0, fuel as nat);
                    let (s_r, e_r) = nums_s(sexp_views(items@).skip(i as int), env@, fuel as nat);
                    e2 == e_r && s == ints_of(ns@) + s_r
                }),
            decreases items@.len() - i,
        {
            proof {
                assert(sexp_views(items@).skip(i as int)[0] == view_sexp(items@[i as int]));
                assert(sexp_views(items@).skip(i as int).drop_first() =~= sexp_views(items@).skip(
                    i + 1,
                ));
            }
            let v = items[i].eval(env, fuel - 1);
            match v {
                Some(Value::Number(n)) => {
                    let ghost ns_before = ns@;
                    ns.push(n);
                    proof {
                        let (s_r, e_r) = nums_s(sexp_views(items@).skip(i + 1), env@, fuel as nat);
                        assert(ints_of(ns@) + s_r =~= ints_of(ns_before) + (seq![n as int] + s_r));
                    }
                },
                _ => {},
            }
            i = i + 1;
        }
        proof {
            assert(sexp_views(items@).skip(items@.len() as int) =~= Seq::<SexpView>::empty());
            assert(ints_of(ns@) + Seq::<int>::empty() =~= ints_of(ns@));
        }
        ns
    }

    /// The `add` form: sum the operands that reduce to numbers.
    fn built_in_add(items: &Vec<Sexp>, env: &mut Env, fuel: u64) -> (r: Option<Value>)
        requires
            1 <= fuel,
            1 <= items@.len(),
        ensures
            ({
                let (ns, e2) = nums_s(sexp_views(items@).drop_first(), old(env)@, fuel as nat);
                final(env)@ == e2 && r.deep_view() == (if fits_i64(sum_of(ns)) {
                    Some(ValueView::Number(sum_of(ns)))
                } else {
                    None::<ValueView>
                })
            }),
        decreases fuel, 0int, 1int,
    {
        let ns = Self::eval_kept_nums(items, env, fuel);
        match sum_fits(&ns) {
            Some(t) => Some(Value::Number(t)),
            None => None,
        }
    }

    /// The `list` form: reduce every operand and collect the results.
    fn built_in_list(items: &Vec<Sexp>, env: &mut Env, fuel: u64) -> (r: Option<Value>)
        requires
            1 <= fuel,
            1 <= items@.len(),
        ensures
            ({
                let (vs, e2) = eval_args_s(sexp_views(items@).drop_first(), old(env)@, fuel as nat);
                final(env)@ == e2 && r.deep_view() == (match vs {
                    Some(vs) => Some(ValueView::List(vs)),
                    None => None::<ValueView>,
                })
            }),
        decreases fuel, 0int, 1int,
    {
        proof {
            assert(sexp_views(items@).skip(1) =~= sexp_views(items@).drop_first());
        }
        match Self::eval_args(items, 1, env, fuel) {
            Some(out) => Some(Value::List(out)),
            None => None,
        }
    }

    /// The `car` form: the first element of a non-empty list.
    fn built_in_car(items: &Vec<Sexp>, env: &mut Env, fuel: u64) -> (r: Option<Value>)
        requires
            1 <= fuel,
            1 <= items@.len(),
        ensures
            ({
                let ops = sexp_views(items@).drop_first();
                if ops.len() == 0 {
                    r is None && final(env)@ == old(env)@
                } else {
                    let (v, e2) = eval_s(ops[0], old(env)@, (fuel - 1) as nat);
                    final(env)@ == e2 && r.deep_view() == (match v {
                        Some(ValueView::List(vs)) => if vs.len() > 0 {
                            Some(vs[0])
                        } else {
                            None::<ValueView>
                        },
                        _ => None::<ValueView>,
                    })
                }
            }),
        decreases fuel, 0int, 0int,
    {
        if items.len() < 2 {
            return None;
        }
        proof {
            assert(sexp_views(items@).drop_first()[0] == view_sexp(items@[1]));
        }
        let v = items[1].eval(env, fuel - 1);
        match v {
            Some(Value::List(vs)) => {
                if vs.len() > 0 {
                    proof {
                        assert(value_views(vs@)[0] == view_value(vs@[0]));
                    }
                    Some(vs[0].clone())
                } else {
                    None
                }
            },
            _ => None,
        }
    }

    /// The `cdr` form: everything after the first element of a list.
    fn built_in_cdr(items: &Vec<Sexp>, env: &mut Env, fuel: u64) -> (r: Option<Value>)
        requires
            1 <= fuel,
            1 <= items@.len(),
        ensures
            ({
                let ops = sexp_views(items@).drop_first();
                if ops.len() == 0 {
                    r is None && final(env)@ == old(env)@
                } else {
                    let (v, e2) = eval_s(ops[0], old(env)@, (fuel - 1) as nat);
                    final(env)@ == e2 && r.deep_view() == (match v {
                        Some(ValueView::List(vs)) => if vs.len() > 0 {
                            Some(ValueView::List(vs.drop_first()))
                        } else {
                            Some(ValueView::List(vs))
                        },
                        _ => None::<ValueView>,
                    })
                }
            }),
        decreases fuel, 0int, 0int,
    {
        if items.len() < 2 {
            return None;
        }
        proof {
            assert(sexp_views(items@).drop_first()[0] == view_sexp(items@[1]));
        }
        let v = items[1].eval(env, fuel - 1);
        match v {
            Some(Value::List(mut vs)) => {
                if vs.len() > 0 {
                    let ghost before = vs@;
                    vs.remove(0);
                    proof {
                        assert(value_views(vs@) =~= value_views(before).drop_first());
                    }
                    Some(Value::List(vs))
                } else {
                    Some(Value::List(vs))
                }
            },
            _ => None,
        }
    }

    /// The `empty` form: `1` for an empty list, `0` for any other value; a
    /// missing operand, or one whose reduction fails, fails the form.
    fn built_in_empty(items: &Vec<Sexp>, env: &mut Env, fuel: u64) -> (r: Option<Value>)
        requires
            1 <= fuel,
            1 <= items@.len(),
        ensures
            ({
                let ops = sexp_views(items@).drop_first();
                if ops.len() == 0 {
                    r is None && final(env)@ == old(env)@
                } else {
                    let (v, e2) = eval_s(ops[0], old(env)@, (fuel - 1) as nat);
                    final(env)@ == e2 && r.deep_view() == (match v {
                        Some(ValueView::List(vs)) => if vs.len() == 0 {
                            Some(ValueView::Number(1))
                        } else {
                            Some(ValueView::Number(0))
                        },
                        Some(v) => Some(ValueView::Number(0)),
                        None => None::<ValueView>,
                    })
                }
            }),
        decreases fuel, 0int, 0int,
    {
        if items.len() < 2 {
            return None;
        }
        proof {
            assert(sexp_views(items@).drop_first()[0] == view_sexp(items@[1]));
        }
        let v = items[1].eval(env, fuel - 1);
        match v {
            Some(Value::List(vs)) => {
                if vs.len() == 0 {
                    Some(Value::Number(1))
                } else {
                    Some(Value::Number(0))
                }
            },
            Some(_) => Some(Value::Number(0)),
            None => None,
        }
    }

    /// The `cond` form: the first clause whose test is not `0` decides; a
    /// clause that is not a two-element list fails the whole form.
    #[verifier::loop_isolation(false)]
    fn built_in_cond(items: &Vec<Sexp>, env: &mut Env, fuel: u64) -> (r: Option<Value>)
        requires
            1 <= fuel,
            1 <= items@.len(),
        ensures
            ({
                let (rv, e2) = cond_s(sexp_views(items@).drop_first(), old(env)@, fuel as nat);
                r.deep_view() == rv && final(env)@ == e2
            }),
        decreases fuel, 0int, 0int,
    {
        let ghost ops = sexp_views(items@).drop_first();
        let ghost env0 = env@;
        proof {
            assert(ops =~= sexp_views(items@).skip(1));
        }
        let mut i: usize = 1;
        while i < items.len()
            invariant
                1 <= i <= items@.len(),
                cond_s(ops, env0, fuel as nat) == cond_s(
                    sexp_views(items@).skip(i as int),
                    env@,
                    fuel as nat,
                ),
            decreases items@.len() - i,
        {
            proof {
                assert(sexp_views(items@).skip(i as int)[0] == view_sexp(items@[i as int]));
                assert(sexp_views(items@).skip(i as int).drop_first() =~= sexp_views(items@).skip(
                    i + 1,
                ));
            }
            match &items[i] {
                Sexp::List(pr) => {
                    if pr.len() == 2 {
                        proof {
                            assert(sexp_views(pr@)[0] == view_sexp(pr@[0]));
                            assert(sexp_views(pr@)[1] == view_sexp(pr@[1]));
                        }
                        let tv = pr[0].eval(env, fuel - 1);
                        match tv {
                            Some(v) => {
                                let truthy = match &v {
                                    Value::Number(n) => *n != 0,
                                    _ => true,
                                };
                                if truthy {
                                    return pr[1].eval(env, fuel - 1);
                                }
                            },
                            None => {},
                        }
                    } else {
                        return None;
                    }
                },
                _ => {
                    return None;
                },
            }
            i = i + 1;
        }
        proof {
            assert(sexp_views(items@).skip(items@.len() as int) =~= Seq::<SexpView>::empty());
        }
        Some(Value::Number(0))
    }

    /// The `equal` form: `1` when all operand values are structurally
    /// equal, `0` otherwise.
    #[verifier::loop_isolation(false)]
    fn built_in_equal(items: &Vec<Sexp>, env: &mut Env, fuel: u64) -> (r: Option<Value>)
        requires
            1 <= fuel,
            1 <= items@.len(),
        ensures
            ({
                let (vs, e2) = eval_args_s(sexp_views(items@).drop_first(), old(env)@, fuel as nat);
                final(env)@ == e2 && r.deep_view() == (match vs {
                    Some(vs) => Some(
                        ValueView::Number(
                            if all_eq_first(vs) {
                                1
                            } else {
                                0
                            },
                        ),
                    ),
                    None => None::<ValueView>,
                })
            }),
        decreases fuel, 0int, 1int,
    {
        proof {
            assert(sexp_views(items@).skip(1) =~= sexp_views(items@).drop_first());
        }
        match Self::eval_args(items, 1, env, fuel) {
            Some(vs) => {
                let mut j: usize = 1;
                while j < vs.len()
                    invariant
                        1 <= j,
                        j <= vs@.len() + 1,
                        forall|k: int|
                            1 <= k < j ==> val_eq(value_views(vs@)[k], value_views(vs@)[0]),
                    decreases vs@.len() - j,
                {
                    let same = value_eq(&vs[j], &vs[0]);
                    proof {
                        assert(value_views(vs@)[j as int] == view_value(vs@[j as int]));
                        assert(value_views(vs@)[0] == view_value(vs@[0]));
                    }
                    if !same {
                        proof {
                            assert(!all_eq_first(value_views(vs@)));
                        }
                        return Some(Value::Number(0));
                    }
                    j = j + 1;
                }
                proof {
                    assert(all_eq_first(value_views(vs@)));
                }
                Some(Value::Number(1))
            },
            None => None,
        }
    }

    /// The `lambda` form: package the parameter names, the whole current
    /// environment and the unevaluated body into a closure.
    #[verifier::loop_isolation(false)]
    fn built_in_lambda(items: &Vec<Sexp>, env: &Env) -> (r: Option<Value>)
        requires
            1 <= items@.len(),
        ensures
            ({
                let ops = sexp_views(items@).drop_first();
                r.deep_view() == (if ops.len() == 2 {
                    match ops[0] {
                        SexpView::List(ps) => if all_symbols(ps) {
                            Some(
                                (ValueView::Lambda {
                                    params: symbol_names(ps),
                                    captured: env@,
                                    body: ops[1],
                                }),
                            )
                        } else {
                            None::<ValueView>
                        },
                        _ => None::<ValueView>,
                    }
                } else {
                    None::<ValueView>
                })
            }),
    {
        if items.len() != 3 {
            return None;
        }
        proof {
            assert(sexp_views(items@).drop_first()[0] == view_sexp(items@[1]));
            assert(sexp_views(items@).drop_first()[1] == view_sexp(items@[2]));
        }
        match &items[1] {
            Sexp::List(ps) => {
                let mut names: Vec<String> = Vec::new();
                let mut i: usize = 0;
                while i < ps.len()
                    invariant
                        i <= ps@.len(),
                        names@.len() == i as int,
                        forall|j: int|
                            0 <= j < i ==> (#[trigger] sexp_views(ps@)[j]) matches SexpView::Atom(
                                AtomView::Symbol(_),
                            ),
                        forall|j: int| 0 <= j < i ==> names@[j]@ == sym_name(sexp_views(ps@)[j]),
                    decreases ps@.len() - i,
                {
                    proof {
                        assert(sexp_views(ps@)[i as int] == view_sexp(ps@[i as int]));
                    }
                    match &ps[i] {
                        Sexp::Atom(Atom::Symbol(s)) => {
                            names.push(s.clone());
                        },
                        _ => {
                            proof {
                                assert(!all_symbols(sexp_views(ps@)));
                            }
                            return None;
                        },
                    }
                    i = i + 1;
                }
                proof {
                    assert(all_symbols(sexp_views(ps@)));
                    assert(crate::ast::name_views(names@) =~= symbol_names(sexp_views(ps@)));
                }
                Some(Value::Lambda(names, env.clone(), items[2].clone()))
            },
            _ => None,
        }
    }

    /// The `quote` form: hand the operand back as data, unevaluated.
    fn built_in_quote(items: &Vec<Sexp>) -> (r: Option<Value>)
        requires
            1 <= items@.len(),
        ensures
            ({
                let ops = sexp_views(items@).drop_first();
                r.deep_view() == (if ops.len() == 0 {
                    None::<ValueView>
                } else {
                    Some(quote_val(ops[0]))
                })
            }),
    {
        if items.len() < 2 {
            return None;
        }
        proof {
            assert(sexp_views(items@).drop_first()[0] == view_sexp(items@[1]));
        }
        Some(quote_value(&items[1]))
    }

    /// The `define` form: reduce the expression, then bind the name in the
    /// ambient environment for everything that follows.
    fn built_in_define(items: &Vec<Sexp>, env: &mut Env, fuel: u64) -> (r: Option<Value>)
        requires
            1 <= fuel,
            1 <= items@.len(),
        ensures
            ({
                let ops = sexp_views(items@).drop_first();
                if ops.len() == 2 {
                    match ops[0] {
                        SexpView::Atom(AtomView::Symbol(nm)) => {
                            let (v, e2) = eval_s(ops[1], old(env)@, (fuel - 1) as nat);
                            match v {
                                Some(v) => r.deep_view() == Some(v) && final(env)@ == e2.push(
                                    (BindingView { name: nm, value: v }),
                                ),
                                None => r is None && final(env)@ == e2,
                            }
                        },
                        _ => r is None && final(env)@ == old(env)@,
                    }
                } else {
                    r is None && final(env)@ == old(env)@
                }
            }),
        decreases fuel, 0int, 0int,
    {
        if items.len() != 3 {
            return None;
        }
        proof {
            assert(sexp_views(items@).drop_first()[0] == view_sexp(items@[1]));
            assert(sexp_views(items@).drop_first()[1] == view_sexp(items@[2]));
        }
        match &items[1] {
            Sexp::Atom(Atom::Symbol(nm)) => {
                let name = nm.clone();
                let v = items[2].eval(env, fuel - 1);
                match v {
                    Some(v) => {
                        env.insert(name, v.clone());
                        Some(v)
                    },
                    None => None,
                }
            },
            _ => None,
        }
    }

    /// The `islist` form: `1` when the operand reduces to a list.
    fn built_in_islist(items: &Vec<Sexp>, env: &mut Env, fuel: u64) -> (r: Option<Value>)
        requires
            1 <= fuel,
            1 <= items@.len(),
        ensures
            ({
                let ops = sexp_views(items@).drop_first();
                if ops.len() == 0 {
                    r is None && final(env)@ == old(env)@
                } else {
                    let (v, e2) = eval_s(ops[0], old(env)@, (fuel - 1) as nat);
                    final(env)@ == e2 && r.deep_view() == (match v {
                        Some(v) => Some(
                            ValueView::Number(
                                if v matches ValueView::List(_) {
                                    1
                                } else {
                                    0
                                },
                            ),
                        ),
                        None => None::<ValueView>,
                    })
                }
            }),
        decreases fuel, 0int, 0int,
    {
        if items.len() < 2 {
            return None;
        }
        proof {
            assert(sexp_views(items@).drop_first()[0] == view_sexp(items@[1]));
        }
        match items[1].eval(env, fuel - 1) {
            Some(v) => match &v {
                Value::List(_) => Some(Value::Number(1)),
                _ => Some(Value::Number(0)),
            },
            None => None,
        }
    }

    /// The `isnumber` form: `1` when the operand reduces to a number.
    fn built_in_isnumber(items: &Vec<Sexp>, env: &mut Env, fuel: u64) -> (r: Option<Value>)
        requires
            1 <= fuel,
            1 <= items@.len(),
        ensures
            ({
                let ops = sexp_views(items@).drop_first();
                if ops.len() == 0 {
                    r is None && final(env)@ == old(env)@
                } else {
                    let (v, e2) = eval_s(ops[0], old(env)@, (fuel - 1) as nat);
                    final(env)@ == e2 && r.deep_view() == (match v {
                        Some(v) => Some(
                            ValueView::Number(
                                if v matches ValueView::Number(_) {
                                    1
                                } else {
                                    0
                                },
                            ),
                        ),
                        None => None::<ValueView>,
                    })
                }
            }),
        decreases fuel, 0int, 0int,
    {
        if items.len() < 2 {
            return None;
        }
        proof {
            assert(sexp_views(items@).drop_first()[0] == view_sexp(items@[1]));
        }
        match items[1].eval(env, fuel - 1) {
            Some(v) => match &v {
                Value::Number(_) => Some(Value::Number(1)),
                _ => Some(Value::Number(0)),
            },
            None => None,
        }
    }

    /// The `issymbol` form: `1` when the operand reduces to a quoted
    /// symbol.
    fn built_in_issymbol(items: &Vec<Sexp>, env: &mut Env, fuel: u64) -> (r: Option<Value>)
        requires
            1 <= fuel,
            1 <= items@.len(),
        ensures
            ({
                let ops = sexp_views(items@).drop_first();
                if ops.len() == 0 {
                    r is None && final(env)@ == old(env)@
                } else {
                    let (v, e2) = eval_s(ops[0], old(env)@, (fuel - 1) as nat);
                    final(env)@ == e2 && r.deep_view() == (match v {
                        Some(v) => Some(
                            ValueView::Number(
                                if v matches ValueView::Symbol(_) {
                                    1
                                } else {
                                    0
                                },
                            ),
                        ),
                        None => None::<ValueView>,
                    })
                }
            }),
        decreases fuel, 0int, 0int,
    {
        if items.len() < 2 {
            return None;
        }
        proof {
            assert(sexp_views(items@).drop_first()[0] == view_sexp(items@[1]));
        }
        match items[1].eval(env, fuel - 1) {
            Some(v) => match &v {
                Value::Symbol(_) => Some(Value::Number(1)),
                _ => Some(Value::Number(0)),
            },
            None => None,
        }
    }

    /// Ordinary application: the head must reduce to a lambda; the
    /// arguments are reduced in the caller's environment and bound over the
    /// captured one.
    #[verifier::loop_isolation(false)]
    fn apply(items: &Vec<Sexp>, env: &mut Env, fuel: u64) -> (r: Option<Value>)
        requires
            1 <= fuel,
            1 <= items@.len(),
        ensures
            ({
                let (rv, e2) = apply_s(sexp_views(items@), old(env)@, fuel as nat);
                r.deep_view() == rv && final(env)@ == e2
            }),
        decreases fuel, 0int, 1int,
    {
        proof {
            assert(sexp_views(items@)[0] == view_sexp(items@[0]));
            assert(sexp_views(items@).skip(1) =~= sexp_views(items@).drop_first());
        }
        let h = items[0].eval(env, fuel - 1);
        match h {
            Some(Value::Lambda(params, captured, body)) => {
                match Self::eval_args(items, 1, env, fuel) {
                    Some(vs) => {
                        if vs.len() != params.len() {
                            return None;
                        }
                        let mut callenv = env.clone();
                        callenv.append(captured);
                        let ghost base = callenv@;
                        let mut i: usize = 0;
                        proof {
                            assert(base + bind_args(
                                crate::ast::name_views(params@),
                                value_views(vs@),
                            ).take(0) =~= base);
                        }
                        while i < params.len()
                            invariant
                                i <= params@.len(),
                                params@.len() == vs@.len(),
                                callenv@ == base + bind_args(
                                    crate::ast::name_views(params@),
                                    value_views(vs@),
                                ).take(i as int),
                            decreases params@.len() - i,
                        {
                            let ghost before = callenv@;
                            callenv.insert(params[i].clone(), vs[i].clone());
                            proof {
                                let all = bind_args(
                                    crate::ast::name_views(params@),
                                    value_views(vs@),
                                );
                                assert(all[i as int] == (BindingView {
                                    name: params@[i as int]@,
                                    value: view_value(vs@[i as int]),
                                }));
                                assert(value_views(vs@)[i as int] == view_value(vs@[i as int]));
                                assert(base + all.take(i + 1) =~= (base + all.take(i as int)).push(
                                    all[i as int],
                                ));
                            }
                            i = i + 1;
                        }
                        proof {
                            let all = bind_args(crate::ast::name_views(params@), value_views(vs@));
                            assert(all.take(params@.len() as int) =~= all);
                        }
                        body.eval(&mut callenv, fuel - 1)
                    },
                    None => None,
                }
            },
            Some(_) => None,
            None => None,
        }
    }

    /// Reduce this expression against the given environment, within the
    /// given depth budget, exactly as `eval_s` says.
    pub fn eval(&self, env: &mut Env, fuel: u64) -> (r: Option<Value>)
        ensures
            ({
                let (rv, e2) = eval_s(self@, old(env)@, fuel as nat);
                r.deep_view() == rv && final(env)@ == e2
            }),
        decreases fuel, 1int, 0int,
    {
        if fuel == 0 {
            return None;
        }
        match self {
            Sexp::Atom(Atom::Number(n)) => Some(Value::Number(*n)),
            Sexp::Atom(Atom::Symbol(s)) => env.get(s),
            Sexp::List(sexps) => {
                if sexps.len() == 0 {
                    return None;
                }
                proof {
                    assert(sexp_views(sexps@)[0] == view_sexp(sexps@[0]));
                }
                match self.name_of_car() {
                    Some(n) => {
                        if word_eq(n, "add") {
                            Self::built_in_add(sexps, env, fuel)
                        } else if word_eq(n, "list") {
                            Self::built_in_list(sexps, env, fuel)
                        } else if word_eq(n, "car") {
                            Self::built_in_car(sexps, env, fuel)
                        } else if word_eq(n, "cdr") {
                            Self::built_in_cdr(sexps, env, fuel)
                        } else if word_eq(n, "empty") {
                            Self::built_in_empty(sexps, env, fuel)
                        } else if word_eq(n, "cond") {
                            Self::built_in_cond(sexps, env, fuel)
                        } else if word_eq(n, "equal") {
                            Self::built_in_equal(sexps, env, fuel)
                        } else if word_eq(n, "lambda") {
                            Self::built_in_lambda(sexps, env)
                        } else if word_eq(n, "quote") {
                            Self::built_in_quote(sexps)
                        } else if word_eq(n, "define") {
                            Self::built_in_define(sexps, env, fuel)
                        } else if word_eq(n, "islist") {
                            Self::built_in_islist(sexps, env, fuel)
                        } else if word_eq(n, "isnumber") {
                            Self::built_in_isnumber(sexps, env, fuel)
                        } else if word_eq(n, "issymbol") {
                            Self::built_in_issymbol(sexps, env, fuel)
                        } else {
                            Self::apply(sexps, env, fuel)
                        }
                    },
                    None => Self::apply(sexps, env, fuel),
                }
            },
        }
    }
}

/// Whether every element of the input equals its first element; vacuously
/// true for an empty or single-element input.  The answer is tied to the
/// `==` of the element type where that `==` has a specification.
pub fn all_same<J: PartialEq>(input: Vec<J>) -> (r: bool)
    ensures
        J::obeys_eq_spec() ==> (r <==> (forall|i: int|
            1 <= i < input@.len() ==> input@[i].eq_spec(&input@[0]))),
{
    if input.len() == 0 {
        return true;
    }
    let mut i: usize = 1;
    while i < input.len()
        invariant
            1 <= i <= input@.len(),
            J::obeys_eq_spec() ==> (forall|j: int| 1 <= j < i ==> input@[j].eq_spec(&input@[0])),
        decreases input@.len() - i,
    {
        if !(input[i] == input[0]) {
            return false;
        }
        i = i + 1;
    }
    true
}

} // verus!
