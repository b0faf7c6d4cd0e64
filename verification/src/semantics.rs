//! The meaning of the language, written as recursive specification
//! functions over the view types.
//!
//! `eval_s` is the single reduction rule: dispatch on the shape of the
//! node, with a fixed rule for each special form and call-by-value
//! application otherwise.  Every executable function of the evaluator is
//! proved to return exactly what these functions say.
//!
//! Evaluation is indexed by a fuel that bounds the depth of nested
//! reductions; a program that needs more nesting than the fuel allows
//! fails rather than overflowing the native stack.

use vstd::prelude::*;

use crate::ast::AtomView;
use crate::ast::BindingView;
use crate::ast::SexpView;
use crate::ast::ValueView;

verus! {

/// Depth budget used for every top-level form.  Far deeper than any
/// reasonable program nests, yet shallow enough that a runaway recursion
/// gives up long before it could exhaust the native call stack.
pub const EVAL_FUEL: u64 = 512;

/// Whether a mathematical integer fits the machine integers used for
/// numbers.
pub open spec fn fits_i64(n: int) -> bool {
    i64::MIN <= n <= i64::MAX
}

/// Look a name up in an environment; the binding added last wins.
pub open spec fn lookup(env: Seq<BindingView>, name: Seq<char>) -> Option<ValueView>
    decreases env.len(),
{
    if env.len() == 0 {
        None
    } else if env.last().name == name {
        Some(env.last().value)
    } else {
        lookup(env.drop_last(), name)
    }
}

/// Structural equality as decided by the `equal` form: numbers and symbols
/// by content, lists element-wise; a lambda is equal to nothing, itself
/// included.
pub open spec fn val_eq(a: ValueView, b: ValueView) -> bool
    decreases a,
{
    match (a, b) {
        (ValueView::Number(x), ValueView::Number(y)) => x == y,
        (ValueView::Symbol(x), ValueView::Symbol(y)) => x == y,
        (ValueView::List(xs), ValueView::List(ys)) => xs.len() == ys.len() && (forall|i: int|
            0 <= i < xs.len() ==> val_eq(xs[i], #[trigger] ys[i])),
        _ => false,
    }
}

/// Whether every later operand value equals the first one; vacuously true
/// for zero or one operand.
pub open spec fn all_eq_first(vs: Seq<ValueView>) -> bool {
    forall|i: int| 1 <= i < vs.len() ==> val_eq(vs[i], vs[0])
}

/// The datum a `quote` form produces: the syntax tree itself, read as a
/// value.
pub open spec fn quote_val(s: SexpView) -> ValueView
    decreases s,
{
    match s {
        SexpView::Atom(AtomView::Number(n)) => ValueView::Number(n),
        SexpView::Atom(AtomView::Symbol(x)) => ValueView::Symbol(x),
        SexpView::List(items) => ValueView::List(
            Seq::new(
                items.len(),
                |i: int|
                    if 0 <= i < items.len() {
                        quote_val(items[i])
                    } else {
                        ValueView::Number(0)
                    },
            ),
        ),
    }
}

/// The sum of a sequence of integers.
pub open spec fn sum_of(ns: Seq<int>) -> int
    decreases ns.len(),
{
    if ns.len() == 0 {
        0
    } else {
        sum_of(ns.drop_last()) + ns.last()
    }
}

/// Whether a parameter list consists of bare symbols only.
pub open spec fn all_symbols(ps: Seq<SexpView>) -> bool {
    forall|i: int|
        0 <= i < ps.len() ==> (#[trigger] ps[i]) matches SexpView::Atom(AtomView::Symbol(_))
}

/// The name under a symbol node (empty for any other node).
pub open spec fn sym_name(s: SexpView) -> Seq<char> {
    match s {
        SexpView::Atom(AtomView::Symbol(x)) => x,
        _ => Seq::empty(),
    }
}

/// The names of a parameter list of bare symbols.
pub open spec fn symbol_names(ps: Seq<SexpView>) -> Seq<Seq<char>> {
    Seq::new(ps.len(), |i: int| sym_name(ps[i]))
}

/// The bindings that tie parameter names to argument values, positionally.
pub open spec fn bind_args(params: Seq<Seq<char>>, vs: Seq<ValueView>) -> Seq<BindingView>
    recommends
        params.len() == vs.len(),
{
    Seq::new(params.len(), |i: int| BindingView { name: params[i], value: vs[i] })
}

/// Reduce one expression.  Returns the optional result value and the
/// environment as the evaluation leaves it (`define` is the one form that
/// extends it).  With fuel 0 every expression fails.
pub open spec fn eval_s(e: SexpView, env: Seq<BindingView>, fuel: nat) -> (Option<
    ValueView,
>, Seq<BindingView>)
    decreases fuel, 1nat, 0nat,
{
    if fuel == 0 {
        (None, env)
    } else {
        let g = (fuel - 1) as nat;
        match e {
            SexpView::Atom(AtomView::Number(n)) => (Some(ValueView::Number(n)), env),
            SexpView::Atom(AtomView::Symbol(x)) => (lookup(env, x), env),
            SexpView::List(items) => {
                if items.len() == 0 {
                    (None, env)
                } else {
                    match items[0] {
                        SexpView::Atom(AtomView::Symbol(name)) => {
                            let ops = items.drop_first();
                            if name == "add"@ {
                                let (ns, env1) = nums_s(ops, env, fuel);
                                if fits_i64(sum_of(ns)) {
                                    (Some(ValueView::Number(sum_of(ns))), env1)
                                } else {
                                    (None, env1)
                                }
                            } else if name == "list"@ {
                                let (vs, env1) = eval_args_s(ops, env, fuel);
                                match vs {
                                    Some(vs) => (Some(ValueView::List(vs)), env1),
                                    None => (None, env1),
                                }
                            } else if name == "car"@ {
                                if ops.len() == 0 {
                                    (None, env)
                                } else {
                                    let (r, env1) = eval_s(ops[0], env, g);
                                    match r {
                                        Some(ValueView::List(vs)) => if vs.len() > 0 {
                                            (Some(vs[0]), env1)
                                        } else {
                                            (None, env1)
                                        },
                                        _ => (None, env1),
                                    }
                                }
                            } else if name == "cdr"@ {
                                if ops.len() == 0 {
                                    (None, env)
                                } else {
                                    let (r, env1) = eval_s(ops[0], env, g);
                                    match r {
                                        Some(ValueView::List(vs)) => if vs.len() > 0 {
                                            (Some(ValueView::List(vs.drop_first())), env1)
                                        } else {
                                            (Some(ValueView::List(vs)), env1)
                                        },
                                        _ => (None, env1),
                                    }
                                }
                            } else if name == "empty"@ {
                                if ops.len() == 0 {
                                    (None, env)
                                } else {
                                    let (r, env1) = eval_s(ops[0], env, g);
                                    match r {
                                        Some(ValueView::List(vs)) => if vs.len() == 0 {
                                            (Some(ValueView::Number(1)), env1)
                                        } else {
                                            (Some(ValueView::Number(0)), env1)
                                        },
                                        Some(v) => (Some(ValueView::Number(0)), env1),
                                        None => (None, env1),
                                    }
                                }
                            } else if name == "cond"@ {
                                cond_s(ops, env, fuel)
                            } else if name == "equal"@ {
                                let (vs, env1) = eval_args_s(ops, env, fuel);
                                match vs {
                                    Some(vs) => (
                                        Some(
                                            ValueView::Number(
                                                if all_eq_first(vs) {
                                                    1
                                                } else {
                                                    0
                                                },
                                            ),
                                        ),
                                        env1,
                                    ),
                                    None => (None, env1),
                                }
                            } else if name == "lambda"@ {
                                if ops.len() == 2 {
                                    match ops[0] {
                                        SexpView::List(ps) => if all_symbols(ps) {
                                            (
                                                Some(
                                                    ValueView::Lambda {
                                                        params: symbol_names(ps),
                                                        captured: env,
                                                        body: ops[1],
                                                    },
                                                ),
                                                env,
                                            )
                                        } else {
                                            (None, env)
                                        },
                                        _ => (None, env),
                                    }
                                } else {
                                    (None, env)
                                }
                            } else if name == "quote"@ {
                                if ops.len() == 0 {
                                    (None, env)
                                } else {
                                    (Some(quote_val(ops[0])), env)
                                }
                            } else if name == "define"@ {
                                if ops.len() == 2 {
                                    match ops[0] {
                                        SexpView::Atom(AtomView::Symbol(nm)) => {
                                            let (r, env1) = eval_s(ops[1], env, g);
                                            match r {
                                                Some(v) => (
                                                    Some(v),
                                                    env1.push(BindingView { name: nm, value: v }),
                                                ),
                                                None => (None, env1),
                                            }
                                        },
                                        _ => (None, env),
                                    }
                                } else {
                                    (None, env)
                                }
                            } else if name == "islist"@ {
                                if ops.len() == 0 {
                                    (None, env)
                                } else {
                                    let (r, env1) = eval_s(ops[0], env, g);
                                    match r {
                                        Some(v) => (
                                            Some(
                                                ValueView::Number(
                                                    if v matches ValueView::List(_) {
                                                        1
                                                    } else {
                                                        0
                                                    },
                                                ),
                                            ),
                                            env1,
                                        ),
                                        None => (None, env1),
                                    }
                                }
                            } else if name == "isnumber"@ {
                                if ops.len() == 0 {
                                    (None, env)
                                } else {
                                    let (r, env1) = eval_s(ops[0], env, g);
                                    match r {
                                        Some(v) => (
                                            Some(
                                                ValueView::Number(
                                                    if v matches ValueView::Number(_) {
                                                        1
                                                    } else {
                                                        0
                                                    },
                                                ),
                                            ),
                                            env1,
                                        ),
                                        None => (None, env1),
                                    }
                                }
                            } else if name == "issymbol"@ {
                                if ops.len() == 0 {
                                    (None, env)
                                } else {
                                    let (r, env1) = eval_s(ops[0], env, g);
                                    match r {
                                        Some(v) => (
                                            Some(
                                                ValueView::Number(
                                                    if v matches ValueView::Symbol(_) {
                                                        1
                                                    } else {
                                                        0
                                                    },
                                                ),
                                            ),
                                            env1,
                                        ),
                                        None => (None, env1),
                                    }
                                }
                            } else {
                                apply_s(items, env, fuel)
                            }
                        },
                        _ => apply_s(items, env, fuel),
                    }
                }
            },
        }
    }
}

/// Call-by-value application: reduce the head to a lambda, reduce every
/// argument left to right in the caller's environment, then reduce the body
/// in the captured environment extended over the caller's and overridden by
/// the parameter bindings.  Nothing bound inside the callee leaks back.
///
/// The caller's environment underlies the captured one so that a name
/// bound by `define` after the closure was made — above all the name the
/// closure itself was bound to — can still be reached from the body; that
/// is what lets a defined lambda call itself.  Everything the closure did
/// capture shadows the caller's binding of the same name, which keeps
/// capture by value: mutating a defining scope later does not show through.
pub open spec fn apply_s(items: Seq<SexpView>, env: Seq<BindingView>, fuel: nat) -> (Option<
    ValueView,
>, Seq<BindingView>)
    decreases fuel, 0nat, items.len(),
{
    if fuel == 0 || items.len() == 0 {
        (None, env)
    } else {
        let g = (fuel - 1) as nat;
        let (h, env1) = eval_s(items[0], env, g);
        match h {
            Some(ValueView::Lambda { params, captured, body }) => {
                let (vs, env2) = eval_args_s(items.drop_first(), env1, fuel);
                match vs {
                    Some(vs) => if vs.len() == params.len() {
                        let callenv = env2 + captured + bind_args(params, vs);
                        let (r, ignored) = eval_s(body, callenv, g);
                        (r, env2)
                    } else {
                        (None, env2)
                    },
                    None => (None, env2),
                }
            },
            Some(v) => (None, env1),
            None => (None, env1),
        }
    }
}

/// Reduce a run of operands left to right, each against the environment the
/// one before it left behind.  The first failure stops the run and fails the
/// whole; later operands are not reduced.
pub open spec fn eval_args_s(ops: Seq<SexpView>, env: Seq<BindingView>, fuel: nat) -> (Option<
    Seq<ValueView>,
>, Seq<BindingView>)
    decreases fuel, 0nat, ops.len(),
{
    if fuel == 0 {
        (None, env)
    } else if ops.len() == 0 {
        (Some(Seq::empty()), env)
    } else {
        let (r, env1) = eval_s(ops[0], env, (fuel - 1) as nat);
        match r {
            None => (None, env1),
            Some(v) => {
                let (rest, env2) = eval_args_s(ops.drop_first(), env1, fuel);
                match rest {
                    Some(vs) => (Some(seq![v] + vs), env2),
                    None => (None, env2),
                }
            },
        }
    }
}

/// Reduce a run of operands left to right and keep the numbers among the
/// results.  An operand that fails or yields something other than a number
/// is dropped from the run; its effect on the environment remains.
pub open spec fn nums_s(ops: Seq<SexpView>, env: Seq<BindingView>, fuel: nat) -> (Seq<
    int,
>, Seq<BindingView>)
    decreases fuel, 0nat, ops.len(),
{
    if fuel == 0 || ops.len() == 0 {
        (Seq::empty(), env)
    } else {
        let (r, env1) = eval_s(ops[0], env, (fuel - 1) as nat);
        let (rest, env2) = nums_s(ops.drop_first(), env1, fuel);
        match r {
            Some(ValueView::Number(n)) => (seq![n] + rest, env2),
            _ => (rest, env2),
        }
    }
}

/// Walk `cond` clauses left to right.  A clause whose test fails or yields
/// `0` is passed over; the first test that yields anything else selects its
/// clause's result expression.  A clause that is not a two-element list
/// fails the whole form.  With no clause selected the form yields `0`.
pub open spec fn cond_s(pairs: Seq<SexpView>, env: Seq<BindingView>, fuel: nat) -> (Option<
    ValueView,
>, Seq<BindingView>)
    decreases fuel, 0nat, pairs.len(),
{
    if fuel == 0 {
        (None, env)
    } else if pairs.len() == 0 {
        (Some(ValueView::Number(0)), env)
    } else {
        let g = (fuel - 1) as nat;
        match pairs[0] {
            SexpView::List(pr) => if pr.len() == 2 {
                let (t, env1) = eval_s(pr[0], env, g);
                match t {
                    Some(v) => if v != ValueView::Number(0) {
                        eval_s(pr[1], env1, g)
                    } else {
                        cond_s(pairs.drop_first(), env1, fuel)
                    },
                    None => cond_s(pairs.drop_first(), env1, fuel),
                }
            } else {
                (None, env)
            },
            _ => (None, env),
        }
    }
}

/// Run a program: reduce each top-level form against the one environment,
/// keep whatever `define` added, and return the last form's result.  An
/// empty program has no result, and a failure of a form other than the last
/// does not stop the run.
pub open spec fn run_forms_s(forms: Seq<SexpView>, env: Seq<BindingView>, fuel: nat) -> (Option<
    ValueView,
>, Seq<BindingView>)
    decreases forms.len(),
{
    if forms.len() == 0 {
        (None, env)
    } else {
        let (r, env1) = eval_s(forms[0], env, fuel);
        if forms.len() == 1 {
            (r, env1)
        } else {
            run_forms_s(forms.drop_first(), env1, fuel)
        }
    }
}

} // verus!
