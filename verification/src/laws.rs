//! General laws of the language, proved once and for all against the
//! specification interpreter.

use vstd::prelude::*;

use crate::ast::AtomView;
use crate::ast::BindingView;
use crate::ast::SexpView;
use crate::ast::ValueView;
use crate::semantics::all_eq_first;
use crate::semantics::cond_s;
use crate::semantics::eval_args_s;
use crate::semantics::eval_s;
use crate::semantics::fits_i64;
use crate::semantics::lookup;
use crate::semantics::nums_s;
use crate::semantics::quote_val;
use crate::semantics::sum_of;
use crate::semantics::val_eq;

verus! {

/// Whether every operand is a bare number literal.
pub open spec fn all_number_literals(ops: Seq<SexpView>) -> bool {
    forall|i: int|
        0 <= i < ops.len() ==> (#[trigger] ops[i]) matches SexpView::Atom(AtomView::Number(_))
}

/// The number under a literal operand (zero for any other node).
pub open spec fn literal_num(s: SexpView) -> int {
    match s {
        SexpView::Atom(AtomView::Number(n)) => n,
        _ => 0,
    }
}

/// The numbers under a run of literal operands.
pub open spec fn literal_nums(ops: Seq<SexpView>) -> Seq<int> {
    Seq::new(ops.len(), |i: int| literal_num(ops[i]))
}

/// Removing one element takes exactly its value out of the sum.
proof fn lemma_sum_remove(s: Seq<int>, j: int)
    requires
        0 <= j < s.len(),
    ensures
        sum_of(s.remove(j)) == sum_of(s) - s[j],
    decreases s.len(),
{
    if j == s.len() - 1 {
        assert(s.remove(j) =~= s.drop_last());
    } else {
        assert(s.remove(j).drop_last() =~= s.drop_last().remove(j));
        lemma_sum_remove(s.drop_last(), j);
        assert(s.remove(j).last() == s.last());
    }
}

/// Sequences holding the same numbers the same number of times have the
/// same sum, whatever the order.
proof fn lemma_sum_permutation(a: Seq<int>, b: Seq<int>)
    requires
        a.to_multiset() == b.to_multiset(),
    ensures
        sum_of(a) == sum_of(b),
    decreases a.len(),
{
    broadcast use vstd::seq_lib::group_to_multiset_ensures;

    if a.len() == 0 {
        assert(b.to_multiset().len() == 0);
    } else {
        let i = a.len() - 1;
        let x = a.last();
        assert(a.contains(x));
        assert(b.to_multiset().count(x) > 0);
        assert(b.contains(x));
        let j = choose|j: int| 0 <= j < b.len() && b[j] == x;
        assert(a.remove(i) =~= a.drop_last());
        assert(a.drop_last().to_multiset() == a.to_multiset().remove(x));
        assert(b.remove(j).to_multiset() == b.to_multiset().remove(x));
        lemma_sum_permutation(a.drop_last(), b.remove(j));
        lemma_sum_remove(b, j);
    }
}

/// A run of number literals reduces to exactly those numbers, and touches
/// nothing in the environment.
proof fn lemma_nums_of_literals(ops: Seq<SexpView>, env: Seq<BindingView>, fuel: nat)
    requires
        fuel >= 2,
        all_number_literals(ops),
    ensures
        nums_s(ops, env, fuel) == (literal_nums(ops), env),
    decreases ops.len(),
{
    if ops.len() == 0 {
        assert(literal_nums(ops) =~= Seq::<int>::empty());
    } else {
        assert(ops[0] matches SexpView::Atom(AtomView::Number(_)));
        let (r, env1) = eval_s(ops[0], env, (fuel - 1) as nat);
        assert(r == Some(ValueView::Number(literal_num(ops[0]))) && env1 == env);
        assert forall|i: int|
            0 <= i < ops.drop_first().len() implies (#[trigger] ops.drop_first()[i]) matches
            SexpView::Atom(AtomView::Number(_)) by {
            assert(ops.drop_first()[i] == ops[i + 1]);
        }
        lemma_nums_of_literals(ops.drop_first(), env, fuel);
        assert(literal_nums(ops) =~= seq![literal_num(ops[0])] + literal_nums(ops.drop_first()));
    }
}

/// Law: over number literals, `add` is order-insensitive.  Two `add` forms
/// whose operands hold the same numbers, however arranged, reduce to the
/// same result — the sum, whenever it fits the machine integers — and
/// leave the environment as it was.
pub proof fn lemma_add_order_insensitive(
    items1: Seq<SexpView>,
    items2: Seq<SexpView>,
    env: Seq<BindingView>,
    fuel: nat,
)
    requires
        fuel >= 2,
        items1.len() >= 1,
        items2.len() >= 1,
        items1[0] == SexpView::Atom(AtomView::Symbol("add"@)),
        items2[0] == SexpView::Atom(AtomView::Symbol("add"@)),
        all_number_literals(items1.drop_first()),
        all_number_literals(items2.drop_first()),
        literal_nums(items1.drop_first()).to_multiset() == literal_nums(
            items2.drop_first(),
        ).to_multiset(),
    ensures
        eval_s(SexpView::List(items1), env, fuel) == eval_s(SexpView::List(items2), env, fuel),
        fits_i64(sum_of(literal_nums(items1.drop_first()))) ==> eval_s(
            SexpView::List(items1),
            env,
            fuel,
        ) == (Some(ValueView::Number(sum_of(literal_nums(items1.drop_first())))), env),
{
    lemma_nums_of_literals(items1.drop_first(), env, fuel);
    lemma_nums_of_literals(items2.drop_first(), env, fuel);
    lemma_sum_permutation(literal_nums(items1.drop_first()), literal_nums(items2.drop_first()));
}

/// Splitting a run of numbers splits its sum.
proof fn lemma_sum_concat(a: Seq<int>, b: Seq<int>)
    ensures
        sum_of(a + b) == sum_of(a) + sum_of(b),
    decreases b.len(),
{
    if b.len() == 0 {
        assert(a + b =~= a);
    } else {
        assert((a + b).drop_last() =~= a + b.drop_last());
        lemma_sum_concat(a, b.drop_last());
        assert((a + b).last() == b.last());
    }
}

/// Splitting a run of operands splits the numbers it keeps, with the
/// environment threaded through the first part into the second.
proof fn lemma_nums_concat(a: Seq<SexpView>, b: Seq<SexpView>, env: Seq<BindingView>, fuel: nat)
    requires
        fuel >= 1,
    ensures
        nums_s(a + b, env, fuel) == ({
            let (n1, e1) = nums_s(a, env, fuel);
            let (n2, e2) = nums_s(b, e1, fuel);
            (n1 + n2, e2)
        }),
    decreases a.len(),
{
    if a.len() == 0 {
        assert(a + b =~= b);
        let (n2, e2) = nums_s(b, env, fuel);
        assert(Seq::<int>::empty() + n2 =~= n2);
    } else {
        assert((a + b)[0] == a[0]);
        assert((a + b).drop_first() =~= a.drop_first() + b);
        let (r, env1) = eval_s(a[0], env, (fuel - 1) as nat);
        lemma_nums_concat(a.drop_first(), b, env1, fuel);
        let (n1t, e1) = nums_s(a.drop_first(), env1, fuel);
        let (n2, e2) = nums_s(b, e1, fuel);
        match r {
            Some(ValueView::Number(n)) => {
                assert(seq![n] + (n1t + n2) =~= (seq![n] + n1t) + n2);
            },
            _ => {},
        }
    }
}

/// Law: over number literals, `add` is associative.  An `add` form with a
/// nested `add` of literals among its operands sums exactly as the
/// flattened run would: the grouping plays no part, provided the inner sum
/// and the total both fit the machine integers.
pub proof fn lemma_add_flattens(
    before: Seq<SexpView>,
    inner: Seq<SexpView>,
    after: Seq<SexpView>,
    env: Seq<BindingView>,
    fuel: nat,
)
    requires
        fuel >= 3,
        all_number_literals(before),
        all_number_literals(after),
        inner.len() >= 1,
        inner[0] == SexpView::Atom(AtomView::Symbol("add"@)),
        all_number_literals(inner.drop_first()),
        fits_i64(sum_of(literal_nums(inner.drop_first()))),
    ensures
        ({
            let items = seq![SexpView::Atom(AtomView::Symbol("add"@))] + before + seq![
                SexpView::List(inner),
            ] + after;
            let total = sum_of(literal_nums(before)) + sum_of(literal_nums(inner.drop_first()))
                + sum_of(literal_nums(after));
            fits_i64(total) ==> eval_s(SexpView::List(items), env, fuel) == (
                Some(ValueView::Number(total)),
                env,
            )
        }),
{
    let si = sum_of(literal_nums(inner.drop_first()));
    lemma_add_order_insensitive(inner, inner, env, (fuel - 1) as nat);
    let items = seq![SexpView::Atom(AtomView::Symbol("add"@))] + before + seq![
        SexpView::List(inner),
    ] + after;
    let mid = seq![SexpView::List(inner)] + after;
    assert(items[0] == SexpView::Atom(AtomView::Symbol("add"@)));
    assert(items.drop_first() =~= before + mid);
    lemma_nums_of_literals(before, env, fuel);
    lemma_nums_concat(before, mid, env, fuel);
    assert(mid[0] == SexpView::List(inner));
    assert(mid.drop_first() =~= after);
    assert(eval_s(SexpView::List(inner), env, (fuel - 1) as nat) == (
        Some(ValueView::Number(si)),
        env,
    ));
    lemma_nums_of_literals(after, env, fuel);
    assert(nums_s(mid, env, fuel) == (seq![si] + literal_nums(after), env));
    assert(nums_s(items.drop_first(), env, fuel) == (
        literal_nums(before) + (seq![si] + literal_nums(after)),
        env,
    ));
    lemma_sum_concat(literal_nums(before), seq![si] + literal_nums(after));
    lemma_sum_concat(seq![si], literal_nums(after));
    assert(seq![si].drop_last() =~= Seq::<int>::empty());
    assert(sum_of(Seq::<int>::empty()) == 0);
    assert(seq![si].last() == si);
    assert(sum_of(seq![si]) == si);
}

/// Law: what `equal` decides.  Once the operands have reduced to values,
/// the form yields `1` exactly when every value equals the first — so
/// always `1` for zero or one operand — and `0` as soon as any value
/// differs; the environment is whatever the operands left.
pub proof fn lemma_equal_decides(
    items: Seq<SexpView>,
    env: Seq<BindingView>,
    fuel: nat,
    vs: Seq<ValueView>,
)
    requires
        fuel >= 1,
        items.len() >= 1,
        items[0] == SexpView::Atom(AtomView::Symbol("equal"@)),
        eval_args_s(items.drop_first(), env, fuel).0 == Some(vs),
    ensures
        eval_s(SexpView::List(items), env, fuel).1 == eval_args_s(
            items.drop_first(),
            env,
            fuel,
        ).1,
        vs.len() <= 1 ==> eval_s(SexpView::List(items), env, fuel).0 == Some(ValueView::Number(1)),
        (forall|i: int| 1 <= i < vs.len() ==> val_eq(vs[i], vs[0])) ==> eval_s(
            SexpView::List(items),
            env,
            fuel,
        ).0 == Some(ValueView::Number(1)),
        (exists|i: int| 1 <= i < vs.len() && !val_eq(vs[i], vs[0])) ==> eval_s(
            SexpView::List(items),
            env,
            fuel,
        ).0 == Some(ValueView::Number(0)),
{
    reveal_strlit("add");
    reveal_strlit("list");
    reveal_strlit("car");
    reveal_strlit("cdr");
    reveal_strlit("empty");
    reveal_strlit("cond");
    reveal_strlit("equal");
    assert("equal"@ != "empty"@) by {
        assert("equal"@[1] == 'q');
        assert("empty"@[1] == 'm');
    }
    assert("equal"@.len() == 5 && "add"@.len() == 3 && "list"@.len() == 4 && "car"@.len() == 3
        && "cdr"@.len() == 3 && "cond"@.len() == 4);
    assert("equal"@ != "add"@ && "equal"@ != "list"@ && "equal"@ != "car"@ && "equal"@ != "cdr"@
        && "equal"@ != "cond"@);
    let (avs, env1) = eval_args_s(items.drop_first(), env, fuel);
    assert(eval_s(SexpView::List(items), env, fuel) == (
        Some(
            ValueView::Number(
                if all_eq_first(vs) {
                    1int
                } else {
                    0int
                },
            ),
        ),
        env1,
    ));
    if exists|i: int| 1 <= i < vs.len() && !val_eq(vs[i], vs[0]) {
        assert(!all_eq_first(vs));
    }
}

/// Law: the first `cond` clause whose test reduces to anything other than
/// `0` decides the whole form — its result expression is reduced in the
/// environment the test left, and the clauses after it play no part at
/// all.
pub proof fn lemma_cond_first_nonzero_wins(
    c: SexpView,
    rest1: Seq<SexpView>,
    rest2: Seq<SexpView>,
    env: Seq<BindingView>,
    fuel: nat,
)
    requires
        fuel >= 1,
        c matches SexpView::List(pr) && pr.len() == 2,
        ({
            let (t, e1) = eval_s(c->List_0[0], env, (fuel - 1) as nat);
            t matches Some(v) && v != ValueView::Number(0)
        }),
    ensures
        cond_s(seq![c] + rest1, env, fuel) == cond_s(seq![c] + rest2, env, fuel),
        cond_s(seq![c] + rest1, env, fuel) == eval_s(
            c->List_0[1],
            eval_s(c->List_0[0], env, (fuel - 1) as nat).1,
            (fuel - 1) as nat,
        ),
{
    assert((seq![c] + rest1)[0] == c);
    assert((seq![c] + rest2)[0] == c);
}

/// Law: a clause whose test fails or yields `0` is passed over, and the
/// form reduces exactly as `cond` of the remaining clauses, from the
/// environment the test left behind.  A head clause that is not a
/// two-element list fails the whole form.
pub proof fn lemma_cond_skips_clause(
    pairs: Seq<SexpView>,
    env: Seq<BindingView>,
    fuel: nat,
)
    requires
        fuel >= 1,
        pairs.len() >= 1,
    ensures
        (match pairs[0] {
            SexpView::List(pr) => if pr.len() == 2 {
                let (t, e1) = eval_s(pr[0], env, (fuel - 1) as nat);
                (t is None || t == Some(ValueView::Number(0))) ==> cond_s(pairs, env, fuel)
                    == cond_s(pairs.drop_first(), e1, fuel)
            } else {
                cond_s(pairs, env, fuel) == (None::<ValueView>, env)
            },
            _ => cond_s(pairs, env, fuel) == (None::<ValueView>, env),
        }),
{
}

/// Law: with no clause left, `cond` falls through to `0` and leaves the
/// environment alone.
pub proof fn lemma_cond_falls_through(env: Seq<BindingView>, fuel: nat)
    requires
        fuel >= 1,
    ensures
        cond_s(Seq::empty(), env, fuel) == (Some(ValueView::Number(0)), env),
{
}

/// Law: a binding just added is what a lookup finds.  Binding a name — as
/// `define` does to the ambient environment, and as parameter binding does
/// to a call environment — makes every later lookup of that name see the
/// new value, shadowing whatever was there, while every other name is
/// untouched.
pub proof fn lemma_lookup_newest(
    env: Seq<BindingView>,
    name: Seq<char>,
    value: ValueView,
    other: Seq<char>,
)
    ensures
        lookup(env.push(BindingView { name, value }), name) == Some(value),
        other != name ==> lookup(env.push(BindingView { name, value }), other)
            == lookup(env, other),
{
    let pushed = env.push(BindingView { name, value });
    assert(pushed.last() == (BindingView { name, value }));
    assert(pushed.drop_last() =~= env);
}

/// Law: quoted data are equal exactly when the quoted syntax is.  `quote`
/// turns a tree into the value that `list` and `quote` of the leaves would
/// build, so `equal` on two quoted trees decides syntactic equality:
/// identical trees give `1`, differing contents give `0`.
pub proof fn lemma_quote_val_eq_iff(x: SexpView, y: SexpView)
    ensures
        val_eq(quote_val(x), quote_val(y)) <==> x == y,
    decreases x,
{
    match (x, y) {
        (SexpView::List(xs), SexpView::List(ys)) => {
            let qx = quote_val(x);
            let qy = quote_val(y);
            if xs.len() == ys.len() {
                assert forall|i: int| 0 <= i < xs.len() implies (val_eq(
                    #[trigger] qx->List_0[i],
                    qy->List_0[i],
                ) <==> xs[i] == ys[i]) by {
                    lemma_quote_val_eq_iff(xs[i], ys[i]);
                    assert(qx->List_0[i] == quote_val(xs[i]));
                    assert(qy->List_0[i] == quote_val(ys[i]));
                }
                if val_eq(qx, qy) {
                    assert forall|i: int| 0 <= i < xs.len() implies xs[i] == ys[i] by {
                        assert(val_eq(qx->List_0[i], qy->List_0[i]));
                    }
                    assert(xs =~= ys);
                } else {
                    if x == y {
                        assert forall|i: int|
                            0 <= i < qx->List_0.len() implies val_eq(
                            qx->List_0[i],
                            #[trigger] qy->List_0[i],
                        ) by {
                            assert(xs[i] == ys[i]);
                        }
                        assert(val_eq(qx, qy));
                    }
                }
            } else {
                assert(qx->List_0.len() != qy->List_0.len());
            }
        },
        _ => {},
    }
}

} // verus!
