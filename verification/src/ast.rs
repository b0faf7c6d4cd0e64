//! Syntax trees, runtime values and environments, together with their
//! mathematical views.
//!
//! Every contract in this crate is stated over the view types
//! ([`SexpView`], [`ValueView`], [`BindingView`]), which replace machine
//! integers, heap strings and vectors by `int`, `Seq<char>` and `Seq`.

use vstd::prelude::*;

verus! {

/// A leaf of the surface syntax: an integer literal or a bare symbol.
#[derive(Debug, PartialEq, Eq)]
pub enum Atom {
    Number(i64),
    Symbol(String),
}

/// A parsed expression: an atom, or a parenthesized list of expressions.
#[derive(Debug, PartialEq, Eq)]
pub enum Sexp {
    Atom(Atom),
    List(Vec<Sexp>),
}

/// The result of evaluation: a number, a quoted symbol, a list of values,
/// or a closure packaging parameter names, the captured environment and an
/// unevaluated body.
#[derive(Debug, PartialEq, Eq)]
pub enum Value {
    Number(i64),
    Symbol(String),
    List(Vec<Value>),
    Lambda(Vec<String>, Env, Sexp),
}

/// One name-to-value binding held by an environment.
#[derive(Debug, PartialEq, Eq)]
pub struct Binding {
    pub name: String,
    pub value: Value,
}

/// A mapping from symbol names to values.  Later bindings shadow earlier
/// ones, so a lookup scans from the back.
#[derive(Debug, PartialEq, Eq)]
pub struct Env {
    pub bindings: Vec<Binding>,
}

/// Mathematical counterpart of [`Atom`].
#[verifier::ext_equal]
pub enum AtomView {
    Number(int),
    Symbol(Seq<char>),
}

/// Mathematical counterpart of [`Sexp`].
#[verifier::ext_equal]
pub enum SexpView {
    Atom(AtomView),
    List(Seq<SexpView>),
}

/// Mathematical counterpart of [`Value`].
#[verifier::ext_equal]
pub enum ValueView {
    Number(int),
    Symbol(Seq<char>),
    List(Seq<ValueView>),
    Lambda { params: Seq<Seq<char>>, captured: Seq<BindingView>, body: SexpView },
}

/// Mathematical counterpart of [`Binding`]; a `Seq<BindingView>` stands for
/// a whole environment.
#[verifier::ext_equal]
pub struct BindingView {
    pub name: Seq<char>,
    pub value: ValueView,
}

impl View for Atom {
    type V = AtomView;

    open spec fn view(&self) -> AtomView {
        match self {
            Atom::Number(n) => AtomView::Number(*n as int),
            Atom::Symbol(s) => AtomView::Symbol(s@),
        }
    }
}

/// The view of one expression.
pub open spec fn view_sexp(s: Sexp) -> SexpView
    decreases s,
{
    match s {
        Sexp::Atom(a) => SexpView::Atom(a@),
        Sexp::List(items) => SexpView::List(sexp_views(items@)),
    }
}

/// The views of a sequence of expressions, element by element.
pub open spec fn sexp_views(items: Seq<Sexp>) -> Seq<SexpView>
    decreases items,
{
    Seq::new(
        items.len(),
        |i: int|
            if 0 <= i < items.len() {
                view_sexp(items[i])
            } else {
                SexpView::List(Seq::empty())
            },
    )
}

impl View for Sexp {
    type V = SexpView;

    open spec fn view(&self) -> SexpView {
        view_sexp(*self)
    }
}

impl DeepView for Sexp {
    type V = SexpView;

    open spec fn deep_view(&self) -> SexpView {
        view_sexp(*self)
    }
}

/// The view of one runtime value.
pub open spec fn view_value(v: Value) -> ValueView
    decreases v,
{
    match v {
        Value::Number(n) => ValueView::Number(n as int),
        Value::Symbol(s) => ValueView::Symbol(s@),
        Value::List(items) => ValueView::List(value_views(items@)),
        Value::Lambda(params, captured, body) => ValueView::Lambda {
            params: name_views(params@),
            captured: env_view(captured),
            body: view_sexp(body),
        },
    }
}

/// The views of a sequence of runtime values, element by element.
pub open spec fn value_views(items: Seq<Value>) -> Seq<ValueView>
    decreases items,
{
    Seq::new(
        items.len(),
        |i: int|
            if 0 <= i < items.len() {
                view_value(items[i])
            } else {
                ValueView::Number(0)
            },
    )
}

/// The view of an environment: its bindings, oldest first.
pub open spec fn env_view(e: Env) -> Seq<BindingView>
    decreases e,
{
    Seq::new(
        e.bindings@.len(),
        |i: int|
            if 0 <= i < e.bindings@.len() {
                view_binding(e.bindings@[i])
            } else {
                BindingView { name: Seq::empty(), value: ValueView::Number(0) }
            },
    )
}

/// The view of one binding.
pub open spec fn view_binding(b: Binding) -> BindingView
    decreases b,
{
    BindingView { name: b.name@, value: view_value(b.value) }
}

/// The views of a sequence of parameter names.
pub open spec fn name_views(names: Seq<String>) -> Seq<Seq<char>> {
    Seq::new(names.len(), |i: int| names[i]@)
}

impl View for Value {
    type V = ValueView;

    open spec fn view(&self) -> ValueView {
        view_value(*self)
    }
}

impl DeepView for Value {
    type V = ValueView;

    open spec fn deep_view(&self) -> ValueView {
        view_value(*self)
    }
}

impl View for Binding {
    type V = BindingView;

    open spec fn view(&self) -> BindingView {
        view_binding(*self)
    }
}

impl View for Env {
    type V = Seq<BindingView>;

    open spec fn view(&self) -> Seq<BindingView> {
        env_view(*self)
    }
}

impl Default for Env {
    /// A fresh environment binds nothing.
    fn default() -> (r: Env)
        ensures
            r@ == Seq::<BindingView>::empty(),
    {
        Env { bindings: Vec::new() }
    }
}

impl Env {
    /// A fresh environment binds nothing.
    pub fn new() -> (r: Env)
        ensures
            r@ == Seq::<BindingView>::empty(),
    {
        Env { bindings: Vec::new() }
    }

    /// Add one binding; it shadows any earlier binding of the same name.
    pub fn insert(&mut self, name: String, value: Value)
        ensures
            final(self)@ == old(self)@.push(BindingView { name: name@, value: value@ }),
    {
        self.bindings.push(Binding { name, value });
        proof {
            assert(env_view(*self) =~= env_view(*old(self)).push(
                BindingView { name: name@, value: view_value(value) },
            ));
        }
    }

    /// Move every binding of `other` to the back of this environment, in
    /// order, so that they shadow what was here already.
    pub fn append(&mut self, other: Env)
        ensures
            final(self)@ == old(self)@ + other@,
    {
        let mut o = other;
        self.bindings.append(&mut o.bindings);
        proof {
            assert(env_view(*self) =~= env_view(*old(self)) + env_view(other));
        }
    }
}

impl Clone for Atom {
    /// A clone means the same atom.
    fn clone(&self) -> (r: Self)
        ensures
            r@ == self@,
    {
        match self {
            Atom::Number(n) => Atom::Number(*n),
            Atom::Symbol(s) => Atom::Symbol(s.clone()),
        }
    }
}

impl Clone for Sexp {
    /// A clone means the same expression.
    #[verifier::loop_isolation(false)]
    fn clone(&self) -> (r: Self)
        ensures
            r@ == self@,
        decreases *self,
    {
        match self {
            Sexp::Atom(a) => Sexp::Atom(a.clone()),
            Sexp::List(items) => {
                let mut c: Vec<Sexp> = Vec::new();
                let mut i: usize = 0;
                while i < items.len()
                    invariant
                        i <= items.len(),
                        c@.len() == i as int,
                        forall|j: int| 0 <= j < i ==> view_sexp(c@[j]) == view_sexp(items@[j]),
                    decreases items@.len() - i,
                {
                    c.push(items[i].clone());
                    i = i + 1;
                }
                proof {
                    assert(sexp_views(c@) =~= sexp_views(items@));
                }
                Sexp::List(c)
            },
        }
    }
}

impl Clone for Value {
    /// A clone means the same value.
    #[verifier::loop_isolation(false)]
    fn clone(&self) -> (r: Self)
        ensures
            r@ == self@,
        decreases *self,
    {
        match self {
            Value::Number(n) => Value::Number(*n),
            Value::Symbol(s) => Value::Symbol(s.clone()),
            Value::List(items) => {
                let mut c: Vec<Value> = Vec::new();
                let mut i: usize = 0;
                while i < items.len()
                    invariant
                        i <= items.len(),
                        c@.len() == i as int,
                        forall|j: int| 0 <= j < i ==> view_value(c@[j]) == view_value(items@[j]),
                    decreases items@.len() - i,
                {
                    c.push(items[i].clone());
                    i = i + 1;
                }
                proof {
                    assert(value_views(c@) =~= value_views(items@));
                }
                Value::List(c)
            },
            Value::Lambda(params, captured, body) => {
                let mut ps: Vec<String> = Vec::new();
                let mut i: usize = 0;
                while i < params.len()
                    invariant
                        i <= params.len(),
                        ps@.len() == i as int,
                        forall|j: int| 0 <= j < i ==> ps@[j]@ == params@[j]@,
                    decreases params@.len() - i,
                {
                    ps.push(params[i].clone());
                    i = i + 1;
                }
                proof {
                    assert(name_views(ps@) =~= name_views(params@));
                }
                Value::Lambda(ps, captured.clone(), body.clone())
            },
        }
    }
}

impl Clone for Binding {
    /// A clone means the same binding.
    fn clone(&self) -> (r: Self)
        ensures
            r@ == self@,
        decreases *self,
    {
        Binding { name: self.name.clone(), value: self.value.clone() }
    }
}

impl Clone for Env {
    /// A clone means the same environment.
    #[verifier::loop_isolation(false)]
    fn clone(&self) -> (r: Self)
        ensures
            r@ == self@,
        decreases *self,
    {
        let mut c: Vec<Binding> = Vec::new();
        let mut i: usize = 0;
        while i < self.bindings.len()
            invariant
                i <= self.bindings.len(),
                c@.len() == i as int,
                forall|j: int| 0 <= j < i ==> view_binding(c@[j]) == view_binding(self.bindings@[j]),
            decreases self.bindings@.len() - i,
        {
            c.push(self.bindings[i].clone());
            i = i + 1;
        }
        proof {
            assert(env_view(Env { bindings: c }) =~= env_view(*self));
        }
        Env { bindings: c }
    }
}

} // verus!
