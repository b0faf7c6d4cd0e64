//! A minimal Lisp: a reader that turns parenthesized text into syntax
//! trees, and a tree-walking evaluator with lexically scoped,
//! closure-capturing, call-by-value semantics.
//!
//! The one consumer-facing entry point is [`run_lisp`], which reads a whole
//! program, reduces each top-level form left to right against a single
//! evolving environment, and returns the last form's result.  Its contract
//! is exact: the returned value is [`run_s`] of the input text.

use vstd::prelude::*;

pub mod ast;
pub mod laws;
pub mod lisp;
pub mod parse;
pub mod semantics;

use crate::ast::Env;
use crate::ast::Value;
use crate::ast::ValueView;
use crate::ast::sexp_views;
use crate::ast::view_sexp;
use crate::semantics::EVAL_FUEL;
use crate::semantics::run_forms_s;

verus! {

/// What running a program over the given text yields: nothing for text
/// that is not a well-formed program, otherwise the last top-level form's
/// result under the starting depth budget.
pub open spec fn run_s(text: Seq<char>) -> Option<ValueView> {
    match parse::parse_program_s(text) {
        Some(forms) => run_forms_s(forms, Seq::empty(), EVAL_FUEL as nat).0,
        None => None,
    }
}

/// Read a whole program and run it: each top-level form is reduced against
/// the same environment, which only `define` extends, and the last form's
/// result is handed back.
#[verifier::loop_isolation(false)]
pub fn run_lisp(repr: &str) -> (r: Option<Value>)
    ensures
        r.deep_view() == run_s(repr@),
{
    match parse::program(repr) {
        Some((_, forms)) => {
            let ghost views = sexp_views(forms@);
            let mut env = Env::new();
            if forms.len() == 0 {
                return None;
            }
            let mut i: usize = 0;
            proof {
                assert(views.skip(0) =~= views);
            }
            while i < forms.len()
                invariant
                    0 <= i < forms@.len(),
                    run_forms_s(views, Seq::empty(), EVAL_FUEL as nat) == run_forms_s(
                        views.skip(i as int),
                        env@,
                        EVAL_FUEL as nat,
                    ),
                decreases forms@.len() - i,
            {
                proof {
                    assert(views.skip(i as int)[0] == view_sexp(forms@[i as int]));
                    assert(views.skip(i as int).drop_first() =~= views.skip(i + 1));
                }
                let v = forms[i].eval(&mut env, EVAL_FUEL);
                if i + 1 == forms.len() {
                    return v;
                }
                i = i + 1;
            }
            proof {
                assert(false);
            }
            None
        },
        None => None,
    }
}

} // verus!
