use minilisp::ast::Env;
use minilisp::ast::Sexp;
use minilisp::ast::Value;
use minilisp::lisp::value_eq;
use minilisp::parse::program;
use minilisp::parse::sexp;
use minilisp::run_lisp;
use minilisp::semantics::EVAL_FUEL;

// The sum of a run of number literals does not depend on their order.
#[test]
fn add_is_order_insensitive() {
    assert_eq!(run_lisp("(add 1 2 3)"), Some(Value::Number(6)));
    assert_eq!(run_lisp("(add 3 2 1)"), Some(Value::Number(6)));
    assert_eq!(run_lisp("(add 2 3 1)"), Some(Value::Number(6)));
}

// Grouping operands under a nested `add` changes nothing.
#[test]
fn add_is_associative() {
    assert_eq!(run_lisp("(add 1 (add 4 5) 2)"), Some(Value::Number(12)));
    assert_eq!(run_lisp("(add (add 1 4) 5 2)"), Some(Value::Number(12)));
    assert_eq!(run_lisp("(add 1 4 5 2)"), Some(Value::Number(12)));
}

#[test]
fn add_of_nothing_is_zero() {
    assert_eq!(run_lisp("(add)"), Some(Value::Number(0)));
}

// An operand that does not reduce to a number is dropped from the sum.
#[test]
fn add_drops_non_numbers() {
    assert_eq!(run_lisp("(add 1 (list) 2)"), Some(Value::Number(3)));
    assert_eq!(run_lisp("(add 1 zzz 2)"), Some(Value::Number(3)));
}

// A sum that leaves the machine integers fails the whole form.
#[test]
fn add_overflow_fails() {
    assert_eq!(run_lisp("(add 9223372036854775807 1)"), None);
    assert_eq!(
        run_lisp("(add 9223372036854775807 1 -2)"),
        Some(Value::Number(9223372036854775806))
    );
}

#[test]
fn number_literals_at_the_edge() {
    assert_eq!(
        run_lisp("9223372036854775807"),
        Some(Value::Number(i64::MAX))
    );
    assert_eq!(
        run_lisp("-9223372036854775808"),
        Some(Value::Number(i64::MIN))
    );
    assert_eq!(run_lisp("9223372036854775808"), None);
    assert_eq!(run_lisp("-9223372036854775809"), None);
    assert_eq!(run_lisp("99999999999999999999999999"), None);
    assert_eq!(run_lisp("+5"), Some(Value::Number(5)));
}

// A number must not absorb a following letter: `12ab` is no token pair.
#[test]
fn adjacent_tokens_must_be_separated() {
    assert_eq!(run_lisp("12ab"), None);
    assert_eq!(run_lisp("(add 12ab 3)"), None);
}

#[test]
fn parse_failures_yield_nothing() {
    assert_eq!(run_lisp("(add 1"), None);
    assert_eq!(run_lisp("(add 1 2))"), None);
    assert_eq!(run_lisp(")"), None);
    assert_eq!(run_lisp("-"), None);
    assert_eq!(run_lisp(""), None);
    assert_eq!(run_lisp("   "), None);
}

#[test]
fn whitespace_is_insignificant() {
    assert_eq!(run_lisp("  ( add \t 1 \n 2 )  "), Some(Value::Number(3)));
    assert_eq!(run_lisp("(add 1(add 2 3))"), Some(Value::Number(6)));
}

#[test]
fn empty_program_parses_to_no_forms() {
    let (_, v) = program("   ").unwrap();
    assert_eq!(v, Vec::<Sexp>::new());
}

// The empty application has no meaning.
#[test]
fn empty_application_fails() {
    assert_eq!(run_lisp("()"), None);
}

// An unbound symbol fails.
#[test]
fn unbound_symbol_fails() {
    assert_eq!(run_lisp("x"), None);
}

// Applying anything but a lambda fails, and arity is strict.
#[test]
fn application_is_strict() {
    assert_eq!(run_lisp("(define a 3) (a 1)"), None);
    assert_eq!(run_lisp("((lambda (a b) a) 1)"), None);
    assert_eq!(run_lisp("((lambda (a) a) 1 2)"), None);
    assert_eq!(run_lisp("((lambda (a) a) 1)"), Some(Value::Number(1)));
}

// `car` of an empty list fails; `cdr` of an empty list is the empty list.
#[test]
fn car_cdr_of_empty() {
    assert_eq!(run_lisp("(car (list))"), None);
    assert_eq!(run_lisp("(cdr (list))"), Some(Value::List(vec![])));
    assert_eq!(run_lisp("(car 3)"), None);
    assert_eq!(run_lisp("(cdr 3)"), None);
}

#[test]
fn empty_of_non_list_is_zero() {
    assert_eq!(run_lisp("(empty 3)"), Some(Value::Number(0)));
    assert_eq!(run_lisp("(empty (list))"), Some(Value::Number(1)));
}

// A failing operand fails `empty` like any other form; so does a missing
// one.
#[test]
fn empty_propagates_failure() {
    assert_eq!(run_lisp("(empty zzz)"), None);
    assert_eq!(run_lisp("(empty)"), None);
    assert_eq!(run_lisp("(empty (car (list)))"), None);
}

// A clause that is not a two-element list fails the whole form; with no
// clause at all the form falls through to zero.
#[test]
fn cond_rejects_malformed_clauses() {
    assert_eq!(run_lisp("(cond (0) (1 5))"), None);
    assert_eq!(run_lisp("(cond (0 1) 7)"), None);
    assert_eq!(run_lisp("(cond)"), Some(Value::Number(0)));
}

// Anything but the number zero counts as true.
#[test]
fn cond_truthiness() {
    assert_eq!(run_lisp("(cond ((list 1) 7))"), Some(Value::Number(7)));
    assert_eq!(run_lisp("(cond ((quote a) 7))"), Some(Value::Number(7)));
}

// Two lambdas are never equal, not even the same one twice.
#[test]
fn lambdas_compare_unequal() {
    assert_eq!(
        run_lisp("(equal (lambda (x) x) (lambda (x) x))"),
        Some(Value::Number(0))
    );
    assert_eq!(
        run_lisp("(define f (lambda (x) x)) (equal f f)"),
        Some(Value::Number(0))
    );
    assert_eq!(
        run_lisp("(define f (lambda (x) x)) (equal f)"),
        Some(Value::Number(1))
    );
}

// Quoted data equal the corresponding list-built data.
#[test]
fn quote_agrees_with_list() {
    assert_eq!(
        run_lisp("(equal (quote (1 2)) (list 1 2))"),
        Some(Value::Number(1))
    );
    assert_eq!(run_lisp("(equal (quote a) (quote a))"), Some(Value::Number(1)));
    assert_eq!(run_lisp("(equal (quote a) (quote b))"), Some(Value::Number(0)));
    assert_eq!(
        run_lisp("(equal (quote (a (b 1))) (list (quote a) (list (quote b) 1)))"),
        Some(Value::Number(1))
    );
}

// A closure sees the environment as it was when the lambda was made.
#[test]
fn capture_is_by_value() {
    let text = "(define a 1) (define f (lambda (x) (add x a))) (define a 100) (f 1)";
    assert_eq!(run_lisp(text), Some(Value::Number(2)));
}

// `define` hands the bound value back.
#[test]
fn define_returns_the_value() {
    assert_eq!(run_lisp("(define a 3)"), Some(Value::Number(3)));
    assert_eq!(run_lisp("(define a)"), None);
    assert_eq!(run_lisp("(define 3 4)"), None);
}

// A failing form in the middle does not stop the run.
#[test]
fn intermediate_failures_are_discarded() {
    assert_eq!(run_lisp("zzz (add 1 2)"), Some(Value::Number(3)));
    assert_eq!(run_lisp("(add 1 2) zzz"), None);
}

#[test]
fn type_predicates_on_lambdas() {
    assert_eq!(
        run_lisp("(islist (lambda (x) x))"),
        Some(Value::Number(0))
    );
    assert_eq!(
        run_lisp("(isnumber (lambda (x) x))"),
        Some(Value::Number(0))
    );
    assert_eq!(
        run_lisp("(issymbol (lambda (x) x))"),
        Some(Value::Number(0))
    );
}

#[test]
fn name_of_car_reads_the_head_symbol() {
    let (_, e) = sexp("(foo 1 2)").unwrap();
    assert_eq!(e.name_of_car(), Some("foo"));
    let (_, n) = sexp("42").unwrap();
    assert_eq!(n.name_of_car(), None);
    let (_, l) = sexp("((foo) 1)").unwrap();
    assert_eq!(l.name_of_car(), None);
}

#[test]
fn value_eq_is_structural() {
    assert!(value_eq(&Value::Number(4), &Value::Number(4)));
    assert!(!value_eq(&Value::Number(4), &Value::Number(5)));
    assert!(value_eq(
        &Value::List(vec![Value::Number(1), Value::Symbol("a".to_owned())]),
        &Value::List(vec![Value::Number(1), Value::Symbol("a".to_owned())]),
    ));
    assert!(!value_eq(
        &Value::List(vec![Value::Number(1)]),
        &Value::Number(1),
    ));
    let f = Value::Lambda(
        vec!["x".to_owned()],
        Env::new(),
        Sexp::Atom(minilisp::ast::Atom::Symbol("x".to_owned())),
    );
    assert!(!value_eq(&f, &f));
}

#[test]
fn environment_lookup_takes_the_newest_binding() {
    let mut env = Env::new();
    env.insert("a".to_owned(), Value::Number(1));
    env.insert("a".to_owned(), Value::Number(2));
    let (_, e) = sexp("a").unwrap();
    assert_eq!(e.eval(&mut env, EVAL_FUEL), Some(Value::Number(2)));
}

// Exhausting the depth budget fails the evaluation instead of the stack.
#[test]
fn runaway_recursion_fails() {
    let text = "(define loopy (lambda (x) (loopy x))) (loopy 1)";
    assert_eq!(run_lisp(text), None);
}
