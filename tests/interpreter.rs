use glisp::env::{default_env, Environment};
use glisp::eval::{eval, eval_bounded, parse_eval};
use glisp::expr::{Expression, GError, Primitive};

fn run(env: &mut Environment, text: &str) -> Result<Expression, GError> {
    parse_eval(text.to_string(), env)
}

fn value(text: &str) -> Expression {
    let mut env = default_env();
    match run(&mut env, text) {
        Ok(v) => v,
        Err(GError::Reason(m)) => panic!("{} failed: {}", text, m),
    }
}

fn failure(text: &str) -> String {
    let mut env = default_env();
    match run(&mut env, text) {
        Ok(v) => panic!("{} gave {}", text, v.to_string()),
        Err(GError::Reason(m)) => m,
    }
}

fn sym(s: &str) -> Expression {
    Expression::Symbol(s.to_string())
}

#[test]
fn sum_of_three() {
    assert_eq!(value("(+ 1 2 3)"), Expression::Number(6));
}

#[test]
fn difference_takes_rest_from_first() {
    assert_eq!(value("(- 10 1 2)"), Expression::Number(7));
}

#[test]
fn empty_sum_is_zero() {
    assert_eq!(value("(+ )"), Expression::Number(0));
}

#[test]
fn minus_needs_an_argument() {
    assert_eq!(failure("(-)"), "expected at least one number");
}

#[test]
fn sum_out_of_range_fails() {
    assert_eq!(failure("(+ 9223372036854775807 1)"), "number out of range");
}

#[test]
fn negative_numbers_add() {
    assert_eq!(value("(+ -5 2)"), Expression::Number(-3));
}

#[test]
fn less_than_increasing() {
    assert_eq!(value("(< 1 2 3)"), Expression::Bool(true));
}

#[test]
fn less_than_not_increasing() {
    assert_eq!(value("(< 1 3 2)"), Expression::Bool(false));
}

#[test]
fn single_comparison_is_true() {
    assert_eq!(value("(< 5)"), Expression::Bool(true));
}

#[test]
fn comparison_needs_an_argument() {
    assert_eq!(failure("(<)"), "expected at least one number");
}

#[test]
fn other_comparisons() {
    assert_eq!(value("(> 3 2 1)"), Expression::Bool(true));
    assert_eq!(value("(>= 3 3 1)"), Expression::Bool(true));
    assert_eq!(value("(<= 1 1 0)"), Expression::Bool(false));
    assert_eq!(value("(= 2 2)"), Expression::Bool(true));
    assert_eq!(value("(= 2 3)"), Expression::Bool(false));
}

#[test]
fn equality_needs_two() {
    assert_eq!(failure("(= 1 2 3)"), "expected two number");
}

#[test]
fn def_then_lookup() {
    let mut env = default_env();
    assert_eq!(run(&mut env, "(def x 5)"), Ok(sym("x")));
    assert_eq!(run(&mut env, "x"), Ok(Expression::Number(5)));
}

#[test]
fn set_rebinds() {
    let mut env = default_env();
    assert!(run(&mut env, "(def x 5)").is_ok());
    assert!(run(&mut env, "(set x 6)").is_ok());
    assert_eq!(run(&mut env, "x"), Ok(Expression::Number(6)));
}

#[test]
fn parameter_shadows_outer_binding() {
    let mut env = default_env();
    assert!(run(&mut env, "(def x 1)").is_ok());
    assert_eq!(run(&mut env, "((lambda (x) x) 7)"), Ok(Expression::Number(7)));
    assert_eq!(run(&mut env, "x"), Ok(Expression::Number(1)));
}

#[test]
fn def_inside_call_stays_inside() {
    let mut env = default_env();
    assert!(run(&mut env, "(def f (lambda (a) (def inner a)))").is_ok());
    assert_eq!(run(&mut env, "(f 3)"), Ok(sym("inner")));
    assert_eq!(run(&mut env, "inner"), Err(GError::Reason("unexpected symbol k=inner".to_string())));
}

#[test]
fn named_lambda_call() {
    let mut env = default_env();
    assert!(run(&mut env, "(def add2 (lambda (a b) (+ a b)))").is_ok());
    assert_eq!(run(&mut env, "(add2 2 3)"), Ok(Expression::Number(5)));
}

#[test]
fn if_does_not_evaluate_other_branch() {
    assert_eq!(value("(if false (bogus-call) 42)"), Expression::Number(42));
    assert_eq!(value("(if true 1 (bogus-call))"), Expression::Number(1));
}

#[test]
fn if_needs_boolean_test() {
    assert_eq!(failure("(if 1 2 3)"), "unexpected test form='1'");
}

#[test]
fn if_needs_three_forms() {
    assert_eq!(failure("(if true 1)"), "if: wrong number of forms");
    assert_eq!(failure("(if)"), "if: wrong number of forms");
}

#[test]
fn if_checks_test_before_count() {
    assert_eq!(failure("(if 1 2)"), "unexpected test form='1'");
    assert_eq!(failure("(if 1)"), "unexpected test form='1'");
}

#[test]
fn car_of_quoted_elements() {
    assert_eq!(value("(car (quote 1 2 3))"), Expression::Number(1));
}

#[test]
fn car_of_quoted_list() {
    assert_eq!(value("(car (quote (1 2 3)))"), Expression::Number(1));
}

#[test]
fn cdr_of_quoted_list() {
    let r = value("(cdr (quote (1 2 3)))");
    assert_eq!(r, Expression::List(vec![sym("quote"), Expression::Number(2), Expression::Number(3)]));
    assert_eq!(r.to_string(), "[\"quote\", \"2\", \"3\"]");
}

#[test]
fn car_of_single_quoted_atom() {
    assert_eq!(value("(car (quote a))"), sym("a"));
    assert_eq!(failure("(car (quote ()))"), "car can only result a static list");
}

#[test]
fn cons_of_quoted_lists() {
    assert_eq!(
        value("(cons (quote (1 2)) (quote (3)))"),
        Expression::List(vec![Expression::Number(1), Expression::Number(2), Expression::Number(3)])
    );
}

#[test]
fn cdr_of_quoted_elements() {
    let r = value("(cdr (quote 1 2 3))");
    assert_eq!(r, Expression::List(vec![sym("quote"), Expression::Number(2), Expression::Number(3)]));
    assert_eq!(r.to_string(), "[\"quote\", \"2\", \"3\"]");
}

#[test]
fn cdr_needs_two_quoted_elements() {
    assert_eq!(failure("(cdr (quote 1 2))"), "cdr: the len of list must >= 4");
}

#[test]
fn car_needs_quoted_list() {
    assert_eq!(failure("(car (1 2))"), "car can only result a static list");
}

#[test]
fn cons_joins_quoted_lists() {
    assert_eq!(
        value("(cons (quote 1 2) (quote 3))"),
        Expression::List(vec![Expression::Number(1), Expression::Number(2), Expression::Number(3)])
    );
}

#[test]
fn cons_needs_quoted_lists() {
    assert_eq!(failure("(cons (quote 1) 2)"), "cons can only result a static list");
    assert_eq!(failure("(cons () (quote 1))"), "cons can only result a static list");
}

#[test]
fn quote_keeps_forms() {
    assert_eq!(value("(quote a (b))"), Expression::List(vec![sym("quote"), sym("a"), Expression::List(vec![sym("b")])]));
}

#[test]
fn quote_needs_a_form() {
    assert_eq!(failure("(quote)"), "quote: wrong number of forms");
}

#[test]
fn add_rejects_string() {
    let m = failure("(+ 1 \"a\")");
    assert_eq!(m, "expect a number");
    assert!(m.contains("number"));
}

#[test]
fn unbound_symbol_is_named() {
    let m = failure("nothere");
    assert!(m.contains("nothere"));
}

#[test]
fn unclosed_list_fails_to_read() {
    let mut env = default_env();
    assert_eq!(
        run(&mut env, "(def y (+ 1 2)"),
        Err(GError::Reason("could not find closing `)`".to_string()))
    );
    assert!(run(&mut env, "y").is_err());
}

#[test]
fn unclosed_nested_list_fails_to_read() {
    assert_eq!(failure("(+ 1 (2)"), "could not find closing `)`");
}

#[test]
fn stray_close_fails_to_read() {
    assert_eq!(failure(")"), "unexpected `)`");
}

#[test]
fn empty_text_fails_to_read() {
    assert_eq!(failure("   "), "could not get token");
}

#[test]
fn lambda_too_few_arguments() {
    assert_eq!(failure("((lambda (a b) a) 1)"), "expected 2 params, got 1");
}

#[test]
fn lambda_too_many_arguments() {
    assert_eq!(failure("((lambda (a b) a) 1 2 3)"), "expected 2 params, got 3");
}

#[test]
fn lambda_params_must_be_symbols() {
    assert_eq!(failure("((lambda (1) 1) 1)"), "expected symbol in the argument list");
    assert_eq!(failure("((lambda a 1) 1)"), "expected params to be a list");
}

#[test]
fn non_function_head_fails() {
    assert_eq!(failure("(1 2)"), "first form must be a function");
}

#[test]
fn empty_list_fails() {
    assert_eq!(failure("()"), "expected a non-empty list");
}

#[test]
fn atom_of_values() {
    assert_eq!(value("(atom 1)"), Expression::Bool(true));
    assert_eq!(value("(atom (quote 1 2))"), Expression::Bool(false));
    assert_eq!(value("(atom (lambda (a) a))"), Expression::Bool(true));
}

#[test]
fn eq_by_text() {
    assert_eq!(value("(eq 1 1)"), Expression::Bool(true));
    assert_eq!(value("(eq 1 \"1\")"), Expression::Bool(false));
    assert_eq!(value("(eq (quote 1 2) (quote 1 2))"), Expression::Bool(true));
}

#[test]
fn cond_picks_first_true() {
    assert_eq!(value("(cond false 1 true 2 true 3)"), Expression::Number(2));
}

#[test]
fn cond_without_match_fails() {
    assert_eq!(failure("(cond false 1)"), "cond: no test matched");
    assert_eq!(failure("(cond true)"), "cond: wrong number of forms");
}

#[test]
fn do_gives_last() {
    let mut env = default_env();
    assert_eq!(run(&mut env, "(do (def a 1) (+ a 1))"), Ok(Expression::Number(2)));
    assert_eq!(run(&mut env, "a"), Ok(Expression::Number(1)));
}

#[test]
fn loop_until_return() {
    let mut env = default_env();
    assert!(run(&mut env, "(def i 0)").is_ok());
    let r = run(
        &mut env,
        "(loop (set i (+ i 1)) (if (< i 5) 0 (car (quote return))))",
    );
    assert_eq!(r, Ok(Expression::Bool(true)));
    assert_eq!(run(&mut env, "i"), Ok(Expression::Number(5)));
}

#[test]
fn loop_continue_restarts_round() {
    let mut env = default_env();
    assert!(run(&mut env, "(def i 0)").is_ok());
    assert!(run(&mut env, "(def hits 0)").is_ok());
    let r = run(
        &mut env,
        "(loop (set i (+ i 1)) (if (< i 3) (car (quote continue)) 0) (set hits (+ hits 1)) (car (quote return)))",
    );
    assert_eq!(r, Ok(Expression::Bool(true)));
    assert_eq!(run(&mut env, "i"), Ok(Expression::Number(3)));
    assert_eq!(run(&mut env, "hits"), Ok(Expression::Number(1)));
}

#[test]
fn loop_needs_two_forms() {
    assert_eq!(failure("(loop 1)"), "loop: wrong number of forms");
}

#[test]
fn loop_stops_at_bound() {
    let mut env = default_env();
    let forms = glisp::reader::tokenize("(loop 1 2)".to_string());
    let (e, _) = match glisp::reader::parse(&forms, 0) {
        Ok(p) => p,
        Err(_) => panic!("did not read"),
    };
    assert_eq!(
        eval_bounded(&e, &mut env, 50),
        Err(GError::Reason("evaluation limit reached".to_string()))
    );
}

#[test]
fn or_and_and() {
    assert_eq!(value("(or false true)"), Expression::Bool(true));
    assert_eq!(value("(and true false)"), Expression::Bool(false));
    assert_eq!(value("(and false (bogus))"), Expression::Bool(false));
    assert_eq!(value("(or true (bogus))"), Expression::Bool(true));
    assert_eq!(value("(or false false)"), Expression::Bool(false));
    assert_eq!(value("(and true true)"), Expression::Bool(true));
    assert_eq!(failure("(or 1 true)"), "or: expected a boolean");
    assert_eq!(failure("(and true)"), "and: wrong number of forms");
}

#[test]
fn def_needs_symbol() {
    assert_eq!(failure("(def 1 2)"), "unexpected var name");
}

#[test]
fn eval_of_built_value() {
    let mut env = default_env();
    let e = Expression::List(vec![sym("+"), Expression::Number(2), Expression::Number(2)]);
    assert_eq!(eval(&e, &mut env), Ok(Expression::Number(4)));
    assert_eq!(eval(&Expression::Func(Primitive::Add), &mut env), Err(GError::Reason("unexpected form".to_string())));
}

#[test]
fn deep_recursion_stops_at_bound() {
    let mut env = default_env();
    assert!(run(&mut env, "(def f (lambda (n) (f n)))").is_ok());
    let e = Expression::List(vec![sym("f"), Expression::Number(1)]);
    assert_eq!(
        eval_bounded(&e, &mut env, 40),
        Err(GError::Reason("evaluation limit reached".to_string()))
    );
}

#[test]
fn nested_error_aborts_whole_expression() {
    let mut env = default_env();
    assert_eq!(
        run(&mut env, "(do (def z 1) (+ 1 (bogus)) (def w 2))"),
        Err(GError::Reason("unexpected symbol k=bogus".to_string()))
    );
    assert_eq!(run(&mut env, "z"), Ok(Expression::Number(1)));
    assert!(run(&mut env, "w").is_err());
}
