use minilisp::eval::{eval, evaluate, Error, RuntimeError};
use minilisp::parser::Expr;
use minilisp::scope::{Scope, GLOBAL};
use minilisp::special_forms::{func_call, lambda};
use minilisp::tokenizer::Token;
use minilisp::value::{Procedure, Value};
use std::rc::Rc;

const FUEL: usize = 10_000;

fn run(src: &str) -> Result<Value, Error> {
    let mut scope = Scope::global();
    eval(src, &mut scope, FUEL)
}

fn ints(value: Value) -> Vec<i64> {
    match value {
        Value::List(items) => items
            .iter()
            .map(|item| match item {
                Value::Int(i) => *i,
                other => panic!("integer expected, got {:?}", other),
            })
            .collect(),
        other => panic!("list expected, got {:?}", other),
    }
}

#[test]
fn literals_do_not_depend_on_the_scope() {
    let mut global = Scope::global();
    let mut empty = Scope::new();
    let inner = empty.nest(GLOBAL);
    empty.define(inner, "x", Value::Int(9));

    let int = Expr::token(Token::Int(7));
    assert!(matches!(evaluate(&int, &mut global, GLOBAL, 0), Ok(Value::Int(7))));
    assert!(matches!(evaluate(&int, &mut empty, inner, 5), Ok(Value::Int(7))));

    let float = Expr::token(Token::Float(2.5f64.to_bits()));
    match evaluate(&float, &mut empty, inner, 0) {
        Ok(Value::Float(bits)) => assert_eq!(f64::from_bits(bits), 2.5),
        other => panic!("{:?}", other),
    }

    let text = Expr::token(Token::StringLiteral(Rc::new("hi".to_string())));
    match evaluate(&text, &mut global, GLOBAL, 0) {
        Ok(Value::String(s)) => assert_eq!(s.as_str(), "hi"),
        other => panic!("{:?}", other),
    }

    let truth = Expr::token(Token::Bool(true));
    assert!(matches!(evaluate(&truth, &mut empty, GLOBAL, 0), Ok(Value::Bool(true))));
    assert_eq!(empty.variables(GLOBAL).len(), 0);
}

#[test]
fn literal_values_from_source() {
    assert!(matches!(run("42"), Ok(Value::Int(42))));
    assert!(matches!(run("-42"), Ok(Value::Int(-42))));
    assert!(matches!(run("#t"), Ok(Value::Bool(true))));
    assert!(matches!(run("#f"), Ok(Value::Bool(false))));
    match run("\"a\\nb\"") {
        Ok(Value::String(s)) => assert_eq!(s.as_str(), "a\nb"),
        other => panic!("{:?}", other),
    }
    match run("0.1") {
        Ok(Value::Float(bits)) => assert_eq!(bits, 0.1f64.to_bits()),
        other => panic!("{:?}", other),
    }
}

#[test]
fn if_takes_only_one_branch() {
    let mut scope = Scope::global();
    let ans = eval("(if #t (display 1) (display 2))", &mut scope, FUEL);
    assert!(matches!(ans, Ok(Value::Nil)));
    let shown = scope.take_output();
    assert_eq!(shown.len(), 1);
    assert!(matches!(shown[0], Value::Int(1)));
}

#[test]
fn if_false_branch_gives_the_list() {
    let ans = run("(if (= 0 (+ 1 1)) 42.0 (list 1 2 3))").unwrap();
    assert_eq!(ints(ans), vec![1, 2, 3]);
}

#[test]
fn truthiness() {
    assert!(matches!(run("(if 0 1 2)"), Ok(Value::Int(1))));
    assert!(matches!(run("(if \"\" 1 2)"), Ok(Value::Int(1))));
    assert!(matches!(run("(if (list) 1 2)"), Ok(Value::Int(1))));
    assert!(matches!(run("(if #f 1 2)"), Ok(Value::Int(2))));
    assert!(matches!(run("(if (display 0) 1 2)"), Ok(Value::Int(2))));
    assert!(Value::Int(0).truthy());
    assert!(!Value::Nil.truthy());
    assert!(!Value::Bool(false).truthy());
}

#[test]
fn closure_sees_later_assignment() {
    let ans = run("(begin (define x 1) (define f (lambda () x)) (set! x 2) (f))");
    assert!(matches!(ans, Ok(Value::Int(2))));
}

#[test]
fn closure_uses_defining_scope_not_calling_scope() {
    let src = "
        (begin
          (define x 1)
          (define (get) x)
          (define (shadow x) (get))
          (shadow 99))";
    assert!(matches!(run(src), Ok(Value::Int(1))));
}

#[test]
fn arity_mismatch_fails() {
    let too_few = run("((lambda (a b) (+ a b)) 1)");
    assert!(matches!(
        too_few,
        Err(Error::Runtime(RuntimeError::WrongNumberOfAgumentsPassed))
    ));
    let too_many = run("((lambda (a) a) 1 \"two\" (list))");
    assert!(matches!(
        too_many,
        Err(Error::Runtime(RuntimeError::WrongNumberOfAgumentsPassed))
    ));
    let none = run("((lambda () 1) 5)");
    assert!(matches!(
        none,
        Err(Error::Runtime(RuntimeError::WrongNumberOfAgumentsPassed))
    ));
}

#[test]
fn arity_mismatch_needs_no_fuel() {
    let mut scope = Scope::global();
    let procedure = Procedure::new(vec!["a".to_string()], vec![Expr::symbol("a")], GLOBAL);
    let before = scope.variables(GLOBAL).len();
    let ans = procedure.call(vec![], &mut scope, 0);
    assert!(matches!(ans, Err(RuntimeError::WrongNumberOfAgumentsPassed)));
    assert_eq!(scope.variables(GLOBAL).len(), before);
    assert!(!scope.has_frame(1));
}

#[test]
fn two_generators_have_states_of_their_own() {
    let src = "
        (begin
          (define a (make-generator 10 -3))
          (define b (make-generator 0 5))
          (list (a) (b) (a) (b) (a)))";
    assert_eq!(ints(run(src).unwrap()), vec![10, 0, 7, 5, 4]);
}

#[test]
fn do_loop_runs_three_rounds() {
    let mut scope = Scope::global();
    let ans = eval("(do ((i 0 (+ i 1))) ((>= i 3)) (display i))", &mut scope, FUEL);
    assert!(matches!(ans, Ok(Value::Nil)));
    let shown = scope.take_output();
    assert_eq!(ints(Value::List(shown)), vec![0, 1, 2]);
}

#[test]
fn do_loop_gives_last_result() {
    let src = "(do ((i 0 (+ i 1)) (acc 1 (* acc 2))) ((= i 5) i acc))";
    assert!(matches!(run(src), Ok(Value::Int(32))));
}

#[test]
fn do_loop_inits_see_the_enclosing_scope() {
    let src = "
        (begin
          (define i 10)
          (do ((i 0 (+ i 1)) (j i (+ j 1))) ((>= i 1) j)))";
    assert!(matches!(run(src), Ok(Value::Int(11))));
}

#[test]
fn do_loop_steps_run_one_after_another() {
    let src = "(do ((a 1 (+ a 1)) (b 0 a)) ((= a 3) b))";
    assert!(matches!(run(src), Ok(Value::Int(3))));
}

#[test]
fn do_loop_variables_stay_inside() {
    let src = "(begin (do ((k 0 (+ k 1))) ((= k 2))) k)";
    match run(src) {
        Err(Error::Runtime(RuntimeError::UnboundVariable(name))) => assert_eq!(name, "k"),
        other => panic!("{:?}", other),
    }
}

#[test]
fn do_loop_shapes() {
    for src in [
        "(do)",
        "(do ())",
        "(do ((i 0)) (#t))",
        "(do ((i 0 1)) ())",
        "(do i (#t))",
        "(do () #t)",
        "(do (i) (#t))",
    ] {
        assert!(
            matches!(run(src), Err(Error::Runtime(RuntimeError::IllFormedSpecialForm))),
            "{}",
            src
        );
    }
    assert!(matches!(
        run("(do ((1 0 0)) (#t))"),
        Err(Error::Runtime(RuntimeError::IdentifierExpected))
    ));
}

#[test]
fn endless_loop_runs_out_of_fuel() {
    let mut scope = Scope::global();
    let ans = eval("(do ((i 0 (+ i 1))) (#f) (display i))", &mut scope, 4);
    assert!(matches!(ans, Err(Error::Runtime(RuntimeError::OutOfFuel))));
    assert_eq!(ints(Value::List(scope.take_output())), vec![0, 1, 2, 3]);
}

#[test]
fn endless_recursion_runs_out_of_fuel() {
    let mut scope = Scope::global();
    let ans = eval("(begin (define (f n) (f (+ n 1))) (f 0))", &mut scope, 50);
    assert!(matches!(ans, Err(Error::Runtime(RuntimeError::OutOfFuel))));
}

#[test]
fn natives_take_no_fuel() {
    let mut scope = Scope::global();
    assert!(matches!(eval("(+ 1 (* 2 3))", &mut scope, 0), Ok(Value::Int(7))));
    assert!(matches!(
        eval("((lambda () 1))", &mut scope, 0),
        Err(Error::Runtime(RuntimeError::OutOfFuel))
    ));
    assert!(matches!(eval("((lambda () 1))", &mut scope, 1), Ok(Value::Int(1))));
}

#[test]
fn more_fuel_gives_the_same_answer() {
    let src = "(begin (define (fact n) (if (<= n 1) 1 (* n (fact (- n 1))))) (fact 6))";
    for fuel in [6, 7, 100, 100_000] {
        let mut scope = Scope::global();
        assert!(matches!(eval(src, &mut scope, fuel), Ok(Value::Int(720))), "{}", fuel);
    }
    let mut scope = Scope::global();
    assert!(matches!(
        eval(src, &mut scope, 5),
        Err(Error::Runtime(RuntimeError::OutOfFuel))
    ));
}

#[test]
fn every_error_has_an_input() {
    let unbound = run("nothing");
    match unbound {
        Err(Error::Runtime(RuntimeError::UnboundVariable(name))) => assert_eq!(name, "nothing"),
        other => panic!("{:?}", other),
    }
    match run("(nothing 1 2)") {
        Err(Error::Runtime(RuntimeError::UnboundVariable(name))) => assert_eq!(name, "nothing"),
        other => panic!("{:?}", other),
    }
    assert!(matches!(
        run("(begin (define x 5) (x 1))"),
        Err(Error::Runtime(RuntimeError::NotProcedure))
    ));
    assert!(matches!(run("()"), Err(Error::Runtime(RuntimeError::IllFormedExpression))));
    assert!(matches!(run("if"), Err(Error::Runtime(RuntimeError::IllFormedExpression))));
    assert!(matches!(run("(if 1 2)"), Err(Error::Runtime(RuntimeError::IllFormedSpecialForm))));
    assert!(matches!(run("(if 1 2 3 4)"), Err(Error::Runtime(RuntimeError::IllFormedSpecialForm))));
    assert!(matches!(run("(begin)"), Err(Error::Runtime(RuntimeError::IllFormedSpecialForm))));
    assert!(matches!(run("(lambda (x))"), Err(Error::Runtime(RuntimeError::IllFormedSpecialForm))));
    assert!(matches!(run("(lambda x x)"), Err(Error::Runtime(RuntimeError::IllFormedSpecialForm))));
    assert!(matches!(run("(define)"), Err(Error::Runtime(RuntimeError::IllFormedSpecialForm))));
    assert!(matches!(run("(define x)"), Err(Error::Runtime(RuntimeError::IllFormedSpecialForm))));
    assert!(matches!(run("(define (f))"), Err(Error::Runtime(RuntimeError::IllFormedSpecialForm))));
    assert!(matches!(run("(set!)"), Err(Error::Runtime(RuntimeError::IllFormedSpecialForm))));
    assert!(matches!(
        run("(lambda (x 1) x)"),
        Err(Error::Runtime(RuntimeError::ParameterMustBeIdentifier))
    ));
    assert!(matches!(
        run("(define (f 1) 1)"),
        Err(Error::Runtime(RuntimeError::ParameterMustBeIdentifier))
    ));
    for src in ["(1 2)", "(1.5)", "(\"f\" 1)", "(#t)"] {
        assert!(
            matches!(run(src), Err(Error::Runtime(RuntimeError::OperatorIsNotProcedure))),
            "{}",
            src
        );
    }
    assert!(matches!(
        run("(+ 1 \"a\")"),
        Err(Error::Runtime(RuntimeError::NumberExpected(Value::String(_))))
    ));
    assert!(matches!(
        run("(string-concatenate \"a\" 1)"),
        Err(Error::Runtime(RuntimeError::StringExpected(Value::Int(1))))
    ));
    assert!(matches!(
        run("(and #t 1)"),
        Err(Error::Runtime(RuntimeError::BooleanExpected(Value::Int(1))))
    ));
    assert!(matches!(
        run("(-)"),
        Err(Error::Runtime(RuntimeError::WrongNumberOfAgumentsPassed))
    ));
    assert!(matches!(run("(define 1 2)"), Err(Error::Runtime(RuntimeError::IdentifierExpected))));
    assert!(matches!(run("(set! 1 2)"), Err(Error::Runtime(RuntimeError::IdentifierExpected))));
    assert!(matches!(run("(define ())"), Err(Error::Runtime(RuntimeError::IdentifierExpected))));
    assert!(matches!(run("(/ 1 0)"), Err(Error::Runtime(RuntimeError::DivideByZero))));
    assert!(matches!(
        run("(apply + 1)"),
        Err(Error::Runtime(RuntimeError::ListExpected(Value::Int(1))))
    ));
    assert!(matches!(run("(read-file \"no such file\")"), Err(Error::Runtime(RuntimeError::IO))));
}

#[test]
fn set_of_unbound_name_fails_and_binds_nothing() {
    let mut scope = Scope::global();
    let before = scope.variables(GLOBAL).len();
    match eval("(set! fresh 1)", &mut scope, FUEL) {
        Err(Error::Runtime(RuntimeError::UnboundVariable(name))) => assert_eq!(name, "fresh"),
        other => panic!("{:?}", other),
    }
    assert!(scope.get(GLOBAL, "fresh").is_none());
    assert_eq!(scope.variables(GLOBAL).len(), before);
}

#[test]
fn set_inside_a_call_reaches_the_global_frame() {
    let mut scope = Scope::global();
    let ans = eval(
        "(begin (define total 0) (define (add n) (set! total (+ total n))) (add 4) (add 5))",
        &mut scope,
        FUEL,
    );
    assert!(matches!(ans, Ok(Value::Nil)));
    assert!(matches!(scope.get(GLOBAL, "total"), Some(Value::Int(9))));
}

#[test]
fn define_inside_a_call_stays_inside() {
    let mut scope = Scope::global();
    let ans = eval(
        "(begin (define x 1) (define (f) (begin (define x 2) x)) (list (f) x))",
        &mut scope,
        FUEL,
    );
    assert_eq!(ints(ans.unwrap()), vec![2, 1]);
}

#[test]
fn arguments_are_evaluated_left_to_right() {
    let mut scope = Scope::global();
    let ans = eval("(list (display 1) (display 2) (display 3))", &mut scope, FUEL);
    assert!(matches!(ans, Ok(Value::List(_))));
    assert_eq!(ints(Value::List(scope.take_output())), vec![1, 2, 3]);
}

#[test]
fn head_is_resolved_before_the_arguments() {
    let mut scope = Scope::global();
    let ans = eval("(nothing (display 1))", &mut scope, FUEL);
    assert!(matches!(ans, Err(Error::Runtime(RuntimeError::UnboundVariable(_)))));
    assert_eq!(scope.take_output().len(), 0);
}

#[test]
fn first_error_stops_the_evaluation() {
    let mut scope = Scope::global();
    let ans = eval("(begin (display 1) (/ 1 0) (display 2))", &mut scope, FUEL);
    assert!(matches!(ans, Err(Error::Runtime(RuntimeError::DivideByZero))));
    assert_eq!(ints(Value::List(scope.take_output())), vec![1]);
}

#[test]
fn lambda_captures_its_frame() {
    let mut scope = Scope::new();
    let inner = scope.nest(GLOBAL);
    let exprs = vec![Expr::list(vec![Expr::symbol("n")]), Expr::symbol("n")];
    let made = lambda(&exprs, inner).unwrap();
    match &made {
        Value::Procedure(p) => assert_eq!(p.arity(), 1),
        other => panic!("{:?}", other),
    }
    let ans = func_call(&made, vec![Value::Int(3)], &mut scope, 1);
    assert!(matches!(ans, Ok(Value::Int(3))));
    assert!(scope.has_frame(2));
    assert!(matches!(scope.get(2, "n"), Some(Value::Int(3))));
    assert_eq!(scope.variables(inner).len(), 0);
}

#[test]
fn applying_what_is_no_procedure_fails() {
    let mut scope = Scope::global();
    for value in [Value::Int(1), Value::Nil, Value::Bool(true), Value::List(vec![])] {
        let ans = func_call(&value, vec![], &mut scope, FUEL);
        assert!(matches!(ans, Err(RuntimeError::NotProcedure)));
    }
}

#[test]
fn lexing_and_parsing_errors_leave_the_scope() {
    let mut scope = Scope::global();
    let before = scope.variables(GLOBAL).len();
    assert!(matches!(eval("(define x @)", &mut scope, FUEL), Err(Error::Lexing(_))));
    assert!(matches!(eval("(define x 1", &mut scope, FUEL), Err(Error::Parsing(_))));
    assert!(matches!(eval(")", &mut scope, FUEL), Err(Error::Parsing(_))));
    assert!(matches!(eval("", &mut scope, FUEL), Err(Error::Parsing(_))));
    assert_eq!(scope.variables(GLOBAL).len(), before);
}

#[test]
fn higher_order_procedures() {
    let src = "
        (begin
          (define (compose f g) (lambda (x) (f (g x))))
          (define (double x) (* 2 x))
          (define (inc x) (+ x 1))
          (list ((compose double inc) 5) ((compose inc double) 5)))";
    assert_eq!(ints(run(src).unwrap()), vec![12, 11]);
}

#[test]
fn map_and_apply_with_procedures() {
    assert_eq!(
        ints(run("(map (lambda (x y) (* x y)) (list 1 2 3) (list 4 5 6))").unwrap()),
        vec![4, 10, 18]
    );
    assert!(matches!(
        run("(apply (lambda (a b c) (- a b c)) (list 10 3 2))"),
        Ok(Value::Int(5))
    ));
    assert!(matches!(run("(apply apply (list + (list 1 2 3)))"), Ok(Value::Int(6))));
    assert_eq!(
        ints(run("(map (lambda (l) (apply + l)) (list (list 1 2) (list 3 4 5)))").unwrap()),
        vec![3, 12]
    );
    assert!(matches!(
        run("(map (lambda (x) (/ 1 x)) (list 1 0 2))"),
        Err(Error::Runtime(RuntimeError::DivideByZero))
    ));
    assert!(matches!(
        run("(map (lambda (x) x) (list 1 2) (list 3 4))"),
        Err(Error::Runtime(RuntimeError::WrongNumberOfAgumentsPassed))
    ));
}

#[test]
fn recursion_with_two_branches() {
    let src = "
        (begin
          (define (fib n) (if (< n 2) n (+ (fib (- n 1)) (fib (- n 2)))))
          (map fib (list 0 1 2 3 4 5 6 7 8 9 10)))";
    assert_eq!(
        ints(run(src).unwrap()),
        vec![0, 1, 1, 2, 3, 5, 8, 13, 21, 34, 55]
    );
}

#[test]
fn counter_keeps_its_own_state() {
    let src = "
        (begin
          (define (make-counter)
            (begin
              (define n 0)
              (lambda () (begin (set! n (+ n 1)) n))))
          (define a (make-counter))
          (define b (make-counter))
          (list (a) (a) (b) (a) (b)))";
    assert_eq!(ints(run(src).unwrap()), vec![1, 2, 1, 3, 2]);
}

#[test]
fn parameters_shadow_outer_names() {
    let src = "
        (begin
          (define x 1)
          (define (f x) (begin (set! x (+ x 10)) x))
          (list (f 5) x))";
    assert_eq!(ints(run(src).unwrap()), vec![15, 1]);
}

#[test]
fn natives_can_be_rebound() {
    let src = "
        (begin
          (define plus +)
          (define (+ a b) (plus a b 100))
          (+ 1 2))";
    assert!(matches!(run(src), Ok(Value::Int(103))));
}

#[test]
fn nested_loops() {
    let src = "
        (begin
          (define total 0)
          (do ((i 0 (+ i 1))) ((= i 3))
            (do ((j 0 (+ j 1))) ((= j 4))
              (set! total (+ total 1))))
          total)";
    assert!(matches!(run(src), Ok(Value::Int(12))));
}

#[test]
fn loop_body_closures_share_the_loop_frame() {
    let src = "
        (begin
          (define get 0)
          (do ((i 0 (+ i 1))) ((= i 3))
            (if (= i 0) (set! get (lambda () i)) 0))
          (get))";
    assert!(matches!(run(src), Ok(Value::Int(3))));
}

#[test]
fn strings_through_programs() {
    let src = "(string-concatenate \"a\" (substring \"hello\" 1 3) \"z\")";
    match run(src) {
        Ok(Value::String(s)) => assert_eq!(s.as_str(), "aelz"),
        other => panic!("{:?}", other),
    }
    assert!(matches!(run("(string->int \"-17\")"), Ok(Value::Int(-17))));
    assert!(matches!(run("(= \"a\" \"a\" \"a\")"), Ok(Value::Bool(true))));
    assert!(matches!(run("(not (and #t (or #f #f)))"), Ok(Value::Bool(true))));
    assert!(matches!(run("(< 1 2 3)"), Ok(Value::Bool(true))));
    assert!(matches!(run("(>= 3 3 4)"), Ok(Value::Bool(false))));
    assert!(matches!(run("(> 3 2 1)"), Ok(Value::Bool(true))));
}

#[test]
fn a_scope_is_kept_between_runs() {
    let mut scope = Scope::global();
    assert!(matches!(eval("(define (sq x) (* x x))", &mut scope, FUEL), Ok(Value::Nil)));
    assert!(matches!(eval("(define y (sq 7))", &mut scope, FUEL), Ok(Value::Nil)));
    assert!(matches!(eval("(+ y 1)", &mut scope, FUEL), Ok(Value::Int(50))));
    assert!(matches!(eval("(oops)", &mut scope, FUEL), Err(_)));
    assert!(matches!(eval("y", &mut scope, FUEL), Ok(Value::Int(49))));
}

#[test]
fn every_call_makes_one_frame() {
    let mut scope = Scope::global();
    assert!(matches!(eval("(define (id x) x)", &mut scope, FUEL), Ok(Value::Nil)));
    assert!(!scope.has_frame(1));
    assert!(matches!(eval("(id (id 3))", &mut scope, FUEL), Ok(Value::Int(3))));
    assert!(scope.has_frame(2));
    assert!(!scope.has_frame(3));
    assert!(matches!(eval("(+ 1 (* 2 3))", &mut scope, FUEL), Ok(Value::Int(7))));
    assert!(!scope.has_frame(3));
    assert!(matches!(eval("(do ((i 0 (+ i 1))) ((= i 5)))", &mut scope, FUEL), Ok(Value::Nil)));
    assert!(scope.has_frame(3));
    assert!(!scope.has_frame(4));
}
