use minilisp::eval::{eval, Error, RuntimeError};
use minilisp::scope::{Scope, GLOBAL};
use minilisp::value::Value;

const FUEL: usize = 100_000;

fn run(src: &str) -> Result<(Value, Scope), Error> {
    let mut global_scope = Scope::global();
    let ans = eval(src, &mut global_scope, FUEL)?;
    Ok((ans, global_scope))
}

fn values_to_ints(params: Vec<Value>) -> Vec<i64> {
    params
        .iter()
        .map(|param| match param {
            Value::Int(i) => *i,
            _ => panic!(),
        })
        .collect()
}

#[test]
fn built_in_func_call() {
    let src = "(+ 10 10)";
    let ans = run(src);
    assert!(matches!(ans, Ok((Value::Int(20), _))));
}

#[test]
fn pointer_to_build_in_func() {
    let src = "(define foo +)";
    let ans = run(src);
    assert!(matches!(ans, Ok((Value::Nil, _))));
    let global_scope = ans.expect("Ok value expected").1;
    let foo = global_scope.get(GLOBAL, "foo").expect("foo variable expected");
    assert!(matches!(foo, Value::BuiltIn(_)));
}

#[test]
fn call_anonymous_func() {
    let src = "((lambda (a b) (+ a b)) 40 2)";
    let ans = run(src);
    assert!(matches!(ans, Ok((Value::Int(42), _))));
}

#[test]
fn begin() {
    let src = "(begin (define r 10.0) (* pi (* r r)))";
    let ans = run(src);
    assert!(matches!(ans, Ok((Value::Float(_), _))));
}

#[test]
fn if_then_else() {
    let src = "(if (= 0 (+ 1 1)) 42.0 (list 1 2 3))";
    let ans = run(src);
    assert!(matches!(ans, Ok((Value::List(_), _))));
}

#[test]
fn factorial() {
    let src = "
            (begin
              (define fact (lambda (n) (if (<= n 1) 1 (* n (fact (- n 1))))))
              (fact 5))";
    let ans = run(src);
    assert!(matches!(ans, Ok((Value::Int(120), _))));
}

#[test]
fn define_function_shortcut() {
    let src = "
            (begin
              (define (f x y) (+ y x))
              (f 4 2))";
    let ans = run(src);
    assert!(matches!(ans, Ok((Value::Int(6), _))));
}

#[test]
fn set_outer_scope() {
    let src = "
            (begin
              (define x 1)
              (define (f y) (set! x y))
              (f 2)
              x)";
    let ans = run(src).expect("Run expected to success");
    assert!(
        matches!(ans.0, Value::Int(2)),
        "Value::Int(2) expected, got {:?}",
        ans.0
    );
}

#[test]
fn zeronary_ops() {
    let examples = [("(+)", 0), ("(*)", 1)];

    for (src, expected) in examples {
        let ans = run(src).unwrap().0;
        match ans {
            Value::Int(ans) => assert_eq!(ans, expected),
            _ => panic!(),
        }
    }
}

#[test]
fn floating_point_arithmetic() {
    let examples = [
        ("(+ 42.0)", 42.0),
        ("(- 42.0)", -42.0),
        ("(* 42.0)", 42.0),
        ("(/ 42.0)", 1.0 / 42.0),
        ("(+ 40.0 2.0)", 42.0),
        ("(- 44.0 2.0)", 42.0),
        ("(* 21.0 2.0)", 42.0),
        ("(/ 84.0 2.0)", 42.0),
        ("(+ 40.0 1.0 1.0)", 42.0),
        ("(- 44.0 1.0 1.0)", 42.0),
        ("(* 10.5 2.0 2.0)", 42.0),
        ("(/ 84.0 4.0 0.5)", 42.0),
    ];

    for (src, expected) in examples {
        let ans = run(src).unwrap().0;
        match ans {
            Value::Float(ans) => assert_eq!(f64::from_bits(ans), expected, "{}", src),
            _ => panic!(),
        }
    }
}

#[test]
fn fixed_point_arithmetic() {
    let examples = [
        ("(+ 42)", 42),
        ("(- 42)", -42),
        ("(* 42)", 42),
        ("(/ 42)", 1 / 42),
        ("(+ 40 2)", 42),
        ("(- 44 2)", 42),
        ("(* 21 2)", 42),
        ("(/ 84 2)", 42),
        ("(+ 40 1 1)", 42),
        ("(- 44 1 1)", 42),
        ("(* 3 2 7)", 42),
        ("(/ 252 2 3)", 42),
    ];

    for (src, expected) in examples {
        let ans = run(src).unwrap().0;
        match ans {
            Value::Int(ans) => assert_eq!(ans, expected, "{}", src),
            _ => panic!(),
        }
    }
}

#[test]
fn zero_division_error() {
    let examples = [
        "(/ 0.0)",
        "(/ 0)",
        "(/ 42.0 0.0)",
        "(/ 42 0)",
        "(/ 42.0 2.0 0.0)",
        "(/ 42 2 0)",
        "(/ 42.0 2.0 0.0 2.0)",
        "(/ 42 2 0 2)",
    ];

    for src in examples {
        let ans = run(src);
        assert!(matches!(
            ans,
            Err(Error::Runtime(RuntimeError::DivideByZero))
        ))
    }
}

#[test]
fn modulo() {
    let examples = [
        ("(mod 95 100)", 95),
        ("(mod 195 100)", 95),
        ("(mod -5 100)", 95),
    ];

    for (src, expected) in examples {
        let ans = run(src).unwrap().0;
        match ans {
            Value::Int(ans) => assert_eq!(ans, expected, "{}", src),
            _ => panic!(),
        }
    }
}

#[test]
fn string_operations() {
    let src = "
            (parse-int
                (substring
                    (apply string-concatenate
                        (split-string
                            (read-file \"fixtures/hello\")))
                5 -1)
            )";
    let mut global_scope = Scope::global();
    global_scope.provide_file("fixtures/hello", "hello 123\n".to_string());
    let ans = eval(src, &mut global_scope, FUEL);
    match ans {
        Ok(Value::Int(ans)) => assert_eq!(ans, 123),
        _ => panic!(),
    }
}

#[test]
fn map() {
    let examples = [
        ("(map + (list 1 2 3))", vec![1, 2, 3]),
        ("(map + (list 1 2 3) (list 4 5 6))", vec![5, 7, 9]),
        ("(map + (list 1 2 3) (list 2 0) (list 4 5 6))", vec![7, 7]),
    ];

    for (src, expected) in examples {
        let ans = run(src).unwrap().0;
        match ans {
            Value::List(ans) => {
                let ans = values_to_ints(ans);
                assert_eq!(ans, expected, "{}", src)
            }
            _ => panic!(),
        }
    }
}

#[test]
fn apply() {
    let ans = run("(apply + (list 1 2 3))");
    assert!(matches!(ans, Ok((Value::Int(6), _))));
}

#[test]
fn generator() {
    let ans = run("(begin
            (define next (make-generator 10 -3))
            (list (next) (next) (next))
        )")
    .unwrap()
    .0;
    match ans {
        Value::List(values) => {
            let ints = values_to_ints(values);
            assert_eq!(ints, vec![10, 7, 4])
        }
        _ => panic!(),
    }
}
