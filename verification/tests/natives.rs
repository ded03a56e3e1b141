use minilisp::builtin::{
    and, apply, display, list, modulo, not, op_add, op_div, op_eq, op_leq, op_mul, op_sub, or,
    pairwise_compare, parse_int, read_file, split_string, string_concat, substring, zip_vecs,
    Relation,
};
use minilisp::eval::RuntimeError;
use minilisp::scope::{Scope, GLOBAL};
use minilisp::value::{BuiltIn, Primitive, Value};
use std::rc::Rc;

fn text(s: &str) -> Value {
    Value::String(Rc::new(s.to_string()))
}

fn float(x: f64) -> Value {
    Value::Float(x.to_bits())
}

fn int_list(xs: &[i64]) -> Vec<Value> {
    xs.iter().map(|x| Value::Int(*x)).collect()
}

fn as_float(r: Result<Value, RuntimeError>) -> f64 {
    match r {
        Ok(Value::Float(bits)) => f64::from_bits(bits),
        other => panic!("float expected, got {:?}", other),
    }
}

fn as_text(r: Result<Value, RuntimeError>) -> String {
    match r {
        Ok(Value::String(s)) => s.as_str().to_string(),
        other => panic!("text expected, got {:?}", other),
    }
}

fn as_texts(r: Result<Value, RuntimeError>) -> Vec<String> {
    match r {
        Ok(Value::List(items)) => items
            .iter()
            .map(|item| match item {
                Value::String(s) => s.as_str().to_string(),
                other => panic!("text expected, got {:?}", other),
            })
            .collect(),
        other => panic!("list expected, got {:?}", other),
    }
}

#[test]
fn integer_arithmetic_wraps_round() {
    assert!(matches!(
        op_add(int_list(&[i64::MAX, 1])),
        Ok(Value::Int(i64::MIN))
    ));
    assert!(matches!(
        op_sub(int_list(&[i64::MIN, 1])),
        Ok(Value::Int(i64::MAX))
    ));
    assert!(matches!(op_sub(int_list(&[i64::MIN])), Ok(Value::Int(i64::MIN))));
    assert!(matches!(
        op_mul(int_list(&[i64::MAX, 2])),
        Ok(Value::Int(-2))
    ));
    assert!(matches!(op_add(int_list(&[1, 2, 3, 4])), Ok(Value::Int(10))));
    assert!(matches!(op_sub(int_list(&[10, 1, 2, 3])), Ok(Value::Int(4))));
    assert!(matches!(op_mul(int_list(&[2, 3, 4])), Ok(Value::Int(24))));
}

#[test]
fn integer_division_truncates() {
    assert!(matches!(op_div(int_list(&[7, 2])), Ok(Value::Int(3))));
    assert!(matches!(op_div(int_list(&[-7, 2])), Ok(Value::Int(-3))));
    assert!(matches!(op_div(int_list(&[7, -2])), Ok(Value::Int(-3))));
    assert!(matches!(op_div(int_list(&[100, 5, 2])), Ok(Value::Int(10))));
    assert!(matches!(op_div(int_list(&[1])), Ok(Value::Int(1))));
    assert!(matches!(op_div(int_list(&[-1])), Ok(Value::Int(-1))));
    assert!(matches!(op_div(int_list(&[2])), Ok(Value::Int(0))));
}

#[test]
fn division_without_result_is_divide_by_zero() {
    assert!(matches!(op_div(int_list(&[0])), Err(RuntimeError::DivideByZero)));
    assert!(matches!(op_div(int_list(&[5, 0])), Err(RuntimeError::DivideByZero)));
    assert!(matches!(op_div(int_list(&[5, 1, 0, 2])), Err(RuntimeError::DivideByZero)));
    assert!(matches!(op_div(int_list(&[0, 5])), Ok(Value::Int(0))));
    assert!(matches!(
        op_div(int_list(&[i64::MIN, -1])),
        Err(RuntimeError::DivideByZero)
    ));
    assert!(matches!(op_div(vec![float(0.0)]), Err(RuntimeError::DivideByZero)));
    assert!(matches!(op_div(vec![float(-0.0)]), Err(RuntimeError::DivideByZero)));
    assert!(matches!(
        op_div(vec![float(1.0), float(-0.0)]),
        Err(RuntimeError::DivideByZero)
    ));
    assert!(matches!(
        op_div(vec![float(1.0), float(2.0), float(0.0), float(3.0)]),
        Err(RuntimeError::DivideByZero)
    ));
    assert_eq!(as_float(op_div(vec![float(0.0), float(2.0)])), 0.0);
}

#[test]
fn float_arithmetic_rounds_as_the_hardware_does() {
    assert_eq!(as_float(op_add(vec![float(0.1), float(0.2)])), 0.1 + 0.2);
    assert_eq!(as_float(op_sub(vec![float(0.3), float(0.1)])), 0.3 - 0.1);
    assert_eq!(as_float(op_mul(vec![float(1.1), float(1.1)])), 1.1 * 1.1);
    assert_eq!(as_float(op_div(vec![float(1.0), float(3.0)])), 1.0 / 3.0);
    assert_eq!(as_float(op_div(vec![float(3.0)])), 1.0 / 3.0);
    assert_eq!(as_float(op_sub(vec![float(1.5)])), -1.5);
    assert_eq!(
        as_float(op_add(vec![float(1e308), float(1e308)])),
        f64::INFINITY
    );
    assert_eq!(
        as_float(op_add(vec![float(1.0), float(2.0), float(3.5)])),
        6.5
    );
    let negated = op_sub(vec![float(0.0)]);
    assert!(matches!(negated, Ok(Value::Float(bits)) if bits == (-0.0f64).to_bits()));
}

#[test]
fn arithmetic_does_not_mix_kinds() {
    assert!(matches!(
        op_add(vec![Value::Int(1), float(2.0)]),
        Err(RuntimeError::NumberExpected(Value::Float(_)))
    ));
    assert!(matches!(
        op_mul(vec![float(2.0), Value::Int(1)]),
        Err(RuntimeError::NumberExpected(Value::Int(1)))
    ));
    assert!(matches!(
        op_sub(vec![Value::Nil]),
        Err(RuntimeError::NumberExpected(Value::Nil))
    ));
    assert!(matches!(
        op_div(vec![Value::Int(1), Value::Int(0), Value::Bool(true)]),
        Err(RuntimeError::NumberExpected(Value::Bool(true)))
    ));
    assert!(matches!(op_sub(vec![]), Err(RuntimeError::WrongNumberOfAgumentsPassed)));
    assert!(matches!(op_div(vec![]), Err(RuntimeError::WrongNumberOfAgumentsPassed)));
}

#[test]
fn modulo_of_edge_values() {
    assert!(matches!(modulo(int_list(&[95, 100])), Ok(Value::Int(95))));
    assert!(matches!(modulo(int_list(&[-5, 100])), Ok(Value::Int(95))));
    assert!(matches!(modulo(int_list(&[-105, 100])), Ok(Value::Int(-5))));
    assert!(matches!(modulo(int_list(&[7, -3])), Ok(Value::Int(1))));
    assert!(matches!(modulo(int_list(&[7, -1])), Ok(Value::Int(0))));
    assert!(matches!(modulo(int_list(&[i64::MIN + 1, -1])), Ok(Value::Int(0))));
    assert!(matches!(modulo(int_list(&[i64::MAX, 1])), Ok(Value::Int(0))));
    assert!(matches!(modulo(int_list(&[1, 0])), Err(RuntimeError::DivideByZero)));
    assert!(matches!(
        modulo(int_list(&[1])),
        Err(RuntimeError::WrongNumberOfAgumentsPassed)
    ));
    assert!(matches!(
        modulo(int_list(&[1, 2, 3])),
        Err(RuntimeError::WrongNumberOfAgumentsPassed)
    ));
    assert!(matches!(
        modulo(vec![Value::Int(1), text("2"), Value::Nil]),
        Err(RuntimeError::NumberExpected(Value::String(_)))
    ));
}

#[test]
fn equality_of_integers_and_texts() {
    assert!(matches!(op_eq(vec![]), Ok(Value::Bool(true))));
    assert!(matches!(op_eq(int_list(&[3])), Ok(Value::Bool(true))));
    assert!(matches!(op_eq(int_list(&[3, 3, 3])), Ok(Value::Bool(true))));
    assert!(matches!(op_eq(int_list(&[3, 3, 4])), Ok(Value::Bool(false))));
    assert!(matches!(op_eq(vec![text("a"), text("a")]), Ok(Value::Bool(true))));
    assert!(matches!(op_eq(vec![text("a"), text("b")]), Ok(Value::Bool(false))));
    assert!(matches!(
        op_eq(vec![Value::Int(1), text("1")]),
        Err(RuntimeError::NumberExpected(Value::Int(1)))
    ));
    assert!(matches!(
        op_eq(vec![float(1.0), float(1.0)]),
        Err(RuntimeError::NumberExpected(Value::Float(_)))
    ));
}

#[test]
fn comparisons_hold_of_every_neighbouring_pair() {
    assert!(matches!(op_leq(int_list(&[])), Ok(Value::Bool(true))));
    assert!(matches!(op_leq(int_list(&[5])), Ok(Value::Bool(true))));
    assert!(matches!(op_leq(int_list(&[1, 1, 2, 3])), Ok(Value::Bool(true))));
    assert!(matches!(op_leq(int_list(&[1, 3, 2, 4])), Ok(Value::Bool(false))));
    assert!(matches!(op_leq(int_list(&[2, 1])), Ok(Value::Bool(false))));
    let chain = int_list(&[1, 2, 2, 3]);
    assert!(matches!(pairwise_compare(&chain, Relation::LessEq), Ok(Value::Bool(true))));
    assert!(matches!(pairwise_compare(&chain, Relation::Less), Ok(Value::Bool(false))));
    let down = int_list(&[3, 2, 1]);
    assert!(matches!(pairwise_compare(&down, Relation::Greater), Ok(Value::Bool(true))));
    assert!(matches!(pairwise_compare(&down, Relation::GreaterEq), Ok(Value::Bool(true))));
    assert!(matches!(pairwise_compare(&down, Relation::Less), Ok(Value::Bool(false))));
    let last_pair = int_list(&[1, 2, 3, 0]);
    assert!(matches!(pairwise_compare(&last_pair, Relation::Less), Ok(Value::Bool(false))));
    let first_pair = int_list(&[9, 1, 2, 3]);
    assert!(matches!(pairwise_compare(&first_pair, Relation::Less), Ok(Value::Bool(false))));
    assert!(matches!(
        op_leq(vec![Value::Int(1), float(2.0)]),
        Err(RuntimeError::NumberExpected(Value::Float(_)))
    ));
}

#[test]
fn boolean_natives() {
    let t = Value::Bool(true);
    let f = Value::Bool(false);
    assert!(matches!(and(vec![]), Ok(Value::Bool(true))));
    assert!(matches!(or(vec![]), Ok(Value::Bool(false))));
    assert!(matches!(and(vec![t.clone(), t.clone()]), Ok(Value::Bool(true))));
    assert!(matches!(and(vec![t.clone(), f.clone()]), Ok(Value::Bool(false))));
    assert!(matches!(or(vec![f.clone(), t.clone()]), Ok(Value::Bool(true))));
    assert!(matches!(or(vec![f.clone(), f.clone()]), Ok(Value::Bool(false))));
    assert!(matches!(not(vec![t.clone()]), Ok(Value::Bool(false))));
    assert!(matches!(not(vec![f.clone()]), Ok(Value::Bool(true))));
    assert!(matches!(not(vec![]), Err(RuntimeError::WrongNumberOfAgumentsPassed)));
    assert!(matches!(
        not(vec![t.clone(), f.clone()]),
        Err(RuntimeError::WrongNumberOfAgumentsPassed)
    ));
    assert!(matches!(
        not(vec![Value::Int(0)]),
        Err(RuntimeError::BooleanExpected(Value::Int(0)))
    ));
    assert!(matches!(
        or(vec![t, Value::Nil]),
        Err(RuntimeError::BooleanExpected(Value::Nil))
    ));
}

#[test]
fn list_keeps_its_arguments() {
    match list(vec![Value::Int(1), text("a"), Value::Nil]) {
        Ok(Value::List(items)) => {
            assert_eq!(items.len(), 3);
            assert!(matches!(items[0], Value::Int(1)));
            assert!(matches!(items[2], Value::Nil));
        }
        other => panic!("{:?}", other),
    }
    assert!(matches!(list(vec![]), Ok(Value::List(items)) if items.is_empty()));
}

#[test]
fn string_concatenation() {
    assert_eq!(as_text(string_concat(vec![text("ab"), text(""), text("c")])), "abc");
    assert_eq!(as_text(string_concat(vec![text("x")])), "x");
    assert!(matches!(
        string_concat(vec![]),
        Err(RuntimeError::WrongNumberOfAgumentsPassed)
    ));
    assert!(matches!(
        string_concat(vec![text("a"), Value::Int(1)]),
        Err(RuntimeError::StringExpected(Value::Int(1)))
    ));
}

#[test]
fn splitting_on_white_space() {
    assert_eq!(
        as_texts(split_string(vec![text("  hello \t big\nworld\r\n")])),
        vec!["hello", "big", "world"]
    );
    assert_eq!(as_texts(split_string(vec![text("one")])), vec!["one"]);
    assert!(as_texts(split_string(vec![text(" \n ")])).is_empty());
    assert!(as_texts(split_string(vec![text("")])).is_empty());
    assert_eq!(
        as_texts(split_string(vec![text("a\u{a0}b c\u{c}d")])),
        vec!["a\u{a0}b", "c", "d"]
    );
    assert!(matches!(
        split_string(vec![]),
        Err(RuntimeError::WrongNumberOfAgumentsPassed)
    ));
    assert!(matches!(
        split_string(vec![Value::Int(1)]),
        Err(RuntimeError::StringExpected(Value::Int(1)))
    ));
}

#[test]
fn substring_by_byte_places() {
    let s = || text("hello123");
    assert_eq!(as_text(substring(vec![s(), Value::Int(5), Value::Int(-1)])), "123");
    assert_eq!(as_text(substring(vec![s(), Value::Int(0), Value::Int(5)])), "hello");
    assert_eq!(as_text(substring(vec![s(), Value::Int(2), Value::Int(2)])), "");
    assert_eq!(as_text(substring(vec![s(), Value::Int(-4), Value::Int(-2)])), "123"[..2].to_string());
    assert_eq!(as_text(substring(vec![s(), Value::Int(-9), Value::Int(8)])), "hello123");
    assert_eq!(
        as_text(substring(vec![text("aéb"), Value::Int(1), Value::Int(3)])),
        "é"
    );
}

#[test]
fn substring_refuses_bad_places() {
    let s = || text("hello");
    assert!(matches!(
        substring(vec![s(), Value::Int(3), Value::Int(2)]),
        Err(RuntimeError::NumberExpected(Value::Int(2)))
    ));
    assert!(matches!(
        substring(vec![s(), Value::Int(0), Value::Int(6)]),
        Err(RuntimeError::NumberExpected(Value::Int(6)))
    ));
    assert!(matches!(
        substring(vec![s(), Value::Int(6), Value::Int(6)]),
        Err(RuntimeError::NumberExpected(Value::Int(6)))
    ));
    assert!(matches!(
        substring(vec![s(), Value::Int(-7), Value::Int(2)]),
        Err(RuntimeError::NumberExpected(Value::Int(-7)))
    ));
    assert!(matches!(
        substring(vec![s(), Value::Int(0), Value::Int(i64::MIN)]),
        Err(RuntimeError::NumberExpected(Value::Int(i64::MIN)))
    ));
    assert!(matches!(
        substring(vec![text("aéb"), Value::Int(2), Value::Int(3)]),
        Err(RuntimeError::NumberExpected(Value::Int(2)))
    ));
    assert!(matches!(
        substring(vec![text("aéb"), Value::Int(1), Value::Int(2)]),
        Err(RuntimeError::NumberExpected(Value::Int(2)))
    ));
    assert!(matches!(
        substring(vec![]),
        Err(RuntimeError::WrongNumberOfAgumentsPassed)
    ));
    assert!(matches!(
        substring(vec![s(), Value::Int(0)]),
        Err(RuntimeError::WrongNumberOfAgumentsPassed)
    ));
    assert!(matches!(
        substring(vec![s(), Value::Int(0), Value::Int(1), Value::Int(2)]),
        Err(RuntimeError::WrongNumberOfAgumentsPassed)
    ));
    assert!(matches!(
        substring(vec![Value::Int(0), Value::Int(0), Value::Int(1)]),
        Err(RuntimeError::StringExpected(Value::Int(0)))
    ));
    assert!(matches!(
        substring(vec![s(), Value::Int(0), text("1")]),
        Err(RuntimeError::NumberExpected(Value::String(_)))
    ));
}

#[test]
fn reading_integers_from_text() {
    assert!(matches!(parse_int(vec![text("123")]), Ok(Value::Int(123))));
    assert!(matches!(parse_int(vec![text("-123")]), Ok(Value::Int(-123))));
    assert!(matches!(parse_int(vec![text("+7")]), Ok(Value::Int(7))));
    assert!(matches!(parse_int(vec![text("007")]), Ok(Value::Int(7))));
    assert!(matches!(
        parse_int(vec![text("9223372036854775807")]),
        Ok(Value::Int(i64::MAX))
    ));
    assert!(matches!(
        parse_int(vec![text("-9223372036854775808")]),
        Ok(Value::Int(i64::MIN))
    ));
    for bad in ["", "-", "+", "12a", " 12", "12 ", "1.5", "9223372036854775808", "--1", "١٢"] {
        assert!(matches!(parse_int(vec![text(bad)]), Ok(Value::Int(0))), "{:?}", bad);
    }
    assert!(matches!(
        parse_int(vec![]),
        Err(RuntimeError::WrongNumberOfAgumentsPassed)
    ));
    assert!(matches!(
        parse_int(vec![text("1"), text("2")]),
        Err(RuntimeError::WrongNumberOfAgumentsPassed)
    ));
    assert!(matches!(
        parse_int(vec![Value::Int(1)]),
        Err(RuntimeError::StringExpected(Value::Int(1)))
    ));
}

#[test]
fn display_keeps_what_it_shows() {
    let mut scope = Scope::new();
    assert!(matches!(display(vec![Value::Int(4)], &mut scope), Ok(Value::Nil)));
    assert!(matches!(display(vec![text("x")], &mut scope), Ok(Value::Nil)));
    assert!(matches!(
        display(vec![], &mut scope),
        Err(RuntimeError::WrongNumberOfAgumentsPassed)
    ));
    assert!(matches!(
        display(vec![Value::Int(1), Value::Int(2)], &mut scope),
        Err(RuntimeError::WrongNumberOfAgumentsPassed)
    ));
    let shown = scope.take_output();
    assert_eq!(shown.len(), 2);
    assert!(matches!(shown[0], Value::Int(4)));
}

#[test]
fn read_file_finds_what_the_host_provided() {
    let mut scope = Scope::new();
    scope.provide_file("notes", "first\nsecond".to_string());
    assert_eq!(as_text(read_file(vec![text("notes")], &mut scope)), "first\nsecond");
    assert!(scope.missing_file().is_none());
    assert!(matches!(
        read_file(vec![text("other")], &mut scope),
        Err(RuntimeError::IO)
    ));
    assert_eq!(scope.missing_file(), Some("other".to_string()));
    assert!(matches!(
        read_file(vec![], &mut scope),
        Err(RuntimeError::WrongNumberOfAgumentsPassed)
    ));
    assert!(matches!(
        read_file(vec![Value::Int(1)], &mut scope),
        Err(RuntimeError::StringExpected(Value::Int(1)))
    ));
}

#[test]
fn zip_stops_at_the_shortest() {
    let rows = zip_vecs(&[int_list(&[1, 2, 3]), int_list(&[4, 5]), int_list(&[6, 7, 8])]);
    assert_eq!(rows.len(), 2);
    assert!(matches!(rows[0][..], [Value::Int(1), Value::Int(4), Value::Int(6)]));
    assert!(matches!(rows[1][..], [Value::Int(2), Value::Int(5), Value::Int(7)]));
    assert!(zip_vecs::<Value>(&[]).is_empty());
    let texts = zip_vecs(&[vec!["a", "b"], vec!["c", "d"]]);
    assert_eq!(texts, vec![vec!["a", "c"], vec!["b", "d"]]);
    assert!(zip_vecs(&[int_list(&[1]), vec![]]).is_empty());
}

#[test]
fn map_applies_to_each_row() {
    let mut scope = Scope::global();
    let plus = scope.get(GLOBAL, "+").unwrap();
    let ans = minilisp::builtin::map(
        vec![plus.clone(), Value::List(int_list(&[1, 2])), Value::List(int_list(&[10, 20, 30]))],
        &mut scope,
        5,
    );
    match ans {
        Ok(Value::List(items)) => {
            assert!(matches!(items[..], [Value::Int(11), Value::Int(22)]));
        }
        other => panic!("{:?}", other),
    }
    assert!(matches!(
        minilisp::builtin::map(vec![plus.clone()], &mut scope, 5),
        Err(RuntimeError::WrongNumberOfAgumentsPassed)
    ));
    assert!(matches!(
        minilisp::builtin::map(vec![plus.clone(), Value::Int(1)], &mut scope, 5),
        Err(RuntimeError::ListExpected(Value::Int(1)))
    ));
    assert!(matches!(
        minilisp::builtin::map(vec![Value::Int(1), Value::List(int_list(&[1]))], &mut scope, 5),
        Err(RuntimeError::NotProcedure)
    ));
    assert!(matches!(
        minilisp::builtin::map(vec![plus.clone(), Value::List(int_list(&[1]))], &mut scope, 0),
        Err(RuntimeError::OutOfFuel)
    ));
    assert!(matches!(
        minilisp::builtin::map(vec![plus, Value::List(vec![])], &mut scope, 0),
        Ok(Value::List(items)) if items.is_empty()
    ));
}

#[test]
fn apply_spreads_the_list() {
    let mut scope = Scope::global();
    let minus = Value::BuiltIn(BuiltIn::new(Primitive::Sub));
    assert!(matches!(
        apply(vec![minus.clone(), Value::List(int_list(&[10, 3, 2]))], &mut scope, 1),
        Ok(Value::Int(5))
    ));
    assert!(matches!(
        apply(vec![minus.clone()], &mut scope, 1),
        Err(RuntimeError::WrongNumberOfAgumentsPassed)
    ));
    assert!(matches!(
        apply(vec![minus.clone(), Value::Int(1)], &mut scope, 1),
        Err(RuntimeError::ListExpected(Value::Int(1)))
    ));
    assert!(matches!(
        apply(vec![minus, Value::List(int_list(&[1]))], &mut scope, 0),
        Err(RuntimeError::OutOfFuel)
    ));
}

#[test]
fn natives_are_called_through_their_value() {
    let mut scope = Scope::new();
    let native = BuiltIn::new(Primitive::Mul);
    assert_eq!(native.primitive(), Primitive::Mul);
    assert!(matches!(
        native.call(int_list(&[6, 7]), &mut scope, 0),
        Ok(Value::Int(42))
    ));
    let less = BuiltIn::new(Primitive::Less);
    assert!(matches!(
        less.call(int_list(&[1, 2, 3]), &mut scope, 0),
        Ok(Value::Bool(true))
    ));
    let greater_eq = BuiltIn::new(Primitive::GreaterEq);
    assert!(matches!(
        greater_eq.call(int_list(&[3, 3, 4]), &mut scope, 0),
        Ok(Value::Bool(false))
    ));
}
