use minilisp::scope::{Scope, GLOBAL};
use minilisp::value::{BuiltIn, Primitive, Value};

fn as_int(value: Option<Value>) -> i64 {
    match value {
        Some(Value::Int(i)) => i,
        other => panic!("integer expected, got {:?}", other),
    }
}

#[test]
fn binding_is_seen_from_frames_inside() {
    let mut scope = Scope::new();
    scope.define(GLOBAL, "x", Value::Int(1));
    let child = scope.nest(GLOBAL);
    let grandchild = scope.nest(child);
    let sibling = scope.nest(GLOBAL);
    assert_eq!(as_int(scope.get(GLOBAL, "x")), 1);
    assert_eq!(as_int(scope.get(child, "x")), 1);
    assert_eq!(as_int(scope.get(grandchild, "x")), 1);
    assert_eq!(as_int(scope.get(sibling, "x")), 1);
}

#[test]
fn shadowing_is_local_to_the_frame() {
    let mut scope = Scope::new();
    scope.define(GLOBAL, "x", Value::Int(1));
    let child = scope.nest(GLOBAL);
    let grandchild = scope.nest(child);
    let sibling = scope.nest(GLOBAL);
    scope.define(child, "x", Value::Int(2));
    assert_eq!(as_int(scope.get(GLOBAL, "x")), 1);
    assert_eq!(as_int(scope.get(child, "x")), 2);
    assert_eq!(as_int(scope.get(grandchild, "x")), 2);
    assert_eq!(as_int(scope.get(sibling, "x")), 1);
}

#[test]
fn define_overwrites_in_the_same_frame() {
    let mut scope = Scope::new();
    scope.define(GLOBAL, "x", Value::Int(1));
    scope.define(GLOBAL, "x", Value::Int(5));
    assert_eq!(as_int(scope.get(GLOBAL, "x")), 5);
    assert_eq!(scope.variables(GLOBAL), vec!["x".to_string()]);
}

#[test]
fn set_changes_the_nearest_binding() {
    let mut scope = Scope::new();
    scope.define(GLOBAL, "x", Value::Int(1));
    let child = scope.nest(GLOBAL);
    let grandchild = scope.nest(child);
    assert!(scope.set(grandchild, "x", Value::Int(7)).is_ok());
    assert_eq!(as_int(scope.get(GLOBAL, "x")), 7);
    assert_eq!(scope.variables(child).len(), 0);
    assert_eq!(scope.variables(grandchild).len(), 0);

    scope.define(child, "x", Value::Int(2));
    assert!(scope.set(grandchild, "x", Value::Int(8)).is_ok());
    assert_eq!(as_int(scope.get(child, "x")), 8);
    assert_eq!(as_int(scope.get(GLOBAL, "x")), 7);
}

#[test]
fn set_never_creates_a_binding() {
    let mut scope = Scope::new();
    let child = scope.nest(GLOBAL);
    assert!(scope.set(child, "x", Value::Int(1)).is_err());
    assert!(scope.set(GLOBAL, "x", Value::Int(1)).is_err());
    assert!(scope.get(child, "x").is_none());
    assert_eq!(scope.variables(GLOBAL).len(), 0);
    assert_eq!(scope.variables(child).len(), 0);
}

#[test]
fn set_does_not_look_inward() {
    let mut scope = Scope::new();
    let child = scope.nest(GLOBAL);
    scope.define(child, "x", Value::Int(1));
    assert!(scope.set(GLOBAL, "x", Value::Int(2)).is_err());
    assert!(scope.get(GLOBAL, "x").is_none());
    assert_eq!(as_int(scope.get(child, "x")), 1);
}

#[test]
fn frames_are_numbered_in_the_order_made() {
    let mut scope = Scope::new();
    assert!(scope.has_frame(GLOBAL));
    assert!(!scope.has_frame(1));
    assert_eq!(scope.nest(GLOBAL), 1);
    assert_eq!(scope.nest(1), 2);
    assert_eq!(scope.nest(GLOBAL), 3);
    assert!(scope.has_frame(3));
    assert!(!scope.has_frame(4));
}

#[test]
fn an_unknown_frame_binds_nothing() {
    let mut scope = Scope::new();
    scope.define(9, "x", Value::Int(1));
    assert!(scope.get(9, "x").is_none());
    assert!(scope.set(9, "x", Value::Int(1)).is_err());
    assert_eq!(scope.variables(9).len(), 0);
    assert!(!scope.has_frame(1));
    let orphan = scope.nest(9);
    scope.define(GLOBAL, "y", Value::Int(2));
    assert!(scope.get(orphan, "y").is_none());
}

#[test]
fn variables_lists_each_name_once() {
    let mut scope = Scope::new();
    scope.define(GLOBAL, "a", Value::Int(1));
    scope.define(GLOBAL, "b", Value::Int(2));
    scope.define(GLOBAL, "a", Value::Int(3));
    let mut names = scope.variables(GLOBAL);
    names.sort();
    assert_eq!(names, vec!["a".to_string(), "b".to_string()]);
}

#[test]
fn global_scope_binds_the_natives() {
    let scope = Scope::global();
    let names = [
        "+", "-", "*", "/", "and", "or", "not", "mod", "=", "<=", "<", ">=", ">", "list",
        "string-concatenate", "display", "map", "apply", "read-file", "split-string", "substring",
        "string->int", "parse-int",
    ];
    for name in names {
        assert!(matches!(scope.get(GLOBAL, name), Some(Value::BuiltIn(_))), "{}", name);
    }
    match scope.get(GLOBAL, "/") {
        Some(Value::BuiltIn(native)) => assert_eq!(native.primitive(), Primitive::Div),
        other => panic!("{:?}", other),
    }
    match scope.get(GLOBAL, "pi") {
        Some(Value::Float(bits)) => assert_eq!(f64::from_bits(bits), std::f64::consts::PI),
        other => panic!("{:?}", other),
    }
    match scope.get(GLOBAL, "make-generator") {
        Some(Value::Procedure(p)) => assert_eq!(p.arity(), 2),
        other => panic!("{:?}", other),
    }
    assert_eq!(scope.variables(GLOBAL).len(), names.len() + 2);
    assert!(!scope.has_frame(1));
}

#[test]
fn output_is_kept_in_order_and_taken_once() {
    let mut scope = Scope::new();
    scope.emit(Value::Int(1));
    scope.emit(Value::Bool(true));
    let shown = scope.take_output();
    assert_eq!(shown.len(), 2);
    assert!(matches!(shown[0], Value::Int(1)));
    assert!(matches!(shown[1], Value::Bool(true)));
    assert_eq!(scope.take_output().len(), 0);
}

#[test]
fn files_are_found_by_name() {
    let mut scope = Scope::new();
    assert!(scope.file("a").is_none());
    scope.provide_file("a", "one".to_string());
    scope.provide_file("b", "two".to_string());
    scope.provide_file("a", "three".to_string());
    assert_eq!(scope.file("a"), Some("three".to_string()));
    assert_eq!(scope.file("b"), Some("two".to_string()));
    assert!(scope.missing_file().is_none());
    scope.miss("c");
    assert_eq!(scope.missing_file(), Some("c".to_string()));
    scope.forget_files();
    assert!(scope.file("a").is_none());
    assert!(scope.missing_file().is_none());
}

#[test]
fn a_copy_of_a_scope_goes_its_own_way() {
    let mut scope = Scope::new();
    scope.define(GLOBAL, "x", Value::Int(1));
    scope.define(GLOBAL, "f", Value::BuiltIn(BuiltIn::new(Primitive::Add)));
    let mut copy = scope.clone();
    copy.define(GLOBAL, "x", Value::Int(2));
    let inner = copy.nest(GLOBAL);
    assert_eq!(inner, 1);
    assert_eq!(as_int(scope.get(GLOBAL, "x")), 1);
    assert_eq!(as_int(copy.get(GLOBAL, "x")), 2);
    assert!(!scope.has_frame(1));
    assert!(matches!(copy.get(inner, "f"), Some(Value::BuiltIn(_))));
}
