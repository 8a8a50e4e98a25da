use std::rc::Rc;

use rlisp::ast::{CallExpr, Expr, IntegerLiteral, Location};
use rlisp::evaluate::Evaluatable;
use rlisp::isolate::{Isolate, Namespace, RuntimeError};
use rlisp::parser::Parser;
use rlisp::value::{NativeFunction, NativeThunk, Thunk, Value};

fn run(code: &str) -> (Result<Value, RuntimeError>, Isolate) {
    let mut parser = Parser::new(code);
    parser.init().expect("lexing the first token failed");
    let program = parser.parse().expect("parsing failed");
    let mut isolate = Isolate::new();
    let result = program.evaluate(&mut isolate);
    (result, isolate)
}

fn loc() -> Location {
    Location { offset: 0, col: 1, row: 1 }
}

#[test]
fn redefining_a_name_is_already_bound() {
    let (result, _) = run("(define a 1)(define a 2)");
    match result {
        Err(RuntimeError::AlreadyBound { name }) => assert_eq!(name, "a"),
        other => panic!("expected AlreadyBound, got {:?}", other),
    }
}

#[test]
fn debug_records_its_parameters_in_order() {
    let (result, isolate) = run("(debug 1 2 3)");
    assert_eq!(result, Ok(Value::NoValue));
    assert_eq!(isolate.debug_output.len(), 1);
    assert_eq!(
        isolate.debug_output[0].parameters,
        vec![Value::Integer(1), Value::Integer(2), Value::Integer(3)]
    );
}

#[test]
fn unbound_name_fails_resolution() {
    let (result, _) = run("(undefined-name)");
    match result {
        Err(RuntimeError::Unbound { name }) => assert_eq!(name, "undefined-name"),
        other => panic!("expected Unbound, got {:?}", other),
    }
}

#[test]
fn calling_an_integer_is_not_callable() {
    let call = CallExpr {
        location: loc(),
        function: Rc::new(Expr::Integer(IntegerLiteral { location: loc(), value: 1 })),
        parameters: vec![Rc::new(Expr::Integer(IntegerLiteral { location: loc(), value: 2 }))],
    };
    let mut isolate = Isolate::new();
    match call.evaluate(&mut isolate) {
        Err(RuntimeError::NotCallable { name }) => assert_eq!(name, "function"),
        other => panic!("expected NotCallable, got {:?}", other),
    }
}

#[test]
fn defined_names_reach_the_native_call() {
    let (result, isolate) = run("(define a 5)(debug a)");
    assert!(result.is_ok());
    assert_eq!(isolate.debug_output.len(), 1);
    assert_eq!(isolate.debug_output[0].parameters, vec![Value::Integer(5)]);
}

#[test]
fn string_values_flow_through() {
    let (result, isolate) = run("(define s \"hi\")(debug s)");
    assert!(result.is_ok());
    assert_eq!(
        isolate.debug_output[0].parameters,
        vec![Value::String(String::from("hi"))]
    );
}

#[test]
fn program_result_is_no_value() {
    let (result, _) = run("(define a 1)");
    assert_eq!(result, Ok(Value::NoValue));
    let (empty_result, _) = run("");
    assert_eq!(empty_result, Ok(Value::NoValue));
}

#[test]
fn first_error_stops_the_program() {
    let (result, isolate) = run("(debug 1)(undefined-name)(debug 2)");
    assert!(matches!(result, Err(RuntimeError::Unbound { .. })));
    // the first call ran, the one after the failure did not
    assert_eq!(isolate.debug_output.len(), 1);
    assert_eq!(isolate.debug_output[0].parameters, vec![Value::Integer(1)]);
}

#[test]
fn parameters_evaluate_left_to_right_and_fail_fast() {
    let (result, isolate) = run("(debug 1 missing 2)");
    match result {
        Err(RuntimeError::Unbound { name }) => assert_eq!(name, "missing"),
        other => panic!("expected Unbound, got {:?}", other),
    }
    // the call itself never ran
    assert_eq!(isolate.debug_output.len(), 0);
}

#[test]
fn fresh_isolate_has_debug_bound() {
    let isolate = Isolate::new();
    assert_eq!(isolate.namespaces.len(), 1);
    let name = String::from("debug");
    match isolate.resolve(&name) {
        Some(Value::NativeThunk(nt)) => assert_eq!(nt.function, NativeFunction::Debug),
        other => panic!("expected the debug built-in, got {:?}", other),
    }
}

#[test]
fn namespace_bind_refuses_duplicates() {
    let mut ns = Namespace::new();
    let name = String::from("a");
    assert!(ns.bind(&name, Value::Integer(1)).is_ok());
    match ns.bind(&name, Value::Integer(2)) {
        Err(RuntimeError::AlreadyBound { name }) => assert_eq!(name, "a"),
        other => panic!("expected AlreadyBound, got {:?}", other),
    }
}

#[test]
fn shadowing_resolves_to_the_innermost_namespace() {
    let mut isolate = Isolate::new();
    let name = String::from("a");
    isolate.bind(&name, Value::Integer(1)).expect("binding failed");
    let mut inner = Namespace::new();
    inner.bind(&name, Value::Integer(2)).expect("binding failed");
    isolate.namespaces.push(inner);
    match isolate.resolve(&name) {
        Some(Value::Integer(v)) => assert_eq!(*v, 2),
        other => panic!("expected the inner binding, got {:?}", other),
    }
}

#[test]
fn outer_bindings_stay_reachable_without_shadowing() {
    let mut isolate = Isolate::new();
    let name = String::from("a");
    isolate.bind(&name, Value::Integer(1)).expect("binding failed");
    isolate.namespaces.push(Namespace::new());
    match isolate.resolve(&name) {
        Some(Value::Integer(v)) => assert_eq!(*v, 1),
        other => panic!("expected the outer binding, got {:?}", other),
    }
}

#[test]
fn literal_nodes_evaluate_to_their_values() {
    let mut isolate = Isolate::new();
    let node = IntegerLiteral { location: loc(), value: 7 };
    assert_eq!(node.evaluate(&mut isolate), Ok(Value::Integer(7)));
}

#[test]
fn cloning_a_thunk_value_keeps_its_parts() {
    let thunk = Thunk {
        source: Rc::new(Expr::Integer(IntegerLiteral { location: loc(), value: 3 })),
        closure: Rc::new(vec![(String::from("x"), Value::Integer(1))]),
    };
    let value = Value::Thunk(thunk);
    let copy = value.clone();
    assert_eq!(copy, value);
}

#[test]
fn native_thunk_values_compare_by_function() {
    let a = Value::NativeThunk(NativeThunk { function: NativeFunction::Debug });
    let b = a.clone();
    assert_eq!(a, b);
}
