use boa_core::context::{Context, InterpreterError, InterpreterState};
use boa_core::node::{Declaration, ForLoop, Loop, Node};
use boa_core::value::Value;

fn decl(name: &str) -> Declaration {
    Declaration { name: name.to_string(), init: None }
}

fn let_head(name: &str) -> Node {
    Node::LetDeclList(vec![decl(name)])
}

fn ints(values: &[i32]) -> Vec<Value> {
    values.iter().map(|v| Value::Integer(*v)).collect()
}

#[test]
fn for_over_empty_iterable_yields_undefined_without_running_the_body() {
    let mut ctx = Context::new();
    let id = ctx.add_object(vec![]);
    let fl = ForLoop::new(
        let_head("x"),
        Node::Const(Value::Object(id)),
        Node::Capture("x".to_string()),
    );
    let r = fl.run(&mut ctx).unwrap();
    assert_eq!(r, Value::Undefined);
    assert_eq!(ctx.captures.len(), 0);
    assert!(matches!(ctx.state, InterpreterState::Executing));
}

#[test]
fn per_iteration_scopes_capture_distinct_values() {
    let mut ctx = Context::new();
    let id = ctx.add_object(ints(&[1, 2, 3]));
    let fl = ForLoop::new(
        let_head("x"),
        Node::Const(Value::Object(id)),
        Node::Capture("x".to_string()),
    );
    fl.run(&mut ctx).unwrap();
    assert_eq!(ctx.captures.len(), 3);
    assert_eq!(ctx.read_capture(0), Some(Value::Integer(1)));
    assert_eq!(ctx.read_capture(1), Some(Value::Integer(2)));
    assert_eq!(ctx.read_capture(2), Some(Value::Integer(3)));
}

#[test]
fn const_head_also_gets_a_fresh_binding_per_iteration() {
    let mut ctx = Context::new();
    let id = ctx.add_object(ints(&[5, 6]));
    let fl = ForLoop::new(
        Node::ConstDeclList(vec![decl("c")]),
        Node::Const(Value::Object(id)),
        Node::Capture("c".to_string()),
    );
    fl.run(&mut ctx).unwrap();
    assert_eq!(ctx.read_capture(0), Some(Value::Integer(5)));
    assert_eq!(ctx.read_capture(1), Some(Value::Integer(6)));
}

#[test]
fn two_variable_head_is_a_structural_error_before_any_iteration() {
    let mut ctx = Context::new();
    let id = ctx.add_object(ints(&[1, 2, 3]));
    let head = Node::LetDeclList(vec![decl("a"), decl("b")]);
    let fl = ForLoop::new(head, Node::Const(Value::Object(id)), Node::Capture("a".to_string()));
    let r = fl.run(&mut ctx);
    assert!(matches!(r, Err(InterpreterError::Syntax(_))));
    assert_eq!(ctx.captures.len(), 0);
}

#[test]
fn initializer_in_head_is_a_structural_error() {
    let mut ctx = Context::new();
    let id = ctx.add_object(ints(&[1]));
    let head = Node::VarDeclList(vec![Declaration {
        name: "v".to_string(),
        init: Some(Box::new(Node::Const(Value::Integer(9)))),
    }]);
    let fl = ForLoop::new(head, Node::Const(Value::Object(id)), Node::Capture("v".to_string()));
    let r = fl.run(&mut ctx);
    assert!(matches!(r, Err(InterpreterError::Syntax(_))));
    assert_eq!(ctx.captures.len(), 0);
}

#[test]
fn unknown_head_shape_is_a_structural_error() {
    let mut ctx = Context::new();
    let id = ctx.add_object(ints(&[1]));
    let fl = ForLoop::new(
        Node::Const(Value::Integer(0)),
        Node::Const(Value::Object(id)),
        Node::Capture("x".to_string()),
    );
    let r = fl.run(&mut ctx);
    assert!(matches!(r, Err(InterpreterError::Syntax(_))));
}

#[test]
fn non_iterable_value_is_a_type_error() {
    let mut ctx = Context::new();
    let fl = ForLoop::new(
        let_head("x"),
        Node::Const(Value::Integer(3)),
        Node::Capture("x".to_string()),
    );
    let r = fl.run(&mut ctx);
    assert!(matches!(r, Err(InterpreterError::Type(_))));
}

#[test]
fn identifier_head_assigns_an_existing_binding() {
    let mut ctx = Context::new();
    Node::LetDeclList(vec![Declaration {
        name: "x".to_string(),
        init: Some(Box::new(Node::Const(Value::Integer(0)))),
    }])
        .run(&mut ctx)
        .unwrap();
    let id = ctx.add_object(ints(&[1, 2]));
    let fl = ForLoop::new(
        Node::Identifier("x".to_string()),
        Node::Const(Value::Object(id)),
        Node::Identifier("x".to_string()),
    );
    let last = fl.run(&mut ctx).unwrap();
    assert_eq!(last, Value::Integer(2));
    let after = Node::Identifier("x".to_string()).run(&mut ctx).unwrap();
    assert_eq!(after, Value::Integer(2));
}

#[test]
fn for_loop_result_is_the_last_body_value() {
    let mut ctx = Context::new();
    let id = ctx.add_object(ints(&[10, 20, 30]));
    let fl = ForLoop::new(
        let_head("x"),
        Node::Const(Value::Object(id)),
        Node::Identifier("x".to_string()),
    );
    let r = fl.run(&mut ctx).unwrap();
    assert_eq!(r, Value::Integer(30));
}

#[test]
fn break_in_for_body_stops_the_loop_and_is_consumed() {
    let mut ctx = Context::new();
    let id = ctx.add_object(ints(&[1, 2, 3]));
    let body = Node::Block(vec![Node::Capture("x".to_string()), Node::Break(None)]);
    let fl = ForLoop::new(let_head("x"), Node::Const(Value::Object(id)), body);
    let r = fl.run(&mut ctx);
    assert!(r.is_ok());
    assert!(matches!(ctx.state, InterpreterState::Executing));
    assert_eq!(ctx.captures.len(), 1);
}

#[test]
fn return_in_for_body_unwinds_and_forwards_the_value() {
    let mut ctx = Context::new();
    let id = ctx.add_object(ints(&[7, 8]));
    let body = Node::Return(Box::new(Node::Identifier("x".to_string())));
    let fl = ForLoop::new(let_head("x"), Node::Const(Value::Object(id)), body);
    let r = fl.run(&mut ctx).unwrap();
    assert_eq!(r, Value::Integer(7));
    assert!(matches!(ctx.state, InterpreterState::Return));
}

#[test]
fn break_terminates_only_the_loop_whose_label_matches() {
    let mut ctx = Context::new();
    let mut inner = Loop::new(Node::Break(Some("inner".to_string())));
    inner.set_label("inner".to_string());
    let body = Node::Block(vec![
        Node::Loop(inner),
        Node::Capture("witness".to_string()),
        Node::Break(Some("outer".to_string())),
    ]);
    let mut outer = Loop::new(body);
    outer.set_label("outer".to_string());
    let r = outer.run(&mut ctx);
    assert!(r.is_ok());
    // the inner break was consumed by the inner loop alone: the outer loop
    // went on to run the statement after it
    assert_eq!(ctx.captures.len(), 1);
    assert!(matches!(ctx.state, InterpreterState::Executing));
}

#[test]
fn break_with_a_foreign_label_propagates_unconsumed() {
    let mut ctx = Context::new();
    let mut inner = Loop::new(Node::Break(Some("outer".to_string())));
    inner.set_label("inner".to_string());
    let body = Node::Block(vec![Node::Loop(inner), Node::Capture("witness".to_string())]);
    let mut outer = Loop::new(body);
    outer.set_label("outer".to_string());
    let r = outer.run(&mut ctx);
    assert!(r.is_ok());
    // the break was addressed to the outer loop: the inner loop stopped
    // without consuming it and the following statement never ran
    assert_eq!(ctx.captures.len(), 0);
    assert!(matches!(ctx.state, InterpreterState::Executing));
}

#[test]
fn unlabelled_break_stops_the_innermost_loop() {
    let mut ctx = Context::new();
    let inner = Loop::new(Node::Block(vec![
        Node::Capture("first".to_string()),
        Node::Break(None),
    ]));
    let body = Node::Block(vec![Node::Loop(inner), Node::Break(None)]);
    let outer = Loop::new(body);
    outer.run(&mut ctx).unwrap();
    assert_eq!(ctx.captures.len(), 1);
    assert!(matches!(ctx.state, InterpreterState::Executing));
}

#[test]
fn return_stops_an_unconditional_loop_at_once() {
    let mut ctx = Context::new();
    let lp = Loop::new(Node::Return(Box::new(Node::Const(Value::Integer(11)))));
    let r = lp.run(&mut ctx).unwrap();
    assert_eq!(r, Value::Integer(11));
    assert!(matches!(ctx.state, InterpreterState::Return));
}

#[test]
fn an_unconditional_loop_spends_the_step_budget() {
    let mut ctx = Context::new();
    ctx.fuel = 10;
    let lp = Loop::new(Node::Const(Value::Undefined));
    let r = lp.run(&mut ctx);
    assert_eq!(r, Err(InterpreterError::Exhausted));
}

#[test]
fn assignment_to_a_constant_binding_is_a_type_error() {
    let mut ctx = Context::new();
    Node::ConstDeclList(vec![Declaration {
        name: "k".to_string(),
        init: Some(Box::new(Node::Const(Value::Integer(5)))),
    }])
        .run(&mut ctx)
        .unwrap();
    let r = Node::Assign("k".to_string(), Box::new(Node::Const(Value::Integer(6)))).run(&mut ctx);
    assert!(matches!(r, Err(InterpreterError::Type(_))));
    assert_eq!(
        Node::Identifier("k".to_string()).run(&mut ctx).unwrap(),
        Value::Integer(5)
    );
}

#[test]
fn reading_an_undeclared_name_is_a_reference_error() {
    let mut ctx = Context::new();
    let r = Node::Identifier("ghostly".to_string()).run(&mut ctx);
    assert!(matches!(r, Err(InterpreterError::Reference(_))));
}

#[test]
fn block_scoped_bindings_do_not_leak_out_of_their_block() {
    let mut ctx = Context::new();
    let block = Node::Block(vec![Node::LetDeclList(vec![Declaration {
        name: "inner_only".to_string(),
        init: Some(Box::new(Node::Const(Value::Integer(1)))),
    }])]);
    block.run(&mut ctx).unwrap();
    let r = Node::Identifier("inner_only".to_string()).run(&mut ctx);
    assert!(matches!(r, Err(InterpreterError::Reference(_))));
}

#[test]
fn var_in_a_block_lands_in_the_enclosing_function_scope() {
    let mut ctx = Context::new();
    let block = Node::Block(vec![Node::VarDeclList(vec![Declaration {
        name: "hoisted".to_string(),
        init: Some(Box::new(Node::Const(Value::Integer(4)))),
    }])]);
    block.run(&mut ctx).unwrap();
    assert_eq!(
        Node::Identifier("hoisted".to_string()).run(&mut ctx).unwrap(),
        Value::Integer(4)
    );
}

#[test]
fn continue_in_for_body_skips_the_rest_of_the_pass() {
    let mut ctx = Context::new();
    let id = ctx.add_object(ints(&[1, 2, 3]));
    let body = Node::Block(vec![Node::Continue(None), Node::Capture("x".to_string())]);
    let fl = ForLoop::new(let_head("x"), Node::Const(Value::Object(id)), body);
    let r = fl.run(&mut ctx);
    assert!(r.is_ok());
    // every pass continued before the capture statement
    assert_eq!(ctx.captures.len(), 0);
    assert!(matches!(ctx.state, InterpreterState::Executing));
}

#[test]
fn continue_with_outer_label_keeps_the_outer_loop_running() {
    let mut ctx = Context::new();
    ctx.fuel = 5;
    let inner_body = Node::Block(vec![
        Node::Capture("inner_pass".to_string()),
        Node::Continue(Some("outer".to_string())),
    ]);
    let mut inner = Loop::new(inner_body);
    inner.set_label("inner".to_string());
    let outer_body = Node::Block(vec![
        Node::Capture("outer_pass".to_string()),
        Node::Loop(inner),
        Node::Capture("after_inner".to_string()),
    ]);
    let mut outer = Loop::new(outer_body);
    outer.set_label("outer".to_string());
    let r = outer.run(&mut ctx);
    // the inner loop stops without consuming the continue, the statement
    // after it never runs, and the outer loop starts another pass each
    // time until the step budget runs out
    assert_eq!(r, Err(InterpreterError::Exhausted));
    assert_eq!(ctx.captures.len(), 5);
}

#[test]
fn every_value_category_travels_through_the_iterator_intact() {
    let mut ctx = Context::new();
    let elems = vec![
        Value::Undefined,
        Value::Null,
        Value::Boolean(true),
        Value::Integer(-3),
        Value::Rational((2.5f64).to_bits()),
        Value::BigInt(boa_core::bigint::BigInt::from_i64(1234567890123)),
        Value::Str("hello".to_string()),
        Value::Object(42),
    ];
    let expected: Vec<Value> = elems.iter().map(|v| v.duplicate()).collect();
    let id = ctx.add_object(elems);
    let fl = ForLoop::new(
        let_head("v"),
        Node::Const(Value::Object(id)),
        Node::Capture("v".to_string()),
    );
    fl.run(&mut ctx).unwrap();
    assert_eq!(ctx.captures.len(), expected.len());
    for (i, want) in expected.iter().enumerate() {
        assert_eq!(ctx.read_capture(i).as_ref(), Some(want));
    }
}

#[test]
fn bare_continue_body_runs_every_iteration_to_completion() {
    let mut ctx = Context::new();
    let id = ctx.add_object(ints(&[1, 2, 3]));
    let fl = ForLoop::new(let_head("x"), Node::Const(Value::Object(id)), Node::Continue(None));
    let r = fl.run(&mut ctx).unwrap();
    assert_eq!(r, Value::Undefined);
    assert!(matches!(ctx.state, InterpreterState::Executing));
}

#[test]
fn self_addressed_continue_spins_until_the_budget_ends() {
    let mut ctx = Context::new();
    ctx.fuel = 7;
    let lp = Loop::new(Node::Continue(None));
    let r = lp.run(&mut ctx);
    assert_eq!(r, Err(InterpreterError::Exhausted));
    assert_eq!(ctx.fuel, 0);
}

#[test]
fn a_named_iterable_behaves_like_the_object_it_resolves_to() {
    let mut ctx = Context::new();
    let id = ctx.add_object(ints(&[4, 5]));
    Node::LetDeclList(vec![Declaration {
        name: "seq".to_string(),
        init: Some(Box::new(Node::Const(Value::Object(id)))),
    }])
        .run(&mut ctx)
        .unwrap();
    let fl = ForLoop::new(
        let_head("x"),
        Node::Identifier("seq".to_string()),
        Node::Capture("x".to_string()),
    );
    fl.run(&mut ctx).unwrap();
    assert_eq!(ctx.read_capture(0), Some(Value::Integer(4)));
    assert_eq!(ctx.read_capture(1), Some(Value::Integer(5)));
}

#[test]
fn two_variable_head_errors_over_a_named_iterable_too() {
    let mut ctx = Context::new();
    let id = ctx.add_object(ints(&[1]));
    Node::LetDeclList(vec![Declaration {
        name: "seq".to_string(),
        init: Some(Box::new(Node::Const(Value::Object(id)))),
    }])
        .run(&mut ctx)
        .unwrap();
    let head = Node::LetDeclList(vec![decl("a"), decl("b")]);
    let fl = ForLoop::new(
        head,
        Node::Identifier("seq".to_string()),
        Node::Capture("a".to_string()),
    );
    let r = fl.run(&mut ctx);
    assert!(matches!(r, Err(InterpreterError::Syntax(_))));
}

#[test]
fn an_unbound_iterable_name_is_a_reference_error() {
    let mut ctx = Context::new();
    let fl = ForLoop::new(
        let_head("x"),
        Node::Identifier("nowhere".to_string()),
        Node::Capture("x".to_string()),
    );
    let r = fl.run(&mut ctx);
    assert!(matches!(r, Err(InterpreterError::Reference(_))));
}

#[test]
fn var_head_creates_a_function_scoped_binding_holding_the_last_element() {
    let mut ctx = Context::new();
    let id = ctx.add_object(ints(&[8, 9]));
    let fl = ForLoop::new(
        Node::VarDeclList(vec![decl("v")]),
        Node::Const(Value::Object(id)),
        Node::Const(Value::Undefined),
    );
    fl.run(&mut ctx).unwrap();
    // the binding outlives the loop: var declares in the function scope
    assert_eq!(
        Node::Identifier("v".to_string()).run(&mut ctx).unwrap(),
        Value::Integer(9)
    );
}

#[test]
fn identifier_head_declares_the_name_when_it_was_absent() {
    let mut ctx = Context::new();
    let id = ctx.add_object(ints(&[1, 2, 3]));
    let fl = ForLoop::new(
        Node::Identifier("fresh".to_string()),
        Node::Const(Value::Object(id)),
        Node::Const(Value::Undefined),
    );
    fl.run(&mut ctx).unwrap();
    assert_eq!(
        Node::Identifier("fresh".to_string()).run(&mut ctx).unwrap(),
        Value::Integer(3)
    );
}

#[test]
fn a_body_error_propagates_out_of_a_for_loop() {
    let mut ctx = Context::new();
    let id = ctx.add_object(ints(&[1, 2]));
    let fl = ForLoop::new(
        let_head("x"),
        Node::Const(Value::Object(id)),
        Node::Identifier("missing".to_string()),
    );
    let r = fl.run(&mut ctx);
    assert!(matches!(r, Err(InterpreterError::Reference(_))));
    assert!(matches!(ctx.state, InterpreterState::Executing));
}

#[test]
fn a_body_error_propagates_out_of_an_unconditional_loop() {
    let mut ctx = Context::new();
    let lp = Loop::new(Node::Identifier("missing".to_string()));
    let r = lp.run(&mut ctx);
    assert!(matches!(r, Err(InterpreterError::Reference(_))));
}

#[test]
fn a_loop_forwards_the_value_of_a_returned_name() {
    let mut ctx = Context::new();
    Node::LetDeclList(vec![Declaration {
        name: "answer".to_string(),
        init: Some(Box::new(Node::Const(Value::Integer(41)))),
    }])
        .run(&mut ctx)
        .unwrap();
    let lp = Loop::new(Node::Return(Box::new(Node::Identifier("answer".to_string()))));
    let r = lp.run(&mut ctx).unwrap();
    assert_eq!(r, Value::Integer(41));
    assert!(matches!(ctx.state, InterpreterState::Return));
}
