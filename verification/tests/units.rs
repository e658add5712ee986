use noddy::ast::{new_empty_node, NodeKind};
use noddy::context::Context;
use noddy::errors::Error;
use noddy::numbers::parse_number_literal;

#[test]
fn empty_node_is_empty() {
    let n = new_empty_node(NodeKind::Root);
    assert_eq!(n.kind, NodeKind::Root);
    assert_eq!(n.load, 0);
    assert!(n.children.is_empty());
}

#[test]
fn number_literals_parse() {
    assert_eq!(parse_number_literal("5"), Ok(5));
    assert_eq!(parse_number_literal("0"), Ok(0));
    assert_eq!(parse_number_literal("-12"), Ok(-12));
    assert_eq!(parse_number_literal("+7"), Ok(7));
    assert_eq!(parse_number_literal("007"), Ok(7));
    assert_eq!(parse_number_literal("2147483647"), Ok(2147483647));
    assert_eq!(parse_number_literal("-2147483648"), Ok(-2147483648));
}

#[test]
fn number_literals_reject_garbage_and_overflow() {
    assert_eq!(parse_number_literal(""), Err(Error::MalformedNumberLiteral));
    assert_eq!(parse_number_literal("-"), Err(Error::MalformedNumberLiteral));
    assert_eq!(parse_number_literal("+"), Err(Error::MalformedNumberLiteral));
    assert_eq!(parse_number_literal("12a"), Err(Error::MalformedNumberLiteral));
    assert_eq!(parse_number_literal("a12"), Err(Error::MalformedNumberLiteral));
    assert_eq!(parse_number_literal("1 2"), Err(Error::MalformedNumberLiteral));
    assert_eq!(parse_number_literal("2147483648"), Err(Error::MalformedNumberLiteral));
    assert_eq!(parse_number_literal("-2147483649"), Err(Error::MalformedNumberLiteral));
    assert_eq!(parse_number_literal("99999999999999999999"), Err(Error::MalformedNumberLiteral));
}

#[test]
fn context_binding_operations() {
    let mut c = Context::new();
    assert!(!c.contains_graph(&"G".to_string()));
    c.declare_or_select_graph(&"G".to_string());
    assert!(c.contains_graph(&"G".to_string()));

    // a fresh name in a declaring position takes the next slot
    assert_eq!(c.resolve_or_declare_node(&"x".to_string(), true), Ok(0));
    // resolving it again, declaring or not, gives the same slot
    assert_eq!(c.resolve_or_declare_node(&"x".to_string(), true), Ok(0));
    assert_eq!(c.resolve_or_declare_node(&"x".to_string(), false), Ok(0));
    assert_eq!(c.variables.len(), 1);
    // a fresh name in a non-declaring position is an error
    assert_eq!(
        c.resolve_or_declare_node(&"y".to_string(), false),
        Err(Error::UndeclaredNodeReference)
    );

    c.set_variable(0, 42);
    assert_eq!(c.get_variable(0), 42);
    c.record_edge(0, 0);
    assert_eq!(c.edges, vec![(0, 0)]);

    assert_eq!(c.slot_of(&"G".to_string(), &"x".to_string()), Some(0));
    assert_eq!(c.slot_of(&"G".to_string(), &"y".to_string()), None);
    assert_eq!(c.slot_of(&"H".to_string(), &"x".to_string()), None);
}

#[test]
fn resolve_without_active_graph_fails() {
    let mut c = Context::new();
    assert_eq!(
        c.resolve_or_declare_node(&"x".to_string(), true),
        Err(Error::GraphContextMissing)
    );
}
