use noddy::ast::{new_empty_node, Node, NodeKind};
use noddy::context::Context;
use noddy::errors::Error;
use noddy::binder::parse;
use noddy::syntax::{SyntaxKind, SyntaxNode};

fn leaf(kind: SyntaxKind, text: &str) -> SyntaxNode {
    SyntaxNode { kind, text: text.to_string(), children: Vec::new() }
}

fn branch(kind: SyntaxKind, children: Vec<SyntaxNode>) -> SyntaxNode {
    SyntaxNode { kind, text: String::new(), children }
}

fn fresh() -> (Node, Context) {
    (new_empty_node(NodeKind::Root), Context::new())
}

/// `graph G { a -- b }` as the binder sees it from the syntax stream.
fn graph_with_edge(graph: &str, from: &str, to: &str) -> SyntaxNode {
    branch(
        SyntaxKind::GraphDefinition,
        vec![
            leaf(SyntaxKind::Graphname, graph),
            branch(
                SyntaxKind::Edges,
                vec![branch(
                    SyntaxKind::EdgeDefinition,
                    vec![branch(
                        SyntaxKind::Edge,
                        vec![leaf(SyntaxKind::Nodename, from), leaf(SyntaxKind::Nodename, to)],
                    )],
                )],
            ),
        ],
    )
}

fn assignment(target: &str, value: SyntaxNode) -> SyntaxNode {
    branch(
        SyntaxKind::Assignment,
        vec![
            branch(SyntaxKind::NodeAccess, vec![leaf(SyntaxKind::Nodename, target)]),
            branch(SyntaxKind::Value, vec![value]),
        ],
    )
}

#[test]
fn scenario_edge_then_assignments() {
    // graph G { a -- b; a = 5; b = a }
    let mut g = graph_with_edge("G", "a", "b");
    g.children.push(assignment("a", leaf(SyntaxKind::Number, "5")));
    g.children.push(assignment(
        "b",
        branch(SyntaxKind::NodeAccess, vec![leaf(SyntaxKind::Nodename, "a")]),
    ));
    let program = branch(SyntaxKind::Program, vec![branch(SyntaxKind::Statement, vec![g])]);
    let (mut root, mut ctx) = fresh();
    let r = parse(&program, &mut root, &mut ctx);
    assert!(r.is_ok());
    let slot_a = ctx.slot_of(&"G".to_string(), &"a".to_string()).unwrap();
    let slot_b = ctx.slot_of(&"G".to_string(), &"b".to_string()).unwrap();
    assert_eq!(ctx.variables[slot_a as usize], 5);
    assert_eq!(ctx.variables[slot_b as usize], 5);
    assert_eq!(ctx.edges, vec![(slot_a, slot_b)]);
}

#[test]
fn scenario_undeclared_graph_reference() {
    // a graph name referenced outside any definition header
    let program = branch(
        SyntaxKind::Program,
        vec![branch(SyntaxKind::Statement, vec![leaf(SyntaxKind::Graphname, "H")])],
    );
    let (mut root, mut ctx) = fresh();
    let r = parse(&program, &mut root, &mut ctx);
    assert_eq!(r, Err(Error::UndeclaredGraphReference));
}

#[test]
fn scenario_same_name_two_graphs() {
    // G1 and G2 each declare a node named x through an edge definition
    let program = branch(
        SyntaxKind::Program,
        vec![graph_with_edge("G1", "x", "x"), graph_with_edge("G2", "x", "x")],
    );
    let (mut root, mut ctx) = fresh();
    let r = parse(&program, &mut root, &mut ctx);
    assert!(r.is_ok());
    assert_eq!(ctx.variables.len(), 2);
    let s1 = ctx.slot_of(&"G1".to_string(), &"x".to_string()).unwrap();
    let s2 = ctx.slot_of(&"G2".to_string(), &"x".to_string()).unwrap();
    assert_ne!(s1, s2);
}

#[test]
fn scenario_invalid_assignment_rhs() {
    // the right-hand side resolves to neither a number nor a node
    let mut g = graph_with_edge("G", "a", "a");
    g.children.push(branch(
        SyntaxKind::Assignment,
        vec![
            branch(SyntaxKind::NodeAccess, vec![leaf(SyntaxKind::Nodename, "a")]),
            assignment("a", leaf(SyntaxKind::Number, "1")),
        ],
    ));
    let program = branch(SyntaxKind::Program, vec![g]);
    let (mut root, mut ctx) = fresh();
    let r = parse(&program, &mut root, &mut ctx);
    assert_eq!(r, Err(Error::InvalidAssignmentRhs));
}

#[test]
fn undeclared_node_in_assignment() {
    // assigning to a name never declared by any edge definition
    let mut g = graph_with_edge("G", "a", "b");
    g.children.push(assignment("c", leaf(SyntaxKind::Number, "3")));
    let program = branch(SyntaxKind::Program, vec![g]);
    let (mut root, mut ctx) = fresh();
    let r = parse(&program, &mut root, &mut ctx);
    assert_eq!(r, Err(Error::UndeclaredNodeReference));
}

#[test]
fn node_reference_without_graph() {
    let program = branch(SyntaxKind::Program, vec![leaf(SyntaxKind::Nodename, "a")]);
    let (mut root, mut ctx) = fresh();
    let r = parse(&program, &mut root, &mut ctx);
    assert_eq!(r, Err(Error::GraphContextMissing));
}

#[test]
fn edge_definition_needs_graph_parent() {
    let program = branch(
        SyntaxKind::Program,
        vec![branch(
            SyntaxKind::EdgeDefinition,
            vec![leaf(SyntaxKind::Nodename, "a"), leaf(SyntaxKind::Nodename, "b")],
        )],
    );
    let (mut root, mut ctx) = fresh();
    let r = parse(&program, &mut root, &mut ctx);
    assert_eq!(r, Err(Error::StructuralInvariantViolation));
}

#[test]
fn malformed_number_literal_aborts() {
    let mut g = graph_with_edge("G", "a", "a");
    g.children.push(assignment("a", leaf(SyntaxKind::Number, "5x")));
    let program = branch(SyntaxKind::Program, vec![g]);
    let (mut root, mut ctx) = fresh();
    let r = parse(&program, &mut root, &mut ctx);
    assert_eq!(r, Err(Error::MalformedNumberLiteral));
}

#[test]
fn overflowing_number_literal_aborts() {
    let mut g = graph_with_edge("G", "a", "a");
    g.children.push(assignment("a", leaf(SyntaxKind::Number, "2147483648")));
    let program = branch(SyntaxKind::Program, vec![g]);
    let (mut root, mut ctx) = fresh();
    let r = parse(&program, &mut root, &mut ctx);
    assert_eq!(r, Err(Error::MalformedNumberLiteral));
}

#[test]
fn connect_records_edge_without_ast_node() {
    // a -- b declared, then a connect statement from b to a
    let mut g = graph_with_edge("G", "a", "b");
    g.children.push(branch(
        SyntaxKind::Connect,
        vec![
            branch(SyntaxKind::NodeAccess, vec![leaf(SyntaxKind::Nodename, "b")]),
            branch(SyntaxKind::NodeAccess, vec![leaf(SyntaxKind::Nodename, "a")]),
        ],
    ));
    let program = branch(SyntaxKind::Program, vec![g]);
    let (mut root, mut ctx) = fresh();
    let r = parse(&program, &mut root, &mut ctx);
    assert!(r.is_ok());
    assert_eq!(ctx.edges, vec![(0, 1), (1, 0)]);
    // the connection leaves no node behind: the graph definition keeps
    // only the edge definition as a child
    assert_eq!(root.children.len(), 1);
    assert_eq!(root.children[0].children.len(), 1);
    assert_eq!(root.children[0].children[0].kind, NodeKind::EdgeDefinition);
}

#[test]
fn connect_requires_declared_nodes() {
    let mut g = graph_with_edge("G", "a", "a");
    g.children.push(branch(
        SyntaxKind::Connect,
        vec![
            branch(SyntaxKind::NodeAccess, vec![leaf(SyntaxKind::Nodename, "a")]),
            branch(SyntaxKind::NodeAccess, vec![leaf(SyntaxKind::Nodename, "z")]),
        ],
    ));
    let program = branch(SyntaxKind::Program, vec![g]);
    let (mut root, mut ctx) = fresh();
    let r = parse(&program, &mut root, &mut ctx);
    assert_eq!(r, Err(Error::UndeclaredNodeReference));
}

#[test]
fn shortest_path_and_whitespace_are_ignored() {
    let program = branch(
        SyntaxKind::Program,
        vec![
            leaf(SyntaxKind::Whitespace, " "),
            leaf(SyntaxKind::ShortestPath, ""),
            graph_with_edge("G", "a", "b"),
            leaf(SyntaxKind::EndOfInput, ""),
        ],
    );
    let (mut root, mut ctx) = fresh();
    let r = parse(&program, &mut root, &mut ctx);
    assert!(r.is_ok());
    assert_eq!(ctx.variables.len(), 2);
    assert_eq!(root.children.len(), 1);
}

#[test]
fn duplicate_edges_and_self_loops_are_kept() {
    let mut g = graph_with_edge("G", "a", "a");
    g.children[1].children.push(branch(
        SyntaxKind::EdgeDefinition,
        vec![branch(
            SyntaxKind::Edge,
            vec![leaf(SyntaxKind::Nodename, "a"), leaf(SyntaxKind::Nodename, "a")],
        )],
    ));
    let program = branch(SyntaxKind::Program, vec![g]);
    let (mut root, mut ctx) = fresh();
    let r = parse(&program, &mut root, &mut ctx);
    assert!(r.is_ok());
    assert_eq!(ctx.variables.len(), 1);
    assert_eq!(ctx.edges, vec![(0, 0), (0, 0)]);
}

#[test]
fn assignment_copies_value_not_link() {
    // b = a, then a changes: b keeps the value it copied
    let mut g = graph_with_edge("G", "a", "b");
    g.children.push(assignment("a", leaf(SyntaxKind::Number, "5")));
    g.children.push(assignment(
        "b",
        branch(SyntaxKind::NodeAccess, vec![leaf(SyntaxKind::Nodename, "a")]),
    ));
    g.children.push(assignment("a", leaf(SyntaxKind::Number, "9")));
    let program = branch(SyntaxKind::Program, vec![g]);
    let (mut root, mut ctx) = fresh();
    let r = parse(&program, &mut root, &mut ctx);
    assert!(r.is_ok());
    let slot_a = ctx.slot_of(&"G".to_string(), &"a".to_string()).unwrap();
    let slot_b = ctx.slot_of(&"G".to_string(), &"b".to_string()).unwrap();
    assert_eq!(ctx.variables[slot_a as usize], 9);
    assert_eq!(ctx.variables[slot_b as usize], 5);
}

#[test]
fn reselecting_a_graph_keeps_its_table() {
    // G declares a; H declares a; G again references its own a
    let mut g2 = branch(
        SyntaxKind::GraphDefinition,
        vec![leaf(SyntaxKind::Graphname, "G")],
    );
    g2.children.push(assignment("a", leaf(SyntaxKind::Number, "7")));
    let program = branch(
        SyntaxKind::Program,
        vec![graph_with_edge("G", "a", "a"), graph_with_edge("H", "a", "a"), g2],
    );
    let (mut root, mut ctx) = fresh();
    let r = parse(&program, &mut root, &mut ctx);
    assert!(r.is_ok());
    assert_eq!(ctx.variables.len(), 2);
    let slot_ga = ctx.slot_of(&"G".to_string(), &"a".to_string()).unwrap();
    assert_eq!(ctx.variables[slot_ga as usize], 7);
}
