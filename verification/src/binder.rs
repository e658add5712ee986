use vstd::prelude::*;

use crate::ast::{
    empty_ast, lemma_ast_seq_view, lemma_ast_seq_view_push, lemma_node_wf_mono,
    lemma_nodes_wf_index, lemma_nodes_wf_push, new_empty_node, node_wf, AstModel, Node, NodeKind,
};
use crate::context::{
    ctx_monotone, ctx_wf, key_idx, lemma_ctx_monotone_refl, lemma_ctx_monotone_trans,
    lemma_key_idx_from, slot_limit, Context, CtxModel, TableModel,
};
use crate::errors::Error;
use crate::numbers::{number_text_val, number_text_wf, parse_number_literal};
use crate::syntax::{lemma_syn_seq_view, SynModel, SyntaxKind, SyntaxNode};

verus! {

/// The productions that the walk recurses through without creating an
/// abstract-syntax-tree node of their own.
pub open spec fn pass_through(k: SyntaxKind) -> bool {
    ||| k == SyntaxKind::Program
    ||| k == SyntaxKind::Statement
    ||| k == SyntaxKind::Edges
    ||| k == SyntaxKind::Value
    ||| k == SyntaxKind::NodeAccess
    ||| k == SyntaxKind::Edge
}

/// The productions on which the walk does nothing at all: layout, the end
/// marker, and the recognized-but-unimplemented shortest-path statement.
pub open spec fn ignored(k: SyntaxKind) -> bool {
    ||| k == SyntaxKind::Whitespace
    ||| k == SyntaxKind::EndOfInput
    ||| k == SyntaxKind::ShortestPath
}

/// The parent node with one more child attached.
pub open spec fn push_child(n: AstModel, c: AstModel) -> AstModel {
    AstModel { kind: n.kind, load: n.load, children: n.children.push(c) }
}

/// The error that a result carries, if any.
pub open spec fn err_of(r: Result<(), Error>) -> Option<Error> {
    match r {
        Ok(_) => None,
        Err(e) => Some(e),
    }
}

/// What a graph-name occurrence does: under a graph-definition header it
/// declares (or re-selects) the graph; anywhere else it must refer to a graph
/// that already exists. In all successful cases it makes the graph current.
pub open spec fn graph_ref_step(name: Seq<char>, node: AstModel, ctx: CtxModel) -> (
    AstModel,
    CtxModel,
    Option<Error>,
) {
    let gi = key_idx(ctx.graphs, name);
    if node.kind != NodeKind::GraphDefinition && gi == -1 {
        (node, ctx, Some(Error::UndeclaredGraphReference))
    } else {
        (
            node,
            CtxModel {
                graph: Some(name),
                graphs: if gi == -1 {
                    ctx.graphs.push((name, TableModel { symbols: Seq::empty() }))
                } else {
                    ctx.graphs
                },
                ..ctx
            },
            None,
        )
    }
}

/// What a node-name occurrence does: with no active graph it fails; a known
/// name resolves to its slot; an unknown name is implicitly declared with a
/// fresh zeroed slot when the occurrence stands directly under an edge
/// definition, and is an undeclared reference otherwise. A resolved name
/// appends a `Node` abstract-syntax-tree child carrying the slot.
pub open spec fn node_ref_step(r: SynModel, node: AstModel, ctx: CtxModel) -> (
    AstModel,
    CtxModel,
    Option<Error>,
) {
    if ctx.graph is None {
        (node, ctx, Some(Error::GraphContextMissing))
    } else if !(r.kind == SyntaxKind::Nodename || r.kind == SyntaxKind::Graphname) {
        (node, ctx, Some(Error::StructuralInvariantViolation))
    } else {
        let g = ctx.graph->0;
        let gi = key_idx(ctx.graphs, g);
        let t = ctx.graphs[gi].1;
        let si = key_idx(t.symbols, r.text);
        if si != -1 {
            (
                push_child(
                    node,
                    AstModel { kind: NodeKind::Node, load: t.symbols[si].1, children: Seq::empty() },
                ),
                ctx,
                None,
            )
        } else if node.kind != NodeKind::EdgeDefinition {
            (node, ctx, Some(Error::UndeclaredNodeReference))
        } else if ctx.variables.len() >= slot_limit() {
            (node, ctx, Some(Error::TooManyNodes))
        } else {
            (
                push_child(
                    node,
                    AstModel {
                        kind: NodeKind::Node,
                        load: ctx.variables.len() as int,
                        children: Seq::empty(),
                    },
                ),
                CtxModel {
                    graphs: ctx.graphs.update(
                        gi,
                        (g, TableModel {
                            symbols: t.symbols.push((r.text, ctx.variables.len() as int)),
                        }),
                    ),
                    variables: ctx.variables.push(0),
                    ..ctx
                },
                None,
            )
        }
    }
}

/// The meaning of one syntax node, visited with `node` as the current
/// abstract-syntax-tree parent and `ctx` as the binding context: the parent
/// and the context afterwards, and the error that aborted the walk, if any.
///
/// A connect statement records its edge but its transient `Connection` node
/// is not attached to any parent — deliberately asymmetric with an edge
/// definition, whose node both persists and records its edge.
pub open spec fn step(r: SynModel, node: AstModel, ctx: CtxModel) -> (
    AstModel,
    CtxModel,
    Option<Error>,
)
    decreases r, 1int,
{
    if pass_through(r.kind) {
        run(r.children, node, ctx)
    } else if ignored(r.kind) {
        (node, ctx, None)
    } else if r.kind == SyntaxKind::GraphDefinition {
        let sub = run(r.children, empty_ast(NodeKind::GraphDefinition), ctx);
        if sub.2 is Some {
            (node, sub.1, sub.2)
        } else if node.kind != NodeKind::Root {
            (node, sub.1, Some(Error::StructuralInvariantViolation))
        } else {
            (push_child(node, sub.0), sub.1, None)
        }
    } else if r.kind == SyntaxKind::EdgeDefinition {
        if node.kind != NodeKind::GraphDefinition {
            (node, ctx, Some(Error::StructuralInvariantViolation))
        } else {
            let sub = run(r.children, empty_ast(NodeKind::EdgeDefinition), ctx);
            if sub.2 is Some {
                (node, sub.1, sub.2)
            } else if sub.0.children.len() < 2 || sub.0.children[0].kind != NodeKind::Node
                || sub.0.children[1].kind != NodeKind::Node {
                (node, sub.1, Some(Error::StructuralInvariantViolation))
            } else {
                (
                    push_child(node, sub.0),
                    CtxModel {
                        edges: sub.1.edges.push(
                            (sub.0.children[0].load, sub.0.children[1].load),
                        ),
                        ..sub.1
                    },
                    None,
                )
            }
        }
    } else if r.kind == SyntaxKind::Assignment {
        let sub = run(r.children, empty_ast(NodeKind::Assignment), ctx);
        if sub.2 is Some {
            (node, sub.1, sub.2)
        } else if sub.0.children.len() < 2 {
            (node, sub.1, Some(Error::StructuralInvariantViolation))
        } else {
            let lhs = sub.0.children[0];
            let rhs = sub.0.children[1];
            if rhs.kind != NodeKind::Number && rhs.kind != NodeKind::Node {
                (node, sub.1, Some(Error::InvalidAssignmentRhs))
            } else if lhs.kind != NodeKind::Node {
                (node, sub.1, Some(Error::StructuralInvariantViolation))
            } else {
                let value = if rhs.kind == NodeKind::Number {
                    rhs.load
                } else {
                    sub.1.variables[rhs.load]
                };
                (
                    push_child(node, sub.0),
                    CtxModel { variables: sub.1.variables.update(lhs.load, value), ..sub.1 },
                    None,
                )
            }
        }
    } else if r.kind == SyntaxKind::Connect {
        let sub = run(r.children, empty_ast(NodeKind::Connection), ctx);
        if sub.2 is Some {
            (node, sub.1, sub.2)
        } else if sub.0.children.len() < 2 || sub.0.children[0].kind != NodeKind::Node
            || sub.0.children[1].kind != NodeKind::Node {
            (node, sub.1, Some(Error::StructuralInvariantViolation))
        } else {
            (
                node,
                CtxModel {
                    edges: sub.1.edges.push((sub.0.children[0].load, sub.0.children[1].load)),
                    ..sub.1
                },
                None,
            )
        }
    } else if r.kind == SyntaxKind::Number {
        if number_text_wf(r.text) && -0x8000_0000 <= number_text_val(r.text) <= 0x7fff_ffff {
            (
                push_child(
                    node,
                    AstModel {
                        kind: NodeKind::Number,
                        load: number_text_val(r.text),
                        children: Seq::empty(),
                    },
                ),
                ctx,
                None,
            )
        } else {
            (node, ctx, Some(Error::MalformedNumberLiteral))
        }
    } else if r.kind == SyntaxKind::Nodename {
        node_ref_step(r, node, ctx)
    } else {
        graph_ref_step(r.text, node, ctx)
    }
}

/// The meaning of a sequence of sibling syntax nodes, visited left to right;
/// the first error stops the walk.
pub open spec fn run(rs: Seq<SynModel>, node: AstModel, ctx: CtxModel) -> (
    AstModel,
    CtxModel,
    Option<Error>,
)
    decreases rs, 0int,
{
    if rs.len() == 0 {
        (node, ctx, None)
    } else {
        let head = run(rs.drop_last(), node, ctx);
        if head.2 is Some {
            head
        } else {
            step(rs.last(), head.0, head.1)
        }
    }
}

/// What one visiting call does: its state change and result are exactly
/// `step` on the visited node.
pub open spec fn step_post(
    r: SynModel,
    n0: AstModel,
    c0: CtxModel,
    n1: AstModel,
    c1: CtxModel,
    res: Result<(), Error>,
) -> bool {
    step(r, n0, c0) == (n1, c1, err_of(res))
}

/// What `parse` does: its state change and result are exactly `run` on the
/// children of the visited node.
pub open spec fn parse_post(
    rule: SynModel,
    n0: AstModel,
    c0: CtxModel,
    n1: AstModel,
    c1: CtxModel,
    res: Result<(), Error>,
) -> bool {
    run(rule.children, n0, c0) == (n1, c1, err_of(res))
}

proof fn lemma_run_step_prefix(rs: Seq<SynModel>, i: int, node: AstModel, ctx: CtxModel)
    requires
        0 <= i < rs.len(),
        run(rs.take(i), node, ctx).2 is None,
    ensures
        run(rs.take(i + 1), node, ctx) == step(
            rs[i],
            run(rs.take(i), node, ctx).0,
            run(rs.take(i), node, ctx).1,
        ),
{
    assert(rs.take(i + 1).drop_last() =~= rs.take(i));
    assert(rs.take(i + 1).last() == rs[i]);
}

proof fn lemma_run_error_absorbs(rs: Seq<SynModel>, node: AstModel, ctx: CtxModel, i: int)
    requires
        0 <= i <= rs.len(),
        run(rs.take(i), node, ctx).2 is Some,
    ensures
        run(rs, node, ctx) == run(rs.take(i), node, ctx),
    decreases rs.len() - i,
{
    if i == rs.len() {
        assert(rs.take(i) =~= rs);
    } else {
        assert(rs.take(i + 1).drop_last() =~= rs.take(i));
        assert(run(rs.take(i + 1), node, ctx) == run(rs.take(i), node, ctx));
        lemma_run_error_absorbs(rs, node, ctx, i + 1);
    }
}

/// Visits one graph-name occurrence, as `graph_ref_step` says: a declaration
/// under a definition header, a checked reference elsewhere.
pub fn parse_graph_reference(rule: &SyntaxNode, node: &mut Node, context: &mut Context) -> (r:
    Result<(), Error>)
    requires
        ctx_wf(old(context)@),
        node_wf(old(node)@, old(context)@.variables.len() as int),
    ensures
        graph_ref_step(rule@.text, old(node)@, old(context)@) == (
            final(node)@,
            final(context)@,
            err_of(r),
        ),
        ctx_wf(final(context)@),
        node_wf(final(node)@, final(context)@.variables.len() as int),
        ctx_monotone(old(context)@, final(context)@),
{
    let is_header = node.kind == NodeKind::GraphDefinition;
    if !is_header && !context.contains_graph(&rule.text) {
        proof {
            lemma_ctx_monotone_refl(context@);
        }
        return Err(Error::UndeclaredGraphReference);
    }
    context.declare_or_select_graph(&rule.text);
    Ok(())
}

/// Visits one node-name occurrence, as `node_ref_step` says: resolution or
/// implicit declaration in the active graph, and a new `Node` child under the
/// current parent.
pub fn parse_node_reference(rule: &SyntaxNode, node: &mut Node, context: &mut Context) -> (r:
    Result<(), Error>)
    requires
        ctx_wf(old(context)@),
        node_wf(old(node)@, old(context)@.variables.len() as int),
    ensures
        node_ref_step(rule@, old(node)@, old(context)@) == (
            final(node)@,
            final(context)@,
            err_of(r),
        ),
        ctx_wf(final(context)@),
        node_wf(final(node)@, final(context)@.variables.len() as int),
        ctx_monotone(old(context)@, final(context)@),
{
    let ghost c0 = context@;
    let ghost n0 = node@;
    if context.graph.is_none() {
        proof {
            lemma_ctx_monotone_refl(context@);
        }
        return Err(Error::GraphContextMissing);
    }
    if !(rule.kind == SyntaxKind::Nodename || rule.kind == SyntaxKind::Graphname) {
        proof {
            lemma_ctx_monotone_refl(context@);
        }
        return Err(Error::StructuralInvariantViolation);
    }
    let mut node_node = new_empty_node(NodeKind::Node);
    let declare = node.kind == NodeKind::EdgeDefinition;
    let res = context.resolve_or_declare_node(&rule.text, declare);
    match res {
        Err(e) => {
            return Err(e);
        },
        Ok(slot) => {
            proof {
                let g = c0.graph->0;
                lemma_key_idx_from(c0.graphs, g, 0);
                let gi = key_idx(c0.graphs, g);
                let t = c0.graphs[gi].1;
                lemma_key_idx_from(t.symbols, rule@.text, 0);
            }
            node_node.load = slot;
            proof {
                lemma_node_wf_mono(n0, c0.variables.len() as int, context@.variables.len() as int);
                lemma_nodes_wf_push(n0.children, node_node@, context@.variables.len() as int);
                lemma_ast_seq_view_push(node.children@, node_node);
            }
            node.children.push(node_node);
            Ok(())
        },
    }
}

/// Visits one edge definition: it may stand only under a graph definition;
/// its two node occurrences are implicit declarations, and their slots are
/// recorded as an edge.
pub fn parse_edge_definition(rule: &SyntaxNode, node: &mut Node, context: &mut Context) -> (r:
    Result<(), Error>)
    requires
        rule@.kind == SyntaxKind::EdgeDefinition,
        ctx_wf(old(context)@),
        node_wf(old(node)@, old(context)@.variables.len() as int),
    ensures
        step_post(rule@, old(node)@, old(context)@, final(node)@, final(context)@, r),
        ctx_wf(final(context)@),
        node_wf(final(node)@, final(context)@.variables.len() as int),
        ctx_monotone(old(context)@, final(context)@),
    decreases rule, 1int,
{
    let ghost c0 = context@;
    let ghost n0 = node@;
    if node.kind != NodeKind::GraphDefinition {
        proof {
            lemma_ctx_monotone_refl(context@);
        }
        return Err(Error::StructuralInvariantViolation);
    }
    let mut edge_definition_node = new_empty_node(NodeKind::EdgeDefinition);
    let res = parse(rule, &mut edge_definition_node, context);
    proof {
        lemma_node_wf_mono(n0, c0.variables.len() as int, context@.variables.len() as int);
        lemma_ast_seq_view(edge_definition_node.children@);
    }
    match res {
        Err(e) => {
            return Err(e);
        },
        Ok(()) => {},
    }
    if edge_definition_node.children.len() < 2 {
        return Err(Error::StructuralInvariantViolation);
    }
    proof {
        lemma_nodes_wf_index(edge_definition_node@.children, context@.variables.len() as int, 0);
        lemma_nodes_wf_index(edge_definition_node@.children, context@.variables.len() as int, 1);
    }
    if edge_definition_node.children[0].kind != NodeKind::Node
        || edge_definition_node.children[1].kind != NodeKind::Node {
        return Err(Error::StructuralInvariantViolation);
    }
    let from = edge_definition_node.children[0].load;
    let to = edge_definition_node.children[1].load;
    let ghost c_mid = context@;
    context.record_edge(from, to);
    proof {
        lemma_node_wf_mono(n0, c0.variables.len() as int, context@.variables.len() as int);
        lemma_nodes_wf_push(n0.children, edge_definition_node@, context@.variables.len() as int);
        lemma_ast_seq_view_push(node.children@, edge_definition_node);
        lemma_ctx_monotone_trans(c0, c_mid, context@);
    }
    node.children.push(edge_definition_node);
    Ok(())
}

/// Visits one graph definition: builds its subtree (declaring the graph and
/// binding its nodes on the way), then attaches it under the root.
pub fn parse_graph_definition(rule: &SyntaxNode, node: &mut Node, context: &mut Context) -> (r:
    Result<(), Error>)
    requires
        rule@.kind == SyntaxKind::GraphDefinition,
        ctx_wf(old(context)@),
        node_wf(old(node)@, old(context)@.variables.len() as int),
    ensures
        step_post(rule@, old(node)@, old(context)@, final(node)@, final(context)@, r),
        ctx_wf(final(context)@),
        node_wf(final(node)@, final(context)@.variables.len() as int),
        ctx_monotone(old(context)@, final(context)@),
    decreases rule, 1int,
{
    let ghost c0 = context@;
    let ghost n0 = node@;
    let mut graph_definition_node = new_empty_node(NodeKind::GraphDefinition);
    let res = parse(rule, &mut graph_definition_node, context);
    proof {
        lemma_node_wf_mono(n0, c0.variables.len() as int, context@.variables.len() as int);
    }
    match res {
        Err(e) => {
            return Err(e);
        },
        Ok(()) => {},
    }
    if node.kind != NodeKind::Root {
        return Err(Error::StructuralInvariantViolation);
    }
    proof {
        lemma_node_wf_mono(n0, c0.variables.len() as int, context@.variables.len() as int);
        lemma_nodes_wf_push(n0.children, graph_definition_node@, context@.variables.len() as int);
        lemma_ast_seq_view_push(node.children@, graph_definition_node);
    }
    node.children.push(graph_definition_node);
    Ok(())
}

/// The single recursive walk: visits every child of `rule` in source order,
/// building the abstract syntax tree under `node` and binding names into
/// `context` as `run` says, aborting at the first error.
#[verifier::loop_isolation(false)]
pub fn parse(rule: &SyntaxNode, node: &mut Node, context: &mut Context) -> (r: Result<(), Error>)
    requires
        ctx_wf(old(context)@),
        node_wf(old(node)@, old(context)@.variables.len() as int),
    ensures
        parse_post(rule@, old(node)@, old(context)@, final(node)@, final(context)@, r),
        ctx_wf(final(context)@),
        node_wf(final(node)@, final(context)@.variables.len() as int),
        ctx_monotone(old(context)@, final(context)@),
    decreases rule, 0int,
{
    let ghost rs = rule@.children;
    let ghost n0 = node@;
    let ghost c0 = context@;
    proof {
        lemma_syn_seq_view(rule.children@);
        assert(rs.take(0) =~= Seq::<SynModel>::empty());
    }
    let n_children = rule.children.len();
    let mut i: usize = 0;
    while i < n_children
        invariant
            i <= n_children,
            run(rs.take(i as int), n0, c0) == (node@, context@, None::<Error>),
            ctx_wf(context@),
            node_wf(node@, context@.variables.len() as int),
            ctx_monotone(c0, context@),
        decreases n_children - i,
    {
        let record = &rule.children[i];
        proof {
            assert(record@ == rs[i as int]);
        }
        let ghost n_pre = node@;
        let ghost c_pre = context@;
        match record.kind {
            SyntaxKind::GraphDefinition => {
                let res = parse_graph_definition(record, node, context);
                proof {
                    lemma_run_step_prefix(rs, i as int, n0, c0);
                    lemma_ctx_monotone_trans(c0, c_pre, context@);
                }
                match res {
                    Err(e) => {
                        proof {
                            lemma_run_error_absorbs(rs, n0, c0, i as int + 1);
                        }
                        return Err(e);
                    },
                    Ok(()) => {},
                }
            },
            SyntaxKind::EndOfInput => {
                proof {
                    lemma_run_step_prefix(rs, i as int, n0, c0);
                }
            },
            SyntaxKind::Program => {
                let res = parse(record, node, context);
                proof {
                    lemma_run_step_prefix(rs, i as int, n0, c0);
                    lemma_ctx_monotone_trans(c0, c_pre, context@);
                }
                match res {
                    Err(e) => {
                        proof {
                            lemma_run_error_absorbs(rs, n0, c0, i as int + 1);
                        }
                        return Err(e);
                    },
                    Ok(()) => {},
                }
            },
            SyntaxKind::Statement => {
                let res = parse(record, node, context);
                proof {
                    lemma_run_step_prefix(rs, i as int, n0, c0);
                    lemma_ctx_monotone_trans(c0, c_pre, context@);
                }
                match res {
                    Err(e) => {
                        proof {
                            lemma_run_error_absorbs(rs, n0, c0, i as int + 1);
                        }
                        return Err(e);
                    },
                    Ok(()) => {},
                }
            },
            SyntaxKind::Edges => {
                let res = parse(record, node, context);
                proof {
                    lemma_run_step_prefix(rs, i as int, n0, c0);
                    lemma_ctx_monotone_trans(c0, c_pre, context@);
                }
                match res {
                    Err(e) => {
                        proof {
                            lemma_run_error_absorbs(rs, n0, c0, i as int + 1);
                        }
                        return Err(e);
                    },
                    Ok(()) => {},
                }
            },
            SyntaxKind::EdgeDefinition => {
                let res = parse_edge_definition(record, node, context);
                proof {
                    lemma_run_step_prefix(rs, i as int, n0, c0);
                    lemma_ctx_monotone_trans(c0, c_pre, context@);
                }
                match res {
                    Err(e) => {
                        proof {
                            lemma_run_error_absorbs(rs, n0, c0, i as int + 1);
                        }
                        return Err(e);
                    },
                    Ok(()) => {},
                }
            },
            SyntaxKind::Assignment => {
                let mut assignment_node = new_empty_node(NodeKind::Assignment);
                let res = parse(record, &mut assignment_node, context);
                proof {
                    lemma_run_step_prefix(rs, i as int, n0, c0);
                    lemma_ctx_monotone_trans(c0, c_pre, context@);
                    lemma_node_wf_mono(
                        n_pre,
                        c_pre.variables.len() as int,
                        context@.variables.len() as int,
                    );
                    lemma_ast_seq_view(assignment_node.children@);
                }
                match res {
                    Err(e) => {
                        proof {
                            lemma_run_error_absorbs(rs, n0, c0, i as int + 1);
                        }
                        return Err(e);
                    },
                    Ok(()) => {},
                }
                if assignment_node.children.len() < 2 {
                    proof {
                        lemma_run_error_absorbs(rs, n0, c0, i as int + 1);
                    }
                    return Err(Error::StructuralInvariantViolation);
                }
                proof {
                    lemma_nodes_wf_index(
                        assignment_node@.children,
                        context@.variables.len() as int,
                        0,
                    );
                    lemma_nodes_wf_index(
                        assignment_node@.children,
                        context@.variables.len() as int,
                        1,
                    );
                }
                let rhs_kind = assignment_node.children[1].kind;
                let right: i32;
                if rhs_kind == NodeKind::Number {
                    right = assignment_node.children[1].load;
                } else if rhs_kind == NodeKind::Node {
                    right = context.get_variable(assignment_node.children[1].load);
                } else {
                    proof {
                        lemma_run_error_absorbs(rs, n0, c0, i as int + 1);
                    }
                    return Err(Error::InvalidAssignmentRhs);
                }
                if assignment_node.children[0].kind != NodeKind::Node {
                    proof {
                        lemma_run_error_absorbs(rs, n0, c0, i as int + 1);
                    }
                    return Err(Error::StructuralInvariantViolation);
                }
                let ghost c_mid = context@;
                context.set_variable(assignment_node.children[0].load, right);
                proof {
                    lemma_node_wf_mono(
                        n_pre,
                        c_pre.variables.len() as int,
                        context@.variables.len() as int,
                    );
                    lemma_nodes_wf_push(
                        n_pre.children,
                        assignment_node@,
                        context@.variables.len() as int,
                    );
                    lemma_ast_seq_view_push(node.children@, assignment_node);
                    lemma_ctx_monotone_trans(c_pre, c_mid, context@);
                    lemma_ctx_monotone_trans(c0, c_pre, context@);
                }
                node.children.push(assignment_node);
            },
            SyntaxKind::Connect => {
                let mut connection_node = new_empty_node(NodeKind::Connection);
                let res = parse(record, &mut connection_node, context);
                proof {
                    lemma_run_step_prefix(rs, i as int, n0, c0);
                    lemma_ctx_monotone_trans(c0, c_pre, context@);
                    lemma_node_wf_mono(
                        n_pre,
                        c_pre.variables.len() as int,
                        context@.variables.len() as int,
                    );
                    lemma_ast_seq_view(connection_node.children@);
                }
                match res {
                    Err(e) => {
                        proof {
                            lemma_run_error_absorbs(rs, n0, c0, i as int + 1);
                        }
                        return Err(e);
                    },
                    Ok(()) => {},
                }
                if connection_node.children.len() < 2 {
                    proof {
                        lemma_run_error_absorbs(rs, n0, c0, i as int + 1);
                    }
                    return Err(Error::StructuralInvariantViolation);
                }
                proof {
                    lemma_nodes_wf_index(
                        connection_node@.children,
                        context@.variables.len() as int,
                        0,
                    );
                    lemma_nodes_wf_index(
                        connection_node@.children,
                        context@.variables.len() as int,
                        1,
                    );
                }
                if connection_node.children[0].kind != NodeKind::Node
                    || connection_node.children[1].kind != NodeKind::Node {
                    proof {
                        lemma_run_error_absorbs(rs, n0, c0, i as int + 1);
                    }
                    return Err(Error::StructuralInvariantViolation);
                }
                let left = connection_node.children[0].load;
                let right = connection_node.children[1].load;
                let ghost c_mid = context@;
                context.record_edge(left, right);
                proof {
                    lemma_node_wf_mono(
                        n_pre,
                        c_pre.variables.len() as int,
                        context@.variables.len() as int,
                    );
                    lemma_ctx_monotone_trans(c_pre, c_mid, context@);
                    lemma_ctx_monotone_trans(c0, c_pre, context@);
                }
            },
            SyntaxKind::ShortestPath => {
                proof {
                    lemma_run_step_prefix(rs, i as int, n0, c0);
                }
            },
            SyntaxKind::Value => {
                let res = parse(record, node, context);
                proof {
                    lemma_run_step_prefix(rs, i as int, n0, c0);
                    lemma_ctx_monotone_trans(c0, c_pre, context@);
                }
                match res {
                    Err(e) => {
                        proof {
                            lemma_run_error_absorbs(rs, n0, c0, i as int + 1);
                        }
                        return Err(e);
                    },
                    Ok(()) => {},
                }
            },
            SyntaxKind::Number => {
                let mut number_node = new_empty_node(NodeKind::Number);
                let res = parse_number_literal(record.text.as_str());
                proof {
                    lemma_run_step_prefix(rs, i as int, n0, c0);
                }
                match res {
                    Err(e) => {
                        proof {
                            lemma_run_error_absorbs(rs, n0, c0, i as int + 1);
                        }
                        return Err(e);
                    },
                    Ok(v) => {
                        number_node.load = v;
                        proof {
                            lemma_nodes_wf_push(
                                n_pre.children,
                                number_node@,
                                context@.variables.len() as int,
                            );
                            lemma_ast_seq_view_push(node.children@, number_node);
                        }
                        node.children.push(number_node);
                    },
                }
            },
            SyntaxKind::NodeAccess => {
                let res = parse(record, node, context);
                proof {
                    lemma_run_step_prefix(rs, i as int, n0, c0);
                    lemma_ctx_monotone_trans(c0, c_pre, context@);
                }
                match res {
                    Err(e) => {
                        proof {
                            lemma_run_error_absorbs(rs, n0, c0, i as int + 1);
                        }
                        return Err(e);
                    },
                    Ok(()) => {},
                }
            },
            SyntaxKind::Edge => {
                let res = parse(record, node, context);
                proof {
                    lemma_run_step_prefix(rs, i as int, n0, c0);
                    lemma_ctx_monotone_trans(c0, c_pre, context@);
                }
                match res {
                    Err(e) => {
                        proof {
                            lemma_run_error_absorbs(rs, n0, c0, i as int + 1);
                        }
                        return Err(e);
                    },
                    Ok(()) => {},
                }
            },
            SyntaxKind::Nodename => {
                let res = parse_node_reference(record, node, context);
                proof {
                    lemma_run_step_prefix(rs, i as int, n0, c0);
                    lemma_ctx_monotone_trans(c0, c_pre, context@);
                }
                match res {
                    Err(e) => {
                        proof {
                            lemma_run_error_absorbs(rs, n0, c0, i as int + 1);
                        }
                        return Err(e);
                    },
                    Ok(()) => {},
                }
            },
            SyntaxKind::Graphname => {
                let res = parse_graph_reference(record, node, context);
                proof {
                    lemma_run_step_prefix(rs, i as int, n0, c0);
                    lemma_ctx_monotone_trans(c0, c_pre, context@);
                }
                match res {
                    Err(e) => {
                        proof {
                            lemma_run_error_absorbs(rs, n0, c0, i as int + 1);
                        }
                        return Err(e);
                    },
                    Ok(()) => {},
                }
            },
            SyntaxKind::Whitespace => {
                proof {
                    lemma_run_step_prefix(rs, i as int, n0, c0);
                }
            },
        }
        i += 1;
    }
    proof {
        assert(rs.take(n_children as int) =~= rs);
    }
    Ok(())
}

} // verus!
