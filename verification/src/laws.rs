use vstd::prelude::*;

use crate::ast::{empty_ast, AstModel, NodeKind};
use crate::binder::{node_ref_step, push_child, run, step};
use crate::context::{
    binding_of, ctx_monotone, ctx_wf, key_idx, lemma_key_idx_from, lemma_key_idx_from_push,
    lemma_key_idx_from_same_keys, slot_limit, CtxModel, TableModel,
};
use crate::errors::Error;
use crate::syntax::{SynModel, SyntaxKind};

verus! {

/// Slot uniqueness: in a well-formed context, two distinct (graph, name)
/// pairs are never bound to the same variable slot.
pub proof fn lemma_slot_uniqueness(
    c: CtxModel,
    g1: Seq<char>,
    n1: Seq<char>,
    g2: Seq<char>,
    n2: Seq<char>,
)
    requires
        ctx_wf(c),
        binding_of(c, g1, n1) is Some,
        binding_of(c, g2, n2) is Some,
        !(g1 == g2 && n1 == n2),
    ensures
        binding_of(c, g1, n1) != binding_of(c, g2, n2),
{
    let gi1 = key_idx(c.graphs, g1);
    let gi2 = key_idx(c.graphs, g2);
    lemma_key_idx_from(c.graphs, g1, 0);
    lemma_key_idx_from(c.graphs, g2, 0);
    let t1 = c.graphs[gi1].1;
    let t2 = c.graphs[gi2].1;
    let si1 = key_idx(t1.symbols, n1);
    let si2 = key_idx(t2.symbols, n2);
    lemma_key_idx_from(t1.symbols, n1, 0);
    lemma_key_idx_from(t2.symbols, n2, 0);
    if gi1 == gi2 && si1 == si2 {
        assert(g1 == c.graphs[gi1].0 && g2 == c.graphs[gi2].0);
        assert(n1 == t1.symbols[si1].0 && n2 == t2.symbols[si2].0);
        assert(false);
    }
    assert(c.graphs[gi1].1.symbols[si1].1 != c.graphs[gi2].1.symbols[si2].1);
}

/// Slot stability: a binding, once made, resolves to the same slot for the
/// rest of the run. `parse` guarantees `ctx_monotone` between the context it
/// was given and the context it leaves behind.
pub proof fn lemma_binding_persists(a: CtxModel, b: CtxModel, g: Seq<char>, n: Seq<char>)
    requires
        ctx_monotone(a, b),
        binding_of(a, g, n) is Some,
    ensures
        binding_of(b, g, n) == binding_of(a, g, n),
{
}

/// Edge validity: in a well-formed context every recorded edge's endpoints
/// are valid indices into the variable store. `parse` keeps the context
/// well-formed and only appends to the edge list while the store only grows,
/// so an edge is valid when it is recorded and still valid at the end of the
/// run.
pub proof fn lemma_edge_validity(c: CtxModel, i: int)
    requires
        ctx_wf(c),
        0 <= i < c.edges.len(),
    ensures
        0 <= c.edges[i].0 < c.variables.len(),
        0 <= c.edges[i].1 < c.variables.len(),
{
}

/// Declaration before use: a node name referenced in a non-declaring context
/// (its parent is not an edge definition) before any declaration in the
/// active graph aborts the walk with an undeclared-node-reference error, and
/// changes nothing.
pub proof fn lemma_declaration_before_use(r: SynModel, node: AstModel, c: CtxModel)
    requires
        ctx_wf(c),
        c.graph is Some,
        r.kind == SyntaxKind::Nodename,
        node.kind != NodeKind::EdgeDefinition,
        binding_of(c, c.graph->0, r.text) is None,
    ensures
        node_ref_step(r, node, c) == (node, c, Some(Error::UndeclaredNodeReference)),
        step(r, node, c) == (node, c, Some(Error::UndeclaredNodeReference)),
{
    lemma_key_idx_from(c.graphs, c.graph->0, 0);
}

/// Implicit declaration via edges: a previously unseen node name standing
/// directly under an edge definition is declared: the walk succeeds, exactly
/// one zeroed slot is appended, and the name is bound to it.
pub proof fn lemma_implicit_declaration(r: SynModel, node: AstModel, c: CtxModel)
    requires
        ctx_wf(c),
        c.graph is Some,
        r.kind == SyntaxKind::Nodename,
        node.kind == NodeKind::EdgeDefinition,
        binding_of(c, c.graph->0, r.text) is None,
        c.variables.len() < slot_limit(),
    ensures
        node_ref_step(r, node, c).2 is None,
        node_ref_step(r, node, c).1.variables == c.variables.push(0),
        binding_of(node_ref_step(r, node, c).1, c.graph->0, r.text) == Some(
            c.variables.len() as int,
        ),
        node_ref_step(r, node, c).0 == push_child(
            node,
            (AstModel {
                kind: NodeKind::Node,
                load: c.variables.len() as int,
                children: Seq::empty(),
            }),
        ),
{
    let g = c.graph->0;
    let gi = key_idx(c.graphs, g);
    lemma_key_idx_from(c.graphs, g, 0);
    let t = c.graphs[gi].1;
    lemma_key_idx_from(t.symbols, r.text, 0);
    let slot = c.variables.len() as int;
    let t1 = TableModel { symbols: t.symbols.push((r.text, slot)) };
    let gs = c.graphs.update(gi, (g, t1));
    let c1 = node_ref_step(r, node, c).1;
    lemma_key_idx_from_same_keys::<TableModel, TableModel>(gs, c.graphs, g, 0);
    lemma_key_idx_from_push(t.symbols, r.text, 0, (r.text, slot));
    assert(key_idx(c1.graphs, g) == gi);
    assert(key_idx(c1.graphs[gi].1.symbols, r.text) == t.symbols.len());
}

/// Assignment semantics: when the walk of an assignment's children succeeds
/// and yields a node target and a literal or node source, the target slot is
/// overwritten — with the literal's value, or with the source node's value
/// as it stands at that moment. Nothing else in the store changes, and no
/// link between the slots remains.
pub proof fn lemma_assignment_semantics(r: SynModel, node: AstModel, c: CtxModel)
    requires
        r.kind == SyntaxKind::Assignment,
        run(r.children, empty_ast(NodeKind::Assignment), c).2 is None,
        run(r.children, empty_ast(NodeKind::Assignment), c).0.children.len() >= 2,
        run(r.children, empty_ast(NodeKind::Assignment), c).0.children[0].kind == NodeKind::Node,
        run(r.children, empty_ast(NodeKind::Assignment), c).0.children[1].kind == NodeKind::Number
            || run(r.children, empty_ast(NodeKind::Assignment), c).0.children[1].kind
            == NodeKind::Node,
    ensures
        ({
            let sub = run(r.children, empty_ast(NodeKind::Assignment), c);
            let target = sub.0.children[0].load;
            let value = if sub.0.children[1].kind == NodeKind::Number {
                sub.0.children[1].load
            } else {
                sub.1.variables[sub.0.children[1].load]
            };
            step(r, node, c) == (
                push_child(node, sub.0),
                (CtxModel { variables: sub.1.variables.update(target, value), ..sub.1 }),
                None::<Error>,
            )
        }),
{
}

} // verus!
