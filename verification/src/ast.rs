use vstd::prelude::*;

verus! {

/// The kind tag of an abstract-syntax-tree node. The `load` payload of a node
/// is interpreted according to its kind: for `Node` it is the resolved
/// variable-slot index, for `Number` it is the literal value, and for the
/// structural kinds it is unused and stays zero.
#[derive(Clone, Copy, PartialEq, Eq, Structural, Debug)]
pub enum NodeKind {
    Root,
    GraphDefinition,
    EdgeDefinition,
    Node,
    Assignment,
    Number,
    Connection,
}

/// One node of the abstract syntax tree built during the walk. A parent
/// exclusively owns its children, so the tree is never cyclic.
pub struct Node {
    pub kind: NodeKind,
    pub load: i32,
    pub children: Vec<Node>,
}

/// The mathematical model of an abstract-syntax-tree node.
#[verifier::ext_equal]
pub struct AstModel {
    pub kind: NodeKind,
    pub load: int,
    pub children: Seq<AstModel>,
}

pub open spec fn ast_view(n: Node) -> AstModel
    decreases n, 1int,
{
    AstModel { kind: n.kind, load: n.load as int, children: ast_seq_view(n.children@) }
}

pub open spec fn ast_seq_view(s: Seq<Node>) -> Seq<AstModel>
    decreases s, 0int,
{
    if s.len() == 0 {
        Seq::empty()
    } else {
        ast_seq_view(s.drop_last()).push(ast_view(s.last()))
    }
}

impl View for Node {
    type V = AstModel;

    open spec fn view(&self) -> AstModel {
        ast_view(*self)
    }
}

/// An abstract-syntax-tree node with no children and a zeroed payload.
pub open spec fn empty_ast(kind: NodeKind) -> AstModel {
    AstModel { kind, load: 0, children: Seq::empty() }
}

/// Creates an empty abstract-syntax-tree node of the given kind, ready to be
/// populated by the walk.
pub fn new_empty_node(kind: NodeKind) -> (n: Node)
    ensures
        n@ == empty_ast(kind),
{
    Node { kind, load: 0, children: Vec::new() }
}

pub proof fn lemma_ast_seq_view(s: Seq<Node>)
    ensures
        ast_seq_view(s).len() == s.len(),
        forall|i: int| 0 <= i < s.len() ==> ast_seq_view(s)[i] == ast_view(s[i]),
    decreases s,
{
    if s.len() > 0 {
        lemma_ast_seq_view(s.drop_last());
    }
}

pub proof fn lemma_ast_seq_view_push(s: Seq<Node>, x: Node)
    ensures
        ast_seq_view(s.push(x)) == ast_seq_view(s).push(ast_view(x)),
{
    assert(s.push(x).drop_last() =~= s);
    assert(s.push(x).last() == x);
}

/// Load validity of one node: a `Node`-kind payload must be a slot index into
/// a variable store of length `nvars`, and the same must hold in the subtree.
pub open spec fn node_wf(n: AstModel, nvars: int) -> bool
    decreases n, 1int,
{
    &&& (n.kind == NodeKind::Node ==> 0 <= n.load < nvars)
    &&& nodes_wf(n.children, nvars)
}

pub open spec fn nodes_wf(s: Seq<AstModel>, nvars: int) -> bool
    decreases s, 0int,
{
    if s.len() == 0 {
        true
    } else {
        nodes_wf(s.drop_last(), nvars) && node_wf(s.last(), nvars)
    }
}

/// A valid tree stays valid when the variable store grows.
pub proof fn lemma_node_wf_mono(n: AstModel, a: int, b: int)
    requires
        node_wf(n, a),
        a <= b,
    ensures
        node_wf(n, b),
    decreases n, 1int,
{
    lemma_nodes_wf_mono(n.children, a, b);
}

pub proof fn lemma_nodes_wf_mono(s: Seq<AstModel>, a: int, b: int)
    requires
        nodes_wf(s, a),
        a <= b,
    ensures
        nodes_wf(s, b),
    decreases s, 0int,
{
    if s.len() > 0 {
        lemma_nodes_wf_mono(s.drop_last(), a, b);
        lemma_node_wf_mono(s.last(), a, b);
    }
}

pub proof fn lemma_nodes_wf_push(s: Seq<AstModel>, x: AstModel, nvars: int)
    ensures
        nodes_wf(s.push(x), nvars) <==> (nodes_wf(s, nvars) && node_wf(x, nvars)),
{
    assert(s.push(x).drop_last() =~= s);
    assert(s.push(x).last() == x);
}

pub proof fn lemma_nodes_wf_index(s: Seq<AstModel>, nvars: int, i: int)
    requires
        nodes_wf(s, nvars),
        0 <= i < s.len(),
    ensures
        node_wf(s[i], nvars),
    decreases s,
{
    if i < s.len() - 1 {
        lemma_nodes_wf_index(s.drop_last(), nvars, i);
    }
}

} // verus!
