use vstd::prelude::*;

verus! {

/// One variant per grammar production of the language. The walk dispatches
/// on this tag; `Whitespace` and `EndOfInput` are ignorable, `ShortestPath`
/// is recognized but carries no semantic action yet.
#[derive(Clone, Copy, PartialEq, Eq, Structural, Debug)]
pub enum SyntaxKind {
    Program,
    Statement,
    GraphDefinition,
    Edges,
    EdgeDefinition,
    Edge,
    Connect,
    Assignment,
    Value,
    NodeAccess,
    Nodename,
    Graphname,
    Number,
    ShortestPath,
    Whitespace,
    EndOfInput,
}

/// One typed node of the syntax tree handed to the binder: its production,
/// the source text it spans (meaningful for names and number literals), and
/// its sub-productions in source order.
pub struct SyntaxNode {
    pub kind: SyntaxKind,
    pub text: String,
    pub children: Vec<SyntaxNode>,
}

/// The mathematical model of a syntax node.
#[verifier::ext_equal]
pub struct SynModel {
    pub kind: SyntaxKind,
    pub text: Seq<char>,
    pub children: Seq<SynModel>,
}

pub open spec fn syn_view(n: SyntaxNode) -> SynModel
    decreases n, 1int,
{
    SynModel { kind: n.kind, text: n.text@, children: syn_seq_view(n.children@) }
}

pub open spec fn syn_seq_view(s: Seq<SyntaxNode>) -> Seq<SynModel>
    decreases s, 0int,
{
    if s.len() == 0 {
        Seq::empty()
    } else {
        syn_seq_view(s.drop_last()).push(syn_view(s.last()))
    }
}

impl View for SyntaxNode {
    type V = SynModel;

    open spec fn view(&self) -> SynModel {
        syn_view(*self)
    }
}

pub proof fn lemma_syn_seq_view(s: Seq<SyntaxNode>)
    ensures
        syn_seq_view(s).len() == s.len(),
        forall|i: int| 0 <= i < s.len() ==> syn_seq_view(s)[i] == syn_view(s[i]),
    decreases s,
{
    if s.len() > 0 {
        lemma_syn_seq_view(s.drop_last());
    }
}

} // verus!
