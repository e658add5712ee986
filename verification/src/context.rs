use vstd::prelude::*;
use vstd::pervasive::unreached;

use crate::errors::Error;

verus! {

/// The largest number of variable slots that can exist: slot indices are
/// 32-bit signed integers.
pub open spec fn slot_limit() -> int {
    0x7fff_ffff
}

/// A per-graph symbol table: node name to variable-slot index, in insertion
/// order, with unique names.
pub struct NodeTable {
    pub symbols: Vec<(String, i32)>,
}

/// The mathematical model of a symbol table.
#[verifier::ext_equal]
pub struct TableModel {
    pub symbols: Seq<(Seq<char>, int)>,
}

pub open spec fn symbols_model(s: Seq<(String, i32)>) -> Seq<(Seq<char>, int)> {
    Seq::new(s.len(), |i: int| (s[i].0@, s[i].1 as int))
}

impl View for NodeTable {
    type V = TableModel;

    open spec fn view(&self) -> TableModel {
        TableModel { symbols: symbols_model(self.symbols@) }
    }
}

/// The mutable state accumulated during the single walk: the active graph,
/// the per-graph symbol tables, the flat variable store shared by all graphs,
/// and the edge list.
pub struct Context {
    pub graph: Option<String>,
    pub graphs: Vec<(String, NodeTable)>,
    pub variables: Vec<i32>,
    pub edges: Vec<(i32, i32)>,
}

/// The mathematical model of a binding context.
#[verifier::ext_equal]
pub struct CtxModel {
    pub graph: Option<Seq<char>>,
    pub graphs: Seq<(Seq<char>, TableModel)>,
    pub variables: Seq<int>,
    pub edges: Seq<(int, int)>,
}

pub open spec fn graphs_model(s: Seq<(String, NodeTable)>) -> Seq<(Seq<char>, TableModel)> {
    Seq::new(s.len(), |i: int| (s[i].0@, s[i].1@))
}

pub open spec fn variables_model(s: Seq<i32>) -> Seq<int> {
    Seq::new(s.len(), |i: int| s[i] as int)
}

pub open spec fn edges_model(s: Seq<(i32, i32)>) -> Seq<(int, int)> {
    Seq::new(s.len(), |i: int| (s[i].0 as int, s[i].1 as int))
}

impl View for Context {
    type V = CtxModel;

    open spec fn view(&self) -> CtxModel {
        CtxModel {
            graph: match self.graph {
                Some(g) => Some(g@),
                None => None,
            },
            graphs: graphs_model(self.graphs@),
            variables: variables_model(self.variables@),
            edges: edges_model(self.edges@),
        }
    }
}

/// The index of the first entry keyed `name` at position `i` or later, or -1
/// if there is none.
pub open spec fn key_idx_from<T>(s: Seq<(Seq<char>, T)>, name: Seq<char>, i: int) -> int
    decreases s.len() - i,
{
    if !(0 <= i < s.len()) {
        -1
    } else if s[i].0 == name {
        i
    } else {
        key_idx_from(s, name, i + 1)
    }
}

/// The index of the entry keyed `name`, or -1 if there is none.
pub open spec fn key_idx<T>(s: Seq<(Seq<char>, T)>, name: Seq<char>) -> int {
    key_idx_from(s, name, 0)
}

pub proof fn lemma_key_idx_from<T>(s: Seq<(Seq<char>, T)>, name: Seq<char>, i: int)
    requires
        0 <= i <= s.len(),
    ensures
        key_idx_from(s, name, i) == -1 ==> forall|j: int|
            i <= j < s.len() ==> (#[trigger] s[j]).0 != name,
        key_idx_from(s, name, i) != -1 ==> i <= key_idx_from(s, name, i) < s.len()
            && s[key_idx_from(s, name, i)].0 == name,
    decreases s.len() - i,
{
    if i < s.len() && s[i].0 != name {
        lemma_key_idx_from(s, name, i + 1);
    }
}

/// Two sequences with the same keys in the same order give the same lookup
/// indices.
pub proof fn lemma_key_idx_from_same_keys<T, U>(
    s1: Seq<(Seq<char>, T)>,
    s2: Seq<(Seq<char>, U)>,
    name: Seq<char>,
    i: int,
)
    requires
        s1.len() == s2.len(),
        forall|j: int| 0 <= j < s1.len() ==> (#[trigger] s1[j]).0 == s2[j].0,
    ensures
        key_idx_from(s1, name, i) == key_idx_from(s2, name, i),
    decreases s1.len() - i,
{
    if 0 <= i < s1.len() && s1[i].0 != name {
        lemma_key_idx_from_same_keys(s1, s2, name, i + 1);
    }
}

/// Appending an entry does not disturb the lookup of keys already present,
/// and resolves an absent key to the new entry.
pub proof fn lemma_key_idx_from_push<T>(
    s: Seq<(Seq<char>, T)>,
    name: Seq<char>,
    i: int,
    entry: (Seq<char>, T),
)
    requires
        0 <= i <= s.len(),
    ensures
        key_idx_from(s, name, i) != -1 ==> key_idx_from(s.push(entry), name, i)
            == key_idx_from(s, name, i),
        key_idx_from(s, name, i) == -1 && entry.0 == name ==> key_idx_from(
            s.push(entry),
            name,
            i,
        ) == s.len(),
        key_idx_from(s, name, i) == -1 && entry.0 != name ==> key_idx_from(
            s.push(entry),
            name,
            i,
        ) == -1,
    decreases s.len() - i,
{
    if i < s.len() && s[i].0 != name {
        lemma_key_idx_from_push(s, name, i + 1, entry);
    } else if i == s.len() {
        assert(key_idx_from(s.push(entry), name, s.len() as int + 1) == -1);
    }
}

/// All keys of the sequence are pairwise distinct.
pub open spec fn keys_distinct<T>(s: Seq<(Seq<char>, T)>) -> bool {
    forall|i: int, j: int|
        0 <= i < j < s.len() ==> (#[trigger] s[i]).0 != (#[trigger] s[j]).0
}

/// Every slot of the table is a valid index into a variable store of length
/// `nvars`, and node names are unique within the table.
pub open spec fn table_wf(t: TableModel, nvars: int) -> bool {
    &&& keys_distinct(t.symbols)
    &&& forall|i: int| 0 <= i < t.symbols.len() ==> 0 <= (#[trigger] t.symbols[i]).1 < nvars
}

/// No two (graph, name) pairs are bound to the same slot.
pub open spec fn slots_injective(gs: Seq<(Seq<char>, TableModel)>) -> bool {
    forall|a: int, i: int, b: int, j: int|
        #![trigger gs[a].1.symbols[i], gs[b].1.symbols[j]]
        0 <= a < gs.len() && 0 <= b < gs.len() && 0 <= i < gs[a].1.symbols.len() && 0 <= j
            < gs[b].1.symbols.len() && (a != b || i != j) ==> gs[a].1.symbols[i].1
            != gs[b].1.symbols[j].1
}

/// The invariant of the binding context, true between any two grammar-node
/// visits: graph names are unique, every bound slot and every recorded edge
/// endpoint is a valid index into the variable store, distinct (graph, name)
/// pairs own distinct slots, the active graph (if any) is declared, and the
/// store has room to be indexed by 32-bit slots.
pub open spec fn ctx_wf(c: CtxModel) -> bool {
    &&& keys_distinct(c.graphs)
    &&& forall|i: int|
        0 <= i < c.graphs.len() ==> table_wf((#[trigger] c.graphs[i]).1, c.variables.len() as int)
    &&& forall|i: int|
        0 <= i < c.edges.len() ==> 0 <= (#[trigger] c.edges[i]).0 < c.variables.len() && 0
            <= c.edges[i].1 < c.variables.len()
    &&& match c.graph {
        Some(g) => key_idx(c.graphs, g) != -1,
        None => true,
    }
    &&& c.variables.len() <= slot_limit()
    &&& slots_injective(c.graphs)
}

/// The slot that the pair (graph, name) is bound to, if any.
pub open spec fn binding_of(c: CtxModel, graph: Seq<char>, name: Seq<char>) -> Option<int> {
    let gi = key_idx(c.graphs, graph);
    if gi == -1 {
        None
    } else {
        let si = key_idx(c.graphs[gi].1.symbols, name);
        if si == -1 {
            None
        } else {
            Some(c.graphs[gi].1.symbols[si].1)
        }
    }
}

/// What any step of the walk may do to the context: the variable store never
/// shrinks, recorded edges stay where they are, and a binding once made never
/// changes.
pub open spec fn ctx_monotone(a: CtxModel, b: CtxModel) -> bool {
    &&& a.variables.len() <= b.variables.len()
    &&& a.edges.is_prefix_of(b.edges)
    &&& forall|g: Seq<char>, n: Seq<char>|
        (#[trigger] binding_of(a, g, n)) is Some ==> binding_of(b, g, n) == binding_of(a, g, n)
}

pub proof fn lemma_ctx_monotone_refl(a: CtxModel)
    ensures
        ctx_monotone(a, a),
{
    assert(a.edges.subrange(0, a.edges.len() as int) =~= a.edges);
}

pub proof fn lemma_ctx_monotone_trans(a: CtxModel, b: CtxModel, c: CtxModel)
    requires
        ctx_monotone(a, b),
        ctx_monotone(b, c),
    ensures
        ctx_monotone(a, c),
{
    assert(a.edges =~= c.edges.subrange(0, a.edges.len() as int));
    assert forall|g: Seq<char>, n: Seq<char>| (#[trigger] binding_of(a, g, n)) is Some implies
        binding_of(c, g, n) == binding_of(a, g, n) by {
        assert(binding_of(b, g, n) == binding_of(a, g, n));
    }
}

impl Context {
    /// A fresh binding context: no active graph, no graphs, no variables, no
    /// edges.
    pub fn new() -> (c: Context)
        ensures
            c@ == (CtxModel {
                graph: None,
                graphs: Seq::empty(),
                variables: Seq::empty(),
                edges: Seq::empty(),
            }),
            ctx_wf(c@),
    {
        let c = Context { graph: None, graphs: Vec::new(), variables: Vec::new(), edges: Vec::new() };
        proof {
            assert(c@.graphs =~= Seq::<(Seq<char>, TableModel)>::empty());
            assert(c@.variables =~= Seq::<int>::empty());
            assert(c@.edges =~= Seq::<(int, int)>::empty());
            assert(c@ =~= (CtxModel {
                graph: None,
                graphs: Seq::empty(),
                variables: Seq::empty(),
                edges: Seq::empty(),
            }));
        }
        c
    }

    /// Whether a graph of this name has been declared.
    pub fn contains_graph(&self, name: &String) -> (b: bool)
        ensures
            b == (key_idx(self@.graphs, name@) != -1),
    {
        find_graph_from(&self.graphs, name, 0).is_some()
    }

    /// The slot bound to `name` in `graph`, if both exist.
    pub fn slot_of(&self, graph: &String, name: &String) -> (r: Option<i32>)
        ensures
            match r {
                Some(slot) => binding_of(self@, graph@, name@) == Some(slot as int),
                None => binding_of(self@, graph@, name@) is None,
            },
    {
        match find_graph_from(&self.graphs, graph, 0) {
            None => None,
            Some(gi) => {
                match find_symbol_from(&self.graphs[gi].1.symbols, name, 0) {
                    None => None,
                    Some(si) => Some(self.graphs[gi].1.symbols[si].1),
                }
            },
        }
    }

    /// Declares the graph if its name is new, and in all cases makes it the
    /// active graph. Declaration at a definition header never fails.
    pub fn declare_or_select_graph(&mut self, name: &String)
        requires
            ctx_wf(old(self)@),
        ensures
            ctx_wf(final(self)@),
            ctx_monotone(old(self)@, final(self)@),
            final(self)@ == (CtxModel {
                graph: Some(name@),
                graphs: if key_idx(old(self)@.graphs, name@) == -1 {
                    old(self)@.graphs.push((name@, TableModel { symbols: Seq::empty() }))
                } else {
                    old(self)@.graphs
                },
                ..old(self)@
            }),
    {
        let present = self.contains_graph(name);
        let ghost c0 = self@;
        if !present {
            self.graphs.push((name.clone(), NodeTable { symbols: Vec::new() }));
            proof {
                assert(self@.graphs =~~= c0.graphs.push(
                    (name@, TableModel { symbols: Seq::empty() }),
                ));
                assert(self@.variables =~= c0.variables);
                assert(self@.edges =~= c0.edges);
                lemma_key_idx_from(c0.graphs, name@, 0);
                lemma_wf_after_graph_push(c0, name@);
            }
        }
        self.graph = Some(name.clone());
        proof {
            assert(self@ =~~= (CtxModel {
                graph: Some(name@),
                graphs: if key_idx(c0.graphs, name@) == -1 {
                    c0.graphs.push((name@, TableModel { symbols: Seq::empty() }))
                } else {
                    c0.graphs
                },
                ..c0
            }));
            if key_idx(c0.graphs, name@) != -1 {
                lemma_key_idx_from(c0.graphs, name@, 0);
            } else {
                lemma_key_idx_from_push(c0.graphs, name@, 0, (name@, TableModel { symbols: Seq::empty() }));
            }
            assert(self@.edges.subrange(0, c0.edges.len() as int) =~= c0.edges);
            assert forall|g: Seq<char>, n: Seq<char>| (#[trigger] binding_of(c0, g, n)) is Some
                implies binding_of(self@, g, n) == binding_of(c0, g, n) by {
                lemma_key_idx_from(c0.graphs, g, 0);
                lemma_key_idx_from_push(
                    c0.graphs,
                    g,
                    0,
                    (name@, TableModel { symbols: Seq::empty() }),
                );
            }
        }
    }

    /// Looks the name up in the active graph's symbol table. A present name
    /// resolves to its slot. An absent name is declared (a fresh slot holding
    /// 0 is appended to the store) when `declare` holds, and is an undeclared
    /// reference otherwise. Fails when no graph is active, and when the store
    /// is full.
    pub fn resolve_or_declare_node(&mut self, name: &String, declare: bool) -> (r: Result<
        i32,
        Error,
    >)
        requires
            ctx_wf(old(self)@),
        ensures
            ctx_wf(final(self)@),
            ctx_monotone(old(self)@, final(self)@),
            resolve_post(old(self)@, final(self)@, name@, declare, r),
    {
        let g: String = match &self.graph {
            Some(s) => s.clone(),
            None => {
                proof {
                    lemma_ctx_monotone_refl(self@);
                }
                return Err(Error::GraphContextMissing);
            },
        };
        let ghost c0 = self@;
        let gi = match find_graph_from(&self.graphs, &g, 0) {
            Some(j) => j,
            None => unreached(),
        };
        match find_symbol_from(&self.graphs[gi].1.symbols, name, 0) {
            Some(si) => {
                let slot = self.graphs[gi].1.symbols[si].1;
                proof {
                    lemma_key_idx_from(c0.graphs[gi as int].1.symbols, name@, 0);
                    lemma_ctx_monotone_refl(self@);
                }
                Ok(slot)
            },
            None => {
                if !declare {
                    proof {
                        lemma_ctx_monotone_refl(self@);
                    }
                    return Err(Error::UndeclaredNodeReference);
                }
                if self.variables.len() >= 0x7fff_ffff {
                    proof {
                        lemma_ctx_monotone_refl(self@);
                    }
                    return Err(Error::TooManyNodes);
                }
                let slot = self.variables.len() as i32;
                self.graphs[gi].1.symbols.push((name.clone(), slot));
                self.variables.push(0);
                proof {
                    let t0 = c0.graphs[gi as int].1;
                    assert(self@.graphs =~~= c0.graphs.update(
                        gi as int,
                        (c0.graph->0, TableModel { symbols: t0.symbols.push((name@, slot as int)) }),
                    ));
                    assert(self@.variables =~= c0.variables.push(0));
                    assert(self@.edges =~= c0.edges);
                    assert(self@ =~~= (CtxModel {
                        graphs: c0.graphs.update(
                            gi as int,
                            (c0.graph->0, TableModel {
                                symbols: t0.symbols.push((name@, slot as int)),
                            }),
                        ),
                        variables: c0.variables.push(0),
                        ..c0
                    }));
                    lemma_wf_after_declare(c0, gi as int, name@);
                    lemma_monotone_after_declare(c0, gi as int, name@);
                }
                Ok(slot)
            },
        }
    }

    /// Appends the pair to the edge list. Both endpoints must be valid slots.
    pub fn record_edge(&mut self, from: i32, to: i32)
        requires
            ctx_wf(old(self)@),
            0 <= from < old(self)@.variables.len(),
            0 <= to < old(self)@.variables.len(),
        ensures
            ctx_wf(final(self)@),
            ctx_monotone(old(self)@, final(self)@),
            final(self)@ == (CtxModel {
                edges: old(self)@.edges.push((from as int, to as int)),
                ..old(self)@
            }),
    {
        let ghost c0 = self@;
        self.edges.push((from, to));
        proof {
            assert(self@.edges =~= c0.edges.push((from as int, to as int)));
            assert(self@ =~~= (CtxModel {
                edges: c0.edges.push((from as int, to as int)),
                ..c0
            }));
            assert(self@.edges.subrange(0, c0.edges.len() as int) =~= c0.edges);
            assert forall|g: Seq<char>, n: Seq<char>| (#[trigger] binding_of(c0, g, n)) is Some
                implies binding_of(self@, g, n) == binding_of(c0, g, n) by {
                assert(self@.graphs == c0.graphs);
            }
        }
    }

    /// Writes a variable slot.
    pub fn set_variable(&mut self, slot: i32, value: i32)
        requires
            ctx_wf(old(self)@),
            0 <= slot < old(self)@.variables.len(),
        ensures
            ctx_wf(final(self)@),
            ctx_monotone(old(self)@, final(self)@),
            final(self)@ == (CtxModel {
                variables: old(self)@.variables.update(slot as int, value as int),
                ..old(self)@
            }),
    {
        let ghost c0 = self@;
        let idx: usize = slot as usize;
        self.variables[idx] = value;
        proof {
            assert(self@.variables =~= c0.variables.update(slot as int, value as int));
            assert(self@ =~~= (CtxModel {
                variables: c0.variables.update(slot as int, value as int),
                ..c0
            }));
            assert(self@.edges.subrange(0, c0.edges.len() as int) =~= c0.edges);
            assert forall|g: Seq<char>, n: Seq<char>| (#[trigger] binding_of(c0, g, n)) is Some
                implies binding_of(self@, g, n) == binding_of(c0, g, n) by {
                assert(self@.graphs == c0.graphs);
            }
        }
    }

    /// Reads a variable slot.
    pub fn get_variable(&self, slot: i32) -> (v: i32)
        requires
            ctx_wf(self@),
            0 <= slot < self@.variables.len(),
        ensures
            v as int == self@.variables[slot as int],
    {
        self.variables[slot as usize]
    }
}

/// What `resolve_or_declare_node` does to the context, exactly: the relation
/// between the state before, the state after, and the result.
pub open spec fn resolve_post(
    c0: CtxModel,
    c1: CtxModel,
    name: Seq<char>,
    declare: bool,
    r: Result<i32, Error>,
) -> bool {
    if c0.graph is None {
        c1 == c0 && r == Err::<i32, Error>(Error::GraphContextMissing)
    } else {
        let g = c0.graph->0;
        let gi = key_idx(c0.graphs, g);
        let t = c0.graphs[gi].1;
        let si = key_idx(t.symbols, name);
        match r {
            Ok(slot) => {
                if si != -1 {
                    c1 == c0 && slot as int == t.symbols[si].1
                } else {
                    &&& declare
                    &&& c0.variables.len() < slot_limit()
                    &&& slot as int == c0.variables.len()
                    &&& c1 == (CtxModel {
                        graphs: c0.graphs.update(
                            gi,
                            (g, TableModel { symbols: t.symbols.push((name, slot as int)) }),
                        ),
                        variables: c0.variables.push(0),
                        ..c0
                    })
                }
            },
            Err(e) => {
                &&& c1 == c0
                &&& si == -1
                &&& if !declare {
                    e == Error::UndeclaredNodeReference
                } else {
                    e == Error::TooManyNodes && c0.variables.len() >= slot_limit()
                }
            },
        }
    }
}

/// Adding a graph with a fresh name and an empty table preserves the context
/// invariant.
proof fn lemma_wf_after_graph_push(c0: CtxModel, name: Seq<char>)
    requires
        ctx_wf(c0),
        key_idx(c0.graphs, name) == -1,
    ensures
        ctx_wf((CtxModel {
            graph: c0.graph,
            graphs: c0.graphs.push((name, TableModel { symbols: Seq::empty() })),
            ..c0
        })),
        ctx_wf((CtxModel {
            graph: Some(name),
            graphs: c0.graphs.push((name, TableModel { symbols: Seq::empty() })),
            ..c0
        })),
{
    let gs = c0.graphs.push((name, TableModel { symbols: Seq::empty() }));
    lemma_key_idx_from(c0.graphs, name, 0);
    assert forall|i: int, j: int| 0 <= i < j < gs.len() implies (#[trigger] gs[i]).0
        != (#[trigger] gs[j]).0 by {
        if j < c0.graphs.len() {
            assert(keys_distinct(c0.graphs));
        }
    }
    assert forall|i: int| 0 <= i < gs.len() implies table_wf(
        (#[trigger] gs[i]).1,
        c0.variables.len() as int,
    ) by {
        if i < c0.graphs.len() {
            assert(table_wf(c0.graphs[i].1, c0.variables.len() as int));
        } else {
            assert(gs[i].1.symbols.len() == 0);
        }
    }
    assert(slots_injective(gs)) by {
        assert forall|a: int, i: int, b: int, j: int|
            #![trigger gs[a].1.symbols[i], gs[b].1.symbols[j]]
            0 <= a < gs.len() && 0 <= b < gs.len() && 0 <= i < gs[a].1.symbols.len() && 0 <= j
                < gs[b].1.symbols.len() && (a != b || i != j) implies gs[a].1.symbols[i].1
            != gs[b].1.symbols[j].1 by {
            assert(a < c0.graphs.len() && b < c0.graphs.len());
            assert(gs[a] == c0.graphs[a] && gs[b] == c0.graphs[b]);
            assert(slots_injective(c0.graphs));
        }
    }
    match c0.graph {
        Some(g) => {
            lemma_key_idx_from(c0.graphs, g, 0);
            lemma_key_idx_from_push(c0.graphs, g, 0, (name, TableModel { symbols: Seq::empty() }));
        },
        None => {},
    }
    lemma_key_idx_from_push(c0.graphs, name, 0, (name, TableModel { symbols: Seq::empty() }));
}

/// Binding a fresh name in the active graph to the next free slot, and
/// growing the store by one zeroed cell, preserves the context invariant.
proof fn lemma_wf_after_declare(c0: CtxModel, gi: int, name: Seq<char>)
    requires
        ctx_wf(c0),
        c0.graph is Some,
        gi == key_idx(c0.graphs, c0.graph->0),
        key_idx(c0.graphs[gi].1.symbols, name) == -1,
        c0.variables.len() < slot_limit(),
    ensures
        ctx_wf((CtxModel {
            graphs: c0.graphs.update(
                gi,
                (c0.graph->0, TableModel {
                    symbols: c0.graphs[gi].1.symbols.push((name, c0.variables.len() as int)),
                }),
            ),
            variables: c0.variables.push(0),
            ..c0
        })),
{
    let g = c0.graph->0;
    lemma_key_idx_from(c0.graphs, g, 0);
    let t0 = c0.graphs[gi].1;
    let slot = c0.variables.len() as int;
    let t1 = TableModel { symbols: t0.symbols.push((name, slot)) };
    let gs = c0.graphs.update(gi, (g, t1));
    let c1 = CtxModel { graphs: gs, variables: c0.variables.push(0), ..c0 };
    let nv1 = c1.variables.len() as int;
    lemma_key_idx_from(t0.symbols, name, 0);
    assert forall|i: int, j: int| 0 <= i < j < gs.len() implies (#[trigger] gs[i]).0
        != (#[trigger] gs[j]).0 by {
        assert(keys_distinct(c0.graphs));
        assert(c0.graphs[i].0 != c0.graphs[j].0);
    }
    assert forall|i: int| 0 <= i < gs.len() implies table_wf((#[trigger] gs[i]).1, nv1) by {
        assert(table_wf(c0.graphs[i].1, c0.variables.len() as int));
        if i == gi {
            assert forall|k: int, l: int| 0 <= k < l < t1.symbols.len() implies (
            #[trigger] t1.symbols[k]).0 != (#[trigger] t1.symbols[l]).0 by {
                if l < t0.symbols.len() {
                    assert(keys_distinct(t0.symbols));
                }
            }
            assert forall|k: int| 0 <= k < t1.symbols.len() implies 0 <= (
            #[trigger] t1.symbols[k]).1 < nv1 by {
                if k < t0.symbols.len() {
                    assert(table_wf(t0, c0.variables.len() as int));
                }
            }
        }
    }
    assert forall|i: int| 0 <= i < c1.edges.len() implies 0 <= (#[trigger] c1.edges[i]).0 < nv1
        && 0 <= c1.edges[i].1 < nv1 by {
        assert(0 <= c0.edges[i].0 < c0.variables.len());
    }
    lemma_key_idx_from_same_keys::<TableModel, TableModel>(gs, c0.graphs, g, 0);
    assert(slots_injective(gs)) by {
        assert forall|a: int, i: int, b: int, j: int|
            #![trigger gs[a].1.symbols[i], gs[b].1.symbols[j]]
            0 <= a < gs.len() && 0 <= b < gs.len() && 0 <= i < gs[a].1.symbols.len() && 0 <= j
                < gs[b].1.symbols.len() && (a != b || i != j) implies gs[a].1.symbols[i].1
            != gs[b].1.symbols[j].1 by {
            let new_a = a == gi && i == t0.symbols.len();
            let new_b = b == gi && j == t0.symbols.len();
            if new_a && new_b {
                assert(a == b && i == j);
            } else if new_a {
                assert(gs[a].1.symbols[i].1 == slot);
                assert(gs[b].1.symbols[j] == c0.graphs[b].1.symbols[j]);
                assert(table_wf(c0.graphs[b].1, c0.variables.len() as int));
                assert(gs[b].1.symbols[j].1 < slot);
            } else if new_b {
                assert(gs[b].1.symbols[j].1 == slot);
                assert(gs[a].1.symbols[i] == c0.graphs[a].1.symbols[i]);
                assert(table_wf(c0.graphs[a].1, c0.variables.len() as int));
                assert(gs[a].1.symbols[i].1 < slot);
            } else {
                assert(gs[a].1.symbols[i] == c0.graphs[a].1.symbols[i]);
                assert(gs[b].1.symbols[j] == c0.graphs[b].1.symbols[j]);
                assert(slots_injective(c0.graphs));
            }
        }
    }
}

/// Declaring a fresh node keeps every binding that already existed.
proof fn lemma_monotone_after_declare(c0: CtxModel, gi: int, name: Seq<char>)
    requires
        ctx_wf(c0),
        c0.graph is Some,
        gi == key_idx(c0.graphs, c0.graph->0),
        key_idx(c0.graphs[gi].1.symbols, name) == -1,
        c0.variables.len() < slot_limit(),
    ensures
        ctx_monotone(
            c0,
            (CtxModel {
                graphs: c0.graphs.update(
                    gi,
                    (c0.graph->0, TableModel {
                        symbols: c0.graphs[gi].1.symbols.push((name, c0.variables.len() as int)),
                    }),
                ),
                variables: c0.variables.push(0),
                ..c0
            }),
        ),
{
    let g0 = c0.graph->0;
    lemma_key_idx_from(c0.graphs, g0, 0);
    let t0 = c0.graphs[gi].1;
    let slot = c0.variables.len() as int;
    let t1 = TableModel { symbols: t0.symbols.push((name, slot)) };
    let gs = c0.graphs.update(gi, (g0, t1));
    let c1 = CtxModel { graphs: gs, variables: c0.variables.push(0), ..c0 };
    assert(c1.edges.subrange(0, c0.edges.len() as int) =~= c0.edges);
    assert forall|g: Seq<char>, n: Seq<char>| (#[trigger] binding_of(c0, g, n)) is Some implies
        binding_of(c1, g, n) == binding_of(c0, g, n) by {
        lemma_key_idx_from(c0.graphs, g, 0);
        lemma_key_idx_from_same_keys::<TableModel, TableModel>(gs, c0.graphs, g, 0);
        let gidx = key_idx(c0.graphs, g);
        if gidx == gi {
            lemma_key_idx_from(t0.symbols, n, 0);
            lemma_key_idx_from_push(t0.symbols, n, 0, (name, slot));
        } else {
            assert(gs[gidx] == c0.graphs[gidx]);
        }
    }
}

/// The first graph entry named `name` from position `i` on, as a vector
/// index.
fn find_graph_from(graphs: &Vec<(String, NodeTable)>, name: &String, i: usize) -> (r: Option<
    usize,
>)
    requires
        i <= graphs.len(),
    ensures
        match r {
            Some(j) => key_idx_from(graphs_model(graphs@), name@, i as int) == j && j
                < graphs.len() && graphs@[j as int].0@ == name@,
            None => key_idx_from(graphs_model(graphs@), name@, i as int) == -1,
        },
    decreases graphs.len() - i,
{
    if i == graphs.len() {
        None
    } else if graphs[i].0 == *name {
        assert(graphs_model(graphs@)[i as int].0 == name@);
        Some(i)
    } else {
        assert(graphs_model(graphs@)[i as int].0 != name@);
        find_graph_from(graphs, name, i + 1)
    }
}

/// The first symbol entry named `name` from position `i` on, as a vector
/// index.
fn find_symbol_from(symbols: &Vec<(String, i32)>, name: &String, i: usize) -> (r: Option<usize>)
    requires
        i <= symbols.len(),
    ensures
        match r {
            Some(j) => key_idx_from(symbols_model(symbols@), name@, i as int) == j && j
                < symbols.len() && symbols@[j as int].0@ == name@,
            None => key_idx_from(symbols_model(symbols@), name@, i as int) == -1,
        },
    decreases symbols.len() - i,
{
    if i == symbols.len() {
        None
    } else if symbols[i].0 == *name {
        assert(symbols_model(symbols@)[i as int].0 == name@);
        Some(i)
    } else {
        assert(symbols_model(symbols@)[i as int].0 != name@);
        find_symbol_from(symbols, name, i + 1)
    }
}

} // verus!
