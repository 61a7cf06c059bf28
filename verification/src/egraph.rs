//! The e-graph of the `egg` crate, and what this library relies on of it.
//!
//! Nothing in this file is proved. The e-graph is held in a struct that the
//! verifier does not look into, what it holds is given names, and each
//! function of `egg` that the library calls stands behind one function whose
//! contract says over those names what the source of `egg` shows. The
//! definitions between them only give words to the contracts.

use crate::store::{Language, Match};
use vstd::prelude::*;

verus! {

/// The e-graph of `egg` over nodes of an operator and children
/// (`egg::EGraph<egg::SymbolLang, ()>`), opaque to the verifier.
#[verifier::external_body]
pub struct Graph {
    inner: egg::EGraph<egg::SymbolLang, ()>,
}

/// The node table of the e-graph (`EGraph::nodes`): at index `i` the node
/// that was added under the id `i`, as its operator and the ids of its
/// children.
pub uninterp spec fn egraph_nodes(g: Graph) -> Seq<
    (Seq<char>, Seq<nat>),
>;

/// The union-find of the e-graph: at index `i` what `EGraph::find` returns
/// for the id `i`.
pub uninterp spec fn egraph_leader(g: Graph) -> Seq<nat>;

/// What `EGraph::lookup` returns for the node with the given operator and
/// children.
pub uninterp spec fn egraph_lookup(
    g: Graph,
    label: Seq<char>,
    children: Seq<nat>,
) -> Option<nat>;

/// The field `clean` of the e-graph: whether it was rebuilt after the last
/// change.
pub uninterp spec fn egraph_clean(g: Graph) -> bool;

/// What `EGraph::total_number_of_nodes` returns.
pub uninterp spec fn egraph_node_count(g: Graph) -> nat;

/// The variables of the pattern that `egg` reads from `text`, in the order of
/// `Pattern::vars`, each as the text that `egg` prints for it and reads back;
/// `None` where `egg` reads no pattern from the text.
pub uninterp spec fn pattern_vars(text: Seq<char>) -> Option<Seq<Seq<char>>>;

/// The nodes of the pattern that `egg` reads from `text` (`Pattern::ast`),
/// each with its operator and, for its children, the indices of earlier
/// nodes; a variable is a node without children whose operator is the text
/// of the variable; the last node is the root. `None` where `egg` reads no
/// pattern from the text.
pub uninterp spec fn pattern_nodes(text: Seq<char>) -> Option<Seq<(Seq<char>, Seq<nat>)>>;

/// The nodes of the expression that `egg` reads from `text`
/// (`RecExpr::from_str`), each with its operator and, for its children, the
/// indices of earlier nodes; the last node is the root. `None` where `egg`
/// reads no expression from the text.
pub uninterp spec fn expr_nodes(text: Seq<char>) -> Option<Seq<(Seq<char>, Seq<nat>)>>;

/// What `Hash::hash` writes to a hasher for a node: for the name of its
/// function, then for the ids of its children cut to 32 bits.
pub uninterp spec fn node_writes(function: Seq<char>, children: Seq<nat>) -> Seq<Seq<u8>>;

/// Whether every id of `ids` is below `len`.
pub open spec fn ids_below(ids: Seq<nat>, len: nat) -> bool {
    forall|k: int| 0 <= k < ids.len() ==> #[trigger] ids[k] < len
}

/// The ids of a list of machine integers.
pub open spec fn ids_of(ids: Seq<usize>) -> Seq<nat> {
    ids.map_values(|c: usize| c as nat)
}

/// What holds of the union-find and the node table of every e-graph: each id
/// has a leader, a leader leads itself, and the children of a node were added
/// before the node.
pub open spec fn graph_wf(nodes: Seq<(Seq<char>, Seq<nat>)>, leader: Seq<nat>) -> bool {
    &&& leader.len() == nodes.len()
    &&& nodes.len() <= u32::MAX
    &&& forall|i: int| 0 <= i < leader.len() ==> #[trigger] leader[i] < leader.len()
    &&& forall|i: int|
        0 <= i < leader.len() ==> leader[#[trigger] leader[i] as int] == leader[i]
    &&& forall|i: int| 0 <= i < nodes.len() ==> ids_below(#[trigger] nodes[i].1, i as nat)
}

/// Whether ids that had one leader in `before` have one leader in `after`.
pub open spec fn coarsens(before: Seq<nat>, after: Seq<nat>) -> bool {
    &&& before.len() <= after.len()
    &&& forall|i: int, j: int|
        0 <= i < before.len() && 0 <= j < before.len() && before[i] == before[j] ==> after[i]
            == after[j]
}

/// The union-find `before` after the classes led by `keep` and by `drop`
/// became one class led by `keep`.
pub open spec fn merged(before: Seq<nat>, keep: nat, drop: nat) -> Seq<nat> {
    Seq::new(
        before.len(),
        |i: int|
            if before[i] == drop {
                keep
            } else {
                before[i]
            },
    )
}

/// How `after` comes from `before` by a union of the ids `a` and `b`: nothing
/// changes where they had one leader; else the two classes become one, led by
/// one of the two leaders.
pub open spec fn union_of(before: Seq<nat>, a: nat, b: nat, after: Seq<nat>) -> bool {
    if before[a as int] == before[b as int] {
        after == before
    } else {
        ||| after == merged(before, before[a as int], before[b as int])
        ||| after == merged(before, before[b as int], before[a as int])
    }
}

/// The number of the first `m` children of a node that lie in the class led
/// by `c`.
pub open spec fn children_in(children: Seq<nat>, leader: Seq<nat>, c: nat, m: nat) -> nat
    decreases m,
{
    if m == 0 || m > children.len() {
        0
    } else if leader[children[m - 1] as int] == c {
        children_in(children, leader, c, (m - 1) as nat) + 1
    } else {
        children_in(children, leader, c, (m - 1) as nat)
    }
}

/// The number of parents of the class led by `c` among the first `n` nodes:
/// a node counts once for each of its children that lies in the class.
pub open spec fn parents_of(
    nodes: Seq<(Seq<char>, Seq<nat>)>,
    leader: Seq<nat>,
    c: nat,
    n: nat,
) -> nat
    decreases n,
{
    if n == 0 || n > nodes.len() {
        0
    } else {
        parents_of(nodes, leader, c, (n - 1) as nat) + children_in(
            nodes[n - 1].1,
            leader,
            c,
            nodes[n - 1].1.len(),
        )
    }
}

/// The leader that a union of the ids `a` and `b` keeps: the leader of `b`
/// where its class has more parents than the class of `a`, else the leader
/// of `a`.
pub open spec fn kept_leader(
    nodes: Seq<(Seq<char>, Seq<nat>)>,
    leader: Seq<nat>,
    a: nat,
    b: nat,
) -> nat {
    if parents_of(nodes, leader, leader[a as int], nodes.len()) < parents_of(
        nodes,
        leader,
        leader[b as int],
        nodes.len(),
    ) {
        leader[b as int]
    } else {
        leader[a as int]
    }
}

/// Whether two nodes have the same operator and, place by place, children
/// with one leader.
pub open spec fn congruent(leader: Seq<nat>, a: (Seq<char>, Seq<nat>), b: (Seq<char>, Seq<nat>)) -> bool {
    &&& a.0 == b.0
    &&& a.1.len() == b.1.len()
    &&& forall|k: int|
        0 <= k < a.1.len() ==> leader[#[trigger] a.1[k] as int] == leader[b.1[k] as int]
}

/// Whether the class led by `c` holds a node of the table that is congruent
/// to the node `n`.
pub open spec fn holds_congruent(
    nodes: Seq<(Seq<char>, Seq<nat>)>,
    leader: Seq<nat>,
    c: nat,
    n: (Seq<char>, Seq<nat>),
) -> bool {
    exists|i: int| 0 <= i < nodes.len() && leader[i] == c && congruent(leader, #[trigger] nodes[i], n)
}

/// Whether congruent nodes of the table have one leader.
pub open spec fn congruence_closed(nodes: Seq<(Seq<char>, Seq<nat>)>, leader: Seq<nat>) -> bool {
    forall|i: int, j: int|
        0 <= i < nodes.len() && 0 <= j < nodes.len() && congruent(
            leader,
            #[trigger] nodes[i],
            #[trigger] nodes[j],
        ) ==> leader[i] == leader[j]
}

/// The number of classes: the number of leaders.
pub open spec fn class_count(leader: Seq<nat>) -> nat {
    leader.to_set().len()
}

/// What a match is: the class, and for each substitution the ids bound to
/// the variables of the pattern, in the order of the variables.
pub open spec fn match_view(m: Match) -> (nat, Seq<Seq<nat>>) {
    (m.eclass as nat, m.substs@.map_values(|s: Vec<usize>| ids_of(s@)))
}

/// Whether a match names a class below `len` and each of its substitutions
/// binds `vars` variables to ids below `len`.
pub open spec fn match_fits(m: (nat, Seq<Seq<nat>>), vars: nat, len: nat) -> bool {
    &&& m.0 < len
    &&& forall|k: int|
        0 <= k < m.1.len() ==> (#[trigger] m.1[k]).len() == vars && ids_below(m.1[k], len)
}

/// Whether every match of the list fits.
pub open spec fn matches_fit(ms: Seq<Match>, vars: nat, len: nat) -> bool {
    forall|k: int| 0 <= k < ms.len() ==> match_fits(match_view(#[trigger] ms[k]), vars, len)
}

/// Whether every variable of `inner` is one of `outer`.
pub open spec fn vars_within(inner: Seq<Seq<char>>, outer: Seq<Seq<char>>) -> bool {
    forall|k: int| 0 <= k < inner.len() ==> outer.contains(#[trigger] inner[k])
}

/// The texts of a list of strings.
pub open spec fn texts_of(v: Seq<String>) -> Seq<Seq<char>> {
    v.map_values(|s: String| s@)
}

/// What a node is as a plain value.
pub open spec fn node_view(n: Language) -> (Seq<char>, Seq<nat>) {
    (n.function@, ids_of(n.children@))
}

/// What a list of nodes is.
pub open spec fn nodes_view(v: Seq<Language>) -> Seq<(Seq<char>, Seq<nat>)> {
    v.map_values(|n: Language| node_view(n))
}

/// Whether a list of nodes is an expression: it is not empty, and the
/// children of each node are indices of earlier nodes.
pub open spec fn is_expr(nodes: Seq<(Seq<char>, Seq<nat>)>) -> bool {
    &&& nodes.len() > 0
    &&& forall|i: int| 0 <= i < nodes.len() ==> ids_below(#[trigger] nodes[i].1, i as nat)
}

/// The node with each child replaced by its leader.
pub open spec fn canonical(leader: Seq<nat>, n: (Seq<char>, Seq<nat>)) -> (Seq<char>, Seq<nat>) {
    (n.0, n.1.map_values(|c: nat| leader[c as int]))
}

/// Whether the class led by `c` holds a node that is, with leaders for
/// children, the node `n` with leaders for children.
#[verifier::opaque]
pub open spec fn class_holds(
    nodes: Seq<(Seq<char>, Seq<nat>)>,
    leader: Seq<nat>,
    c: nat,
    n: (Seq<char>, Seq<nat>),
) -> bool {
    exists|i: int|
        0 <= i < nodes.len() && leader[i] == c && canonical(leader, #[trigger] nodes[i])
            == canonical(leader, n)
}

/// Whether a list of classes holds, in the entry of the class `c`, a node
/// that is, with leaders for children, the node `n` with leaders for
/// children.
#[verifier::opaque]
pub open spec fn lists(
    classes: Seq<(usize, Vec<Language>)>,
    leader: Seq<nat>,
    c: nat,
    n: (Seq<char>, Seq<nat>),
) -> bool {
    exists|k: int, j: int|
        0 <= k < classes.len() && 0 <= j < classes[k].1@.len() && classes[k].0 == c && canonical(
            leader,
            node_view(#[trigger] classes[k].1@[j]),
        ) == canonical(leader, n)
}

/// Whether a list of classes is the classes of the e-graph: one entry for
/// each leader, no leader twice, in each entry only nodes of that class with
/// children below the number of ids, and each node of the table in the entry
/// of its leader.
#[verifier::opaque]
pub open spec fn is_snapshot(
    classes: Seq<(usize, Vec<Language>)>,
    nodes: Seq<(Seq<char>, Seq<nat>)>,
    leader: Seq<nat>,
) -> bool {
    &&& forall|k: int|
        0 <= k < classes.len() ==> (#[trigger] classes[k]).0 < leader.len() && leader[classes[k].0 as int]
            == classes[k].0
    &&& forall|k: int, l: int|
        0 <= k < l < classes.len() ==> (#[trigger] classes[k]).0 != (#[trigger] classes[l]).0
    &&& forall|k: int, j: int|
        0 <= k < classes.len() && 0 <= j < classes[k].1@.len() ==> ids_below(
            node_view(#[trigger] classes[k].1@[j]).1,
            leader.len(),
        ) && class_holds(nodes, leader, classes[k].0 as nat, node_view(classes[k].1@[j]))
    &&& forall|i: int|
        0 <= i < nodes.len() ==> lists(classes, leader, leader[i], #[trigger] nodes[i])
}

/// Whether a list of classes is as a rebuilt e-graph lists them: the
/// children of each listed node are leaders, and no class lists a node
/// twice.
pub open spec fn is_tidy(classes: Seq<(usize, Vec<Language>)>, leader: Seq<nat>) -> bool {
    &&& forall|k: int, j: int|
        0 <= k < classes.len() && 0 <= j < classes[k].1@.len() ==> all_lead(
            node_view(#[trigger] classes[k].1@[j]).1,
            leader,
        )
    &&& forall|k: int, i: int, j: int|
        0 <= k < classes.len() && 0 <= i < j < classes[k].1@.len() ==> node_view(
            #[trigger] classes[k].1@[i],
        ) != node_view(#[trigger] classes[k].1@[j])
}

/// `Hash::hash` of the name of a node's function and of the ids of its
/// children, cut to 32 bits: what is written depends on the node alone.
#[verifier::external_body]
pub(crate) fn hash_node(
    state: &mut std::collections::hash_map::DefaultHasher,
    function: &str,
    children: &Vec<usize>,
)
    ensures
        final(state)@ == old(state)@ + node_writes(function@, ids_of(children@)),
{
    let ids: Vec<u32> = children.iter().map(|c| *c as u32).collect();
    std::hash::Hash::hash(&(function, ids), state);
}

/// `EGraph::new`: an e-graph without nodes, not yet rebuilt, in which no
/// node is found.
#[verifier::external_body]
pub(crate) fn egraph_new() -> (g: Graph)
    ensures
        egraph_nodes(g).len() == 0,
        egraph_leader(g).len() == 0,
        egraph_node_count(g) == 0,
        !egraph_clean(g),
        forall|label: Seq<char>, children: Seq<nat>|
            (#[trigger] egraph_lookup(g, label, children)) is None,
{
    Graph { inner: egg::EGraph::new(()) }
}

/// `EGraph::nodes`, its length: the number of ids given out so far.
#[verifier::external_body]
pub(crate) fn egraph_len(g: &Graph) -> (n: usize)
    ensures
        n == egraph_nodes(*g).len(),
{
    g.inner.nodes().len()
}

/// The field `clean` of the e-graph.
#[verifier::external_body]
pub(crate) fn egraph_is_clean(g: &Graph) -> (b: bool)
    ensures
        b == egraph_clean(*g),
{
    g.inner.clean
}

/// `EGraph::find`: the leader of an id.
#[verifier::external_body]
pub(crate) fn egraph_find(g: &Graph, id: usize) -> (r: usize)
    requires
        id < egraph_nodes(*g).len(),
    ensures
        r == egraph_leader(*g)[id as int],
{
    usize::from(g.inner.find(egg::Id::from(id)))
}

/// `EGraph::lookup`: the class of a node, if the e-graph finds the node: the
/// leader of a class that holds a node congruent to it.
#[verifier::external_body]
pub(crate) fn egraph_find_node(
    g: &Graph,
    label: &str,
    children: &Vec<usize>,
) -> (r: Option<usize>)
    requires
        ids_below(ids_of(children@), egraph_nodes(*g).len()),
    ensures
        r is Some == egraph_lookup(*g, label@, ids_of(children@)) is Some,
        r matches Some(c) ==> {
            &&& egraph_lookup(*g, label@, ids_of(children@)) == Some(c as nat)
            &&& c < egraph_nodes(*g).len()
            &&& egraph_leader(*g)[c as int] == c
            &&& holds_congruent(
                egraph_nodes(*g),
                egraph_leader(*g),
                c as nat,
                (label@, ids_of(children@)),
            )
        },
{
    let ids: Vec<egg::Id> = children.iter().map(|c| egg::Id::from(*c)).collect();
    g.inner.lookup(egg::SymbolLang::new(label, ids)).map(|id| usize::from(id))
}

/// `EGraph::add`. Where the e-graph finds the node, it returns the node's
/// class, which holds a node congruent to it, and changes nothing. Else the
/// node gets the next id and a class of its own, and is found from then on;
/// what was found before is still found in the same class; the e-graph is
/// no longer rebuilt. The class returned is led by the id returned.
#[verifier::external_body]
pub(crate) fn egraph_add(
    g: &mut Graph,
    label: &str,
    children: &Vec<usize>,
) -> (r: usize)
    requires
        graph_wf(egraph_nodes(*old(g)), egraph_leader(*old(g))),
        ids_below(ids_of(children@), egraph_nodes(*old(g)).len()),
        egraph_nodes(*old(g)).len() < u32::MAX,
    ensures
        graph_wf(egraph_nodes(*final(g)), egraph_leader(*final(g))),
        r < egraph_nodes(*final(g)).len(),
        egraph_leader(*final(g))[r as int] == r,
        egraph_lookup(*final(g), label@, ids_of(children@)) == Some(r as nat),
        match egraph_lookup(*old(g), label@, ids_of(children@)) {
            Some(c) => {
                &&& r == c
                &&& egraph_nodes(*final(g)) == egraph_nodes(*old(g))
                &&& egraph_leader(*final(g)) == egraph_leader(*old(g))
                &&& egraph_node_count(*final(g)) == egraph_node_count(*old(g))
                &&& egraph_clean(*final(g)) == egraph_clean(*old(g))
                &&& finds_same(*old(g), *final(g))
                &&& holds_congruent(
                    egraph_nodes(*old(g)),
                    egraph_leader(*old(g)),
                    c,
                    (label@, ids_of(children@)),
                )
            },
            None => {
                &&& r == egraph_nodes(*old(g)).len()
                &&& egraph_nodes(*final(g)) == egraph_nodes(*old(g)).push(
                    (label@, ids_of(children@)),
                )
                &&& egraph_leader(*final(g)) == egraph_leader(*old(g)).push(r as nat)
                &&& egraph_node_count(*final(g)) == egraph_node_count(*old(g)) + 1
                &&& !egraph_clean(*final(g))
            },
        },
        finds_kept(*old(g), *final(g)),
    no_unwind
{
    let ids: Vec<egg::Id> = children.iter().map(|c| egg::Id::from(*c)).collect();
    usize::from(g.inner.add(egg::SymbolLang::new(label, ids)))
}

/// `EGraph::union`. It returns whether the two ids had different leaders;
/// if so their classes become one, led by the leader of the class with more
/// parents, and by the leader of the first id where both have as many. The
/// node table and the number of nodes stay; the e-graph is no longer
/// rebuilt.
#[verifier::external_body]
pub(crate) fn egraph_union(g: &mut Graph, a: usize, b: usize) -> (r:
    bool)
    requires
        graph_wf(egraph_nodes(*old(g)), egraph_leader(*old(g))),
        a < egraph_nodes(*old(g)).len(),
        b < egraph_nodes(*old(g)).len(),
    ensures
        graph_wf(egraph_nodes(*final(g)), egraph_leader(*final(g))),
        egraph_nodes(*final(g)) == egraph_nodes(*old(g)),
        union_of(egraph_leader(*old(g)), a as nat, b as nat, egraph_leader(*final(g))),
        egraph_leader(*final(g))[a as int] == kept_leader(
            egraph_nodes(*old(g)),
            egraph_leader(*old(g)),
            a as nat,
            b as nat,
        ),
        r == (egraph_leader(*old(g))[a as int] != egraph_leader(*old(g))[b as int]),
        egraph_node_count(*final(g)) == egraph_node_count(*old(g)),
        !egraph_clean(*final(g)),
    no_unwind
{
    g.inner.union(egg::Id::from(a), egg::Id::from(b))
}

/// `EGraph::rebuild`. The node table stays; ids that had one leader keep one
/// leader; congruent nodes have one leader afterwards, and no more ids have
/// one leader than this asks for: ids with one leader afterwards have one
/// leader in every union-find that unites what was united and puts
/// congruent nodes into one class. Each node of the table, and each node
/// congruent to it, is found in the class of its id; the e-graph is rebuilt.
#[verifier::external_body]
pub(crate) fn egraph_rebuild(g: &mut Graph)
    requires
        graph_wf(egraph_nodes(*old(g)), egraph_leader(*old(g))),
    ensures
        graph_wf(egraph_nodes(*final(g)), egraph_leader(*final(g))),
        egraph_nodes(*final(g)) == egraph_nodes(*old(g)),
        coarsens(egraph_leader(*old(g)), egraph_leader(*final(g))),
        congruence_closed(egraph_nodes(*final(g)), egraph_leader(*final(g))),
        forall|other: Seq<nat>|
            graph_wf(egraph_nodes(*old(g)), other) && coarsens(egraph_leader(*old(g)), other)
                && #[trigger] congruence_closed(egraph_nodes(*old(g)), other) ==> coarsens(
                egraph_leader(*final(g)),
                other,
            ),
        finds_congruent(*final(g)),
        egraph_clean(*final(g)),
    no_unwind
{
    g.inner.rebuild();
}

/// `EGraph::total_number_of_nodes`.
#[verifier::external_body]
pub(crate) fn egraph_total_nodes(g: &Graph) -> (n: usize)
    ensures
        n == egraph_node_count(*g),
{
    g.inner.total_number_of_nodes()
}

/// `EGraph::number_of_classes`: one class for each leader.
#[verifier::external_body]
pub(crate) fn egraph_class_count(g: &Graph) -> (n: usize)
    ensures
        n == class_count(egraph_leader(*g)),
{
    g.inner.number_of_classes()
}

/// `EGraph::classes`, each class with its id and its nodes as plain values.
/// In a rebuilt e-graph the children of the listed nodes are leaders and no
/// class lists a node twice: `EGraph::rebuild` replaces each child by its
/// leader, and sorts the nodes of each class and drops the repeated ones.
#[verifier::external_body]
pub(crate) fn egraph_classes(g: &Graph) -> (r: Vec<
    (usize, Vec<Language>),
>)
    ensures
        is_snapshot(r@, egraph_nodes(*g), egraph_leader(*g)),
        egraph_clean(*g) ==> is_tidy(r@, egraph_leader(*g)),
{
    g.inner.classes().map(
        |c| (
            usize::from(c.id),
            c.nodes.iter().map(
                |n| Language {
                    function: n.op.to_string(),
                    children: n.children.iter().map(|i| usize::from(*i)).collect(),
                },
            ).collect(),
        ),
    ).collect()
}

/// `EGraph::dump`, printed with `{:?}`: a line for each class. Nothing is
/// claimed of the text: its form is that of the debug prints of the nodes,
/// and the nodes of a class stand in the order in which the process first
/// met their operators, which the e-graph as it is described here does not
/// tell.
#[verifier::external_body]
pub(crate) fn egraph_dump(g: &Graph) -> String {
    format!("{:?}", g.inner.dump())
}

/// `Pattern::from_str` and `Pattern::vars`: the variables of the pattern
/// that `egg` reads from the text, each once, or what `egg` says against
/// the text. The nodes of a pattern are an expression.
#[verifier::external_body]
pub(crate) fn pattern_variables(text: &str) -> (r: Result<Vec<String>, String>)
    ensures
        match pattern_vars(text@) {
            Some(vars) => r is Ok && texts_of(r->Ok_0@) == vars && vars.no_duplicates(),
            None => r is Err,
        },
        r is Ok == pattern_nodes(text@) is Some,
        r is Ok ==> is_expr(pattern_nodes(text@)->Some_0),
{
    match text.parse::<egg::Pattern<egg::SymbolLang>>() {
        Ok(pattern) => Ok(pattern.vars().iter().map(|v| v.to_string()).collect()),
        Err(e) => Err(format!("{:?}", e)),
    }
}

/// The number of nodes of the tree below the node `k` of an expression, the
/// node counted; a node that stands below two nodes is counted twice.
pub open spec fn tree_size(expr: Seq<(Seq<char>, Seq<nat>)>, k: int) -> nat
    decreases k, 1nat, 0nat,
{
    if 0 <= k < expr.len() {
        1 + children_size(expr, k, expr[k].1.len())
    } else {
        0
    }
}

/// The number of nodes of the trees below the first `m` children of the
/// node `k` of an expression.
pub open spec fn children_size(expr: Seq<(Seq<char>, Seq<nat>)>, k: int, m: nat) -> nat
    decreases k, 0nat, m,
{
    if m == 0 || !(0 <= k < expr.len()) || m > expr[k].1.len() {
        0
    } else if expr[k].1[m - 1] < k {
        children_size(expr, k, (m - 1) as nat) + tree_size(expr, expr[k].1[m - 1] as int)
    } else {
        children_size(expr, k, (m - 1) as nat)
    }
}

/// Whether the class led by `c` represents the tree below the node `k` of
/// an expression: it holds a node with the operator of the node `k` whose
/// children lie, place by place, in classes that represent the trees below
/// the children of the node `k`.
pub open spec fn represented(
    nodes: Seq<(Seq<char>, Seq<nat>)>,
    leader: Seq<nat>,
    c: nat,
    expr: Seq<(Seq<char>, Seq<nat>)>,
    k: int,
) -> bool
    decreases k,
{
    &&& 0 <= k < expr.len()
    &&& exists|i: int|
        #![trigger nodes[i]]
        {
            &&& 0 <= i < nodes.len()
            &&& leader[i] == c
            &&& nodes[i].0 == expr[k].0
            &&& nodes[i].1.len() == expr[k].1.len()
            &&& forall|m: int|
                #![trigger expr[k].1[m]]
                0 <= m < expr[k].1.len() ==> expr[k].1[m] < k && represented(
                    nodes,
                    leader,
                    leader[nodes[i].1[m] as int],
                    expr,
                    expr[k].1[m] as int,
                )
        }
}

/// Whether the node `k` of a pattern is a variable.
pub open spec fn is_var(pat: Seq<(Seq<char>, Seq<nat>)>, vars: Seq<Seq<char>>, k: int) -> bool {
    pat[k].1.len() == 0 && vars.contains(pat[k].0)
}

/// The id that a substitution binds to the variable `v`: the id at the
/// place of `v` among the variables.
pub open spec fn bound(vars: Seq<Seq<char>>, subst: Seq<nat>, v: Seq<char>) -> nat {
    subst[vars.index_of(v)]
}

/// Whether the class led by `c` matches the pattern below its node `k`
/// under a substitution: a variable matches the class of the id bound to it;
/// another node matches a class that holds a node with the same operator
/// whose children lie, place by place, in classes that match the children of
/// the node `k`.
pub open spec fn fits(
    nodes: Seq<(Seq<char>, Seq<nat>)>,
    leader: Seq<nat>,
    c: nat,
    pat: Seq<(Seq<char>, Seq<nat>)>,
    vars: Seq<Seq<char>>,
    subst: Seq<nat>,
    k: int,
) -> bool
    decreases k,
{
    &&& 0 <= k < pat.len()
    &&& if is_var(pat, vars, k) {
        leader[bound(vars, subst, pat[k].0) as int] == c
    } else {
        exists|i: int|
            #![trigger nodes[i]]
            {
                &&& 0 <= i < nodes.len()
                &&& leader[i] == c
                &&& nodes[i].0 == pat[k].0
                &&& nodes[i].1.len() == pat[k].1.len()
                &&& forall|m: int|
                    #![trigger pat[k].1[m]]
                    0 <= m < pat[k].1.len() ==> pat[k].1[m] < k && fits(
                        nodes,
                        leader,
                        leader[nodes[i].1[m] as int],
                        pat,
                        vars,
                        subst,
                        pat[k].1[m] as int,
                    )
            }
    }
}

/// The id that stands for the pattern below its node `k` under a
/// substitution, if the e-graph finds it: for a variable the id bound to
/// it; for another node the class in which the e-graph finds the node with
/// the ids of its children.
pub open spec fn instance(
    g: Graph,
    pat: Seq<(Seq<char>, Seq<nat>)>,
    vars: Seq<Seq<char>>,
    subst: Seq<nat>,
    k: int,
) -> Option<nat>
    decreases k, 1nat, 0nat,
{
    if !(0 <= k < pat.len()) {
        None
    } else if is_var(pat, vars, k) {
        Some(bound(vars, subst, pat[k].0))
    } else {
        match instances(g, pat, vars, subst, k, pat[k].1.len()) {
            Some(ids) => egraph_lookup(g, pat[k].0, ids),
            None => None,
        }
    }
}

/// The ids that stand for the first `m` children of the node `k` of a
/// pattern, if the e-graph finds them all.
pub open spec fn instances(
    g: Graph,
    pat: Seq<(Seq<char>, Seq<nat>)>,
    vars: Seq<Seq<char>>,
    subst: Seq<nat>,
    k: int,
    m: nat,
) -> Option<Seq<nat>>
    decreases k, 0nat, m,
{
    if !(0 <= k < pat.len()) || m > pat[k].1.len() {
        None
    } else if m == 0 {
        Some(Seq::empty())
    } else if pat[k].1[m - 1] < k {
        match (
            instances(g, pat, vars, subst, k, (m - 1) as nat),
            instance(g, pat, vars, subst, pat[k].1[m - 1] as int),
        ) {
            (Some(ids), Some(id)) => Some(ids.push(id)),
            _ => None,
        }
    } else {
        None
    }
}

/// Whether the e-graph finds every node that is congruent to a node of its
/// table, in the class of that node.
pub open spec fn finds_congruent(g: Graph) -> bool {
    forall|i: int, c: Seq<nat>|
        0 <= i < egraph_nodes(g).len() && ids_below(c, egraph_nodes(g).len()) && congruent(
            egraph_leader(g),
            egraph_nodes(g)[i],
            (egraph_nodes(g)[i].0, c),
        ) ==> #[trigger] egraph_lookup(g, egraph_nodes(g)[i].0, c) == Some(
            egraph_leader(g)[i],
        )
}

/// Whether the e-graph finds in `after` what it finds in `before`.
pub open spec fn finds_kept(before: Graph, after: Graph) -> bool {
    forall|l: Seq<char>, c: Seq<nat>|
        (#[trigger] egraph_lookup(before, l, c)) is Some ==> egraph_lookup(after, l, c)
            == egraph_lookup(before, l, c)
}

/// Whether two e-graphs find the same.
pub open spec fn finds_same(before: Graph, after: Graph) -> bool {
    forall|l: Seq<char>, c: Seq<nat>|
        #[trigger] egraph_lookup(after, l, c) == egraph_lookup(before, l, c)
}

/// Whether a match of a search is right: its class leads itself and matches
/// the pattern under each of its substitutions.
pub open spec fn match_holds(
    g: Graph,
    m: Match,
    pat: Seq<(Seq<char>, Seq<nat>)>,
    vars: Seq<Seq<char>>,
) -> bool {
    &&& egraph_leader(g)[m.eclass as int] == m.eclass
    &&& forall|b: int|
        0 <= b < m.substs@.len() ==> fits(
            egraph_nodes(g),
            egraph_leader(g),
            m.eclass as nat,
            pat,
            vars,
            ids_of(#[trigger] m.substs@[b]@),
            pat.len() - 1,
        )
}

/// Whether a list of matches holds the substitution `subst` for the class
/// `c`.
pub open spec fn has_match(ms: Seq<Match>, c: nat, subst: Seq<nat>) -> bool {
    exists|a: int, b: int|
        0 <= a < ms.len() && 0 <= b < ms[a].substs@.len() && ms[a].eclass == c && ids_of(
            #[trigger] ms[a].substs@[b]@,
        ) == subst
}

/// Whether every id of `ids` leads its class.
pub open spec fn all_lead(ids: Seq<nat>, leader: Seq<nat>) -> bool {
    forall|k: int| 0 <= k < ids.len() ==> leader[#[trigger] ids[k] as int] == ids[k]
}

/// `Extractor::new` with `AstSize`, and `Extractor::find_best`: a smallest
/// tree that the class of `id` represents, as an expression, and its cost:
/// the number of its nodes, or the largest number where that is too large.
/// No tree that the class represents has fewer nodes than the cost.
#[verifier::external_body]
pub(crate) fn egraph_best(g: &Graph, id: usize) -> (r: (usize, Vec<Language>))
    requires
        graph_wf(egraph_nodes(*g), egraph_leader(*g)),
        id < egraph_nodes(*g).len(),
    ensures
        is_expr(nodes_view(r.1@)),
        represented(
            egraph_nodes(*g),
            egraph_leader(*g),
            egraph_leader(*g)[id as int],
            nodes_view(r.1@),
            r.1@.len() - 1,
        ),
        r.0 == if tree_size(nodes_view(r.1@), r.1@.len() - 1) <= usize::MAX {
            tree_size(nodes_view(r.1@), r.1@.len() - 1)
        } else {
            usize::MAX as nat
        },
        forall|other: Seq<(Seq<char>, Seq<nat>)>|
            is_expr(other) && #[trigger] represented(
                egraph_nodes(*g),
                egraph_leader(*g),
                egraph_leader(*g)[id as int],
                other,
                other.len() - 1,
            ) ==> r.0 <= tree_size(other, other.len() - 1),
{
    let node = |n: &egg::SymbolLang| Language {
        function: n.op.to_string(),
        children: n.children.iter().map(|i| usize::from(*i)).collect(),
    };
    let (cost, expr) = egg::Extractor::new(&g.inner, egg::AstSize).find_best(egg::Id::from(id));
    (cost, expr.as_ref().iter().map(node).collect())
}

/// `RecExpr::from_str`: the nodes of the expression that `egg` reads from
/// the text, or what `egg` says against the text. What is read is an
/// expression: not empty, children before parents.
#[verifier::external_body]
pub(crate) fn parse_expr(text: &str) -> (r: Result<Vec<Language>, String>)
    ensures
        match expr_nodes(text@) {
            Some(nodes) => r is Ok && nodes_view(r->Ok_0@) == nodes && is_expr(nodes),
            None => r is Err,
        },
{
    let node = |n: &egg::SymbolLang| Language {
        function: n.op.to_string(),
        children: n.children.iter().map(|i| usize::from(*i)).collect(),
    };
    match text.parse::<egg::RecExpr<egg::SymbolLang>>() {
        Ok(expr) => Ok(expr.as_ref().iter().map(node).collect()),
        Err(e) => Err(format!("{:?}", e)),
    }
}

/// `Searcher::search` of the pattern that `egg` reads from `pattern`, on a
/// rebuilt e-graph: for each class with a match, the substitutions, each as
/// the ids of the e-graph that it binds to the variables of the pattern, in
/// the order of the variables. No match is without substitution; under each
/// substitution the class matches the pattern; and each way in which a class
/// matches the pattern, with leaders bound to the variables, is among the
/// substitutions of the class.
#[verifier::external_body]
pub(crate) fn egraph_search(g: &Graph, pattern: &str) -> (r: Vec<Match>)
    requires
        egraph_clean(*g),
        pattern_vars(pattern@) is Some,
    ensures
        matches_fit(r@, pattern_vars(pattern@)->Some_0.len(), egraph_nodes(*g).len()),
        forall|k: int| 0 <= k < r@.len() ==> (#[trigger] r@[k]).substs@.len() > 0,
        forall|k: int|
            0 <= k < r@.len() ==> match_holds(
                *g,
                #[trigger] r@[k],
                pattern_nodes(pattern@)->Some_0,
                pattern_vars(pattern@)->Some_0,
            ),
        forall|c: nat, subst: Seq<nat>|
            c < egraph_nodes(*g).len() && egraph_leader(*g)[c as int] == c && subst.len()
                == pattern_vars(pattern@)->Some_0.len() && ids_below(
                subst,
                egraph_nodes(*g).len(),
            ) && all_lead(subst, egraph_leader(*g)) && #[trigger] fits(
                egraph_nodes(*g),
                egraph_leader(*g),
                c,
                pattern_nodes(pattern@)->Some_0,
                pattern_vars(pattern@)->Some_0,
                subst,
                pattern_nodes(pattern@)->Some_0.len() - 1,
            ) ==> has_match(r@, c, subst),
{
    let pat: egg::Pattern<egg::SymbolLang> = pattern.parse().unwrap();
    egg::Searcher::<egg::SymbolLang, ()>::search(&pat, &g.inner).iter().map(
        |m| Match {
            eclass: usize::from(m.eclass),
            substs: m.substs.iter().map(
                |s| pat.vars().iter().map(|v| usize::from(s[*v])).collect(),
            ).collect(),
        },
    ).collect()
}

/// `Rewrite::new` and `Rewrite::apply`, for one substitution of one match:
/// the right side is added with the bound ids for its variables and united
/// with the class of the match, which matches the right side afterwards.
/// Ids that had one leader keep one leader; the node table grows by at most
/// one node for each character of the right side, and the number of nodes
/// grows as the node table does. Where the e-graph finds the right side
/// with the bound ids, no node is added and the class found is united with
/// the class of the match; where the two are one class already, the e-graph
/// finds afterwards what it found before.
#[verifier::external_body]
pub(crate) fn egraph_apply(
    g: &mut Graph,
    name: &str,
    left: &str,
    right: &str,
    eclass: usize,
    subst: &Vec<usize>,
)
    requires
        graph_wf(egraph_nodes(*old(g)), egraph_leader(*old(g))),
        pattern_vars(left@) is Some,
        pattern_vars(right@) is Some,
        vars_within(pattern_vars(right@)->Some_0, pattern_vars(left@)->Some_0),
        eclass < egraph_nodes(*old(g)).len(),
        subst@.len() == pattern_vars(left@)->Some_0.len(),
        ids_below(ids_of(subst@), egraph_nodes(*old(g)).len()),
        egraph_nodes(*old(g)).len() + right@.len() <= u32::MAX,
    ensures
        graph_wf(egraph_nodes(*final(g)), egraph_leader(*final(g))),
        egraph_nodes(*old(g)).is_prefix_of(egraph_nodes(*final(g))),
        egraph_nodes(*final(g)).len() <= egraph_nodes(*old(g)).len() + right@.len(),
        coarsens(egraph_leader(*old(g)), egraph_leader(*final(g))),
        egraph_node_count(*final(g)) - egraph_node_count(*old(g)) == egraph_nodes(
            *final(g),
        ).len() - egraph_nodes(*old(g)).len(),
        fits(
            egraph_nodes(*final(g)),
            egraph_leader(*final(g)),
            egraph_leader(*final(g))[eclass as int],
            pattern_nodes(right@)->Some_0,
            pattern_vars(left@)->Some_0,
            ids_of(subst@),
            pattern_nodes(right@)->Some_0.len() - 1,
        ),
        instance(
            *old(g),
            pattern_nodes(right@)->Some_0,
            pattern_vars(left@)->Some_0,
            ids_of(subst@),
            pattern_nodes(right@)->Some_0.len() - 1,
        ) matches Some(id) ==> {
            &&& egraph_nodes(*final(g)) == egraph_nodes(*old(g))
            &&& union_of(
                egraph_leader(*old(g)),
                id,
                eclass as nat,
                egraph_leader(*final(g)),
            )
            &&& egraph_leader(*old(g))[id as int] == egraph_leader(*old(g))[eclass as int]
                ==> finds_same(*old(g), *final(g))
        },
    no_unwind
{
    let sides = (left.parse::<egg::Pattern<_>>().unwrap(), right.parse::<egg::Pattern<_>>().unwrap());
    let pairs = sides.0.vars().into_iter().zip(subst.iter().map(|id| egg::Id::from(*id)));
    let bound = pairs.fold(egg::Subst::default(), |mut out, b| { out.insert(b.0, b.1); out });
    let found = egg::SearchMatches { eclass: egg::Id::from(eclass), substs: vec![bound], ast: None };
    egg::Rewrite::<egg::SymbolLang, ()>::new(name, sides.0, sides.1).unwrap().apply(&mut g.inner, &[found]);
}

} // verus!
