//! The store of equivalence classes: nodes are added, classes united, and
//! congruence restored by a rebuild. The work is done by the e-graph of `egg`;
//! this module checks what is handed to it and states what comes back.

use crate::egraph::{holds_congruent, kept_leader};
use crate::egraph::{all_lead, class_count, coarsens, congruence_closed, congruent, egraph_add,
    egraph_apply, egraph_best, egraph_class_count, egraph_classes, egraph_clean, egraph_dump,
    egraph_find, egraph_find_node, egraph_is_clean, egraph_leader, egraph_len, egraph_lookup,
    egraph_new, egraph_node_count, egraph_nodes, egraph_rebuild, egraph_search,
    egraph_total_nodes, egraph_union, finds_congruent, finds_kept, finds_same, fits, Graph,
    graph_wf, has_match, ids_below, ids_of, instance, instances, is_expr, is_snapshot, is_tidy,
    is_var,
    match_holds, matches_fit, node_view, nodes_view, pattern_nodes, pattern_variables,
    pattern_vars, represented, texts_of, tree_size, union_of, vars_within};
use crate::error::EggvizRuntimeError;
use vstd::prelude::*;
use vstd::string::StringExecFns;

verus! {

/// A node as a plain value: the name of its function and the ids of the
/// classes of its arguments.
#[derive(Debug)]
pub struct Language {
    pub function: String,
    pub children: Vec<usize>,
}

/// What a search found in one class: the class, and each way to bind the
/// variables of the pattern, as the ids bound to the variables in their
/// order.
#[derive(Debug)]
pub struct Match {
    pub eclass: usize,
    pub substs: Vec<Vec<usize>>,
}

/// What a store holds.
pub struct GraphView {
    /// The nodes in the order in which they were added: at index `i` the
    /// node with the id `i`.
    pub nodes: Seq<(Seq<char>, Seq<nat>)>,
    /// For each id the representative of its class.
    pub leader: Seq<nat>,
    /// Whether the store was rebuilt after the last change.
    pub clean: bool,
    /// The number of nodes that the classes hold.
    pub node_count: nat,
}

/// The store of equivalence classes.
pub struct Store {
    graph: Graph,
}

impl View for Store {
    type V = GraphView;

    open spec fn view(&self) -> GraphView {
        GraphView {
            nodes: egraph_nodes(self.graph()),
            leader: egraph_leader(self.graph()),
            clean: egraph_clean(self.graph()),
            node_count: egraph_node_count(self.graph()),
        }
    }
}

impl Store {
    /// The e-graph that does the work.
    pub closed spec fn graph(&self) -> Graph {
        self.graph
    }

    /// The class in which the store finds the node, if it finds it.
    pub open spec fn found(&self, label: Seq<char>, children: Seq<nat>) -> Option<nat> {
        egraph_lookup(self.graph(), label, children)
    }

    /// Whether congruence is restored: congruent nodes are in one class, and
    /// the store finds every node that is congruent to one of its nodes.
    pub open spec fn settled(&self) -> bool {
        &&& congruence_closed(self@.nodes, self@.leader)
        &&& finds_congruent(self.graph())
    }

    /// Every id has a representative, a representative represents itself, and
    /// the children of a node are older than the node.
    #[verifier::type_invariant]
    pub closed spec fn wf(&self) -> bool {
        graph_wf(egraph_nodes(self.graph()), egraph_leader(self.graph()))
    }

    /// Whether the store holds the class `id`.
    pub open spec fn has(&self, id: nat) -> bool {
        id < self@.nodes.len()
    }

    /// Whether the store finds every node again in the class of its id.
    pub open spec fn finds_all(&self) -> bool {
        forall|i: int|
            0 <= i < self@.nodes.len() ==> self.found(
                (#[trigger] self@.nodes[i]).0,
                self@.nodes[i].1,
            ) == Some(self@.leader[i])
    }

    /// How `after` comes from `self` when the node is added and `id` is
    /// returned: a node that is found is returned with its class and nothing
    /// changes; else the node gets the next id and a class of its own. What
    /// was found before is found as before, and the node is found.
    pub open spec fn added(&self, label: Seq<char>, children: Seq<nat>, after: Store, id: nat) -> bool {
        &&& after.found(label, children) == Some(id)
        &&& id < after@.nodes.len()
        &&& after@.leader[id as int] == id
        &&& match self.found(label, children) {
            Some(c) => {
                &&& id == c
                &&& after@ == self@
                &&& finds_same(self.graph(), after.graph())
                &&& holds_congruent(self@.nodes, self@.leader, c, (label, children))
            },
            None => {
                &&& id == self@.nodes.len()
                &&& after@.nodes == self@.nodes.push((label, children))
                &&& after@.leader == self@.leader.push(id)
                &&& after@.node_count == self@.node_count + 1
                &&& !after@.clean
            },
        }
        &&& self.kept_by(after)
    }

    /// Whether every node that `self` finds is found by `after` in the same
    /// class.
    pub open spec fn kept_by(&self, after: Store) -> bool {
        finds_kept(self.graph(), after.graph())
    }

    /// A store without classes.
    pub fn new() -> (s: Store)
        ensures
            s@.nodes.len() == 0,
            s@.node_count == 0,
            !s@.clean,
            forall|label: Seq<char>, children: Seq<nat>|
                (#[trigger] s.found(label, children)) is None,
    {
        Store { graph: egraph_new() }
    }

    /// The store is in order: every id has a representative, a
    /// representative represents itself, and the children of a node are
    /// older than the node. Nothing is computed; the call tells a proof what
    /// holds of every store.
    pub fn in_order(&self)
        ensures
            graph_wf(self@.nodes, self@.leader),
    {
        proof {
            use_type_invariant(self);
        }
    }

    /// The number of ids given out so far.
    pub fn len(&self) -> (n: usize)
        ensures
            n == self@.nodes.len(),
            graph_wf(self@.nodes, self@.leader),
    {
        proof {
            use_type_invariant(self);
        }
        egraph_len(&self.graph)
    }

    /// Whether the store was rebuilt after the last change.
    pub fn is_clean(&self) -> (b: bool)
        ensures
            b == self@.clean,
    {
        egraph_is_clean(&self.graph)
    }

    /// The number of nodes that the classes hold.
    pub fn total_number_of_nodes(&self) -> (n: usize)
        ensures
            n == self@.node_count,
    {
        egraph_total_nodes(&self.graph)
    }

    /// The number of classes.
    pub fn number_of_classes(&self) -> (n: usize)
        ensures
            n == class_count(self@.leader),
    {
        egraph_class_count(&self.graph)
    }

    /// The representative of the class `id`; an internal error where the
    /// store holds no such class.
    pub fn find(&self, id: usize) -> (r: Result<usize, EggvizRuntimeError>)
        ensures
            match r {
                Ok(c) => self.has(id as nat) && c == self@.leader[id as int],
                Err(e) => !self.has(id as nat) && e@ is InternalError,
            },
    {
        if id < self.len() {
            Ok(egraph_find(&self.graph, id))
        } else {
            Err(EggvizRuntimeError::InternalError(String::from_str("no such class")))
        }
    }

    /// Whether the store holds every class of `ids`.
    pub fn holds_all(&self, ids: &Vec<usize>) -> (b: bool)
        ensures
            b == ids_below(ids_of(ids@), self@.nodes.len()),
    {
        let n = self.len();
        let mut i: usize = 0;
        while i < ids.len()
            invariant
                i <= ids.len(),
                n == self@.nodes.len(),
                forall|k: int| 0 <= k < i ==> (#[trigger] ids_of(ids@)[k]) < n,
            decreases ids.len() - i,
        {
            if ids[i] >= n {
                assert(ids_of(ids@)[i as int] == ids[i as int]);
                return false;
            }
            i += 1;
        }
        true
    }

    /// The class of the node, if the store finds the node; an internal error
    /// where a child is no class of the store.
    pub fn lookup(&self, label: &str, children: &Vec<usize>) -> (r: Result<
        Option<usize>,
        EggvizRuntimeError,
    >)
        ensures
            match r {
                Ok(Some(c)) => {
                    &&& self.found(label@, ids_of(children@)) == Some(c as nat)
                    &&& self.has(c as nat)
                    &&& self@.leader[c as int] == c
                    &&& holds_congruent(
                        self@.nodes,
                        self@.leader,
                        c as nat,
                        (label@, ids_of(children@)),
                    )
                },
                Ok(None) => self.found(label@, ids_of(children@)) is None,
                Err(e) => e@ is InternalError,
            },
            r is Ok == ids_below(ids_of(children@), self@.nodes.len()),
    {
        if !self.holds_all(children) {
            return Err(EggvizRuntimeError::InternalError(String::from_str("no such class")));
        }
        Ok(egraph_find_node(&self.graph, label, children))
    }

    /// Adds a node and returns its class. A node that the store finds is not
    /// added again: its class is returned and nothing changes. An internal
    /// error, and no change, where a child is no class of the store, or the
    /// node is new and no id is left.
    pub fn add(&mut self, label: &str, children: &Vec<usize>) -> (r: Result<
        usize,
        EggvizRuntimeError,
    >)
        ensures
            match r {
                Ok(id) => old(self).added(label@, ids_of(children@), *final(self), id as nat),
                Err(e) => e@ is InternalError && *final(self) == *old(self),
            },
            r is Ok == (ids_below(ids_of(children@), old(self)@.nodes.len()) && (old(
                self,
            )@.nodes.len() < u32::MAX || old(self).found(label@, ids_of(children@)) is Some)),
    {
        if !self.holds_all(children) {
            return Err(EggvizRuntimeError::InternalError(String::from_str("no such class")));
        }
        proof {
            use_type_invariant(&*self);
        }
        if self.len() >= u32::MAX as usize {
            return match egraph_find_node(&self.graph, label, children) {
                Some(id) => Ok(id),
                None => Err(EggvizRuntimeError::InternalError(String::from_str("no id is left"))),
            };
        }
        Ok(egraph_add(&mut self.graph, label, children))
    }

    /// Whether the store holds the first nodes of an expression and nothing
    /// else, where `ids` are the ids of those nodes: the node with the id of
    /// a node of the expression has its function and, for children, the ids
    /// of its children; every node of the store is one of them; no node
    /// stands twice; each node is alone in its class; and the store finds
    /// each of its nodes.
    #[verifier::opaque]
    pub open spec fn holds_just(&self, expr: Seq<(Seq<char>, Seq<nat>)>, ids: Seq<nat>) -> bool {
        &&& ids.len() <= expr.len()
        &&& ids_below(ids, self@.nodes.len())
        &&& forall|k: int| 0 <= k < ids.len() ==> ids_below(#[trigger] expr[k].1, k as nat)
        &&& forall|k: int|
            0 <= k < ids.len() ==> self@.nodes[#[trigger] ids[k] as int] == (
                expr[k].0,
                placed(expr[k].1, ids),
            )
        &&& forall|i: nat| i < self@.nodes.len() ==> #[trigger] ids.contains(i)
        &&& forall|i: int, j: int|
            0 <= i < j < self@.nodes.len() ==> #[trigger] self@.nodes[i] != #[trigger] self@.nodes[j]
        &&& forall|i: int| 0 <= i < self@.leader.len() ==> #[trigger] self@.leader[i] == i
        &&& self.finds_all()
    }

    /// The classes of the first `n` nodes of an expression, if the store
    /// finds them all: each node is looked up with the classes of the earlier
    /// nodes for its children.
    pub open spec fn expr_found(&self, nodes: Seq<(Seq<char>, Seq<nat>)>, n: nat) -> Option<
        Seq<nat>,
    >
        decreases n,
    {
        if n == 0 || n > nodes.len() {
            Some(Seq::empty())
        } else {
            match self.expr_found(nodes, (n - 1) as nat) {
                None => None,
                Some(ids) => match self.found(nodes[n - 1].0, placed(nodes[n - 1].1, ids)) {
                    Some(id) => Some(ids.push(id)),
                    None => None,
                },
            }
        }
    }

    /// Adds an expression, children before parents, and returns the class of
    /// its root. Equal subexpressions get one class. An expression that the
    /// store finds is not added again: the class of its root is returned and
    /// nothing changes. An internal error where the list of nodes is no
    /// expression or the store runs out of ids; the nodes added until then
    /// stay.
    pub fn add_expr(&mut self, nodes: &Vec<Language>) -> (r: Result<usize, EggvizRuntimeError>)
        ensures
            old(self).kept_by(*final(self)),
            old(self)@.nodes.is_prefix_of(final(self)@.nodes),
            final(self)@.leader.take(old(self)@.leader.len() as int) == old(self)@.leader,
            match r {
                Ok(id) => {
                    &&& is_expr(nodes_view(nodes@))
                    &&& final(self).expr_found(nodes_view(nodes@), nodes@.len()) matches Some(ids)
                        && ids.last() == id
                    &&& final(self).has(id as nat)
                    &&& represented(
                        final(self)@.nodes,
                        final(self)@.leader,
                        final(self)@.leader[id as int],
                        nodes_view(nodes@),
                        nodes@.len() - 1,
                    )
                },
                Err(e) => e@ is InternalError,
            },
            old(self).expr_found(nodes_view(nodes@), nodes@.len()) is Some && is_expr(
                nodes_view(nodes@),
            ) ==> r is Ok && r->Ok_0 == old(self).expr_found(
                nodes_view(nodes@),
                nodes@.len(),
            )->Some_0.last() && final(self)@ == old(self)@,
            is_expr(nodes_view(nodes@)) && old(self)@.nodes.len() + nodes@.len() <= u32::MAX
                ==> r is Ok,
            final(self)@.nodes.len() <= old(self)@.nodes.len() + nodes@.len(),
            r is Ok && old(self)@.nodes.len() == 0 ==> final(self).holds_just(
                nodes_view(nodes@),
                final(self).expr_found(nodes_view(nodes@), nodes@.len())->Some_0,
            ),
    {
        let ghost expr = nodes_view(nodes@);
        if nodes.len() == 0 {
            return Err(EggvizRuntimeError::InternalError(String::from_str("empty expression")));
        }
        let mut ids: Vec<usize> = Vec::new();
        let mut i: usize = 0;
        self.in_order();
        proof {
            if self@.nodes.len() == 0 {
                empty_holds_just(*self, expr);
                assert(ids_of(ids@) =~= Seq::<nat>::empty());
            }
        }
        while i < nodes.len()
            invariant
                i <= nodes.len(),
                nodes.len() > 0,
                expr == nodes_view(nodes@),
                ids@.len() == i,
                self.expr_found(expr, i as nat) == Some(ids_of(ids@)),
                ids_below(ids_of(ids@), self@.nodes.len()),
                forall|k: int| 0 <= k < i ==> ids_below(#[trigger] expr[k].1, k as nat),
                old(self).kept_by(*self),
                old(self)@.nodes.is_prefix_of(self@.nodes),
                self@.leader.take(old(self)@.leader.len() as int) == old(self)@.leader,
                old(self)@.leader.len() <= self@.leader.len(),
                self@.nodes.len() <= old(self)@.nodes.len() + i,
                old(self)@.nodes.len() == 0 ==> self.holds_just(expr, ids_of(ids@)),
                old(self).expr_found(expr, nodes@.len() as nat) is Some ==> self@ == old(self)@
                    && old(self).expr_found(expr, i as nat) == Some(ids_of(ids@)),
                forall|k: int|
                    0 <= k < i ==> represented(
                        self@.nodes,
                        self@.leader,
                        self@.leader[#[trigger] ids@[k] as int],
                        expr,
                        k,
                    ),
            decreases nodes.len() - i,
        {
            self.in_order();
            let ghost before = *self;
            let ghost seen = ids_of(ids@);
            let children = match place(&nodes[i].children, &ids) {
                Some(children) => children,
                None => {
                    return Err(
                        EggvizRuntimeError::InternalError(String::from_str("no expression")),
                    );
                },
            };
            proof {
                assert(ids_below(ids_of(children@), self@.nodes.len())) by {
                    assert forall|j: int| 0 <= j < children@.len() implies (#[trigger] ids_of(
                        children@,
                    )[j]) < self@.nodes.len() by {
                        assert(ids_of(children@).len() == expr[i as int].1.len());
                    }
                }
                if old(self).expr_found(expr, nodes@.len() as nat) is Some {
                    old(self).expr_found_prefix(expr, (i + 1) as nat, nodes@.len() as nat);
                    old(self).expr_found_prefix(expr, i as nat, (i + 1) as nat);
                    assert(old(self).found(expr[i as int].0, placed(expr[i as int].1, seen))
                        is Some);
                }
            }
            let id = match self.add(nodes[i].function.as_str(), &children) {
                Ok(id) => id,
                Err(e) => {
                    return Err(e);
                },
            };
            proof {
                let shape = (expr[i as int].0, ids_of(children@));
                assert(ids_of(children@).len() == expr[i as int].1.len());
                assert(before@.leader.len() <= self@.leader.len());
                assert(self@.leader.take(before@.leader.len() as int) =~= before@.leader);
                assert(coarsens(before@.leader, self@.leader)) by {
                    assert forall|a: int, b: int|
                        0 <= a < before@.leader.len() && 0 <= b < before@.leader.len()
                            && before@.leader[a] == before@.leader[b] implies self@.leader[a]
                        == self@.leader[b] by {
                        assert(self@.leader.take(before@.leader.len() as int)[a] == self@.leader[a]);
                        assert(self@.leader.take(before@.leader.len() as int)[b] == self@.leader[b]);
                    }
                }
                assert forall|k: int| 0 <= k < i implies represented(
                    self@.nodes,
                    self@.leader,
                    self@.leader[#[trigger] ids@[k] as int],
                    expr,
                    k,
                ) by {
                    assert(seen[k] == ids@[k]);
                    represented_kept(
                        before@.nodes,
                        before@.leader,
                        self@.nodes,
                        self@.leader,
                        ids@[k] as int,
                        expr,
                        k,
                    );
                }
                let w = if before.found(shape.0, shape.1) is Some {
                    choose|w: int|
                        0 <= w < before@.nodes.len() && before@.leader[w] == id && congruent(
                            before@.leader,
                            #[trigger] before@.nodes[w],
                            shape,
                        )
                } else {
                    id as int
                };
                assert forall|m: int|
                    #![trigger expr[i as int].1[m]]
                    0 <= m < expr[i as int].1.len() implies expr[i as int].1[m] < i && represented(
                    self@.nodes,
                    self@.leader,
                    self@.leader[self@.nodes[w].1[m] as int],
                    expr,
                    expr[i as int].1[m] as int,
                ) by {
                    let c = expr[i as int].1[m];
                    assert(c < i);
                    assert(ids_of(children@)[m] == seen[c as int]);
                    assert(seen[c as int] == ids@[c as int]);
                    assert(self@.leader[self@.nodes[w].1[m] as int] == self@.leader[ids@[c as int] as int]);
                }
                represented_by(self@.nodes, self@.leader, expr, i as int, w);
                if old(self)@.nodes.len() == 0 {
                    assert(ids_of(children@) == placed(expr[i as int].1, seen));
                    add_keeps_just(before, *self, expr, seen, id as nat);
                }
                before.expr_found_kept(*self, expr, i as nat);
                kept_by_trans(*old(self), before, *self);
                assert(ids_of(ids@.push(id)) =~= seen.push(id as nat));
                assert(ids_below(seen.push(id as nat), self@.nodes.len())) by {
                    assert forall|j: int| 0 <= j < seen.push(id as nat).len() implies (
                    #[trigger] seen.push(id as nat)[j]) < self@.nodes.len() by {}
                }
            }
            ids.push(id);
            i += 1;
        }
        proof {
            assert(ids_of(ids@).last() == ids@[ids@.len() - 1]);
            assert(ids@[nodes@.len() - 1] == ids@[ids@.len() - 1]);
        }
        Ok(ids[ids.len() - 1])
    }

    /// Makes one class of the classes `a` and `b` and returns its
    /// representative: the representative of the class that has more
    /// parents, where a node is a parent of a class once for each of its
    /// children in the class, and the representative of `a` where both have
    /// as many. Congruence is restored by the next rebuild only. An internal
    /// error, and no change, where `a` or `b` is no class of the store.
    pub fn union(&mut self, a: usize, b: usize) -> (r: Result<usize, EggvizRuntimeError>)
        ensures
            match r {
                Ok(c) => {
                    &&& union_of(old(self)@.leader, a as nat, b as nat, final(self)@.leader)
                    &&& c == kept_leader(old(self)@.nodes, old(self)@.leader, a as nat, b as nat)
                    &&& c == final(self)@.leader[a as int]
                    &&& c == final(self)@.leader[b as int]
                    &&& final(self)@.nodes == old(self)@.nodes
                    &&& final(self)@.node_count == old(self)@.node_count
                    &&& !final(self)@.clean
                },
                Err(e) => e@ is InternalError && *final(self) == *old(self),
            },
            r is Ok == (old(self).has(a as nat) && old(self).has(b as nat)),
    {
        let n = self.len();
        if a >= n || b >= n {
            return Err(EggvizRuntimeError::InternalError(String::from_str("no such class")));
        }
        let ghost before = self@.leader;
        proof {
            use_type_invariant(&*self);
        }
        let _ = egraph_union(&mut self.graph, a, b);
        proof {
            union_joins(before, a as nat, b as nat, self@.leader);
        }
        Ok(egraph_find(&self.graph, a))
    }

    /// Restores congruence: nodes with the same function and, place by
    /// place, arguments of one class are put into one class. Classes are only
    /// united, never split, and only as far as congruence asks for it; every
    /// node is found again in its class.
    pub fn rebuild(&mut self)
        ensures
            final(self)@.nodes == old(self)@.nodes,
            coarsens(old(self)@.leader, final(self)@.leader),
            least_closure(old(self)@.nodes, old(self)@.leader, final(self)@.leader),
            final(self).settled(),
            final(self).finds_all(),
            final(self)@.clean,
    {
        proof {
            use_type_invariant(&*self);
        }
        egraph_rebuild(&mut self.graph);
    }

    /// The matches of a pattern: for each class in which the pattern is
    /// found, the ways to bind its variables. An internal error where the
    /// store was not rebuilt after the last change or the text is no pattern.
    pub fn search(&self, pattern: &str) -> (r: Result<Vec<Match>, EggvizRuntimeError>)
        ensures
            r is Ok == (self@.clean && pattern_vars(pattern@) is Some),
            match r {
                Ok(ms) => {
                    &&& matches_fit(ms@, pattern_vars(pattern@)->Some_0.len(), self@.nodes.len())
                    &&& forall|k: int| 0 <= k < ms@.len() ==> (#[trigger] ms@[k]).substs@.len() > 0
                    &&& self.are_matches(ms@, pattern@)
                },
                Err(e) => e@ is InternalError,
            },
    {
        if !self.is_clean() {
            return Err(
                EggvizRuntimeError::InternalError(String::from_str("the store is not rebuilt")),
            );
        }
        match pattern_variables(pattern) {
            Err(msg) => Err(EggvizRuntimeError::InternalError(msg)),
            Ok(_) => Ok(egraph_search(&self.graph, pattern)),
        }
    }

    /// Whether under each substitution of each match of `ms` the class of
    /// the match, which is a representative, matches the pattern of the
    /// given text.
    pub open spec fn matches_hold(&self, ms: Seq<Match>, pattern: Seq<char>) -> bool {
        forall|k: int|
            0 <= k < ms.len() ==> match_holds(
                self.graph(),
                #[trigger] ms[k],
                pattern_nodes(pattern)->Some_0,
                pattern_vars(pattern)->Some_0,
            )
    }

    /// Whether `ms` is the matches of the pattern of the given text: under
    /// each substitution of each match the class of the match, which is a
    /// representative, matches the pattern; and each way in which a class
    /// matches the pattern, with representatives bound to the variables, is
    /// among the substitutions of the class.
    pub open spec fn are_matches(&self, ms: Seq<Match>, pattern: Seq<char>) -> bool {
        let pat = pattern_nodes(pattern)->Some_0;
        let vars = pattern_vars(pattern)->Some_0;
        &&& self.matches_hold(ms, pattern)
        &&& forall|c: nat, subst: Seq<nat>|
            c < self@.nodes.len() && self@.leader[c as int] == c && subst.len() == vars.len()
                && ids_below(subst, self@.nodes.len()) && all_lead(subst, self@.leader)
                && #[trigger] fits(self@.nodes, self@.leader, c, pat, vars, subst, pat.len() - 1)
                ==> has_match(ms, c, subst)
    }

    /// Whether a rule can be applied to a match: both sides are patterns,
    /// every variable of the right side stands in the left side, the class
    /// and the bound ids are classes of the store, one id is bound for each
    /// variable of the left side, and ids are left for the nodes of the
    /// right side.
    pub open spec fn applicable(&self, left: Seq<char>, right: Seq<char>, eclass: nat, subst: Seq<nat>) -> bool {
        &&& is_rule(left, right)
        &&& self.has(eclass)
        &&& subst.len() == pattern_vars(left)->Some_0.len()
        &&& ids_below(subst, self@.nodes.len())
        &&& self@.nodes.len() + right.len() <= u32::MAX
    }

    /// How `after` comes from `self` by applying a rule to a match: nodes
    /// are only added, at most one for each character of the right side;
    /// classes are only united; the number of nodes grows as the nodes do;
    /// afterwards the class of the match matches the right side. Where the
    /// store finds the right side with the bound ids, no node is added and
    /// the class found is united with the class of the match; where the two
    /// are one class already, the store finds afterwards what it found
    /// before.
    pub open spec fn applied(
        &self,
        left: Seq<char>,
        right: Seq<char>,
        eclass: nat,
        subst: Seq<nat>,
        after: Store,
    ) -> bool {
        let pat = pattern_nodes(right)->Some_0;
        let vars = pattern_vars(left)->Some_0;
        &&& self@.nodes.is_prefix_of(after@.nodes)
        &&& after@.nodes.len() <= self@.nodes.len() + right.len()
        &&& coarsens(self@.leader, after@.leader)
        &&& after@.node_count - self@.node_count == after@.nodes.len() - self@.nodes.len()
        &&& fits(
            after@.nodes,
            after@.leader,
            after@.leader[eclass as int],
            pat,
            vars,
            subst,
            pat.len() - 1,
        )
        &&& instance(self.graph(), pat, vars, subst, pat.len() - 1) matches Some(id) ==> {
            &&& after@.nodes == self@.nodes
            &&& union_of(self@.leader, id, eclass, after@.leader)
            &&& self@.leader[id as int] == self@.leader[eclass as int] ==> finds_same(
                self.graph(),
                after.graph(),
            )
        }
    }

    /// Applies the rule with the sides `left` and `right` to one match: the
    /// right side is added with the ids of `subst` for its variables, and its
    /// class is united with `eclass`. An internal error, and no change, where
    /// the rule cannot be applied to the match.
    pub fn apply(
        &mut self,
        name: &str,
        left: &str,
        right: &str,
        eclass: usize,
        subst: &Vec<usize>,
    ) -> (r: Result<(), EggvizRuntimeError>)
        ensures
            r is Ok == old(self).applicable(left@, right@, eclass as nat, ids_of(subst@)),
            match r {
                Ok(_) => old(self).applied(
                    left@,
                    right@,
                    eclass as nat,
                    ids_of(subst@),
                    *final(self),
                ),
                Err(e) => e@ is InternalError && *final(self) == *old(self),
            },
    {
        let left_vars = match pattern_variables(left) {
            Ok(vars) => vars,
            Err(msg) => {
                return Err(EggvizRuntimeError::InternalError(msg));
            },
        };
        let right_vars = match pattern_variables(right) {
            Ok(vars) => vars,
            Err(msg) => {
                return Err(EggvizRuntimeError::InternalError(msg));
            },
        };
        let n = self.len();
        let room = right.unicode_len();
        if !all_within(&right_vars, &left_vars) || eclass >= n || subst.len() != left_vars.len()
            || !self.holds_all(subst) || room > u32::MAX as usize || n > u32::MAX as usize - room {
            return Err(
                EggvizRuntimeError::InternalError(String::from_str("the rule does not apply")),
            );
        }
        proof {
            use_type_invariant(&*self);
        }
        egraph_apply(&mut self.graph, name, left, right, eclass, subst);
        Ok(())
    }

    /// A smallest tree that the class represents, as an expression, and its
    /// cost: the number of its nodes, or the largest number where that is
    /// too large. An internal error where the store holds no such class.
    pub fn best(&self, class: usize) -> (r: Result<(usize, Vec<Language>), EggvizRuntimeError>)
        ensures
            r is Ok == self.has(class as nat),
            match r {
                Ok((cost, expr)) => self.is_best(class as nat, cost as nat, nodes_view(expr@)),
                Err(e) => e@ is InternalError,
            },
    {
        if class >= self.len() {
            return Err(EggvizRuntimeError::InternalError(String::from_str("no such class")));
        }
        Ok(egraph_best(&self.graph, class))
    }

    /// Whether `expr` is a smallest tree that the class represents and
    /// `cost` its cost.
    pub open spec fn is_best(&self, class: nat, cost: nat, expr: Seq<(Seq<char>, Seq<nat>)>) -> bool {
        &&& is_expr(expr)
        &&& represented(self@.nodes, self@.leader, self@.leader[class as int], expr, expr.len() - 1)
        &&& cost == if tree_size(expr, expr.len() - 1) <= usize::MAX {
            tree_size(expr, expr.len() - 1)
        } else {
            usize::MAX as nat
        }
        &&& forall|other: Seq<(Seq<char>, Seq<nat>)>|
            is_expr(other) && #[trigger] represented(
                self@.nodes,
                self@.leader,
                self@.leader[class as int],
                other,
                other.len() - 1,
            ) ==> cost <= tree_size(other, other.len() - 1)
    }

    /// The classes of the store, each with its representative and its nodes.
    /// Where congruence is restored, the children of the nodes are
    /// representatives and no class lists a node twice.
    pub fn classes(&self) -> (r: Vec<(usize, Vec<Language>)>)
        ensures
            is_snapshot(r@, self@.nodes, self@.leader),
            self@.clean ==> is_tidy(r@, self@.leader),
    {
        egraph_classes(&self.graph)
    }

    /// The classes and their nodes, printed for a reader as the e-graph
    /// prints itself. The text is for the eye only: nothing is stated of it.
    pub fn dump(&self) -> String {
        egraph_dump(&self.graph)
    }
}

/// Whether every text of `inner` is one of `outer`.
pub fn all_within(inner: &Vec<String>, outer: &Vec<String>) -> (b: bool)
    ensures
        b == vars_within(texts_of(inner@), texts_of(outer@)),
{
    let mut i: usize = 0;
    while i < inner.len()
        invariant
            i <= inner.len(),
            forall|k: int| 0 <= k < i ==> texts_of(outer@).contains(#[trigger] texts_of(inner@)[k]),
        decreases inner.len() - i,
    {
        let mut j: usize = 0;
        let mut seen = false;
        while j < outer.len()
            invariant
                j <= outer.len(),
                i < inner.len(),
                seen ==> texts_of(outer@).contains(texts_of(inner@)[i as int]),
                !seen ==> forall|k: int| 0 <= k < j ==> texts_of(outer@)[k] != texts_of(inner@)[i as int],
            decreases outer.len() - j,
        {
            if outer[j] == inner[i] {
                assert(texts_of(outer@)[j as int] == texts_of(inner@)[i as int]);
                seen = true;
            }
            j += 1;
        }
        if !seen {
            assert(!texts_of(outer@).contains(texts_of(inner@)[i as int]));
            return false;
        }
        i += 1;
    }
    true
}

/// The text of the tree below the node `k` of an expression: the name of a
/// node without children, or in parentheses the name and, each after one
/// space, the texts of the children.
pub open spec fn expr_text(expr: Seq<(Seq<char>, Seq<nat>)>, k: int) -> Seq<char>
    decreases k, 1nat, 0nat,
{
    if !(0 <= k < expr.len()) {
        Seq::empty()
    } else if expr[k].1.len() == 0 {
        expr[k].0
    } else {
        seq!['('] + expr[k].0 + children_text(expr, k, expr[k].1.len()) + seq![')']
    }
}

/// The texts of the first `m` children of the node `k` of an expression,
/// each after one space. A child that is no earlier node has no text.
pub open spec fn children_text(expr: Seq<(Seq<char>, Seq<nat>)>, k: int, m: nat) -> Seq<char>
    decreases k, 0nat, m,
{
    if m == 0 || !(0 <= k < expr.len()) || m > expr[k].1.len() {
        Seq::empty()
    } else if expr[k].1[m - 1] < k {
        children_text(expr, k, (m - 1) as nat) + seq![' '] + expr_text(
            expr,
            expr[k].1[m - 1] as int,
        )
    } else {
        children_text(expr, k, (m - 1) as nat) + seq![' ']
    }
}

/// The text of the tree below the node `k` of an expression.
pub fn expr_string(expr: &Vec<Language>, k: usize) -> (s: String)
    ensures
        s@ == expr_text(nodes_view(expr@), k as int),
    decreases k,
{
    let ghost view = nodes_view(expr@);
    if k >= expr.len() {
        return String::new();
    }
    if expr[k].children.len() == 0 {
        return expr[k].function.clone();
    }
    let mut s = String::new();
    s.push('(');
    s.append(expr[k].function.as_str());
    let mut m: usize = 0;
    while m < expr[k].children.len()
        invariant
            k < expr.len(),
            m <= expr[k as int].children.len(),
            view == nodes_view(expr@),
            view[k as int] == node_view(expr@[k as int]),
            s@ == seq!['('] + view[k as int].0 + children_text(view, k as int, m as nat),
        decreases expr[k as int].children.len() - m,
    {
        s.push(' ');
        let child = expr[k].children[m];
        if child < k {
            let t = expr_string(expr, child);
            s.append(t.as_str());
        }
        assert(s@ =~= seq!['('] + view[k as int].0 + children_text(view, k as int, (m + 1) as nat));
        m += 1;
    }
    s.push(')');
    s
}

/// Whether two texts are the sides of a rule: both are patterns, and every
/// variable of the right one stands in the left one.
pub open spec fn is_rule(left: Seq<char>, right: Seq<char>) -> bool {
    &&& pattern_vars(left) is Some
    &&& pattern_vars(right) is Some
    &&& pattern_nodes(left) is Some
    &&& pattern_nodes(right) is Some
    &&& is_expr(pattern_nodes(left)->Some_0)
    &&& is_expr(pattern_nodes(right)->Some_0)
    &&& pattern_vars(left)->Some_0.no_duplicates()
    &&& vars_within(pattern_vars(right)->Some_0, pattern_vars(left)->Some_0)
}

/// The children of a node, each replaced by the class of the node that it
/// names; nothing where a child names no node of `ids`.
pub fn place(children: &Vec<usize>, ids: &Vec<usize>) -> (r: Option<Vec<usize>>)
    ensures
        r is Some == ids_below(ids_of(children@), ids@.len() as nat),
        r matches Some(m) ==> ids_of(m@) == placed(ids_of(children@), ids_of(ids@)),
{
    let mut out: Vec<usize> = Vec::new();
    let mut k: usize = 0;
    while k < children.len()
        invariant
            k <= children.len(),
            out@.len() == k,
            forall|j: int| 0 <= j < k ==> (#[trigger] ids_of(children@)[j]) < ids@.len(),
            forall|j: int| 0 <= j < k ==> #[trigger] out@[j] == ids@[children@[j] as int],
        decreases children.len() - k,
    {
        let c = children[k];
        if c >= ids.len() {
            assert(ids_of(children@)[k as int] == c);
            return None;
        }
        out.push(ids[c]);
        k += 1;
    }
    Some(out)
}

/// The children of a node, each replaced by the class found for the node
/// that it names.
pub open spec fn placed(children: Seq<nat>, ids: Seq<nat>) -> Seq<nat> {
    children.map_values(|c: nat| ids[c as int])
}

impl Store {
    /// What is found of an expression is found of each of its beginnings,
    /// and with the same classes.
    pub proof fn expr_found_prefix(self, nodes: Seq<(Seq<char>, Seq<nat>)>, i: nat, n: nat)
        requires
            i <= n <= nodes.len(),
            self.expr_found(nodes, n) is Some,
        ensures
            self.expr_found(nodes, i) is Some,
            self.expr_found(nodes, i)->Some_0 == self.expr_found(nodes, n)->Some_0.take(i as int),
            self.expr_found(nodes, n)->Some_0.len() == n,
        decreases n,
    {
        if n > 0 && i == n {
            self.expr_found_prefix(nodes, (n - 1) as nat, (n - 1) as nat);
        } else if n > 0 {
            self.expr_found_prefix(nodes, i, (n - 1) as nat);
        }
    }

    /// What is found of an expression stays found, with the same classes, in
    /// a store that keeps what was found.
    pub proof fn expr_found_kept(self, after: Store, nodes: Seq<(Seq<char>, Seq<nat>)>, n: nat)
        requires
            self.kept_by(after),
            self.expr_found(nodes, n) is Some,
        ensures
            after.expr_found(nodes, n) == self.expr_found(nodes, n),
        decreases n,
    {
        if 0 < n <= nodes.len() {
            self.expr_found_kept(after, nodes, (n - 1) as nat);
        }
    }
}

/// In a store in which congruence is restored, a class that matches a
/// pattern under a substitution is found for the pattern: the store finds
/// the pattern with the bound ids, in that class.
pub proof fn fits_is_found(
    s: Store,
    c: nat,
    pat: Seq<(Seq<char>, Seq<nat>)>,
    vars: Seq<Seq<char>>,
    subst: Seq<nat>,
    k: int,
)
    requires
        graph_wf(s@.nodes, s@.leader),
        s.settled(),
        subst.len() == vars.len(),
        ids_below(subst, s@.nodes.len()),
        fits(s@.nodes, s@.leader, c, pat, vars, subst, k),
    ensures
        instance(s.graph(), pat, vars, subst, k) is Some,
        instance(s.graph(), pat, vars, subst, k)->Some_0 < s@.nodes.len(),
        s@.leader[instance(s.graph(), pat, vars, subst, k)->Some_0 as int] == c,
    decreases k, 1nat, 0nat,
{
    if !is_var(pat, vars, k) {
        let i = choose|i: int|
            #![trigger s@.nodes[i]]
            {
                &&& 0 <= i < s@.nodes.len()
                &&& s@.leader[i] == c
                &&& s@.nodes[i].0 == pat[k].0
                &&& s@.nodes[i].1.len() == pat[k].1.len()
                &&& forall|m: int|
                    #![trigger pat[k].1[m]]
                    0 <= m < pat[k].1.len() ==> pat[k].1[m] < k && fits(
                        s@.nodes,
                        s@.leader,
                        s@.leader[s@.nodes[i].1[m] as int],
                        pat,
                        vars,
                        subst,
                        pat[k].1[m] as int,
                    )
            };
        children_are_found(s, i, pat, vars, subst, k, pat[k].1.len());
    }
}

/// The step of the induction for the children of a node of a pattern.
pub proof fn children_are_found(
    s: Store,
    i: int,
    pat: Seq<(Seq<char>, Seq<nat>)>,
    vars: Seq<Seq<char>>,
    subst: Seq<nat>,
    k: int,
    m: nat,
)
    requires
        graph_wf(s@.nodes, s@.leader),
        s.settled(),
        subst.len() == vars.len(),
        ids_below(subst, s@.nodes.len()),
        0 <= k < pat.len(),
        0 <= i < s@.nodes.len(),
        s@.nodes[i].1.len() == pat[k].1.len(),
        m <= pat[k].1.len(),
        forall|j: int|
            #![trigger pat[k].1[j]]
            0 <= j < pat[k].1.len() ==> pat[k].1[j] < k && fits(
                s@.nodes,
                s@.leader,
                s@.leader[s@.nodes[i].1[j] as int],
                pat,
                vars,
                subst,
                pat[k].1[j] as int,
            ),
    ensures
        instances(s.graph(), pat, vars, subst, k, m) is Some,
        instances(s.graph(), pat, vars, subst, k, m)->Some_0.len() == m,
        ids_below(instances(s.graph(), pat, vars, subst, k, m)->Some_0, s@.nodes.len()),
        forall|j: int|
            0 <= j < m ==> s@.leader[(#[trigger] instances(
                s.graph(),
                pat,
                vars,
                subst,
                k,
                m,
            )->Some_0[j]) as int] == s@.leader[s@.nodes[i].1[j] as int],
    decreases k, 0nat, m,
{
    if m > 0 {
        children_are_found(s, i, pat, vars, subst, k, (m - 1) as nat);
        let child = pat[k].1[m - 1];
        fits_is_found(
            s,
            s@.leader[s@.nodes[i].1[m - 1] as int],
            pat,
            vars,
            subst,
            child as int,
        );
    }
}

/// A class that holds a node with the operator of a node of an expression,
/// and with children in classes that represent the children of that node,
/// represents the node.
pub proof fn represented_by(
    nodes: Seq<(Seq<char>, Seq<nat>)>,
    leader: Seq<nat>,
    expr: Seq<(Seq<char>, Seq<nat>)>,
    k: int,
    w: int,
)
    requires
        0 <= k < expr.len(),
        0 <= w < nodes.len(),
        nodes[w].0 == expr[k].0,
        nodes[w].1.len() == expr[k].1.len(),
        forall|m: int|
            #![trigger expr[k].1[m]]
            0 <= m < expr[k].1.len() ==> expr[k].1[m] < k && represented(
                nodes,
                leader,
                leader[nodes[w].1[m] as int],
                expr,
                expr[k].1[m] as int,
            ),
    ensures
        represented(nodes, leader, leader[w], expr, k),
{
}

/// What a class represents it represents after nodes were added and
/// classes united.
pub proof fn represented_kept(
    nodes: Seq<(Seq<char>, Seq<nat>)>,
    leader: Seq<nat>,
    more: Seq<(Seq<char>, Seq<nat>)>,
    united: Seq<nat>,
    x: int,
    expr: Seq<(Seq<char>, Seq<nat>)>,
    k: int,
)
    requires
        graph_wf(nodes, leader),
        nodes.is_prefix_of(more),
        united.len() == more.len(),
        coarsens(leader, united),
        0 <= x < leader.len(),
        represented(nodes, leader, leader[x], expr, k),
    ensures
        represented(more, united, united[x], expr, k),
    decreases k,
{
    let w = choose|i: int|
        #![trigger nodes[i]]
        {
            &&& 0 <= i < nodes.len()
            &&& leader[i] == leader[x]
            &&& nodes[i].0 == expr[k].0
            &&& nodes[i].1.len() == expr[k].1.len()
            &&& forall|m: int|
                #![trigger expr[k].1[m]]
                0 <= m < expr[k].1.len() ==> expr[k].1[m] < k && represented(
                    nodes,
                    leader,
                    leader[nodes[i].1[m] as int],
                    expr,
                    expr[k].1[m] as int,
                )
        };
    assert(more[w] == nodes[w]);
    assert forall|m: int|
        #![trigger expr[k].1[m]]
        0 <= m < expr[k].1.len() implies expr[k].1[m] < k && represented(
        more,
        united,
        united[more[w].1[m] as int],
        expr,
        expr[k].1[m] as int,
    ) by {
        assert(ids_below(nodes[w].1, w as nat));
        assert(nodes[w].1[m] < w);
        represented_kept(nodes, leader, more, united, nodes[w].1[m] as int, expr, expr[k].1[m] as int);
    }
    represented_by(more, united, expr, k, w);
}

/// What a class matches under a substitution it matches after nodes were
/// added and classes united.
pub proof fn fits_kept(
    nodes: Seq<(Seq<char>, Seq<nat>)>,
    leader: Seq<nat>,
    more: Seq<(Seq<char>, Seq<nat>)>,
    united: Seq<nat>,
    x: int,
    pat: Seq<(Seq<char>, Seq<nat>)>,
    vars: Seq<Seq<char>>,
    subst: Seq<nat>,
    k: int,
)
    requires
        graph_wf(nodes, leader),
        nodes.is_prefix_of(more),
        united.len() == more.len(),
        coarsens(leader, united),
        0 <= x < leader.len(),
        subst.len() == vars.len(),
        ids_below(subst, leader.len()),
        fits(nodes, leader, leader[x], pat, vars, subst, k),
    ensures
        fits(more, united, united[x], pat, vars, subst, k),
    decreases k,
{
    if is_var(pat, vars, k) {
        let at = vars.index_of(pat[k].0);
        assert(0 <= at < vars.len());
        assert(subst[at] < leader.len());
    } else {
        let w = choose|i: int|
            #![trigger nodes[i]]
            {
                &&& 0 <= i < nodes.len()
                &&& leader[i] == leader[x]
                &&& nodes[i].0 == pat[k].0
                &&& nodes[i].1.len() == pat[k].1.len()
                &&& forall|m: int|
                    #![trigger pat[k].1[m]]
                    0 <= m < pat[k].1.len() ==> pat[k].1[m] < k && fits(
                        nodes,
                        leader,
                        leader[nodes[i].1[m] as int],
                        pat,
                        vars,
                        subst,
                        pat[k].1[m] as int,
                    )
            };
        assert(more[w] == nodes[w]);
        assert forall|m: int|
            #![trigger pat[k].1[m]]
            0 <= m < pat[k].1.len() implies pat[k].1[m] < k && fits(
            more,
            united,
            united[more[w].1[m] as int],
            pat,
            vars,
            subst,
            pat[k].1[m] as int,
        ) by {
            assert(ids_below(nodes[w].1, w as nat));
            assert(nodes[w].1[m] < w);
            fits_kept(
                nodes,
                leader,
                more,
                united,
                nodes[w].1[m] as int,
                pat,
                vars,
                subst,
                pat[k].1[m] as int,
            );
        }
        assert(united[w] == united[x]);
    }
}

/// What a class matches under a substitution it matches under every
/// substitution that binds, variable by variable, an id of the same class.
pub proof fn fits_same_leaders(
    nodes: Seq<(Seq<char>, Seq<nat>)>,
    leader: Seq<nat>,
    c: nat,
    pat: Seq<(Seq<char>, Seq<nat>)>,
    vars: Seq<Seq<char>>,
    a: Seq<nat>,
    b: Seq<nat>,
    k: int,
)
    requires
        a.len() == vars.len(),
        b.len() == vars.len(),
        forall|i: int| 0 <= i < a.len() ==> leader[#[trigger] a[i] as int] == leader[b[i] as int],
        fits(nodes, leader, c, pat, vars, a, k),
    ensures
        fits(nodes, leader, c, pat, vars, b, k),
    decreases k,
{
    if is_var(pat, vars, k) {
        let at = vars.index_of(pat[k].0);
        assert(0 <= at < vars.len());
        assert(leader[a[at] as int] == leader[b[at] as int]);
    } else {
        let w = choose|i: int|
            #![trigger nodes[i]]
            {
                &&& 0 <= i < nodes.len()
                &&& leader[i] == c
                &&& nodes[i].0 == pat[k].0
                &&& nodes[i].1.len() == pat[k].1.len()
                &&& forall|m: int|
                    #![trigger pat[k].1[m]]
                    0 <= m < pat[k].1.len() ==> pat[k].1[m] < k && fits(
                        nodes,
                        leader,
                        leader[nodes[i].1[m] as int],
                        pat,
                        vars,
                        a,
                        pat[k].1[m] as int,
                    )
            };
        assert forall|m: int|
            #![trigger pat[k].1[m]]
            0 <= m < pat[k].1.len() implies pat[k].1[m] < k && fits(
            nodes,
            leader,
            leader[nodes[w].1[m] as int],
            pat,
            vars,
            b,
            pat[k].1[m] as int,
        ) by {
            fits_same_leaders(
                nodes,
                leader,
                leader[nodes[w].1[m] as int],
                pat,
                vars,
                a,
                b,
                pat[k].1[m] as int,
            );
        }
        assert(leader[w] == c && nodes[w].0 == pat[k].0);
    }
}

/// A store without nodes holds the nodes of no expression, and nothing
/// else.
pub proof fn empty_holds_just(s: Store, expr: Seq<(Seq<char>, Seq<nat>)>)
    requires
        s@.nodes.len() == 0,
        s@.leader.len() == 0,
    ensures
        s.holds_just(expr, Seq::empty()),
{
    reveal(Store::holds_just);
}

/// A store that holds the first nodes of an expression and nothing else
/// holds, after the next node of the expression was added with the ids of
/// its children, one node more of the expression and nothing else.
pub proof fn add_keeps_just(
    before: Store,
    after: Store,
    expr: Seq<(Seq<char>, Seq<nat>)>,
    seen: Seq<nat>,
    id: nat,
)
    requires
        graph_wf(before@.nodes, before@.leader),
        before.holds_just(expr, seen),
        seen.len() < expr.len(),
        ids_below(expr[seen.len() as int].1, seen.len()),
        before.added(
            expr[seen.len() as int].0,
            placed(expr[seen.len() as int].1, seen),
            after,
            id,
        ),
    ensures
        after.holds_just(expr, seen.push(id)),
{
    reveal(Store::holds_just);
    let i = seen.len() as int;
    let shape = (expr[i].0, placed(expr[i].1, seen));
    let more = seen.push(id);
    assert forall|k: int| 0 <= k <= i implies placed(#[trigger] expr[k].1, more) == placed(
        expr[k].1,
        seen,
    ) by {
        assert(ids_below(expr[k].1, k as nat));
        assert(placed(expr[k].1, more) =~= placed(expr[k].1, seen)) by {
            assert forall|m: int| 0 <= m < expr[k].1.len() implies placed(expr[k].1, more)[m]
                == placed(expr[k].1, seen)[m] by {
                assert(expr[k].1[m] < k);
            }
        }
    }
    assert(ids_below(shape.1, before@.nodes.len())) by {
        assert forall|m: int| 0 <= m < shape.1.len() implies #[trigger] shape.1[m]
            < before@.nodes.len() by {
            assert(expr[i].1[m] < i);
            assert(shape.1[m] == seen[expr[i].1[m] as int]);
        }
    }
    match before.found(shape.0, shape.1) {
        Some(c) => {
            let w = choose|w: int|
                0 <= w < before@.nodes.len() && before@.leader[w] == c && congruent(
                    before@.leader,
                    #[trigger] before@.nodes[w],
                    shape,
                );
            assert(before@.nodes[w].1 =~= shape.1) by {
                assert forall|m: int| 0 <= m < shape.1.len() implies before@.nodes[w].1[m]
                    == shape.1[m] by {
                    assert(ids_below(before@.nodes[w].1, w as nat));
                    assert(before@.nodes[w].1[m] < w);
                    assert(before@.leader[before@.nodes[w].1[m] as int] == before@.leader[shape.1[m] as int]);
                }
            }
            assert(before@.nodes[w] == shape);
            assert(after@.nodes[more[i] as int] == (expr[i].0, placed(expr[i].1, more)));
            assert forall|n: nat| n < after@.nodes.len() implies #[trigger] more.contains(n) by {
                assert(seen.contains(n));
                let k = choose|k: int| 0 <= k < seen.len() && seen[k] == n;
                assert(more[k] == n);
            }
            assert(after.finds_all());
        },
        None => {
            assert(after@.nodes[more[i] as int] == (expr[i].0, placed(expr[i].1, more)));
            assert forall|n: nat| n < after@.nodes.len() implies #[trigger] more.contains(n) by {
                if n < before@.nodes.len() {
                    assert(seen.contains(n));
                    let k = choose|k: int| 0 <= k < seen.len() && seen[k] == n;
                    assert(more[k] == n);
                } else {
                    assert(more[i] == n);
                }
            }
            assert forall|a: int, b: int| 0 <= a < b < after@.nodes.len() implies #[trigger] after@.nodes[a]
                != #[trigger] after@.nodes[b] by {
                if b == before@.nodes.len() {
                    assert(before.found(before@.nodes[a].0, before@.nodes[a].1) is Some);
                }
            }
            assert(after.finds_all()) by {
                assert forall|n: int| 0 <= n < after@.nodes.len() implies after.found(
                    (#[trigger] after@.nodes[n]).0,
                    after@.nodes[n].1,
                ) == Some(after@.leader[n]) by {
                    if n < before@.nodes.len() {
                        assert(before.found(before@.nodes[n].0, before@.nodes[n].1) == Some(
                            before@.leader[n],
                        ));
                    }
                }
            }
        },
    }
    assert(ids_below(more, after@.nodes.len())) by {
        assert forall|k: int| 0 <= k < more.len() implies #[trigger] more[k] < after@.nodes.len() by {
            if k < seen.len() {
                assert(more[k] == seen[k]);
            }
        }
    }
    assert forall|k: int| 0 <= k < more.len() implies after@.nodes[#[trigger] more[k] as int] == (
        expr[k].0,
        placed(expr[k].1, more),
    ) by {
        if k < seen.len() {
            assert(more[k] == seen[k]);
            assert(before@.nodes[seen[k] as int] == (expr[k].0, placed(expr[k].1, seen)));
        }
    }
}

/// A store that holds the nodes of an expression and nothing else holds
/// them, and nothing else, after congruence was restored in it: no two of
/// its nodes are congruent, so that no two classes are united.
pub proof fn rebuild_keeps_just(
    before: Store,
    after: Store,
    expr: Seq<(Seq<char>, Seq<nat>)>,
    ids: Seq<nat>,
)
    requires
        graph_wf(before@.nodes, before@.leader),
        graph_wf(after@.nodes, after@.leader),
        before.holds_just(expr, ids),
        after@.nodes == before@.nodes,
        coarsens(before@.leader, after@.leader),
        least_closure(before@.nodes, before@.leader, after@.leader),
        after.finds_all(),
    ensures
        after.holds_just(expr, ids),
{
    reveal(Store::holds_just);
    let nodes = before@.nodes;
    let leader = before@.leader;
    assert(congruence_closed(nodes, leader)) by {
        assert forall|i: int, j: int|
            0 <= i < nodes.len() && 0 <= j < nodes.len() && congruent(
                leader,
                #[trigger] nodes[i],
                #[trigger] nodes[j],
            ) implies leader[i] == leader[j] by {
            assert(nodes[i].1 =~= nodes[j].1) by {
                assert forall|m: int| 0 <= m < nodes[i].1.len() implies nodes[i].1[m]
                    == nodes[j].1[m] by {
                    assert(ids_below(nodes[i].1, i as nat));
                    assert(ids_below(nodes[j].1, j as nat));
                    assert(nodes[i].1[m] < i);
                    assert(nodes[j].1[m] < j);
                    assert(leader[nodes[i].1[m] as int] == leader[nodes[j].1[m] as int]);
                }
            }
            assert(nodes[i] == nodes[j]);
        }
    }
    rebuild_of_closed_unites_nothing(nodes, leader, after@.leader);
    assert forall|i: int| 0 <= i < after@.leader.len() implies #[trigger] after@.leader[i] == i by {
        let r = after@.leader[i] as int;
        assert(after@.leader[r] == after@.leader[i]);
        assert(leader[r] == leader[i]);
    }
}

/// A store that keeps what a second keeps from a first keeps what the first
/// found.
pub proof fn kept_by_trans(a: Store, b: Store, c: Store)
    requires
        a.kept_by(b),
        b.kept_by(c),
    ensures
        a.kept_by(c),
{
    assert forall|l: Seq<char>, ch: Seq<nat>| (#[trigger] a.found(l, ch)) is Some implies c.found(
        l,
        ch,
    ) == a.found(l, ch) by {}
}

/// Whether `after` unites no more than congruence asks for: ids that it
/// puts into one class are in one class wherever what `before` united is
/// united and congruent nodes are in one class.
pub open spec fn least_closure(
    nodes: Seq<(Seq<char>, Seq<nat>)>,
    before: Seq<nat>,
    after: Seq<nat>,
) -> bool {
    forall|other: Seq<nat>|
        graph_wf(nodes, other) && coarsens(before, other) && #[trigger] congruence_closed(
            nodes,
            other,
        ) ==> coarsens(after, other)
}

/// A rebuild of a store in which congruent nodes are in one class unites
/// nothing: ids are in one class afterwards if and only if they were before.
pub proof fn rebuild_of_closed_unites_nothing(
    nodes: Seq<(Seq<char>, Seq<nat>)>,
    before: Seq<nat>,
    after: Seq<nat>,
)
    requires
        graph_wf(nodes, before),
        congruence_closed(nodes, before),
        coarsens(before, after),
        least_closure(nodes, before, after),
    ensures
        coarsens(after, before),
        forall|i: int, j: int|
            0 <= i < before.len() && 0 <= j < before.len() ==> (before[i] == before[j]
                <==> after[i] == after[j]),
{
}

/// After a union the two ids have one representative.
pub proof fn union_joins(before: Seq<nat>, a: nat, b: nat, after: Seq<nat>)
    requires
        a < before.len(),
        b < before.len(),
        union_of(before, a, b, after),
    ensures
        after.len() == before.len(),
        after[a as int] == after[b as int],
        coarsens(before, after),
{
}

/// Union is transitive: after a union of `a` with `b` and one of `b` with
/// `c`, the three have one representative.
pub proof fn union_transitive(
    first: Seq<nat>,
    a: nat,
    b: nat,
    second: Seq<nat>,
    c: nat,
    third: Seq<nat>,
)
    requires
        a < first.len(),
        b < first.len(),
        c < first.len(),
        union_of(first, a, b, second),
        union_of(second, b, c, third),
    ensures
        third[a as int] == third[b as int],
        third[b as int] == third[c as int],
{
    union_joins(first, a, b, second);
    union_joins(second, b, c, third);
}

/// Union is commutative: a union of `a` with `b` is a union of `b` with `a`.
pub proof fn union_commutative(before: Seq<nat>, a: nat, b: nat, after: Seq<nat>)
    requires
        union_of(before, a, b, after),
    ensures
        union_of(before, b, a, after),
{
}

/// A rebuild closes congruence: where two nodes have the same function and
/// arguments that a union has put into one class, place by place, the
/// rebuild puts the two nodes into one class.
pub proof fn rebuild_closes_congruence(
    nodes: Seq<(Seq<char>, Seq<nat>)>,
    united: Seq<nat>,
    rebuilt: Seq<nat>,
    i: int,
    j: int,
)
    requires
        graph_wf(nodes, united),
        0 <= i < nodes.len(),
        0 <= j < nodes.len(),
        congruent(united, nodes[i], nodes[j]),
        coarsens(united, rebuilt),
        congruence_closed(nodes, rebuilt),
    ensures
        rebuilt[i] == rebuilt[j],
{
    assert(congruent(rebuilt, nodes[i], nodes[j])) by {
        assert forall|k: int| 0 <= k < nodes[i].1.len() implies rebuilt[#[trigger] nodes[i].1[k] as int]
            == rebuilt[nodes[j].1[k] as int] by {}
    }
}

/// Adding a node twice gives the same class both times, and the second time
/// changes nothing.
pub proof fn add_idempotent(
    s0: Store,
    label: Seq<char>,
    children: Seq<nat>,
    s1: Store,
    first: nat,
    s2: Store,
    second: nat,
)
    requires
        s0.added(label, children, s1, first),
        s1.added(label, children, s2, second),
    ensures
        first == second,
        s2@ == s1@,
{
}

} // verus!
