//! The single-step scheduler: it decides which rule may fire in which
//! iteration, applies the matches of the rules that may, and records the
//! rules whose application changed the store.

use crate::egraph::{all_lead, class_count, coarsens, congruent, finds_congruent, finds_same, fits,
    has_match,
    graph_wf, ids_below, ids_of, match_holds, match_view, matches_fit, pattern_nodes,
    pattern_variables, pattern_vars};
use crate::error::EggvizRuntimeError;
use crate::label::{EggvizRewriteRuleLabel, LabelView};
use crate::store::{all_within, fits_is_found, fits_kept, fits_same_leaders, GraphView, is_rule, least_closure, Match,
    rebuild_of_closed_unites_nothing, Store};
use vstd::prelude::*;
use vstd::string::StringExecFns;

verus! {

/// A rewrite rule ready to run: its label and the texts of its two sides.
/// Both sides are patterns, and every variable of the right side stands in
/// the left side.
pub struct EggvizRewrite {
    label: EggvizRewriteRuleLabel,
    left: String,
    right: String,
}

/// What a rewrite rule is.
pub struct RewriteView {
    pub label: LabelView,
    pub left: Seq<char>,
    pub right: Seq<char>,
}

impl View for EggvizRewrite {
    type V = RewriteView;

    closed spec fn view(&self) -> RewriteView {
        RewriteView { label: self.label@, left: self.left@, right: self.right@ }
    }
}

impl EggvizRewrite {
    /// The two texts are the sides of a rule.
    #[verifier::type_invariant]
    closed spec fn inv(&self) -> bool {
        is_rule(self.left@, self.right@)
    }

    /// The rule with the given label and sides; an internal error where the
    /// texts are not the sides of a rule.
    pub fn new(label: EggvizRewriteRuleLabel, left: String, right: String) -> (r: Result<
        EggvizRewrite,
        EggvizRuntimeError,
    >)
        ensures
            r is Ok == is_rule(left@, right@),
            match r {
                Ok(rule) => rule@ == (RewriteView { label: label@, left: left@, right: right@ }),
                Err(e) => e@ is InternalError,
            },
    {
        let left_vars = match pattern_variables(left.as_str()) {
            Ok(vars) => vars,
            Err(msg) => {
                return Err(EggvizRuntimeError::InternalError(msg));
            },
        };
        let right_vars = match pattern_variables(right.as_str()) {
            Ok(vars) => vars,
            Err(msg) => {
                return Err(EggvizRuntimeError::InternalError(msg));
            },
        };
        if !all_within(&right_vars, &left_vars) {
            return Err(
                EggvizRuntimeError::InternalError(
                    String::from_str("the right side of a rule refers to an unbound variable"),
                ),
            );
        }
        Ok(EggvizRewrite { label, left, right })
    }

    /// The label of the rule.
    pub fn label(&self) -> (l: &EggvizRewriteRuleLabel)
        ensures
            l@ == self@.label,
    {
        &self.label
    }

    /// The text of the left side.
    pub fn left(&self) -> (s: &str)
        ensures
            s@ == self@.left,
            is_rule(self@.left, self@.right),
    {
        proof {
            use_type_invariant(self);
        }
        self.left.as_str()
    }

    /// The text of the right side.
    pub fn right(&self) -> (s: &str)
        ensures
            s@ == self@.right,
            is_rule(self@.left, self@.right),
    {
        proof {
            use_type_invariant(self);
        }
        self.right.as_str()
    }
}

/// What the scheduler remembers between the calls of one step.
pub struct EggvizSingleStepSchedulerInnerState {
    target_iteration: usize,
    rewrite_target: Option<EggvizRewriteRuleLabel>,
    applied_rules: Vec<EggvizRewriteRuleLabel>,
}

/// What the state of the scheduler is.
pub struct SchedulerView {
    /// The last iteration in which rules may fire.
    pub target_iteration: nat,
    /// The one rule that may fire; every rule may where there is none.
    pub rewrite_target: Option<LabelView>,
    /// The rules whose application changed the store, in the order of their
    /// application.
    pub applied_rules: Seq<LabelView>,
}

/// What an optional label is.
pub open spec fn target_view(rule: Option<EggvizRewriteRuleLabel>) -> Option<LabelView> {
    match rule {
        Some(t) => Some(t@),
        None => None,
    }
}

/// The labels of a list as plain values.
pub open spec fn labels_of(v: Seq<EggvizRewriteRuleLabel>) -> Seq<LabelView> {
    v.map_values(|l: EggvizRewriteRuleLabel| l@)
}

impl View for EggvizSingleStepSchedulerInnerState {
    type V = SchedulerView;

    closed spec fn view(&self) -> SchedulerView {
        SchedulerView {
            target_iteration: self.target_iteration as nat,
            rewrite_target: target_view(self.rewrite_target),
            applied_rules: labels_of(self.applied_rules@),
        }
    }
}

/// Whether the rule `label` may fire in `iteration`: the iteration is not
/// past the target, and the rule is the target if there is one.
pub open spec fn permits(s: SchedulerView, iteration: nat, label: LabelView) -> bool {
    &&& iteration <= s.target_iteration
    &&& (s.rewrite_target matches Some(target) ==> target == label)
}

/// Whether the store changed to the eye: in the number of its nodes or in
/// the number of its classes.
pub open spec fn changed(before: GraphView, after: GraphView) -> bool {
    before.node_count != after.node_count || class_count(before.leader) != class_count(
        after.leader,
    )
}

/// Whether two ids that have different leaders in `before` have one leader
/// in `after`: two classes became one.
pub open spec fn joins(before: Seq<nat>, after: Seq<nat>) -> bool {
    exists|i: int, j: int|
        0 <= i < before.len() && 0 <= j < before.len() && #[trigger] before[i] != #[trigger] before[j]
            && after[i] == after[j]
}

/// Whether a step that took the store from `before` to `after` reports
/// rightly that it changed the store: it reports a change if and only if
/// nodes were added or two classes became one, and where it reports none the
/// store holds the same nodes in the same classes.
pub open spec fn reports_change(before: GraphView, after: GraphView, reported: bool) -> bool {
    &&& reported <==> after.nodes.len() > before.nodes.len() || joins(before.leader, after.leader)
    &&& !reported ==> same_classes(before, after)
}

/// Two steps in a row report a change if one of them does.
pub proof fn reports_compose(a: GraphView, b: GraphView, c: GraphView, first: bool, second: bool)
    requires
        reports_change(a, b, first),
        reports_change(b, c, second),
        a.nodes.len() <= b.nodes.len() <= c.nodes.len(),
        a.leader.len() == a.nodes.len(),
        b.leader.len() == b.nodes.len(),
        c.leader.len() == c.nodes.len(),
        coarsens(a.leader, b.leader),
        coarsens(b.leader, c.leader),
    ensures
        reports_change(a, c, first || second),
{
    if first && !(c.nodes.len() > a.nodes.len()) {
        joins_stay(a.leader, b.leader, c.leader);
    }
    if second && !(c.nodes.len() > a.nodes.len()) {
        joins_later(a.leader, b.leader, c.leader);
    }
    if !first && !second {
        assert(!joins(a.leader, c.leader)) by {
            if joins(a.leader, c.leader) {
                let (i, j) = choose|i: int, j: int|
                    0 <= i < a.leader.len() && 0 <= j < a.leader.len() && #[trigger] a.leader[i]
                        != #[trigger] a.leader[j] && c.leader[i] == c.leader[j];
                assert(b.leader[i] == b.leader[j]);
            }
        }
    }
}

/// A store that did not change to the eye, in which nodes were only added
/// and classes only united, holds the same nodes in the same classes.
pub proof fn unchanged_is_same(before: GraphView, after: GraphView)
    requires
        graph_wf(before.nodes, before.leader),
        graph_wf(after.nodes, after.leader),
        before.nodes.is_prefix_of(after.nodes),
        coarsens(before.leader, after.leader),
        after.node_count - before.node_count == after.nodes.len() - before.nodes.len(),
    ensures
        changed(before, after) <==> after.nodes.len() > before.nodes.len() || joins(
            before.leader,
            after.leader,
        ),
        !changed(before, after) ==> same_classes(before, after),
{
    if after.nodes.len() == before.nodes.len() {
        assert(after.nodes =~= before.nodes);
        if joins(before.leader, after.leader) {
            class_count_lower(before.nodes, before.leader, after.leader);
        } else {
            class_count_kept(before.nodes, before.leader, after.leader);
        }
    }
}

/// Classes that became one stay one.
pub proof fn joins_stay(a: Seq<nat>, b: Seq<nat>, c: Seq<nat>)
    requires
        joins(a, b),
        a.len() <= b.len(),
        coarsens(b, c),
    ensures
        joins(a, c),
{
    let (i, j) = choose|i: int, j: int|
        0 <= i < a.len() && 0 <= j < a.len() && #[trigger] a[i] != #[trigger] a[j] && b[i] == b[j];
}

/// Classes that become one after a first change were different before it.
pub proof fn joins_later(a: Seq<nat>, b: Seq<nat>, c: Seq<nat>)
    requires
        coarsens(a, b),
        a.len() == b.len(),
        joins(b, c),
    ensures
        joins(a, c),
{
    let (i, j) = choose|i: int, j: int|
        0 <= i < b.len() && 0 <= j < b.len() && #[trigger] b[i] != #[trigger] b[j] && c[i] == c[j];
}

/// Where no two classes became one, there are as many classes as before.
pub proof fn class_count_kept(
    nodes: Seq<(Seq<char>, Seq<nat>)>,
    before: Seq<nat>,
    after: Seq<nat>,
)
    requires
        graph_wf(nodes, before),
        graph_wf(nodes, after),
        coarsens(before, after),
        !joins(before, after),
    ensures
        class_count(before) == class_count(after),
{
    let f = |r: nat| after[r as int];
    let x = before.to_set();
    let y = after.to_set();
    vstd::seq_lib::seq_to_set_is_finite(before);
    assert(vstd::relations::injective_on(f, x)) by {
        assert forall|r1: nat, r2: nat| x.contains(r1) && x.contains(r2) && f(r1) == f(
            r2,
        ) implies r1 == r2 by {}
    }
    assert(x.map(f) =~= y) by {
        assert forall|s: nat| y.contains(s) implies x.map(f).contains(s) by {
            let i = choose|i: int| 0 <= i < after.len() && after[i] == s;
            assert(x.contains(before[i]));
        }
        assert forall|s: nat| x.map(f).contains(s) implies y.contains(s) by {}
    }
    vstd::set_lib::lemma_map_size(x, y, f);
}

/// Where two classes became one, there are fewer classes than before.
pub proof fn class_count_lower(
    nodes: Seq<(Seq<char>, Seq<nat>)>,
    before: Seq<nat>,
    after: Seq<nat>,
)
    requires
        graph_wf(nodes, before),
        graph_wf(nodes, after),
        coarsens(before, after),
        joins(before, after),
    ensures
        class_count(after) < class_count(before),
{
    let f = |r: nat| after[r as int];
    let x = before.to_set();
    let y = after.to_set();
    vstd::seq_lib::seq_to_set_is_finite(before);
    let (i, j) = choose|i: int, j: int|
        0 <= i < before.len() && 0 <= j < before.len() && #[trigger] before[i] != #[trigger] before[j]
            && after[i] == after[j];
    let dropped = before[i];
    let kept = before[j];
    assert(x.contains(dropped));
    assert(x.contains(kept));
    assert(f(dropped) == after[i]);
    assert(f(kept) == after[j]);
    let rest = x.remove(dropped);
    assert(rest.map(f) =~= y) by {
        assert forall|s: nat| y.contains(s) implies rest.map(f).contains(s) by {
            let n = choose|n: int| 0 <= n < after.len() && after[n] == s;
            assert(x.contains(before[n]));
            assert(f(before[n]) == s);
            if before[n] == dropped {
                assert(rest.contains(kept));
                assert(f(kept) == s);
            } else {
                assert(rest.contains(before[n]));
            }
        }
        assert forall|s: nat| rest.map(f).contains(s) implies y.contains(s) by {
            let r = choose|r: nat| rest.contains(r) && f(r) == s;
            let n = choose|n: int| 0 <= n < before.len() && before[n] == r;
            assert(after[r as int] == s);
        }
    }
    vstd::set_lib::lemma_map_size_bound(rest, y, f);
}

/// Whether a rule holds of each of the matches already: under each
/// substitution of each match, the class of the match matches the right
/// side of the rule.
pub open spec fn all_hold(store: Store, rewrite: RewriteView, ms: Seq<Match>) -> bool {
    forall|a: int, b: int|
        0 <= a < ms.len() && 0 <= b < ms[a].substs@.len() ==> fits(
            store@.nodes,
            store@.leader,
            store@.leader[ms[a].eclass as int],
            pattern_nodes(rewrite.right)->Some_0,
            pattern_vars(rewrite.left)->Some_0,
            ids_of(#[trigger] ms[a].substs@[b]@),
            pattern_nodes(rewrite.right)->Some_0.len() - 1,
        )
}

/// Whether a rule holds of the matches before the match `i`, and of the
/// substitutions of the match `i` before its substitution `j`.
pub open spec fn hold_before(store: Store, rewrite: RewriteView, ms: Seq<Match>, i: int, j: int) -> bool {
    forall|a: int, b: int|
        0 <= a < ms.len() && 0 <= b < ms[a].substs@.len() && (a < i || (a == i && b < j)) ==> fits(
            store@.nodes,
            store@.leader,
            store@.leader[ms[a].eclass as int],
            pattern_nodes(rewrite.right)->Some_0,
            pattern_vars(rewrite.left)->Some_0,
            ids_of(#[trigger] ms[a].substs@[b]@),
            pattern_nodes(rewrite.right)->Some_0.len() - 1,
        )
}

/// A rule that holds of matches holds of them after nodes were added and
/// classes united.
pub proof fn hold_before_kept(
    before: Store,
    after: Store,
    rewrite: RewriteView,
    ms: Seq<Match>,
    i: int,
    j: int,
    len: nat,
)
    requires
        graph_wf(before@.nodes, before@.leader),
        before@.nodes.is_prefix_of(after@.nodes),
        after@.leader.len() == after@.nodes.len(),
        coarsens(before@.leader, after@.leader),
        matches_fit(ms, pattern_vars(rewrite.left)->Some_0.len(), len),
        len <= before@.nodes.len(),
        hold_before(before, rewrite, ms, i, j),
    ensures
        hold_before(after, rewrite, ms, i, j),
{
    assert forall|a: int, b: int|
        0 <= a < ms.len() && 0 <= b < ms[a].substs@.len() && (a < i || (a == i && b < j)) implies fits(
        after@.nodes,
        after@.leader,
        after@.leader[ms[a].eclass as int],
        pattern_nodes(rewrite.right)->Some_0,
        pattern_vars(rewrite.left)->Some_0,
        ids_of(#[trigger] ms[a].substs@[b]@),
        pattern_nodes(rewrite.right)->Some_0.len() - 1,
    ) by {
        let m = match_view(ms[a]);
        assert(m.1[b] == ids_of(ms[a].substs@[b]@));
        assert(crate::egraph::match_fits(m, pattern_vars(rewrite.left)->Some_0.len(), len));
        assert(ids_below(m.1[b], before@.nodes.len())) by {
            assert(ids_below(m.1[b], len));
        }
        fits_kept(
            before@.nodes,
            before@.leader,
            after@.nodes,
            after@.leader,
            ms[a].eclass as int,
            pattern_nodes(rewrite.right)->Some_0,
            pattern_vars(rewrite.left)->Some_0,
            m.1[b],
            pattern_nodes(rewrite.right)->Some_0.len() - 1,
        );
    }
}

/// Whether a rule holds in a store already: each class that matches the
/// left side under a substitution matches the right side under it too.
pub open spec fn rule_holds(store: Store, rewrite: RewriteView) -> bool {
    forall|c: nat, subst: Seq<nat>|
        c < store@.nodes.len() && subst.len() == pattern_vars(rewrite.left)->Some_0.len()
            && ids_below(subst, store@.nodes.len()) && #[trigger] fits(
            store@.nodes,
            store@.leader,
            store@.leader[c as int],
            pattern_nodes(rewrite.left)->Some_0,
            pattern_vars(rewrite.left)->Some_0,
            subst,
            pattern_nodes(rewrite.left)->Some_0.len() - 1,
        ) ==> fits(
            store@.nodes,
            store@.leader,
            store@.leader[c as int],
            pattern_nodes(rewrite.right)->Some_0,
            pattern_vars(rewrite.left)->Some_0,
            subst,
            pattern_nodes(rewrite.right)->Some_0.len() - 1,
        )
}

/// Whether two stores hold the same nodes in the same classes.
pub open spec fn same_classes(a: GraphView, b: GraphView) -> bool {
    &&& a.nodes == b.nodes
    &&& coarsens(a.leader, b.leader)
    &&& coarsens(b.leader, a.leader)
}

/// Whether every rule that may fire holds in the store already.
pub open spec fn rules_hold(
    store: Store,
    rules: Seq<EggvizRewrite>,
    target: Option<LabelView>,
) -> bool {
    forall|k: int|
        0 <= k < rules.len() && (target matches Some(t) ==> (#[trigger] rules[k])@.label == t)
            ==> rule_holds(store, rules[k]@)
}

/// Whether two stores hold the same nodes in the same classes and find the
/// same.
pub open spec fn same_store(a: Store, b: Store) -> bool {
    &&& a@.nodes == b@.nodes
    &&& a@.leader == b@.leader
    &&& a@.node_count == b@.node_count
    &&& finds_same(a.graph(), b.graph())
}

/// A rule that holds in a store holds of the matches of its left side.
pub proof fn held_rule_holds_of_matches(store: Store, rewrite: RewriteView, ms: Seq<Match>)
    requires
        rule_holds(store, rewrite),
        store.matches_hold(ms, rewrite.left),
        matches_fit(ms, pattern_vars(rewrite.left)->Some_0.len(), store@.nodes.len()),
    ensures
        all_hold(store, rewrite, ms),
{
    assert forall|a: int, b: int| 0 <= a < ms.len() && 0 <= b < ms[a].substs@.len() implies fits(
        store@.nodes,
        store@.leader,
        store@.leader[ms[a].eclass as int],
        pattern_nodes(rewrite.right)->Some_0,
        pattern_vars(rewrite.left)->Some_0,
        ids_of(#[trigger] ms[a].substs@[b]@),
        pattern_nodes(rewrite.right)->Some_0.len() - 1,
    ) by {
        let m = match_view(ms[a]);
        assert(m.1[b] == ids_of(ms[a].substs@[b]@));
    }
}

/// What holds of a store holds of a store with the same nodes in the same
/// classes that finds the same.
pub proof fn same_store_holds(a: Store, b: Store, rewrite: RewriteView, ms: Seq<Match>)
    requires
        same_store(a, b),
    ensures
        a.settled() ==> b.settled(),
        all_hold(a, rewrite, ms) ==> all_hold(b, rewrite, ms),
        rule_holds(a, rewrite) ==> rule_holds(b, rewrite),
        a.matches_hold(ms, rewrite.left) ==> b.matches_hold(ms, rewrite.left),
{
    if a.settled() {
        assert(finds_congruent(b.graph())) by {
            assert forall|i: int, c: Seq<nat>|
                0 <= i < b@.nodes.len() && ids_below(c, b@.nodes.len()) && congruent(
                    b@.leader,
                    b@.nodes[i],
                    (b@.nodes[i].0, c),
                ) implies #[trigger] crate::egraph::egraph_lookup(b.graph(), b@.nodes[i].0, c)
                == Some(b@.leader[i]) by {}
        }
    }
    if a.matches_hold(ms, rewrite.left) {
        assert forall|k: int| 0 <= k < ms.len() implies match_holds(
            b.graph(),
            #[trigger] ms[k],
            pattern_nodes(rewrite.left)->Some_0,
            pattern_vars(rewrite.left)->Some_0,
        ) by {}
    }
}

/// The number of substitutions of the first `n` matches.
pub open spec fn subst_count(ms: Seq<Match>, n: nat) -> nat
    decreases n,
{
    if n == 0 || n > ms.len() {
        0
    } else {
        subst_count(ms, (n - 1) as nat) + ms[n - 1].substs@.len()
    }
}

/// How the state of the scheduler and the store come out of the application
/// of the matches of a rule in an iteration, and what is returned.
///
/// Nothing is applied and nothing recorded where the rule may not fire or
/// has no match; else the number of matches is returned, the rule holds of
/// every match afterwards, and the rule is recorded if and only if the store
/// changed to the eye. Nodes are only added and classes only united. The
/// store changes to the eye if and only if nodes were added or two classes
/// became one, and not at all where congruence was restored in it and the
/// rule held of every match already.
/// The application fails only where the store runs out of ids, and not
/// where it has room for the right side once for each substitution.
pub open spec fn applies(
    before: SchedulerView,
    store: Store,
    iteration: nat,
    rewrite: RewriteView,
    matches: Seq<Match>,
    after: SchedulerView,
    stored: Store,
    r: Result<usize, EggvizRuntimeError>,
) -> bool {
    &&& after.target_iteration == before.target_iteration
    &&& after.rewrite_target == before.rewrite_target
    &&& store@.nodes.is_prefix_of(stored@.nodes)
    &&& coarsens(store@.leader, stored@.leader)
    &&& stored@.node_count - store@.node_count == stored@.nodes.len() - store@.nodes.len()
    &&& changed(store@, stored@) <==> stored@.nodes.len() > store@.nodes.len() || joins(
        store@.leader,
        stored@.leader,
    )
    &&& !changed(store@, stored@) ==> same_classes(store@, stored@)
    &&& store.settled() && all_hold(store, rewrite, matches) ==> same_store(store, stored)
        && after == before
    &&& !permits(before, iteration, rewrite.label) || matches.len() == 0 ==> {
        &&& r == Ok::<usize, EggvizRuntimeError>(0)
        &&& stored == store
        &&& after == before
    }
    &&& match r {
        Ok(n) => permits(before, iteration, rewrite.label) && matches.len() > 0 ==> {
            &&& n == matches.len()
            &&& after.applied_rules == if changed(store@, stored@) {
                before.applied_rules.push(rewrite.label)
            } else {
                before.applied_rules
            }
            &&& all_hold(stored, rewrite, matches)
        },
        Err(e) => {
            &&& e@ is InternalError
            &&& after == before
            &&& stored@.nodes.len() + rewrite.right.len() > u32::MAX
        },
    }
    &&& store@.nodes.len() + subst_count(matches, matches.len()) * rewrite.right.len() <= u32::MAX
        ==> r is Ok
}

/// What a search for the matches of a rule in an iteration gives: the
/// matches of its left side if the rule may fire, none if it may not; an
/// internal error where the rule may fire and the store is not rebuilt.
pub open spec fn searches(
    state: SchedulerView,
    store: Store,
    iteration: nat,
    rewrite: RewriteView,
    r: Result<Vec<Match>, EggvizRuntimeError>,
) -> bool {
    &&& r is Ok == (store@.clean || !permits(state, iteration, rewrite.label))
    &&& match r {
        Ok(ms) => {
            &&& !permits(state, iteration, rewrite.label) ==> ms@.len() == 0
            &&& permits(state, iteration, rewrite.label) ==> store.are_matches(ms@, rewrite.left)
            &&& store.matches_hold(ms@, rewrite.left)
            &&& matches_fit(ms@, pattern_vars(rewrite.left)->Some_0.len(), store@.nodes.len())
            &&& forall|k: int| 0 <= k < ms@.len() ==> (#[trigger] ms@[k]).substs@.len() > 0
        },
        Err(e) => e@ is InternalError,
    }
}

/// Matches that fit a store fit every store with as many ids or more.
pub proof fn matches_fit_longer(ms: Seq<Match>, vars: nat, len: nat, longer: nat)
    requires
        matches_fit(ms, vars, len),
        len <= longer,
    ensures
        matches_fit(ms, vars, longer),
{
    assert forall|k: int| 0 <= k < ms.len() implies crate::egraph::match_fits(
        match_view(#[trigger] ms[k]),
        vars,
        longer,
    ) by {
        let m = match_view(ms[k]);
        assert forall|j: int| 0 <= j < m.1.len() implies (#[trigger] m.1[j]).len() == vars
            && ids_below(m.1[j], longer) by {}
    }
}

impl EggvizSingleStepSchedulerInnerState {
    /// Whether the rule `label` may fire in `iteration`.
    pub fn permits(&self, iteration: usize, label: &EggvizRewriteRuleLabel) -> (b: bool)
        ensures
            b == permits(self@, iteration as nat, label@),
    {
        if iteration > self.target_iteration {
            false
        } else {
            match &self.rewrite_target {
                Some(target) => *target == *label,
                None => true,
            }
        }
    }

    /// The matches of a rule in an iteration: those that the store finds for
    /// its left side if the rule may fire, none if it may not. An internal
    /// error where the rule may fire and the store is not rebuilt.
    pub fn search_rewrite(&self, iteration: usize, store: &Store, rewrite: &EggvizRewrite) -> (r:
        Result<Vec<Match>, EggvizRuntimeError>)
        ensures
            searches(self@, *store, iteration as nat, rewrite@, r),
    {
        if self.permits(iteration, rewrite.label()) {
            store.search(rewrite.left())
        } else {
            Ok(Vec::new())
        }
    }

    /// Applies the matches of a rule in an iteration, and records the rule if
    /// the store changed to the eye. Nothing is applied and nothing recorded
    /// where the rule may not fire or has no match. It returns the number of
    /// matches applied. An internal error where the store runs out of ids;
    /// the matches applied until then stay applied.
    pub fn apply_rewrite(
        &mut self,
        iteration: usize,
        store: &mut Store,
        rewrite: &EggvizRewrite,
        matches: &Vec<Match>,
    ) -> (r: Result<usize, EggvizRuntimeError>)
        requires
            matches_fit(
                matches@,
                pattern_vars(rewrite@.left)->Some_0.len(),
                old(store)@.nodes.len(),
            ),
        ensures
            applies(
                old(self)@,
                *old(store),
                iteration as nat,
                rewrite@,
                matches@,
                final(self)@,
                *final(store),
                r,
            ),
    {
        let name = rewrite.label().to_string();
        store.in_order();
        if !self.permits(iteration, rewrite.label()) || matches.len() == 0 {
            return Ok(0);
        }
        let prev_nodes = store.total_number_of_nodes();
        let prev_classes = store.number_of_classes();
        let ghost start = *store;
        let ghost vars = pattern_vars(rewrite@.left)->Some_0.len();
        let ghost room = rewrite@.right.len();
        let mut i: usize = 0;
        while i < matches.len()
            invariant
                i <= matches.len(),
                vars == pattern_vars(rewrite@.left)->Some_0.len(),
                room == rewrite@.right.len(),
                matches_fit(matches@, vars, start@.nodes.len()),
                start@.nodes.is_prefix_of(store@.nodes),
                coarsens(start@.leader, store@.leader),
                store@.nodes.len() <= start@.nodes.len() + subst_count(matches@, i as nat) * room,
                store@.node_count - start@.node_count == store@.nodes.len() - start@.nodes.len(),
                graph_wf(start@.nodes, start@.leader),
                start.settled() && all_hold(start, rewrite@, matches@) ==> same_store(start, *store),
                start == *old(store),
                *self == *old(self),
                permits(old(self)@, iteration as nat, rewrite@.label),
                hold_before(*store, rewrite@, matches@, i as int, 0),
            decreases matches.len() - i,
        {
            let ghost m = match_view(matches@[i as int]);
            let mut j: usize = 0;
            while j < matches[i].substs.len()
                invariant
                    i < matches.len(),
                    j <= matches[i as int].substs.len(),
                    vars == pattern_vars(rewrite@.left)->Some_0.len(),
                    room == rewrite@.right.len(),
                    m == match_view(matches@[i as int]),
                    crate::egraph::match_fits(m, vars, start@.nodes.len()),
                    start@.nodes.is_prefix_of(store@.nodes),
                    coarsens(start@.leader, store@.leader),
                    store@.nodes.len() <= start@.nodes.len() + (subst_count(matches@, i as nat) + j)
                        * room,
                    store@.node_count - start@.node_count == store@.nodes.len()
                        - start@.nodes.len(),
                    graph_wf(start@.nodes, start@.leader),
                    start.settled() && all_hold(start, rewrite@, matches@) ==> same_store(
                        start,
                        *store,
                    ),
                    start == *old(store),
                    *self == *old(self),
                    permits(old(self)@, iteration as nat, rewrite@.label),
                    hold_before(*store, rewrite@, matches@, i as int, j as int),
                    matches_fit(matches@, vars, start@.nodes.len()),
                decreases matches[i as int].substs.len() - j,
            {
                let ghost before = *store;
                store.in_order();
                proof {
                    if start.settled() && all_hold(start, rewrite@, matches@) {
                        same_store_holds(start, before, rewrite@, matches@);
                        fits_is_found(
                            before,
                            before@.leader[matches@[i as int].eclass as int],
                            pattern_nodes(rewrite@.right)->Some_0,
                            pattern_vars(rewrite@.left)->Some_0,
                            m.1[j as int],
                            pattern_nodes(rewrite@.right)->Some_0.len() - 1,
                        );
                    }
                }
                match store.apply(
                    name.as_str(),
                    rewrite.left(),
                    rewrite.right(),
                    matches[i].eclass,
                    &matches[i].substs[j],
                ) {
                    Err(e) => {
                        proof {
                            let done = subst_count(matches@, i as nat) + j;
                            let all = subst_count(matches@, matches@.len());
                            subst_count_grows(matches@, i as nat, (j + 1) as nat);
                            assert(done * room + room <= all * room) by (nonlinear_arith)
                                requires
                                    done + 1 <= all,
                            ;
                            assert(ids_below(m.1[j as int], before@.nodes.len()));
                        }
                        store.in_order();
                        proof {
                            unchanged_is_same(start@, store@);
                        }
                        return Err(e);
                    },
                    Ok(_) => {
                        store.in_order();
                        proof {
                            coarsens_trans(start@.leader, before@.leader, store@.leader);
                            assert((subst_count(matches@, i as nat) + j) * room + room == (
                            subst_count(matches@, i as nat) + j + 1) * room) by (nonlinear_arith);
                            hold_before_kept(
                                before,
                                *store,
                                rewrite@,
                                matches@,
                                i as int,
                                j as int,
                                start@.nodes.len(),
                            );
                            assert(m.1[j as int] == ids_of(matches@[i as int].substs@[j as int]@));
                        }
                    },
                }
                j += 1;
            }
            i += 1;
        }
        let new_nodes = store.total_number_of_nodes();
        let new_classes = store.number_of_classes();
        store.in_order();
        proof {
            unchanged_is_same(start@, store@);
        }
        if prev_nodes != new_nodes || prev_classes != new_classes {
            let ghost before = labels_of(self.applied_rules@);
            self.applied_rules.push(rewrite.label().clone());
            assert(labels_of(self.applied_rules@) =~= before.push(rewrite@.label));
        }
        Ok(matches.len())
    }
}

/// Ids that keep one leader from a first union-find to a second and from
/// the second to a third keep one leader from the first to the third.
pub proof fn coarsens_trans(a: Seq<nat>, b: Seq<nat>, c: Seq<nat>)
    requires
        coarsens(a, b),
        coarsens(b, c),
    ensures
        coarsens(a, c),
{
}

/// The first matches and some substitutions of the next hold no more
/// substitutions than all the matches.
pub proof fn subst_count_grows(ms: Seq<Match>, i: nat, j: nat)
    requires
        i < ms.len(),
        j <= ms[i as int].substs@.len(),
    ensures
        subst_count(ms, i) + j <= subst_count(ms, ms.len()),
    decreases ms.len() - i,
{
    subst_count_mono(ms, i + 1, ms.len());
}

/// More matches hold no fewer substitutions.
pub proof fn subst_count_mono(ms: Seq<Match>, i: nat, n: nat)
    requires
        i <= n <= ms.len(),
    ensures
        subst_count(ms, i) <= subst_count(ms, n),
    decreases n - i,
{
    if i < n {
        subst_count_mono(ms, i, (n - 1) as nat);
    }
}

/// The labels of a list of rules.
pub open spec fn rule_labels(rules: Seq<EggvizRewrite>) -> Seq<LabelView> {
    rules.map_values(|r: EggvizRewrite| r@.label)
}

/// Of the first `n` labels those whose flag is set, in order.
pub open spec fn fired(labels: Seq<LabelView>, flags: Seq<bool>, n: nat) -> Seq<LabelView>
    decreases n,
{
    if n == 0 || n > labels.len() || n > flags.len() {
        Seq::empty()
    } else if flags[n - 1] {
        fired(labels, flags, (n - 1) as nat).push(labels[n - 1])
    } else {
        fired(labels, flags, (n - 1) as nat)
    }
}

/// Whether `out` can be what one iteration records: some of the labels, in
/// their order, each at most once, and only the target if there is one.
pub open spec fn is_step(labels: Seq<LabelView>, target: Option<LabelView>, out: Seq<LabelView>) -> bool {
    exists|flags: Seq<bool>|
        {
            &&& flags.len() == labels.len()
            &&& out == fired(labels, flags, labels.len())
            &&& forall|k: int|
                0 <= k < flags.len() && #[trigger] flags[k] ==> (target matches Some(t) ==> labels[k]
                    == t)
        }
}

/// What is fired are labels of the list, only the target if there is one,
/// and no more than there are labels.
pub proof fn fired_within(labels: Seq<LabelView>, target: Option<LabelView>, flags: Seq<bool>, n: nat)
    requires
        n <= labels.len(),
        flags.len() == labels.len(),
        forall|k: int|
            0 <= k < flags.len() && #[trigger] flags[k] ==> (target matches Some(t) ==> labels[k] == t),
    ensures
        fired(labels, flags, n).len() <= n,
        forall|j: int|
            0 <= j < fired(labels, flags, n).len() ==> labels.contains(
                #[trigger] fired(labels, flags, n)[j],
            ) && (target matches Some(t) ==> fired(labels, flags, n)[j] == t),
    decreases n,
{
    if n > 0 {
        fired_within(labels, target, flags, (n - 1) as nat);
    }
}

/// Where no label stands twice and one label is the target, at most one
/// label is fired.
pub proof fn fired_once(labels: Seq<LabelView>, target: LabelView, flags: Seq<bool>, n: nat)
    requires
        n <= labels.len(),
        flags.len() == labels.len(),
        labels.no_duplicates(),
        forall|k: int| 0 <= k < flags.len() && #[trigger] flags[k] ==> labels[k] == target,
    ensures
        fired(labels, flags, n).len() <= 1,
        fired(labels, flags, n).len() == 1 ==> exists|k: int|
            0 <= k < n && #[trigger] labels[k] == target,
    decreases n,
{
    if n > 0 {
        fired_once(labels, target, flags, (n - 1) as nat);
    }
}

/// The rules of a list as plain values.
pub open spec fn rule_views(rules: Seq<EggvizRewrite>) -> Seq<RewriteView> {
    rules.map_values(|r: EggvizRewrite| r@)
}

/// The labels of a list of rules.
pub open spec fn view_labels(rules: Seq<RewriteView>) -> Seq<LabelView> {
    rules.map_values(|r: RewriteView| r.label)
}

/// Whether a rule with the label `label` may fire: it is the target if
/// there is one.
pub open spec fn may_fire(target: Option<LabelView>, label: LabelView) -> bool {
    target matches Some(t) ==> label == t
}

/// Whether a rule was applied to every match that its left side had in the
/// store `before`: each class of `before` that matched the left side, with
/// representatives bound to the variables, matches the right side in
/// `after` under the same substitution.
#[verifier::opaque]
pub open spec fn rule_applied(before: Store, rewrite: RewriteView, after: Store) -> bool {
    forall|c: nat, subst: Seq<nat>|
        c < before@.nodes.len() && before@.leader[c as int] == c && subst.len() == pattern_vars(
            rewrite.left,
        )->Some_0.len() && ids_below(subst, before@.nodes.len()) && all_lead(subst, before@.leader)
            && #[trigger] fits(
            before@.nodes,
            before@.leader,
            c,
            pattern_nodes(rewrite.left)->Some_0,
            pattern_vars(rewrite.left)->Some_0,
            subst,
            pattern_nodes(rewrite.left)->Some_0.len() - 1,
        ) ==> fits(
            after@.nodes,
            after@.leader,
            after@.leader[c as int],
            pattern_nodes(rewrite.right)->Some_0,
            pattern_vars(rewrite.left)->Some_0,
            subst,
            pattern_nodes(rewrite.right)->Some_0.len() - 1,
        )
}

/// Whether every rule that may fire was applied to every match that it had
/// in the store `before`.
pub open spec fn rules_applied(
    before: Store,
    rules: Seq<RewriteView>,
    target: Option<LabelView>,
    after: Store,
) -> bool {
    forall|k: int|
        0 <= k < rules.len() && may_fire(target, (#[trigger] rules[k]).label) ==> rule_applied(
            before,
            rules[k],
            after,
        )
}

/// A rule that holds of the matches of its left side in a store, which are
/// all its matches there, was applied to every match that it had there.
pub proof fn rule_applied_to_matches(start: Store, stored: Store, rewrite: RewriteView, ms: Seq<Match>)
    requires
        start.are_matches(ms, rewrite.left),
        all_hold(stored, rewrite, ms),
    ensures
        rule_applied(start, rewrite, stored),
{
    reveal(rule_applied);
    assert forall|c: nat, subst: Seq<nat>|
        c < start@.nodes.len() && start@.leader[c as int] == c && subst.len() == pattern_vars(
            rewrite.left,
        )->Some_0.len() && ids_below(subst, start@.nodes.len()) && all_lead(subst, start@.leader)
            && #[trigger] fits(
            start@.nodes,
            start@.leader,
            c,
            pattern_nodes(rewrite.left)->Some_0,
            pattern_vars(rewrite.left)->Some_0,
            subst,
            pattern_nodes(rewrite.left)->Some_0.len() - 1,
        ) implies fits(
        stored@.nodes,
        stored@.leader,
        stored@.leader[c as int],
        pattern_nodes(rewrite.right)->Some_0,
        pattern_vars(rewrite.left)->Some_0,
        subst,
        pattern_nodes(rewrite.right)->Some_0.len() - 1,
    ) by {
        assert(has_match(ms, c, subst));
        let (a, b) = choose|a: int, b: int|
            0 <= a < ms.len() && 0 <= b < ms[a].substs@.len() && ms[a].eclass == c && ids_of(
                #[trigger] ms[a].substs@[b]@,
            ) == subst;
    }
}

/// A rule that was applied to its matches stays applied to them when nodes
/// are added and classes united.
pub proof fn rule_applied_kept(start: Store, rewrite: RewriteView, a: Store, b: Store)
    requires
        rule_applied(start, rewrite, a),
        graph_wf(a@.nodes, a@.leader),
        start@.nodes.len() <= a@.nodes.len(),
        a@.nodes.is_prefix_of(b@.nodes),
        b@.leader.len() == b@.nodes.len(),
        coarsens(a@.leader, b@.leader),
    ensures
        rule_applied(start, rewrite, b),
{
    reveal(rule_applied);
    assert forall|c: nat, subst: Seq<nat>|
        c < start@.nodes.len() && start@.leader[c as int] == c && subst.len() == pattern_vars(
            rewrite.left,
        )->Some_0.len() && ids_below(subst, start@.nodes.len()) && all_lead(subst, start@.leader)
            && #[trigger] fits(
            start@.nodes,
            start@.leader,
            c,
            pattern_nodes(rewrite.left)->Some_0,
            pattern_vars(rewrite.left)->Some_0,
            subst,
            pattern_nodes(rewrite.left)->Some_0.len() - 1,
        ) implies fits(
        b@.nodes,
        b@.leader,
        b@.leader[c as int],
        pattern_nodes(rewrite.right)->Some_0,
        pattern_vars(rewrite.left)->Some_0,
        subst,
        pattern_nodes(rewrite.right)->Some_0.len() - 1,
    ) by {
        assert(ids_below(subst, a@.leader.len()));
        fits_kept(
            a@.nodes,
            a@.leader,
            b@.nodes,
            b@.leader,
            c as int,
            pattern_nodes(rewrite.right)->Some_0,
            pattern_vars(rewrite.left)->Some_0,
            subst,
            pattern_nodes(rewrite.right)->Some_0.len() - 1,
        );
    }
}

/// The ids of a substitution, each replaced by its leader.
pub open spec fn led(subst: Seq<nat>, leader: Seq<nat>) -> Seq<nat> {
    subst.map_values(|i: nat| leader[i as int])
}

/// A rule that was applied to every match that it had in a store holds in
/// the store that came of it, where that store holds the same nodes in the
/// same classes: nothing is left for the rule to do.
pub proof fn applied_in_place_holds(before: Store, rewrite: RewriteView, after: Store)
    requires
        graph_wf(before@.nodes, before@.leader),
        graph_wf(after@.nodes, after@.leader),
        rule_applied(before, rewrite, after),
        same_classes(before@, after@),
    ensures
        rule_holds(after, rewrite),
{
    reveal(rule_applied);
    let left = pattern_nodes(rewrite.left)->Some_0;
    let right = pattern_nodes(rewrite.right)->Some_0;
    let vars = pattern_vars(rewrite.left)->Some_0;
    assert forall|c: nat, subst: Seq<nat>|
        c < after@.nodes.len() && subst.len() == vars.len() && ids_below(subst, after@.nodes.len())
            && #[trigger] fits(
            after@.nodes,
            after@.leader,
            after@.leader[c as int],
            left,
            vars,
            subst,
            left.len() - 1,
        ) implies fits(
        after@.nodes,
        after@.leader,
        after@.leader[c as int],
        right,
        vars,
        subst,
        right.len() - 1,
    ) by {
        let top = before@.leader[c as int];
        let bound = led(subst, before@.leader);
        fits_kept(
            after@.nodes,
            after@.leader,
            before@.nodes,
            before@.leader,
            c as int,
            left,
            vars,
            subst,
            left.len() - 1,
        );
        assert forall|i: int| 0 <= i < subst.len() implies before@.leader[#[trigger] subst[i] as int]
            == before@.leader[bound[i] as int] by {}
        fits_same_leaders(before@.nodes, before@.leader, top, left, vars, subst, bound, left.len() - 1);
        assert(ids_below(bound, before@.nodes.len()));
        assert(all_lead(bound, before@.leader));
        assert(fits(after@.nodes, after@.leader, after@.leader[top as int], right, vars, bound, right.len() - 1));
        assert(after@.leader[top as int] == after@.leader[c as int]);
        assert forall|i: int| 0 <= i < bound.len() implies after@.leader[#[trigger] bound[i] as int]
            == after@.leader[subst[i] as int] by {
            assert(before@.leader[bound[i] as int] == before@.leader[subst[i] as int]);
        }
        fits_same_leaders(
            after@.nodes,
            after@.leader,
            after@.leader[c as int],
            right,
            vars,
            bound,
            subst,
            right.len() - 1,
        );
    }
}

/// How the store `to` comes out of the store `from` when the turn of a rule
/// comes in an iteration that began with the store `start`: nothing changes
/// where the rule may not fire; else the rule is applied to every match that
/// it had in `start`. Nodes are only added and classes only united.
#[verifier::opaque]
pub open spec fn fires(start: Store, from: Store, rewrite: RewriteView, may: bool, to: Store) -> bool {
    &&& from@.nodes.is_prefix_of(to@.nodes)
    &&& coarsens(from@.leader, to@.leader)
    &&& reports_change(from@, to@, changed(from@, to@))
    &&& may ==> rule_applied(start, rewrite, to)
    &&& !may ==> to == from
}

/// The application of the matches that a rule had in the store `start` is a
/// turn of the rule, and the rule is recorded if and only if its turn
/// changed the store to the eye.
pub proof fn turn_fires(
    start: Store,
    from: Store,
    to: Store,
    prior: SchedulerView,
    after: SchedulerView,
    iteration: nat,
    rewrite: RewriteView,
    ms: Seq<Match>,
    r: Result<usize, EggvizRuntimeError>,
)
    requires
        applies(prior, from, iteration, rewrite, ms, after, to, r),
        r is Ok,
        permits(prior, iteration, rewrite.label) ==> start.are_matches(ms, rewrite.left),
    ensures
        fires(start, from, rewrite, permits(prior, iteration, rewrite.label), to),
        permits(prior, iteration, rewrite.label) ==> rule_applied(start, rewrite, to),
        (after.applied_rules.len() > prior.applied_rules.len()) == changed(from@, to@),
        reports_change(from@, to@, changed(from@, to@)),
{
    reveal(fires);
    if permits(prior, iteration, rewrite.label) {
        rule_applied_to_matches(start, to, rewrite, ms);
    }
}

/// For each rule whether its turn changed the store to the eye, where the
/// store before the turn of the rule `k` is `chain[k]` and the store after
/// it `chain[k + 1]`.
pub open spec fn records(rules: Seq<RewriteView>, chain: Seq<Store>) -> Seq<bool> {
    Seq::new(rules.len(), |k: int| changed(chain[k]@, chain[k + 1]@))
}

/// Whether `chain` is the stores of one iteration that takes the store
/// `start` to the store `end` and reports `out`: the rules have their turns
/// in order, each on the store that the turn before it left, with the
/// matches that it had in `start`; the rules reported are those whose turn
/// changed the store to the eye, in the order of the rules; and `end` is the
/// last store of the chain with congruence restored.
pub open spec fn is_iteration(
    start: Store,
    rules: Seq<RewriteView>,
    target: Option<LabelView>,
    chain: Seq<Store>,
    out: Seq<LabelView>,
    end: Store,
) -> bool {
    &&& chain.len() == rules.len() + 1
    &&& chain[0] == start
    &&& forall|k: int|
        0 <= k < rules.len() ==> fires(
            start,
            #[trigger] chain[k],
            rules[k],
            may_fire(target, rules[k].label),
            chain[k + 1],
        )
    &&& out == fired(view_labels(rules), records(rules, chain), rules.len())
    &&& end@.nodes == chain[rules.len() as int]@.nodes
    &&& coarsens(chain[rules.len() as int]@.leader, end@.leader)
    &&& least_closure(end@.nodes, chain[rules.len() as int]@.leader, end@.leader)
    &&& end.settled()
    &&& end@.clean
}

/// Whether one iteration in which only the rule `target` may fire, or every
/// rule if there is none, takes the store `start` to the store `end` and
/// reports `out`.
pub open spec fn iterates(
    start: Store,
    rules: Seq<RewriteView>,
    target: Option<LabelView>,
    out: Seq<LabelView>,
    end: Store,
) -> bool {
    exists|chain: Seq<Store>| is_iteration(start, rules, target, chain, out, end)
}

/// What the first `n` iterations report, one after the other.
pub open spec fn joined(outs: Seq<Seq<LabelView>>, n: nat) -> Seq<LabelView>
    decreases n,
{
    if n == 0 || n > outs.len() {
        Seq::empty()
    } else {
        joined(outs, (n - 1) as nat) + outs[n - 1]
    }
}

/// Whether `stores` is the stores of iterations in a row that take the
/// store `start` to the store `end`, and `outs` what they report: each
/// iteration begins with the store that the iteration before it left.
pub open spec fn is_run(
    start: Store,
    rules: Seq<RewriteView>,
    target: Option<LabelView>,
    stores: Seq<Store>,
    outs: Seq<Seq<LabelView>>,
    end: Store,
) -> bool {
    &&& stores.len() == outs.len() + 1
    &&& stores[0] == start
    &&& stores[outs.len() as int] == end
    &&& forall|i: int|
        0 <= i < outs.len() ==> iterates(#[trigger] stores[i], rules, target, outs[i], stores[i + 1])
}

/// Whether `iters` iterations in a row take the store `start` to the store
/// `end` and report `out`: what the iterations report, one after the other.
pub open spec fn iterates_times(
    start: Store,
    rules: Seq<RewriteView>,
    target: Option<LabelView>,
    iters: nat,
    out: Seq<LabelView>,
    end: Store,
) -> bool {
    exists|stores: Seq<Store>, outs: Seq<Seq<LabelView>>|
        outs.len() == iters && #[trigger] is_run(start, rules, target, stores, outs, end) && out
            == joined(outs, iters)
}

/// What iterations report is not changed by an iteration after them.
pub proof fn joined_push(outs: Seq<Seq<LabelView>>, last: Seq<LabelView>, n: nat)
    requires
        n <= outs.len(),
    ensures
        joined(outs.push(last), n) == joined(outs, n),
        n == outs.len() ==> joined(outs.push(last), n + 1) == joined(outs, n) + last,
    decreases n,
{
    if n > 0 {
        joined_push(outs, last, (n - 1) as nat);
        assert(outs.push(last)[n - 1] == outs[n - 1]);
    }
    if n == outs.len() {
        let more = outs.push(last);
        assert(more[n as int] == last);
        assert(joined(more, n + 1) == joined(more, n) + more[n as int]);
    }
}

/// The store that the rules rewrite, and the number of iterations run on it.
pub struct Runner {
    store: Store,
    iterations: usize,
}

impl Runner {
    /// The store as it is.
    pub closed spec fn store_view(&self) -> Store {
        self.store
    }

    /// The number of iterations run so far.
    pub closed spec fn iterations_view(&self) -> nat {
        self.iterations as nat
    }

    /// The store is rebuilt: congruence is restored in it.
    pub open spec fn wf(&self) -> bool {
        &&& self.store_view()@.clean
        &&& self.store_view().settled()
    }

    /// A runner on `store`, in which congruence is restored first.
    pub fn new(store: Store) -> (r: Runner)
        ensures
            r.wf(),
            r.iterations_view() == 0,
            r.store_view()@.nodes == store@.nodes,
            coarsens(store@.leader, r.store_view()@.leader),
            least_closure(store@.nodes, store@.leader, r.store_view()@.leader),
            r.store_view().finds_all(),
    {
        let mut store = store;
        store.rebuild();
        Runner { store, iterations: 0 }
    }

    /// The store.
    pub fn store(&self) -> (s: &Store)
        ensures
            *s == self.store_view(),
    {
        &self.store
    }

    /// The number of iterations run so far.
    pub fn iterations(&self) -> (n: usize)
        ensures
            n == self.iterations_view(),
    {
        self.iterations
    }
}

/// The state of the scheduler between steps: nothing is in progress, and
/// nothing is recorded.
pub struct EggvizSingleStepSchedulerState(pub EggvizSingleStepSchedulerInnerState);

impl EggvizSingleStepSchedulerState {
    /// One iteration: the matches of every rule are searched, then applied
    /// rule by rule, then the store is rebuilt. A rule is recorded if and
    /// only if its turn changed the store to the eye.
    #[verifier::rlimit(30)]
    fn run_one(&mut self, runner: &mut Runner, rewrite_rules: &Vec<EggvizRewrite>) -> (r: Result<
        (),
        EggvizRuntimeError,
    >)
        requires
            old(runner).wf(),
            old(runner).iterations < usize::MAX,
        ensures
            final(runner).wf(),
            final(runner).iterations == old(runner).iterations + 1,
            old(runner).store_view()@.nodes.is_prefix_of(final(runner).store_view()@.nodes),
            coarsens(old(runner).store_view()@.leader, final(runner).store_view()@.leader),
            final(self).0@.target_iteration == old(self).0@.target_iteration,
            final(self).0@.rewrite_target == old(self).0@.rewrite_target,
            match r {
                Ok(_) => exists|out: Seq<LabelView>|
                    {
                        &&& final(self).0@.applied_rules == old(self).0@.applied_rules + out
                        &&& #[trigger] is_step(
                            rule_labels(rewrite_rules@),
                            old(self).0@.rewrite_target,
                            out,
                        )
                        &&& old(runner).iterations > old(self).0@.target_iteration ==> out.len()
                            == 0
                        &&& reports_change(
                            old(runner).store_view()@,
                            final(runner).store_view()@,
                            out.len() > 0,
                        )
                        &&& rules_hold(
                            old(runner).store_view(),
                            rewrite_rules@,
                            old(self).0@.rewrite_target,
                        ) ==> out.len() == 0 && same_classes(
                            old(runner).store_view()@,
                            final(runner).store_view()@,
                        )
                        &&& old(runner).iterations <= old(self).0@.target_iteration ==> iterates(
                            old(runner).store_view(),
                            rule_views(rewrite_rules@),
                            old(self).0@.rewrite_target,
                            out,
                            final(runner).store_view(),
                        ) && rules_applied(
                            old(runner).store_view(),
                            rule_views(rewrite_rules@),
                            old(self).0@.rewrite_target,
                            final(runner).store_view(),
                        )
                    },
                Err(e) => e@ is InternalError && exists|k: int|
                    0 <= k < rewrite_rules@.len() && final(runner).store_view()@.nodes.len() + (
                    #[trigger] rewrite_rules@[k])@.right.len() > u32::MAX,
            },
    {
        let iteration = runner.iterations;
        let ghost labels = rule_labels(rewrite_rules@);
        let ghost views = rule_views(rewrite_rules@);
        let ghost start = runner.store;
        let mut found: Vec<Vec<Match>> = Vec::new();
        let mut i: usize = 0;
        while i < rewrite_rules.len()
            invariant
                i <= rewrite_rules.len(),
                found@.len() == i,
                runner.store@.clean,
                *runner == *old(runner),
                *self == *old(self),
                forall|k: int|
                    0 <= k < i ==> runner.store.matches_hold(
                        (#[trigger] found@[k])@,
                        rewrite_rules@[k]@.left,
                    ),
                forall|k: int|
                    0 <= k < i ==> matches_fit(
                        (#[trigger] found@[k])@,
                        pattern_vars(rewrite_rules@[k]@.left)->Some_0.len(),
                        runner.store@.nodes.len(),
                    ),
                forall|k: int|
                    0 <= k < i && !permits(self.0@, iteration as nat, rewrite_rules@[k]@.label)
                        ==> (#[trigger] found@[k])@.len() == 0,
                forall|k: int|
                    0 <= k < i && permits(self.0@, iteration as nat, rewrite_rules@[k]@.label)
                        ==> runner.store.are_matches(
                        (#[trigger] found@[k])@,
                        rewrite_rules@[k]@.left,
                    ),
            decreases rewrite_rules.len() - i,
        {
            match self.0.search_rewrite(iteration, &runner.store, &rewrite_rules[i]) {
                Ok(ms) => {
                    found.push(ms);
                },
                Err(e) => {
                    // not reached: the store is rebuilt
                    return Err(e);
                },
            }
            i += 1;
        }
        let ghost mut flags: Seq<bool> = Seq::new(labels.len(), |k: int| false);
        let ghost mut chain: Seq<Store> = seq![start];
        let ghost before = self.0@.applied_rules;
        runner.store.in_order();
        let mut j: usize = 0;
        proof {
            fired_none(labels, flags, labels.len());
        }
        while j < rewrite_rules.len()
            invariant
                j <= rewrite_rules.len(),
                found@.len() == rewrite_rules.len(),
                labels == rule_labels(rewrite_rules@),
                flags.len() == labels.len(),
                iteration == old(runner).iterations,
                runner.iterations == old(runner).iterations,
                old(runner).iterations < usize::MAX,
                start == old(runner).store,
                start@.nodes.is_prefix_of(runner.store@.nodes),
                coarsens(start@.leader, runner.store@.leader),
                self.0@.target_iteration == old(self).0@.target_iteration,
                self.0@.rewrite_target == old(self).0@.rewrite_target,
                before == old(self).0@.applied_rules,
                self.0@.applied_rules == before + fired(labels, flags, labels.len()),
                reports_change(start@, runner.store@, fired(labels, flags, labels.len()).len() > 0),
                start.settled(),
                forall|k: int|
                    0 <= k < found@.len() ==> start.matches_hold(
                        (#[trigger] found@[k])@,
                        rewrite_rules@[k]@.left,
                    ),
                rules_hold(start, rewrite_rules@, self.0@.rewrite_target) ==> same_store(
                    start,
                    runner.store,
                ) && fired(labels, flags, labels.len()).len() == 0,
                start@.leader.len() == start@.nodes.len(),
                runner.store@.leader.len() == runner.store@.nodes.len(),
                forall|k: int| j <= k < flags.len() ==> !#[trigger] flags[k],
                forall|k: int|
                    0 <= k < flags.len() && #[trigger] flags[k] ==> permits(
                        self.0@,
                        iteration as nat,
                        labels[k],
                    ),
                forall|k: int|
                    0 <= k < found@.len() ==> matches_fit(
                        (#[trigger] found@[k])@,
                        pattern_vars(rewrite_rules@[k]@.left)->Some_0.len(),
                        start@.nodes.len(),
                    ),
                forall|k: int|
                    0 <= k < found@.len() && !permits(
                        self.0@,
                        iteration as nat,
                        rewrite_rules@[k]@.label,
                    ) ==> (#[trigger] found@[k])@.len() == 0,
                forall|k: int|
                    0 <= k < found@.len() && permits(
                        self.0@,
                        iteration as nat,
                        rewrite_rules@[k]@.label,
                    ) ==> start.are_matches((#[trigger] found@[k])@, rewrite_rules@[k]@.left),
                views == rule_views(rewrite_rules@),
                graph_wf(runner.store@.nodes, runner.store@.leader),
                chain.len() == j + 1,
                chain[0] == start,
                chain[j as int] == runner.store,
                forall|k: int|
                    0 <= k < j ==> fires(
                        start,
                        #[trigger] chain[k],
                        views[k],
                        permits(self.0@, iteration as nat, views[k].label),
                        chain[k + 1],
                    ),
                forall|k: int| 0 <= k < j ==> #[trigger] flags[k] == changed(chain[k]@, chain[k + 1]@),
                forall|k: int|
                    0 <= k < j && permits(self.0@, iteration as nat, (#[trigger] views[k]).label)
                        ==> rule_applied(start, views[k], runner.store),
            decreases rewrite_rules.len() - j,
        {
            let ghost prior = self.0@;
            let ghost old_flags = flags;
            proof {
                matches_fit_longer(
                    found@[j as int]@,
                    pattern_vars(rewrite_rules@[j as int]@.left)->Some_0.len(),
                    start@.nodes.len(),
                    runner.store@.nodes.len(),
                );
            }
            let ghost mid = runner.store;
            proof {
                if rules_hold(start, rewrite_rules@, self.0@.rewrite_target) {
                    same_store_holds(start, mid, rewrite_rules@[j as int]@, found@[j as int]@);
                    if permits(self.0@, iteration as nat, rewrite_rules@[j as int]@.label) {
                        held_rule_holds_of_matches(
                            mid,
                            rewrite_rules@[j as int]@,
                            found@[j as int]@,
                        );
                    }
                }
            }
            let r = self.0.apply_rewrite(iteration, &mut runner.store, &rewrite_rules[j], &found[j]);
            runner.store.in_order();
            match r {
                Ok(_) => {
                    proof {
                        coarsens_trans(start@.leader, mid@.leader, runner.store@.leader);
                        let hit = self.0@.applied_rules.len() > prior.applied_rules.len();
                        flags = flags.update(j as int, hit);
                        fired_update(labels, old_flags, j as int, hit);
                        assert(reports_change(mid@, runner.store@, hit)) by {
                            if !(permits(prior, iteration as nat, rewrite_rules@[j as int]@.label)
                                && found@[j as int]@.len() > 0) {
                            }
                        }
                        reports_compose(
                            start@,
                            mid@,
                            runner.store@,
                            fired(labels, old_flags, labels.len()).len() > 0,
                            hit,
                        );
                        let view = rewrite_rules@[j as int]@;
                        assert(views[j as int] == view);
                        turn_fires(
                            start,
                            mid,
                            runner.store,
                            prior,
                            self.0@,
                            iteration as nat,
                            view,
                            found@[j as int]@,
                            r,
                        );
                        assert forall|k: int|
                            0 <= k < j && permits(
                                self.0@,
                                iteration as nat,
                                (#[trigger] views[k]).label,
                            ) implies rule_applied(start, views[k], runner.store) by {
                            rule_applied_kept(start, views[k], mid, runner.store);
                        }
                        chain = chain.push(runner.store);
                    }
                },
                Err(e) => {
                    proof {
                        coarsens_trans(start@.leader, mid@.leader, runner.store@.leader);
                    }
                    let ghost full = runner.store;
                    runner.store.rebuild();
                    runner.iterations = runner.iterations + 1;
                    proof {
                        coarsens_trans(start@.leader, full@.leader, runner.store@.leader);
                    }
                    return Err(e);
                },
            }
            j += 1;
        }
        let ghost full = runner.store;
        runner.store.rebuild();
        runner.store.in_order();
        runner.iterations = runner.iterations + 1;
        proof {
            coarsens_trans(start@.leader, full@.leader, runner.store@.leader);
            let out = fired(labels, flags, labels.len());
            if out.len() > 0 && !(full@.nodes.len() > start@.nodes.len()) {
                joins_stay(start@.leader, full@.leader, runner.store@.leader);
            }
            if rules_hold(start, rewrite_rules@, old(self).0@.rewrite_target) {
                rebuild_of_closed_unites_nothing(start@.nodes, start@.leader, runner.store@.leader);
            }
            assert(is_step(labels, old(self).0@.rewrite_target, out));
            if old(runner).iterations > old(self).0@.target_iteration {
                fired_none(labels, flags, labels.len());
            } else {
                let target = old(self).0@.rewrite_target;
                assert(view_labels(views) =~= labels);
                assert(records(views, chain) =~= flags);
                assert forall|k: int|
                    0 <= k < views.len() && may_fire(target, (#[trigger] views[k]).label) implies rule_applied(
                    start,
                    views[k],
                    runner.store,
                ) by {
                    rule_applied_kept(start, views[k], full, runner.store);
                }
                assert(is_iteration(start, views, target, chain, out, runner.store));
            }
        }
        Ok(())
    }

    /// Runs `iters` iterations in which only the rule `rule` may fire, or
    /// every rule if there is none, and returns the rules whose application
    /// changed the store, in the order of their application. Afterwards
    /// every rule that may fire holds of every match that it had before the
    /// first iteration. An internal error where the store or the count of
    /// iterations runs out.
    pub fn rewrite(
        &mut self,
        runner: &mut Runner,
        rewrite_rules: &Vec<EggvizRewrite>,
        iters: usize,
        rule: Option<EggvizRewriteRuleLabel>,
    ) -> (r: Result<Vec<EggvizRewriteRuleLabel>, EggvizRuntimeError>)
        requires
            old(runner).wf(),
            old(self).0@.applied_rules.len() == 0,
            iters > 0,
        ensures
            final(runner).wf(),
            final(self).0@.applied_rules.len() == 0,
            old(runner).store_view()@.nodes.is_prefix_of(final(runner).store_view()@.nodes),
            coarsens(old(runner).store_view()@.leader, final(runner).store_view()@.leader),
            match r {
                Ok(applied) => {
                    &&& final(runner).iterations_view() == old(runner).iterations_view() + iters
                    &&& applied@.len() <= iters * rewrite_rules@.len()
                    &&& forall|k: int|
                        0 <= k < applied@.len() ==> rule_labels(rewrite_rules@).contains(
                            #[trigger] labels_of(applied@)[k],
                        ) && (rule matches Some(t) ==> labels_of(applied@)[k] == t@)
                    &&& iters == 1 ==> is_step(
                        rule_labels(rewrite_rules@),
                        target_view(rule),
                        labels_of(applied@),
                    )
                    &&& rule is Some && rule_labels(rewrite_rules@).no_duplicates()
                        ==> applied@.len() <= iters
                    &&& reports_change(
                        old(runner).store_view()@,
                        final(runner).store_view()@,
                        applied@.len() > 0,
                    )
                    &&& iters == 1 && rules_hold(
                        old(runner).store_view(),
                        rewrite_rules@,
                        target_view(rule),
                    ) ==> applied@.len() == 0 && same_classes(
                        old(runner).store_view()@,
                        final(runner).store_view()@,
                    )
                    &&& iterates_times(
                        old(runner).store_view(),
                        rule_views(rewrite_rules@),
                        target_view(rule),
                        iters as nat,
                        labels_of(applied@),
                        final(runner).store_view(),
                    )
                    &&& iters == 1 ==> iterates(
                        old(runner).store_view(),
                        rule_views(rewrite_rules@),
                        target_view(rule),
                        labels_of(applied@),
                        final(runner).store_view(),
                    )
                    &&& rules_applied(
                        old(runner).store_view(),
                        rule_views(rewrite_rules@),
                        target_view(rule),
                        final(runner).store_view(),
                    )
                },
                Err(e) => e@ is InternalError && (old(runner).iterations_view() + iters
                    > usize::MAX || exists|k: int|
                    0 <= k < rewrite_rules@.len() && final(runner).store_view()@.nodes.len() + (
                    #[trigger] rewrite_rules@[k])@.right.len() > u32::MAX),
            },
    {
        if runner.iterations > usize::MAX - iters {
            return Err(
                EggvizRuntimeError::InternalError(String::from_str("too many iterations")),
            );
        }
        let ghost target = target_view(rule);
        let ghost labels = rule_labels(rewrite_rules@);
        let ghost views = rule_views(rewrite_rules@);
        let ghost mut stores: Seq<Store> = seq![runner.store];
        let ghost mut outs: Seq<Seq<LabelView>> = Seq::empty();
        runner.store.in_order();
        self.0.rewrite_target = rule;
        self.0.target_iteration = runner.iterations + (iters - 1);
        let mut done: usize = 0;
        while done < iters
            invariant
                done <= iters,
                runner.wf(),
                runner.iterations == old(runner).iterations + done,
                old(runner).iterations + iters <= usize::MAX,
                labels == rule_labels(rewrite_rules@),
                self.0@.rewrite_target == target,
                self.0@.target_iteration == old(runner).iterations + iters - 1,
                old(runner).store@.nodes.is_prefix_of(runner.store@.nodes),
                coarsens(old(runner).store@.leader, runner.store@.leader),
                self.0@.applied_rules.len() <= done * rewrite_rules@.len(),
                forall|k: int|
                    0 <= k < self.0@.applied_rules.len() ==> labels.contains(
                        #[trigger] self.0@.applied_rules[k],
                    ) && (target matches Some(t) ==> self.0@.applied_rules[k] == t),
                done == 0 ==> self.0@.applied_rules.len() == 0,
                done == 1 ==> is_step(labels, target, self.0@.applied_rules),
                target is Some && labels.no_duplicates() ==> self.0@.applied_rules.len() <= done,
                reports_change(old(runner).store@, runner.store@, self.0@.applied_rules.len() > 0),
                done == 0 ==> runner.store == old(runner).store,
                done == 1 && rules_hold(old(runner).store, rewrite_rules@, target)
                    ==> self.0@.applied_rules.len() == 0 && same_classes(
                    old(runner).store@,
                    runner.store@,
                ),
                old(runner).store@.leader.len() == old(runner).store@.nodes.len(),
                runner.store@.leader.len() == runner.store@.nodes.len(),
                views == rule_views(rewrite_rules@),
                outs.len() == done,
                is_run(old(runner).store, views, target, stores, outs, runner.store),
                self.0@.applied_rules == joined(outs, done as nat),
                done == 1 ==> iterates(
                    old(runner).store,
                    views,
                    target,
                    self.0@.applied_rules,
                    runner.store,
                ),
                done >= 1 ==> rules_applied(old(runner).store, views, target, runner.store),
                graph_wf(runner.store@.nodes, runner.store@.leader),
            decreases iters - done,
        {
            let ghost mid = runner.store;
            let ghost so_far = self.0@.applied_rules;
            let r = self.run_one(runner, rewrite_rules);
            runner.store.in_order();
            match r {
                Ok(_) => {
                    proof {
                        coarsens_trans(old(runner).store@.leader, mid@.leader, runner.store@.leader);
                        let out = choose|out: Seq<LabelView>|
                            self.0@.applied_rules == so_far + out && #[trigger] is_step(
                                labels,
                                target,
                                out,
                            ) && reports_change(mid@, runner.store@, out.len() > 0) && (rules_hold(
                                mid,
                                rewrite_rules@,
                                target,
                            ) ==> out.len() == 0 && same_classes(mid@, runner.store@)) && iterates(
                                mid,
                                views,
                                target,
                                out,
                                runner.store,
                            ) && rules_applied(mid, views, target, runner.store);
                        if done >= 1 {
                            assert forall|k: int|
                                0 <= k < views.len() && may_fire(
                                    target,
                                    (#[trigger] views[k]).label,
                                ) implies rule_applied(old(runner).store, views[k], runner.store) by {
                                rule_applied_kept(old(runner).store, views[k], mid, runner.store);
                            }
                        }
                        joined_push(outs, out, done as nat);
                        stores = stores.push(runner.store);
                        outs = outs.push(out);
                        if done == 0 {
                            assert(so_far + out =~= out);
                        }
                        reports_compose(
                            old(runner).store@,
                            mid@,
                            runner.store@,
                            so_far.len() > 0,
                            out.len() > 0,
                        );
                        let flags = choose|flags: Seq<bool>|
                            {
                                &&& flags.len() == labels.len()
                                &&& out == fired(labels, flags, labels.len())
                                &&& forall|k: int|
                                    0 <= k < flags.len() && #[trigger] flags[k] ==> (
                                    target matches Some(t) ==> labels[k] == t)
                            };
                        fired_within(labels, target, flags, labels.len());
                        if target is Some && labels.no_duplicates() {
                            fired_once(labels, target->Some_0, flags, labels.len());
                        }
                        assert(done * rewrite_rules@.len() + rewrite_rules@.len() == (done + 1)
                            * rewrite_rules@.len()) by (nonlinear_arith);
                    }
                },
                Err(e) => {
                    proof {
                        coarsens_trans(old(runner).store@.leader, mid@.leader, runner.store@.leader);
                    }
                    self.0.applied_rules = Vec::new();
                    return Err(e);
                },
            }
            done += 1;
        }
        let mut applied_rules: Vec<EggvizRewriteRuleLabel> = Vec::new();
        std::mem::swap(&mut applied_rules, &mut self.0.applied_rules);
        Ok(applied_rules)
    }

    /// Runs one iteration in which only the rule `rule` may fire, and tells
    /// whether its application changed the store. Afterwards the rule holds
    /// of every match that it had before.
    pub fn rewrite_rule(
        &mut self,
        runner: &mut Runner,
        rewrite_rules: &Vec<EggvizRewrite>,
        rule: EggvizRewriteRuleLabel,
    ) -> (r: Result<bool, EggvizRuntimeError>)
        requires
            old(runner).wf(),
            old(self).0@.applied_rules.len() == 0,
            rule_labels(rewrite_rules@).no_duplicates(),
        ensures
            final(runner).wf(),
            final(self).0@.applied_rules.len() == 0,
            old(runner).store_view()@.nodes.is_prefix_of(final(runner).store_view()@.nodes),
            coarsens(old(runner).store_view()@.leader, final(runner).store_view()@.leader),
            match r {
                Ok(fired) => {
                    &&& final(runner).iterations_view() == old(runner).iterations_view() + 1
                    &&& fired ==> rule_labels(rewrite_rules@).contains(rule@)
                    &&& reports_change(
                        old(runner).store_view()@,
                        final(runner).store_view()@,
                        fired,
                    )
                    &&& rules_hold(old(runner).store_view(), rewrite_rules@, Some(rule@)) ==> !fired
                        && same_classes(old(runner).store_view()@, final(runner).store_view()@)
                    &&& iterates(
                        old(runner).store_view(),
                        rule_views(rewrite_rules@),
                        Some(rule@),
                        if fired {
                            seq![rule@]
                        } else {
                            Seq::empty()
                        },
                        final(runner).store_view(),
                    )
                    &&& rules_applied(
                        old(runner).store_view(),
                        rule_views(rewrite_rules@),
                        Some(rule@),
                        final(runner).store_view(),
                    )
                },
                Err(e) => e@ is InternalError && (old(runner).iterations_view() + 1 > usize::MAX
                    || exists|k: int|
                    0 <= k < rewrite_rules@.len() && final(runner).store_view()@.nodes.len() + (
                    #[trigger] rewrite_rules@[k])@.right.len() > u32::MAX),
            },
    {
        let ghost target = rule@;
        let applied_rules = match self.rewrite(runner, rewrite_rules, 1, Some(rule)) {
            Ok(applied_rules) => applied_rules,
            Err(e) => {
                return Err(e);
            },
        };
        proof {
            let labels = rule_labels(rewrite_rules@);
            let out = labels_of(applied_rules@);
            let flags = choose|flags: Seq<bool>|
                {
                    &&& flags.len() == labels.len()
                    &&& out == fired(labels, flags, labels.len())
                    &&& forall|k: int|
                        0 <= k < flags.len() && #[trigger] flags[k] ==> (Some(target) matches Some(
                            t,
                        ) ==> labels[k] == t)
                };
            fired_once(labels, target, flags, labels.len());
            fired_within(labels, Some(target), flags, labels.len());
            if out.len() == 1 {
                assert(out =~= seq![target]);
            } else {
                assert(out =~= Seq::<LabelView>::empty());
            }
        }
        Ok(applied_rules.len() > 0)
    }
}

/// Nothing is fired where no flag is set.
pub proof fn fired_none(labels: Seq<LabelView>, flags: Seq<bool>, n: nat)
    requires
        forall|k: int| 0 <= k < flags.len() ==> !#[trigger] flags[k],
    ensures
        fired(labels, flags, n).len() == 0,
    decreases n,
{
    if n > 0 {
        fired_none(labels, flags, (n - 1) as nat);
    }
}

/// Setting the flag of a label after which no flag is set adds the label to
/// what is fired, at the end; clearing it changes nothing.
pub proof fn fired_update(labels: Seq<LabelView>, flags: Seq<bool>, j: int, hit: bool)
    requires
        0 <= j < labels.len(),
        flags.len() == labels.len(),
        forall|k: int| j <= k < flags.len() ==> !#[trigger] flags[k],
    ensures
        fired(labels, flags.update(j, hit), labels.len()) == if hit {
            fired(labels, flags, labels.len()).push(labels[j])
        } else {
            fired(labels, flags, labels.len())
        },
{
    fired_tail(labels, flags, j as nat, labels.len());
    fired_tail(labels, flags.update(j, hit), (j + 1) as nat, labels.len());
    fired_same(labels, flags, flags.update(j, hit), j as nat);
}

/// Labels whose flags are not set add nothing to what is fired.
pub proof fn fired_tail(labels: Seq<LabelView>, flags: Seq<bool>, from: nat, n: nat)
    requires
        from <= n <= labels.len(),
        flags.len() == labels.len(),
        forall|k: int| from <= k < flags.len() ==> !#[trigger] flags[k],
    ensures
        fired(labels, flags, n) == fired(labels, flags, from),
    decreases n - from,
{
    if from < n {
        fired_tail(labels, flags, from, (n - 1) as nat);
    }
}

/// What is fired of the first labels depends on their flags only.
pub proof fn fired_same(labels: Seq<LabelView>, a: Seq<bool>, b: Seq<bool>, n: nat)
    requires
        n <= labels.len(),
        a.len() == labels.len(),
        b.len() == labels.len(),
        forall|k: int| 0 <= k < n ==> a[k] == b[k],
    ensures
        fired(labels, a, n) == fired(labels, b, n),
    decreases n,
{
    if n > 0 {
        fired_same(labels, a, b, (n - 1) as nat);
    }
}

/// Single-step scheduler: it lets one rule, or every rule, fire in one
/// iteration and holds the state of the step.
pub struct EggvizSingleStepScheduler(pub EggvizSingleStepSchedulerState);

impl EggvizSingleStepScheduler {
    /// The state before the first step: no target, nothing recorded.
    pub fn initial_state() -> (s: EggvizSingleStepSchedulerState)
        ensures
            s.0@.target_iteration == 0,
            s.0@.rewrite_target is None,
            s.0@.applied_rules.len() == 0,
    {
        EggvizSingleStepSchedulerState(
            EggvizSingleStepSchedulerInnerState {
                target_iteration: 0,
                rewrite_target: None,
                applied_rules: Vec::new(),
            },
        )
    }

    /// The matches of a rule in an iteration: those that the store finds for
    /// its left side if the rule may fire, none if it may not.
    pub fn search_rewrite(&self, iteration: usize, store: &Store, rewrite: &EggvizRewrite) -> (r:
        Result<Vec<Match>, EggvizRuntimeError>)
        ensures
            searches(self.0.0@, *store, iteration as nat, rewrite@, r),
    {
        self.0.0.search_rewrite(iteration, store, rewrite)
    }

    /// Applies the matches of a rule in an iteration, and records the rule if
    /// the store changed to the eye.
    pub fn apply_rewrite(
        &mut self,
        iteration: usize,
        store: &mut Store,
        rewrite: &EggvizRewrite,
        matches: &Vec<Match>,
    ) -> (r: Result<usize, EggvizRuntimeError>)
        requires
            matches_fit(
                matches@,
                pattern_vars(rewrite@.left)->Some_0.len(),
                old(store)@.nodes.len(),
            ),
        ensures
            applies(
                old(self).0.0@,
                *old(store),
                iteration as nat,
                rewrite@,
                matches@,
                final(self).0.0@,
                *final(store),
                r,
            ),
    {
        self.0.0.apply_rewrite(iteration, store, rewrite, matches)
    }
}

} // verus!
