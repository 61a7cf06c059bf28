//! The runtime: a program and its rewrite rules, brought into a store and
//! rewritten one step at a time.

use crate::egraph::{coarsens, expr_nodes, graph_wf, hash_node, ids_of, is_expr, is_snapshot, is_tidy,
    node_view,
    node_writes, nodes_view, parse_expr, represented, tree_size};
use crate::error::{EggvizProgramParseContext, EggvizProgramParseError, EggvizRuntimeError,
    ParseContextView, ParseErrorView, runtime_error_text, RuntimeErrorView};
use crate::extract::acyclic;
use crate::label::{EggvizRewriteRuleLabel, label_text, LabelView, parse_label};
use crate::lispylang::{failure_message, parse_text, Program, term_text};
use crate::scheduler::{EggvizRewrite, EggvizSingleStepScheduler, EggvizSingleStepSchedulerState,
    applied_in_place_holds, is_step, iterates, joins, labels_of, may_fire, reports_change,
    RewriteView,
    rule_holds, rule_labels, rule_views, rules_applied, Runner, same_classes};
use crate::store::{is_rule, Language, rebuild_keeps_just, represented_kept, Store};
use crate::text::{decimal_string, decimal_text};
use std::collections::hash_map::DefaultHasher;
use std::hash::Hasher;
use vstd::prelude::*;
use vstd::std_specs::hash::DefaultHasherAdditionalSpecFns;
use vstd::string::StringExecFns;

verus! {

/// Interface to a high-level representation of a rewrite rule related to a
/// program.
pub trait EggvizRewriteRule {
    /// The text of the left-hand side of the rule.
    spec fn left_text(&self) -> Seq<char>;

    /// The text of the right-hand side of the rule.
    spec fn right_text(&self) -> Seq<char>;

    /// The text of the left-hand side of the rule, to be read as a pattern.
    fn left_to_egg(&self) -> (s: String)
        ensures
            s@ == self.left_text(),
    ;

    /// The text of the right-hand side of the rule, to be read as a pattern.
    fn right_to_egg(&self) -> (s: String)
        ensures
            s@ == self.right_text(),
    ;
}

/// A node of a language.
pub trait EggvizLanguage {
    /// The function or constant name represented by this node.
    fn get_function_name(&self) -> &str;
}

impl EggvizLanguage for Language {
    fn get_function_name(&self) -> (s: &str)
        ensures
            s@ == self.function@,
    {
        self.function.as_str()
    }
}

/// Pluggable program interface: how a program and the rewrite rules that
/// belong to it are read, and how the program is printed for the store.
pub trait EggvizProgram: Sized {
    /// High-level rewrite rule representation for the program.
    type RewriteRule: EggvizRewriteRule;

    /// State kept while a program and its rewrite rules are read, for
    /// instance the arities of the functions seen so far. The state that
    /// reading the program gives is handed to the reading of each rule.
    type ParseState: Clone;

    /// What a parse state stands for.
    type Reading;

    /// What the parse state `state` stands for.
    spec fn reading(state: Self::ParseState) -> Self::Reading;

    /// The error with which a text is refused as a program, if it is
    /// refused.
    spec fn refusal(input: Seq<char>) -> Option<ParseErrorView>;

    /// What the parse state stands for after a text was read as a program.
    spec fn first_reading(input: Seq<char>) -> Self::Reading;

    /// The text, to be read as an expression, of the program that a text
    /// is read as.
    spec fn program_text(input: Seq<char>) -> Seq<char>;

    /// The text of the program, to be read as an expression.
    spec fn text(&self) -> Seq<char>;

    /// What reading a rewrite rule gives where the parse state stands for
    /// `before`: the texts of its two sides, to be read as patterns, or the
    /// error; and what the parse state stands for afterwards.
    spec fn rule_reading(
        before: Self::Reading,
        label: LabelView,
        left: Seq<char>,
        right: Seq<char>,
    ) -> (Result<(Seq<char>, Seq<char>), ParseErrorView>, Self::Reading);

    /// Reads a program from a text.
    fn parse_str(input: &str) -> (r: Result<(Self, Self::ParseState), EggvizProgramParseError>)
        ensures
            match r {
                Ok((program, state)) => {
                    &&& Self::refusal(input@) is None
                    &&& Self::reading(state) == Self::first_reading(input@)
                    &&& program.text() == Self::program_text(input@)
                },
                Err(e) => Self::refusal(input@) == Some(e@),
            },
    ;

    /// Reads a rewrite rule that belongs to the program, and checks it
    /// against the program.
    fn parse_rewrite_rule(
        &self,
        parse_state: &mut Self::ParseState,
        label: &EggvizRewriteRuleLabel,
        left: &str,
        right: &str,
    ) -> (r: Result<Self::RewriteRule, EggvizProgramParseError>)
        ensures
            Self::reading(*final(parse_state)) == Self::rule_reading(
                Self::reading(*old(parse_state)),
                label@,
                left@,
                right@,
            ).1,
            match r {
                Ok(rule) => Self::rule_reading(
                    Self::reading(*old(parse_state)),
                    label@,
                    left@,
                    right@,
                ).0 == Ok::<(Seq<char>, Seq<char>), ParseErrorView>(
                    (rule.left_text(), rule.right_text()),
                ),
                Err(e) => Self::rule_reading(
                    Self::reading(*old(parse_state)),
                    label@,
                    left@,
                    right@,
                ).0 == Err::<(Seq<char>, Seq<char>), ParseErrorView>(e@),
            },
    ;

    /// The text of the program, to be read as an expression.
    fn to_egg(&self) -> (s: String)
        ensures
            s@ == self.text(),
    ;
}

/// How far the rules of a list were brought into a runtime.
pub enum Building {
    /// All were: the rules, ready to run.
    Built(Seq<RewriteView>),
    /// A rule has the label of an earlier rule.
    Duplicate(LabelView),
    /// A rule was refused when it was read.
    Unread(LabelView, ParseErrorView),
    /// The sides of a rule are no patterns, or its right side holds a
    /// variable that its left side does not hold.
    NoRule,
}

/// How far the first `n` rules of a list are brought into a runtime for the
/// program read from `input`, and what the parse state stands for
/// afterwards. The rules are taken in order; each gets its label, which no
/// earlier rule may have; is read; and must be a rule for the store. The
/// first that fails ends the building.
pub open spec fn build_rules<P: EggvizProgram>(
    input: Seq<char>,
    rules: Seq<(Option<String>, String, String)>,
    n: nat,
) -> (Building, P::Reading)
    decreases n,
{
    if n == 0 || n > rules.len() {
        (Building::Built(Seq::empty()), P::first_reading(input))
    } else {
        let (earlier, state) = build_rules::<P>(input, rules, (n - 1) as nat);
        match earlier {
            Building::Built(done) => {
                let label = assigned_label((n - 1) as nat, rules[n - 1].0);
                if done.map_values(|r: RewriteView| r.label).contains(label) {
                    (Building::Duplicate(label), state)
                } else {
                    let (read, next) = P::rule_reading(state, label, rules[n - 1].1@, rules[n - 1].2@);
                    match read {
                        Err(e) => (Building::Unread(label, e), next),
                        Ok((left, right)) => if is_rule(left, right) {
                            (Building::Built(done.push(RewriteView { label, left, right })), next)
                        } else {
                            (Building::NoRule, next)
                        },
                    }
                }
            },
            _ => (earlier, state),
        }
    }
}

/// A building that failed at a rule stays as it is whatever rules follow.
pub proof fn build_rules_failed<P: EggvizProgram>(
    input: Seq<char>,
    rules: Seq<(Option<String>, String, String)>,
    n: nat,
    m: nat,
)
    requires
        n <= m <= rules.len(),
        !(build_rules::<P>(input, rules, n).0 is Built),
    ensures
        build_rules::<P>(input, rules, m) == build_rules::<P>(input, rules, n),
    decreases m,
{
    if n < m {
        build_rules_failed::<P>(input, rules, n, (m - 1) as nat);
    }
}

/// Whether `r` is what the construction of a runtime gives for the program
/// text `program` and the building `b` of its rules: the error of the
/// building, if it failed; else an internal error where the program text is
/// no expression for the store; else the runtime, unless the store has no
/// room for the program.
pub open spec fn is_built(
    b: Building,
    program: Seq<char>,
    r: Result<EggvizRuntime, EggvizRuntimeError>,
) -> bool {
    match b {
        Building::Duplicate(l) => r is Err && r->Err_0@
            == RuntimeErrorView::DuplicateRewriteRuleLabel(l),
        Building::Unread(l, e) => r is Err && is_rule_error(l, e, r->Err_0@),
        Building::NoRule => r is Err && r->Err_0@ is InternalError,
        Building::Built(rules) => {
            &&& r matches Ok(rt) ==> rt.rules() == rules && Some(rt.program()) == expr_nodes(
                program,
            )
            &&& r matches Err(e) ==> e@ is InternalError
            &&& expr_nodes(program) is None ==> r is Err
            &&& expr_nodes(program) is Some && expr_nodes(program)->Some_0.len() <= u32::MAX
                ==> r is Ok
        },
    }
}

/// The label of the rule at `idx`: the supplied name, or the index.
pub open spec fn assigned_label(idx: nat, name: Option<String>) -> LabelView {
    match name {
        Some(name) => LabelView::Supplied(name@),
        None => LabelView::Indexed(idx),
    }
}

/// The labels of a list of rules, each given as an optional name, a left
/// side and a right side.
pub open spec fn assigned_labels(rules: Seq<(Option<String>, String, String)>) -> Seq<LabelView> {
    Seq::new(rules.len(), |i: int| assigned_label(i as nat, rules[i].0))
}

/// The label of the rule at `idx`.
pub fn assign_label(idx: usize, name: &Option<String>) -> (l: EggvizRewriteRuleLabel)
    ensures
        l@ == assigned_label(idx as nat, *name),
{
    match name {
        Some(name) => EggvizRewriteRuleLabel::Supplied(name.clone()),
        None => EggvizRewriteRuleLabel::Indexed(idx),
    }
}

/// The place of the rule with the given label, if there is one.
pub fn find_label(rules: &Vec<EggvizRewrite>, label: &EggvizRewriteRuleLabel) -> (r: Option<usize>)
    ensures
        match r {
            Some(i) => i < rules@.len() && rule_labels(rules@)[i as int] == label@,
            None => !rule_labels(rules@).contains(label@),
        },
{
    let mut i: usize = 0;
    while i < rules.len()
        invariant
            i <= rules.len(),
            forall|k: int| 0 <= k < i ==> rule_labels(rules@)[k] != label@,
        decreases rules.len() - i,
    {
        if *rules[i].label() == *label {
            return Some(i);
        }
        i += 1;
    }
    None
}

/// Whether `r` is what reading a program reports to the caller for the
/// parse error `e`: the parse error, or an internal error where the error
/// claims to come from a rewrite rule.
pub open spec fn is_program_error(e: ParseErrorView, r: RuntimeErrorView) -> bool {
    match e.context {
        Some(ParseContextView::RewriteRule { .. }) => r is InternalError,
        _ => r == RuntimeErrorView::ParseError(e),
    }
}

/// What reading a program reports to the caller: the parse error, or an
/// internal error where the error claims to come from a rewrite rule.
pub fn program_error(e: EggvizProgramParseError) -> (r: EggvizRuntimeError)
    ensures
        is_program_error(e@, r@),
{
    match &e.context {
        Some(EggvizProgramParseContext::RewriteRule { .. }) => {
            let mut msg = String::from_str("Invalid parse error context for parsing program: ");
            msg.append(e.msg.as_str());
            EggvizRuntimeError::InternalError(msg)
        },
        _ => EggvizRuntimeError::ParseError(e),
    }
}

/// Whether `r` is what reading the rule `label` reports to the caller for
/// the parse error `e`: the parse error, or an internal error where the
/// error claims to come from another rule.
pub open spec fn is_rule_error(label: LabelView, e: ParseErrorView, r: RuntimeErrorView) -> bool {
    match e.context {
        Some(ParseContextView::RewriteRule { label: other, .. }) if other != label => r
            is InternalError,
        _ => r == RuntimeErrorView::ParseError(e),
    }
}

/// What reading the rule `label` reports to the caller: the parse error, or
/// an internal error where the error claims to come from another rule.
pub fn rule_error(label: &EggvizRewriteRuleLabel, e: EggvizProgramParseError) -> (r:
    EggvizRuntimeError)
    ensures
        is_rule_error(label@, e@, r@),
{
    let foreign = match &e.context {
        Some(EggvizProgramParseContext::RewriteRule { label: other, .. }) => !(*other == *label),
        _ => false,
    };
    if foreign {
        let mut msg = String::from_str("Invalid parse error context for parsing rewrite rule ");
        msg.append(label.to_string().as_str());
        msg.append(": ");
        msg.append(e.msg.as_str());
        EggvizRuntimeError::InternalError(msg)
    } else {
        EggvizRuntimeError::ParseError(e)
    }
}

/// The number by which a node is told from the other nodes of its class
/// when the store is drawn.
pub open spec fn node_number(n: (Seq<char>, Seq<nat>)) -> u64 {
    DefaultHasher::spec_finish(node_writes(n.0, n.1))
}

/// A node as it is drawn: its number, the name of its function, and the ids
/// of the classes of its arguments in decimal.
pub open spec fn drawn_node(n: (Seq<char>, Seq<nat>)) -> (u64, (Seq<char>, Seq<Seq<char>>)) {
    (node_number(n), (n.0, n.1.map_values(|c: nat| decimal_text(c))))
}

/// A class as it is drawn: its id in decimal, and its nodes.
pub open spec fn drawn_class(c: (usize, Vec<Language>)) -> (
    Seq<char>,
    Seq<(u64, (Seq<char>, Seq<Seq<char>>))>,
) {
    (decimal_text(c.0 as nat), c.1@.map_values(|n: Language| drawn_node(node_view(n))))
}

/// What a drawn node is as a plain value.
pub open spec fn drawn_node_view(n: (u64, (String, Vec<String>))) -> (
    u64,
    (Seq<char>, Seq<Seq<char>>),
) {
    (n.0, (n.1.0@, n.1.1@.map_values(|s: String| s@)))
}

/// What a drawn class is as a plain value.
pub open spec fn drawn_class_view(c: (String, Vec<(u64, (String, Vec<String>))>)) -> (
    Seq<char>,
    Seq<(u64, (Seq<char>, Seq<Seq<char>>))>,
) {
    (c.0@, c.1@.map_values(|n: (u64, (String, Vec<String>))| drawn_node_view(n)))
}

/// Whether `drawn` is the classes of a store as they are drawn: each entry is
/// a class of the store, drawn, and each class of the store has its entry.
/// Of a store in which congruence is restored (`tidy`), the children of the
/// nodes drawn are representatives, and no class has a node twice.
pub open spec fn is_drawing(
    drawn: Seq<(String, Vec<(u64, (String, Vec<String>))>)>,
    nodes: Seq<(Seq<char>, Seq<nat>)>,
    leader: Seq<nat>,
    tidy: bool,
) -> bool {
    exists|classes: Seq<(usize, Vec<Language>)>|
        {
            &&& #[trigger] is_snapshot(classes, nodes, leader)
            &&& tidy ==> is_tidy(classes, leader)
            &&& drawn.len() == classes.len()
            &&& forall|k: int|
                0 <= k < drawn.len() ==> drawn_class_view(#[trigger] drawn[k]) == drawn_class(
                    classes[k],
                )
        }
}

/// The number of a node.
pub fn number_node(node: &Language) -> (h: u64)
    ensures
        h == node_number(node_view(*node)),
{
    let mut hasher = DefaultHasher::new();
    hash_node(&mut hasher, node.function.as_str(), &node.children);
    hasher.finish()
}

/// A node as it is drawn.
pub fn draw_node(node: &Language) -> (r: (u64, (String, Vec<String>)))
    ensures
        drawn_node_view(r) == drawn_node(node_view(*node)),
{
    let mut children: Vec<String> = Vec::new();
    let mut k: usize = 0;
    while k < node.children.len()
        invariant
            k <= node.children.len(),
            children@.len() == k,
            forall|j: int| 0 <= j < k ==> (#[trigger] children@[j])@ == decimal_text(node.children@[j] as nat),
        decreases node.children.len() - k,
    {
        children.push(decimal_string(node.children[k]));
        k += 1;
    }
    let r = (number_node(node), (node.function.clone(), children));
    r
}

/// The classes as they are drawn, in the order given.
pub fn draw_classes(classes: &Vec<(usize, Vec<Language>)>) -> (r: Vec<
    (String, Vec<(u64, (String, Vec<String>))>),
>)
    ensures
        r@.len() == classes@.len(),
        forall|k: int|
            0 <= k < r@.len() ==> drawn_class_view(#[trigger] r@[k]) == drawn_class(classes@[k]),
{
    let mut out: Vec<(String, Vec<(u64, (String, Vec<String>))>)> = Vec::new();
    let mut i: usize = 0;
    while i < classes.len()
        invariant
            i <= classes.len(),
            out@.len() == i,
            forall|k: int|
                0 <= k < i ==> drawn_class_view(#[trigger] out@[k]) == drawn_class(classes@[k]),
        decreases classes.len() - i,
    {
        let mut nodes: Vec<(u64, (String, Vec<String>))> = Vec::new();
        let mut j: usize = 0;
        while j < classes[i].1.len()
            invariant
                i < classes.len(),
                j <= classes[i as int].1.len(),
                nodes@.len() == j,
                forall|k: int|
                    0 <= k < j ==> drawn_node_view(#[trigger] nodes@[k]) == drawn_node(
                        node_view(classes[i as int].1@[k]),
                    ),
            decreases classes[i as int].1.len() - j,
        {
            nodes.push(draw_node(&classes[i].1[j]));
            j += 1;
        }
        let class = (decimal_string(classes[i].0), nodes);
        out.push(class);
        i += 1;
    }
    out
}

/// A program in a store, with the rewrite rules that belong to it.
pub struct EggvizRuntime {
    rewrite_rules: Vec<EggvizRewrite>,
    sched_state: EggvizSingleStepSchedulerState,
    runner: Runner,
    program: Vec<Language>,
    root: usize,
}

impl EggvizRuntime {
    /// The labels of the rewrite rules, in the order of the rules.
    pub closed spec fn labels(&self) -> Seq<LabelView> {
        rule_labels(self.rewrite_rules@)
    }

    /// The store.
    pub closed spec fn store(&self) -> Store {
        self.runner.store_view()
    }

    /// The number of iterations run so far.
    pub closed spec fn iterations(&self) -> nat {
        self.runner.iterations_view()
    }

    /// The class of the program.
    pub closed spec fn root(&self) -> nat {
        self.root as nat
    }

    /// The program as an expression.
    pub closed spec fn program(&self) -> Seq<(Seq<char>, Seq<nat>)> {
        nodes_view(self.program@)
    }

    /// Whether the class of the program represents the program.
    pub open spec fn holds_program(&self) -> bool {
        &&& is_expr(self.program())
        &&& represented(
            self.store()@.nodes,
            self.store()@.leader,
            self.store()@.leader[self.root() as int],
            self.program(),
            self.program().len() - 1,
        )
    }

    /// The right sides of the rewrite rules.
    pub closed spec fn right_sides(&self) -> Seq<Seq<char>> {
        self.rewrite_rules@.map_values(|r: EggvizRewrite| r@.right)
    }

    /// The rewrite rules, in their order.
    pub closed spec fn rules(&self) -> Seq<RewriteView> {
        self.rewrite_rules@.map_values(|r: EggvizRewrite| r@)
    }

    /// Whether every rule that may fire holds in the store already: each
    /// class that matches its left side under a substitution matches its
    /// right side under it too. Only the rule `target` may fire if there is
    /// one, else every rule.
    pub open spec fn holds(&self, target: Option<LabelView>) -> bool {
        forall|k: int|
            0 <= k < self.rules().len() && (target matches Some(t) ==> (#[trigger] self.rules()[k]).label
                == t) ==> rule_holds(self.store(), self.rules()[k])
    }

    /// No label stands twice, the store is rebuilt, the class of the program
    /// is a class of the store and represents the program, and no step is
    /// in progress.
    pub closed spec fn wf(&self) -> bool {
        &&& rule_labels(self.rewrite_rules@).no_duplicates()
        &&& self.runner.wf()
        &&& graph_wf(self.runner.store_view()@.nodes, self.runner.store_view()@.leader)
        &&& self.sched_state.0@.applied_rules.len() == 0
        &&& self.runner.store_view().has(self.root as nat)
        &&& self.holds_program()
    }

    /// A runtime that is in order holds its program, in a store in which
    /// congruence is restored.
    pub proof fn wf_holds_program(self)
        requires
            self.wf(),
        ensures
            self.store().has(self.root()),
            self.holds_program(),
            self.store().settled(),
            self.store()@.clean,
            graph_wf(self.store()@.nodes, self.store()@.leader),
    {
    }

    /// A step that reports nothing has reached a fixpoint: every rule that
    /// may fire holds in the store that the step leaves, so that the next
    /// such step reports nothing either and leaves the classes as they are.
    pub proof fn silent_step_is_fixpoint(self, target: Option<LabelView>, after: EggvizRuntime)
        requires
            self.wf(),
            after.wf(),
            after.rules() == self.rules(),
            self.stepped(target, Seq::empty(), after),
        ensures
            after.holds(target),
    {
        assert forall|k: int|
            0 <= k < after.rules().len() && (target matches Some(t) ==> (
            #[trigger] after.rules()[k]).label == t) implies rule_holds(
            after.store(),
            after.rules()[k],
        ) by {
            assert(may_fire(target, self.rules()[k].label));
            applied_in_place_holds(self.store(), self.rules()[k], after.store());
        }
    }

    /// After a step that reports nothing, the next step with the same
    /// target reports nothing either and leaves the nodes and the classes
    /// as they are.
    pub proof fn silent_steps_repeat(
        self,
        target: Option<LabelView>,
        second: EggvizRuntime,
        out: Seq<LabelView>,
        third: EggvizRuntime,
    )
        requires
            self.wf(),
            second.wf(),
            second.rules() == self.rules(),
            self.stepped(target, Seq::empty(), second),
            second.stepped(target, out, third),
        ensures
            out.len() == 0,
            same_classes(second.store()@, third.store()@),
    {
        self.silent_step_is_fixpoint(target, second);
    }

    /// A step that reports nothing leaves the nodes and the classes as they
    /// are; one that reports a rule added a node or made two classes one.
    pub proof fn step_reports_change(
        self,
        target: Option<LabelView>,
        out: Seq<LabelView>,
        after: EggvizRuntime,
    )
        requires
            self.stepped(target, out, after),
        ensures
            out.len() == 0 ==> same_classes(self.store()@, after.store()@),
            out.len() > 0 ==> after.store()@.nodes.len() > self.store()@.nodes.len() || joins(
                self.store()@.leader,
                after.store()@.leader,
            ),
    {
    }

    /// Whether the store holds the nodes of the program and nothing else:
    /// one node for each subterm of the program, equal subterms counted
    /// once, each node alone in its class, with the class of the whole
    /// program for the root.
    pub open spec fn holds_only_program(&self) -> bool {
        exists|ids: Seq<nat>|
            #[trigger] self.store().holds_just(self.program(), ids) && ids.len()
                == self.program().len() && ids.last() == self.root()
    }

    /// How the runtime `after` comes from this one by a step in which only
    /// the rule `target` may fire, or every rule if there is none, and which
    /// reports `out`: one iteration, which takes the store of this runtime
    /// to the store of `after` and reports `out`. Every rule that may fire
    /// was applied to every match that it had before the step. A change is
    /// reported if and only if nodes were added or two classes became one;
    /// none is where every rule that may fire held already.
    pub open spec fn stepped(
        &self,
        target: Option<LabelView>,
        out: Seq<LabelView>,
        after: EggvizRuntime,
    ) -> bool {
        &&& after.iterations() == self.iterations() + 1
        &&& iterates(self.store(), self.rules(), target, out, after.store())
        &&& rules_applied(self.store(), self.rules(), target, after.store())
        &&& reports_change(self.store()@, after.store()@, out.len() > 0)
        &&& self.holds(target) ==> out.len() == 0 && same_classes(self.store()@, after.store()@)
    }

    /// Whether the store has room for one application of each rule: ids are
    /// left for the nodes of each right side.
    pub open spec fn has_room(&self) -> bool {
        forall|k: int|
            0 <= k < self.right_sides().len() ==> self.store()@.nodes.len() + (
            #[trigger] self.right_sides()[k]).len() <= u32::MAX
    }

    /// Reads the program and the rewrite rules, each given as an optional
    /// name, a left side and a right side, and brings the program into a
    /// store. A rule without a name is labelled by its index. The rules are
    /// taken in order; the first that has the label of an earlier rule, that
    /// cannot be read, or that is no rule for the store ends the
    /// construction with its error.
    pub fn new<P: EggvizProgram>(
        program_str: &str,
        rewrite_rules_str: &Vec<(Option<String>, String, String)>,
    ) -> (r: Result<EggvizRuntime, EggvizRuntimeError>)
        ensures
            match r {
                Ok(rt) => {
                    &&& rt.wf()
                    &&& rt.labels() == assigned_labels(rewrite_rules_str@)
                    &&& rt.iterations() == 0
                    &&& rt.holds_only_program()
                },
                Err(e) => match e@ {
                    RuntimeErrorView::DuplicateRewriteRuleLabel(l) => exists|i: int, j: int|
                        0 <= i < j < rewrite_rules_str@.len() && #[trigger] assigned_labels(
                            rewrite_rules_str@,
                        )[i] == l && #[trigger] assigned_labels(rewrite_rules_str@)[j] == l,
                    RuntimeErrorView::ParseError(_) => true,
                    RuntimeErrorView::InternalError(_) => true,
                    _ => false,
                },
            },
            P::refusal(program_str@) matches Some(e) ==> r is Err && is_program_error(
                e,
                r->Err_0@,
            ),
            P::refusal(program_str@) is None ==> is_built(
                build_rules::<P>(program_str@, rewrite_rules_str@, rewrite_rules_str@.len()).0,
                P::program_text(program_str@),
                r,
            ),
    {
        let (program, mut parse_state) = match P::parse_str(program_str) {
            Ok(parsed) => parsed,
            Err(e) => {
                return Err(program_error(e));
            },
        };
        let ghost wanted = assigned_labels(rewrite_rules_str@);
        let mut rewrite_rules: Vec<EggvizRewrite> = Vec::new();
        let mut idx: usize = 0;
        assert(rewrite_rules@.map_values(|r: EggvizRewrite| r@) =~= Seq::<RewriteView>::empty());
        while idx < rewrite_rules_str.len()
            invariant
                idx <= rewrite_rules_str.len(),
                wanted == assigned_labels(rewrite_rules_str@),
                rewrite_rules@.len() == idx,
                rule_labels(rewrite_rules@) == wanted.take(idx as int),
                rule_labels(rewrite_rules@).no_duplicates(),
                P::refusal(program_str@) is None,
                build_rules::<P>(program_str@, rewrite_rules_str@, idx as nat) == (
                    Building::Built(rewrite_rules@.map_values(|r: EggvizRewrite| r@)),
                    P::reading(parse_state),
                ),
                program.text() == P::program_text(program_str@),
            decreases rewrite_rules_str.len() - idx,
        {
            let rwr_label = assign_label(idx, &rewrite_rules_str[idx].0);
            assert(rwr_label@ == wanted[idx as int]);
            let ghost done = rewrite_rules@.map_values(|r: EggvizRewrite| r@);
            assert(done.map_values(|r: RewriteView| r.label) =~= rule_labels(rewrite_rules@));
            if find_label(&rewrite_rules, &rwr_label).is_some() {
                proof {
                    build_rules_failed::<P>(
                        program_str@,
                        rewrite_rules_str@,
                        (idx + 1) as nat,
                        rewrite_rules_str@.len(),
                    );
                }
                return Err(EggvizRuntimeError::DuplicateRewriteRuleLabel(rwr_label));
            }
            let rewrite_rule = match program.parse_rewrite_rule(
                &mut parse_state,
                &rwr_label,
                rewrite_rules_str[idx].1.as_str(),
                rewrite_rules_str[idx].2.as_str(),
            ) {
                Ok(rule) => rule,
                Err(e) => {
                    proof {
                        build_rules_failed::<P>(
                            program_str@,
                            rewrite_rules_str@,
                            (idx + 1) as nat,
                            rewrite_rules_str@.len(),
                        );
                    }
                    return Err(rule_error(&rwr_label, e));
                },
            };
            let rewrite = match EggvizRewrite::new(
                rwr_label,
                rewrite_rule.left_to_egg(),
                rewrite_rule.right_to_egg(),
            ) {
                Ok(rewrite) => rewrite,
                Err(e) => {
                    proof {
                        build_rules_failed::<P>(
                            program_str@,
                            rewrite_rules_str@,
                            (idx + 1) as nat,
                            rewrite_rules_str@.len(),
                        );
                    }
                    return Err(e);
                },
            };
            let ghost before = rule_labels(rewrite_rules@);
            let ghost made = rewrite@;
            rewrite_rules.push(rewrite);
            proof {
                assert(rule_labels(rewrite_rules@) =~= before.push(wanted[idx as int]));
                assert(rewrite_rules@.map_values(|r: EggvizRewrite| r@) =~= done.push(made));
            }
            idx += 1;
        }
        let expr = match parse_expr(program.to_egg().as_str()) {
            Ok(expr) => expr,
            Err(msg) => {
                return Err(EggvizRuntimeError::InternalError(msg));
            },
        };
        let mut store = Store::new();
        let root = match store.add_expr(&expr) {
            Ok(root) => root,
            Err(e) => {
                return Err(e);
            },
        };
        store.in_order();
        let ghost added = store;
        let runner = Runner::new(store);
        runner.store().in_order();
        proof {
            represented_kept(
                added@.nodes,
                added@.leader,
                runner.store_view()@.nodes,
                runner.store_view()@.leader,
                root as int,
                nodes_view(expr@),
                expr@.len() - 1,
            );
            let ids = added.expr_found(nodes_view(expr@), expr@.len())->Some_0;
            added.expr_found_prefix(nodes_view(expr@), expr@.len() as nat, expr@.len() as nat);
            rebuild_keeps_just(added, runner.store_view(), nodes_view(expr@), ids);
        }
        let ghost ids = added.expr_found(nodes_view(expr@), expr@.len())->Some_0;
        let rt = EggvizRuntime {
            rewrite_rules,
            sched_state: EggvizSingleStepScheduler::initial_state(),
            runner,
            program: expr,
            root,
        };
        assert(rt.store().holds_just(rt.program(), ids));
        Ok(rt)
    }

    /// The store.
    pub fn egraph(&self) -> (s: &Store)
        ensures
            *s == self.store(),
    {
        self.runner.store()
    }

    /// The program as an expression.
    pub fn program_expr(&self) -> (e: &Vec<Language>)
        ensures
            nodes_view(e@) == self.program(),
    {
        &self.program
    }

    /// The class of the program.
    pub fn root_class(&self) -> (c: usize)
        ensures
            c == self.root(),
    {
        self.root
    }

    /// Whether a rule has the given label.
    pub fn knows(&self, rule: &EggvizRewriteRuleLabel) -> (b: bool)
        ensures
            b == self.labels().contains(rule@),
    {
        find_label(&self.rewrite_rules, rule).is_some()
    }

    /// One step in which only the rule `rule` may fire: its matches are
    /// searched and applied together, then the store is rebuilt, so that
    /// every class that matched the left side matches the right side. It
    /// tells whether the application changed the store to the eye, which it
    /// did if and only if nodes were added or two classes became one. A
    /// label that no rule has is an error, and nothing changes. An internal
    /// error where the store or the count of iterations runs out.
    pub fn rewrite_rule(&mut self, rule: EggvizRewriteRuleLabel) -> (r: Result<
        bool,
        EggvizRuntimeError,
    >)
        requires
            old(self).wf(),
        ensures
            final(self).wf(),
            final(self).labels() == old(self).labels(),
            final(self).root() == old(self).root(),
            final(self).program() == old(self).program(),
            old(self).store()@.nodes.is_prefix_of(final(self).store()@.nodes),
            coarsens(old(self).store()@.leader, final(self).store()@.leader),
            !old(self).labels().contains(rule@) ==> r is Err && r->Err_0@
                == RuntimeErrorView::UnknownRewriteRuleLabel(rule@) && *final(self) == *old(self),
            final(self).rules() == old(self).rules(),
            old(self).labels().contains(rule@) ==> match r {
                Ok(fired) => old(self).stepped(
                    Some(rule@),
                    if fired {
                        seq![rule@]
                    } else {
                        Seq::empty()
                    },
                    *final(self),
                ),
                Err(e) => e@ is InternalError && (old(self).iterations() + 1 > usize::MAX
                    || !final(self).has_room()),
            },
    {
        if !self.knows(&rule) {
            return Err(EggvizRuntimeError::UnknownRewriteRuleLabel(rule));
        }
        let ghost start = self.runner.store_view();
        assert(self.rules() =~= rule_views(self.rewrite_rules@));
        proof {
            if old(self).holds(Some(rule@)) {
                assert forall|k: int|
                    0 <= k < self.rewrite_rules@.len() && (#[trigger] self.rewrite_rules@[k])@.label
                        == rule@ implies rule_holds(start, self.rewrite_rules@[k]@) by {
                    assert(self.rules()[k] == self.rewrite_rules@[k]@);
                }
            }
        }
        self.runner.store().in_order();
        let r = self.sched_state.rewrite_rule(&mut self.runner, &self.rewrite_rules, rule);
        self.runner.store().in_order();
        proof {
            represented_kept(
                start@.nodes,
                start@.leader,
                self.runner.store_view()@.nodes,
                self.runner.store_view()@.leader,
                self.root as int,
                self.program(),
                self.program().len() - 1,
            );
            if r is Err {
                if !(old(self).iterations() + 1 > usize::MAX) {
                    let k = choose|k: int|
                        0 <= k < self.rewrite_rules@.len() && self.runner.store_view()@.nodes.len()
                            + (#[trigger] self.rewrite_rules@[k])@.right.len() > u32::MAX;
                    assert(self.right_sides()[k] == self.rewrite_rules@[k]@.right);
                }
            }
        }
        r
    }

    /// One step in which every rule may fire: the matches of all rules are
    /// searched, then applied rule by rule, then the store is rebuilt, so
    /// that every class that matched the left side of a rule matches its
    /// right side. It returns the labels of the rules whose application
    /// changed the store to the eye, in the order of the rules, each at most
    /// once; none where no node was added and no two classes became one. An
    /// internal error where the store or the count of iterations runs out.
    pub fn rewrite_auto(&mut self) -> (r: Result<Vec<EggvizRewriteRuleLabel>, EggvizRuntimeError>)
        requires
            old(self).wf(),
        ensures
            final(self).wf(),
            final(self).labels() == old(self).labels(),
            final(self).root() == old(self).root(),
            final(self).program() == old(self).program(),
            old(self).store()@.nodes.is_prefix_of(final(self).store()@.nodes),
            coarsens(old(self).store()@.leader, final(self).store()@.leader),
            final(self).rules() == old(self).rules(),
            match r {
                Ok(applied) => {
                    &&& is_step(old(self).labels(), None, labels_of(applied@))
                    &&& old(self).stepped(None, labels_of(applied@), *final(self))
                },
                Err(e) => e@ is InternalError && (old(self).iterations() + 1 > usize::MAX
                    || !final(self).has_room()),
            },
    {
        assert(self.rules() =~= rule_views(self.rewrite_rules@));
        proof {
            if old(self).holds(None) {
                assert forall|k: int| 0 <= k < self.rewrite_rules@.len() implies rule_holds(
                    self.runner.store_view(),
                    (#[trigger] self.rewrite_rules@[k])@,
                ) by {
                    assert(self.rules()[k] == self.rewrite_rules@[k]@);
                }
            }
        }
        let ghost start = self.runner.store_view();
        self.runner.store().in_order();
        let r = self.sched_state.rewrite(&mut self.runner, &self.rewrite_rules, 1, None);
        self.runner.store().in_order();
        proof {
            represented_kept(
                start@.nodes,
                start@.leader,
                self.runner.store_view()@.nodes,
                self.runner.store_view()@.leader,
                self.root as int,
                self.program(),
                self.program().len() - 1,
            );
            if r is Err {
                if !(old(self).iterations() + 1 > usize::MAX) {
                    let k = choose|k: int|
                        0 <= k < self.rewrite_rules@.len() && self.runner.store_view()@.nodes.len()
                            + (#[trigger] self.rewrite_rules@[k])@.right.len() > u32::MAX;
                    assert(self.right_sides()[k] == self.rewrite_rules@[k]@.right);
                }
            }
        }
        r
    }

    /// The store as it is drawn: for each class its id in decimal and its
    /// nodes, each with its number, the name of its function and the ids of
    /// the classes of its arguments in decimal.
    pub fn current_graph(&self) -> (r: Vec<(String, Vec<(u64, (String, Vec<String>))>)>)
        ensures
            is_drawing(r@, self.store()@.nodes, self.store()@.leader, self.store()@.clean),
    {
        let classes = self.runner.store().classes();
        let r = draw_classes(&classes);
        r
    }

    /// The classes and their nodes, printed for a reader as the store
    /// prints itself. The text is for the eye only: nothing is stated of it.
    pub fn dump_graph(&self) -> String {
        self.runner.store().dump()
    }

    /// A smallest term that equals the program, as an expression, and its
    /// cost, which is no more than the number of nodes of the program. The
    /// extraction is refused where the class of the program reaches a class
    /// that reaches itself.
    pub fn extract(&self) -> (r: Result<(usize, Vec<Language>), EggvizRuntimeError>)
        requires
            self.wf(),
        ensures
            match r {
                Ok((cost, expr)) => {
                    &&& acyclic(
                        self.store()@.nodes,
                        self.store()@.leader,
                        self.store()@.leader[self.root() as int],
                    )
                    &&& self.store().is_best(self.root(), cost as nat, nodes_view(expr@))
                    &&& cost <= tree_size(self.program(), self.program().len() - 1)
                },
                Err(e) => {
                    &&& e@ == RuntimeErrorView::ExtractionCycle(self.root())
                    &&& !acyclic(
                        self.store()@.nodes,
                        self.store()@.leader,
                        self.store()@.leader[self.root() as int],
                    )
                },
            },
    {
        self.runner.store().extract(self.root)
    }
}

/// The rules of a flat list of sides: the texts at the places 0 and 1 are
/// the sides of the first rule, those at 2 and 3 of the second, and so on.
/// No rule has a name. A text left over at the end is dropped.
pub fn pair_rules(sides: &Vec<String>) -> (r: Vec<(Option<String>, String, String)>)
    ensures
        r@ == paired(sides@),
{
    let mut out: Vec<(Option<String>, String, String)> = Vec::new();
    let mut i: usize = 0;
    while i + 1 < sides.len()
        invariant
            i % 2 == 0,
            i <= sides.len(),
            out@.len() == i / 2,
            forall|k: int|
                0 <= k < out@.len() ==> #[trigger] out@[k] == (
                    None::<String>,
                    sides@[2 * k],
                    sides@[2 * k + 1],
                ),
        decreases sides.len() - i,
    {
        out.push((None, sides[i].clone(), sides[i + 1].clone()));
        i += 2;
    }
    out
}

/// The texts of the labels of a list.
pub fn label_texts(labels: &Vec<EggvizRewriteRuleLabel>) -> (r: Vec<String>)
    ensures
        r@.len() == labels@.len(),
        forall|i: int| 0 <= i < r@.len() ==> (#[trigger] r@[i])@ == label_text(labels@[i]@),
{
    let mut out: Vec<String> = Vec::new();
    let mut i: usize = 0;
    while i < labels.len()
        invariant
            i <= labels.len(),
            out@.len() == i,
            forall|k: int| 0 <= k < i ==> (#[trigger] out@[k])@ == label_text(labels@[k]@),
        decreases labels.len() - i,
    {
        out.push(labels[i].to_string());
        i += 1;
    }
    out
}

/// The message for a text that is no label.
pub open spec fn bad_label_message(text: Seq<char>) -> Seq<char> {
    "Unable to parse rule label \""@ + text + "\""@
}

/// The rules of a flat list of sides, as [`pair_rules`] gives them.
pub open spec fn paired(sides: Seq<String>) -> Seq<(Option<String>, String, String)> {
    Seq::new(sides.len() / 2, |i: int| (None, sides[2 * i], sides[2 * i + 1]))
}

/// Whether `r` is what the construction of a runtime of texts gives for the
/// program text `program` and the building `b` of its rules: the text of the
/// error of the building, if it failed; else the runtime, unless the program
/// text is no expression for the store or the store has no room for it.
pub open spec fn is_built_of_texts(
    b: Building,
    program: Seq<char>,
    r: Result<LispylangEggvizRuntime, String>,
) -> bool {
    match b {
        Building::Duplicate(l) => r is Err && r->Err_0@ == runtime_error_text(
            RuntimeErrorView::DuplicateRewriteRuleLabel(l),
        ),
        Building::Unread(l, e) => r is Err && (e.context is None ==> r->Err_0@
            == runtime_error_text(RuntimeErrorView::ParseError(e))),
        Building::NoRule => r is Err,
        Building::Built(rules) => {
            &&& r matches Ok(rt) ==> rt.inner().rules() == rules
            &&& expr_nodes(program) is None ==> r is Err
            &&& expr_nodes(program) is Some && expr_nodes(program)->Some_0.len() <= u32::MAX
                ==> r is Ok
        },
    }
}

/// A runtime for programs of the language with parentheses, driven by
/// texts: rules are given as a flat list of sides, labels by their texts,
/// and errors are reported as texts.
pub struct LispylangEggvizRuntime {
    inner: EggvizRuntime,
}

impl LispylangEggvizRuntime {
    /// The runtime behind the texts.
    pub closed spec fn inner(&self) -> EggvizRuntime {
        self.inner
    }

    /// The runtime behind the texts is in order.
    pub open spec fn wf(&self) -> bool {
        self.inner().wf()
    }

    /// Reads the program and the rules, given as a flat list of left and
    /// right sides; the rules are labelled by their indices. An error is
    /// reported by its text.
    pub fn new(program_str: &str, rewrite_rules: &Vec<String>) -> (r: Result<
        LispylangEggvizRuntime,
        String,
    >)
        ensures
            r matches Ok(rt) ==> rt.wf() && rt.inner().labels() == Seq::new(
                rewrite_rules@.len() / 2,
                |i: int| LabelView::Indexed(i as nat),
            ) && rt.inner().iterations() == 0 && rt.inner().holds_only_program(),
            parse_text(program_str@, true, Map::empty()).0 matches Err(f) ==> r is Err
                && r->Err_0@ == "Parsing Error: "@ + failure_message(f),
            parse_text(program_str@, true, Map::empty()).0 matches Ok(program) ==> is_built_of_texts(
                build_rules::<Program>(program_str@, paired(rewrite_rules@), rewrite_rules@.len() / 2).0,
                term_text(program),
                r,
            ),
    {
        let rules = pair_rules(rewrite_rules);
        match EggvizRuntime::new::<Program>(program_str, &rules) {
            Ok(inner) => {
                Ok(LispylangEggvizRuntime { inner })
            },
            Err(e) => Err(e.to_string()),
        }
    }

    /// One step in which only the rule with the label of the given text may
    /// fire: the step of the runtime behind the texts. A text that is no
    /// label is an error, reported by its message, and changes nothing; so
    /// is a label that no rule has. An internal error, reported by its text,
    /// where the store or the count of iterations runs out.
    pub fn rewrite_rule(&mut self, rule_label: &str) -> (r: Result<bool, String>)
        requires
            old(self).wf(),
        ensures
            final(self).wf(),
            final(self).inner().labels() == old(self).inner().labels(),
            parse_label(rule_label@) is None ==> r is Err && r->Err_0@ == bad_label_message(
                rule_label@,
            ) && *final(self) == *old(self),
            parse_label(rule_label@) is Some && !old(self).inner().labels().contains(
                parse_label(rule_label@)->Some_0,
            ) ==> r is Err && r->Err_0@ == runtime_error_text(
                RuntimeErrorView::UnknownRewriteRuleLabel(parse_label(rule_label@)->Some_0),
            ) && *final(self) == *old(self),
            final(self).inner().rules() == old(self).inner().rules(),
            final(self).inner().root() == old(self).inner().root(),
            final(self).inner().program() == old(self).inner().program(),
            old(self).inner().store()@.nodes.is_prefix_of(final(self).inner().store()@.nodes),
            coarsens(old(self).inner().store()@.leader, final(self).inner().store()@.leader),
            parse_label(rule_label@) is Some && old(self).inner().labels().contains(
                parse_label(rule_label@)->Some_0,
            ) ==> match r {
                Ok(fired) => old(self).inner().stepped(
                    parse_label(rule_label@),
                    if fired {
                        seq![parse_label(rule_label@)->Some_0]
                    } else {
                        Seq::empty()
                    },
                    final(self).inner(),
                ),
                Err(msg) => {
                    &&& "Internal Error: "@.is_prefix_of(msg@)
                    &&& old(self).inner().iterations() + 1 > usize::MAX
                        || !final(self).inner().has_room()
                },
            },
    {
        let parsed_label = match EggvizRewriteRuleLabel::from_str(rule_label) {
            Ok(label) => label,
            Err(_) => {
                let mut msg = String::from_str("Unable to parse rule label \"");
                msg.append(rule_label);
                msg.append("\"");
                return Err(msg);
            },
        };
        match self.inner.rewrite_rule(parsed_label) {
            Ok(fired) => Ok(fired),
            Err(e) => {
                let msg = e.to_string();
                proof {
                    if e@ is InternalError {
                        assert(msg@ == "Internal Error: "@ + e@->InternalError_0);
                    }
                }
                Err(msg)
            },
        }
    }

    /// One step in which every rule may fire: the step of the runtime behind
    /// the texts. It returns the texts of the labels of the rules whose
    /// application changed the store to the eye, in the order of the rules.
    /// Nothing is returned where every rule holds in the store already. An
    /// internal error, reported by its text, where the store or the count of
    /// iterations runs out.
    pub fn rewrite_auto(&mut self) -> (r: Result<Vec<String>, String>)
        requires
            old(self).wf(),
        ensures
            final(self).wf(),
            final(self).inner().labels() == old(self).inner().labels(),
            final(self).inner().rules() == old(self).inner().rules(),
            final(self).inner().root() == old(self).inner().root(),
            final(self).inner().program() == old(self).inner().program(),
            old(self).inner().store()@.nodes.is_prefix_of(final(self).inner().store()@.nodes),
            coarsens(old(self).inner().store()@.leader, final(self).inner().store()@.leader),
            match r {
                Ok(applied) => exists|labels: Seq<LabelView>|
                    {
                        &&& #[trigger] old(self).inner().stepped(None, labels, final(self).inner())
                        &&& is_step(old(self).inner().labels(), None, labels)
                        &&& applied@.len() == labels.len()
                        &&& forall|i: int|
                            0 <= i < applied@.len() ==> (#[trigger] applied@[i])@ == label_text(
                                labels[i],
                            )
                    },
                Err(msg) => {
                    &&& "Internal Error: "@.is_prefix_of(msg@)
                    &&& old(self).inner().iterations() + 1 > usize::MAX
                        || !final(self).inner().has_room()
                },
            },
    {
        match self.inner.rewrite_auto() {
            Ok(applied) => {
                let texts = label_texts(&applied);
                proof {
                    assert(old(self).inner().stepped(None, labels_of(applied@), self.inner()));
                }
                Ok(texts)
            },
            Err(e) => {
                let msg = e.to_string();
                proof {
                    assert(msg@ == "Internal Error: "@ + e@->InternalError_0);
                }
                Err(msg)
            },
        }
    }

    /// The classes and their nodes, printed for a reader as the store
    /// prints itself. The text is for the eye only: nothing is stated of it.
    pub fn dump_graph(&self) -> String {
        self.inner.dump_graph()
    }

    /// The store as it is drawn.
    pub fn current_graph(&self) -> (r: Vec<(String, Vec<(u64, (String, Vec<String>))>)>)
        ensures
            is_drawing(
                r@,
                self.inner().store()@.nodes,
                self.inner().store()@.leader,
                self.inner().store()@.clean,
            ),
    {
        self.inner.current_graph()
    }
}

} // verus!
