use eggviz::error::{EggvizProgramParseContext, EggvizProgramParseError, EggvizRuntimeError};
use eggviz::label::EggvizRewriteRuleLabel;
use eggviz::runtime::{
    assign_label, draw_classes, draw_node, find_label, label_texts, number_node, pair_rules,
    program_error, rule_error, EggvizLanguage, LispylangEggvizRuntime,
};
use eggviz::scheduler::{EggvizRewrite, EggvizSingleStepScheduler, Runner};
use eggviz::store::{Language, Store};

fn node(function: &str, children: &[usize]) -> Language {
    Language { function: function.to_string(), children: children.to_vec() }
}

fn rule(label: EggvizRewriteRuleLabel, left: &str, right: &str) -> EggvizRewrite {
    EggvizRewrite::new(label, left.to_string(), right.to_string()).unwrap()
}

#[test]
fn assigned_labels() {
    assert!(assign_label(3, &None) == EggvizRewriteRuleLabel::Indexed(3));
    assert!(assign_label(3, &Some("n".to_string())) == EggvizRewriteRuleLabel::Supplied("n".to_string()));
}

#[test]
fn labels_are_found_by_comparison() {
    let rules = vec![
        rule(EggvizRewriteRuleLabel::Indexed(0), "?a", "?a"),
        rule(EggvizRewriteRuleLabel::Supplied("x".to_string()), "?a", "?a"),
    ];
    assert_eq!(find_label(&rules, &EggvizRewriteRuleLabel::Indexed(0)), Some(0));
    assert_eq!(find_label(&rules, &EggvizRewriteRuleLabel::Supplied("x".to_string())), Some(1));
    assert_eq!(find_label(&rules, &EggvizRewriteRuleLabel::Indexed(1)), None);
    assert_eq!(find_label(&Vec::new(), &EggvizRewriteRuleLabel::Indexed(0)), None);
}

#[test]
fn rules_keep_their_parts() {
    let r = rule(EggvizRewriteRuleLabel::Indexed(4), "(f ?a ?b)", "(g ?b)");
    assert!(*r.label() == EggvizRewriteRuleLabel::Indexed(4));
    assert_eq!(r.left(), "(f ?a ?b)");
    assert_eq!(r.right(), "(g ?b)");
}

#[test]
fn rules_are_checked_when_made() {
    let make = |l: &str, r: &str| EggvizRewrite::new(EggvizRewriteRuleLabel::Indexed(0), l.to_string(), r.to_string());
    assert!(make("(f ?a)", "?a").is_ok());
    assert!(make("x", "y").is_ok());
    assert!(matches!(make("(f ?a)", "?b"), Err(EggvizRuntimeError::InternalError(_))));
    assert!(matches!(make("(f ?a", "?a"), Err(EggvizRuntimeError::InternalError(_))));
    assert!(matches!(make("(f ?a)", ")"), Err(EggvizRuntimeError::InternalError(_))));
    assert!(matches!(make("", "x"), Err(EggvizRuntimeError::InternalError(_))));
}

#[test]
fn errors_of_reading_a_program() {
    let plain = EggvizProgramParseError::context_less("m");
    assert!(matches!(program_error(plain), EggvizRuntimeError::ParseError(e) if e.msg == "m"));
    let at = EggvizProgramParseError {
        msg: "m".to_string(),
        context: Some(EggvizProgramParseContext::Program { offset: 1 }),
    };
    assert!(matches!(program_error(at), EggvizRuntimeError::ParseError(_)));
    let foreign = EggvizProgramParseError {
        msg: "m".to_string(),
        context: Some(EggvizProgramParseContext::RewriteRule {
            label: EggvizRewriteRuleLabel::Indexed(0),
            offset: 1,
        }),
    };
    assert!(matches!(program_error(foreign), EggvizRuntimeError::InternalError(_)));
}

#[test]
fn errors_of_reading_a_rule() {
    let label = EggvizRewriteRuleLabel::Indexed(1);
    let with = |l: EggvizRewriteRuleLabel| EggvizProgramParseError {
        msg: "m".to_string(),
        context: Some(EggvizProgramParseContext::RewriteRule { label: l, offset: 0 }),
    };
    assert!(matches!(rule_error(&label, with(EggvizRewriteRuleLabel::Indexed(1))), EggvizRuntimeError::ParseError(_)));
    assert!(matches!(rule_error(&label, with(EggvizRewriteRuleLabel::Indexed(2))), EggvizRuntimeError::InternalError(_)));
    assert!(matches!(
        rule_error(&label, EggvizProgramParseError::context_less("m")),
        EggvizRuntimeError::ParseError(_)
    ));
    let at = EggvizProgramParseError {
        msg: "m".to_string(),
        context: Some(EggvizProgramParseContext::Program { offset: 1 }),
    };
    assert!(matches!(rule_error(&label, at), EggvizRuntimeError::ParseError(_)));
}

#[test]
fn sides_are_paired() {
    let v = |l: &[&str]| l.iter().map(|s| s.to_string()).collect::<Vec<_>>();
    assert!(pair_rules(&v(&[])).is_empty());
    assert!(pair_rules(&v(&["a"])).is_empty());
    let pairs = pair_rules(&v(&["a", "b", "c", "d", "e"]));
    assert_eq!(pairs.len(), 2);
    assert_eq!(pairs[0], (None, "a".to_string(), "b".to_string()));
    assert_eq!(pairs[1], (None, "c".to_string(), "d".to_string()));
}

#[test]
fn labels_as_texts() {
    let labels = vec![EggvizRewriteRuleLabel::Indexed(2), EggvizRewriteRuleLabel::Supplied("n".to_string())];
    assert_eq!(label_texts(&labels), vec!["rwr#2".to_string(), "rwr:n".to_string()]);
}

#[test]
fn nodes_are_drawn_with_their_number() {
    let a = node("f", &[1, 20]);
    let drawn = draw_node(&a);
    assert_eq!(drawn.1 .0, "f");
    assert_eq!(drawn.1 .1, vec!["1".to_string(), "20".to_string()]);
    assert_eq!(drawn.0, number_node(&a));
    assert_eq!(number_node(&a), number_node(&node("f", &[1, 20])));
    assert_ne!(number_node(&a), number_node(&node("f", &[20, 1])));
    assert_ne!(number_node(&a), number_node(&node("g", &[1, 20])));
    assert_ne!(number_node(&node("f", &[])), number_node(&node("g", &[])));
    assert_eq!(a.get_function_name(), "f");
    let classes = draw_classes(&vec![(7, vec![node("x", &[])]), (12, vec![])]);
    assert_eq!(classes.len(), 2);
    assert_eq!(classes[0].0, "7");
    assert_eq!(classes[0].1.len(), 1);
    assert_eq!(classes[0].1[0].1 .0, "x");
    assert_eq!(classes[1].0, "12");
    assert!(classes[1].1.is_empty());
}

#[test]
fn the_scheduler_lets_the_target_fire_up_to_the_target_iteration() {
    let mut state = EggvizSingleStepScheduler::initial_state();
    let mut store = Store::new();
    let x = store.add("x", &vec![]).unwrap();
    store.add("f", &vec![x]).unwrap();
    let mut runner = Runner::new(store);
    assert_eq!(runner.iterations(), 0);
    assert!(runner.store().is_clean());
    let rules = vec![
        rule(EggvizRewriteRuleLabel::Indexed(0), "(f ?a)", "(g ?a)"),
        rule(EggvizRewriteRuleLabel::Indexed(1), "(f ?a)", "(h ?a)"),
    ];
    // before any step: no target, target iteration 0
    assert!(state.0.permits(0, &EggvizRewriteRuleLabel::Indexed(0)));
    assert!(state.0.permits(0, &EggvizRewriteRuleLabel::Indexed(7)));
    assert!(!state.0.permits(1, &EggvizRewriteRuleLabel::Indexed(0)));
    assert_eq!(state.0.search_rewrite(0, runner.store(), &rules[0]).unwrap().len(), 1);
    assert_eq!(state.0.search_rewrite(1, runner.store(), &rules[0]).unwrap().len(), 0);
    let applied = state
        .rewrite(&mut runner, &rules, 1, Some(EggvizRewriteRuleLabel::Indexed(1)))
        .unwrap();
    assert_eq!(applied.len(), 1);
    assert!(applied[0] == EggvizRewriteRuleLabel::Indexed(1));
    assert_eq!(runner.iterations(), 1);
    assert_eq!(runner.store().lookup("g", &vec![x]).unwrap(), None);
    assert!(runner.store().lookup("h", &vec![x]).unwrap().is_some());
    // the target of the last step stays until the next
    assert!(state.0.permits(0, &EggvizRewriteRuleLabel::Indexed(1)));
    assert!(!state.0.permits(0, &EggvizRewriteRuleLabel::Indexed(0)));
    assert!(!state.0.permits(1, &EggvizRewriteRuleLabel::Indexed(1)));
    let mut scheduler = EggvizSingleStepScheduler(state);
    let found = scheduler.search_rewrite(0, runner.store(), &rules[1]).unwrap();
    assert_eq!(found.len(), 1);
    assert_eq!(scheduler.search_rewrite(0, runner.store(), &rules[0]).unwrap().len(), 0);
    let mut store = Store::new();
    let y = store.add("y", &vec![]).unwrap();
    let fy = store.add("f", &vec![y]).unwrap();
    store.rebuild();
    let found = scheduler.search_rewrite(0, &store, &rules[1]).unwrap();
    assert_eq!(found.len(), 1);
    assert_eq!(found[0].eclass, fy);
    assert_eq!(found[0].substs, vec![vec![y]]);
    assert_eq!(scheduler.apply_rewrite(0, &mut store, &rules[1], &found).unwrap(), 1);
    store.rebuild();
    assert_eq!(store.lookup("h", &vec![y]).unwrap(), Some(store.find(fy).unwrap()));
}

#[test]
fn applying_records_the_rule_only_when_the_store_changes() {
    let mut state = EggvizSingleStepScheduler::initial_state();
    let mut store = Store::new();
    let x = store.add("x", &vec![]).unwrap();
    store.add("add", &vec![x, x]).unwrap();
    store.rebuild();
    let comm = rule(EggvizRewriteRuleLabel::Indexed(0), "(add ?a ?b)", "(add ?b ?a)");
    let twice = rule(EggvizRewriteRuleLabel::Indexed(1), "(add ?a ?a)", "(double ?a)");
    let found = state.0.search_rewrite(0, &store, &comm).unwrap();
    assert_eq!(state.0.apply_rewrite(0, &mut store, &comm, &found).unwrap(), 1);
    assert_eq!(store.len(), 2);
    store.rebuild();
    let found = state.0.search_rewrite(0, &store, &twice).unwrap();
    assert_eq!(state.0.apply_rewrite(1, &mut store, &twice, &found).unwrap(), 0);
    assert_eq!(store.len(), 2);
    assert_eq!(state.0.apply_rewrite(0, &mut store, &twice, &Vec::new()).unwrap(), 0);
    assert_eq!(state.0.apply_rewrite(0, &mut store, &twice, &found).unwrap(), 1);
    assert_eq!(store.len(), 3);
}

#[test]
fn several_iterations_in_one_call() {
    let mut state = EggvizSingleStepScheduler::initial_state();
    let mut store = Store::new();
    let x = store.add("x", &vec![]).unwrap();
    store.add("f", &vec![x]).unwrap();
    let mut runner = Runner::new(store);
    let rules = vec![rule(EggvizRewriteRuleLabel::Indexed(0), "(f ?a)", "(f (f ?a))")];
    let applied = state.rewrite(&mut runner, &rules, 3, None).unwrap();
    assert_eq!(applied.len(), 1);
    assert_eq!(runner.iterations(), 3);
    assert_eq!(state.rewrite_rule(&mut runner, &rules, EggvizRewriteRuleLabel::Indexed(0)).unwrap(), false);
    assert_eq!(runner.iterations(), 4);
}

#[test]
fn the_runtime_of_texts() {
    let v = |l: &[&str]| l.iter().map(|s| s.to_string()).collect::<Vec<_>>();
    let sides = v(&["(add pa pb)", "(add pb pa)", "(add pa zero)", "pa", "dropped"]);
    let mut rt = LispylangEggvizRuntime::new("(add x zero)", &sides).unwrap();
    assert_eq!(rt.rewrite_rule("nonexistent"), Err("Unable to parse rule label \"nonexistent\"".to_string()));
    assert_eq!(rt.rewrite_rule("rwr#2"), Err("Error: Rewrite rule `rwr#2` is not defined.".to_string()));
    assert_eq!(rt.rewrite_rule("rwr:add_comm"), Err("Error: Rewrite rule `rwr:add_comm` is not defined.".to_string()));
    assert_eq!(rt.current_graph().len(), 3);
    assert_eq!(rt.rewrite_rule("rwr#0"), Ok(true));
    assert_eq!(rt.rewrite_rule("rwr#0"), Ok(false));
    assert_eq!(rt.rewrite_auto(), Ok(vec!["rwr#1".to_string()]));
    assert_eq!(rt.rewrite_auto(), Ok(vec![]));
    assert_eq!(rt.current_graph().len(), 2);
    assert!(!rt.dump_graph().is_empty());
    assert_eq!(
        LispylangEggvizRuntime::new("(add x", &sides).err(),
        Some("Parsing Error: Unmatched '(' token.".to_string())
    );
    assert_eq!(
        LispylangEggvizRuntime::new("px", &Vec::new()).err(),
        Some("Parsing Error: Unexpected generic variable in program. Variables beginning with 'p' are reserved for generic variables in rewrite rules.".to_string())
    );
}

#[test]
fn an_auto_step_of_the_runtime_of_texts_reports_only_a_change() {
    let drawn = |rt: &LispylangEggvizRuntime| {
        let mut classes = rt.current_graph();
        for class in classes.iter_mut() {
            class.1.sort();
        }
        classes.sort();
        classes
    };
    let sides: Vec<String> = ["(add pa pb)", "(add pb pa)"].iter().map(|s| s.to_string()).collect();
    let mut rt = LispylangEggvizRuntime::new("(add x y)", &sides).unwrap();
    let nodes = |rt: &LispylangEggvizRuntime| rt.current_graph().iter().map(|c| c.1.len()).sum::<usize>();
    assert_eq!((rt.current_graph().len(), nodes(&rt)), (3, 3));
    assert_eq!(rt.rewrite_auto(), Ok(vec!["rwr#0".to_string()]));
    assert_eq!((rt.current_graph().len(), nodes(&rt)), (3, 4));
    let settled = drawn(&rt);
    assert_eq!(rt.rewrite_auto(), Ok(vec![]));
    assert_eq!(drawn(&rt), settled);
}
