use eggviz::error::EggvizRuntimeError;
use eggviz::label::EggvizRewriteRuleLabel;
use eggviz::lispylang::Program;
use eggviz::runtime::EggvizRuntime;

fn rules(list: &[(Option<&str>, &str, &str)]) -> Vec<(Option<String>, String, String)> {
    list.iter()
        .map(|(name, l, r)| (name.map(|n| n.to_string()), l.to_string(), r.to_string()))
        .collect()
}

fn supplied(name: &str) -> EggvizRewriteRuleLabel {
    EggvizRewriteRuleLabel::Supplied(name.to_string())
}

#[test]
fn commutativity_step_by_step() {
    let rules = rules(&[(Some("add_comm"), "(add pa pb)", "(add pb pa)")]);
    let mut rt = EggvizRuntime::new::<Program>("(add x (add y z))", &rules).unwrap();
    assert_eq!(rt.egraph().number_of_classes(), 5);
    assert_eq!(rt.egraph().total_number_of_nodes(), 5);
    assert_eq!(rt.rewrite_rule(supplied("add_comm")).unwrap(), true);
    // the commuted terms were added to the classes of the terms they equal
    assert_eq!(rt.egraph().number_of_classes(), 5);
    assert_eq!(rt.egraph().total_number_of_nodes(), 7);
    let class = |name: &str| rt.egraph().lookup(name, &vec![]).unwrap().unwrap();
    let inner = rt.egraph().lookup("add", &vec![class("y"), class("z")]).unwrap().unwrap();
    let top = rt.egraph().find(rt.root_class()).unwrap();
    assert_eq!(rt.egraph().lookup("add", &vec![class("x"), inner]).unwrap(), Some(top));
    assert_eq!(rt.egraph().lookup("add", &vec![inner, class("x")]).unwrap(), Some(top));
    assert_eq!(rt.egraph().lookup("add", &vec![class("z"), class("y")]).unwrap(), Some(inner));
    let mut fresh = EggvizRuntime::new::<Program>("(add (add y z) x)", &rules).unwrap();
    let _ = fresh.rewrite_rule(supplied("add_comm")).unwrap();
    assert_eq!(rt.egraph().number_of_classes(), fresh.egraph().number_of_classes());
    // a second step finds every commuted term in place
    assert_eq!(rt.rewrite_rule(supplied("add_comm")).unwrap(), false);
    assert_eq!(rt.egraph().total_number_of_nodes(), 7);
}

#[test]
fn unknown_label_is_an_error_and_changes_nothing() {
    let rules = rules(&[(Some("add_comm"), "(add pa pb)", "(add pb pa)")]);
    let mut rt = EggvizRuntime::new::<Program>("(add x (add y z))", &rules).unwrap();
    let classes = rt.egraph().number_of_classes();
    let nodes = rt.egraph().total_number_of_nodes();
    match rt.rewrite_rule(supplied("nonexistent")) {
        Err(EggvizRuntimeError::UnknownRewriteRuleLabel(l)) => {
            assert!(l == supplied("nonexistent"))
        }
        other => panic!("unexpected: {:?}", other),
    }
    assert_eq!(rt.egraph().number_of_classes(), classes);
    assert_eq!(rt.egraph().total_number_of_nodes(), nodes);
}

#[test]
fn duplicate_labels_are_refused() {
    let rules = rules(&[
        (Some("r"), "(f pa)", "pa"),
        (Some("r"), "(g pa)", "pa"),
    ]);
    match EggvizRuntime::new::<Program>("(f x)", &rules) {
        Err(EggvizRuntimeError::DuplicateRewriteRuleLabel(l)) => assert!(l == supplied("r")),
        _ => panic!("duplicate label accepted"),
    }
}

#[test]
fn auto_step_reports_the_rules_that_changed_the_store() {
    let rules = rules(&[
        (None, "(add pa pb)", "(add pb pa)"),
        (None, "(mul pa pb)", "(mul pb pa)"),
        (None, "(add pa zero)", "pa"),
    ]);
    let mut rt = EggvizRuntime::new::<Program>("(add x zero)", &rules).unwrap();
    let applied = rt.rewrite_auto().unwrap();
    assert_eq!(applied.len(), 2);
    assert!(applied[0] == EggvizRewriteRuleLabel::Indexed(0));
    assert!(applied[1] == EggvizRewriteRuleLabel::Indexed(2));
    let applied = rt.rewrite_auto().unwrap();
    assert_eq!(applied.len(), 0);
}

#[test]
fn a_step_applies_all_matches_of_the_rule_together() {
    let rules = rules(&[(Some("add_comm"), "(add pa pb)", "(add pb pa)")]);
    let mut rt = EggvizRuntime::new::<Program>("(add (add a b) (add c d))", &rules).unwrap();
    assert_eq!(rt.egraph().total_number_of_nodes(), 7);
    assert_eq!(rt.rewrite_rule(supplied("add_comm")).unwrap(), true);
    // three sums were found, each got its commuted twin in one step
    assert_eq!(rt.egraph().total_number_of_nodes(), 10);
    assert_eq!(rt.egraph().number_of_classes(), 7);
}

#[test]
fn a_match_that_holds_already_is_not_reported() {
    let rules = rules(&[(Some("add_comm"), "(add pa pb)", "(add pb pa)")]);
    let mut rt = EggvizRuntime::new::<Program>("(add x x)", &rules).unwrap();
    let nodes = rt.egraph().total_number_of_nodes();
    assert_eq!(rt.rewrite_rule(supplied("add_comm")).unwrap(), false);
    assert_eq!(rt.egraph().total_number_of_nodes(), nodes);
    assert_eq!(rt.rewrite_auto().unwrap().len(), 0);
}

#[test]
fn a_rule_without_match_is_not_reported() {
    let rules = rules(&[(Some("mul_comm"), "(mul pa pb)", "(mul pb pa)")]);
    let mut rt = EggvizRuntime::new::<Program>("(add x y)", &rules).unwrap();
    assert_eq!(rt.rewrite_rule(supplied("mul_comm")).unwrap(), false);
    assert_eq!(rt.egraph().total_number_of_nodes(), 3);
}

#[test]
fn a_step_without_rules() {
    let mut rt = EggvizRuntime::new::<Program>("(add x y)", &Vec::new()).unwrap();
    assert_eq!(rt.rewrite_auto().unwrap().len(), 0);
    assert!(matches!(
        rt.rewrite_rule(EggvizRewriteRuleLabel::Indexed(0)),
        Err(EggvizRuntimeError::UnknownRewriteRuleLabel(_))
    ));
    assert_eq!(rt.egraph().number_of_classes(), 3);
}

#[test]
fn labels_are_names_or_indices() {
    let rules = rules(&[
        (None, "(f pa)", "pa"),
        (Some("x"), "(g pa)", "pa"),
        (None, "(h pa)", "pa"),
    ]);
    let mut rt = EggvizRuntime::new::<Program>("(f (g (h y)))", &rules).unwrap();
    assert!(rt.knows(&EggvizRewriteRuleLabel::Indexed(0)));
    assert!(rt.knows(&supplied("x")));
    assert!(rt.knows(&EggvizRewriteRuleLabel::Indexed(2)));
    assert!(!rt.knows(&EggvizRewriteRuleLabel::Indexed(1)));
    assert!(!rt.knows(&supplied("0")));
    assert!(matches!(
        rt.rewrite_rule(EggvizRewriteRuleLabel::Indexed(1)),
        Err(EggvizRuntimeError::UnknownRewriteRuleLabel(_))
    ));
    assert_eq!(rt.rewrite_rule(EggvizRewriteRuleLabel::Indexed(2)).unwrap(), true);
    assert_eq!(rt.rewrite_rule(supplied("x")).unwrap(), true);
}

#[test]
fn an_index_can_clash_with_no_name() {
    let rules = rules(&[(Some("1"), "(f pa)", "pa"), (None, "(g pa)", "pa")]);
    assert!(EggvizRuntime::new::<Program>("(f x)", &rules).is_ok());
}

#[test]
fn construction_errors() {
    match EggvizRuntime::new::<Program>("(f x", &Vec::new()) {
        Err(EggvizRuntimeError::ParseError(e)) => assert_eq!(e.msg, "Unmatched '(' token."),
        _ => panic!("bad program accepted"),
    }
    match EggvizRuntime::new::<Program>("(f x)", &rules(&[(None, "(f pa", "pa")])) {
        Err(EggvizRuntimeError::ParseError(e)) => assert_eq!(e.msg, "Unmatched '(' token."),
        _ => panic!("bad rule accepted"),
    }
    match EggvizRuntime::new::<Program>("(f x)", &rules(&[(None, "(f pa pb)", "pa")])) {
        Err(EggvizRuntimeError::ParseError(e)) => assert_eq!(
            e.msg,
            "Cannot instantiate function with symbol 'f' with an arity of 2, because it was already declared with an arity of 1."
        ),
        _ => panic!("arity clash accepted"),
    }
    match EggvizRuntime::new::<Program>("(f x)", &rules(&[(None, "(f pa)", "pb")])) {
        Err(EggvizRuntimeError::InternalError(_)) => {}
        _ => panic!("unbound variable accepted"),
    }
    // the first error in the order of the rules is reported
    match EggvizRuntime::new::<Program>(
        "(f x)",
        &rules(&[(Some("a"), "(f pa", "pa"), (Some("b"), "x", "x"), (Some("b"), "x", "x")]),
    ) {
        Err(EggvizRuntimeError::ParseError(_)) => {}
        _ => panic!("wrong error"),
    }
}

#[test]
fn the_drawn_store_lists_classes_and_nodes() {
    let rules = rules(&[(Some("add_comm"), "(add pa pb)", "(add pb pa)")]);
    let mut rt = EggvizRuntime::new::<Program>("(add x y)", &rules).unwrap();
    rt.rewrite_rule(supplied("add_comm")).unwrap();
    let mut graph = rt.current_graph();
    graph.sort_by(|a, b| a.0.cmp(&b.0));
    assert_eq!(graph.len(), 3);
    let root = rt.egraph().find(rt.root_class()).unwrap().to_string();
    let sums = &graph.iter().find(|c| c.0 == root).unwrap().1;
    assert_eq!(sums.len(), 2);
    assert_eq!(sums[0].1 .0, "add");
    assert_eq!(sums[1].1 .0, "add");
    assert_eq!(sums[0].1 .1.len(), 2);
    assert_eq!(sums[0].1 .1[0], sums[1].1 .1[1]);
    assert_eq!(sums[0].1 .1[1], sums[1].1 .1[0]);
    assert_ne!(sums[0].0, sums[1].0);
    for class in graph.iter().filter(|c| c.0 != root) {
        assert_eq!(class.1.len(), 1);
        assert!(class.1[0].1 .1.is_empty());
        assert!(class.1[0].1 .0 == "x" || class.1[0].1 .0 == "y");
    }
    assert!(rt.dump_graph().contains("add"));
}

#[test]
fn the_program_stays_in_its_class() {
    let rules = rules(&[
        (Some("add_comm"), "(add pa pb)", "(add pb pa)"),
        (Some("twice"), "(add pa pa)", "(double pa)"),
    ]);
    let mut rt = EggvizRuntime::new::<Program>("(add (add x x) (add x x))", &rules).unwrap();
    let program = rt.program_expr();
    assert_eq!(eggviz::store::expr_string(program, program.len() - 1), "(add (add x x) (add x x))");
    assert_eq!(rt.extract().unwrap().0, 7);
    for _ in 0..3 {
        rt.rewrite_auto().unwrap();
        let (cost, _) = rt.extract().unwrap();
        assert!(cost <= 7);
        // the program is still found, in the class it was given
        let x = rt.egraph().lookup("x", &vec![]).unwrap().unwrap();
        let inner = rt.egraph().lookup("add", &vec![x, x]).unwrap().unwrap();
        let top = rt.egraph().lookup("add", &vec![inner, inner]).unwrap().unwrap();
        assert_eq!(top, rt.egraph().find(rt.root_class()).unwrap());
    }
    let (cost, expr) = rt.extract().unwrap();
    assert_eq!(cost, 3);
    assert_eq!(eggviz::store::expr_string(&expr, expr.len() - 1), "(double (double x))");
}

#[test]
fn extraction_gives_a_smallest_equal_term() {
    let rules = rules(&[(Some("add_comm"), "(add pa pb)", "(add pb pa)")]);
    let mut rt = EggvizRuntime::new::<Program>("(add x (add y z))", &rules).unwrap();
    rt.rewrite_rule(supplied("add_comm")).unwrap();
    let (cost, expr) = rt.extract().unwrap();
    assert_eq!(cost, 5);
    let text = eggviz::store::expr_string(&expr, expr.len() - 1);
    assert!(
        ["(add x (add y z))", "(add x (add z y))", "(add (add y z) x)", "(add (add z y) x)"]
            .contains(&text.as_str()),
        "{}",
        text
    );
}

#[test]
fn extraction_refuses_a_program_that_equals_a_part_of_itself() {
    let rules = rules(&[(Some("add_zero"), "(add pa zero)", "pa")]);
    let mut rt = EggvizRuntime::new::<Program>("(add x zero)", &rules).unwrap();
    assert_eq!(rt.extract().unwrap().0, 3);
    assert_eq!(rt.rewrite_rule(supplied("add_zero")).unwrap(), true);
    let root = rt.root_class();
    assert!(matches!(rt.extract(), Err(EggvizRuntimeError::ExtractionCycle(c)) if c == root));
}
