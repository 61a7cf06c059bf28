use eggviz::label::EggvizRewriteRuleLabel;
use eggviz::lispylang::Program;
use eggviz::runtime::EggvizRuntime;

type Drawn = Vec<(String, Vec<(u64, (String, Vec<String>))>)>;

fn runtime(program: &str, list: &[(Option<&str>, &str, &str)]) -> EggvizRuntime {
    let rules: Vec<(Option<String>, String, String)> = list
        .iter()
        .map(|(name, l, r)| (name.map(|n| n.to_string()), l.to_string(), r.to_string()))
        .collect();
    EggvizRuntime::new::<Program>(program, &rules).unwrap()
}

fn supplied(name: &str) -> EggvizRewriteRuleLabel {
    EggvizRewriteRuleLabel::Supplied(name.to_string())
}

fn drawn(rt: &EggvizRuntime) -> Drawn {
    let mut classes = rt.current_graph();
    for class in classes.iter_mut() {
        class.1.sort();
    }
    classes.sort();
    classes
}

fn nodes_of(graph: &Drawn) -> usize {
    graph.iter().map(|c| c.1.len()).sum()
}

#[test]
fn a_new_runtime_holds_one_class_for_each_distinct_subterm() {
    let rt = runtime("(g (f a) (f a))", &[]);
    let graph = drawn(&rt);
    assert_eq!(graph.len(), 3);
    for class in graph.iter() {
        assert_eq!(class.1.len(), 1);
    }
    let a = rt.egraph().lookup("a", &vec![]).unwrap().unwrap();
    let f = rt.egraph().lookup("f", &vec![a]).unwrap().unwrap();
    let g = rt.egraph().lookup("g", &vec![f, f]).unwrap().unwrap();
    assert_eq!(g, rt.root_class());
    assert_eq!(rt.egraph().len(), 3);
    assert_eq!(rt.egraph().find(a).unwrap(), a);
    assert_eq!(rt.egraph().find(f).unwrap(), f);
    assert_eq!(rt.egraph().find(g).unwrap(), g);
}

#[test]
fn an_auto_step_applies_every_rule_to_the_matches_it_had() {
    let mut rt = runtime("(f a b c)", &[(None, "a", "b"), (None, "b", "c")]);
    let applied = rt.rewrite_auto().unwrap();
    assert_eq!(applied.len(), 2);
    assert!(applied[0] == EggvizRewriteRuleLabel::Indexed(0));
    assert!(applied[1] == EggvizRewriteRuleLabel::Indexed(1));
    let graph = drawn(&rt);
    assert_eq!(graph.len(), 2);
    let leaf = |name: &str| rt.egraph().lookup(name, &vec![]).unwrap().unwrap();
    let k = leaf("a");
    assert_eq!(leaf("b"), k);
    assert_eq!(leaf("c"), k);
    let leaves = &graph.iter().find(|c| c.0 == k.to_string()).unwrap().1;
    assert_eq!(leaves.len(), 3);
    let top = &graph.iter().find(|c| c.0 != k.to_string()).unwrap().1;
    assert_eq!(top.len(), 1);
    assert_eq!(top[0].1 .0, "f");
    assert_eq!(top[0].1 .1, vec![k.to_string(), k.to_string(), k.to_string()]);
}

#[test]
fn a_union_of_leaves_unites_the_terms_above_them() {
    let mut rt = runtime("(g (f a) (f b))", &[(None, "a", "b")]);
    assert_eq!(drawn(&rt).len(), 5);
    assert_eq!(rt.rewrite_rule(EggvizRewriteRuleLabel::Indexed(0)).unwrap(), true);
    let graph = drawn(&rt);
    assert_eq!(graph.len(), 3);
    let a = rt.egraph().lookup("a", &vec![]).unwrap().unwrap();
    assert_eq!(rt.egraph().lookup("b", &vec![]).unwrap(), Some(a));
    let k = rt.egraph().lookup("f", &vec![a]).unwrap().unwrap();
    let fs = &graph.iter().find(|c| c.0 == k.to_string()).unwrap().1;
    assert_eq!(fs.len(), 1);
    assert_eq!(fs[0].1 .0, "f");
    let top = rt.egraph().find(rt.root_class()).unwrap();
    let gs = &graph.iter().find(|c| c.0 == top.to_string()).unwrap().1;
    assert_eq!(gs.len(), 1);
    assert_eq!(gs[0].1 .1, vec![k.to_string(), k.to_string()]);
}

#[test]
fn a_growing_rule_fires_once_in_each_step() {
    let mut rt = runtime("(f x)", &[(Some("grow"), "(f pa)", "(f (g pa))")]);
    assert_eq!((drawn(&rt).len(), nodes_of(&drawn(&rt))), (2, 2));
    for n in 0..5 {
        assert_eq!(rt.rewrite_rule(supplied("grow")).unwrap(), true);
        let graph = drawn(&rt);
        // the match that the step made was not applied in the step
        assert_eq!((graph.len(), nodes_of(&graph)), (3 + n, 4 + 2 * n));
        assert_eq!(rt.egraph().number_of_classes(), 3 + n);
        assert_eq!(rt.egraph().total_number_of_nodes(), 4 + 2 * n);
    }
}

#[test]
fn a_step_that_reports_nothing_changes_nothing() {
    let mut rt = runtime("(add x (add y z))", &[(Some("add_comm"), "(add pa pb)", "(add pb pa)")]);
    let start = drawn(&rt);
    assert_eq!(rt.rewrite_rule(supplied("add_comm")).unwrap(), true);
    let first = drawn(&rt);
    assert_ne!(first, start);
    assert_eq!(rt.rewrite_rule(supplied("add_comm")).unwrap(), false);
    assert_eq!(drawn(&rt), first);
    assert_eq!(rt.rewrite_auto().unwrap().len(), 0);
    assert_eq!(drawn(&rt), first);
    assert_eq!(rt.rewrite_auto().unwrap().len(), 0);
    assert_eq!(drawn(&rt), first);
}

#[test]
fn a_step_reports_a_union_that_adds_no_node() {
    let mut rt = runtime("(h a b)", &[(Some("same"), "a", "b")]);
    let nodes = rt.egraph().total_number_of_nodes();
    assert_eq!(rt.rewrite_rule(supplied("same")).unwrap(), true);
    assert_eq!(rt.egraph().total_number_of_nodes(), nodes);
    assert_eq!(rt.egraph().number_of_classes(), 2);
    assert_eq!(rt.rewrite_rule(supplied("same")).unwrap(), false);
    assert_eq!(rt.egraph().number_of_classes(), 2);
}
