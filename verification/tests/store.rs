use eggviz::error::EggvizRuntimeError;
use eggviz::store::{all_within, expr_string, place, Language, Store};

fn node(function: &str, children: &[usize]) -> Language {
    Language { function: function.to_string(), children: children.to_vec() }
}

fn leaf(store: &mut Store, name: &str) -> usize {
    store.add(name, &vec![]).unwrap()
}

#[test]
fn a_new_store_is_empty() {
    let store = Store::new();
    assert_eq!(store.len(), 0);
    assert_eq!(store.total_number_of_nodes(), 0);
    assert_eq!(store.number_of_classes(), 0);
    assert!(!store.is_clean());
    assert!(store.classes().is_empty());
    assert_eq!(store.lookup("x", &vec![]).unwrap(), None);
}

#[test]
fn add_is_idempotent() {
    let mut store = Store::new();
    let x = leaf(&mut store, "x");
    let y = leaf(&mut store, "y");
    assert_ne!(x, y);
    assert_eq!(leaf(&mut store, "x"), x);
    let f = store.add("f", &vec![x, y]).unwrap();
    assert_eq!(store.add("f", &vec![x, y]).unwrap(), f);
    assert_ne!(store.add("f", &vec![y, x]).unwrap(), f);
    assert_eq!(store.len(), 4);
    assert_eq!(store.total_number_of_nodes(), 4);
    assert_eq!(store.number_of_classes(), 4);
    assert_eq!(store.lookup("f", &vec![x, y]).unwrap(), Some(f));
    assert_eq!(store.lookup("g", &vec![x, y]).unwrap(), None);
}

#[test]
fn add_refuses_a_child_that_is_no_class() {
    let mut store = Store::new();
    let x = leaf(&mut store, "x");
    assert!(matches!(store.add("f", &vec![x, 7]), Err(EggvizRuntimeError::InternalError(_))));
    assert_eq!(store.len(), 1);
    assert!(matches!(store.lookup("f", &vec![7]), Err(EggvizRuntimeError::InternalError(_))));
    assert!(store.holds_all(&vec![x, x]));
    assert!(!store.holds_all(&vec![x, 1]));
}

#[test]
fn add_expr_interns_equal_subexpressions_once() {
    let mut store = Store::new();
    // (f (g x) (g x))
    let expr = vec![node("x", &[]), node("g", &[0]), node("x", &[]), node("g", &[2]), node("f", &[1, 3])];
    let root = store.add_expr(&expr).unwrap();
    assert_eq!(store.len(), 3);
    assert_eq!(store.number_of_classes(), 3);
    assert_eq!(store.add_expr(&expr).unwrap(), root);
    assert_eq!(store.len(), 3);
    let x = store.lookup("x", &vec![]).unwrap().unwrap();
    let g = store.lookup("g", &vec![x]).unwrap().unwrap();
    assert_eq!(store.lookup("f", &vec![g, g]).unwrap(), Some(root));
}

#[test]
fn add_expr_refuses_what_is_no_expression() {
    let mut store = Store::new();
    assert!(matches!(store.add_expr(&vec![]), Err(EggvizRuntimeError::InternalError(_))));
    assert!(matches!(store.add_expr(&vec![node("f", &[0])]), Err(EggvizRuntimeError::InternalError(_))));
    assert!(matches!(
        store.add_expr(&vec![node("x", &[]), node("f", &[0, 2]), node("y", &[])]),
        Err(EggvizRuntimeError::InternalError(_))
    ));
}

#[test]
fn union_joins_classes() {
    let mut store = Store::new();
    let a = leaf(&mut store, "a");
    let b = leaf(&mut store, "b");
    let c = leaf(&mut store, "c");
    let d = leaf(&mut store, "d");
    let ab = store.union(a, b).unwrap();
    assert!(ab == a || ab == b);
    assert_eq!(store.find(a).unwrap(), ab);
    assert_eq!(store.find(b).unwrap(), ab);
    assert!(!store.is_clean());
    let abc = store.union(b, c).unwrap();
    assert_eq!(store.find(a).unwrap(), abc);
    assert_eq!(store.find(b).unwrap(), abc);
    assert_eq!(store.find(c).unwrap(), abc);
    assert_eq!(store.find(d).unwrap(), d);
    assert_eq!(store.number_of_classes(), 2);
    assert_eq!(store.total_number_of_nodes(), 4);
    // a union of what is one class already changes nothing
    assert_eq!(store.union(c, a).unwrap(), abc);
    assert_eq!(store.number_of_classes(), 2);
}

#[test]
fn union_is_commutative() {
    let mut one = Store::new();
    let mut two = Store::new();
    let (a1, b1) = (leaf(&mut one, "a"), leaf(&mut one, "b"));
    let (a2, b2) = (leaf(&mut two, "a"), leaf(&mut two, "b"));
    one.union(a1, b1).unwrap();
    two.union(b2, a2).unwrap();
    assert_eq!(one.find(a1).unwrap(), one.find(b1).unwrap());
    assert_eq!(two.find(a2).unwrap(), two.find(b2).unwrap());
    assert_eq!(one.number_of_classes(), two.number_of_classes());
}

#[test]
fn union_and_find_refuse_what_is_no_class() {
    let mut store = Store::new();
    let a = leaf(&mut store, "a");
    assert!(matches!(store.union(a, 5), Err(EggvizRuntimeError::InternalError(_))));
    assert!(matches!(store.union(5, a), Err(EggvizRuntimeError::InternalError(_))));
    assert!(matches!(store.find(1), Err(EggvizRuntimeError::InternalError(_))));
    assert_eq!(store.find(a).unwrap(), a);
    assert_eq!(store.number_of_classes(), 1);
}

#[test]
fn rebuild_closes_congruence() {
    let mut store = Store::new();
    let a = leaf(&mut store, "a");
    let b = leaf(&mut store, "b");
    let fa = store.add("f", &vec![a]).unwrap();
    let fb = store.add("f", &vec![b]).unwrap();
    let gfa = store.add("g", &vec![fa]).unwrap();
    let gfb = store.add("g", &vec![fb]).unwrap();
    assert_ne!(store.find(fa).unwrap(), store.find(fb).unwrap());
    store.union(a, b).unwrap();
    store.rebuild();
    assert!(store.is_clean());
    assert_eq!(store.find(fa).unwrap(), store.find(fb).unwrap());
    assert_eq!(store.find(gfa).unwrap(), store.find(gfb).unwrap());
    assert_eq!(store.number_of_classes(), 3);
    assert_eq!(store.total_number_of_nodes(), 4);
    assert_eq!(store.len(), 6);
    // every node is found again in its class
    assert_eq!(store.lookup("f", &vec![b]).unwrap(), Some(store.find(fa).unwrap()));
    assert_eq!(store.lookup("g", &vec![fb]).unwrap(), Some(store.find(gfa).unwrap()));
}

#[test]
fn classes_lists_every_class_once() {
    let mut store = Store::new();
    let a = leaf(&mut store, "a");
    let b = leaf(&mut store, "b");
    let fa = store.add("f", &vec![a]).unwrap();
    store.union(a, b).unwrap();
    store.rebuild();
    let mut classes = store.classes();
    classes.sort_by_key(|c| c.0);
    assert_eq!(classes.len(), 2);
    let ab = store.find(a).unwrap();
    let leaves = classes.iter().find(|c| c.0 == ab).unwrap();
    let mut names: Vec<&str> = leaves.1.iter().map(|n| n.function.as_str()).collect();
    names.sort();
    assert_eq!(names, vec!["a", "b"]);
    let f = classes.iter().find(|c| c.0 == store.find(fa).unwrap()).unwrap();
    assert_eq!(f.1.len(), 1);
    assert_eq!(f.1[0].function, "f");
    assert_eq!(f.1[0].children, vec![ab]);
    assert!(!store.dump().is_empty());
}

#[test]
fn search_finds_the_matches_of_a_pattern() {
    let mut store = Store::new();
    let x = leaf(&mut store, "x");
    let y = leaf(&mut store, "y");
    let xy = store.add("add", &vec![x, y]).unwrap();
    let top = store.add("add", &vec![xy, x]).unwrap();
    assert!(matches!(store.search("(add ?a ?b)"), Err(EggvizRuntimeError::InternalError(_))));
    store.rebuild();
    let mut found = store.search("(add ?a ?b)").unwrap();
    found.sort_by_key(|m| m.eclass);
    assert_eq!(found.len(), 2);
    assert_eq!(found[0].eclass, xy);
    assert_eq!(found[0].substs, vec![vec![x, y]]);
    assert_eq!(found[1].eclass, top);
    assert_eq!(found[1].substs, vec![vec![xy, x]]);
    assert!(store.search("(add ?a ?a)").unwrap().is_empty());
    assert!(store.search("(mul ?a ?b)").unwrap().is_empty());
    assert_eq!(store.search("?a").unwrap().len(), 4);
    assert!(matches!(store.search("(add ?a"), Err(EggvizRuntimeError::InternalError(_))));
}

#[test]
fn apply_adds_the_right_side_and_unites() {
    let mut store = Store::new();
    let x = leaf(&mut store, "x");
    let y = leaf(&mut store, "y");
    let xy = store.add("add", &vec![x, y]).unwrap();
    store.rebuild();
    store.apply("comm", "(add ?a ?b)", "(add ?b ?a)", xy, &vec![x, y]).unwrap();
    assert_eq!(store.len(), 4);
    assert_eq!(store.total_number_of_nodes(), 4);
    assert_eq!(store.number_of_classes(), 3);
    store.rebuild();
    let yx = store.lookup("add", &vec![y, x]).unwrap().unwrap();
    assert_eq!(yx, store.find(xy).unwrap());
    // applied again, nothing changes
    store.apply("comm", "(add ?a ?b)", "(add ?b ?a)", xy, &vec![x, y]).unwrap();
    assert_eq!(store.len(), 4);
    assert_eq!(store.number_of_classes(), 3);
}

#[test]
fn apply_refuses_what_does_not_fit() {
    let mut store = Store::new();
    let x = leaf(&mut store, "x");
    let fx = store.add("f", &vec![x]).unwrap();
    store.rebuild();
    let refused = |r: Result<(), EggvizRuntimeError>| matches!(r, Err(EggvizRuntimeError::InternalError(_)));
    assert!(refused(store.apply("r", "(f ?a", "?a", fx, &vec![x])));
    assert!(refused(store.apply("r", "(f ?a)", "(g ?a", fx, &vec![x])));
    assert!(refused(store.apply("r", "(f ?a)", "(g ?b)", fx, &vec![x])));
    assert!(refused(store.apply("r", "(f ?a)", "?a", 9, &vec![x])));
    assert!(refused(store.apply("r", "(f ?a)", "?a", fx, &vec![])));
    assert!(refused(store.apply("r", "(f ?a)", "?a", fx, &vec![x, x])));
    assert!(refused(store.apply("r", "(f ?a)", "?a", fx, &vec![9])));
    assert_eq!(store.len(), 2);
    assert_eq!(store.number_of_classes(), 2);
    assert!(store.is_clean());
}

#[test]
fn extract_gives_a_smallest_term() {
    let mut store = Store::new();
    let x = leaf(&mut store, "x");
    let zero = leaf(&mut store, "zero");
    let sum = store.add("add", &vec![x, zero]).unwrap();
    let top = store.add("f", &vec![sum, sum]).unwrap();
    store.rebuild();
    let (cost, expr) = store.extract(top).unwrap();
    assert_eq!(cost, 7);
    assert_eq!(expr_string(&expr, expr.len() - 1), "(f (add x zero) (add x zero))");
    let (cost, expr) = store.best(x).unwrap();
    assert_eq!(cost, 1);
    assert_eq!(expr_string(&expr, expr.len() - 1), "x");
    assert!(matches!(store.extract(17), Err(EggvizRuntimeError::InternalError(_))));
    assert!(matches!(store.best(17), Err(EggvizRuntimeError::InternalError(_))));
}

#[test]
fn extract_refuses_a_class_that_contains_itself() {
    let mut store = Store::new();
    let x = leaf(&mut store, "x");
    let zero = leaf(&mut store, "zero");
    let sum = store.add("add", &vec![x, zero]).unwrap();
    let top = store.add("f", &vec![sum]).unwrap();
    store.union(sum, x).unwrap();
    store.rebuild();
    assert!(matches!(store.extract(sum), Err(EggvizRuntimeError::ExtractionCycle(c)) if c == sum));
    assert!(matches!(store.extract(top), Err(EggvizRuntimeError::ExtractionCycle(c)) if c == top));
    assert!(matches!(store.extract(x), Err(EggvizRuntimeError::ExtractionCycle(c)) if c == x));
    // the class of zero reaches no class that reaches itself
    let (cost, expr) = store.extract(zero).unwrap();
    assert_eq!(cost, 1);
    assert_eq!(expr_string(&expr, 0), "zero");
    // the smallest term is still there for who asks without the check
    let (cost, expr) = store.best(top).unwrap();
    assert_eq!(cost, 2);
    assert_eq!(expr_string(&expr, expr.len() - 1), "(f x)");
}

#[test]
fn expressions_print_as_terms() {
    let expr = vec![node("x", &[]), node("g", &[0]), node("f", &[1, 0, 1])];
    assert_eq!(expr_string(&expr, 0), "x");
    assert_eq!(expr_string(&expr, 1), "(g x)");
    assert_eq!(expr_string(&expr, 2), "(f (g x) x (g x))");
    assert_eq!(expr_string(&expr, 3), "");
}

#[test]
fn place_maps_children_to_classes() {
    assert_eq!(place(&vec![1, 0, 1], &vec![10, 11]), Some(vec![11, 10, 11]));
    assert_eq!(place(&vec![], &vec![]), Some(vec![]));
    assert_eq!(place(&vec![0, 2], &vec![10, 11]), None);
}

#[test]
fn all_within_compares_lists_of_texts() {
    let v = |l: &[&str]| l.iter().map(|s| s.to_string()).collect::<Vec<_>>();
    assert!(all_within(&v(&[]), &v(&[])));
    assert!(all_within(&v(&["?a"]), &v(&["?b", "?a"])));
    assert!(all_within(&v(&["?a", "?a"]), &v(&["?a"])));
    assert!(!all_within(&v(&["?a", "?c"]), &v(&["?b", "?a"])));
    assert!(!all_within(&v(&["?a"]), &v(&[])));
}

#[test]
fn a_rebuilt_store_lists_each_node_once_with_representatives_for_children() {
    let mut store = Store::new();
    let a = store.add("a", &vec![]).unwrap();
    let b = store.add("b", &vec![]).unwrap();
    let fa = store.add("f", &vec![a]).unwrap();
    let fb = store.add("f", &vec![b]).unwrap();
    store.add("g", &vec![fa, fb]).unwrap();
    store.union(a, b).unwrap();
    store.rebuild();
    assert!(store.is_clean());
    let classes = store.classes();
    assert_eq!(classes.len(), 3);
    for (id, nodes) in classes.iter() {
        assert_eq!(store.find(*id).unwrap(), *id);
        for (i, node) in nodes.iter().enumerate() {
            for child in node.children.iter() {
                assert_eq!(store.find(*child).unwrap(), *child);
            }
            for other in nodes.iter().skip(i + 1) {
                assert!(node.function != other.function || node.children != other.children);
            }
        }
    }
    let k = store.find(fa).unwrap();
    assert_eq!(store.find(fb).unwrap(), k);
    let fs = &classes.iter().find(|c| c.0 == k).unwrap().1;
    assert_eq!(fs.len(), 1);
    assert_eq!(store.total_number_of_nodes(), 4);
}
