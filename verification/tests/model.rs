use eggviz::store::{Language, Store};
use std::collections::BTreeSet;

/// A small generator of numbers, the same on every run.
struct Lcg(u64);

impl Lcg {
    fn next(&mut self, bound: usize) -> usize {
        self.0 = self.0.wrapping_mul(6364136223846793005).wrapping_add(1442695040888963407);
        ((self.0 >> 33) as usize) % bound
    }
}

/// The nodes as they were added, by id, kept beside the store.
struct Table {
    nodes: Vec<(String, Vec<usize>)>,
}

fn leaders(store: &Store) -> Vec<usize> {
    (0..store.len()).map(|i| store.find(i).unwrap()).collect()
}

fn canonical(store: &Store, node: &(String, Vec<usize>)) -> (String, Vec<usize>) {
    (node.0.clone(), node.1.iter().map(|c| store.find(*c).unwrap()).collect())
}

fn add(store: &mut Store, table: &mut Table, label: &str, children: Vec<usize>) -> usize {
    let before = store.len();
    let counted = store.total_number_of_nodes();
    let known = store.lookup(label, &children).unwrap();
    let id = store.add(label, &children).unwrap();
    match known {
        Some(c) => {
            assert_eq!(id, c);
            assert_eq!(store.len(), before);
            assert_eq!(store.total_number_of_nodes(), counted);
        }
        None => {
            assert_eq!(id, before);
            assert_eq!(store.len(), before + 1);
            assert_eq!(store.total_number_of_nodes(), counted + 1);
            assert_eq!(store.find(id).unwrap(), id);
            assert!(!store.is_clean());
            table.nodes.push((label.to_string(), children.clone()));
        }
    }
    assert_eq!(store.lookup(label, &children).unwrap(), Some(id));
    assert_eq!(store.add(label, &children).unwrap(), id);
    id
}

fn check_counts(store: &Store) {
    let distinct: BTreeSet<usize> = leaders(store).into_iter().collect();
    assert_eq!(store.number_of_classes(), distinct.len());
    for l in &distinct {
        assert_eq!(store.find(*l).unwrap(), *l);
    }
}

fn check_snapshot(store: &Store, table: &Table) {
    let classes = store.classes();
    let distinct: BTreeSet<usize> = leaders(store).into_iter().collect();
    let listed: BTreeSet<usize> = classes.iter().map(|c| c.0).collect();
    assert_eq!(listed.len(), classes.len());
    assert_eq!(listed, distinct);
    for (id, nodes) in &classes {
        for n in nodes {
            assert!(n.children.iter().all(|c| *c < store.len()));
            let shape = canonical(store, &(n.function.clone(), n.children.clone()));
            assert!(table
                .nodes
                .iter()
                .enumerate()
                .any(|(i, m)| store.find(i).unwrap() == *id && canonical(store, m) == shape));
        }
    }
    for (i, m) in table.nodes.iter().enumerate() {
        let class = classes.iter().find(|c| c.0 == store.find(i).unwrap()).unwrap();
        let shape = canonical(store, m);
        assert!(class
            .1
            .iter()
            .any(|n| canonical(store, &(n.function.clone(), n.children.clone())) == shape));
    }
}

fn check_rebuilt(store: &Store, table: &Table) {
    assert!(store.is_clean());
    for (i, a) in table.nodes.iter().enumerate() {
        // every node is found in its class, also with other members of the classes of its children
        assert_eq!(store.lookup(&a.0, &a.1).unwrap(), Some(store.find(i).unwrap()));
        let canon = canonical(store, a);
        assert_eq!(store.lookup(&canon.0, &canon.1).unwrap(), Some(store.find(i).unwrap()));
        for (j, b) in table.nodes.iter().enumerate() {
            if canonical(store, b) == canon {
                assert_eq!(store.find(i).unwrap(), store.find(j).unwrap());
            }
        }
    }
    let classes = store.classes();
    let held: usize = classes.iter().map(|c| c.1.len()).sum();
    assert_eq!(store.total_number_of_nodes(), held);
    let shapes: BTreeSet<(String, Vec<usize>)> =
        table.nodes.iter().map(|n| canonical(store, n)).collect();
    assert_eq!(held, shapes.len());
}

/// The least classes that unite what `start` unites and hold congruent nodes
/// together, by hand.
fn closure(table: &Table, start: &[usize]) -> Vec<usize> {
    let mut class: Vec<usize> = start.to_vec();
    loop {
        let mut merged = false;
        for i in 0..table.nodes.len() {
            for j in 0..i {
                let shape = |n: &(String, Vec<usize>)| {
                    (n.0.clone(), n.1.iter().map(|c| class[*c]).collect::<Vec<_>>())
                };
                if class[i] != class[j] && shape(&table.nodes[i]) == shape(&table.nodes[j]) {
                    let (keep, drop) = (class[j], class[i]);
                    for c in class.iter_mut() {
                        if *c == drop {
                            *c = keep;
                        }
                    }
                    merged = true;
                }
            }
        }
        if !merged {
            return class;
        }
    }
}

fn matches_by_hand(store: &Store, table: &Table) -> BTreeSet<(usize, Vec<usize>)> {
    // the pattern (f ?a (g ?b)) by hand
    let mut out = BTreeSet::new();
    for (i, n) in table.nodes.iter().enumerate() {
        if n.0 == "f" && n.1.len() == 2 {
            let inner = store.find(n.1[1]).unwrap();
            for (j, m) in table.nodes.iter().enumerate() {
                if m.0 == "g" && m.1.len() == 1 && store.find(j).unwrap() == inner {
                    out.insert((
                        store.find(i).unwrap(),
                        vec![store.find(n.1[0]).unwrap(), store.find(m.1[0]).unwrap()],
                    ));
                }
            }
        }
    }
    out
}

#[test]
fn the_store_behaves_as_its_table_says() {
    let labels2 = ["f", "h"];
    let labels1 = ["g", "k"];
    let leaves = ["a", "b", "c", "d"];
    for seed in 0..40u64 {
        let mut rng = Lcg(seed * 7919 + 1);
        let mut store = Store::new();
        let mut table = Table { nodes: Vec::new() };
        for leaf in leaves {
            add(&mut store, &mut table, leaf, vec![]);
        }
        for _ in 0..60 {
            match rng.next(6) {
                0 | 1 => {
                    let l = labels2[rng.next(2)];
                    let (x, y) = (rng.next(store.len()), rng.next(store.len()));
                    add(&mut store, &mut table, l, vec![x, y]);
                }
                2 => {
                    let l = labels1[rng.next(2)];
                    let x = rng.next(store.len());
                    add(&mut store, &mut table, l, vec![x]);
                }
                3 => {
                    let (x, y) = (rng.next(store.len()), rng.next(store.len()));
                    let before = leaders(&store);
                    let counted = store.total_number_of_nodes();
                    let parents = |c: usize| -> usize {
                        table
                            .nodes
                            .iter()
                            .map(|n| n.1.iter().filter(|k| before[**k] == c).count())
                            .sum()
                    };
                    let kept = if parents(before[x]) < parents(before[y]) {
                        before[y]
                    } else {
                        before[x]
                    };
                    let r = store.union(x, y).unwrap();
                    let after = leaders(&store);
                    assert_eq!(after[x], r);
                    assert_eq!(after[y], r);
                    assert_eq!(r, kept);
                    for i in 0..before.len() {
                        if before[i] == before[x] || before[i] == before[y] {
                            assert_eq!(after[i], r);
                        } else {
                            assert_eq!(after[i], before[i]);
                        }
                    }
                    assert_eq!(store.total_number_of_nodes(), counted);
                    assert!(!store.is_clean());
                }
                4 => {
                    let before = leaders(&store);
                    let len = store.len();
                    store.rebuild();
                    let after = leaders(&store);
                    assert_eq!(store.len(), len);
                    let closed = closure(&table, &before);
                    for i in 0..len {
                        for j in 0..len {
                            assert_eq!(after[i] == after[j], closed[i] == closed[j]);
                        }
                    }
                    check_rebuilt(&store, &table);
                    let found: BTreeSet<(usize, Vec<usize>)> = store
                        .search("(f ?a (g ?b))")
                        .unwrap()
                        .into_iter()
                        .flat_map(|m| {
                            assert!(!m.substs.is_empty());
                            let class = m.eclass;
                            m.substs.into_iter().map(move |s| (class, s))
                        })
                        .collect();
                    assert_eq!(found, matches_by_hand(&store, &table));
                }
                _ => {
                    store.rebuild();
                    let found = store.search("(f ?a (g ?b))").unwrap();
                    for m in &found {
                        for s in &m.substs {
                            let len = store.len();
                            let counted = store.total_number_of_nodes();
                            let before = leaders(&store);
                            let there = store
                                .lookup("h", &vec![s[1], s[0]])
                                .unwrap();
                            store.apply("r", "(f ?a (g ?b))", "(h ?b ?a)", m.eclass, s).unwrap();
                            let after = leaders(&store);
                            assert_eq!(store.total_number_of_nodes() - counted, store.len() - len);
                            assert!(store.len() <= len + 1);
                            for i in 0..len {
                                for j in 0..len {
                                    if before[i] == before[j] {
                                        assert_eq!(after[i], after[j]);
                                    }
                                }
                            }
                            match there {
                                Some(id) => {
                                    assert_eq!(store.len(), len);
                                    assert_eq!(after[id], after[m.eclass]);
                                }
                                None => {
                                    assert_eq!(store.len(), len + 1);
                                    table.nodes.push(("h".to_string(), vec![s[1], s[0]]));
                                    assert_eq!(after[len], after[m.eclass]);
                                }
                            }
                        }
                    }
                }
            }
            check_counts(&store);
            check_snapshot(&store, &table);
        }
        store.rebuild();
        check_rebuilt(&store, &table);
        check_snapshot(&store, &table);
    }
}

#[test]
fn extraction_is_smallest_among_the_terms_of_a_class() {
    // f(a) = b, g(b) = c: the class of g(f(a)) holds g(b) and c
    let mut store = Store::new();
    let a = store.add("a", &vec![]).unwrap();
    let b = store.add("b", &vec![]).unwrap();
    let c = store.add("c", &vec![]).unwrap();
    let fa = store.add("f", &vec![a]).unwrap();
    let gfa = store.add("g", &vec![fa]).unwrap();
    let top = store.add("h", &vec![gfa, fa]).unwrap();
    store.rebuild();
    assert_eq!(store.extract(top).unwrap().0, 6);
    store.union(fa, b).unwrap();
    store.rebuild();
    let (cost, expr) = store.extract(top).unwrap();
    assert_eq!(cost, 4);
    assert_eq!(eggviz::store::expr_string(&expr, expr.len() - 1), "(h (g b) b)");
    store.union(gfa, c).unwrap();
    store.rebuild();
    let (cost, expr) = store.extract(top).unwrap();
    assert_eq!(cost, 3);
    assert_eq!(eggviz::store::expr_string(&expr, expr.len() - 1), "(h c b)");
    let last: &Language = expr.last().unwrap();
    assert_eq!(last.function, "h");
    assert!(last.children.iter().all(|i| *i < expr.len() - 1));
}
