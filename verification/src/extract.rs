//! Extraction of a smallest term from a class. A class that reaches itself
//! through its nodes is refused.

use crate::egraph::{canonical, class_holds, graph_wf, ids_below, is_snapshot, lists, node_view,
    nodes_view};
use crate::error::{EggvizRuntimeError, RuntimeErrorView};
use crate::store::{Language, Store};
use vstd::prelude::*;

verus! {

/// Whether `rank` orders the classes that it ranks: each class that holds a
/// node with a child in a class has a higher rank than that class, which is
/// ranked too.
pub open spec fn ranks(nodes: Seq<(Seq<char>, Seq<nat>)>, leader: Seq<nat>, rank: Map<nat, nat>) -> bool {
    forall|i: int, m: int|
        0 <= i < nodes.len() && 0 <= m < nodes[i].1.len() && rank.dom().contains(leader[i])
            ==> rank.dom().contains(leader[(#[trigger] nodes[i].1[m]) as int]) && rank[leader[nodes[i].1[m] as int]]
            < rank[leader[i]]
}

/// Whether the class led by `c` reaches no class that reaches itself: the
/// classes that it reaches can be ranked.
pub open spec fn acyclic(nodes: Seq<(Seq<char>, Seq<nat>)>, leader: Seq<nat>, c: nat) -> bool {
    exists|rank: Map<nat, nat>| #[trigger] ranks(nodes, leader, rank) && rank.dom().contains(c)
}

/// Whether a class of the store that is not marked holds a node with a child
/// in a class that is not marked.
pub open spec fn stuck(nodes: Seq<(Seq<char>, Seq<nat>)>, leader: Seq<nat>, marked: Seq<bool>) -> bool {
    forall|c: int|
        0 <= c < leader.len() && leader[c] == c && !#[trigger] marked[c] ==> exists|i: int, m: int|
            0 <= i < nodes.len() && leader[i] == c && 0 <= m < nodes[i].1.len() && !marked[leader[(
            #[trigger] nodes[i].1[m]) as int] as int]
}

/// Where the classes that are not marked are stuck, every class that a
/// ranking ranks is marked.
pub proof fn stuck_is_unranked(
    nodes: Seq<(Seq<char>, Seq<nat>)>,
    leader: Seq<nat>,
    marked: Seq<bool>,
    rank: Map<nat, nat>,
    u: nat,
)
    requires
        graph_wf(nodes, leader),
        marked.len() == leader.len(),
        stuck(nodes, leader, marked),
        ranks(nodes, leader, rank),
        rank.dom().contains(u),
        u < leader.len(),
        leader[u as int] == u,
    ensures
        marked[u as int],
    decreases rank[u], 1nat,
{
    if !marked[u as int] {
        stuck_step(nodes, leader, marked, rank, u);
    }
}

/// The step of the induction: a ranked class that is not marked has a
/// ranked child class of lower rank that is not marked either.
proof fn stuck_step(
    nodes: Seq<(Seq<char>, Seq<nat>)>,
    leader: Seq<nat>,
    marked: Seq<bool>,
    rank: Map<nat, nat>,
    u: nat,
)
    requires
        graph_wf(nodes, leader),
        marked.len() == leader.len(),
        stuck(nodes, leader, marked),
        ranks(nodes, leader, rank),
        rank.dom().contains(u),
        u < leader.len(),
        leader[u as int] == u,
        !marked[u as int],
    ensures
        marked[u as int],
    decreases rank[u], 0nat,
{
    let (i, m) = choose|i: int, m: int|
        0 <= i < nodes.len() && leader[i] == u && 0 <= m < nodes[i].1.len() && !marked[leader[(
        #[trigger] nodes[i].1[m]) as int] as int];
    let child = nodes[i].1[m];
    let d = leader[child as int];
    stuck_is_unranked(nodes, leader, marked, rank, d);
}

impl Store {
    /// Whether every child of every node of the list lies in a marked class.
    fn ready(&self, nodes: &Vec<Language>, marked: &Vec<bool>) -> (b: bool)
        requires
            marked@.len() == self@.nodes.len(),
            forall|j: int|
                0 <= j < nodes@.len() ==> ids_below(
                    node_view(#[trigger] nodes@[j]).1,
                    self@.nodes.len(),
                ),
        ensures
            b == forall|j: int, m: int|
                0 <= j < nodes@.len() && 0 <= m < nodes@[j].children@.len() ==> marked@[self@.leader[(
                #[trigger] nodes@[j].children@[m]) as int] as int],
    {
        let n = self.len();
        let mut j: usize = 0;
        while j < nodes.len()
            invariant
                j <= nodes.len(),
                n == self@.nodes.len(),
                marked@.len() == n,
                graph_wf(self@.nodes, self@.leader),
                forall|j: int|
                    0 <= j < nodes@.len() ==> ids_below(
                        node_view(#[trigger] nodes@[j]).1,
                        self@.nodes.len(),
                    ),
                forall|a: int, m: int|
                    0 <= a < j && 0 <= m < nodes@[a].children@.len() ==> marked@[self@.leader[(
                    #[trigger] nodes@[a].children@[m]) as int] as int],
            decreases nodes.len() - j,
        {
            let mut m: usize = 0;
            while m < nodes[j].children.len()
                invariant
                    j < nodes.len(),
                    m <= nodes[j as int].children.len(),
                    n == self@.nodes.len(),
                    marked@.len() == n,
                    graph_wf(self@.nodes, self@.leader),
                    ids_below(node_view(nodes@[j as int]).1, self@.nodes.len()),
                    forall|b: int|
                        0 <= b < m ==> marked@[self@.leader[(
                        #[trigger] nodes@[j as int].children@[b]) as int] as int],
                decreases nodes[j as int].children.len() - m,
            {
                let child = nodes[j].children[m];
                assert(node_view(nodes@[j as int]).1[m as int] == child);
                match self.find(child) {
                    Ok(d) => {
                        if !marked[d] {
                            return false;
                        }
                    },
                    Err(_) => {
                        return false;
                    },
                }
                m += 1;
            }
            j += 1;
        }
        true
    }

    /// A smallest term of the class, as an expression, and its cost: the
    /// number of operations in it. A class that reaches a class that reaches
    /// itself through its nodes is refused. An internal error where the
    /// store holds no such class.
    pub fn extract(&self, class: usize) -> (r: Result<(usize, Vec<Language>), EggvizRuntimeError>)
        ensures
            !self.has(class as nat) ==> r is Err && r->Err_0@ is InternalError,
            self.has(class as nat) ==> match r {
                Ok((cost, expr)) => {
                    &&& acyclic(self@.nodes, self@.leader, self@.leader[class as int])
                    &&& self.is_best(class as nat, cost as nat, nodes_view(expr@))
                },
                Err(e) => {
                    &&& e@ == RuntimeErrorView::ExtractionCycle(class as nat)
                    &&& !acyclic(self@.nodes, self@.leader, self@.leader[class as int])
                },
            },
    {
        let n = self.len();
        let root = match self.find(class) {
            Ok(root) => root,
            Err(e) => {
                return Err(e);
            },
        };
        let classes = self.classes();
        let mut marked: Vec<bool> = Vec::new();
        let mut i: usize = 0;
        while i < n
            invariant
                i <= n,
                marked@.len() == i,
                forall|k: int| 0 <= k < i ==> !#[trigger] marked@[k],
            decreases n - i,
        {
            marked.push(false);
            i += 1;
        }
        let ghost nodes = self@.nodes;
        let ghost leader = self@.leader;
        let ghost mut rank: Map<nat, nat> = Map::empty();
        let ghost mut tick: nat = 0;
        let mut marks: usize = 0;
        let mut progress = true;
        while progress
            invariant
                n == nodes.len(),
                nodes == self@.nodes,
                leader == self@.leader,
                graph_wf(nodes, leader),
                is_snapshot(classes@, nodes, leader),
                marked@.len() == n,
                marks <= n,
                marks == rank.dom().len(),
                rank.dom().finite(),
                forall|c: nat| rank.dom().contains(c) <==> c < n && marked@[c as int],
                forall|c: nat| rank.dom().contains(c) ==> #[trigger] rank[c] < tick,
                ranks(nodes, leader, rank),
                !progress ==> stuck(nodes, leader, marked@),
            decreases n - marks, if progress { 1nat } else { 0nat },
        {
            progress = false;
            let ghost start_marks = marks;
            let mut k: usize = 0;
            while k < classes.len()
                invariant
                    k <= classes.len(),
                    n == nodes.len(),
                    nodes == self@.nodes,
                    leader == self@.leader,
                    graph_wf(nodes, leader),
                    is_snapshot(classes@, nodes, leader),
                    marked@.len() == n,
                    marks <= n,
                    marks == rank.dom().len(),
                    rank.dom().finite(),
                    forall|c: nat| rank.dom().contains(c) <==> c < n && marked@[c as int],
                    forall|c: nat| rank.dom().contains(c) ==> #[trigger] rank[c] < tick,
                    ranks(nodes, leader, rank),
                    !progress ==> forall|a: int|
                        0 <= a < k && !marked@[(#[trigger] classes@[a]).0 as int] ==> exists|
                            j: int,
                            m: int,
                        |
                            0 <= j < classes@[a].1@.len() && 0 <= m < classes@[a].1@[j].children@.len()
                                && !marked@[leader[(
                            #[trigger] classes@[a].1@[j].children@[m]) as int] as int],
                    progress ==> marks > start_marks,
                    !progress ==> marks == start_marks,
                decreases classes.len() - k,
            {
                proof {
                    snapshot_entry(nodes, leader, classes@, k as int);
                }
                let c = classes[k].0;
                if !marked[c] {
                    if self.ready(&classes[k].1, &marked) {
                        proof {
                            mark_ranks(nodes, leader, classes@, marked@, rank, tick, k as int);
                            rank_room(rank, n as nat, c as nat);
                            rank = rank.insert(c as nat, tick);
                            tick = tick + 1;
                        }
                        marked.set(c, true);
                        marks = marks + 1;
                        progress = true;
                    }
                }
                k += 1;
            }
            proof {
                if !progress {
                    snapshot_stuck(nodes, leader, classes@, marked@);
                }
            }
        }
        if marked[root] {
            self.best(class)
        } else {
            proof {
                if acyclic(nodes, leader, root as nat) {
                    let other = choose|other: Map<nat, nat>| #[trigger]
                        ranks(nodes, leader, other) && other.dom().contains(root as nat);
                    stuck_is_unranked(nodes, leader, marked@, other, root as nat);
                }
            }
            Err(EggvizRuntimeError::ExtractionCycle(class))
        }
    }
}

/// A ranking of marked classes below `n` that misses the class `c` ranks
/// fewer than `n` classes.
pub proof fn rank_room(rank: Map<nat, nat>, n: nat, c: nat)
    requires
        rank.dom().finite(),
        forall|d: nat| rank.dom().contains(d) ==> d < n,
        c < n,
        !rank.dom().contains(c),
    ensures
        rank.dom().len() < n,
{
    let all = Set::new(|d: nat| d < n);
    nat_range_len(n);
    let with_c = rank.dom().insert(c);
    vstd::set_lib::lemma_len_subset(with_c, all);
}

/// The set of the numbers below `n`.
pub open spec fn set_int_range_nat(n: nat) -> Set<nat> {
    Set::new(|d: nat| d < n)
}

/// There are `n` numbers below `n`.
pub proof fn nat_range_len(n: nat)
    ensures
        set_int_range_nat(n).finite(),
        set_int_range_nat(n).len() == n,
    decreases n,
{
    if n == 0 {
        assert(set_int_range_nat(n) =~= Set::<nat>::empty());
    } else {
        nat_range_len((n - 1) as nat);
        assert(set_int_range_nat(n) =~= set_int_range_nat((n - 1) as nat).insert((n - 1) as nat));
    }
}

/// An entry of a snapshot names a class of the store, and the children of
/// its nodes are classes of the store.
pub proof fn snapshot_entry(
    nodes: Seq<(Seq<char>, Seq<nat>)>,
    leader: Seq<nat>,
    classes: Seq<(usize, Vec<Language>)>,
    k: int,
)
    requires
        is_snapshot(classes, nodes, leader),
        0 <= k < classes.len(),
    ensures
        classes[k].0 < leader.len(),
        forall|j: int|
            0 <= j < classes[k].1@.len() ==> ids_below(
                node_view(#[trigger] classes[k].1@[j]).1,
                leader.len(),
            ),
{
    reveal(is_snapshot);
}

/// Marking a class all of whose nodes have their children in marked classes,
/// with a rank above all ranks given so far, keeps the ranking a ranking.
pub proof fn mark_ranks(
    nodes: Seq<(Seq<char>, Seq<nat>)>,
    leader: Seq<nat>,
    classes: Seq<(usize, Vec<Language>)>,
    marked: Seq<bool>,
    rank: Map<nat, nat>,
    tick: nat,
    k: int,
)
    requires
        graph_wf(nodes, leader),
        is_snapshot(classes, nodes, leader),
        marked.len() == leader.len(),
        0 <= k < classes.len(),
        !marked[classes[k].0 as int],
        forall|c: nat| rank.dom().contains(c) <==> c < leader.len() && marked[c as int],
        forall|c: nat| rank.dom().contains(c) ==> #[trigger] rank[c] < tick,
        ranks(nodes, leader, rank),
        forall|j: int, m: int|
            0 <= j < classes[k].1@.len() && 0 <= m < classes[k].1@[j].children@.len()
                ==> marked[leader[(#[trigger] classes[k].1@[j].children@[m]) as int] as int],
    ensures
        ranks(nodes, leader, rank.insert(classes[k].0 as nat, tick)),
{
    let c = classes[k].0 as nat;
    let after = rank.insert(c, tick);
    assert forall|i: int, m: int|
        0 <= i < nodes.len() && 0 <= m < nodes[i].1.len() && after.dom().contains(
            leader[i],
        ) implies after.dom().contains(leader[(#[trigger] nodes[i].1[m]) as int]) && after[leader[nodes[i].1[m] as int]]
        < after[leader[i]] by {
        let child = nodes[i].1[m];
        let d = leader[child as int];
        reveal(is_snapshot);
        if leader[i] == c {
            reveal(lists);
            assert(lists(classes, leader, leader[i], nodes[i]));
            let (a, j) = choose|a: int, j: int|
                0 <= a < classes.len() && 0 <= j < classes[a].1@.len() && classes[a].0 == leader[i]
                    && canonical(leader, node_view(#[trigger] classes[a].1@[j])) == canonical(
                    leader,
                    #[trigger] nodes[i],
                );
            let snap = node_view(classes[k].1@[j]);
            assert(canonical(leader, snap).1.len() == snap.1.len());
            assert(canonical(leader, nodes[i]).1[m] == leader[nodes[i].1[m] as int]);
        }
    }
}

/// Where each class of the snapshot that is not marked holds a node with a
/// child in a class that is not marked, the classes of the store that are
/// not marked are stuck.
pub proof fn snapshot_stuck(
    nodes: Seq<(Seq<char>, Seq<nat>)>,
    leader: Seq<nat>,
    classes: Seq<(usize, Vec<Language>)>,
    marked: Seq<bool>,
)
    requires
        graph_wf(nodes, leader),
        is_snapshot(classes, nodes, leader),
        marked.len() == leader.len(),
        forall|a: int|
            0 <= a < classes.len() && !marked[(#[trigger] classes[a]).0 as int] ==> exists|
                j: int,
                m: int,
            |
                0 <= j < classes[a].1@.len() && 0 <= m < classes[a].1@[j].children@.len()
                    && !marked[leader[(#[trigger] classes[a].1@[j].children@[m]) as int] as int],
    ensures
        stuck(nodes, leader, marked),
{
    assert forall|c: int|
        0 <= c < leader.len() && leader[c] == c && !#[trigger] marked[c] implies exists|
        i: int,
        m: int,
    |
        0 <= i < nodes.len() && leader[i] == c && 0 <= m < nodes[i].1.len() && !marked[leader[(
        #[trigger] nodes[i].1[m]) as int] as int] by {
        reveal(is_snapshot);
        reveal(lists);
        reveal(class_holds);
        assert(lists(classes, leader, leader[c], nodes[c]));
        let (a, j0) = choose|a: int, j: int|
            0 <= a < classes.len() && 0 <= j < classes[a].1@.len() && classes[a].0 == leader[c]
                && canonical(leader, node_view(#[trigger] classes[a].1@[j])) == canonical(
                leader,
                #[trigger] nodes[c],
            );
        let (j, m) = choose|j: int, m: int|
            0 <= j < classes[a].1@.len() && 0 <= m < classes[a].1@[j].children@.len()
                && !marked[leader[(#[trigger] classes[a].1@[j].children@[m]) as int] as int];
        let snap = node_view(classes[a].1@[j]);
        let i = choose|i: int|
            0 <= i < nodes.len() && leader[i] == classes[a].0 as nat && canonical(
                leader,
                #[trigger] nodes[i],
            ) == canonical(leader, snap);
        assert(canonical(leader, nodes[i]).1.len() == nodes[i].1.len());
        assert(canonical(leader, nodes[i]).1[m] == leader[nodes[i].1[m] as int]);
    }
}

} // verus!
