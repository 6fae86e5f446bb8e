//! The execution order of any set of plan steps keyed by their identifiers:
//! steps may share children, a listed child may be missing, and the links
//! may close a cycle. A depth-first walk from the root lists each step it
//! reaches once, after all of its children, and reports a cycle or a
//! missing step when it meets one.

use vstd::prelude::*;
use crate::planner::children_first;
use crate::planner::ids_distinct;
use crate::planner::lemma_pos_of_distinct;
use crate::planner::listed_before;
use crate::planner::node_views;
use crate::planner::plan_wf;
use crate::planner::pos_of;
use crate::planner::NodeView;
use crate::planner::PlanNode;
use crate::planner::PlannerError;

verus! {

/// Step `c` is listed among the children of step `i`.
pub open spec fn link(ns: Seq<NodeView>, i: int, c: int) -> bool {
    0 <= i < ns.len() && 0 <= c < ns.len() && ns[i].children.contains(ns[c].id)
}

/// The `t`-th move of the walk `p` follows a child link.
pub open spec fn walk_link(ns: Seq<NodeView>, p: Seq<int>, t: int) -> bool {
    link(ns, p[t], p[t + 1])
}

/// `p` lists the positions of a walk along child links from the root.
pub open spec fn walk_from_root(ns: Seq<NodeView>, root: u128, p: Seq<int>) -> bool {
    &&& p.len() > 0
    &&& 0 <= p[0] < ns.len()
    &&& ns[p[0]].id == root
    &&& forall|t: int| 0 <= t < p.len() - 1 ==> #[trigger] walk_link(ns, p, t)
}

/// Step `j` can be reached from the root along child links.
pub open spec fn reachable(ns: Seq<NodeView>, root: u128, j: int) -> bool {
    exists|p: Seq<int>| #[trigger] walk_from_root(ns, root, p) && p.last() == j
}

/// `rank` falls along every child link between steps reached from the root.
pub open spec fn ranked_by(ns: Seq<NodeView>, root: u128, rank: spec_fn(int) -> int) -> bool {
    forall|j: int, c: int| #[trigger] reachable(ns, root, j) && #[trigger] link(ns, j, c) ==> rank(c) < rank(j)
}

/// The links among the steps reached from the root close no cycle: some
/// ranking falls along each of them.
pub open spec fn has_ranking(ns: Seq<NodeView>, root: u128) -> bool {
    exists|rank: spec_fn(int) -> int| #[trigger] ranked_by(ns, root, rank)
}

/// Every child listed by a step reached from the root is a step of the plan.
pub open spec fn children_present(ns: Seq<NodeView>, root: u128) -> bool {
    forall|j: int, k: int|
        reachable(ns, root, j) && 0 <= k < ns[j].children.len() ==> pos_of(ns, #[trigger] ns[j].children[k]) != -1
}

/// `c` is listed as a child by a step reached from the root, and no step
/// has that identifier.
pub open spec fn missing_child(ns: Seq<NodeView>, root: u128, c: u128) -> bool {
    &&& pos_of(ns, c) == -1
    &&& exists|j: int| 0 <= j < ns.len() && #[trigger] reachable(ns, root, j) && ns[j].children.contains(c)
}

/// How many of the first `n` steps are neither finished nor on the walk's
/// path.
pub open spec fn free_count(visited: Seq<bool>, on_path: Seq<bool>, n: int) -> nat
    decreases n,
{
    if n <= 0 {
        0
    } else {
        free_count(visited, on_path, n - 1) + if !visited[n - 1] && !on_path[n - 1] {
            1nat
        } else {
            0nat
        }
    }
}

/// What the walk keeps between steps: the order lists distinct steps, each
/// finished; each finished step is listed, reached from the root and off
/// the path, and all of its children are finished; every listed step comes
/// after its children.
pub open spec fn walk_state(
    ns: Seq<NodeView>,
    root: u128,
    visited: Seq<bool>,
    on_path: Seq<bool>,
    order: Seq<u128>,
) -> bool {
    &&& visited.len() == ns.len()
    &&& on_path.len() == ns.len()
    &&& order.no_duplicates()
    &&& forall|a: int| 0 <= a < order.len() ==> 0 <= #[trigger] pos_of(ns, order[a]) < ns.len() && visited[pos_of(ns, order[a])]
    &&& forall|s: int|
        0 <= s < ns.len() && #[trigger] visited[s] ==> order.contains(ns[s].id) && reachable(ns, root, s) && !on_path[s]
    &&& forall|s: int, k: int|
        #![trigger visited[s], ns[s].children[k]]
        0 <= s < ns.len() && visited[s] && 0 <= k < ns[s].children.len() ==> 0 <= pos_of(ns, ns[s].children[k]) < ns.len()
            && visited[pos_of(ns, ns[s].children[k])]
    &&& children_first(ns, order)
}

proof fn lemma_free_count(v1: Seq<bool>, s1: Seq<bool>, v2: Seq<bool>, s2: Seq<bool>, n: int, u: int)
    requires
        forall|t: int| 0 <= t < n ==> (!v2[t] && !s2[t]) ==> (!v1[t] && !s1[t]),
    ensures
        free_count(v2, s2, n) <= free_count(v1, s1, n),
        0 <= u < n && !v1[u] && !s1[u] && (v2[u] || s2[u]) ==> free_count(v2, s2, n) < free_count(v1, s1, n),
    decreases n,
{
    if n > 0 {
        lemma_free_count(v1, s1, v2, s2, n - 1, u);
    }
}

proof fn lemma_walk_push(ns: Seq<NodeView>, root: u128, p: Seq<int>, c: int)
    requires
        walk_from_root(ns, root, p),
        link(ns, p.last(), c),
    ensures
        walk_from_root(ns, root, p.push(c)),
        p.push(c).last() == c,
{
    let q = p.push(c);
    assert forall|t: int| 0 <= t < q.len() - 1 implies #[trigger] walk_link(ns, q, t) by {
        if t < p.len() - 1 {
            assert(walk_link(ns, p, t));
        }
    }
}

proof fn lemma_child_link(ns: Seq<NodeView>, i: int, k: int, c: int)
    requires
        ids_distinct(ns),
        0 <= i < ns.len(),
        0 <= k < ns[i].children.len(),
        0 <= c < ns.len(),
        ns[c].id == ns[i].children[k],
    ensures
        link(ns, i, c),
        pos_of(ns, ns[i].children[k]) == c,
{
    lemma_pos_of_distinct(ns, c);
}

/// Each step on a walk from the root is finished, when the root is and the
/// children of finished steps are.
proof fn lemma_walk_visited(
    ns: Seq<NodeView>,
    root: u128,
    visited: Seq<bool>,
    on_path: Seq<bool>,
    order: Seq<u128>,
    rp: int,
    p: Seq<int>,
    t: int,
)
    requires
        ids_distinct(ns),
        walk_state(ns, root, visited, on_path, order),
        0 <= rp < ns.len(),
        ns[rp].id == root,
        visited[rp],
        walk_from_root(ns, root, p),
        0 <= t < p.len(),
    ensures
        visited[p[t]],
    decreases t,
{
    if t == 0 {
        lemma_pos_of_distinct(ns, rp);
        lemma_pos_of_distinct(ns, p[0]);
    } else {
        lemma_walk_visited(ns, root, visited, on_path, order, rp, p, t - 1);
        assert(walk_link(ns, p, t - 1));
        let s = p[t - 1];
        let c = p[t];
        assert(ns[s].children.contains(ns[c].id));
        let k = choose|k: int| 0 <= k < ns[s].children.len() && ns[s].children[k] == ns[c].id;
        lemma_pos_of_distinct(ns, c);
        assert(visited[pos_of(ns, ns[s].children[k])]);
    }
}

/// Where the step with this identifier stands among `steps`.
fn step_position(steps: &Vec<PlanNode>, id: u128) -> (r: Option<usize>)
    requires
        ids_distinct(node_views(steps@)),
    ensures
        match r {
            Some(p) => p < steps@.len() && node_views(steps@)[p as int].id == id && pos_of(node_views(steps@), id) == p,
            None => pos_of(node_views(steps@), id) == -1,
        },
{
    let ghost ns = node_views(steps@);
    let mut i: usize = 0;
    while i < steps.len()
        invariant
            ns == node_views(steps@),
            i <= steps@.len(),
            ids_distinct(ns),
            forall|k: int| 0 <= k < i ==> ns[k].id != id,
        decreases steps@.len() - i,
    {
        assert(ns[i as int] == steps@[i as int]@);
        if steps[i].id == id {
            proof {
                lemma_pos_of_distinct(ns, i as int);
            }
            return Some(i);
        }
        i += 1;
    }
    None
}

/// Walks from step `i`: a step met again on the path closes a cycle; a
/// finished step is passed; otherwise its children are walked in turn and
/// the step is listed after them.
fn visit(
    steps: &Vec<PlanNode>,
    Ghost(root): Ghost<u128>,
    i: usize,
    visited: &mut Vec<bool>,
    on_path: &mut Vec<bool>,
    order: &mut Vec<u128>,
    Ghost(path): Ghost<Seq<int>>,
    Ghost(rank): Ghost<spec_fn(int) -> int>,
    Ghost(fuel): Ghost<nat>,
) -> (r: Result<(), PlannerError>)
    requires
        ids_distinct(node_views(steps@)),
        i < steps@.len(),
        walk_from_root(node_views(steps@), root, path),
        path.last() == i,
        walk_state(node_views(steps@), root, old(visited)@, old(on_path)@, old(order)@),
        ranked_by(node_views(steps@), root, rank) ==> forall|s: int|
            0 <= s < steps@.len() && #[trigger] old(on_path)@[s] ==> rank(s) > rank(i as int),
        fuel >= free_count(old(visited)@, old(on_path)@, steps@.len() as int),
    ensures
        r is Ok ==> {
            &&& walk_state(node_views(steps@), root, final(visited)@, final(on_path)@, final(order)@)
            &&& final(on_path)@ == old(on_path)@
            &&& final(visited)@[i as int]
            &&& forall|s: int| 0 <= s < steps@.len() && #[trigger] old(visited)@[s] ==> final(visited)@[s]
        },
        r matches Err(e) ==> (e is CycleDetected && !ranked_by(node_views(steps@), root, rank)) || (e matches PlannerError::NodeNotFound(
            c,
        ) && missing_child(node_views(steps@), root, c)),
    decreases fuel,
{
    let ghost ns = node_views(steps@);
    let ghost n = ns.len() as int;
    if on_path[i] {
        return Err(PlannerError::CycleDetected);
    }
    if visited[i] {
        return Ok(());
    }
    let ghost v0 = visited@;
    let ghost s0 = on_path@;
    on_path.set(i, true);
    proof {
        lemma_free_count(v0, s0, visited@, on_path@, n, i as int);
    }
    assert(ns[i as int] == steps@[i as int]@);
    let n_children = steps[i].children.len();
    let mut k: usize = 0;
    while k < n_children
        invariant
            ns == node_views(steps@),
            n == ns.len(),
            ids_distinct(ns),
            i < ns.len(),
            ns[i as int] == steps@[i as int]@,
            n_children == ns[i as int].children.len(),
            k <= n_children,
            walk_from_root(ns, root, path),
            path.last() == i,
            walk_state(ns, root, visited@, on_path@, order@),
            on_path@ == s0.update(i as int, true),
            v0.len() == n,
            s0.len() == n,
            !visited@[i as int],
            forall|s: int| 0 <= s < n && #[trigger] v0[s] ==> visited@[s],
            forall|m: int|
                0 <= m < k ==> 0 <= #[trigger] pos_of(ns, ns[i as int].children[m]) < n && visited@[pos_of(
                    ns,
                    ns[i as int].children[m],
                )],
            ranked_by(ns, root, rank) ==> forall|s: int| 0 <= s < n && #[trigger] on_path@[s] ==> rank(s) >= rank(i as int),
            free_count(visited@, on_path@, n) < fuel,
        decreases n_children - k,
    {
        let child = steps[i].children[k];
        let p = match step_position(steps, child) {
            Some(p) => p,
            None => {
                proof {
                    assert(reachable(ns, root, i as int));
                    assert(ns[i as int].children[k as int] == child);
                    assert(ns[i as int].children.contains(child));
                }
                return Err(PlannerError::NodeNotFound(child));
            },
        };
        proof {
            lemma_child_link(ns, i as int, k as int, p as int);
            lemma_walk_push(ns, root, path, p as int);
            if ranked_by(ns, root, rank) {
                assert(reachable(ns, root, i as int));
                assert(rank(p as int) < rank(i as int));
            }
        }
        let ghost v1 = visited@;
        let r = visit(
            steps,
            Ghost(root),
            p,
            visited,
            on_path,
            order,
            Ghost(path.push(p as int)),
            Ghost(rank),
            Ghost((fuel - 1) as nat),
        );
        match r {
            Err(e) => {
                return Err(e);
            },
            Ok(()) => {},
        }
        proof {
            lemma_free_count(v1, on_path@, visited@, on_path@, n, -1);
            assert(on_path@[i as int]);
            assert forall|m: int| 0 <= m < k + 1 implies 0 <= #[trigger] pos_of(ns, ns[i as int].children[m]) < n
                && visited@[pos_of(ns, ns[i as int].children[m])] by {
                if m < k {
                    assert(v1[pos_of(ns, ns[i as int].children[m])]);
                }
            }
        }
        k += 1;
    }
    let ghost v2 = visited@;
    let ghost o2 = order@;
    on_path.set(i, false);
    visited.set(i, true);
    order.push(steps[i].id);
    proof {
        let id = ns[i as int].id;
        lemma_pos_of_distinct(ns, i as int);
        assert(on_path@ =~= s0);
        assert(!o2.contains(id)) by {
            if o2.contains(id) {
                let a = choose|a: int| 0 <= a < o2.len() && o2[a] == id;
                assert(v2[pos_of(ns, o2[a])]);
            }
        }
        assert(reachable(ns, root, i as int));
        assert forall|a: int| 0 <= a < order@.len() implies 0 <= #[trigger] pos_of(ns, order@[a]) < ns.len()
            && visited@[pos_of(ns, order@[a])] by {
            if a < o2.len() {
                assert(order@[a] == o2[a]);
            }
        }
        assert forall|s: int| 0 <= s < ns.len() && #[trigger] visited@[s] implies order@.contains(ns[s].id)
            && reachable(ns, root, s) && !on_path@[s] by {
            if s != i {
                assert(v2[s]);
                let a = choose|a: int| 0 <= a < o2.len() && o2[a] == ns[s].id;
                assert(order@[a] == o2[a]);
            } else {
                assert(order@[o2.len() as int] == id);
            }
        }
        assert forall|s: int, m: int|
            #![trigger visited@[s], ns[s].children[m]]
            0 <= s < ns.len() && visited@[s] && 0 <= m < ns[s].children.len() implies 0 <= pos_of(
                ns,
                ns[s].children[m],
            ) < ns.len() && visited@[pos_of(ns, ns[s].children[m])] by {
            if s != i {
                assert(v2[s]);
            } else {
                assert(0 <= pos_of(ns, ns[i as int].children[m]) < n);
            }
        }
        assert forall|a: int, m: int|
            0 <= a < order@.len() && 0 <= pos_of(ns, order@[a]) && 0 <= m < ns[pos_of(ns, order@[a])].children.len()
            implies #[trigger] listed_before(order@, a, ns[pos_of(ns, order@[a])].children[m]) by {
            let c = ns[pos_of(ns, order@[a])].children[m];
            if a < o2.len() {
                assert(order@[a] == o2[a]);
                assert(listed_before(o2, a, c));
                let b = choose|b: int| 0 <= b < a && o2[b] == c;
                assert(order@[b] == o2[b]);
            } else {
                assert(order@[a] == id);
                let q = pos_of(ns, ns[i as int].children[m]);
                assert(v2[q]);
                assert(o2.contains(ns[q].id));
                lemma_pos_of_distinct(ns, q);
                let b = choose|b: int| 0 <= b < o2.len() && o2[b] == ns[q].id;
                assert(order@[b] == o2[b]);
                assert(ns[q].id == c) by {
                    assert(pos_of(ns, c) == q);
                    assert(exists|j: int| 0 <= j < ns.len() && ns[j].id == c);
                }
            }
        }
        assert(walk_state(ns, root, visited@, on_path@, order@));
    }
    Ok(())
}

/// The order in which steps keyed by their identifiers run, from the step
/// `root_id`: each step reached from it along child links is listed once,
/// after all of its children, and no other step is listed. A cycle among
/// the links is refused (`CycleDetected`), and so is a missing root or a
/// child that names no step (`NodeNotFound`); when the root is there, every
/// child named is there and the links close no cycle, the order comes.
pub fn order_steps(steps: &Vec<PlanNode>, root_id: u128) -> (r: Result<Vec<u128>, PlannerError>)
    requires
        ids_distinct(node_views(steps@)),
    ensures
        match r {
            Ok(order) => {
                let ns = node_views(steps@);
                &&& order@.no_duplicates()
                &&& forall|a: int|
                    0 <= a < order@.len() ==> 0 <= #[trigger] pos_of(ns, order@[a]) && reachable(
                        ns,
                        root_id,
                        pos_of(ns, order@[a]),
                    )
                &&& forall|j: int| 0 <= j < ns.len() && #[trigger] reachable(ns, root_id, j) ==> order@.contains(ns[j].id)
                &&& children_first(ns, order@)
            },
            Err(PlannerError::CycleDetected) => !has_ranking(node_views(steps@), root_id),
            Err(PlannerError::NodeNotFound(c)) => (c == root_id && pos_of(node_views(steps@), root_id) == -1)
                || missing_child(node_views(steps@), root_id, c),
            Err(_) => false,
        },
        pos_of(node_views(steps@), root_id) != -1 && children_present(node_views(steps@), root_id) && has_ranking(
            node_views(steps@),
            root_id,
        ) ==> r is Ok,
{
    let ghost ns = node_views(steps@);
    let root = match step_position(steps, root_id) {
        Some(p) => p,
        None => {
            return Err(PlannerError::NodeNotFound(root_id));
        },
    };
    let mut visited: Vec<bool> = Vec::new();
    let mut on_path: Vec<bool> = Vec::new();
    let mut j: usize = 0;
    while j < steps.len()
        invariant
            j <= steps@.len(),
            visited@.len() == j,
            on_path@.len() == j,
            forall|t: int| 0 <= t < j ==> !visited@[t] && !on_path@[t],
        decreases steps@.len() - j,
    {
        visited.push(false);
        on_path.push(false);
        j += 1;
    }
    let mut order: Vec<u128> = Vec::new();
    let ghost rank: spec_fn(int) -> int = if has_ranking(ns, root_id) {
        choose|rank: spec_fn(int) -> int| ranked_by(ns, root_id, rank)
    } else {
        |x: int| 0int
    };
    let ghost path = seq![root as int];
    let ghost fuel = free_count(visited@, on_path@, ns.len() as int);
    proof {
        assert(walk_from_root(ns, root_id, path));
        assert(walk_state(ns, root_id, visited@, on_path@, order@));
    }
    let r = visit(
        steps,
        Ghost(root_id),
        root,
        &mut visited,
        &mut on_path,
        &mut order,
        Ghost(path),
        Ghost(rank),
        Ghost(fuel),
    );
    proof {
        if pos_of(ns, root_id) != -1 && children_present(ns, root_id) && has_ranking(ns, root_id) {
            match r {
                Err(PlannerError::NodeNotFound(c)) => {
                    let jj = choose|jj: int| 0 <= jj < ns.len() && #[trigger] reachable(ns, root_id, jj) && ns[jj].children.contains(c);
                    let kk = choose|kk: int| 0 <= kk < ns[jj].children.len() && ns[jj].children[kk] == c;
                    assert(pos_of(ns, ns[jj].children[kk]) != -1);
                },
                _ => {},
            }
        }
    }
    match r {
        Err(e) => Err(e),
        Ok(()) => {
            proof {
                assert forall|jj: int| 0 <= jj < ns.len() && #[trigger] reachable(ns, root_id, jj) implies order@.contains(
                    ns[jj].id,
                ) by {
                    let p = choose|p: Seq<int>| #[trigger] walk_from_root(ns, root_id, p) && p.last() == jj;
                    lemma_walk_visited(ns, root_id, visited@, on_path@, order@, root as int, p, p.len() - 1);
                }
            }
            Ok(order)
        },
    }
}


/// A step reached from the root is a step of the plan.
proof fn lemma_reached_in_range(ns: Seq<NodeView>, root: u128, j: int)
    requires
        reachable(ns, root, j),
    ensures
        0 <= j < ns.len(),
{
    let p = choose|p: Seq<int>| #[trigger] walk_from_root(ns, root, p) && p.last() == j;
    if p.len() > 1 {
        assert(walk_link(ns, p, p.len() - 2));
    }
}

/// Every plan the planner keeps can be put in execution order: its root is
/// there, every child it names is there, and its links close no cycle
/// (each child stands after its parent), so `order_steps` gives an order
/// for its steps.
pub proof fn plans_can_be_ordered(ns: Seq<NodeView>, root: u128)
    requires
        plan_wf(ns, root),
    ensures
        pos_of(ns, root) != -1,
        children_present(ns, root),
        has_ranking(ns, root),
{
    lemma_pos_of_distinct(ns, 0);
    let rank = |j: int| -j;
    assert forall|j: int, c: int| #[trigger] reachable(ns, root, j) && #[trigger] link(ns, j, c) implies rank(c) < rank(
        j,
    ) by {
        let k = choose|k: int| 0 <= k < ns[j].children.len() && ns[j].children[k] == ns[c].id;
        lemma_pos_of_distinct(ns, c);
        assert(pos_of(ns, ns[j].children[k]) == c);
    }
    assert(ranked_by(ns, root, rank));
    assert forall|j: int, k: int| reachable(ns, root, j) && 0 <= k < ns[j].children.len() implies pos_of(
        ns,
        #[trigger] ns[j].children[k],
    ) != -1 by {
        lemma_reached_in_range(ns, root, j);
    }
}

} // verus!
