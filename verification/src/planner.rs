//! Plans as trees of steps: growing them, pruning them, ordering their
//! execution leaves first, and deciding when a plan needs a person's approval.
//!
//! A plan's nodes are kept in the order they were added, so that every node
//! comes after its parent; identifiers are distinct. Costs and scores are
//! kept in thousandths (a score of 800 is a probability of 0.8).

use vstd::prelude::*;
use crate::clock::new_uuid;
use crate::deterministic::json_clone;
use crate::text::contains_seq;
use crate::text::str_contains;
use crate::text::decimal;
use crate::text::u64_to_decimal;

verus! {

/// Why a planning operation failed.
#[derive(Debug)]
pub enum PlannerError {
    NodeNotFound(u128),
    CycleDetected,
    MaxDepthExceeded,
    Serialization(String),
    ExecutionError(u128, String),
    /// A freshly drawn identifier was already taken; nothing was changed.
    IdCollision,
}

/// A tool call that a plan step makes.
#[derive(Debug)]
pub struct Action {
    pub tool_name: String,
    pub parameters: serde_json::Value,
    pub requires_approval: bool,
}

/// An action as plain values.
pub struct ActionView {
    pub tool_name: Seq<char>,
    pub parameters: serde_json::Value,
    pub requires_approval: bool,
}

impl View for Action {
    type V = ActionView;

    open spec fn view(&self) -> ActionView {
        ActionView {
            tool_name: self.tool_name@,
            parameters: self.parameters,
            requires_approval: self.requires_approval,
        }
    }
}

impl Action {
    /// A copy of the action.
    pub fn duplicate(&self) -> (a: Action)
        ensures
            a@ == self@,
    {
        Action {
            tool_name: String::from_str(self.tool_name.as_str()),
            parameters: json_clone(&self.parameters),
            requires_approval: self.requires_approval,
        }
    }
}

/// Where a plan step stands.
#[derive(Debug)]
pub enum PlanNodeStatus {
    Pending,
    Executing,
    Completed { result: serde_json::Value },
    Failed { error: String },
    Pruned,
}

/// A status as plain values.
pub enum StatusView {
    Pending,
    Executing,
    Completed(serde_json::Value),
    Failed(Seq<char>),
    Pruned,
}

impl View for PlanNodeStatus {
    type V = StatusView;

    open spec fn view(&self) -> StatusView {
        match self {
            PlanNodeStatus::Pending => StatusView::Pending,
            PlanNodeStatus::Executing => StatusView::Executing,
            PlanNodeStatus::Completed { result } => StatusView::Completed(*result),
            PlanNodeStatus::Failed { error } => StatusView::Failed(error@),
            PlanNodeStatus::Pruned => StatusView::Pruned,
        }
    }
}

impl PlanNodeStatus {
    /// Completed, failed and pruned steps are settled.
    pub fn is_terminal(&self) -> (b: bool)
        ensures
            b == (self@ is Completed || self@ is Failed || self@ is Pruned),
    {
        match self {
            PlanNodeStatus::Completed { .. } => true,
            PlanNodeStatus::Failed { .. } => true,
            PlanNodeStatus::Pruned => true,
            _ => false,
        }
    }

    /// Whether the step is waiting to run.
    pub fn is_pending(&self) -> (b: bool)
        ensures
            b == (self@ is Pending),
    {
        match self {
            PlanNodeStatus::Pending => true,
            _ => false,
        }
    }

    /// Whether the step was pruned.
    pub fn is_pruned(&self) -> (b: bool)
        ensures
            b == (self@ is Pruned),
    {
        match self {
            PlanNodeStatus::Pruned => true,
            _ => false,
        }
    }
}

/// A step of a plan.
#[derive(Debug)]
pub struct PlanNode {
    pub id: u128,
    pub parent_id: Option<u128>,
    pub thought: String,
    pub action: Option<Action>,
    /// Estimated cost, in thousandths.
    pub estimated_cost: u32,
    pub expected_outcome: String,
    pub children: Vec<u128>,
    pub status: PlanNodeStatus,
    /// Estimated probability of success, in thousandths (0 to 1000).
    pub score: u32,
}

/// A step as plain values.
pub struct NodeView {
    pub id: u128,
    pub parent_id: Option<u128>,
    pub thought: Seq<char>,
    pub action: Option<ActionView>,
    pub estimated_cost: u32,
    pub expected_outcome: Seq<char>,
    pub children: Seq<u128>,
    pub status: StatusView,
    pub score: u32,
}

impl View for PlanNode {
    type V = NodeView;

    open spec fn view(&self) -> NodeView {
        NodeView {
            id: self.id,
            parent_id: self.parent_id,
            thought: self.thought@,
            action: match self.action {
                Some(a) => Some(a@),
                None => None,
            },
            estimated_cost: self.estimated_cost,
            expected_outcome: self.expected_outcome@,
            children: self.children@,
            status: self.status@,
            score: self.score,
        }
    }
}

/// A pending step without action or children.
pub open spec fn fresh_step(
    id: u128,
    parent: Option<u128>,
    thought: Seq<char>,
    cost: u32,
    outcome: Seq<char>,
    score: u32,
) -> NodeView {
    NodeView {
        id,
        parent_id: parent,
        thought,
        action: None,
        estimated_cost: cost,
        expected_outcome: outcome,
        children: Seq::empty(),
        status: StatusView::Pending,
        score,
    }
}

/// The score a new step starts with.
pub const DEFAULT_SCORE: u32 = 500;

impl PlanNode {
    /// A pending step without action or children, with a fresh random
    /// identifier and the default score.
    pub fn new(parent_id: Option<u128>, thought: &str, expected_outcome: &str, estimated_cost: u32) -> (n: PlanNode)
        ensures
            n@ == fresh_step(n@.id, parent_id, thought@, estimated_cost, expected_outcome@, DEFAULT_SCORE),
    {
        let id = new_uuid();
        PlanNode::with_id(id, parent_id, thought, expected_outcome, estimated_cost, DEFAULT_SCORE)
    }

    /// A pending step without action or children, with the given identifier and score.
    fn with_id(
        id: u128,
        parent_id: Option<u128>,
        thought: &str,
        expected_outcome: &str,
        estimated_cost: u32,
        score: u32,
    ) -> (n: PlanNode)
        ensures
            n@ == fresh_step(id, parent_id, thought@, estimated_cost, expected_outcome@, score),
    {
        let n = PlanNode {
            id,
            parent_id,
            thought: String::from_str(thought),
            action: None,
            estimated_cost,
            expected_outcome: String::from_str(expected_outcome),
            children: Vec::new(),
            status: PlanNodeStatus::Pending,
            score,
        };
        assert(n@.children =~= Seq::<u128>::empty());
        n
    }
}

/// The steps as plain values.
pub open spec fn node_views(ns: Seq<PlanNode>) -> Seq<NodeView> {
    ns.map_values(|n: PlanNode| n@)
}

/// No identifier occurs twice.
pub open spec fn ids_distinct(ns: Seq<NodeView>) -> bool {
    forall|a: int, b: int| 0 <= a < b < ns.len() ==> ns[a].id != ns[b].id
}

/// Where the step with this identifier stands, or -1.
pub open spec fn pos_of(ns: Seq<NodeView>, id: u128) -> int {
    if exists|i: int| 0 <= i < ns.len() && ns[i].id == id {
        choose|i: int| 0 <= i < ns.len() && ns[i].id == id
    } else {
        -1
    }
}

/// Where the parent of step `i` stands (-1 for the root or a missing parent).
pub open spec fn parent_pos(ns: Seq<NodeView>, i: int) -> int {
    match ns[i].parent_id {
        Some(p) => pos_of(ns, p),
        None => -1,
    }
}

/// How many parent links lead from step `i` to the root.
pub open spec fn depth_at(ns: Seq<NodeView>, i: int) -> nat
    decreases i,
{
    if i <= 0 || i >= ns.len() {
        0
    } else {
        match ns[i].parent_id {
            None => 0,
            Some(p) => {
                let q = pos_of(ns, p);
                if 0 <= q < i {
                    1 + depth_at(ns, q)
                } else {
                    1
                }
            },
        }
    }
}

/// The identifiers met following the parent links up from step `i`,
/// nearest first.
pub open spec fn ancestors_at(ns: Seq<NodeView>, i: int) -> Seq<u128>
    decreases i,
{
    if i <= 0 || i >= ns.len() {
        Seq::empty()
    } else {
        match ns[i].parent_id {
            None => Seq::empty(),
            Some(p) => {
                let q = pos_of(ns, p);
                if 0 <= q < i {
                    seq![p] + ancestors_at(ns, q)
                } else {
                    seq![p]
                }
            },
        }
    }
}

/// The shape every plan keeps: the root comes first and has no parent,
/// identifiers are distinct, every other step has a parent that comes before
/// it, each child listed by a step comes after it and names it as parent,
/// every step is listed among its parent's children, and no step lies
/// deeper than 255.
pub open spec fn plan_wf(ns: Seq<NodeView>, root: u128) -> bool {
    &&& ns.len() > 0
    &&& ns[0].id == root
    &&& ns[0].parent_id is None
    &&& ids_distinct(ns)
    &&& forall|i: int| 1 <= i < ns.len() ==> #[trigger] ns[i].parent_id is Some && 0 <= parent_pos(ns, i) < i
    &&& forall|i: int, k: int|
        0 <= i < ns.len() && 0 <= k < ns[i].children.len() ==> {
            let c = pos_of(ns, #[trigger] ns[i].children[k]);
            &&& i < c < ns.len()
            &&& ns[c].parent_id == Some(ns[i].id)
        }
    &&& forall|i: int| 1 <= i < ns.len() ==> ns[parent_pos(ns, i)].children.contains(#[trigger] ns[i].id)
    &&& forall|i: int| 0 <= i < ns.len() ==> #[trigger] depth_at(ns, i) <= 255
}

/// With distinct identifiers, each step is found where it stands.
pub proof fn lemma_pos_of_distinct(ns: Seq<NodeView>, i: int)
    requires
        ids_distinct(ns),
        0 <= i < ns.len(),
    ensures
        pos_of(ns, ns[i].id) == i,
{
    assert(0 <= i < ns.len() && ns[i].id == ns[i].id);
    let j = choose|j: int| 0 <= j < ns.len() && ns[j].id == ns[i].id;
    if j != i {
        if j < i {
        } else {
        }
    }
}

/// A plan: a tree of steps grown from its root towards a goal. (Steps that
/// share children, or come from elsewhere, are ordered by
/// `plan_order::order_steps`.)
#[derive(Debug)]
pub struct PlanDAG {
    nodes: Vec<PlanNode>,
    root_id: u128,
    max_depth: u8,
    branching_factor: u8,
    goal: String,
}

impl PlanDAG {
    /// The steps, in the order they were added.
    pub closed spec fn steps(&self) -> Seq<NodeView> {
        node_views(self.nodes@)
    }

    /// The root's identifier.
    pub closed spec fn root(&self) -> u128 {
        self.root_id
    }

    /// The deepest a step may be expanded from.
    pub closed spec fn depth_limit(&self) -> u8 {
        self.max_depth
    }

    /// How many alternatives each step was meant to have.
    pub closed spec fn branching(&self) -> u8 {
        self.branching_factor
    }

    /// The goal the plan serves.
    pub closed spec fn goal_text(&self) -> Seq<char> {
        self.goal@
    }

    /// The plan keeps its shape.
    pub open spec fn wf(&self) -> bool {
        plan_wf(self.steps(), self.root())
    }

    /// The root's identifier.
    pub fn root_id(&self) -> (r: u128)
        ensures
            r == self.root(),
    {
        self.root_id
    }

    /// The deepest a step may be expanded from.
    pub fn max_depth(&self) -> (r: u8)
        ensures
            r == self.depth_limit(),
    {
        self.max_depth
    }

    /// How many alternatives each step was meant to have.
    pub fn branching_factor(&self) -> (r: u8)
        ensures
            r == self.branching(),
    {
        self.branching_factor
    }

    /// The goal the plan serves.
    pub fn goal(&self) -> (r: &str)
        ensures
            r@ == self.goal_text(),
    {
        self.goal.as_str()
    }

    /// How many steps the plan has.
    pub fn node_count(&self) -> (n: usize)
        ensures
            n == self.steps().len(),
    {
        self.nodes.len()
    }

    /// Where the step with this identifier stands.
    pub fn position(&self, id: u128) -> (r: Option<usize>)
        requires
            ids_distinct(self.steps()),
        ensures
            match r {
                Some(i) => i < self.steps().len() && self.steps()[i as int].id == id && pos_of(self.steps(), id) == i,
                None => pos_of(self.steps(), id) == -1,
            },
    {
        let mut i: usize = 0;
        while i < self.nodes.len()
            invariant
                i <= self.steps().len(),
                self.steps().len() == self.nodes@.len(),
                ids_distinct(self.steps()),
                forall|k: int| 0 <= k < i ==> self.steps()[k].id != id,
            decreases self.nodes@.len() - i,
        {
            assert(self.steps()[i as int] == self.nodes@[i as int]@);
            if self.nodes[i].id == id {
                proof {
                    lemma_pos_of_distinct(self.steps(), i as int);
                }
                return Some(i);
            }
            i += 1;
        }
        None
    }

    /// The step with this identifier, if the plan has one.
    pub fn node(&self, id: u128) -> (r: Option<&PlanNode>)
        requires
            self.wf(),
        ensures
            pos_of(self.steps(), id) == -1 ==> r is None,
            pos_of(self.steps(), id) != -1 ==> r is Some && r->Some_0@ == self.steps()[pos_of(self.steps(), id)],
    {
        match self.position(id) {
            Some(i) => Some(&self.nodes[i]),
            None => None,
        }
    }

    /// How many parent links lead from a step to the root (0 for a step the
    /// plan does not have).
    pub fn depth_of(&self, node_id: u128) -> (d: u8)
        requires
            self.wf(),
        ensures
            d == if pos_of(self.steps(), node_id) == -1 {
                0
            } else {
                depth_at(self.steps(), pos_of(self.steps(), node_id))
            },
    {
        let ghost ns = self.steps();
        let start = match self.position(node_id) {
            Some(i) => i,
            None => return 0,
        };
        let mut cur = start;
        let mut depth: u8 = 0;
        while cur > 0
            invariant
                ns == self.steps(),
                plan_wf(ns, self.root()),
                0 <= cur < ns.len(),
                ns.len() == self.nodes@.len(),
                depth + depth_at(ns, cur as int) == depth_at(ns, start as int),
                depth_at(ns, start as int) <= 255,
            decreases cur,
        {
            assert(ns[cur as int] == self.nodes@[cur as int]@);
            assert(ns[cur as int].parent_id is Some && 0 <= parent_pos(ns, cur as int) < cur);
            let p = match self.nodes[cur].parent_id {
                Some(p) => p,
                None => return depth,
            };
            let q = match self.position(p) {
                Some(q) => q,
                None => return depth,
            };
            depth = depth + 1;
            cur = q;
        }
        depth
    }

    /// The identifiers met following the parent links up from a step, nearest
    /// first (none for a step the plan does not have).
    pub fn ancestors(&self, node_id: u128) -> (r: Vec<u128>)
        requires
            self.wf(),
        ensures
            r@ == if pos_of(self.steps(), node_id) == -1 {
                Seq::<u128>::empty()
            } else {
                ancestors_at(self.steps(), pos_of(self.steps(), node_id))
            },
    {
        let ghost ns = self.steps();
        let mut result: Vec<u128> = Vec::new();
        let start = match self.position(node_id) {
            Some(i) => i,
            None => return result,
        };
        let mut cur = start;
        while cur > 0
            invariant
                ns == self.steps(),
                plan_wf(ns, self.root()),
                0 <= cur < ns.len(),
                ns.len() == self.nodes@.len(),
                result@ + ancestors_at(ns, cur as int) == ancestors_at(ns, start as int),
            decreases cur,
        {
            assert(ns[cur as int] == self.nodes@[cur as int]@);
            assert(ns[cur as int].parent_id is Some && 0 <= parent_pos(ns, cur as int) < cur);
            let p = match self.nodes[cur].parent_id {
                Some(p) => p,
                None => return result,
            };
            let q = match self.position(p) {
                Some(q) => q,
                None => return result,
            };
            let ghost before = result@;
            result.push(p);
            assert(before + ancestors_at(ns, cur as int) =~= result@ + ancestors_at(ns, q as int));
            cur = q;
        }
        assert(result@ + ancestors_at(ns, cur as int) =~= result@);
        result
    }
}

/// A step's depth is the number of its ancestors.
pub proof fn depth_counts_ancestors(ns: Seq<NodeView>, i: int)
    ensures
        depth_at(ns, i) == ancestors_at(ns, i).len(),
    decreases i,
{
    if i <= 0 || i >= ns.len() {
    } else {
        match ns[i].parent_id {
            None => {},
            Some(p) => {
                let q = pos_of(ns, p);
                if 0 <= q < i {
                    depth_counts_ancestors(ns, q);
                }
            },
        }
    }
}

/// The steps under step `i` and then `i` itself, children in the order they
/// are listed, each child's steps before the next child's: a depth-first walk
/// that lists a step once all of its children are listed.
pub open spec fn post_order_at(ns: Seq<NodeView>, i: int) -> Seq<u128>
    decreases ns.len() - i, ns[i].children.len() + 1,
{
    if 0 <= i < ns.len() {
        post_order_children(ns, i, ns[i].children.len() as int) + seq![ns[i].id]
    } else {
        Seq::empty()
    }
}

/// The walks under the first `k` children of step `i`, one after another.
pub open spec fn post_order_children(ns: Seq<NodeView>, i: int, k: int) -> Seq<u128>
    decreases ns.len() - i, k,
{
    if 0 <= i < ns.len() && 0 < k <= ns[i].children.len() {
        let c = pos_of(ns, ns[i].children[k - 1]);
        let rest = post_order_children(ns, i, k - 1);
        if i < c < ns.len() {
            rest + post_order_at(ns, c)
        } else {
            rest
        }
    } else {
        Seq::empty()
    }
}

/// `c` occurs in `order` before position `a`.
pub open spec fn listed_before(order: Seq<u128>, a: int, c: u128) -> bool {
    exists|b: int| 0 <= b < a && order[b] == c
}

/// Every step listed in `order` comes after all of its children.
pub open spec fn children_first(ns: Seq<NodeView>, order: Seq<u128>) -> bool {
    forall|a: int, k: int|
        0 <= a < order.len() && 0 <= pos_of(ns, order[a]) && 0 <= k < ns[pos_of(ns, order[a])].children.len()
            ==> #[trigger] listed_before(order, a, ns[pos_of(ns, order[a])].children[k])
}

proof fn lemma_children_first_concat(ns: Seq<NodeView>, x: Seq<u128>, y: Seq<u128>)
    requires
        children_first(ns, x),
        children_first(ns, y),
    ensures
        children_first(ns, x + y),
{
    let z = x + y;
    assert forall|a: int, k: int|
        0 <= a < z.len() && 0 <= pos_of(ns, z[a]) && 0 <= k < ns[pos_of(ns, z[a])].children.len()
        implies #[trigger] listed_before(z, a, ns[pos_of(ns, z[a])].children[k]) by {
        if a < x.len() {
            assert(z[a] == x[a]);
            assert(listed_before(x, a, ns[pos_of(ns, x[a])].children[k]));
            let b = choose|b: int| 0 <= b < a && x[b] == ns[pos_of(ns, x[a])].children[k];
            assert(z[b] == x[b]);
        } else {
            let a2 = a - x.len();
            assert(z[a] == y[a2]);
            assert(listed_before(y, a2, ns[pos_of(ns, y[a2])].children[k]));
            let b2 = choose|b: int| 0 <= b < a2 && y[b] == ns[pos_of(ns, y[a2])].children[k];
            assert(z[x.len() + b2] == y[b2]);
        }
    }
}

proof fn lemma_walk_ends_with_step(ns: Seq<NodeView>, i: int)
    requires
        0 <= i < ns.len(),
    ensures
        post_order_at(ns, i).len() > 0,
        post_order_at(ns, i).last() == ns[i].id,
{
}

proof fn lemma_child_listed(ns: Seq<NodeView>, root: u128, i: int, k: int, m: int)
    requires
        plan_wf(ns, root),
        0 <= i < ns.len(),
        0 <= k < m <= ns[i].children.len(),
    ensures
        exists|b: int| 0 <= b < post_order_children(ns, i, m).len() && post_order_children(ns, i, m)[b] == ns[i].children[k],
    decreases m,
{
    let c = pos_of(ns, ns[i].children[m - 1]);
    assert(i < c < ns.len());
    let rest = post_order_children(ns, i, m - 1);
    let whole = post_order_children(ns, i, m);
    assert(whole == rest + post_order_at(ns, c));
    if k == m - 1 {
        lemma_walk_ends_with_step(ns, c);
        assert(0 <= c && ns[c].id == ns[i].children[k]) by {
            assert(exists|j: int| 0 <= j < ns.len() && ns[j].id == ns[i].children[k]) by {
                assert(0 <= c < ns.len());
                if !(ns[c].id == ns[i].children[k]) {
                    assert(c == -1);
                }
            }
        }
        let b = whole.len() - 1;
        assert(whole[b] == post_order_at(ns, c).last());
    } else {
        lemma_child_listed(ns, root, i, k, m - 1);
        let b = choose|b: int| 0 <= b < rest.len() && rest[b] == ns[i].children[k];
        assert(whole[b] == rest[b]);
    }
}

proof fn lemma_walk_children_first(ns: Seq<NodeView>, root: u128, i: int)
    requires
        plan_wf(ns, root),
        0 <= i < ns.len(),
    ensures
        children_first(ns, post_order_at(ns, i)),
    decreases ns.len() - i, ns[i].children.len() + 1,
{
    let m = ns[i].children.len() as int;
    lemma_children_walk_children_first(ns, root, i, m);
    let cs = post_order_children(ns, i, m);
    let last = seq![ns[i].id];
    let whole = cs + last;
    assert(whole == post_order_at(ns, i));
    lemma_pos_of_distinct(ns, i);
    assert forall|a: int, k: int|
        0 <= a < whole.len() && 0 <= pos_of(ns, whole[a]) && 0 <= k < ns[pos_of(ns, whole[a])].children.len()
        implies #[trigger] listed_before(whole, a, ns[pos_of(ns, whole[a])].children[k]) by {
        if a < cs.len() {
            assert(whole[a] == cs[a]);
            assert(listed_before(cs, a, ns[pos_of(ns, cs[a])].children[k]));
            let b = choose|b: int| 0 <= b < a && cs[b] == ns[pos_of(ns, cs[a])].children[k];
            assert(whole[b] == cs[b]);
        } else {
            assert(whole[a] == ns[i].id);
            assert(pos_of(ns, whole[a]) == i);
            lemma_child_listed(ns, root, i, k, m);
            let b = choose|b: int| 0 <= b < cs.len() && cs[b] == ns[i].children[k];
            assert(whole[b] == cs[b]);
        }
    }
}

proof fn lemma_children_walk_children_first(ns: Seq<NodeView>, root: u128, i: int, k: int)
    requires
        plan_wf(ns, root),
        0 <= i < ns.len(),
        0 <= k <= ns[i].children.len(),
    ensures
        children_first(ns, post_order_children(ns, i, k)),
    decreases ns.len() - i, k,
{
    if k == 0 {
        assert(post_order_children(ns, i, 0) =~= Seq::<u128>::empty());
    } else {
        let c = pos_of(ns, ns[i].children[k - 1]);
        assert(i < c < ns.len());
        lemma_children_walk_children_first(ns, root, i, k - 1);
        lemma_walk_children_first(ns, root, c);
        lemma_children_first_concat(ns, post_order_children(ns, i, k - 1), post_order_at(ns, c));
    }
}

impl PlanDAG {
    fn post_order_into(&self, i: usize, out: &mut Vec<u128>)
        requires
            self.wf(),
            i < self.steps().len(),
        ensures
            final(out)@ == old(out)@ + post_order_at(self.steps(), i as int),
        decreases self.steps().len() - i,
    {
        let ghost ns = self.steps();
        let ghost start = out@;
        assert(ns[i as int] == self.nodes@[i as int]@);
        let n_children = self.nodes[i].children.len();
        let mut k: usize = 0;
        while k < n_children
            invariant
                ns == self.steps(),
                self.wf(),
                i < ns.len(),
                ns[i as int] == self.nodes@[i as int]@,
                n_children == ns[i as int].children.len(),
                k <= n_children,
                out@ == start + post_order_children(ns, i as int, k as int),
            decreases n_children - k,
        {
            let child = self.nodes[i].children[k];
            let ghost c = pos_of(ns, child);
            assert(i < c < ns.len());
            let cpos = match self.position(child) {
                Some(q) => q,
                None => {
                    assert(false);
                    return;
                },
            };
            self.post_order_into(cpos, out);
            assert(out@ =~= start + post_order_children(ns, i as int, k + 1));
            k += 1;
        }
        out.push(self.nodes[i].id);
        assert(out@ =~= start + post_order_at(ns, i as int));
    }

    /// The order in which the plan's steps run: every step after all of its
    /// children, leaves first, walking from the root.
    pub fn topological_order(&self) -> (r: Result<Vec<u128>, PlannerError>)
        requires
            self.wf(),
        ensures
            r is Ok,
            r->Ok_0@ == post_order_at(self.steps(), 0),
    {
        let mut order: Vec<u128> = Vec::new();
        self.post_order_into(0, &mut order);
        assert(order@ =~= post_order_at(self.steps(), 0));
        Ok(order)
    }
}

/// In the order the steps of a plan run, every step comes after all of its
/// children.
pub proof fn execution_order_is_leaves_first(dag: &PlanDAG)
    requires
        dag.wf(),
    ensures
        children_first(dag.steps(), post_order_at(dag.steps(), 0)),
{
    lemma_walk_children_first(dag.steps(), dag.root(), 0);
}

/// The step with another list of children.
pub open spec fn with_children(n: NodeView, cs: Seq<u128>) -> NodeView {
    NodeView {
        id: n.id,
        parent_id: n.parent_id,
        thought: n.thought,
        action: n.action,
        estimated_cost: n.estimated_cost,
        expected_outcome: n.expected_outcome,
        children: cs,
        status: n.status,
        score: n.score,
    }
}

/// The step with another status.
pub open spec fn with_status(n: NodeView, st: StatusView) -> NodeView {
    NodeView {
        id: n.id,
        parent_id: n.parent_id,
        thought: n.thought,
        action: n.action,
        estimated_cost: n.estimated_cost,
        expected_outcome: n.expected_outcome,
        children: n.children,
        status: st,
        score: n.score,
    }
}

/// The identifier is not taken by any step.
pub open spec fn id_free(ns: Seq<NodeView>, id: u128) -> bool {
    forall|i: int| 0 <= i < ns.len() ==> ns[i].id != id
}

/// The first `ns.len()` steps of `ns2` have the identifiers and parents of
/// `ns`, and the identifiers of `ns2` are distinct.
pub open spec fn keeps_links(ns: Seq<NodeView>, ns2: Seq<NodeView>) -> bool {
    &&& ns.len() <= ns2.len()
    &&& ids_distinct(ns2)
    &&& forall|j: int| 0 <= j < ns.len() ==> ns2[j].id == #[trigger] ns[j].id && ns2[j].parent_id == ns[j].parent_id
}

proof fn lemma_pos_of_kept(ns: Seq<NodeView>, ns2: Seq<NodeView>, id: u128)
    requires
        ids_distinct(ns),
        keeps_links(ns, ns2),
        0 <= pos_of(ns, id),
    ensures
        pos_of(ns2, id) == pos_of(ns, id),
{
    let i = pos_of(ns, id);
    assert(exists|j: int| 0 <= j < ns.len() && ns[j].id == id) by {
        if !(exists|j: int| 0 <= j < ns.len() && ns[j].id == id) {
            assert(i == -1);
        }
    }
    assert(ns[i].id == id);
    assert(ns2[i].id == ns[i].id);
    lemma_pos_of_distinct(ns2, i);
}

proof fn lemma_depth_kept(ns: Seq<NodeView>, ns2: Seq<NodeView>, root: u128, i: int)
    requires
        plan_wf(ns, root),
        keeps_links(ns, ns2),
        0 <= i < ns.len(),
    ensures
        depth_at(ns2, i) == depth_at(ns, i),
        i > 0 ==> parent_pos(ns2, i) == parent_pos(ns, i),
    decreases i,
{
    if i > 0 {
        assert(ns[i].parent_id is Some && 0 <= parent_pos(ns, i) < i);
        assert(ns2[i].id == ns[i].id);
        let p = ns[i].parent_id->0;
        lemma_pos_of_kept(ns, ns2, p);
        lemma_depth_kept(ns, ns2, root, parent_pos(ns, i));
    }
}

/// Changing what a step holds but not its identifier, parent or children
/// keeps the plan's shape.
proof fn lemma_wf_same_links(ns: Seq<NodeView>, ns2: Seq<NodeView>, root: u128)
    requires
        plan_wf(ns, root),
        ns2.len() == ns.len(),
        forall|j: int| 0 <= j < ns.len() ==> ns2[j].id == #[trigger] ns[j].id && ns2[j].parent_id == ns[j].parent_id
            && ns2[j].children == ns[j].children,
    ensures
        plan_wf(ns2, root),
{
    assert(ids_distinct(ns2)) by {
        assert forall|a: int, b: int| 0 <= a < b < ns2.len() implies ns2[a].id != ns2[b].id by {
            assert(ns2[a].id == ns[a].id);
            assert(ns2[b].id == ns[b].id);
        }
    }
    assert(keeps_links(ns, ns2));
    assert forall|i: int| 0 <= i < ns2.len() implies #[trigger] depth_at(ns2, i) <= 255 by {
        lemma_depth_kept(ns, ns2, root, i);
    }
    assert forall|i: int| 1 <= i < ns2.len() implies #[trigger] ns2[i].parent_id is Some && 0 <= parent_pos(ns2, i) < i by {
        lemma_depth_kept(ns, ns2, root, i);
    }
    assert forall|i: int| 1 <= i < ns2.len() implies ns2[parent_pos(ns2, i)].children.contains(#[trigger] ns2[i].id) by {
        lemma_depth_kept(ns, ns2, root, i);
        assert(ns[i].id == ns2[i].id);
        assert(ns[parent_pos(ns, i)].children.contains(ns[i].id));
    }
    assert forall|i: int, k: int|
        0 <= i < ns2.len() && 0 <= k < ns2[i].children.len() implies {
            let c = pos_of(ns2, #[trigger] ns2[i].children[k]);
            &&& i < c < ns2.len()
            &&& ns2[c].parent_id == Some(ns2[i].id)
        } by {
        assert(ns2[i].children[k] == ns[i].children[k]);
        let c = pos_of(ns, ns[i].children[k]);
        assert(i < c < ns.len() && ns[c].parent_id == Some(ns[i].id));
        lemma_pos_of_kept(ns, ns2, ns[i].children[k]);
        assert(ns2[c].parent_id == ns[c].parent_id);
    }
}

/// The steps after a new step `x` is added under the step at `p`.
pub open spec fn with_child(ns: Seq<NodeView>, p: int, x: NodeView) -> Seq<NodeView> {
    ns.update(p, with_children(ns[p], ns[p].children.push(x.id))).push(x)
}

proof fn lemma_wf_with_child(ns: Seq<NodeView>, root: u128, p: int, x: NodeView)
    requires
        plan_wf(ns, root),
        0 <= p < ns.len(),
        depth_at(ns, p) < 255,
        id_free(ns, x.id),
        x.parent_id == Some(ns[p].id),
        x.children.len() == 0,
    ensures
        plan_wf(with_child(ns, p, x), root),
        depth_at(with_child(ns, p, x), ns.len() as int) == depth_at(ns, p) + 1,
{
    let ns2 = with_child(ns, p, x);
    let n = ns.len() as int;
    assert(ns2.len() == n + 1);
    assert(ns2[n] == x);
    assert forall|j: int| 0 <= j < n implies ns2[j].id == #[trigger] ns[j].id && ns2[j].parent_id == ns[j].parent_id by {
        if j == p {
        } else {
        }
    }
    assert(ids_distinct(ns2)) by {
        assert forall|a: int, b: int| 0 <= a < b < ns2.len() implies ns2[a].id != ns2[b].id by {
            if b == n {
                assert(ns2[a].id == ns[a].id);
            } else {
                assert(ns2[a].id == ns[a].id);
                assert(ns2[b].id == ns[b].id);
            }
        }
    }
    assert(keeps_links(ns, ns2));
    lemma_pos_of_distinct(ns2, n);
    lemma_pos_of_distinct(ns, p);
    lemma_pos_of_kept(ns, ns2, ns[p].id);
    assert(parent_pos(ns2, n) == p);
    assert(depth_at(ns2, n) == 1 + depth_at(ns2, p)) by {
        assert(0 <= p < n);
    }
    if p == 0 {
        assert(depth_at(ns2, 0) == 0);
        assert(depth_at(ns, 0) == 0);
    } else {
        lemma_depth_kept(ns, ns2, root, p);
    }
    assert forall|i: int| 0 <= i < ns2.len() implies #[trigger] depth_at(ns2, i) <= 255 by {
        if i < n {
            lemma_depth_kept(ns, ns2, root, i);
        }
    }
    assert forall|i: int| 1 <= i < ns2.len() implies #[trigger] ns2[i].parent_id is Some && 0 <= parent_pos(ns2, i) < i by {
        if i < n {
            lemma_depth_kept(ns, ns2, root, i);
        }
    }
    assert forall|i: int| 1 <= i < ns2.len() implies ns2[parent_pos(ns2, i)].children.contains(#[trigger] ns2[i].id) by {
        if i < n {
            lemma_depth_kept(ns, ns2, root, i);
            let q = parent_pos(ns, i);
            assert(ns[q].children.contains(ns[i].id));
            let w = choose|w: int| 0 <= w < ns[q].children.len() && ns[q].children[w] == ns[i].id;
            assert(ns2[q].children[w] == ns[i].id);
        } else {
            assert(ns2[p].children[ns[p].children.len() as int] == x.id);
        }
    }
    assert forall|i: int, k: int|
        0 <= i < ns2.len() && 0 <= k < ns2[i].children.len() implies {
            let c = pos_of(ns2, #[trigger] ns2[i].children[k]);
            &&& i < c < ns2.len()
            &&& ns2[c].parent_id == Some(ns2[i].id)
        } by {
        if i == p && k == ns[p].children.len() {
            assert(ns2[i].children[k] == x.id);
        } else {
            assert(i < n);
            assert(ns2[i].children[k] == ns[i].children[k]);
            let c = pos_of(ns, ns[i].children[k]);
            assert(i < c < n && ns[c].parent_id == Some(ns[i].id));
            lemma_pos_of_kept(ns, ns2, ns[i].children[k]);
            assert(ns2[i].id == ns[i].id);
        }
    }
}

impl PlanDAG {
    /// Adds a new step under the step at `p`.
    fn add_child(&mut self, p: usize, node: PlanNode)
        requires
            old(self).wf(),
            p < old(self).steps().len(),
            depth_at(old(self).steps(), p as int) < 255,
            id_free(old(self).steps(), node@.id),
            node@.parent_id == Some(old(self).steps()[p as int].id),
            node@.children.len() == 0,
        ensures
            final(self).wf(),
            final(self).steps() == with_child(old(self).steps(), p as int, node@),
            final(self).root() == old(self).root(),
            final(self).depth_limit() == old(self).depth_limit(),
            final(self).branching() == old(self).branching(),
            final(self).goal_text() == old(self).goal_text(),
    {
        let ghost ns = self.steps();
        let ghost x = node@;
        proof {
            lemma_wf_with_child(ns, self.root_id, p as int, x);
        }
        let id = node.id;
        self.nodes[p].children.push(id);
        self.nodes.push(node);
        assert(self.steps() =~= with_child(ns, p as int, x));
    }
}

/// The score a step is first given: a cost factor `1 - min(cost, 1)` (at
/// least 0) weighted 0.4, and 0.3 or, with an expected outcome, 0.7,
/// weighted 0.6; in thousandths.
pub open spec fn estimated_score(cost: u32, outcome: Seq<char>) -> u32 {
    let cf: int = 1000 - (if cost < 1000 { cost as int } else { 1000 });
    let ho: int = if outcome.len() == 0 { 300 } else { 700 };
    ((cf * 4 + ho * 6) / 10) as u32
}

/// Scores a new step from its cost and expected outcome.
pub fn estimate_node_score(estimated_cost: u32, expected_outcome: &str) -> (s: u32)
    ensures
        s == estimated_score(estimated_cost, expected_outcome@),
        s <= 1000,
{
    let capped: u32 = if estimated_cost < 1000 { estimated_cost } else { 1000 };
    let cf: u32 = 1000 - capped;
    let ho: u32 = if expected_outcome.is_empty() { 300 } else { 700 };
    (cf * 4 + ho * 6) / 10
}

/// No element occurs twice.
pub open spec fn seq_distinct(v: Seq<u128>) -> bool {
    forall|a: int, b: int| 0 <= a < b < v.len() ==> v[a] != v[b]
}

/// The identifiers of the steps.
pub open spec fn step_ids(ns: Seq<NodeView>) -> Seq<u128> {
    ns.map_values(|n: NodeView| n.id)
}

/// Draws `count` identifiers with `uuid::Uuid::new_v4`; `None` when one of
/// them is already in `taken` or was drawn before, which can only happen
/// when something is drawn.
fn draw_ids(taken: &[u128], count: usize) -> (r: Option<Vec<u128>>)
    ensures
        match r {
            Some(v) => v@.len() == count && seq_distinct(v@) && forall|k: int| 0 <= k < v@.len() ==> !taken@.contains(#[trigger] v@[k]),
            None => count > 0,
        },
{
    let mut v: Vec<u128> = Vec::new();
    let mut k: usize = 0;
    while k < count
        invariant
            k <= count,
            v@.len() == k,
            seq_distinct(v@),
            forall|j: int| 0 <= j < v@.len() ==> !taken@.contains(#[trigger] v@[j]),
        decreases count - k,
    {
        let id = new_uuid();
        let mut t: usize = 0;
        while t < taken.len()
            invariant
                k < count,
                t <= taken@.len(),
                forall|j: int| 0 <= j < t ==> taken@[j] != id,
            decreases taken@.len() - t,
        {
            if taken[t] == id {
                return None;
            }
            t += 1;
        }
        let mut u: usize = 0;
        while u < v.len()
            invariant
                k < count,
                u <= v@.len(),
                forall|j: int| 0 <= j < u ==> v@[j] != id,
            decreases v@.len() - u,
        {
            if v[u] == id {
                return None;
            }
            u += 1;
        }
        v.push(id);
        k += 1;
    }
    Some(v)
}

impl PlanDAG {
    /// The identifiers of the steps, in order.
    fn id_list(&self) -> (v: Vec<u128>)
        ensures
            v@ == step_ids(self.steps()),
    {
        let mut v: Vec<u128> = Vec::new();
        let mut i: usize = 0;
        while i < self.nodes.len()
            invariant
                i <= self.nodes@.len(),
                self.steps().len() == self.nodes@.len(),
                v@ == step_ids(self.steps()).subrange(0, i as int),
            decreases self.nodes@.len() - i,
        {
            assert(self.steps()[i as int] == self.nodes@[i as int]@);
            v.push(self.nodes[i].id);
            assert(v@ =~= step_ids(self.steps()).subrange(0, i + 1));
            i += 1;
        }
        assert(v@ =~= step_ids(self.steps()));
        v
    }
}

proof fn lemma_free_of_ids(ns: Seq<NodeView>, x: u128)
    requires
        !step_ids(ns).contains(x),
    ensures
        id_free(ns, x),
{
    assert forall|i: int| 0 <= i < ns.len() implies ns[i].id != x by {
        assert(step_ids(ns)[i] == ns[i].id);
    }
}

/// The parts joined with a separator between each two (`[&str]::join`).
pub open spec fn joined(parts: Seq<Seq<char>>, sep: Seq<char>) -> Seq<char>
    decreases parts.len(),
{
    if parts.len() == 0 {
        Seq::empty()
    } else if parts.len() == 1 {
        parts[0]
    } else {
        joined(parts.drop_last(), sep) + sep + parts.last()
    }
}

/// The texts as plain values.
pub open spec fn str_views(v: Seq<&str>) -> Seq<Seq<char>> {
    v.map_values(|s: &str| s@)
}

/// Joins texts with a separator.
pub fn join_strs(parts: &[&str], sep: &str) -> (r: String)
    ensures
        r@ == joined(str_views(parts@), sep@),
{
    let mut r = String::new();
    let mut i: usize = 0;
    while i < parts.len()
        invariant
            i <= parts@.len(),
            r@ == joined(str_views(parts@).subrange(0, i as int), sep@),
        decreases parts@.len() - i,
    {
        let ghost prev = str_views(parts@).subrange(0, i as int);
        assert(str_views(parts@).subrange(0, i + 1).drop_last() =~= prev);
        if i > 0 {
            r.append(sep);
        }
        r.append(parts[i]);
        proof {
            if i == 0 {
                assert(r@ =~= str_views(parts@).subrange(0, 1)[0]);
            }
        }
        i += 1;
    }
    assert(str_views(parts@).subrange(0, parts@.len() as int) =~= str_views(parts@));
    r
}

/// The root's thought: the goal, the context and the constraints.
pub open spec fn root_thought(goal: Seq<char>, context: Seq<char>, constraints: Seq<Seq<char>>) -> Seq<char> {
    "Achieve: "@ + goal + " | Context: "@ + context + " | Constraints: "@ + joined(constraints, ", "@)
}

/// The thought of the `k`-th first step (from 0).
pub open spec fn step_thought(goal: Seq<char>, k: int) -> Seq<char> {
    "Step "@ + decimal((k + 1) as nat) + ": approach "@ + decimal((k + 1) as nat) + " for '"@ + goal + "'"@
}

/// The expected outcome of a first step.
pub open spec fn step_outcome(goal: Seq<char>) -> Seq<char> {
    "Partial completion of '"@ + goal + "'"@
}

/// The score the root starts with.
pub const ROOT_SCORE: u32 = 800;

/// The `k`-th first step of a new plan (from 0): cost `0.1 * (k + 1)`.
pub open spec fn first_step(goal: Seq<char>, root_id: u128, id: u128, k: int) -> NodeView {
    let cost = (100 * (k + 1)) as u32;
    fresh_step(id, Some(root_id), step_thought(goal, k), cost, step_outcome(goal), estimated_score(cost, step_outcome(goal)))
}

/// The steps of a new plan: the root, whose children are the first steps,
/// then the first steps.
pub open spec fn planned_steps(
    goal: Seq<char>,
    context: Seq<char>,
    constraints: Seq<Seq<char>>,
    root_id: u128,
    ids: Seq<u128>,
) -> Seq<NodeView> {
    let root = with_children(
        fresh_step(root_id, None, root_thought(goal, context, constraints), 0, goal, ROOT_SCORE),
        ids,
    );
    seq![root] + Seq::new(ids.len(), |k: int| first_step(goal, root_id, ids[k], k))
}

/// The approval policy of a planner: plans scoring above a threshold (in
/// thousandths) pass without a person, unless one of their actions writes or
/// deletes files, or reaches the network, where the policy asks for that.
#[derive(Debug, Clone, Copy)]
pub struct PlanApprovalPolicy {
    pub auto_approve_if_score_above: u32,
    pub require_approval_for_file_writes: bool,
    pub require_approval_for_network: bool,
}

impl PlanApprovalPolicy {
    /// Approve above 0.85; ask for file writes, not for network access.
    pub fn default() -> (p: PlanApprovalPolicy)
        ensures
            p.auto_approve_if_score_above == 850,
            p.require_approval_for_file_writes,
            !p.require_approval_for_network,
    {
        PlanApprovalPolicy {
            auto_approve_if_score_above: 850,
            require_approval_for_file_writes: true,
            require_approval_for_network: false,
        }
    }
}

/// Builds, grows, prunes and approves plans.
pub struct PlanningEngine {
    pub approval_policy: PlanApprovalPolicy,
}

impl PlanningEngine {
    /// A planner with the given approval policy.
    pub fn new(approval_policy: PlanApprovalPolicy) -> (e: PlanningEngine)
        ensures
            e.approval_policy == approval_policy,
    {
        PlanningEngine { approval_policy }
    }

    /// A new plan for a goal with the given identifiers: the root and
    /// `branching_factor` first steps under it.
    pub fn create_plan_with_ids(
        &self,
        goal: &str,
        context: &str,
        constraints: &[&str],
        max_depth: u8,
        branching_factor: u8,
        root_id: u128,
        ids: &[u128],
    ) -> (dag: PlanDAG)
        requires
            ids@.len() == branching_factor,
            seq_distinct(ids@),
            !ids@.contains(root_id),
        ensures
            dag.wf(),
            dag.steps() == planned_steps(goal@, context@, str_views(constraints@), root_id, ids@),
            dag.root() == root_id,
            dag.depth_limit() == max_depth,
            dag.branching() == branching_factor,
            dag.goal_text() == goal@,
    {
        let mut thought = String::from_str("Achieve: ");
        thought.append(goal);
        thought.append(" | Context: ");
        thought.append(context);
        thought.append(" | Constraints: ");
        thought.append(join_strs(constraints, ", ").as_str());
        let root = PlanNode::with_id(root_id, None, thought.as_str(), goal, 0, ROOT_SCORE);
        let mut nodes: Vec<PlanNode> = Vec::new();
        nodes.push(root);
        let mut dag = PlanDAG {
            nodes,
            root_id,
            max_depth,
            branching_factor,
            goal: String::from_str(goal),
        };
        let ghost target = planned_steps(goal@, context@, str_views(constraints@), root_id, ids@);
        let ghost root_view = dag.steps()[0];
        assert(root_view == fresh_step(root_id, None, root_thought(goal@, context@, str_views(constraints@)), 0, goal@, ROOT_SCORE));
        assert(ids@.subrange(0, 0) =~= Seq::<u128>::empty());
        assert(with_children(root_view, ids@.subrange(0, 0)) == root_view);
        assert(dag.steps() =~= seq![with_children(root_view, ids@.subrange(0, 0))] + Seq::new(
            0,
            |j: int| first_step(goal@, root_id, ids@[j], j),
        ));
        proof {
            let ns = dag.steps();
            assert(ns.len() == 1);
            assert(ids_distinct(ns));
            assert(depth_at(ns, 0) == 0);
            assert(plan_wf(ns, root_id));
        }
        let mut outcome = String::from_str("Partial completion of '");
        outcome.append(goal);
        outcome.append("'");
        let mut k: usize = 0;
        while k < branching_factor as usize
            invariant
                dag.wf(),
                dag.root() == root_id,
                dag.depth_limit() == max_depth,
                dag.branching() == branching_factor,
                dag.goal_text() == goal@,
                k <= branching_factor,
                ids@.len() == branching_factor,
                seq_distinct(ids@),
                !ids@.contains(root_id),
                outcome@ == step_outcome(goal@),
                target == planned_steps(goal@, context@, str_views(constraints@), root_id, ids@),
                root_view == fresh_step(root_id, None, root_thought(goal@, context@, str_views(constraints@)), 0, goal@, ROOT_SCORE),
                dag.steps() == seq![with_children(root_view, ids@.subrange(0, k as int))] + Seq::new(
                    k as nat,
                    |j: int| first_step(goal@, root_id, ids@[j], j),
                ),
            decreases branching_factor - k,
        {
            let ghost ns = dag.steps();
            let n: u64 = k as u64 + 1;
            let mut t = String::from_str("Step ");
            t.append(u64_to_decimal(n).as_str());
            t.append(": approach ");
            t.append(u64_to_decimal(n).as_str());
            t.append(" for '");
            t.append(goal);
            t.append("'");
            let cost: u32 = 100 * (k as u32 + 1);
            let score = estimate_node_score(cost, outcome.as_str());
            let node = PlanNode::with_id(ids[k], Some(root_id), t.as_str(), outcome.as_str(), cost, score);
            proof {
                assert forall|i: int| 0 <= i < ns.len() implies ns[i].id != ids@[k as int] by {
                    if i == 0 {
                        assert(ids@.contains(ids@[k as int]));
                    } else {
                        assert(ns[i].id == ids@[i - 1]);
                    }
                }
                assert(node@ == first_step(goal@, root_id, ids@[k as int], k as int));
            }
            dag.add_child(0, node);
            assert(ids@.subrange(0, k as int).push(ids@[k as int]) =~= ids@.subrange(0, k + 1));
            assert(dag.steps()[0] == with_children(root_view, ids@.subrange(0, k + 1)));
            assert(dag.steps() =~= seq![with_children(root_view, ids@.subrange(0, k + 1))] + Seq::new(
                (k + 1) as nat,
                |j: int| first_step(goal@, root_id, ids@[j], j),
            ));
            k += 1;
        }
        assert(ids@.subrange(0, branching_factor as int) =~= ids@);
        assert(dag.steps() =~= target);
        dag
    }

    /// A new plan for a goal: a root and `branching_factor` first steps
    /// under it, with fresh random identifiers (an error, should a drawn
    /// identifier repeat).
    pub fn create_plan(
        &self,
        goal: &str,
        context: &str,
        constraints: &[&str],
        max_depth: u8,
        branching_factor: u8,
    ) -> (r: Result<PlanDAG, PlannerError>)
        ensures
            match r {
                Ok(dag) => dag.wf() && dag.steps() == planned_steps(
                    goal@,
                    context@,
                    str_views(constraints@),
                    dag.root(),
                    step_ids(dag.steps()).subrange(1, dag.steps().len() as int),
                ) && dag.steps().len() == branching_factor + 1 && dag.depth_limit() == max_depth
                    && dag.branching() == branching_factor && dag.goal_text() == goal@,
                Err(e) => e is IdCollision,
            },
    {
        let none: Vec<u128> = Vec::new();
        let drawn = match draw_ids(none.as_slice(), branching_factor as usize + 1) {
            Some(v) => v,
            None => return Err(PlannerError::IdCollision),
        };
        let root_id = drawn[0];
        let mut rest: Vec<u128> = Vec::new();
        let mut k: usize = 1;
        while k < drawn.len()
            invariant
                1 <= k <= drawn@.len(),
                drawn@.len() == branching_factor + 1,
                root_id == drawn@[0],
                rest@ == drawn@.subrange(1, k as int),
            decreases drawn@.len() - k,
        {
            rest.push(drawn[k]);
            assert(rest@ =~= drawn@.subrange(1, k + 1));
            k += 1;
        }
        proof {
            assert forall|a: int, b: int| 0 <= a < b < rest@.len() implies rest@[a] != rest@[b] by {
                assert(rest@[a] == drawn@[a + 1] && rest@[b] == drawn@[b + 1]);
            }
            if rest@.contains(root_id) {
                let j = choose|j: int| 0 <= j < rest@.len() && rest@[j] == root_id;
                assert(rest@[j] == drawn@[j + 1]);
            }
        }
        let dag = self.create_plan_with_ids(goal, context, constraints, max_depth, branching_factor, root_id, rest.as_slice());
        proof {
            let ns = dag.steps();
            assert(step_ids(ns).subrange(1, ns.len() as int) =~= rest@);
        }
        Ok(dag)
    }
}

/// The `k`-th alternative (from 0) added under a step: cost `0.1 * (k + 1)`.
pub open spec fn alternative(parent: NodeView, id: u128, k: int) -> NodeView {
    let cost = (100 * (k + 1)) as u32;
    let outcome = "Expected outcome of alternative "@ + decimal((k + 1) as nat);
    fresh_step(
        id,
        Some(parent.id),
        "Alternative "@ + decimal((k + 1) as nat) + " for: "@ + parent.thought,
        cost,
        outcome,
        estimated_score(cost, outcome),
    )
}

/// The alternatives added under a step, with the given identifiers.
pub open spec fn alternatives_of(parent: NodeView, ids: Seq<u128>) -> Seq<NodeView> {
    Seq::new(ids.len(), |k: int| alternative(parent, ids[k], k))
}

/// The steps after new steps `xs` are added under the step at `p`.
pub open spec fn expanded(ns: Seq<NodeView>, p: int, xs: Seq<NodeView>) -> Seq<NodeView> {
    ns.update(p, with_children(ns[p], ns[p].children + xs.map_values(|x: NodeView| x.id))) + xs
}

/// The depth of the step with this identifier (0 for a step the plan lacks).
pub open spec fn depth_in(ns: Seq<NodeView>, id: u128) -> nat {
    if pos_of(ns, id) == -1 {
        0
    } else {
        depth_at(ns, pos_of(ns, id))
    }
}

proof fn lemma_expanded_push(ns: Seq<NodeView>, p: int, xs: Seq<NodeView>, x: NodeView)
    requires
        0 <= p < ns.len(),
    ensures
        with_child(expanded(ns, p, xs), p, x) == expanded(ns, p, xs.push(x)),
{
    let cur = expanded(ns, p, xs);
    assert((ns[p].children + xs.map_values(|y: NodeView| y.id)).push(x.id) =~= ns[p].children + xs.push(x).map_values(
        |y: NodeView| y.id,
    ));
    assert(with_child(cur, p, x) =~= expanded(ns, p, xs.push(x)));
}

impl PlanningEngine {
    /// Adds `alternatives` new steps under a step, with the given
    /// identifiers; refused for a step at the depth limit or deeper, or one
    /// the plan does not have.
    pub fn expand_node_with_ids(
        &self,
        dag: &mut PlanDAG,
        node_id: u128,
        alternatives: u8,
        ids: &[u128],
    ) -> (r: Result<Vec<u128>, PlannerError>)
        requires
            old(dag).wf(),
            ids@.len() == alternatives,
            seq_distinct(ids@),
            forall|k: int| 0 <= k < ids@.len() ==> id_free(old(dag).steps(), #[trigger] ids@[k]),
        ensures
            final(dag).wf(),
            final(dag).root() == old(dag).root(),
            final(dag).depth_limit() == old(dag).depth_limit(),
            final(dag).branching() == old(dag).branching(),
            final(dag).goal_text() == old(dag).goal_text(),
            depth_in(old(dag).steps(), node_id) >= old(dag).depth_limit() ==> r == Err::<Vec<u128>, PlannerError>(
                PlannerError::MaxDepthExceeded,
            ) && final(dag).steps() == old(dag).steps(),
            depth_in(old(dag).steps(), node_id) < old(dag).depth_limit() && pos_of(old(dag).steps(), node_id) == -1
                ==> r == Err::<Vec<u128>, PlannerError>(PlannerError::NodeNotFound(node_id))
                && final(dag).steps() == old(dag).steps(),
            depth_in(old(dag).steps(), node_id) < old(dag).depth_limit() && pos_of(old(dag).steps(), node_id) != -1
                ==> r is Ok && r->Ok_0@ == ids@ && final(dag).steps() == expanded(
                old(dag).steps(),
                pos_of(old(dag).steps(), node_id),
                alternatives_of(old(dag).steps()[pos_of(old(dag).steps(), node_id)], ids@),
            ),
    {
        let ghost ns = dag.steps();
        let depth = dag.depth_of(node_id);
        if depth >= dag.max_depth {
            return Err(PlannerError::MaxDepthExceeded);
        }
        let p = match dag.position(node_id) {
            Some(p) => p,
            None => return Err(PlannerError::NodeNotFound(node_id)),
        };
        assert(ns[p as int] == dag.nodes@[p as int]@);
        let parent_thought = String::from_str(dag.nodes[p].thought.as_str());
        let ghost parent = ns[p as int];
        let mut new_ids: Vec<u128> = Vec::new();
        let mut k: usize = 0;
        assert(expanded(ns, p as int, alternatives_of(parent, ids@.subrange(0, 0))) =~= ns);
        while k < alternatives as usize
            invariant
                dag.wf(),
                dag.root() == old(dag).root(),
                dag.depth_limit() == old(dag).depth_limit(),
                dag.branching() == old(dag).branching(),
                dag.goal_text() == old(dag).goal_text(),
                ns == old(dag).steps(),
                plan_wf(ns, dag.root()),
                p < ns.len(),
                parent == ns[p as int],
                parent.id == node_id,
                parent_thought@ == parent.thought,
                depth_at(ns, p as int) < 255,
                k <= alternatives,
                ids@.len() == alternatives,
                seq_distinct(ids@),
                forall|j: int| 0 <= j < ids@.len() ==> id_free(ns, #[trigger] ids@[j]),
                new_ids@ == ids@.subrange(0, k as int),
                dag.steps() == expanded(ns, p as int, alternatives_of(parent, ids@.subrange(0, k as int))),
            decreases alternatives - k,
        {
            let ghost cur = dag.steps();
            let ghost xs = alternatives_of(parent, ids@.subrange(0, k as int));
            let n: u64 = k as u64 + 1;
            let mut t = String::from_str("Alternative ");
            t.append(u64_to_decimal(n).as_str());
            t.append(" for: ");
            t.append(parent_thought.as_str());
            let mut outcome = String::from_str("Expected outcome of alternative ");
            outcome.append(u64_to_decimal(n).as_str());
            let cost: u32 = 100 * (k as u32 + 1);
            let score = estimate_node_score(cost, outcome.as_str());
            let node = PlanNode::with_id(ids[k], Some(node_id), t.as_str(), outcome.as_str(), cost, score);
            proof {
                let x = node@;
                assert(x == alternative(parent, ids@[k as int], k as int));
                assert forall|i: int| 0 <= i < cur.len() implies cur[i].id != x.id by {
                    if i < ns.len() {
                        assert(cur[i].id == ns[i].id);
                    } else {
                        let j = i - ns.len();
                        assert(cur[i] == xs[j]);
                        assert(xs[j].id == ids@[j]);
                    }
                }
                assert(keeps_links(ns, cur)) by {
                    assert forall|j: int| 0 <= j < ns.len() implies cur[j].id == #[trigger] ns[j].id
                        && cur[j].parent_id == ns[j].parent_id by {
                    }
                }
                lemma_depth_kept(ns, cur, dag.root(), p as int);
                assert(cur[p as int].id == node_id);
                lemma_expanded_push(ns, p as int, xs, x);
                assert(xs.push(x) =~= alternatives_of(parent, ids@.subrange(0, k + 1)));
            }
            dag.add_child(p, node);
            new_ids.push(ids[k]);
            assert(new_ids@ =~= ids@.subrange(0, k + 1));
            k += 1;
        }
        assert(ids@.subrange(0, alternatives as int) =~= ids@);
        Ok(new_ids)
    }

    /// Adds `alternatives` new steps under a step, with fresh random
    /// identifiers; refused for a step at the depth limit or deeper, or one
    /// the plan does not have (and an error, with the plan unchanged, should
    /// a drawn identifier repeat).
    pub fn expand_node(&self, dag: &mut PlanDAG, node_id: u128, alternatives: u8) -> (r: Result<Vec<u128>, PlannerError>)
        requires
            old(dag).wf(),
        ensures
            final(dag).wf(),
            final(dag).root() == old(dag).root(),
            final(dag).depth_limit() == old(dag).depth_limit(),
            depth_in(old(dag).steps(), node_id) >= old(dag).depth_limit() ==> r == Err::<Vec<u128>, PlannerError>(
                PlannerError::MaxDepthExceeded,
            ) && final(dag).steps() == old(dag).steps(),
            depth_in(old(dag).steps(), node_id) < old(dag).depth_limit() && pos_of(old(dag).steps(), node_id) == -1
                ==> r == Err::<Vec<u128>, PlannerError>(PlannerError::NodeNotFound(node_id))
                && final(dag).steps() == old(dag).steps(),
            depth_in(old(dag).steps(), node_id) < old(dag).depth_limit() && pos_of(old(dag).steps(), node_id) != -1
                ==> match r {
                Ok(v) => v@.len() == alternatives && final(dag).steps() == expanded(
                    old(dag).steps(),
                    pos_of(old(dag).steps(), node_id),
                    alternatives_of(old(dag).steps()[pos_of(old(dag).steps(), node_id)], v@),
                ),
                Err(e) => e is IdCollision && alternatives > 0 && final(dag).steps() == old(dag).steps(),
            },
    {
        let depth = dag.depth_of(node_id);
        if depth >= dag.max_depth {
            return Err(PlannerError::MaxDepthExceeded);
        }
        if dag.position(node_id).is_none() {
            return Err(PlannerError::NodeNotFound(node_id));
        }
        let taken = dag.id_list();
        let ids = match draw_ids(taken.as_slice(), alternatives as usize) {
            Some(v) => v,
            None => return Err(PlannerError::IdCollision),
        };
        proof {
            assert forall|k: int| 0 <= k < ids@.len() implies id_free(dag.steps(), #[trigger] ids@[k]) by {
                lemma_free_of_ids(dag.steps(), ids@[k]);
            }
        }
        self.expand_node_with_ids(dag, node_id, alternatives, ids.as_slice())
    }
}

/// Step `j` is step `f` or lies under it.
pub open spec fn is_descendant(ns: Seq<NodeView>, j: int, f: int) -> bool
    decreases j,
{
    if j == f {
        true
    } else if j <= 0 || j >= ns.len() {
        false
    } else {
        let q = parent_pos(ns, j);
        if 0 <= q < j {
            is_descendant(ns, q, f)
        } else {
            false
        }
    }
}

/// The steps with those under step `f`, and `f` itself, pruned.
pub open spec fn pruned_subtree(ns: Seq<NodeView>, f: int) -> Seq<NodeView> {
    Seq::new(ns.len(), |j: int| if is_descendant(ns, j, f) { with_status(ns[j], StatusView::Pruned) } else { ns[j] })
}

/// The step that a recovery for a failed step is added under: the failed
/// step's parent, or the root when the root failed.
pub open spec fn recovery_parent(ns: Seq<NodeView>, f: int) -> int {
    if f == 0 {
        0
    } else {
        parent_pos(ns, f)
    }
}

/// The score a recovery step is given.
pub const RECOVERY_SCORE: u32 = 600;

/// The recovery step added after a failure.
pub open spec fn recovery_step(parent: NodeView, id: u128, error: Seq<char>) -> NodeView {
    fresh_step(
        id,
        Some(parent.id),
        "Recovery from failure '"@ + error + "': retry with fallback approach"@,
        500,
        "Recover from previous error and complete the task"@,
        RECOVERY_SCORE,
    )
}

/// Step `j` is pruned for a threshold: it is not the root, it is pending,
/// and it scores below the threshold.
pub open spec fn prunable(ns: Seq<NodeView>, j: int, threshold: u32) -> bool {
    j != 0 && ns[j].status is Pending && ns[j].score < threshold
}

/// How many of the first `n` steps are pruned for a threshold.
pub open spec fn count_prunable(ns: Seq<NodeView>, threshold: u32, n: int) -> nat
    decreases n,
{
    if n <= 0 {
        0
    } else {
        count_prunable(ns, threshold, n - 1) + if prunable(ns, n - 1, threshold) { 1nat } else { 0nat }
    }
}

/// Whether an action needs a person's approval under a policy: it asks for
/// it, or it writes or deletes files, or it reaches the network, where the
/// policy asks for approval of those.
pub open spec fn action_needs_approval(policy: PlanApprovalPolicy, a: Option<ActionView>) -> bool {
    match a {
        Some(a) => a.requires_approval || (policy.require_approval_for_file_writes && (contains_seq(
            a.tool_name,
            "write"@,
        ) || contains_seq(a.tool_name, "delete"@))) || (policy.require_approval_for_network && (contains_seq(
            a.tool_name,
            "http"@,
        ) || contains_seq(a.tool_name, "request"@))),
        None => false,
    }
}

/// The sum of the scores of the first `n` steps.
pub open spec fn score_sum(ns: Seq<NodeView>, n: int) -> nat
    decreases n,
{
    if n <= 0 {
        0
    } else {
        score_sum(ns, n - 1) + ns[n - 1].score as nat
    }
}

/// The mean score lies below the threshold (an empty plan's mean is 0).
pub open spec fn mean_score_below(ns: Seq<NodeView>, threshold: u32) -> bool {
    if ns.len() == 0 {
        0 < threshold
    } else {
        score_sum(ns, ns.len() as int) < threshold * ns.len()
    }
}

/// A plan needs a person's approval when one of its actions does, or when
/// its mean score is below the policy's threshold.
pub open spec fn plan_needs_approval(policy: PlanApprovalPolicy, ns: Seq<NodeView>) -> bool {
    (exists|j: int| 0 <= j < ns.len() && action_needs_approval(policy, #[trigger] ns[j].action))
        || mean_score_below(ns, policy.auto_approve_if_score_above)
}

proof fn lemma_descendant_of_parent(ns: Seq<NodeView>, root: u128, j: int, f: int)
    requires
        plan_wf(ns, root),
        1 <= j < ns.len(),
        j != f,
    ensures
        is_descendant(ns, j, f) == is_descendant(ns, parent_pos(ns, j), f),
{
    assert(0 <= parent_pos(ns, j) < j);
}


/// The steps with those marked pruned.
pub open spec fn pruned_where(ns: Seq<NodeView>, marks: Seq<bool>) -> Seq<NodeView> {
    Seq::new(ns.len(), |j: int| if marks[j] { with_status(ns[j], StatusView::Pruned) } else { ns[j] })
}

impl PlanDAG {
    /// Marks pruned the steps whose mark is set.
    fn prune_marked(&mut self, marks: &Vec<bool>)
        requires
            old(self).wf(),
            marks@.len() == old(self).steps().len(),
        ensures
            final(self).wf(),
            final(self).steps() == pruned_where(old(self).steps(), marks@),
            final(self).root() == old(self).root(),
            final(self).depth_limit() == old(self).depth_limit(),
            final(self).branching() == old(self).branching(),
            final(self).goal_text() == old(self).goal_text(),
    {
        let ghost ns = self.steps();
        let ghost root = self.root();
        let n = self.nodes.len();
        let mut t: usize = 0;
        while t < n
            invariant
                self.wf(),
                self.root() == root,
                self.depth_limit() == old(self).depth_limit(),
                self.branching() == old(self).branching(),
                self.goal_text() == old(self).goal_text(),
                ns == old(self).steps(),
                n == ns.len(),
                n == self.nodes@.len(),
                marks@.len() == n,
                t <= n,
                self.steps().len() == n,
                forall|u: int| 0 <= u < t ==> self.steps()[u] == pruned_where(ns, marks@)[u],
                forall|u: int| t <= u < n ==> self.steps()[u] == ns[u],
            decreases n - t,
        {
            if marks[t] {
                let ghost before = self.steps();
                proof {
                    lemma_wf_same_links(
                        before,
                        before.update(t as int, with_status(before[t as int], StatusView::Pruned)),
                        root,
                    );
                }
                self.nodes[t].status = PlanNodeStatus::Pruned;
                assert(self.steps() =~= before.update(t as int, with_status(before[t as int], StatusView::Pruned)));
            }
            t += 1;
        }
        assert(self.steps() =~= pruned_where(ns, marks@));
    }

    /// Marks the step at `f` and every step under it.
    fn subtree_marks(&self, f: usize) -> (marks: Vec<bool>)
        requires
            self.wf(),
            f < self.steps().len(),
        ensures
            marks@.len() == self.steps().len(),
            forall|t: int| 0 <= t < marks@.len() ==> marks@[t] == is_descendant(self.steps(), t, f as int),
    {
        let ghost ns = self.steps();
        let n = self.nodes.len();
        let mut inside: Vec<bool> = Vec::new();
        let mut j: usize = 0;
        while j < n
            invariant
                ns == self.steps(),
                self.wf(),
                n == ns.len(),
                n == self.nodes@.len(),
                f < n,
                j <= n,
                inside@.len() == j,
                forall|t: int| 0 <= t < j ==> inside@[t] == is_descendant(ns, t, f as int),
            decreases n - j,
        {
            let v: bool = if j == f {
                true
            } else if j == 0 {
                false
            } else {
                assert(ns[j as int] == self.nodes@[j as int]@);
                assert(ns[j as int].parent_id is Some && 0 <= parent_pos(ns, j as int) < j);
                proof {
                    lemma_descendant_of_parent(ns, self.root(), j as int, f as int);
                }
                match self.nodes[j].parent_id {
                    Some(pid) => match self.position(pid) {
                        Some(q) => inside[q],
                        None => false,
                    },
                    None => false,
                }
            };
            inside.push(v);
            j += 1;
        }
        inside
    }
}

impl PlanningEngine {
    /// Prunes a failed step and all the steps under it, and adds a recovery
    /// step, with the given identifier, under the failed step's parent (under
    /// the root, when the root failed); refused, with nothing changed, for a
    /// step the plan does not have.
    #[verifier::rlimit(30)]
    pub fn replan_on_failure_with_id(
        &self,
        dag: &mut PlanDAG,
        failed_node_id: u128,
        error: &str,
        new_id: u128,
    ) -> (r: Result<Vec<u128>, PlannerError>)
        requires
            old(dag).wf(),
            id_free(old(dag).steps(), new_id),
        ensures
            final(dag).wf(),
            final(dag).root() == old(dag).root(),
            final(dag).depth_limit() == old(dag).depth_limit(),
            final(dag).branching() == old(dag).branching(),
            final(dag).goal_text() == old(dag).goal_text(),
            pos_of(old(dag).steps(), failed_node_id) == -1 ==> r == Err::<Vec<u128>, PlannerError>(
                PlannerError::NodeNotFound(failed_node_id),
            ) && final(dag).steps() == old(dag).steps(),
            pos_of(old(dag).steps(), failed_node_id) != -1 ==> {
                let ns = old(dag).steps();
                let f = pos_of(ns, failed_node_id);
                let pruned = pruned_subtree(ns, f);
                let q = recovery_parent(ns, f);
                &&& r is Ok
                &&& r->Ok_0@ == seq![new_id]
                &&& final(dag).steps() == with_child(pruned, q, recovery_step(ns[q], new_id, error@))
            },
    {
        let ghost ns = dag.steps();
        let ghost root = dag.root();
        let f = match dag.position(failed_node_id) {
            Some(f) => f,
            None => return Err(PlannerError::NodeNotFound(failed_node_id)),
        };
        let marks = dag.subtree_marks(f);
        dag.prune_marked(&marks);
        let ghost pruned = pruned_subtree(ns, f as int);
        assert(dag.steps() =~= pruned);
        assert(ns[f as int] == old(dag).nodes@[f as int]@);
        assert(dag.nodes@[f as int]@ == pruned[f as int]);
        let q: usize = if f == 0 {
            0
        } else {
            assert(ns[f as int].parent_id is Some && 0 <= parent_pos(ns, f as int) < f);
            match dag.nodes[f].parent_id {
                Some(pid) => match dag.position(pid) {
                    Some(q) => q,
                    None => 0,
                },
                None => 0,
            }
        };
        assert(q as int == recovery_parent(ns, f as int));
        proof {
            assert(keeps_links(ns, pruned));
            lemma_depth_kept(ns, pruned, root, q as int);
            if f > 0 {
                assert(depth_at(ns, f as int) == 1 + depth_at(ns, q as int));
            }
            assert(depth_at(ns, f as int) <= 255);
            assert forall|i: int| 0 <= i < pruned.len() implies pruned[i].id != new_id by {
                assert(pruned[i].id == ns[i].id);
            }
        }
        assert(dag.nodes@[q as int]@ == pruned[q as int]);
        let mut thought = String::from_str("Recovery from failure '");
        thought.append(error);
        thought.append("': retry with fallback approach");
        let parent_id = dag.nodes[q].id;
        let node = PlanNode::with_id(
            new_id,
            Some(parent_id),
            thought.as_str(),
            "Recover from previous error and complete the task",
            500,
            RECOVERY_SCORE,
        );
        assert(node@ == recovery_step(ns[q as int], new_id, error@));
        dag.add_child(q, node);
        let mut r: Vec<u128> = Vec::new();
        r.push(new_id);
        assert(r@ =~= seq![new_id]);
        Ok(r)
    }

    /// Prunes a failed step and all the steps under it, and adds a recovery
    /// step with a fresh random identifier (an error, with the plan
    /// unchanged, should the drawn identifier be taken).
    pub fn replan_on_failure(&self, dag: &mut PlanDAG, failed_node_id: u128, error: &str) -> (r: Result<
        Vec<u128>,
        PlannerError,
    >)
        requires
            old(dag).wf(),
        ensures
            final(dag).wf(),
            final(dag).root() == old(dag).root(),
            final(dag).depth_limit() == old(dag).depth_limit(),
            pos_of(old(dag).steps(), failed_node_id) == -1 ==> r == Err::<Vec<u128>, PlannerError>(
                PlannerError::NodeNotFound(failed_node_id),
            ) && final(dag).steps() == old(dag).steps(),
            pos_of(old(dag).steps(), failed_node_id) != -1 ==> match r {
                Ok(v) => {
                    let ns = old(dag).steps();
                    let f = pos_of(ns, failed_node_id);
                    let q = recovery_parent(ns, f);
                    &&& v@.len() == 1
                    &&& final(dag).steps() == with_child(pruned_subtree(ns, f), q, recovery_step(ns[q], v@[0], error@))
                },
                Err(e) => e is IdCollision && final(dag).steps() == old(dag).steps(),
            },
    {
        if dag.position(failed_node_id).is_none() {
            return Err(PlannerError::NodeNotFound(failed_node_id));
        }
        let taken = dag.id_list();
        let ids = match draw_ids(taken.as_slice(), 1) {
            Some(v) => v,
            None => return Err(PlannerError::IdCollision),
        };
        let new_id = ids[0];
        proof {
            lemma_free_of_ids(dag.steps(), new_id);
        }
        self.replan_on_failure_with_id(dag, failed_node_id, error, new_id)
    }

    /// Prunes every pending step other than the root whose score is below
    /// the threshold (in thousandths); answers how many were pruned.
    pub fn prune_unlikely(&self, dag: &mut PlanDAG, threshold: u32) -> (count: usize)
        requires
            old(dag).wf(),
        ensures
            final(dag).wf(),
            final(dag).root() == old(dag).root(),
            final(dag).depth_limit() == old(dag).depth_limit(),
            final(dag).branching() == old(dag).branching(),
            final(dag).goal_text() == old(dag).goal_text(),
            final(dag).steps() == Seq::new(
                old(dag).steps().len(),
                |j: int| if prunable(old(dag).steps(), j, threshold) {
                    with_status(old(dag).steps()[j], StatusView::Pruned)
                } else {
                    old(dag).steps()[j]
                },
            ),
            count == count_prunable(old(dag).steps(), threshold, old(dag).steps().len() as int),
    {
        let ghost ns = dag.steps();
        let ghost root = dag.root();
        let ghost target = Seq::new(
            ns.len(),
            |j: int| if prunable(ns, j, threshold) { with_status(ns[j], StatusView::Pruned) } else { ns[j] },
        );
        let n = dag.nodes.len();
        let mut count: usize = 0;
        let mut marks: Vec<bool> = Vec::new();
        let mut t: usize = 0;
        while t < n
            invariant
                ns == dag.steps(),
                n == ns.len(),
                n == dag.nodes@.len(),
                t <= n,
                marks@.len() == t,
                forall|u: int| 0 <= u < t ==> marks@[u] == prunable(ns, u, threshold),
                count == count_prunable(ns, threshold, t as int),
                count <= t,
            decreases n - t,
        {
            assert(ns[t as int] == dag.nodes@[t as int]@);
            let m = t != 0 && dag.nodes[t].status.is_pending() && dag.nodes[t].score < threshold;
            if m {
                count += 1;
            }
            marks.push(m);
            t += 1;
        }
        dag.prune_marked(&marks);
        assert(dag.steps() =~= target);
        count
    }

    /// Whether a plan needs a person's approval: one of its actions asks for
    /// it, or writes or deletes files, or reaches the network, where the
    /// policy asks for approval of those; or its mean score is below the
    /// policy's threshold.
    pub fn approve_plan(&self, dag: &PlanDAG) -> (b: bool)
        ensures
            b == plan_needs_approval(self.approval_policy, dag.steps()),
    {
        let ghost ns = dag.steps();
        let policy = self.approval_policy;
        let n = dag.nodes.len();
        let mut needs = false;
        let mut sum: u128 = 0;
        let mut j: usize = 0;
        while j < n
            invariant
                ns == dag.steps(),
                n == ns.len(),
                n == dag.nodes@.len(),
                policy == self.approval_policy,
                j <= n,
                sum == score_sum(ns, j as int),
                sum <= j * 0x1_0000_0000,
                needs == exists|t: int| 0 <= t < j && action_needs_approval(policy, #[trigger] ns[t].action),
            decreases n - j,
        {
            assert(ns[j as int] == dag.nodes@[j as int]@);
            let this_one = match &dag.nodes[j].action {
                Some(a) => {
                    let name = a.tool_name.as_str();
                    a.requires_approval || (policy.require_approval_for_file_writes && (str_contains(name, "write")
                        || str_contains(name, "delete"))) || (policy.require_approval_for_network && (str_contains(
                        name,
                        "http",
                    ) || str_contains(name, "request")))
                },
                None => false,
            };
            assert(this_one == action_needs_approval(policy, ns[j as int].action));
            needs = needs || this_one;
            sum = sum + dag.nodes[j].score as u128;
            j += 1;
        }
        let below = if n == 0 {
            0 < policy.auto_approve_if_score_above
        } else {
            let a = policy.auto_approve_if_score_above as u128;
            let m = n as u128;
            assert(a * m < 0x1_0000_0000_0000_0000_0000_0000) by (nonlinear_arith)
                requires
                    a < 0x1_0000_0000,
                    m < 0x1_0000_0000_0000_0000,
            ;
            sum < (policy.auto_approve_if_score_above as u128) * (n as u128)
        };
        needs || below
    }
}

/// `serde_json::Value::Null`.
#[verifier::external_body]
fn json_null() -> (v: serde_json::Value) {
    serde_json::Value::Null
}

impl PlanDAG {
    /// Gives the step at `p` another status.
    fn set_status(&mut self, p: usize, status: PlanNodeStatus)
        requires
            old(self).wf(),
            p < old(self).steps().len(),
        ensures
            final(self).wf(),
            final(self).steps() == old(self).steps().update(p as int, with_status(old(self).steps()[p as int], status@)),
            final(self).root() == old(self).root(),
            final(self).depth_limit() == old(self).depth_limit(),
            final(self).branching() == old(self).branching(),
            final(self).goal_text() == old(self).goal_text(),
    {
        let ghost before = self.steps();
        let ghost st = status@;
        proof {
            lemma_wf_same_links(before, before.update(p as int, with_status(before[p as int], st)), self.root());
        }
        self.nodes[p].status = status;
        assert(self.steps() =~= before.update(p as int, with_status(before[p as int], st)));
    }
}

/// What a run of a plan does next.
#[derive(Debug)]
pub enum RunStep {
    /// Run this step's action, then report what it gave.
    Run(u128, Action),
    /// The step was passed: it was pruned, or it had no action and is done.
    Passed,
    /// The order named a step the plan does not have.
    Missing(u128),
    /// Every step has had its turn: the result of the last action that ran
    /// (none, when no action ran).
    Finished(Option<serde_json::Value>),
}

/// A run of a plan's steps in execution order, one step at a time; the
/// actions themselves are run by the caller.
pub struct PlanRun {
    order: Vec<u128>,
    next: usize,
    last_result: Option<serde_json::Value>,
}

impl PlanRun {
    /// The steps in the order they run.
    pub closed spec fn order(&self) -> Seq<u128> {
        self.order@
    }

    /// How many steps have had their turn.
    pub closed spec fn done(&self) -> nat {
        self.next as nat
    }

    /// The result of the last action that ran.
    pub closed spec fn last(&self) -> Option<serde_json::Value> {
        self.last_result
    }

    /// A run of a plan, from the start of its execution order.
    pub fn start(dag: &PlanDAG) -> (r: Result<PlanRun, PlannerError>)
        requires
            dag.wf(),
        ensures
            r is Ok,
            r->Ok_0.order() == post_order_at(dag.steps(), 0),
            r->Ok_0.done() == 0,
            r->Ok_0.last() is None,
    {
        let order = match dag.topological_order() {
            Ok(o) => o,
            Err(e) => return Err(e),
        };
        Ok(PlanRun { order, next: 0, last_result: None })
    }

    /// Takes the next step of the run: a pruned step is passed over; a step
    /// without an action is completed; a step with one is marked executing
    /// and its action is handed out to be run.
    pub fn step(&mut self, dag: &mut PlanDAG) -> (r: RunStep)
        requires
            old(dag).wf(),
        ensures
            final(dag).wf(),
            final(dag).root() == old(dag).root(),
            final(dag).depth_limit() == old(dag).depth_limit(),
            final(self).order() == old(self).order(),
            final(self).last() == old(self).last(),
            old(self).done() >= old(self).order().len() ==> r == RunStep::Finished(old(self).last())
                && final(dag).steps() == old(dag).steps() && final(self).done() == old(self).done(),
            old(self).done() < old(self).order().len() ==> {
                let id = old(self).order()[old(self).done() as int];
                let ns = old(dag).steps();
                let p = pos_of(ns, id);
                &&& final(self).done() == old(self).done() + 1
                &&& p == -1 ==> r == RunStep::Missing(id) && final(dag).steps() == ns
                &&& p != -1 && ns[p].status is Pruned ==> r == RunStep::Passed && final(dag).steps() == ns
                &&& p != -1 && !(ns[p].status is Pruned) && ns[p].action is None ==> r == RunStep::Passed
                    && final(dag).steps()[p].status is Completed
                    && final(dag).steps() == ns.update(p, with_status(ns[p], final(dag).steps()[p].status))
                &&& p != -1 && !(ns[p].status is Pruned) && ns[p].action is Some ==> (r matches RunStep::Run(
                    rid,
                    a,
                ) && rid == id && a@ == ns[p].action->0) && final(dag).steps() == ns.update(
                    p,
                    with_status(ns[p], StatusView::Executing),
                )
            },
    {
        if self.next >= self.order.len() {
            let last = match &self.last_result {
                Some(v) => Some(json_clone(v)),
                None => None,
            };
            return RunStep::Finished(last);
        }
        let id = self.order[self.next];
        self.next = self.next + 1;
        let p = match dag.position(id) {
            Some(p) => p,
            None => return RunStep::Missing(id),
        };
        assert(dag.steps()[p as int] == dag.nodes@[p as int]@);
        if dag.nodes[p].status.is_pruned() {
            return RunStep::Passed;
        }
        let action = match &dag.nodes[p].action {
            Some(a) => Some(a.duplicate()),
            None => None,
        };
        match action {
            Some(a) => {
                dag.set_status(p, PlanNodeStatus::Executing);
                RunStep::Run(id, a)
            },
            None => {
                dag.set_status(p, PlanNodeStatus::Completed { result: json_null() });
                RunStep::Passed
            },
        }
    }

    /// Records what a step's action gave: a result completes the step and
    /// becomes the run's last result; an error fails the step and ends the
    /// run with an execution error.
    pub fn report(
        &mut self,
        dag: &mut PlanDAG,
        node_id: u128,
        outcome: Result<serde_json::Value, String>,
    ) -> (r: Result<(), PlannerError>)
        requires
            old(dag).wf(),
        ensures
            final(dag).wf(),
            final(dag).root() == old(dag).root(),
            final(dag).depth_limit() == old(dag).depth_limit(),
            final(self).order() == old(self).order(),
            final(self).done() == old(self).done(),
            pos_of(old(dag).steps(), node_id) == -1 ==> r == Err::<(), PlannerError>(PlannerError::NodeNotFound(node_id))
                && final(dag).steps() == old(dag).steps() && final(self).last() == old(self).last(),
            pos_of(old(dag).steps(), node_id) != -1 ==> {
                let ns = old(dag).steps();
                let p = pos_of(ns, node_id);
                match outcome {
                    Ok(v) => r is Ok && final(self).last() == Some(v) && final(dag).steps() == ns.update(
                        p,
                        with_status(ns[p], StatusView::Completed(v)),
                    ),
                    Err(e) => (r matches Err(PlannerError::ExecutionError(id, msg)) && id == node_id && msg@ == e@)
                        && final(self).last() == old(self).last() && final(dag).steps() == ns.update(
                        p,
                        with_status(ns[p], StatusView::Failed(e@)),
                    ),
                }
            },
    {
        let p = match dag.position(node_id) {
            Some(p) => p,
            None => return Err(PlannerError::NodeNotFound(node_id)),
        };
        match outcome {
            Ok(v) => {
                let ghost gv = v;
                let kept = json_clone(&v);
                self.last_result = Some(kept);
                let st = PlanNodeStatus::Completed { result: v };
                assert(st@ == StatusView::Completed(gv));
                dag.set_status(p, st);
                assert(self.last_result == Some(gv));
                Ok(())
            },
            Err(e) => {
                let copy = String::from_str(e.as_str());
                dag.set_status(p, PlanNodeStatus::Failed { error: e });
                Err(PlannerError::ExecutionError(node_id, copy))
            },
        }
    }
}

} // verus!
