//! Budgets for delegated agents and the registry of spawned agents.
//!
//! A budget caps the tokens, wall-clock seconds and tool calls of an agent; the
//! enforcer refuses any consumption that would pass a cap and leaves the budget
//! as it was. The spawner keeps every agent's handle, one per identifier, and
//! moves agents between states.

use vstd::prelude::*;
use std::time::Duration;
use std::time::Instant;
use crate::clock::elapsed_since;
use crate::clock::instant_now;
use crate::clock::new_uuid;
use crate::clock::secs_since;
use crate::text::decimal;
use crate::text::u64_to_decimal;

verus! {

/// Why a delegation step was refused.
#[derive(Debug)]
pub enum DelegationError {
    BudgetExhausted(String),
    AgentNotFound(u128),
    AlreadyCompleted,
    Timeout,
}

/// The limits of an agent and what it has used of them so far.
/// `start_time` is when the budget was opened, on the monotonic clock.
#[derive(Clone, Copy, Debug)]
pub struct AgentBudget {
    pub max_tokens: u64,
    pub max_wall_time_secs: u64,
    pub max_tool_calls: u32,
    pub max_memory_mb: u32,
    pub max_fs_bytes: u64,
    pub current_tokens: u64,
    pub current_tool_calls: u32,
    pub start_time: Instant,
}

/// Spending `t` more tokens would pass the token cap.
pub open spec fn tokens_would_exceed(b: AgentBudget, t: u64) -> bool {
    b.current_tokens + t > b.max_tokens
}

/// No tool call is left.
pub open spec fn tool_calls_used_up(b: AgentBudget) -> bool {
    b.current_tool_calls >= b.max_tool_calls
}

/// Seconds left of the wall-clock allowance after `elapsed` seconds (never below zero).
pub open spec fn secs_remaining(b: AgentBudget, elapsed: u64) -> u64 {
    if elapsed >= b.max_wall_time_secs {
        0
    } else {
        (b.max_wall_time_secs - elapsed) as u64
    }
}

/// The budget is spent after `elapsed` seconds: no tokens, no tool calls or no time left.
pub open spec fn exhausted_after(b: AgentBudget, elapsed: u64) -> bool {
    b.current_tokens >= b.max_tokens || tool_calls_used_up(b) || secs_remaining(b, elapsed) == 0
}

/// The message of a refused token spend.
pub open spec fn token_refusal(b: AgentBudget, t: u64) -> Seq<char> {
    "Token budget exceeded: "@ + decimal(b.current_tokens as nat) + "/"@ + decimal(
        b.max_tokens as nat,
    ) + " (need "@ + decimal(t as nat) + " more)"@
}

/// The message of a refused tool call.
pub open spec fn tool_call_refusal(b: AgentBudget) -> Seq<char> {
    "Tool call budget exceeded: "@ + decimal(b.current_tool_calls as nat) + "/"@ + decimal(
        b.max_tool_calls as nat,
    )
}

/// The two budgets hold the same limits and the same start.
pub open spec fn same_limits(a: AgentBudget, b: AgentBudget) -> bool {
    &&& a.max_tokens == b.max_tokens
    &&& a.max_wall_time_secs == b.max_wall_time_secs
    &&& a.max_tool_calls == b.max_tool_calls
    &&& a.max_memory_mb == b.max_memory_mb
    &&& a.max_fs_bytes == b.max_fs_bytes
    &&& a.start_time == b.start_time
}

impl AgentBudget {
    /// A fresh budget with nothing used, opened now.
    pub fn new(
        max_tokens: u64,
        max_wall_time_secs: u64,
        max_tool_calls: u32,
        max_memory_mb: u32,
        max_fs_bytes: u64,
    ) -> (b: AgentBudget)
        ensures
            b.max_tokens == max_tokens,
            b.max_wall_time_secs == max_wall_time_secs,
            b.max_tool_calls == max_tool_calls,
            b.max_memory_mb == max_memory_mb,
            b.max_fs_bytes == max_fs_bytes,
            b.current_tokens == 0,
            b.current_tool_calls == 0,
    {
        AgentBudget {
            max_tokens,
            max_wall_time_secs,
            max_tool_calls,
            max_memory_mb,
            max_fs_bytes,
            current_tokens: 0,
            current_tool_calls: 0,
            start_time: instant_now(),
        }
    }

    /// The time gone by since the budget was opened.
    pub fn time_elapsed(&self) -> (d: Duration) {
        elapsed_since(&self.start_time)
    }

    /// Whole seconds of wall-clock time left after `elapsed_secs` seconds.
    pub fn time_remaining_after(&self, elapsed_secs: u64) -> (r: u64)
        ensures
            r == secs_remaining(*self, elapsed_secs),
    {
        self.max_wall_time_secs.saturating_sub(elapsed_secs)
    }

    /// Whole seconds of wall-clock time left now; never more than the allowance.
    pub fn time_remaining(&self) -> (r: u64)
        ensures
            r <= self.max_wall_time_secs,
            exists|e: u64| r == secs_remaining(*self, e),
    {
        let elapsed = secs_since(&self.start_time);
        self.time_remaining_after(elapsed)
    }
}

/// The checks and updates that keep an agent within its budget.
pub struct BudgetEnforcer;

impl BudgetEnforcer {
    /// Refuses a spend of `tokens_to_consume` that would pass the token cap.
    pub fn check_token_budget(budget: &AgentBudget, tokens_to_consume: u64) -> (r: Result<(), DelegationError>)
        ensures
            r is Ok <==> !tokens_would_exceed(*budget, tokens_to_consume),
            r matches Err(DelegationError::BudgetExhausted(m)) ==> m@ == token_refusal(*budget, tokens_to_consume),
            r is Err ==> r->Err_0 is BudgetExhausted,
    {
        if budget.current_tokens > budget.max_tokens || tokens_to_consume > budget.max_tokens
            - budget.current_tokens {
            let mut m = String::from_str("Token budget exceeded: ");
            let cur = u64_to_decimal(budget.current_tokens);
            let max = u64_to_decimal(budget.max_tokens);
            let need = u64_to_decimal(tokens_to_consume);
            m.append(cur.as_str());
            m.append("/");
            m.append(max.as_str());
            m.append(" (need ");
            m.append(need.as_str());
            m.append(" more)");
            return Err(DelegationError::BudgetExhausted(m));
        }
        Ok(())
    }

    /// Refuses a tool call when none is left.
    pub fn check_tool_call(budget: &AgentBudget) -> (r: Result<(), DelegationError>)
        ensures
            r is Ok <==> !tool_calls_used_up(*budget),
            r matches Err(DelegationError::BudgetExhausted(m)) ==> m@ == tool_call_refusal(*budget),
            r is Err ==> r->Err_0 is BudgetExhausted,
    {
        if budget.current_tool_calls >= budget.max_tool_calls {
            let mut m = String::from_str("Tool call budget exceeded: ");
            let cur = u64_to_decimal(budget.current_tool_calls as u64);
            let max = u64_to_decimal(budget.max_tool_calls as u64);
            m.append(cur.as_str());
            m.append("/");
            m.append(max.as_str());
            return Err(DelegationError::BudgetExhausted(m));
        }
        Ok(())
    }

    /// The seconds left after `elapsed_secs` seconds, or `Timeout` when none are.
    pub fn check_time_remaining_after(budget: &AgentBudget, elapsed_secs: u64) -> (r: Result<u64, DelegationError>)
        ensures
            match r {
                Ok(s) => s == secs_remaining(*budget, elapsed_secs) && s > 0,
                Err(e) => e is Timeout && secs_remaining(*budget, elapsed_secs) == 0,
            },
    {
        let remaining = budget.time_remaining_after(elapsed_secs);
        if remaining == 0 {
            return Err(DelegationError::Timeout);
        }
        Ok(remaining)
    }

    /// The seconds left now, or `Timeout` when none are; a budget with no
    /// wall-clock allowance is always out of time.
    pub fn check_time_remaining(budget: &AgentBudget) -> (r: Result<u64, DelegationError>)
        ensures
            match r {
                Ok(s) => 0 < s <= budget.max_wall_time_secs,
                Err(e) => e is Timeout,
            },
            budget.max_wall_time_secs == 0 ==> r is Err,
    {
        let elapsed = secs_since(&budget.start_time);
        Self::check_time_remaining_after(budget, elapsed)
    }

    /// Whether the budget is spent after `elapsed_secs` seconds.
    pub fn is_exhausted_after(budget: &AgentBudget, elapsed_secs: u64) -> (b: bool)
        ensures
            b == exhausted_after(*budget, elapsed_secs),
    {
        budget.current_tokens >= budget.max_tokens || budget.current_tool_calls
            >= budget.max_tool_calls || budget.time_remaining_after(elapsed_secs) == 0
    }

    /// Whether the budget is spent now. Used-up tokens or tool calls, or no
    /// wall-clock allowance at all, always count as spent.
    pub fn is_exhausted(budget: &AgentBudget) -> (b: bool)
        ensures
            exists|e: u64| b == exhausted_after(*budget, e),
            (budget.current_tokens >= budget.max_tokens || tool_calls_used_up(*budget)
                || budget.max_wall_time_secs == 0) ==> b,
    {
        let elapsed = secs_since(&budget.start_time);
        Self::is_exhausted_after(budget, elapsed)
    }

    /// Spends `tokens` if the cap allows it; a refused spend leaves the budget unchanged.
    pub fn consume_tokens(budget: &mut AgentBudget, tokens: u64) -> (r: Result<(), DelegationError>)
        ensures
            r is Ok <==> !tokens_would_exceed(*old(budget), tokens),
            r is Ok ==> final(budget).current_tokens == old(budget).current_tokens + tokens,
            r is Err ==> final(budget).current_tokens == old(budget).current_tokens,
            r matches Err(DelegationError::BudgetExhausted(m)) ==> m@ == token_refusal(*old(budget), tokens),
            r is Err ==> r->Err_0 is BudgetExhausted,
            final(budget).current_tool_calls == old(budget).current_tool_calls,
            same_limits(*final(budget), *old(budget)),
            old(budget).current_tokens <= old(budget).max_tokens ==> final(budget).current_tokens
                <= final(budget).max_tokens,
    {
        Self::check_token_budget(budget, tokens)?;
        budget.current_tokens = budget.current_tokens + tokens;
        Ok(())
    }

    /// Spends one tool call if one is left; a refused call leaves the budget unchanged.
    pub fn consume_tool_call(budget: &mut AgentBudget) -> (r: Result<(), DelegationError>)
        ensures
            r is Ok <==> !tool_calls_used_up(*old(budget)),
            r is Ok ==> final(budget).current_tool_calls == old(budget).current_tool_calls + 1,
            r is Err ==> final(budget).current_tool_calls == old(budget).current_tool_calls,
            r matches Err(DelegationError::BudgetExhausted(m)) ==> m@ == tool_call_refusal(*old(budget)),
            r is Err ==> r->Err_0 is BudgetExhausted,
            final(budget).current_tokens == old(budget).current_tokens,
            same_limits(*final(budget), *old(budget)),
            old(budget).current_tool_calls <= old(budget).max_tool_calls
                ==> final(budget).current_tool_calls <= final(budget).max_tool_calls,
    {
        Self::check_tool_call(budget)?;
        budget.current_tool_calls = budget.current_tool_calls + 1;
        Ok(())
    }
}


/// A JSON value (`serde_json::Value`), carried through as is.
#[verifier::external_type_specification]
#[verifier::external_body]
pub struct ExJsonValue(serde_json::Value);

/// Where an agent stands in its life.
#[derive(Debug)]
pub enum AgentStatus {
    Spawning,
    Running,
    WaitingForApproval,
    Completed { result: serde_json::Value },
    Failed { error: String },
    Killed,
}

/// An agent's state as plain values.
pub enum AgentStatusView {
    Spawning,
    Running,
    WaitingForApproval,
    Completed { result: serde_json::Value },
    Failed { error: Seq<char> },
    Killed,
}

impl View for AgentStatus {
    type V = AgentStatusView;

    open spec fn view(&self) -> AgentStatusView {
        match self {
            AgentStatus::Spawning => AgentStatusView::Spawning,
            AgentStatus::Running => AgentStatusView::Running,
            AgentStatus::WaitingForApproval => AgentStatusView::WaitingForApproval,
            AgentStatus::Completed { result } => AgentStatusView::Completed { result: *result },
            AgentStatus::Failed { error } => AgentStatusView::Failed { error: error@ },
            AgentStatus::Killed => AgentStatusView::Killed,
        }
    }
}

/// A state from which an agent moves no further: completed, failed or killed.
pub open spec fn status_is_terminal(s: AgentStatusView) -> bool {
    s is Completed || s is Failed || s is Killed
}

impl AgentStatus {
    /// Whether the agent has finished, one way or another.
    pub fn is_terminal(&self) -> (b: bool)
        ensures
            b == status_is_terminal(self@),
    {
        match self {
            AgentStatus::Completed { .. } => true,
            AgentStatus::Failed { .. } => true,
            AgentStatus::Killed => true,
            _ => false,
        }
    }
}

/// A delegated agent: its identity, its parent, its task, budget, state and
/// the capabilities it was given.
#[derive(Debug)]
pub struct AgentHandle {
    pub agent_id: u128,
    pub parent_id: Option<u128>,
    pub task: String,
    pub budget: AgentBudget,
    pub status: AgentStatus,
    pub capabilities: Vec<String>,
}

/// An agent as plain values.
pub struct AgentHandleView {
    pub agent_id: u128,
    pub parent_id: Option<u128>,
    pub task: Seq<char>,
    pub budget: AgentBudget,
    pub status: AgentStatusView,
    pub capabilities: Seq<Seq<char>>,
}

/// The characters of each string in turn.
pub open spec fn string_views(v: Seq<String>) -> Seq<Seq<char>> {
    v.map_values(|s: String| s@)
}

impl View for AgentHandle {
    type V = AgentHandleView;

    open spec fn view(&self) -> AgentHandleView {
        AgentHandleView {
            agent_id: self.agent_id,
            parent_id: self.parent_id,
            task: self.task@,
            budget: self.budget,
            status: self.status@,
            capabilities: string_views(self.capabilities@),
        }
    }
}

/// A copy of a list of strings.
fn clone_strings(v: &Vec<String>) -> (r: Vec<String>)
    ensures
        string_views(r@) == string_views(v@),
{
    let mut r: Vec<String> = Vec::new();
    let mut i: usize = 0;
    while i < v.len()
        invariant
            i <= v@.len(),
            string_views(r@) == string_views(v@.subrange(0, i as int)),
        decreases v@.len() - i,
    {
        r.push(v[i].clone());
        assert(string_views(v@.subrange(0, i + 1)) =~= string_views(v@.subrange(0, i as int)).push(v@[i as int]@));
        assert(string_views(r@) =~= string_views(v@.subrange(0, i as int)).push(v@[i as int]@));
        i += 1;
    }
    assert(v@.subrange(0, v@.len() as int) =~= v@);
    r
}

impl AgentHandle {
    /// A new agent, not yet running, under a fresh random identifier.
    pub fn new(task: &str, parent_id: Option<u128>, budget: AgentBudget, capabilities: Vec<String>) -> (h: AgentHandle)
        ensures
            h@.parent_id == parent_id,
            h@.task == task@,
            h@.budget == budget,
            h@.status == AgentStatusView::Spawning,
            h@.capabilities == string_views(capabilities@),
    {
        AgentHandle {
            agent_id: new_uuid(),
            parent_id,
            task: String::from_str(task),
            budget,
            status: AgentStatus::Spawning,
            capabilities,
        }
    }
}


/// The registry of spawned agents: one handle per identifier, in the order
/// the agents were spawned.
pub struct AgentSpawner {
    agents: Vec<AgentHandle>,
}

/// The handles as plain values.
pub open spec fn handle_views(v: Seq<AgentHandle>) -> Seq<AgentHandleView> {
    v.map_values(|h: AgentHandle| h@)
}

/// No identifier occurs twice.
pub open spec fn ids_distinct(hs: Seq<AgentHandleView>) -> bool {
    forall|i: int, j: int|
        0 <= i < hs.len() && 0 <= j < hs.len() && i != j ==> hs[i].agent_id != hs[j].agent_id
}

/// Some handle carries the identifier.
pub open spec fn has_id(hs: Seq<AgentHandleView>, id: u128) -> bool {
    exists|i: int| 0 <= i < hs.len() && hs[i].agent_id == id
}

/// The position of the handle with the identifier (meaningful when there is one).
pub open spec fn position_of(hs: Seq<AgentHandleView>, id: u128) -> int {
    choose|i: int| 0 <= i < hs.len() && hs[i].agent_id == id
}

/// The handle with the state replaced.
pub open spec fn with_status(h: AgentHandleView, s: AgentStatusView) -> AgentHandleView {
    AgentHandleView { status: s, ..h }
}

/// The handle with the budget replaced.
pub open spec fn with_budget(h: AgentHandleView, b: AgentBudget) -> AgentHandleView {
    AgentHandleView { budget: b, ..h }
}

/// The registry after the agent's state is set to `s` (the agent is known).
pub open spec fn status_set(hs: Seq<AgentHandleView>, id: u128, s: AgentStatusView) -> Seq<AgentHandleView> {
    hs.update(position_of(hs, id), with_status(hs[position_of(hs, id)], s))
}

/// In a registry without repeated identifiers, position `i` is where its identifier is found.
proof fn lemma_position_unique(hs: Seq<AgentHandleView>, i: int)
    requires
        ids_distinct(hs),
        0 <= i < hs.len(),
    ensures
        has_id(hs, hs[i].agent_id),
        position_of(hs, hs[i].agent_id) == i,
{
    assert(0 <= i < hs.len() && hs[i].agent_id == hs[i].agent_id);
}

/// Replacing a handle by one with the same identifier keeps identifiers distinct.
proof fn lemma_update_keeps_distinct(hs: Seq<AgentHandleView>, i: int, h: AgentHandleView)
    requires
        ids_distinct(hs),
        0 <= i < hs.len(),
        h.agent_id == hs[i].agent_id,
    ensures
        ids_distinct(hs.update(i, h)),
{
    let n = hs.update(i, h);
    assert forall|a: int, b: int| 0 <= a < n.len() && 0 <= b < n.len() && a != b implies n[a].agent_id
        != n[b].agent_id by {
        assert(n[a].agent_id == hs[a].agent_id);
        assert(n[b].agent_id == hs[b].agent_id);
    }
}

impl AgentSpawner {
    /// The agents, in the order they were spawned.
    pub closed spec fn handles(&self) -> Seq<AgentHandleView> {
        handle_views(self.agents@)
    }

    /// Identifiers are unique.
    pub open spec fn wf(&self) -> bool {
        ids_distinct(self.handles())
    }

    /// An agent with this identifier is registered.
    pub open spec fn contains(&self, id: u128) -> bool {
        has_id(self.handles(), id)
    }

    /// The registered agent with this identifier.
    pub open spec fn agent(&self, id: u128) -> AgentHandleView {
        self.handles()[position_of(self.handles(), id)]
    }

    /// An empty registry.
    pub fn new() -> (s: AgentSpawner)
        ensures
            s.wf(),
            s.handles().len() == 0,
    {
        AgentSpawner { agents: Vec::new() }
    }

    fn find(&self, id: u128) -> (r: Option<usize>)
        requires
            self.wf(),
        ensures
            match r {
                Some(i) => i < self.handles().len() && self.handles()[i as int].agent_id == id
                    && self.contains(id) && position_of(self.handles(), id) == i,
                None => !self.contains(id),
            },
    {
        let mut i: usize = 0;
        while i < self.agents.len()
            invariant
                self.wf(),
                i <= self.agents@.len(),
                forall|k: int| 0 <= k < i ==> self.handles()[k].agent_id != id,
            decreases self.agents@.len() - i,
        {
            if self.agents[i].agent_id == id {
                proof {
                    lemma_position_unique(self.handles(), i as int);
                }
                return Some(i);
            }
            i += 1;
        }
        None
    }

    /// Replaces the state of the agent at position `i`.
    fn set_status(&mut self, i: usize, status: AgentStatus)
        requires
            old(self).wf(),
            i < old(self).handles().len(),
        ensures
            final(self).wf(),
            final(self).handles() == old(self).handles().update(
                i as int,
                with_status(old(self).handles()[i as int], status@),
            ),
    {
        let ghost before = self.handles();
        let mut h = self.agents.remove(i);
        h.status = status;
        self.agents.insert(i, h);
        proof {
            assert(self.handles() =~= before.update(i as int, with_status(before[i as int], status@)));
            lemma_update_keeps_distinct(before, i as int, with_status(before[i as int], status@));
        }
    }

    /// Registers a new running agent with the given budget, parent and
    /// capabilities, and hands back a copy of its handle. Should the fresh
    /// identifier already be taken, the new agent replaces the old one.
    pub fn spawn(
        &mut self,
        task: &str,
        child_budget: AgentBudget,
        capability_subset: Vec<String>,
        parent_id: Option<u128>,
    ) -> (r: Result<AgentHandle, DelegationError>)
        requires
            old(self).wf(),
        ensures
            final(self).wf(),
            r is Ok,
            r matches Ok(h) && ({
                &&& h@.parent_id == parent_id
                &&& h@.task == task@
                &&& h@.budget == child_budget
                &&& h@.status == AgentStatusView::Running
                &&& h@.capabilities == string_views(capability_subset@)
                &&& if old(self).contains(h.agent_id) {
                    final(self).handles() == old(self).handles().update(
                        position_of(old(self).handles(), h.agent_id),
                        h@,
                    )
                } else {
                    final(self).handles() == old(self).handles().push(h@)
                }
            }),
    {
        let caps = clone_strings(&capability_subset);
        let mut handle = AgentHandle::new(task, parent_id, child_budget, capability_subset);
        handle.status = AgentStatus::Running;
        let copy = AgentHandle {
            agent_id: handle.agent_id,
            parent_id,
            task: String::from_str(task),
            budget: child_budget,
            status: AgentStatus::Running,
            capabilities: caps,
        };
        let ghost before = self.handles();
        match self.find(handle.agent_id) {
            Some(i) => {
                self.agents.set(i, handle);
                proof {
                    assert(self.handles() =~= before.update(i as int, copy@));
                    lemma_update_keeps_distinct(before, i as int, copy@);
                }
            },
            None => {
                self.agents.push(handle);
                proof {
                    assert(self.handles() =~= before.push(copy@));
                    assert forall|a: int, b: int|
                        0 <= a < self.handles().len() && 0 <= b < self.handles().len() && a != b
                        implies self.handles()[a].agent_id != self.handles()[b].agent_id by {
                        if a < before.len() && b < before.len() {
                        } else if a < before.len() {
                            assert(before[a].agent_id != copy.agent_id);
                        } else {
                            assert(before[b].agent_id != copy.agent_id);
                        }
                    }
                }
            },
        }
        Ok(copy)
    }

    /// Records the agent's result. An unknown agent is `AgentNotFound`; one
    /// that has already finished is `AlreadyCompleted` and keeps its state.
    pub fn complete_agent(&mut self, agent_id: u128, result: serde_json::Value) -> (r: Result<(), DelegationError>)
        requires
            old(self).wf(),
        ensures
            final(self).wf(),
            !old(self).contains(agent_id) ==> (r matches Err(DelegationError::AgentNotFound(x))
                && x == agent_id),
            old(self).contains(agent_id) && status_is_terminal(old(self).agent(agent_id).status)
                ==> r matches Err(DelegationError::AlreadyCompleted),
            r is Err ==> final(self).handles() == old(self).handles(),
            r is Ok <==> old(self).contains(agent_id) && !status_is_terminal(
                old(self).agent(agent_id).status,
            ),
            r is Ok ==> final(self).handles() == status_set(
                old(self).handles(),
                agent_id,
                AgentStatusView::Completed { result },
            ),
    {
        match self.find(agent_id) {
            None => Err(DelegationError::AgentNotFound(agent_id)),
            Some(i) => {
                if self.agents[i].status.is_terminal() {
                    return Err(DelegationError::AlreadyCompleted);
                }
                self.set_status(i, AgentStatus::Completed { result });
                Ok(())
            },
        }
    }

    /// Marks the agent failed with the given error, whatever its state was.
    pub fn fail_agent(&mut self, agent_id: u128, error: &str) -> (r: Result<(), DelegationError>)
        requires
            old(self).wf(),
        ensures
            final(self).wf(),
            r is Ok <==> old(self).contains(agent_id),
            r is Err ==> (r matches Err(DelegationError::AgentNotFound(x)) && x == agent_id),
            r is Err ==> final(self).handles() == old(self).handles(),
            r is Ok ==> final(self).handles() == status_set(
                old(self).handles(),
                agent_id,
                AgentStatusView::Failed { error: error@ },
            ),
    {
        match self.find(agent_id) {
            None => Err(DelegationError::AgentNotFound(agent_id)),
            Some(i) => {
                self.set_status(i, AgentStatus::Failed { error: String::from_str(error) });
                Ok(())
            },
        }
    }

    /// Stops the agent, whatever its state was; the reason is not kept.
    pub fn kill(&mut self, agent_id: u128, reason: &str) -> (r: Result<(), DelegationError>)
        requires
            old(self).wf(),
        ensures
            final(self).wf(),
            r is Ok <==> old(self).contains(agent_id),
            r is Err ==> (r matches Err(DelegationError::AgentNotFound(x)) && x == agent_id),
            r is Err ==> final(self).handles() == old(self).handles(),
            r is Ok ==> final(self).handles() == status_set(
                old(self).handles(),
                agent_id,
                AgentStatusView::Killed,
            ),
    {
        match self.find(agent_id) {
            None => Err(DelegationError::AgentNotFound(agent_id)),
            Some(i) => {
                self.set_status(i, AgentStatus::Killed);
                Ok(())
            },
        }
    }

    /// Charges `tokens_used` to the agent's budget; a refused spend changes nothing.
    pub fn update_budget_tokens(&mut self, agent_id: u128, tokens_used: u64) -> (r: Result<(), DelegationError>)
        requires
            old(self).wf(),
        ensures
            final(self).wf(),
            !old(self).contains(agent_id) ==> (r matches Err(DelegationError::AgentNotFound(x))
                && x == agent_id),
            old(self).contains(agent_id) ==> (r is Ok <==> !tokens_would_exceed(
                old(self).agent(agent_id).budget,
                tokens_used,
            )),
            old(self).contains(agent_id) ==> (r matches Err(DelegationError::BudgetExhausted(m))
                ==> m@ == token_refusal(old(self).agent(agent_id).budget, tokens_used)),
            old(self).contains(agent_id) && r is Err ==> r->Err_0 is BudgetExhausted,
            r is Err ==> final(self).handles() == old(self).handles(),
            r is Ok ==> final(self).handles() == old(self).handles().update(
                position_of(old(self).handles(), agent_id),
                with_budget(
                    old(self).agent(agent_id),
                    AgentBudget {
                        current_tokens: (old(self).agent(agent_id).budget.current_tokens
                            + tokens_used) as u64,
                        ..old(self).agent(agent_id).budget
                    },
                ),
            ),
    {
        match self.find(agent_id) {
            None => Err(DelegationError::AgentNotFound(agent_id)),
            Some(i) => {
                let ghost before = self.handles();
                let mut h = self.agents.remove(i);
                let r = BudgetEnforcer::consume_tokens(&mut h.budget, tokens_used);
                self.agents.insert(i, h);
                proof {
                    let nb = AgentBudget {
                        current_tokens: (before[i as int].budget.current_tokens + tokens_used) as u64,
                        ..before[i as int].budget
                    };
                    if r is Ok {
                        assert(h.budget == nb);
                        assert(self.handles() =~= before.update(i as int, with_budget(before[i as int], nb)));
                        lemma_update_keeps_distinct(before, i as int, with_budget(before[i as int], nb));
                    } else {
                        assert(h.budget == before[i as int].budget);
                        assert(self.handles() =~= before);
                    }
                }
                r
            },
        }
    }

    /// Charges one tool call to the agent's budget; a refused call changes nothing.
    pub fn update_budget_tool_call(&mut self, agent_id: u128) -> (r: Result<(), DelegationError>)
        requires
            old(self).wf(),
        ensures
            final(self).wf(),
            !old(self).contains(agent_id) ==> (r matches Err(DelegationError::AgentNotFound(x))
                && x == agent_id),
            old(self).contains(agent_id) ==> (r is Ok <==> !tool_calls_used_up(
                old(self).agent(agent_id).budget,
            )),
            old(self).contains(agent_id) ==> (r matches Err(DelegationError::BudgetExhausted(m))
                ==> m@ == tool_call_refusal(old(self).agent(agent_id).budget)),
            old(self).contains(agent_id) && r is Err ==> r->Err_0 is BudgetExhausted,
            r is Err ==> final(self).handles() == old(self).handles(),
            r is Ok ==> final(self).handles() == old(self).handles().update(
                position_of(old(self).handles(), agent_id),
                with_budget(
                    old(self).agent(agent_id),
                    AgentBudget {
                        current_tool_calls: (old(self).agent(agent_id).budget.current_tool_calls
                            + 1) as u32,
                        ..old(self).agent(agent_id).budget
                    },
                ),
            ),
    {
        match self.find(agent_id) {
            None => Err(DelegationError::AgentNotFound(agent_id)),
            Some(i) => {
                let ghost before = self.handles();
                let mut h = self.agents.remove(i);
                let r = BudgetEnforcer::consume_tool_call(&mut h.budget);
                self.agents.insert(i, h);
                proof {
                    let nb = AgentBudget {
                        current_tool_calls: (before[i as int].budget.current_tool_calls + 1) as u32,
                        ..before[i as int].budget
                    };
                    if r is Ok {
                        assert(h.budget == nb);
                        assert(self.handles() =~= before.update(i as int, with_budget(before[i as int], nb)));
                        lemma_update_keeps_distinct(before, i as int, with_budget(before[i as int], nb));
                    } else {
                        assert(h.budget == before[i as int].budget);
                        assert(self.handles() =~= before);
                    }
                }
                r
            },
        }
    }

    /// One look at an agent that is being waited for: its result once it has
    /// completed, the refusal once it has failed or been killed, `None` while
    /// it is still at work. The caller waits between looks (see `join_backoff`).
    pub fn poll_join(&self, agent_id: u128) -> (r: Option<Result<&serde_json::Value, DelegationError>>)
        requires
            self.wf(),
        ensures
            !self.contains(agent_id) ==> (r matches Some(Err(DelegationError::AgentNotFound(x)))
                && x == agent_id),
            self.contains(agent_id) ==> match self.agent(agent_id).status {
                AgentStatusView::Completed { result } => (r matches Some(Ok(v)) && *v == result),
                AgentStatusView::Failed { error } => (r matches Some(
                    Err(DelegationError::BudgetExhausted(m)),
                ) && m@ == error),
                AgentStatusView::Killed => (r matches Some(Err(DelegationError::BudgetExhausted(m)))
                    && m@ == "Agent was killed"@),
                _ => r is None,
            },
    {
        match self.find(agent_id) {
            None => Some(Err(DelegationError::AgentNotFound(agent_id))),
            Some(i) => {
                let h = &self.agents[i];
                match &h.status {
                    AgentStatus::Completed { result } => Some(Ok(result)),
                    AgentStatus::Failed { error } => Some(
                        Err(DelegationError::BudgetExhausted(error.clone())),
                    ),
                    AgentStatus::Killed => Some(
                        Err(DelegationError::BudgetExhausted(String::from_str("Agent was killed"))),
                    ),
                    _ => None,
                }
            },
        }
    }
}

/// The next wait while joining: twice the last one, at most two seconds.
pub fn join_backoff(wait_ms: u64) -> (r: u64)
    ensures
        r == if 2 * wait_ms < 2000 { 2 * wait_ms } else { 2000 },
{
    if wait_ms >= 1000 {
        2000
    } else {
        wait_ms * 2
    }
}

impl Default for AgentSpawner {
    fn default() -> (s: AgentSpawner)
        ensures
            s.wf(),
            s.handles().len() == 0,
    {
        AgentSpawner::new()
    }
}


/// An agent and the agents it spawned, as a tree for display.
#[derive(Debug)]
pub struct AgentTree {
    pub agent_id: u128,
    pub task: String,
    pub status: String,
    pub children: Vec<AgentTree>,
}

/// The name under which a state is shown in the tree.
pub open spec fn status_label(s: AgentStatusView) -> Seq<char> {
    match s {
        AgentStatusView::Spawning => "spawning"@,
        AgentStatusView::Running => "running"@,
        AgentStatusView::WaitingForApproval => "waiting_approval"@,
        AgentStatusView::Completed { .. } => "completed"@,
        AgentStatusView::Failed { .. } => "failed"@,
        AgentStatusView::Killed => "killed"@,
    }
}

/// The identifiers of the agents whose parent is `id`, in registry order.
pub open spec fn children_of(hs: Seq<AgentHandleView>, id: u128) -> Seq<u128>
    decreases hs.len(),
{
    if hs.len() == 0 {
        Seq::empty()
    } else {
        let rest = children_of(hs.drop_last(), id);
        if hs.last().parent_id == Some(id) {
            rest.push(hs.last().agent_id)
        } else {
            rest
        }
    }
}

/// The first agent without a parent, in registry order.
pub open spec fn first_root(hs: Seq<AgentHandleView>) -> Option<u128>
    decreases hs.len(),
{
    if hs.len() == 0 {
        None
    } else {
        match first_root(hs.drop_last()) {
            Some(r) => Some(r),
            None => if hs.last().parent_id is None {
                Some(hs.last().agent_id)
            } else {
                None
            },
        }
    }
}

/// `t` is the tree of agent `id` in the registry, followed to `depth` levels
/// below it: an unknown agent is shown as "unknown" with no children.
pub open spec fn tree_of(t: AgentTree, hs: Seq<AgentHandleView>, id: u128, depth: nat) -> bool
    decreases depth,
{
    &&& t.agent_id == id
    &&& if !has_id(hs, id) {
        &&& t.task@ == "unknown"@
        &&& t.status@ == "unknown"@
        &&& t.children@.len() == 0
    } else {
        let h = hs[position_of(hs, id)];
        &&& t.task@ == h.task
        &&& t.status@ == status_label(h.status)
        &&& if depth == 0 {
            t.children@.len() == 0
        } else {
            let c = children_of(hs, id);
            &&& t.children@.len() == c.len()
            &&& forall|k: int|
                0 <= k < c.len() ==> tree_of(#[trigger] t.children@[k], hs, c[k], (depth - 1) as nat)
        }
    }
}

impl AgentStatus {
    /// The name under which the state is shown.
    fn label(&self) -> (s: String)
        ensures
            s@ == status_label(self@),
    {
        match self {
            AgentStatus::Spawning => String::from_str("spawning"),
            AgentStatus::Running => String::from_str("running"),
            AgentStatus::WaitingForApproval => String::from_str("waiting_approval"),
            AgentStatus::Completed { .. } => String::from_str("completed"),
            AgentStatus::Failed { .. } => String::from_str("failed"),
            AgentStatus::Killed => String::from_str("killed"),
        }
    }
}

impl AgentSpawner {
    fn build_tree(&self, agent_id: u128, depth: usize) -> (t: AgentTree)
        requires
            self.wf(),
        ensures
            tree_of(t, self.handles(), agent_id, depth as nat),
        decreases depth,
    {
        let hs = Ghost(self.handles());
        match self.find(agent_id) {
            None => AgentTree {
                agent_id,
                task: String::from_str("unknown"),
                status: String::from_str("unknown"),
                children: Vec::new(),
            },
            Some(i) => {
                let task = self.agents[i].task.clone();
                let status = self.agents[i].status.label();
                let mut children: Vec<AgentTree> = Vec::new();
                if depth > 0 {
                    let mut j: usize = 0;
                    while j < self.agents.len()
                        invariant
                            self.wf(),
                            hs@ == self.handles(),
                            depth > 0,
                            j <= self.agents@.len(),
                            children@.len() == children_of(hs@.subrange(0, j as int), agent_id).len(),
                            forall|k: int|
                                0 <= k < children@.len() ==> tree_of(
                                    #[trigger] children@[k],
                                    hs@,
                                    children_of(hs@.subrange(0, j as int), agent_id)[k],
                                    (depth - 1) as nat,
                                ),
                        decreases self.agents@.len() - j,
                    {
                        let ghost prev = children_of(hs@.subrange(0, j as int), agent_id);
                        assert(hs@.subrange(0, j + 1).drop_last() =~= hs@.subrange(0, j as int));
                        if self.agents[j].parent_id == Some(agent_id) {
                            let sub = self.build_tree(self.agents[j].agent_id, depth - 1);
                            children.push(sub);
                        }
                        j += 1;
                        proof {
                            let now = children_of(hs@.subrange(0, j as int), agent_id);
                            assert forall|k: int| 0 <= k < children@.len() implies tree_of(
                                #[trigger] children@[k],
                                hs@,
                                now[k],
                                (depth - 1) as nat,
                            ) by {
                                if k < prev.len() {
                                    assert(now[k] == prev[k]);
                                }
                            }
                        }
                    }
                    assert(hs@.subrange(0, hs@.len() as int) =~= hs@);
                }
                AgentTree { agent_id, task, status, children }
            },
        }
    }

    /// The tree below the first agent spawned without a parent, followed as
    /// deep as there are agents. With no such agent the tree is that of a
    /// fresh random identifier, which names no agent but by chance: a single
    /// "unknown" node.
    pub fn get_agent_tree(&self) -> (t: AgentTree)
        requires
            self.wf(),
        ensures
            match first_root(self.handles()) {
                Some(root) => tree_of(t, self.handles(), root, self.handles().len()),
                None => tree_of(t, self.handles(), t.agent_id, self.handles().len()),
            },
    {
        let mut root: Option<u128> = None;
        let mut j: usize = 0;
        while j < self.agents.len()
            invariant
                j <= self.agents@.len(),
                root == first_root(self.handles().subrange(0, j as int)),
            decreases self.agents@.len() - j,
        {
            assert(self.handles().subrange(0, j + 1).drop_last() =~= self.handles().subrange(0, j as int));
            if root.is_none() && self.agents[j].parent_id.is_none() {
                root = Some(self.agents[j].agent_id);
            }
            j += 1;
        }
        assert(self.handles().subrange(0, self.handles().len() as int) =~= self.handles());
        let n = self.agents.len();
        match root {
            Some(r) => self.build_tree(r, n),
            None => self.build_tree(new_uuid(), n),
        }
    }
}


/// Setting an agent's state is read back by the next look at that agent (so
/// a completed agent is joined with its result, and a failed or killed one
/// is refused), and every other agent reads as before.
pub proof fn status_write_then_read(hs: Seq<AgentHandleView>, id: u128, s: AgentStatusView)
    requires
        ids_distinct(hs),
        has_id(hs, id),
    ensures
        ids_distinct(status_set(hs, id, s)),
        has_id(status_set(hs, id, s), id),
        status_set(hs, id, s)[position_of(status_set(hs, id, s), id)] == with_status(
            hs[position_of(hs, id)],
            s,
        ),
        forall|other: u128|
            other != id ==> (has_id(status_set(hs, id, s), other) == has_id(hs, other)),
        forall|other: u128|
            other != id && has_id(hs, other) ==> status_set(hs, id, s)[position_of(
                status_set(hs, id, s),
                other,
            )] == hs[position_of(hs, other)],
{
    let p = position_of(hs, id);
    let n = status_set(hs, id, s);
    lemma_update_keeps_distinct(hs, p, with_status(hs[p], s));
    lemma_position_unique(n, p);
    assert forall|other: u128| other != id implies (has_id(n, other) == has_id(hs, other)) by {
        if has_id(n, other) {
            let k = position_of(n, other);
            assert(hs[k].agent_id == other);
        }
        if has_id(hs, other) {
            let k = position_of(hs, other);
            assert(n[k].agent_id == other);
        }
    }
    assert forall|other: u128| other != id && has_id(hs, other) implies n[position_of(n, other)]
        == hs[position_of(hs, other)] by {
        let k = position_of(hs, other);
        assert(k != p);
        assert(n[k].agent_id == other);
        lemma_position_unique(n, k);
    }
}

} // verus!
