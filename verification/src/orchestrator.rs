//! The orchestrator's registry of agents, its lifecycle, its message
//! routing and the accounting of ticks and rounds.
//!
//! Running an agent's WebAssembly is the driver's work: it asks this state
//! what to do (`begin_tick`, `round_agents`), does it, and hands back what
//! happened (`finish_tick`, `record_tick`, `finish_round`).

use std::collections::VecDeque;
use vstd::prelude::*;

use crate::ipc::AgentMessage;
use crate::snapshot::{
    agent_status_to_string, fuel_sum, lemma_checkpoint_round_trip, lemma_restore_distinct, parse_agent_status, records,
    restore_agents,
    restored_view, snapshot_agents, snapshot_version, snapshot_version_spec, upsert, AgentSnapshot, CumulativeStats,
    OrchestratorSnapshot, SnapshotError,
};
use crate::text::same_text;
use crate::router::{contains_id, distinct_ids, ids_of, lemma_targets_known, targets_for, MessageRouter, Router, RouterConfig, Topology};
use crate::router::{glob_match, glob_valid, matched_by, not_sender};

verus! {

pub type AgentId = String;

/// Status of an agent in the orchestrator.
#[derive(Debug, Clone, PartialEq, Eq)]
pub enum AgentStatus {
    /// Agent loaded, init called, ready for ticks.
    Running,
    /// Agent explicitly paused by the host.
    Paused,
    /// Agent exited with a trap or runtime error.
    Crashed(String),
    /// Agent was killed / removed.
    Terminated,
}

/// The value an `AgentStatus` stands for.
pub enum StatusView {
    Running,
    Paused,
    Crashed(Seq<char>),
    Terminated,
}

impl View for AgentStatus {
    type V = StatusView;

    open spec fn view(&self) -> StatusView {
        match self {
            AgentStatus::Running => StatusView::Running,
            AgentStatus::Paused => StatusView::Paused,
            AgentStatus::Crashed(m) => StatusView::Crashed(m@),
            AgentStatus::Terminated => StatusView::Terminated,
        }
    }
}

impl AgentStatus {
    /// A copy of this status.
    pub fn duplicate(&self) -> (r: Self)
        ensures
            r@ == self@,
    {
        match self {
            AgentStatus::Running => AgentStatus::Running,
            AgentStatus::Paused => AgentStatus::Paused,
            AgentStatus::Crashed(m) => AgentStatus::Crashed(m.clone()),
            AgentStatus::Terminated => AgentStatus::Terminated,
        }
    }

    pub fn is_running(&self) -> (b: bool)
        ensures
            b == (self@ == StatusView::Running),
    {
        match self {
            AgentStatus::Running => true,
            _ => false,
        }
    }

    pub fn is_paused(&self) -> (b: bool)
        ensures
            b == (self@ == StatusView::Paused),
    {
        match self {
            AgentStatus::Paused => true,
            _ => false,
        }
    }

    pub fn is_crashed(&self) -> (b: bool)
        ensures
            b == (self@ is Crashed),
    {
        match self {
            AgentStatus::Crashed(_) => true,
            _ => false,
        }
    }
}

/// Configuration for the orchestrator.
#[derive(Debug, Clone, Copy, PartialEq, Eq, Structural)]
pub struct OrchestratorConfig {
    /// Default fuel budget per agent (overridable per spawn).
    pub default_fuel: u64,
    /// Maximum number of agents allowed.
    pub max_agents: usize,
}

impl Default for OrchestratorConfig {
    fn default() -> (r: Self)
        ensures
            r.default_fuel == 500_000,
            r.max_agents == 64,
    {
        OrchestratorConfig { default_fuel: 500_000, max_agents: 64 }
    }
}

/// Why an orchestrator operation was refused, or a message not delivered.
#[derive(Debug, Clone, PartialEq, Eq)]
pub enum OrchestratorError {
    /// An agent with this ID is already registered.
    AlreadyExists(AgentId),
    /// The registry already holds the maximum number of agents.
    MaxAgents(usize),
    /// No agent with this ID is registered.
    NotFound(AgentId),
    /// The agent is not paused (its status is given).
    NotPaused(AgentId, AgentStatus),
    /// A peer message without a `to` member.
    MissingDestination,
    /// No agent matches the destination under the named topology.
    Unroutable { to: String, topology: String },
}

/// Result of a single agent tick.
#[derive(Debug, Clone)]
pub struct TickResult {
    pub agent_id: AgentId,
    pub message: Option<AgentMessage>,
    /// Number of peer messages from this agent's outbox that reached some
    /// agent this tick.
    pub messages_routed: usize,
    /// Number of peer messages dropped (target not found, etc.).
    pub messages_dropped: usize,
}

/// Summary of one round across all running agents.
#[derive(Debug, Clone)]
pub struct RoundSummary {
    pub results: Vec<TickResult>,
    /// Fuel consumed *this round only* (delta, not cumulative).
    pub round_fuel: u64,
    pub crashed: Vec<AgentId>,
    /// Total peer messages successfully routed this round.
    pub messages_routed: usize,
    /// Peer messages dropped because target was not found (includes DLQ).
    pub messages_dropped: usize,
    /// Number of unroutable messages moved to the Dead Letter Queue this round.
    pub messages_dlq: usize,
    /// Current depth of the Dead Letter Queue.
    pub dlq_depth: usize,
    /// Name of the routing topology active this round.
    pub routing_topology: String,
    /// Inbox depth of each agent with messages waiting, in registry order.
    pub agent_inbox_depths: Vec<(AgentId, usize)>,
}

/// What a tick starts with: an agent that is not Running is skipped with
/// an empty result; a Running one is run, after the first message of its
/// inbox (if any) is handed to it.
#[derive(Debug)]
pub enum TickStart {
    Skipped(TickResult),
    Run(Option<AgentMessage>),
}

/// How the agent's `_cage_tick` call ended.
#[derive(Debug, Clone)]
pub enum TickCall {
    /// It returned this code.
    Returned(i32),
    /// It trapped, with this description.
    Trapped(String),
    /// The agent does not export `_cage_tick`.
    Missing,
}

/// What happened while an agent ran one tick.
#[derive(Debug)]
pub struct TickOutcome {
    pub call: TickCall,
    /// The message the agent reported with `cage_send` during a tick that
    /// returned 0.
    pub message: Option<AgentMessage>,
    /// Fuel left before and after the call.
    pub fuel_before: u64,
    pub fuel_after: u64,
    /// Peer messages the agent queued during the tick, in order.
    pub outbox: Vec<AgentMessage>,
}

/// `a - b`, or 0 when `b` exceeds `a`.
pub open spec fn saturating_diff(a: u64, b: u64) -> u64 {
    if a >= b {
        (a - b) as u64
    } else {
        0
    }
}

/// An agent's record after a tick, before its outbox is routed: fuel and
/// tick counted, a trap or an empty tank marks it Crashed, and its pending
/// outbox is taken for routing.
pub open spec fn tick_account(a: AgentView, outcome: TickOutcome) -> AgentView {
    let status = match outcome.call {
        TickCall::Trapped(m) => StatusView::Crashed(m@),
        _ => a.status,
    };
    let status = if outcome.fuel_after == 0 && status == StatusView::Running {
        StatusView::Crashed("out of fuel"@)
    } else {
        status
    };
    AgentView {
        fuel_consumed: (a.fuel_consumed + saturating_diff(outcome.fuel_before, outcome.fuel_after)) as u64,
        tick_count: (a.tick_count + 1) as u32,
        status,
        outbox: Seq::empty(),
        ..a
    }
}

/// The message a tick reports: the one sent during a tick that returned 0.
pub open spec fn tick_message(outcome: TickOutcome) -> Option<AgentMessage> {
    match outcome.call {
        TickCall::Returned(code) => if code == 0 {
            outcome.message
        } else {
            None
        },
        _ => None,
    }
}

/// Whether a tick's counters fit their machine integers.
pub open spec fn tick_fits(v: OrchestratorView, a: AgentView, outcome: TickOutcome) -> bool {
    &&& a.fuel_consumed + saturating_diff(outcome.fuel_before, outcome.fuel_after) <= u64::MAX
    &&& a.tick_count < u32::MAX
    &&& v.messages_dlq + a.outbox.len() + outcome.outbox@.len() <= usize::MAX
}

/// Whether an agent is Running.
pub open spec fn running() -> spec_fn(AgentView) -> bool {
    |a: AgentView| a.status == StatusView::Running
}

/// Whether an agent has messages waiting in its inbox.
pub open spec fn has_mail() -> spec_fn(AgentView) -> bool {
    |a: AgentView| a.inbox.len() > 0
}

/// The per-agent tallies of a round being played.
#[derive(Debug)]
pub struct RoundTally {
    pub results: Vec<TickResult>,
    pub round_fuel: u64,
    pub crashed: Vec<AgentId>,
    pub messages_routed: usize,
    pub messages_dropped: usize,
}

/// The routed counts of tick results, added up.
pub open spec fn routed_sum(results: Seq<TickResult>) -> int
    decreases results.len(),
{
    if results.len() == 0 {
        0
    } else {
        routed_sum(results.drop_last()) + results.last().messages_routed
    }
}

/// The dropped counts of tick results, added up.
pub open spec fn dropped_sum(results: Seq<TickResult>) -> int
    decreases results.len(),
{
    if results.len() == 0 {
        0
    } else {
        dropped_sum(results.drop_last()) + results.last().messages_dropped
    }
}

impl RoundTally {
    /// Whether the tally's message counters are the sums over its results.
    pub open spec fn counts_match(&self) -> bool {
        &&& self.messages_routed == routed_sum(self.results@)
        &&& self.messages_dropped == dropped_sum(self.results@)
    }

    /// An empty tally.
    pub fn new() -> (r: Self)
        ensures
            r.results@.len() == 0,
            r.round_fuel == 0,
            r.crashed@.len() == 0,
            r.messages_routed == 0,
            r.messages_dropped == 0,
            r.counts_match(),
    {
        RoundTally { results: Vec::new(), round_fuel: 0, crashed: Vec::new(), messages_routed: 0, messages_dropped: 0 }
    }

    /// Whether recording `outcome` keeps the tally's counters in range.
    pub open spec fn fits(&self, v: OrchestratorView, id: Seq<char>, outcome: Option<TickResult>, fuel_before: u64) -> bool {
        match outcome {
            Some(t) => {
                &&& self.messages_routed + t.messages_routed <= usize::MAX
                &&& self.messages_dropped + t.messages_dropped <= usize::MAX
                &&& match lookup(v.agents, id) {
                    Some(a) => self.round_fuel + saturating_diff(a.fuel_consumed, fuel_before) <= u64::MAX,
                    None => true,
                }
            },
            None => true,
        }
    }

    /// Whether recording `outcome` keeps the tally's counters in range.
    pub fn fits_check(&self, orch: &Orchestrator, id: &str, outcome: &Option<TickResult>, fuel_before: u64) -> (b: bool)
        requires
            orch.wf(),
        ensures
            b == self.fits(orch@, id@, *outcome, fuel_before),
    {
        match outcome {
            Some(t) => {
                if self.messages_routed > usize::MAX - t.messages_routed {
                    return false;
                }
                if self.messages_dropped > usize::MAX - t.messages_dropped {
                    return false;
                }
                match orch.find(id) {
                    Some(i) => {
                        assert(orch@.agents[i as int] == orch.agents@[i as int]@);
                        let burnt = orch.agents[i].fuel_consumed.saturating_sub(fuel_before);
                        self.round_fuel <= u64::MAX - burnt
                    },
                    None => true,
                }
            },
            None => true,
        }
    }

    /// Record how one agent's tick went, in the round played on `orch`:
    /// a tick that failed (`None`) counts the agent as crashed with an empty result;
    /// a tick that succeeded adds its routed and dropped messages, counts the
    /// agent as crashed if it is now Crashed, and adds the fuel it burnt
    /// since `fuel_before`.
    pub fn record(&mut self, orch: &Orchestrator, id: &str, outcome: Option<TickResult>, fuel_before: u64)
        requires
            orch.wf(),
            old(self).fits(orch@, id@, outcome, fuel_before),
        ensures
            match outcome {
                Some(t) => {
                    &&& final(self).results@ == old(self).results@.push(t)
                    &&& final(self).messages_routed == old(self).messages_routed + t.messages_routed
                    &&& final(self).messages_dropped == old(self).messages_dropped + t.messages_dropped
                    &&& match lookup(orch@.agents, id@) {
                        Some(a) => {
                            &&& final(self).round_fuel == old(self).round_fuel + saturating_diff(a.fuel_consumed, fuel_before)
                            &&& ids_of(final(self).crashed@) == if a.status is Crashed {
                                ids_of(old(self).crashed@).push(id@)
                            } else {
                                ids_of(old(self).crashed@)
                            }
                        },
                        None => final(self).round_fuel == old(self).round_fuel && final(self).crashed@ == old(self).crashed@,
                    }
                },
                None => {
                    &&& final(self).results@.len() == old(self).results@.len() + 1
                    &&& final(self).results@.drop_last() == old(self).results@
                    &&& final(self).results@.last().agent_id@ == id@
                    &&& final(self).results@.last().message is None
                    &&& final(self).results@.last().messages_routed == 0
                    &&& final(self).results@.last().messages_dropped == 0
                    &&& ids_of(final(self).crashed@) == ids_of(old(self).crashed@).push(id@)
                    &&& final(self).round_fuel == old(self).round_fuel
                    &&& final(self).messages_routed == old(self).messages_routed
                    &&& final(self).messages_dropped == old(self).messages_dropped
                },
            },
            old(self).counts_match() ==> final(self).counts_match(),
    {
        let ghost old_crashed = self.crashed@;
        let ghost old_results = self.results@;
        match outcome {
            Some(t) => {
                self.messages_routed = self.messages_routed + t.messages_routed;
                self.messages_dropped = self.messages_dropped + t.messages_dropped;
                match orch.find(id) {
                    Some(i) => {
                        assert(orch@.agents[i as int] == orch.agents@[i as int]@);
                        if orch.agents[i].status.is_crashed() {
                            self.crashed.push(String::from_str(id));
                            assert(ids_of(self.crashed@) =~= ids_of(old_crashed).push(id@));
                        }
                        self.results.push(t);
                        let fuel_after = orch.agents[i].fuel_consumed;
                        self.round_fuel = self.round_fuel + fuel_after.saturating_sub(fuel_before);
                    },
                    None => {
                        self.results.push(t);
                    },
                }
            },
            None => {
                self.crashed.push(String::from_str(id));
                assert(ids_of(self.crashed@) =~= ids_of(old_crashed).push(id@));
                self.results.push(
                    TickResult { agent_id: String::from_str(id), message: None, messages_routed: 0, messages_dropped: 0 },
                );
                assert(self.results@.drop_last() =~= old_results);
            },
        }
        assert(self.results@.drop_last() =~= old_results);
    }
}

/// Whether closing a round keeps the orchestrator's counters in range.
pub open spec fn round_fits(v: OrchestratorView, tally: RoundTally) -> bool {
    &&& v.round_count < usize::MAX
    &&& v.total_messages_routed + tally.messages_routed <= usize::MAX
    &&& v.total_messages_dropped + tally.messages_dropped <= usize::MAX
    &&& v.total_messages_dlq + v.messages_dlq <= usize::MAX
}

/// The state after a round with tallies `tally` is closed: one more round,
/// the round's message counts added to the totals, and the DLQ counter of
/// the round moved to its total.
pub open spec fn close_round(v: OrchestratorView, tally: RoundTally) -> OrchestratorView {
    OrchestratorView {
        messages_dlq: 0,
        round_count: (v.round_count + 1) as usize,
        total_messages_routed: (v.total_messages_routed + tally.messages_routed) as usize,
        total_messages_dropped: (v.total_messages_dropped + tally.messages_dropped) as usize,
        total_messages_dlq: (v.total_messages_dlq + v.messages_dlq) as usize,
        ..v
    }
}

/// Law: right after a round is closed, a checkpoint is due exactly when a
/// positive interval `k` and a directory are set and the new round count
/// is a multiple of `k`; the agents are untouched by closing the round.
pub proof fn law_checkpoint_after_round(v: OrchestratorView, tally: RoundTally)
    requires
        round_fits(v, tally),
    ensures
        checkpoint_due_spec(close_round(v, tally)) <==> match (v.save_interval, v.checkpoint_dir) {
            (Some(k), Some(_)) => k > 0 && (v.round_count + 1) % (k as int) == 0,
            _ => false,
        },
        close_round(v, tally).agents == v.agents,
        close_round(v, tally).round_count == v.round_count + 1,
{
}

/// Whether a checkpoint is due in state `v`: an interval and a directory
/// are set and the round count is a multiple of the interval.
pub open spec fn checkpoint_due_spec(v: OrchestratorView) -> bool {
    match (v.save_interval, v.checkpoint_dir) {
        (Some(n), Some(_)) => if n == 0 {
            v.round_count == 0
        } else {
            v.round_count % n == 0
        },
        _ => false,
    }
}

/// Summary of one agent, without its memory or messages.
#[derive(Debug, Clone)]
pub struct AgentSummary {
    pub id: AgentId,
    pub status: String,
    pub wasm_path: String,
    pub fuel_consumed: u64,
    pub fuel_remaining: u64,
    pub tick_count: u32,
    pub inbox_depth: usize,
    pub outbox_depth: usize,
}

/// Human-readable summary of an orchestrator.
#[derive(Debug, Clone)]
pub struct OrchestratorSummary {
    pub version: String,
    pub round_count: usize,
    pub agent_count: usize,
    pub agents: Vec<AgentSummary>,
    pub total_messages_routed: usize,
    pub total_messages_dropped: usize,
    pub total_messages_dlq: usize,
    pub total_fuel_consumed: u64,
    pub dlq_depth: usize,
    pub topology: String,
}

/// Whether `s` summarises agent `a`, which had `fuel_remaining` fuel left.
pub open spec fn summarises(s: AgentSummary, a: AgentView, fuel_remaining: u64) -> bool {
    &&& s.id@ == a.id
    &&& s.status@ == crate::snapshot::status_text(a.status)
    &&& s.wasm_path@ == a.wasm_path
    &&& s.fuel_consumed == a.fuel_consumed
    &&& s.fuel_remaining == fuel_remaining
    &&& s.tick_count == a.tick_count
    &&& s.inbox_depth == a.inbox.len()
    &&& s.outbox_depth == a.outbox.len()
}

/// The orchestrator's record of one agent.
#[derive(Debug)]
pub struct AgentRecord {
    pub id: AgentId,
    pub wasm_path: String,
    /// Messages from other agents queued for delivery before next tick.
    pub inbox: VecDeque<AgentMessage>,
    /// Messages this agent sent that are not routed yet.
    pub outbox: Vec<AgentMessage>,
    /// Environment variables given to the agent.
    pub env: Vec<(String, String)>,
    /// URL prefixes the agent may reach.
    pub allowed_urls: Vec<String>,
    pub fuel_consumed: u64,
    pub tick_count: u32,
    pub status: AgentStatus,
}

/// The value an `AgentRecord` stands for.
pub struct AgentView {
    pub id: Seq<char>,
    pub wasm_path: Seq<char>,
    pub inbox: Seq<AgentMessage>,
    pub outbox: Seq<AgentMessage>,
    pub env: Seq<(Seq<char>, Seq<char>)>,
    pub allowed_urls: Seq<Seq<char>>,
    pub fuel_consumed: u64,
    pub tick_count: u32,
    pub status: StatusView,
}

/// The views of a list of string pairs.
pub open spec fn pairs_view(pairs: Seq<(String, String)>) -> Seq<(Seq<char>, Seq<char>)> {
    pairs.map_values(|p: (String, String)| (p.0@, p.1@))
}

impl View for AgentRecord {
    type V = AgentView;

    open spec fn view(&self) -> AgentView {
        AgentView {
            id: self.id@,
            wasm_path: self.wasm_path@,
            inbox: self.inbox@,
            outbox: self.outbox@,
            env: pairs_view(self.env@),
            allowed_urls: ids_of(self.allowed_urls@),
            fuel_consumed: self.fuel_consumed,
            tick_count: self.tick_count,
            status: self.status@,
        }
    }
}

/// The value an `Orchestrator` stands for.
pub struct OrchestratorView {
    pub config: OrchestratorConfig,
    /// The registered agents, in registration order.
    pub agents: Seq<AgentView>,
    /// Messages that were neither delivered nor dead-lettered, with their sender.
    pub observed: Seq<(Seq<char>, AgentMessage)>,
    pub topology: Topology,
    pub hub: Option<Seq<char>>,
    pub dlq_enabled: bool,
    /// The Dead Letter Queue, oldest first.
    pub dlq: Seq<AgentMessage>,
    /// Messages added to the DLQ since the last round ended.
    pub messages_dlq: usize,
    pub round_count: usize,
    pub total_messages_routed: usize,
    pub total_messages_dropped: usize,
    pub total_messages_dlq: usize,
    pub save_interval: Option<usize>,
    pub checkpoint_dir: Option<Seq<char>>,
}

/// The identifiers of a list of agent views.
pub open spec fn agent_ids(agents: Seq<AgentView>) -> Seq<Seq<char>> {
    agents.map_values(|a: AgentView| a.id)
}

/// The position of the agent named `id`, if one is registered.
pub open spec fn slot(agents: Seq<AgentView>, id: Seq<char>) -> Option<int> {
    if exists|i: int| 0 <= i < agents.len() && agents[i].id == id {
        Some(choose|i: int| 0 <= i < agents.len() && agents[i].id == id)
    } else {
        None
    }
}

/// The agent named `id`, if one is registered.
pub open spec fn lookup(agents: Seq<AgentView>, id: Seq<char>) -> Option<AgentView> {
    match slot(agents, id) {
        Some(i) => Some(agents[i]),
        None => None,
    }
}

/// The optional string views of an optional string.
pub open spec fn opt_str(o: Option<String>) -> Option<Seq<char>> {
    match o {
        Some(s) => Some(s@),
        None => None,
    }
}

/// `agents` after `msg` was queued in the inbox of each agent that `targets` names.
pub open spec fn deliver(agents: Seq<AgentView>, targets: Seq<Seq<char>>, msg: AgentMessage) -> Seq<AgentView> {
    agents.map_values(
        |a: AgentView|
            if targets.contains(a.id) {
                AgentView { inbox: a.inbox.push(msg), ..a }
            } else {
                a
            },
    )
}

/// The targets of a message under the view's routing configuration.
pub open spec fn route_targets(v: OrchestratorView, from: Seq<char>, to: Seq<char>) -> Seq<Seq<char>> {
    targets_for(v.topology, v.hub, from, to, agent_ids(v.agents))
}

/// The state after a message from `from` reached nobody: it goes to the
/// DLQ when that is enabled, and is observed otherwise.
pub open spec fn unroutable_step(v: OrchestratorView, from: Seq<char>, msg: AgentMessage) -> OrchestratorView {
    if v.dlq_enabled {
        OrchestratorView { dlq: v.dlq.push(msg), messages_dlq: (v.messages_dlq + 1) as usize, ..v }
    } else {
        OrchestratorView { observed: v.observed.push((from, msg)), ..v }
    }
}

/// Routing one peer message from `from`: the next state, and whether the
/// message reached at least one agent.  A message without destination, or
/// whose destination names nobody, is unroutable (see `unroutable_step`);
/// a routable one is queued in every target's inbox.
pub open spec fn route_step(v: OrchestratorView, from: Seq<char>, msg: AgentMessage) -> (OrchestratorView, bool) {
    let to = msg.destination_spec();
    if to.len() == 0 {
        (unroutable_step(v, from, msg), false)
    } else {
        let targets = route_targets(v, from, to);
        if targets.len() == 0 {
            (unroutable_step(v, from, msg), false)
        } else {
            (OrchestratorView { agents: deliver(v.agents, targets, msg), ..v }, true)
        }
    }
}

/// Routing `msgs` from `from` one after the other: the final state and the
/// number of messages that reached nobody.
pub open spec fn route_all(v: OrchestratorView, from: Seq<char>, msgs: Seq<AgentMessage>) -> (OrchestratorView, nat)
    decreases msgs.len(),
{
    if msgs.len() == 0 {
        (v, 0)
    } else {
        let (v1, dropped) = route_all(v, from, msgs.drop_last());
        let (v2, ok) = route_step(v1, from, msgs.last());
        (v2, if ok { dropped } else { dropped + 1 })
    }
}

/// Delivering to one more target changes exactly that target's inbox.
proof fn lemma_deliver_step(agents: Seq<AgentView>, targets: Seq<Seq<char>>, k: int, i: int, msg: AgentMessage)
    requires
        distinct_ids(agent_ids(agents)),
        distinct_ids(targets),
        0 <= k < targets.len(),
        0 <= i < agents.len(),
        agents[i].id == targets[k],
    ensures
        deliver(agents, targets.take(k + 1), msg) == deliver(agents, targets.take(k), msg).update(
            i,
            AgentView { inbox: deliver(agents, targets.take(k), msg)[i].inbox.push(msg), ..deliver(agents, targets.take(k), msg)[i] },
        ),
{
    let before = deliver(agents, targets.take(k), msg);
    let after = deliver(agents, targets.take(k + 1), msg);
    let expect = before.update(i, AgentView { inbox: before[i].inbox.push(msg), ..before[i] });
    assert(!targets.take(k).contains(targets[k])) by {
        if targets.take(k).contains(targets[k]) {
            let m = choose|m: int| 0 <= m < k && targets.take(k)[m] == targets[k];
            assert(targets[m] == targets[k]);
        }
    }
    assert(targets.take(k + 1)[k] == targets[k]);
    assert forall|j: int| 0 <= j < agents.len() implies after[j] == expect[j] by {
        if j != i {
            assert(agent_ids(agents)[j] == agents[j].id);
            assert(agent_ids(agents)[i] == agents[i].id);
            assert(agents[j].id != targets[k]);
            let t1 = targets.take(k + 1);
            let t0 = targets.take(k);
            let x = agents[j].id;
            assert(t1.contains(x) == t0.contains(x)) by {
                if t1.contains(x) {
                    let m = choose|m: int| 0 <= m < t1.len() && t1[m] == x;
                    assert(m < k);
                    assert(t0[m] == x);
                }
                if t0.contains(x) {
                    let m = choose|m: int| 0 <= m < t0.len() && t0[m] == x;
                    assert(t1[m] == x);
                }
            }
        }
    }
    assert(after =~= expect);
}

/// A copy of a list of strings.
pub fn copy_strings(v: &Vec<String>) -> (r: Vec<String>)
    ensures
        r@ == v@,
{
    let mut r: Vec<String> = Vec::new();
    let mut i: usize = 0;
    while i < v.len()
        invariant
            i <= v.len(),
            r@ == v@.take(i as int),
        decreases v.len() - i,
    {
        r.push(v[i].clone());
        assert(r@ =~= v@.take(i + 1));
        i += 1;
    }
    assert(v@.take(v.len() as int) =~= v@);
    r
}

/// A copy of a list of string pairs.
pub fn copy_pairs(v: &Vec<(String, String)>) -> (r: Vec<(String, String)>)
    ensures
        r@ == v@,
{
    let mut r: Vec<(String, String)> = Vec::new();
    let mut i: usize = 0;
    while i < v.len()
        invariant
            i <= v.len(),
            r@ == v@.take(i as int),
        decreases v.len() - i,
    {
        r.push((v[i].0.clone(), v[i].1.clone()));
        assert(r@ =~= v@.take(i + 1));
        i += 1;
    }
    assert(v@.take(v.len() as int) =~= v@);
    r
}

/// A copy of a list of messages.
pub fn copy_messages(v: &Vec<AgentMessage>) -> (r: Vec<AgentMessage>)
    ensures
        r@ == v@,
{
    let mut r: Vec<AgentMessage> = Vec::new();
    let mut i: usize = 0;
    while i < v.len()
        invariant
            i <= v.len(),
            r@ == v@.take(i as int),
        decreases v.len() - i,
    {
        r.push(v[i].duplicate());
        assert(r@ =~= v@.take(i + 1));
        i += 1;
    }
    assert(v@.take(v.len() as int) =~= v@);
    r
}

/// The messages of a queue, oldest first.
pub fn queue_to_vec(q: &VecDeque<AgentMessage>) -> (r: Vec<AgentMessage>)
    ensures
        r@ == q@,
{
    let mut r: Vec<AgentMessage> = Vec::new();
    let mut i: usize = 0;
    while i < q.len()
        invariant
            i <= q@.len(),
            r@ == q@.take(i as int),
        decreases q@.len() - i,
    {
        r.push(q[i].duplicate());
        assert(r@ =~= q@.take(i + 1));
        i += 1;
    }
    assert(q@.take(q@.len() as int) =~= q@);
    r
}

/// A queue holding a list of messages, first message in front.
pub fn vec_to_queue(v: &Vec<AgentMessage>) -> (r: VecDeque<AgentMessage>)
    ensures
        r@ == v@,
{
    let mut r: VecDeque<AgentMessage> = VecDeque::new();
    let mut i: usize = 0;
    while i < v.len()
        invariant
            i <= v.len(),
            r@ == v@.take(i as int),
        decreases v.len() - i,
    {
        r.push_back(v[i].duplicate());
        assert(r@ =~= v@.take(i + 1));
        i += 1;
    }
    assert(v@.take(v.len() as int) =~= v@);
    r
}

/// The fuel of a prefix of the agents is at most that of all of them.
proof fn lemma_fuel_sum_prefix(agents: Seq<AgentView>, i: int)
    requires
        0 <= i <= agents.len(),
    ensures
        fuel_sum(agents.take(i)) <= fuel_sum(agents),
        i < agents.len() ==> fuel_sum(agents.take(i + 1)) == fuel_sum(agents.take(i)) + agents[i].fuel_consumed,
    decreases agents.len(),
{
    if i < agents.len() {
        assert(agents.take(i + 1).drop_last() =~= agents.take(i));
    }
    if i < agents.len() {
        lemma_fuel_sum_prefix(agents.drop_last(), i);
        assert(agents.drop_last().take(i) =~= agents.take(i));
    } else {
        assert(agents.take(i) =~= agents);
    }
}

/// The state after pausing the agent named `id` (unchanged when there is none).
pub open spec fn pause_spec(v: OrchestratorView, id: Seq<char>) -> OrchestratorView {
    match slot(v.agents, id) {
        Some(i) => OrchestratorView {
            agents: v.agents.update(i, AgentView { status: StatusView::Paused, ..v.agents[i] }),
            ..v
        },
        None => v,
    }
}

/// The state after resuming the agent named `id`, and whether it was
/// resumed: only a Paused agent is, and it becomes Running.
pub open spec fn resume_spec(v: OrchestratorView, id: Seq<char>) -> (OrchestratorView, bool) {
    match slot(v.agents, id) {
        Some(i) => if v.agents[i].status == StatusView::Paused {
            (
                OrchestratorView {
                    agents: v.agents.update(i, AgentView { status: StatusView::Running, ..v.agents[i] }),
                    ..v
                },
                true,
            )
        } else {
            (v, false)
        },
        None => (v, false),
    }
}

/// Law: resuming an agent right after pausing it succeeds, and leaves the
/// agent Running with everything else as it was before the pause.
pub proof fn law_pause_then_resume(v: OrchestratorView, id: Seq<char>)
    requires
        distinct_ids(agent_ids(v.agents)),
        slot(v.agents, id) is Some,
    ensures
        resume_spec(pause_spec(v, id), id).1,
        resume_spec(pause_spec(v, id), id).0 == (OrchestratorView {
            agents: v.agents.update(
                slot(v.agents, id)->0,
                AgentView { status: StatusView::Running, ..v.agents[slot(v.agents, id)->0] },
            ),
            ..v
        }),
{
    let i = slot(v.agents, id)->0;
    let p = pause_spec(v, id);
    assert(p.agents[i].id == id);
    assert(slot(p.agents, id) is Some);
    let j = slot(p.agents, id)->0;
    assert(p.agents[j].id == id);
    if j != i {
        assert(v.agents[j].id == id);
    }
    assert(agent_ids(p.agents) =~= agent_ids(v.agents));
    if j != i {
        assert(agent_ids(v.agents)[j] == agent_ids(v.agents)[i]);
    }
    assert(p.agents.update(i, AgentView { status: StatusView::Running, ..p.agents[i] }) =~= v.agents.update(
        i,
        AgentView { status: StatusView::Running, ..v.agents[i] },
    ));
}

/// Law: routing accounts for every message.  A message that reaches some
/// agent is queued in the inboxes of its targets only, each of them a
/// registered agent, and nothing else changes; a message that reaches
/// nobody leaves every inbox alone and is either put in the DLQ (when the
/// DLQ is enabled) or observed.
pub proof fn law_route_accounts_for_message(v: OrchestratorView, from: Seq<char>, msg: AgentMessage)
    requires
        v.topology == Topology::HubAndSpoke ==> v.hub is Some,
    ensures
        ({
            let (w, ok) = route_step(v, from, msg);
            &&& ok ==> {
                &&& w == (OrchestratorView { agents: w.agents, ..v })
                &&& w.agents.len() == v.agents.len()
                &&& forall|i: int|
                    0 <= i < v.agents.len() ==> #[trigger] w.agents[i] == v.agents[i] || w.agents[i] == (AgentView {
                        inbox: v.agents[i].inbox.push(msg),
                        ..v.agents[i]
                    })
                &&& exists|i: int| 0 <= i < v.agents.len() && #[trigger] w.agents[i].inbox == v.agents[i].inbox.push(msg)
            }
            &&& !ok ==> {
                &&& w.agents == v.agents
                &&& if v.dlq_enabled {
                    w == (OrchestratorView { dlq: v.dlq.push(msg), messages_dlq: (v.messages_dlq + 1) as usize, ..v })
                } else {
                    w == (OrchestratorView { observed: v.observed.push((from, msg)), ..v })
                }
            }
        }),
{
    let to = msg.destination_spec();
    if to.len() != 0 {
        let t = route_targets(v, from, to);
        lemma_targets_known(v.topology, v.hub, from, to, agent_ids(v.agents));
        if t.len() != 0 {
            let w = route_step(v, from, msg).0;
            assert(t.contains(t[0]));
            assert(targets_for(v.topology, v.hub, from, to, agent_ids(v.agents)).contains(t[0]));
            assert(agent_ids(v.agents).contains(t[0]));
            let j = choose|j: int| 0 <= j < agent_ids(v.agents).len() && agent_ids(v.agents)[j] == t[0];
            assert(v.agents[j].id == t[0]);
            assert(w.agents[j].inbox == v.agents[j].inbox.push(msg));
        }
    }
}

/// Law: a message with a destination reaches exactly the agents its
/// topology names, each once: with direct routing the agent the
/// destination names; with broadcast every agent but the sender; with a
/// pattern every agent whose ID the destination glob matches; with
/// hub-and-spoke the hub, or (from the hub) the agent the destination
/// names.  Routing succeeds exactly when some registered agent is reached;
/// then each reached agent's inbox gains the message at its end, every
/// other agent is untouched, and nothing else changes.
pub proof fn law_route_reaches_its_targets(v: OrchestratorView, from: Seq<char>, msg: AgentMessage)
    requires
        distinct_ids(agent_ids(v.agents)),
        v.topology == Topology::HubAndSpoke ==> v.hub is Some,
        msg.destination_spec().len() != 0,
    ensures
        ({
            let to = msg.destination_spec();
            let (w, ok) = route_step(v, from, msg);
            let reached = |x: Seq<char>|
                match v.topology {
                    Topology::Direct => x == to,
                    Topology::Broadcast => x != from,
                    Topology::Pattern => glob_valid(to) && glob_match(to, x),
                    Topology::HubAndSpoke => if from == v.hub->0 {
                        x == to
                    } else {
                        x == v.hub->0
                    },
                };
            &&& ok <==> exists|i: int| 0 <= i < v.agents.len() && reached(#[trigger] v.agents[i].id)
            &&& ok ==> {
                &&& w.agents.len() == v.agents.len()
                &&& forall|i: int|
                    0 <= i < v.agents.len() ==> #[trigger] w.agents[i] == if reached(v.agents[i].id) {
                        AgentView { inbox: v.agents[i].inbox.push(msg), ..v.agents[i] }
                    } else {
                        v.agents[i]
                    }
                &&& w == (OrchestratorView { agents: w.agents, ..v })
            }
        }),
{
    let to = msg.destination_spec();
    let ids = agent_ids(v.agents);
    let t = targets_for(v.topology, v.hub, from, to, ids);
    let reached = |x: Seq<char>|
        match v.topology {
            Topology::Direct => x == to,
            Topology::Broadcast => x != from,
            Topology::Pattern => glob_valid(to) && glob_match(to, x),
            Topology::HubAndSpoke => if from == v.hub->0 {
                x == to
            } else {
                x == v.hub->0
            },
        };
    lemma_targets_known(v.topology, v.hub, from, to, ids);
    assert forall|i: int| 0 <= i < v.agents.len() implies (t.contains(#[trigger] v.agents[i].id) <==> reached(
        v.agents[i].id,
    )) by {
        let x = v.agents[i].id;
        assert(ids[i] == x);
        assert(ids.contains(x));
        match v.topology {
            Topology::Broadcast => {
                let p = not_sender(from);
                if x != from {
                    ids.lemma_filter_contains(p, i);
                }
                if t.contains(x) {
                    let k = choose|k: int| 0 <= k < t.len() && t[k] == x;
                    ids.lemma_filter_pred(p, k);
                }
            },
            Topology::Pattern => {
                if glob_valid(to) {
                    let p = matched_by(to);
                    if glob_match(to, x) {
                        ids.lemma_filter_contains(p, i);
                    }
                    if t.contains(x) {
                        let k = choose|k: int| 0 <= k < t.len() && t[k] == x;
                        ids.lemma_filter_pred(p, k);
                    }
                } else {
                    assert(t.len() == 0);
                }
            },
            Topology::Direct => {
                if x == to {
                    assert(t == seq![to]);
                    assert(t[0] == x);
                }
                if t.contains(x) {
                    assert(t.len() == 1);
                    assert(t[0] == x);
                }
            },
            Topology::HubAndSpoke => {
                let hub = v.hub->0;
                if from == hub {
                    if x == to {
                        assert(t == seq![to]);
                        assert(t[0] == x);
                    }
                } else {
                    if x == hub {
                        assert(t == seq![hub]);
                        assert(t[0] == x);
                    }
                }
                if t.contains(x) {
                    assert(t.len() == 1);
                    assert(t[0] == x);
                }
            },
        }
        assert(t.contains(x) <==> reached(x));
    }
    let (w, ok) = route_step(v, from, msg);
    assert(t == route_targets(v, from, to));
    if ok {
        assert(t.len() > 0);
        assert(t.contains(t[0]));
        assert(ids.contains(t[0]));
        let j = choose|j: int| 0 <= j < ids.len() && ids[j] == t[0];
        assert(v.agents[j].id == t[0]);
        assert(reached(v.agents[j].id));
        assert forall|i: int| 0 <= i < v.agents.len() implies #[trigger] w.agents[i] == if reached(v.agents[i].id) {
            AgentView { inbox: v.agents[i].inbox.push(msg), ..v.agents[i] }
        } else {
            v.agents[i]
        } by {
            assert(w.agents[i] == deliver(v.agents, t, msg)[i]);
        }
    } else {
        if exists|i: int| 0 <= i < v.agents.len() && reached(#[trigger] v.agents[i].id) {
            let i = choose|i: int| 0 <= i < v.agents.len() && reached(#[trigger] v.agents[i].id);
            assert(t.contains(v.agents[i].id));
            assert(t.len() > 0);
        }
    }
}

/// Law: what a tick does to an agent.  It burns the fuel that went from
/// the tank (none if the tank grew) and counts one more tick; only a trap
/// or an empty tank ends a Running agent: a trap crashes it with the
/// trap's description, an empty tank after any other end crashes a Running
/// agent as out of fuel, and a tick that ends in any other way (whatever
/// code `_cage_tick` returned, or none) with fuel left keeps its status.
/// Its identity, configuration and inbox are kept, and its outbox is taken
/// for routing.
pub proof fn law_tick_outcome(a: AgentView, outcome: TickOutcome)
    requires
        a.fuel_consumed + saturating_diff(outcome.fuel_before, outcome.fuel_after) <= u64::MAX,
        a.tick_count < u32::MAX,
    ensures
        outcome.fuel_before >= outcome.fuel_after ==> tick_account(a, outcome).fuel_consumed == a.fuel_consumed
            + outcome.fuel_before - outcome.fuel_after,
        outcome.fuel_before < outcome.fuel_after ==> tick_account(a, outcome).fuel_consumed == a.fuel_consumed,
        tick_account(a, outcome).tick_count == a.tick_count + 1,
        outcome.call matches TickCall::Trapped(m) ==> tick_account(a, outcome).status == StatusView::Crashed(m@),
        !(outcome.call is Trapped) && outcome.fuel_after > 0 ==> tick_account(a, outcome).status == a.status,
        !(outcome.call is Trapped) && outcome.fuel_after == 0 && a.status == StatusView::Running ==> tick_account(
            a,
            outcome,
        ).status == StatusView::Crashed("out of fuel"@),
        !(outcome.call is Trapped) && a.status != StatusView::Running ==> tick_account(a, outcome).status == a.status,
        tick_account(a, outcome).id == a.id,
        tick_account(a, outcome).wasm_path == a.wasm_path,
        tick_account(a, outcome).env == a.env,
        tick_account(a, outcome).allowed_urls == a.allowed_urls,
        tick_account(a, outcome).inbox == a.inbox,
        tick_account(a, outcome).outbox.len() == 0,
{
}

/// Law: closing a round adds the round's message counts to the running
/// totals (so the totals after several rounds are the sums over them),
/// moves the round's DLQ count to its total and resets it, counts the
/// round, and changes nothing else.
pub proof fn law_round_totals_accumulate(v: OrchestratorView, t1: RoundTally, t2: RoundTally)
    requires
        round_fits(v, t1),
    ensures
        close_round(v, t1).total_messages_routed == v.total_messages_routed + t1.messages_routed,
        close_round(v, t1).total_messages_dropped == v.total_messages_dropped + t1.messages_dropped,
        close_round(v, t1).total_messages_dlq == v.total_messages_dlq + v.messages_dlq,
        close_round(v, t1).messages_dlq == 0,
        close_round(v, t1).round_count == v.round_count + 1,
        close_round(v, t1) == (OrchestratorView {
            messages_dlq: close_round(v, t1).messages_dlq,
            round_count: close_round(v, t1).round_count,
            total_messages_routed: close_round(v, t1).total_messages_routed,
            total_messages_dropped: close_round(v, t1).total_messages_dropped,
            total_messages_dlq: close_round(v, t1).total_messages_dlq,
            ..v
        }),
        round_fits(close_round(v, t1), t2) ==> {
            let w = close_round(close_round(v, t1), t2);
            &&& w.total_messages_routed == v.total_messages_routed + t1.messages_routed + t2.messages_routed
            &&& w.total_messages_dropped == v.total_messages_dropped + t1.messages_dropped + t2.messages_dropped
            &&& w.round_count == v.round_count + 2
        },
{
}

/// Law: a tick counts the fuel it burnt and itself; an agent that trapped,
/// or that ran its tank empty, is no longer Running.
pub proof fn law_tick_accounting(a: AgentView, outcome: TickOutcome)
    requires
        a.fuel_consumed + saturating_diff(outcome.fuel_before, outcome.fuel_after) <= u64::MAX,
        a.tick_count < u32::MAX,
    ensures
        tick_account(a, outcome).fuel_consumed >= a.fuel_consumed,
        tick_account(a, outcome).tick_count == a.tick_count + 1,
        outcome.fuel_after == 0 ==> tick_account(a, outcome).status != StatusView::Running,
        outcome.call is Trapped ==> tick_account(a, outcome).status is Crashed,
        tick_account(a, outcome).id == a.id && tick_account(a, outcome).inbox == a.inbox,
{
}

/// Law: a paused agent is not among the agents a round ticks, and stays
/// out of them until it is resumed; every other agent keeps its place in
/// or out of the round.
pub proof fn law_paused_not_ticked(v: OrchestratorView, id: Seq<char>)
    requires
        distinct_ids(agent_ids(v.agents)),
        slot(v.agents, id) is Some,
    ensures
        !agent_ids(pause_spec(v, id).agents.filter(running())).contains(id),
        pause_spec(v, id).agents.len() == v.agents.len(),
        forall|j: int|
            0 <= j < v.agents.len() && v.agents[j].id != id ==> #[trigger] pause_spec(v, id).agents[j] == v.agents[j],
        lookup(pause_spec(v, id).agents, id) == Some(
            AgentView { status: StatusView::Paused, ..v.agents[slot(v.agents, id)->0] },
        ),
{
    let i = slot(v.agents, id)->0;
    let p = pause_spec(v, id).agents;
    let f = p.filter(running());
    assert forall|j: int| 0 <= j < v.agents.len() && v.agents[j].id != id implies #[trigger] p[j] == v.agents[j] by {
        if j == i {
            assert(v.agents[i].id == id);
        }
    }
    assert forall|j: int| 0 <= j < p.len() && p[j].id == id implies p[j].status == StatusView::Paused by {
        if j != i {
            assert(v.agents[j].id == id);
            assert(agent_ids(v.agents)[j] == agent_ids(v.agents)[i]);
        }
    }
    if agent_ids(f).contains(id) {
        let k = choose|k: int| 0 <= k < agent_ids(f).len() && agent_ids(f)[k] == id;
        assert(f[k].id == id);
        assert(f.contains(f[k]));
        p.lemma_filter_contains_rev(running(), f[k]);
        p.lemma_filter_pred(running(), k);
        let j = choose|j: int| 0 <= j < p.len() && p[j] == f[k];
        assert(p[j].id == id);
    }
    assert(p[i].id == id);
    assert(slot(p, id) is Some);
    let m = slot(p, id)->0;
    if m != i {
        assert(v.agents[m].id == id);
        assert(agent_ids(v.agents)[m] == agent_ids(v.agents)[i]);
    }
}

/// Law: a round ticks exactly the Running agents, each once: the IDs it
/// ticks are distinct, each is a registered agent's, and a registered
/// agent is among them exactly when it is Running.
pub proof fn law_round_ticks_running(agents: Seq<AgentView>)
    requires
        distinct_ids(agent_ids(agents)),
    ensures
        distinct_ids(agent_ids(agents.filter(running()))),
        forall|x: Seq<char>| #[trigger] agent_ids(agents.filter(running())).contains(x) ==> agent_ids(agents).contains(x),
        forall|i: int|
            0 <= i < agents.len() ==> (agent_ids(agents.filter(running())).contains(#[trigger] agents[i].id) <==> agents[i].status
                == StatusView::Running),
    decreases agents.len(),
{
    if agents.len() > 0 {
        let init = agents.drop_last();
        let x = agents.last();
        assert(agents =~= init.push(x));
        assert(agent_ids(init) =~= agent_ids(agents).drop_last());
        assert forall|i: int, j: int|
            0 <= i < agent_ids(init).len() && 0 <= j < agent_ids(init).len() && i != j implies agent_ids(init)[i]
            != agent_ids(init)[j] by {
            assert(agent_ids(agents)[i] != agent_ids(agents)[j]);
        }
        law_round_ticks_running(init);
        init.lemma_filter_push(x, running());
        let fi = init.filter(running());
        let f = agents.filter(running());
        assert(!agent_ids(init).contains(x.id)) by {
            if agent_ids(init).contains(x.id) {
                let k = choose|k: int| 0 <= k < agent_ids(init).len() && agent_ids(init)[k] == x.id;
                assert(agent_ids(agents)[k] == agent_ids(agents)[agents.len() - 1]);
            }
        }
        if x.status == StatusView::Running {
            assert(f == fi.push(x));
            assert(agent_ids(f) =~= agent_ids(fi).push(x.id));
            assert forall|a: int, b: int|
                0 <= a < agent_ids(f).len() && 0 <= b < agent_ids(f).len() && a != b implies agent_ids(f)[a]
                != agent_ids(f)[b] by {
                if a < agent_ids(fi).len() && b < agent_ids(fi).len() {
                } else if a < agent_ids(fi).len() {
                    assert(agent_ids(fi).contains(agent_ids(f)[a]));
                } else {
                    assert(agent_ids(fi).contains(agent_ids(f)[b]));
                }
            }
            assert forall|y: Seq<char>| #[trigger] agent_ids(f).contains(y) implies agent_ids(agents).contains(y) by {
                let k = choose|k: int| 0 <= k < agent_ids(f).len() && agent_ids(f)[k] == y;
                if k < agent_ids(fi).len() {
                    assert(agent_ids(fi).contains(y));
                    let m = choose|m: int| 0 <= m < agent_ids(init).len() && agent_ids(init)[m] == y;
                    assert(agent_ids(agents)[m] == y);
                } else {
                    assert(agent_ids(agents)[agents.len() - 1] == y);
                }
            }
            assert forall|i: int| 0 <= i < agents.len() implies (agent_ids(f).contains(#[trigger] agents[i].id)
                <==> agents[i].status == StatusView::Running) by {
                if i < agents.len() - 1 {
                    assert(agents[i] == init[i]);
                    if agent_ids(f).contains(agents[i].id) && !agent_ids(fi).contains(agents[i].id) {
                        let k = choose|k: int| 0 <= k < agent_ids(f).len() && agent_ids(f)[k] == agents[i].id;
                        if k < agent_ids(fi).len() {
                            assert(agent_ids(fi)[k] == agents[i].id);
                        } else {
                            assert(agent_ids(agents)[i] == agent_ids(agents)[agents.len() - 1]);
                        }
                    }
                    if agent_ids(fi).contains(agents[i].id) {
                        let k = choose|k: int| 0 <= k < agent_ids(fi).len() && agent_ids(fi)[k] == agents[i].id;
                        assert(agent_ids(f)[k] == agents[i].id);
                    }
                } else {
                    assert(agent_ids(f)[agent_ids(f).len() - 1] == x.id);
                }
            }
        } else {
            assert(f == fi);
            assert forall|y: Seq<char>| #[trigger] agent_ids(f).contains(y) implies agent_ids(agents).contains(y) by {
                let m = choose|m: int| 0 <= m < agent_ids(init).len() && agent_ids(init)[m] == y;
                assert(agent_ids(agents)[m] == y);
            }
            assert forall|i: int| 0 <= i < agents.len() implies (agent_ids(f).contains(#[trigger] agents[i].id)
                <==> agents[i].status == StatusView::Running) by {
                if i < agents.len() - 1 {
                    assert(agents[i] == init[i]);
                }
            }
        }
    } else {
        assert(agents.filter(running()) =~= Seq::<AgentView>::empty()) by {
            reveal(Seq::filter);
        }
        assert(agent_ids(agents.filter(running())) =~= Seq::<Seq<char>>::empty());
    }
}

/// Whether the agent named `id` is registered and Paused.
pub open spec fn paused_in(agents: Seq<AgentView>, id: Seq<char>) -> bool {
    match lookup(agents, id) {
        Some(a) => a.status == StatusView::Paused,
        None => false,
    }
}

/// A list with the same IDs in the same places, and the same status
/// everywhere, keeps a Paused agent Paused and its IDs distinct.
proof fn lemma_paused_kept(v: Seq<AgentView>, w: Seq<AgentView>, id: Seq<char>)
    requires
        distinct_ids(agent_ids(v)),
        paused_in(v, id),
        w.len() == v.len(),
        forall|j: int| 0 <= j < v.len() ==> (#[trigger] w[j]).id == v[j].id && w[j].status == v[j].status,
    ensures
        paused_in(w, id),
        distinct_ids(agent_ids(w)),
{
    let i = slot(v, id)->0;
    assert(w[i].id == id);
    let m = slot(w, id)->0;
    if m != i {
        assert(v[m].id == id);
        assert(agent_ids(v)[m] == agent_ids(v)[i]);
    }
    assert forall|a: int, b: int| 0 <= a < agent_ids(w).len() && 0 <= b < agent_ids(w).len() && a != b implies agent_ids(
        w,
    )[a] != agent_ids(w)[b] by {
        assert(agent_ids(v)[a] != agent_ids(v)[b]);
    }
}

/// Law: a paused agent stays paused, and out of every round, until it is
/// resumed.  Routing a message, closing a round, pausing any agent,
/// resuming another agent and registering another agent all keep it
/// Paused; no round ticks it; resuming it makes it Running again.
pub proof fn law_paused_until_resumed(
    v: OrchestratorView,
    id: Seq<char>,
    from: Seq<char>,
    msg: AgentMessage,
    tally: RoundTally,
    other: Seq<char>,
    newcomer: AgentView,
)
    requires
        distinct_ids(agent_ids(v.agents)),
        paused_in(v.agents, id),
        other != id,
        newcomer.id != id,
    ensures
        !agent_ids(v.agents.filter(running())).contains(id),
        paused_in(route_step(v, from, msg).0.agents, id),
        paused_in(close_round(v, tally).agents, id),
        paused_in(pause_spec(v, other).agents, id),
        paused_in(resume_spec(v, other).0.agents, id),
        paused_in(v.agents.push(newcomer), id),
        resume_spec(v, id).1,
        lookup(resume_spec(v, id).0.agents, id) matches Some(a) && a.status == StatusView::Running,
{
    let i = slot(v.agents, id)->0;
    law_round_ticks_running(v.agents);
    assert(v.agents[i].id == id);
    let w = route_step(v, from, msg).0;
    let to = msg.destination_spec();
    if to.len() != 0 && route_targets(v, from, to).len() != 0 {
        let t = route_targets(v, from, to);
        assert forall|j: int| 0 <= j < v.agents.len() implies (#[trigger] w.agents[j]).id == v.agents[j].id
            && w.agents[j].status == v.agents[j].status by {
            assert(w.agents[j] == deliver(v.agents, t, msg)[j]);
        }
        lemma_paused_kept(v.agents, w.agents, id);
    }
    let p = pause_spec(v, other).agents;
    match slot(v.agents, other) {
        Some(k) => {
            assert(v.agents[k].id == other);
            assert forall|j: int| 0 <= j < v.agents.len() && j != k implies #[trigger] p[j] == v.agents[j] by {}
            assert(p[i] == v.agents[i]);
            let m = slot(p, id)->0;
            assert(p[i].id == id);
            if m != i {
                assert(v.agents[m].id == id || m == k);
                if m == k {
                    assert(p[k].id == other);
                } else {
                    assert(agent_ids(v.agents)[m] == agent_ids(v.agents)[i]);
                }
            }
        },
        None => {},
    }
    let q = resume_spec(v, other).0.agents;
    match slot(v.agents, other) {
        Some(k) => {
            if v.agents[k].status == StatusView::Paused {
                assert(v.agents[k].id == other);
                assert(q[i] == v.agents[i]);
                let m = slot(q, id)->0;
                assert(q[i].id == id);
                if m != i {
                    if m == k {
                        assert(q[k].id == other);
                    } else {
                        assert(v.agents[m].id == id);
                        assert(agent_ids(v.agents)[m] == agent_ids(v.agents)[i]);
                    }
                }
            }
        },
        None => {},
    }
    let n = v.agents.push(newcomer);
    assert(n[i] == v.agents[i]);
    let mn = slot(n, id)->0;
    if mn != i {
        if mn < v.agents.len() {
            assert(n[mn] == v.agents[mn]);
            assert(agent_ids(v.agents)[mn] == agent_ids(v.agents)[i]);
        }
    }
    let r = resume_spec(v, id).0.agents;
    assert(r[i].id == id);
    let mr = slot(r, id)->0;
    if mr != i {
        assert(v.agents[mr].id == id);
        assert(agent_ids(v.agents)[mr] == agent_ids(v.agents)[i]);
    }
}

/// Law: a killed agent is gone.
pub proof fn law_kill_removes(v: OrchestratorView, id: Seq<char>)
    requires
        distinct_ids(agent_ids(v.agents)),
        slot(v.agents, id) is Some,
    ensures
        slot(v.agents.remove(slot(v.agents, id)->0), id) is None,
        v.agents.remove(slot(v.agents, id)->0).len() == v.agents.len() - 1,
{
    let i = slot(v.agents, id)->0;
    let rest = v.agents.remove(i);
    if exists|k: int| 0 <= k < rest.len() && rest[k].id == id {
        let k = choose|k: int| 0 <= k < rest.len() && rest[k].id == id;
        let ok = if k < i { k } else { k + 1 };
        assert(rest[k] == v.agents[ok]);
        assert(agent_ids(v.agents)[ok] == agent_ids(v.agents)[i]);
    }
}

pub struct Orchestrator {
    config: OrchestratorConfig,
    agents: Vec<AgentRecord>,
    /// Accumulated observed messages across rounds.
    observed_messages: Vec<(AgentId, AgentMessage)>,
    /// The message router built from `router_config`.
    router: Router,
    /// Router configuration (topology, hub, DLQ toggle).
    router_config: RouterConfig,
    /// Dead Letter Queue — unroutable messages when DLQ is enabled.
    dlq: VecDeque<AgentMessage>,
    /// Count of messages added to DLQ this round (reset each round).
    messages_dlq: usize,
    /// Number of completed tick rounds.
    round_count: usize,
    /// Cumulative messages routed across all rounds.
    total_messages_routed: usize,
    /// Cumulative messages dropped across all rounds.
    total_messages_dropped: usize,
    /// Cumulative messages sent to DLQ across all rounds.
    total_messages_dlq: usize,
    /// Checkpoint interval (None = disabled).
    save_interval: Option<usize>,
    /// Directory for auto-save checkpoints.
    checkpoint_dir: Option<String>,
}

impl View for Orchestrator {
    type V = OrchestratorView;

    closed spec fn view(&self) -> OrchestratorView {
        OrchestratorView {
            config: self.config,
            agents: self.agents@.map_values(|a: AgentRecord| a@),
            observed: self.observed_messages@.map_values(|p: (AgentId, AgentMessage)| (p.0@, p.1)),
            topology: self.router_config.topology,
            hub: opt_str(self.router_config.hub),
            dlq_enabled: self.router_config.dlq_enabled,
            dlq: self.dlq@,
            messages_dlq: self.messages_dlq,
            round_count: self.round_count,
            total_messages_routed: self.total_messages_routed,
            total_messages_dropped: self.total_messages_dropped,
            total_messages_dlq: self.total_messages_dlq,
            save_interval: self.save_interval,
            checkpoint_dir: opt_str(self.checkpoint_dir),
        }
    }
}

impl Orchestrator {
    /// The orchestrator's internal consistency: agent IDs are distinct and
    /// the router is the one its configuration names.
    pub closed spec fn wf(&self) -> bool {
        &&& distinct_ids(agent_ids(self@.agents))
        &&& self.router_config.buildable()
        &&& self.router == self.router_config.topology.router_for(self.router_config.hub)
    }

    /// What the orchestrator's consistency gives its users: agent IDs are
    /// distinct, and a hub-and-spoke router has a hub.
    pub proof fn lemma_wf(&self)
        requires
            self.wf(),
        ensures
            distinct_ids(agent_ids(self@.agents)),
            self@.topology == Topology::HubAndSpoke ==> self@.hub is Some,
    {
    }

    /// Law: a checkpoint of this orchestrator loads back.  What
    /// `to_snapshot` records of it meets `from_snapshot`'s demand, and
    /// restores its agents (in order, with their queues, fuel, ticks and
    /// statuses), its routing, DLQ, round count and totals; what a
    /// checkpoint does not carry starts afresh.
    pub proof fn law_checkpoint_restores(&self, snap: OrchestratorSnapshot, fuel_remaining: Seq<u64>)
        requires
            self.wf(),
            records(snap, self@, fuel_remaining),
        ensures
            snap.router_config.buildable(),
            restored_view(snap) == (OrchestratorView {
                config: OrchestratorConfig { default_fuel: 500_000, max_agents: 64 },
                observed: Seq::empty(),
                messages_dlq: 0,
                save_interval: None,
                checkpoint_dir: None,
                ..self@
            }),
    {
        lemma_checkpoint_round_trip(snap, self@, fuel_remaining);
    }

    /// Create a new orchestrator with the given configuration: no agents,
    /// direct routing without a DLQ, all counters at zero.
    pub fn new(config: OrchestratorConfig) -> (r: Self)
        ensures
            r.wf(),
            r@.config == config,
            r@.agents == Seq::<AgentView>::empty(),
            r@.observed == Seq::<(Seq<char>, AgentMessage)>::empty(),
            r@.topology == Topology::Direct,
            r@.hub == None::<Seq<char>>,
            !r@.dlq_enabled,
            r@.dlq == Seq::<AgentMessage>::empty(),
            r@.messages_dlq == 0,
            r@.round_count == 0,
            r@.total_messages_routed == 0,
            r@.total_messages_dropped == 0,
            r@.total_messages_dlq == 0,
            r@.save_interval == None::<usize>,
            r@.checkpoint_dir == None::<Seq<char>>,
    {
        let router_config = RouterConfig::default();
        let router = router_config.topology.build_router(None);
        let r = Orchestrator {
            config,
            agents: Vec::new(),
            observed_messages: Vec::new(),
            router,
            router_config,
            dlq: VecDeque::new(),
            messages_dlq: 0,
            round_count: 0,
            total_messages_routed: 0,
            total_messages_dropped: 0,
            total_messages_dlq: 0,
            save_interval: None,
            checkpoint_dir: None,
        };
        assert(r@.agents =~= Seq::<AgentView>::empty());
        assert(r@.observed =~= Seq::<(Seq<char>, AgentMessage)>::empty());
        r
    }

    /// The position of the agent named `id`.
    fn find(&self, id: &str) -> (r: Option<usize>)
        requires
            self.wf(),
        ensures
            match r {
                Some(i) => slot(self@.agents, id@) == Some(i as int) && i < self.agents.len(),
                None => slot(self@.agents, id@) is None,
            },
    {
        let ghost agents = self@.agents;
        let key = String::from_str(id);
        let mut i: usize = 0;
        while i < self.agents.len()
            invariant
                i <= self.agents.len(),
                key@ == id@,
                agents == self@.agents,
                distinct_ids(agent_ids(agents)),
                agents.len() == self.agents.len(),
                forall|j: int| 0 <= j < i ==> agents[j].id != id@,
            decreases self.agents.len() - i,
        {
            assert(agents[i as int] == self.agents@[i as int]@);
            if self.agents[i].id == key {
                assert(agents[i as int].id == id@);
                proof {
                    let k = choose|k: int| 0 <= k < agents.len() && agents[k].id == id@;
                    assert(agent_ids(agents)[k] == agents[k].id);
                    assert(agent_ids(agents)[i as int] == agents[i as int].id);
                    assert(k == i);
                }
                return Some(i);
            }
            i += 1;
        }
        None
    }

    /// Decide whether an agent named `id` may be spawned and with which
    /// fuel budget: a taken ID or a full registry refuses it.
    pub fn check_spawn(&self, id: &str, fuel: Option<u64>) -> (r: Result<u64, OrchestratorError>)
        requires
            self.wf(),
        ensures
            slot(self@.agents, id@) is Some ==> (r matches Err(OrchestratorError::AlreadyExists(x)) && x@ == id@),
            slot(self@.agents, id@) is None && self@.agents.len() >= self@.config.max_agents
                ==> r == Err::<u64, OrchestratorError>(OrchestratorError::MaxAgents(self@.config.max_agents)),
            slot(self@.agents, id@) is None && self@.agents.len() < self@.config.max_agents ==> r == Ok::<
                u64,
                OrchestratorError,
            >(
                match fuel {
                    Some(f) => f,
                    None => self@.config.default_fuel,
                },
            ),
    {
        if self.find(id).is_some() {
            return Err(OrchestratorError::AlreadyExists(String::from_str(id)));
        }
        if self.agents.len() >= self.config.max_agents {
            return Err(OrchestratorError::MaxAgents(self.config.max_agents));
        }
        Ok(
            match fuel {
                Some(f) => f,
                None => self.config.default_fuel,
            },
        )
    }

    /// Register a loaded and initialised agent, Running with empty queues,
    /// charged with the fuel its initialisation burnt: what is gone from
    /// `fuel_budget` (the budget `check_spawn` granted) when `fuel_left`
    /// remains.  The refusals are those of `check_spawn`.
    pub fn register(
        &mut self,
        id: AgentId,
        wasm_path: String,
        env: Vec<(String, String)>,
        allowed_urls: Vec<String>,
        fuel_budget: u64,
        fuel_left: u64,
    ) -> (r: Result<(), OrchestratorError>)
        requires
            old(self).wf(),
        ensures
            final(self).wf(),
            slot(old(self)@.agents, id@) is Some ==> (r matches Err(OrchestratorError::AlreadyExists(x)) && x@ == id@),
            slot(old(self)@.agents, id@) is None && old(self)@.agents.len() >= old(self)@.config.max_agents
                ==> r == Err::<(), OrchestratorError>(OrchestratorError::MaxAgents(old(self)@.config.max_agents)),
            r is Err ==> final(self)@ == old(self)@,
            slot(old(self)@.agents, id@) is None && old(self)@.agents.len() < old(self)@.config.max_agents ==> {
                &&& r is Ok
                &&& final(self)@ == (OrchestratorView {
                    agents: old(self)@.agents.push(
                        AgentView {
                            id: id@,
                            wasm_path: wasm_path@,
                            inbox: Seq::empty(),
                            outbox: Seq::empty(),
                            env: pairs_view(env@),
                            allowed_urls: ids_of(allowed_urls@),
                            fuel_consumed: saturating_diff(fuel_budget, fuel_left),
                            tick_count: 0,
                            status: StatusView::Running,
                        },
                    ),
                    ..old(self)@
                })
            },
    {
        if self.find(id.as_str()).is_some() {
            return Err(OrchestratorError::AlreadyExists(id));
        }
        if self.agents.len() >= self.config.max_agents {
            return Err(OrchestratorError::MaxAgents(self.config.max_agents));
        }
        let ghost old_agents = self@.agents;
        let rec = AgentRecord {
            id,
            wasm_path,
            inbox: VecDeque::new(),
            outbox: Vec::new(),
            env,
            allowed_urls,
            fuel_consumed: fuel_budget.saturating_sub(fuel_left),
            tick_count: 0,
            status: AgentStatus::Running,
        };
        self.agents.push(rec);
        proof {
            assert(self@.agents =~= old_agents.push(rec@));
            assert(rec@.inbox =~= Seq::<AgentMessage>::empty());
            assert(rec@.outbox =~= Seq::<AgentMessage>::empty());
            let ids = agent_ids(self@.agents);
            assert forall|i: int, j: int| 0 <= i < ids.len() && 0 <= j < ids.len() && i != j implies ids[i] != ids[j] by {
                assert(agent_ids(old_agents)[i] == old_agents[i].id || i == old_agents.len());
                if i == old_agents.len() {
                    assert(old_agents[j].id != rec@.id);
                } else if j == old_agents.len() {
                    assert(old_agents[i].id != rec@.id);
                } else {
                    assert(agent_ids(old_agents)[i] == ids[i]);
                    assert(agent_ids(old_agents)[j] == ids[j]);
                }
            }
        }
        Ok(())
    }

    /// Remove an agent from the registry.  Returns its final fuel consumed
    /// and tick count.
    pub fn kill(&mut self, id: &str) -> (r: Result<(u64, u32), OrchestratorError>)
        requires
            old(self).wf(),
        ensures
            final(self).wf(),
            match slot(old(self)@.agents, id@) {
                Some(i) => r == Ok::<(u64, u32), OrchestratorError>(
                    (old(self)@.agents[i].fuel_consumed, old(self)@.agents[i].tick_count),
                ) && final(self)@ == (OrchestratorView { agents: old(self)@.agents.remove(i), ..old(self)@ }),
                None => r matches Err(OrchestratorError::NotFound(x)) && x@ == id@ && final(self)@ == old(self)@,
            },
    {
        match self.find(id) {
            Some(i) => {
                let ghost old_agents = self@.agents;
                let rec = self.agents.remove(i);
                proof {
                    assert(self@.agents =~= old_agents.remove(i as int));
                    let ids = agent_ids(self@.agents);
                    assert forall|a: int, b: int| 0 <= a < ids.len() && 0 <= b < ids.len() && a != b implies ids[a] != ids[b] by {
                        let oa = if a < i { a } else { a + 1 };
                        let ob = if b < i { b } else { b + 1 };
                        assert(ids[a] == agent_ids(old_agents)[oa]);
                        assert(ids[b] == agent_ids(old_agents)[ob]);
                    }
                }
                Ok((rec.fuel_consumed, rec.tick_count))
            },
            None => Err(OrchestratorError::NotFound(String::from_str(id))),
        }
    }

    /// Set an agent's status; nothing else changes.
    fn set_status(&mut self, i: usize, status: AgentStatus)
        requires
            old(self).wf(),
            i < old(self)@.agents.len(),
        ensures
            final(self).wf(),
            final(self)@ == (OrchestratorView {
                agents: old(self)@.agents.update(i as int, AgentView { status: status@, ..old(self)@.agents[i as int] }),
                ..old(self)@
            }),
    {
        let ghost old_agents = self@.agents;
        self.agents[i].status = status;
        proof {
            assert(self@.agents =~= old_agents.update(i as int, AgentView { status: status@, ..old_agents[i as int] }));
            assert(agent_ids(self@.agents) =~= agent_ids(old_agents));
        }
    }

    /// Pause an agent: it will not be ticked in future rounds.
    pub fn pause(&mut self, id: &str) -> (r: Result<(), OrchestratorError>)
        requires
            old(self).wf(),
        ensures
            final(self).wf(),
            final(self)@ == pause_spec(old(self)@, id@),
            slot(old(self)@.agents, id@) is Some ==> r is Ok,
            slot(old(self)@.agents, id@) is None ==> (r matches Err(OrchestratorError::NotFound(x)) && x@ == id@),
    {
        match self.find(id) {
            Some(i) => {
                self.set_status(i, AgentStatus::Paused);
                Ok(())
            },
            None => Err(OrchestratorError::NotFound(String::from_str(id))),
        }
    }

    /// Resume a paused agent.  An agent that is not paused is refused, with
    /// its status.
    pub fn resume(&mut self, id: &str) -> (r: Result<(), OrchestratorError>)
        requires
            old(self).wf(),
        ensures
            final(self).wf(),
            final(self)@ == resume_spec(old(self)@, id@).0,
            r is Ok == resume_spec(old(self)@, id@).1,
            slot(old(self)@.agents, id@) is None ==> (r matches Err(OrchestratorError::NotFound(x)) && x@ == id@),
            match slot(old(self)@.agents, id@) {
                Some(i) => old(self)@.agents[i].status != StatusView::Paused ==> (r matches Err(
                    OrchestratorError::NotPaused(x, s),
                ) && x@ == id@ && s@ == old(self)@.agents[i].status),
                None => true,
            },
    {
        match self.find(id) {
            Some(i) => {
                if !self.agents[i].status.is_paused() {
                    return Err(OrchestratorError::NotPaused(String::from_str(id), self.agents[i].status.duplicate()));
                }
                self.set_status(i, AgentStatus::Running);
                Ok(())
            },
            None => Err(OrchestratorError::NotFound(String::from_str(id))),
        }
    }

    /// The router in use gives the targets that the configuration names.
    proof fn lemma_router_targets(&self, from: Seq<char>, to: Seq<char>, ids: Seq<Seq<char>>)
        requires
            self.wf(),
        ensures
            self.router.resolve_spec(from, to, ids) == targets_for(self@.topology, self@.hub, from, to, ids),
            self@.topology == Topology::HubAndSpoke ==> self@.hub is Some,
    {
    }

    /// The IDs of all agents, in registry order.
    fn agent_id_list(&self) -> (r: Vec<String>)
        ensures
            ids_of(r@) == agent_ids(self@.agents),
    {
        let mut r: Vec<String> = Vec::new();
        let mut i: usize = 0;
        while i < self.agents.len()
            invariant
                i <= self.agents.len(),
                r@.len() == i,
                ids_of(r@) == agent_ids(self@.agents).take(i as int),
            decreases self.agents.len() - i,
        {
            let ghost old_r = r@;
            r.push(self.agents[i].id.clone());
            proof {
                assert(self@.agents[i as int] == self.agents@[i as int]@);
                assert forall|j: int| 0 <= j < i + 1 implies ids_of(r@)[j] == agent_ids(self@.agents).take(i + 1)[j] by {
                    if j < i {
                        assert(r@[j] == old_r[j]);
                        assert(ids_of(old_r)[j] == agent_ids(self@.agents).take(i as int)[j]);
                    }
                }
                assert(ids_of(r@) =~= agent_ids(self@.agents).take(i + 1));
            }
            i += 1;
        }
        assert(agent_ids(self@.agents).take(self.agents.len() as int) =~= agent_ids(self@.agents));
        r
    }

    /// Route a peer message from `from` to its target(s) with the active
    /// router.  A message that reaches nobody (no destination, or one that
    /// names nobody) is an error: it was put in the DLQ when that is
    /// enabled, and observed otherwise.
    pub fn route(&mut self, from: &str, msg: AgentMessage) -> (r: Result<(), OrchestratorError>)
        requires
            old(self).wf(),
            old(self)@.messages_dlq < usize::MAX,
        ensures
            final(self).wf(),
            final(self)@ == route_step(old(self)@, from@, msg).0,
            r is Ok == route_step(old(self)@, from@, msg).1,
            msg.destination_spec().len() == 0 ==> r == Err::<(), OrchestratorError>(OrchestratorError::MissingDestination),
            msg.destination_spec().len() != 0 && r is Err ==> (r matches Err(OrchestratorError::Unroutable { to, topology })
                && to@ == msg.destination_spec() && topology@ == old(self)@.topology.name_spec()),
    {
        let ghost v0 = self@;
        let to = msg.destination();
        if to.as_str().is_empty() {
            if self.router_config.dlq_enabled {
                self.dlq.push_back(msg);
                self.messages_dlq += 1;
            } else {
                self.observed_messages.push((String::from_str(from), msg));
                proof {
                    assert(self@.observed =~= v0.observed.push((from@, msg)));
                }
            }
            proof {
                assert(self@.agents == v0.agents);
            }
            return Err(OrchestratorError::MissingDestination);
        }
        let ids = self.agent_id_list();
        let targets = self.router.resolve(from, to.as_str(), &ids);
        let ghost t = ids_of(targets@);
        proof {
            self.lemma_router_targets(from@, to@, ids_of(ids@));
            lemma_targets_known(v0.topology, v0.hub, from@, to@, agent_ids(v0.agents));
            assert(t == route_targets(v0, from@, to@));
        }
        if targets.len() == 0 {
            let topology = String::from_str(self.router.name());
            if self.router_config.dlq_enabled {
                self.dlq.push_back(msg);
                self.messages_dlq += 1;
            } else {
                self.observed_messages.push((String::from_str(from), msg));
                proof {
                    assert(self@.observed =~= v0.observed.push((from@, msg)));
                }
            }
            proof {
                assert(self@.agents == v0.agents);
            }
            return Err(OrchestratorError::Unroutable { to, topology });
        }
        let mut k: usize = 0;
        assert(deliver(v0.agents, t.take(0), msg) =~= v0.agents);
        while k < targets.len()
            invariant
                self.wf(),
                0 <= k <= targets.len(),
                t == ids_of(targets@),
                t == route_targets(v0, from@, to@),
                distinct_ids(agent_ids(v0.agents)),
                distinct_ids(t),
                forall|x: Seq<char>| t.contains(x) ==> agent_ids(v0.agents).contains(x),
                self@ == (OrchestratorView { agents: deliver(v0.agents, t.take(k as int), msg), ..v0 }),
            decreases targets.len() - k,
        {
            let ghost before = self@;
            proof {
                assert(agent_ids(before.agents) =~= agent_ids(v0.agents));
                assert(t[k as int] == targets@[k as int]@);
                assert(t.contains(t[k as int]));
            }
            match self.find(targets[k].as_str()) {
                Some(i) => {
                    self.agents[i].inbox.push_back(msg.duplicate());
                    proof {
                        lemma_deliver_step(v0.agents, t, k as int, i as int, msg);
                        assert(self@.agents =~= before.agents.update(
                            i as int,
                            AgentView { inbox: before.agents[i as int].inbox.push(msg), ..before.agents[i as int] },
                        ));
                        assert(agent_ids(self@.agents) =~= agent_ids(before.agents));
                    }
                },
                None => {
                    proof {
                        let x = t[k as int];
                        let j = choose|j: int| 0 <= j < agent_ids(v0.agents).len() && agent_ids(v0.agents)[j] == x;
                        assert(agent_ids(before.agents)[j] == x);
                        assert(before.agents[j].id == x);
                        assert(false);
                    }
                    if self.router_config.dlq_enabled {
                        self.dlq.push_back(msg.duplicate());
                        self.messages_dlq += 1;
                    } else {
                        self.observed_messages.push((String::from_str(from), msg.duplicate()));
                    }
                },
            }
            k += 1;
        }
        proof {
            assert(t.take(targets.len() as int) =~= t);
        }
        Ok(())
    }

    /// Start a tick of the agent named `id`: a missing agent is an error, an
    /// agent that is not Running is skipped, and a Running one is run with
    /// the first message of its inbox, which leaves the inbox.
    pub fn begin_tick(&mut self, id: &str) -> (r: Result<TickStart, OrchestratorError>)
        requires
            old(self).wf(),
        ensures
            final(self).wf(),
            match slot(old(self)@.agents, id@) {
                None => (r matches Err(OrchestratorError::NotFound(x)) && x@ == id@) && final(self)@ == old(self)@,
                Some(i) => {
                    let a = old(self)@.agents[i];
                    if a.status != StatusView::Running {
                        &&& r matches Ok(TickStart::Skipped(t))
                        &&& t.agent_id@ == id@ && t.message is None && t.messages_routed == 0 && t.messages_dropped == 0
                        &&& final(self)@ == old(self)@
                    } else if a.inbox.len() == 0 {
                        r matches Ok(TickStart::Run(None)) && final(self)@ == old(self)@
                    } else {
                        &&& r matches Ok(TickStart::Run(Some(m))) && m == a.inbox[0]
                        &&& final(self)@ == (OrchestratorView {
                            agents: old(self)@.agents.update(i, AgentView { inbox: a.inbox.drop_first(), ..a }),
                            ..old(self)@
                        })
                    }
                },
            },
    {
        let i = match self.find(id) {
            Some(i) => i,
            None => {
                return Err(OrchestratorError::NotFound(String::from_str(id)));
            },
        };
        if !self.agents[i].status.is_running() {
            return Ok(
                TickStart::Skipped(
                    TickResult { agent_id: String::from_str(id), message: None, messages_routed: 0, messages_dropped: 0 },
                ),
            );
        }
        let ghost old_agents = self@.agents;
        let front = self.agents[i].inbox.pop_front();
        proof {
            if old_agents[i as int].inbox.len() == 0 {
                assert(self@.agents =~= old_agents);
            } else {
                assert(self@.agents =~= old_agents.update(
                    i as int,
                    AgentView { inbox: old_agents[i as int].inbox.drop_first(), ..old_agents[i as int] },
                ));
            }
            assert(agent_ids(self@.agents) =~= agent_ids(old_agents));
        }
        Ok(TickStart::Run(front))
    }

    /// Finish a tick of the agent named `id` with what happened while it
    /// ran: count its fuel and tick, mark it Crashed on a trap or an empty
    /// tank, then route its pending outbox (older messages first).  The
    /// result reports the message sent during a tick that returned 0, how
    /// many messages were routed and how many reached nobody.
    pub fn finish_tick(&mut self, id: &str, outcome: TickOutcome) -> (r: Result<TickResult, OrchestratorError>)
        requires
            old(self).wf(),
            match lookup(old(self)@.agents, id@) {
                Some(a) => tick_fits(old(self)@, a, outcome),
                None => true,
            },
        ensures
            final(self).wf(),
            match slot(old(self)@.agents, id@) {
                None => (r matches Err(OrchestratorError::NotFound(x)) && x@ == id@) && final(self)@ == old(self)@,
                Some(i) => {
                    let a = old(self)@.agents[i];
                    let pending = a.outbox + outcome.outbox@;
                    let accounted = OrchestratorView {
                        agents: old(self)@.agents.update(i, tick_account(a, outcome)),
                        ..old(self)@
                    };
                    let (after, dropped) = route_all(accounted, id@, pending);
                    &&& r matches Ok(t)
                    &&& t.agent_id@ == id@
                    &&& t.message == tick_message(outcome)
                    &&& dropped <= pending.len()
                    &&& t.messages_routed == pending.len() - dropped
                    &&& t.messages_dropped == dropped
                    &&& final(self)@ == after
                },
            },
    {
        let i = match self.find(id) {
            Some(i) => i,
            None => {
                return Err(OrchestratorError::NotFound(String::from_str(id)));
            },
        };
        let ghost v0 = self@;
        let ghost a = v0.agents[i as int];
        let consumed = outcome.fuel_before.saturating_sub(outcome.fuel_after);
        self.agents[i].fuel_consumed = self.agents[i].fuel_consumed + consumed;
        self.agents[i].tick_count = self.agents[i].tick_count + 1;
        match &outcome.call {
            TickCall::Trapped(m) => {
                self.agents[i].status = AgentStatus::Crashed(m.clone());
            },
            _ => {},
        }
        if outcome.fuel_after == 0 && self.agents[i].status.is_running() {
            self.agents[i].status = AgentStatus::Crashed(String::from_str("out of fuel"));
        }
        let mut pending: Vec<AgentMessage> = Vec::new();
        std::mem::swap(&mut pending, &mut self.agents[i].outbox);
        let TickOutcome { call, message, fuel_before, fuel_after, outbox } = outcome;
        let mut fresh = outbox;
        pending.append(&mut fresh);
        let ghost accounted = self@;
        proof {
            assert(self@.agents =~= v0.agents.update(i as int, tick_account(a, outcome)));
            assert(agent_ids(self@.agents) =~= agent_ids(v0.agents));
            assert(accounted == (OrchestratorView { agents: v0.agents.update(i as int, tick_account(a, outcome)), ..v0 }));
            assert(pending@ =~= a.outbox + outcome.outbox@);
        }
        let from = self.agents[i].id.clone();
        let routed = pending.len();
        let mut dropped: usize = 0;
        let mut k: usize = 0;
        assert(pending@.take(0) =~= Seq::<AgentMessage>::empty());
        while k < pending.len()
            invariant
                self.wf(),
                k <= pending.len(),
                from@ == id@,
                dropped <= k,
                accounted.messages_dlq + pending@.len() <= usize::MAX,
                self@.messages_dlq <= accounted.messages_dlq + k,
                route_all(accounted, id@, pending@.take(k as int)) == (self@, dropped as nat),
            decreases pending.len() - k,
        {
            let ghost before = self@;
            proof {
                assert(pending@.take(k + 1).drop_last() =~= pending@.take(k as int));
                assert(pending@.take(k + 1).last() == pending@[k as int]);
            }
            let res = self.route(from.as_str(), pending[k].duplicate());
            if res.is_err() {
                dropped += 1;
            }
            k += 1;
        }
        proof {
            assert(pending@.take(pending.len() as int) =~= pending@);
        }
        let message = match call {
            TickCall::Returned(code) => if code == 0 {
                message
            } else {
                None
            },
            _ => None,
        };
        Ok(TickResult { agent_id: String::from_str(id), message, messages_routed: routed - dropped, messages_dropped: dropped })
    }

    /// The IDs of the Running agents, in registry order: the agents a
    /// round ticks.
    pub fn round_agents(&self) -> (r: Vec<AgentId>)
        ensures
            ids_of(r@) == agent_ids(self@.agents.filter(running())),
    {
        let mut r: Vec<AgentId> = Vec::new();
        let mut i: usize = 0;
        while i < self.agents.len()
            invariant
                i <= self.agents.len(),
                ids_of(r@) == agent_ids(self@.agents.take(i as int).filter(running())),
            decreases self.agents.len() - i,
        {
            let ghost old_r = r@;
            proof {
                assert(self@.agents[i as int] == self.agents@[i as int]@);
                assert(self@.agents.take(i + 1) =~= self@.agents.take(i as int).push(self@.agents[i as int]));
                self@.agents.take(i as int).lemma_filter_push(self@.agents[i as int], running());
            }
            if self.agents[i].status.is_running() {
                r.push(self.agents[i].id.clone());
                assert(ids_of(r@) =~= ids_of(old_r).push(self@.agents[i as int].id));
                assert(agent_ids(self@.agents.take(i as int).filter(running()).push(self@.agents[i as int]))
                    =~= agent_ids(self@.agents.take(i as int).filter(running())).push(self@.agents[i as int].id));
            }
            i += 1;
        }
        assert(self@.agents.take(self.agents.len() as int) =~= self@.agents);
        r
    }

    /// The inbox depth of every agent with messages waiting, in registry order.
    fn inbox_depths(&self) -> (r: Vec<(AgentId, usize)>)
        ensures
            r@.len() == self@.agents.filter(has_mail()).len(),
            forall|j: int|
                0 <= j < r@.len() ==> r@[j].0@ == self@.agents.filter(has_mail())[j].id && r@[j].1
                    == self@.agents.filter(has_mail())[j].inbox.len(),
    {
        let mut r: Vec<(AgentId, usize)> = Vec::new();
        let mut i: usize = 0;
        while i < self.agents.len()
            invariant
                i <= self.agents.len(),
                r@.len() == self@.agents.take(i as int).filter(has_mail()).len(),
                forall|j: int|
                    0 <= j < r@.len() ==> r@[j].0@ == self@.agents.take(i as int).filter(has_mail())[j].id && r@[j].1
                        == self@.agents.take(i as int).filter(has_mail())[j].inbox.len(),
            decreases self.agents.len() - i,
        {
            proof {
                assert(self@.agents[i as int] == self.agents@[i as int]@);
                assert(self@.agents.take(i + 1) =~= self@.agents.take(i as int).push(self@.agents[i as int]));
                self@.agents.take(i as int).lemma_filter_push(self@.agents[i as int], has_mail());
            }
            let depth = self.agents[i].inbox.len();
            if depth > 0 {
                r.push((self.agents[i].id.clone(), depth));
            }
            i += 1;
        }
        assert(self@.agents.take(self.agents.len() as int) =~= self@.agents);
        r
    }

    /// Close a round with its tally: count the round and its messages into
    /// the cumulative totals, reset the per-round DLQ counter, and report
    /// the round together with the DLQ depth, the topology in use and the
    /// agents with mail waiting.
    pub fn finish_round(&mut self, tally: RoundTally) -> (r: RoundSummary)
        requires
            old(self).wf(),
            round_fits(old(self)@, tally),
        ensures
            final(self).wf(),
            final(self)@ == close_round(old(self)@, tally),
            r.results@ == tally.results@,
            r.round_fuel == tally.round_fuel,
            r.crashed@ == tally.crashed@,
            r.messages_routed == tally.messages_routed,
            r.messages_dropped == tally.messages_dropped,
            r.messages_dlq == old(self)@.messages_dlq,
            r.dlq_depth == old(self)@.dlq.len(),
            r.routing_topology@ == old(self)@.topology.name_spec(),
            r.agent_inbox_depths@.len() == old(self)@.agents.filter(has_mail()).len(),
            forall|j: int|
                0 <= j < r.agent_inbox_depths@.len() ==> r.agent_inbox_depths@[j].0@ == old(self)@.agents.filter(
                    has_mail(),
                )[j].id && r.agent_inbox_depths@[j].1 == old(self)@.agents.filter(has_mail())[j].inbox.len(),
    {
        let agent_inbox_depths = self.inbox_depths();
        let messages_dlq = self.messages_dlq;
        self.messages_dlq = 0;
        self.round_count = self.round_count + 1;
        self.total_messages_routed = self.total_messages_routed + tally.messages_routed;
        self.total_messages_dropped = self.total_messages_dropped + tally.messages_dropped;
        self.total_messages_dlq = self.total_messages_dlq + messages_dlq;
        let routing_topology = String::from_str(self.router.name());
        RoundSummary {
            results: tally.results,
            round_fuel: tally.round_fuel,
            crashed: tally.crashed,
            messages_routed: tally.messages_routed,
            messages_dropped: tally.messages_dropped,
            messages_dlq,
            dlq_depth: self.dlq.len(),
            routing_topology,
            agent_inbox_depths,
        }
    }

    /// Whether an automatic checkpoint is due now (after a round closed).
    pub fn checkpoint_due(&self) -> (b: bool)
        ensures
            b == checkpoint_due_spec(self@),
    {
        match (self.save_interval, &self.checkpoint_dir) {
            (Some(n), Some(_)) => if n == 0 {
                self.round_count == 0
            } else {
                self.round_count % n == 0
            },
            _ => false,
        }
    }

    /// The fuel consumed by all agents together.
    pub fn total_fuel_consumed(&self) -> (r: Option<u64>)
        ensures
            match r {
                Some(t) => t == fuel_sum(self@.agents),
                None => fuel_sum(self@.agents) > u64::MAX,
            },
    {
        let mut total: u64 = 0;
        let mut i: usize = 0;
        while i < self.agents.len()
            invariant
                i <= self.agents.len(),
                total == fuel_sum(self@.agents.take(i as int)),
            decreases self.agents.len() - i,
        {
            proof {
                lemma_fuel_sum_prefix(self@.agents, i as int);
                assert(self@.agents[i as int] == self.agents@[i as int]@);
            }
            let f = self.agents[i].fuel_consumed;
            if total > u64::MAX - f {
                proof {
                    lemma_fuel_sum_prefix(self@.agents, i + 1);
                }
                return None;
            }
            total = total + f;
            i += 1;
        }
        assert(self@.agents.take(self.agents.len() as int) =~= self@.agents);
        Some(total)
    }

    /// The record of one agent, with `fuel_remaining` fuel left and no memory.
    fn agent_snapshot(&self, i: usize, fuel_remaining: u64) -> (r: AgentSnapshot)
        requires
            i < self@.agents.len(),
        ensures
            crate::snapshot::records_agent(r, self@.agents[i as int], fuel_remaining),
            r.memory_state is None,
    {
        let a = &self.agents[i];
        assert(self@.agents[i as int] == a@);
        AgentSnapshot {
            id: a.id.clone(),
            status: agent_status_to_string(&a.status),
            wasm_path: a.wasm_path.clone(),
            fuel_consumed: a.fuel_consumed,
            fuel_remaining,
            inbox: queue_to_vec(&a.inbox),
            outbox: copy_messages(&a.outbox),
            env: copy_pairs(&a.env),
            allowed_urls: copy_strings(&a.allowed_urls),
            tick_count: a.tick_count,
            memory_state: None,
        }
    }

    /// A checkpoint of this state, taken at `saved_at`, with the fuel each
    /// agent has left (in registry order) and no memories.
    pub fn to_snapshot(&self, fuel_remaining: &Vec<u64>, saved_at: String) -> (r: OrchestratorSnapshot)
        requires
            self.wf(),
            fuel_remaining@.len() == self@.agents.len(),
            fuel_sum(self@.agents) <= u64::MAX,
        ensures
            records(r, self@, fuel_remaining@),
            r.router_config.buildable(),
            r.saved_at == saved_at,
    {
        let mut agents: Vec<AgentSnapshot> = Vec::new();
        let mut i: usize = 0;
        while i < self.agents.len()
            invariant
                i <= self.agents.len(),
                fuel_remaining@.len() == self@.agents.len(),
                agents@.len() == i,
                forall|j: int|
                    0 <= j < i ==> crate::snapshot::records_agent(#[trigger] agents@[j], self@.agents[j], fuel_remaining@[j])
                        && agents@[j].memory_state is None,
            decreases self.agents.len() - i,
        {
            let s = self.agent_snapshot(i, fuel_remaining[i]);
            agents.push(s);
            i += 1;
        }
        let total_fuel = match self.total_fuel_consumed() {
            Some(t) => t,
            None => 0,
        };
        let hub = match &self.router_config.hub {
            Some(h) => Some(h.clone()),
            None => None,
        };
        OrchestratorSnapshot {
            version: String::from_str(snapshot_version()),
            saved_at,
            round_count: self.round_count,
            agents,
            router_config: RouterConfig {
                topology: self.router_config.topology,
                hub,
                dlq_enabled: self.router_config.dlq_enabled,
            },
            dlq: queue_to_vec(&self.dlq),
            cumulative_stats: CumulativeStats {
                total_messages_routed: self.total_messages_routed,
                total_messages_dropped: self.total_messages_dropped,
                total_messages_dlq: self.total_messages_dlq,
                total_fuel_consumed: total_fuel,
            },
        }
    }

    /// Rebuild an orchestrator from a checkpoint: the version must be known;
    /// agents are registered in the recorded order, a later record replacing
    /// an earlier one with the same ID.
    pub fn from_snapshot(snap: &OrchestratorSnapshot) -> (r: Result<Orchestrator, SnapshotError>)
        requires
            snap.version@ == snapshot_version_spec() ==> snap.router_config.buildable(),
        ensures
            snap.version@ != snapshot_version_spec() ==> (r matches Err(SnapshotError::InvalidSnapshot(m)) && m@
                == "unknown snapshot version '"@ + snap.version@ + "'"@),
            snap.version@ == snapshot_version_spec() ==> (r matches Ok(o) && o.wf() && o@ == restored_view(*snap)),
    {
        if !same_text(snap.version.as_str(), snapshot_version()) {
            let mut msg = String::from_str("unknown snapshot version '");
            msg.append(snap.version.as_str());
            msg.append("'");
            return Err(SnapshotError::InvalidSnapshot(msg));
        }
        let mut orch = Orchestrator::new(OrchestratorConfig { default_fuel: 500_000, max_agents: 64 });
        orch.configure_router(snap.router_config.duplicate());
        orch.round_count = snap.round_count;
        let ghost views = snapshot_agents(snap.agents@);
        let mut k: usize = 0;
        assert(views.take(0) =~= Seq::<AgentView>::empty());
        while k < snap.agents.len()
            invariant
                orch.wf(),
                k <= snap.agents.len(),
                views == snapshot_agents(snap.agents@),
                orch@ == (OrchestratorView {
                    agents: restore_agents(views.take(k as int)),
                    dlq: Seq::empty(),
                    total_messages_routed: 0,
                    total_messages_dropped: 0,
                    total_messages_dlq: 0,
                    ..restored_view(*snap)
                }),
            decreases snap.agents.len() - k,
        {
            let s = &snap.agents[k];
            let rec = AgentRecord {
                id: s.id.clone(),
                wasm_path: s.wasm_path.clone(),
                inbox: vec_to_queue(&s.inbox),
                outbox: copy_messages(&s.outbox),
                env: copy_pairs(&s.env),
                allowed_urls: copy_strings(&s.allowed_urls),
                fuel_consumed: s.fuel_consumed,
                tick_count: s.tick_count,
                status: parse_agent_status(s.status.as_str()),
            };
            let ghost before = orch@.agents;
            proof {
                assert(rec@ == views[k as int]);
                assert(views.take(k + 1).drop_last() =~= views.take(k as int));
                assert(views.take(k + 1).last() == views[k as int]);
            }
            match orch.find(rec.id.as_str()) {
                Some(i) => {
                    orch.agents.set(i, rec);
                    proof {
                        assert(orch@.agents =~= before.update(i as int, views[k as int]));
                    }
                },
                None => {
                    orch.agents.push(rec);
                    proof {
                        assert(orch@.agents =~= before.push(views[k as int]));
                    }
                },
            }
            proof {
                lemma_restore_distinct(views.take(k + 1));
            }
            k += 1;
        }
        orch.dlq = vec_to_queue(&snap.dlq);
        orch.total_messages_routed = snap.cumulative_stats.total_messages_routed;
        orch.total_messages_dropped = snap.cumulative_stats.total_messages_dropped;
        orch.total_messages_dlq = snap.cumulative_stats.total_messages_dlq;
        proof {
            assert(views.take(snap.agents@.len() as int) =~= views);
            assert(orch@ =~= restored_view(*snap));
        }
        Ok(orch)
    }

    /// A summary of this state, with the fuel each agent has left (in
    /// registry order).
    pub fn summary(&self, fuel_remaining: &Vec<u64>) -> (r: OrchestratorSummary)
        requires
            fuel_remaining@.len() == self@.agents.len(),
            fuel_sum(self@.agents) <= u64::MAX,
        ensures
            r.version@ == snapshot_version_spec(),
            r.round_count == self@.round_count,
            r.agent_count == self@.agents.len(),
            r.agents@.len() == self@.agents.len(),
            forall|i: int| 0 <= i < self@.agents.len() ==> summarises(#[trigger] r.agents@[i], self@.agents[i], fuel_remaining@[i]),
            r.total_messages_routed == self@.total_messages_routed,
            r.total_messages_dropped == self@.total_messages_dropped,
            r.total_messages_dlq == self@.total_messages_dlq,
            r.total_fuel_consumed == fuel_sum(self@.agents),
            r.dlq_depth == self@.dlq.len(),
            r.topology@ == self@.topology.name_spec(),
    {
        let mut agents: Vec<AgentSummary> = Vec::new();
        let mut i: usize = 0;
        while i < self.agents.len()
            invariant
                i <= self.agents.len(),
                fuel_remaining@.len() == self@.agents.len(),
                agents@.len() == i,
                forall|j: int| 0 <= j < i ==> summarises(#[trigger] agents@[j], self@.agents[j], fuel_remaining@[j]),
            decreases self.agents.len() - i,
        {
            let a = &self.agents[i];
            assert(self@.agents[i as int] == a@);
            agents.push(
                AgentSummary {
                    id: a.id.clone(),
                    status: agent_status_to_string(&a.status),
                    wasm_path: a.wasm_path.clone(),
                    fuel_consumed: a.fuel_consumed,
                    fuel_remaining: fuel_remaining[i],
                    tick_count: a.tick_count,
                    inbox_depth: a.inbox.len(),
                    outbox_depth: a.outbox.len(),
                },
            );
            i += 1;
        }
        let total_fuel = match self.total_fuel_consumed() {
            Some(t) => t,
            None => 0,
        };
        OrchestratorSummary {
            version: String::from_str(snapshot_version()),
            round_count: self.round_count,
            agent_count: self.agents.len(),
            agents,
            total_messages_routed: self.total_messages_routed,
            total_messages_dropped: self.total_messages_dropped,
            total_messages_dlq: self.total_messages_dlq,
            total_fuel_consumed: total_fuel,
            dlq_depth: self.dlq.len(),
            topology: String::from_str(self.router_config.topology.as_str()),
        }
    }

    /// Whether `finish_tick(id, outcome)` keeps the counters in range
    /// (`true` when there is no such agent).
    pub fn tick_fits_check(&self, id: &str, outcome: &TickOutcome) -> (b: bool)
        requires
            self.wf(),
        ensures
            b == match lookup(self@.agents, id@) {
                Some(a) => tick_fits(self@, a, *outcome),
                None => true,
            },
    {
        match self.find(id) {
            Some(i) => {
                let a = &self.agents[i];
                assert(self@.agents[i as int] == a@);
                let burnt = outcome.fuel_before.saturating_sub(outcome.fuel_after);
                if a.fuel_consumed > u64::MAX - burnt {
                    return false;
                }
                if a.tick_count == u32::MAX {
                    return false;
                }
                if self.messages_dlq > usize::MAX - a.outbox.len() {
                    return false;
                }
                self.messages_dlq + a.outbox.len() <= usize::MAX - outcome.outbox.len()
            },
            None => true,
        }
    }

    /// Whether closing a round with `tally` keeps the counters in range.
    pub fn round_fits_check(&self, tally: &RoundTally) -> (b: bool)
        ensures
            b == round_fits(self@, *tally),
    {
        self.round_count < usize::MAX && self.total_messages_routed <= usize::MAX - tally.messages_routed
            && self.total_messages_dropped <= usize::MAX - tally.messages_dropped && self.total_messages_dlq
            <= usize::MAX - self.messages_dlq
    }

    /// Number of agents currently registered (includes all statuses).
    pub fn agent_count(&self) -> (r: usize)
        ensures
            r == self@.agents.len(),
    {
        self.agents.len()
    }

    /// Whether an agent named `id` is registered.
    pub fn has_agent(&self, id: &str) -> (b: bool)
        requires
            self.wf(),
        ensures
            b == (slot(self@.agents, id@) is Some),
    {
        self.find(id).is_some()
    }

    /// The (id, status) of every agent, in registry order.
    pub fn list_agents(&self) -> (r: Vec<(AgentId, AgentStatus)>)
        ensures
            r@.len() == self@.agents.len(),
            forall|i: int|
                0 <= i < r@.len() ==> r@[i].0@ == self@.agents[i].id && r@[i].1@ == self@.agents[i].status,
    {
        let mut r: Vec<(AgentId, AgentStatus)> = Vec::new();
        let mut i: usize = 0;
        while i < self.agents.len()
            invariant
                i <= self.agents.len(),
                r@.len() == i,
                forall|j: int|
                    0 <= j < i ==> r@[j].0@ == self@.agents[j].id && r@[j].1@ == self@.agents[j].status,
            decreases self.agents.len() - i,
        {
            r.push((self.agents[i].id.clone(), self.agents[i].status.duplicate()));
            i += 1;
        }
        r
    }

    /// The fuel consumed, tick count and status of an agent.
    pub fn agent_stats(&self, id: &str) -> (r: Option<(u64, u32, AgentStatus)>)
        requires
            self.wf(),
        ensures
            match lookup(self@.agents, id@) {
                Some(a) => r matches Some(s) && s.0 == a.fuel_consumed && s.1 == a.tick_count && s.2@ == a.status,
                None => r is None,
            },
    {
        match self.find(id) {
            Some(i) => {
                let a = &self.agents[i];
                Some((a.fuel_consumed, a.tick_count, a.status.duplicate()))
            },
            None => None,
        }
    }

    /// Replace the message router with a new configuration.  Agents
    /// already spawned use the new router from the next tick.
    pub fn configure_router(&mut self, config: RouterConfig)
        requires
            old(self).wf(),
            config.buildable(),
        ensures
            final(self).wf(),
            final(self)@ == (OrchestratorView {
                topology: config.topology,
                hub: opt_str(config.hub),
                dlq_enabled: config.dlq_enabled,
                ..old(self)@
            }),
    {
        let hub = match &config.hub {
            Some(h) => Some(h.clone()),
            None => None,
        };
        self.router = config.topology.build_router(hub);
        self.router_config = config;
    }

    /// The current router configuration.
    pub fn router_config(&self) -> (r: &RouterConfig)
        ensures
            r.topology == self@.topology,
            opt_str(r.hub) == self@.hub,
            r.dlq_enabled == self@.dlq_enabled,
    {
        &self.router_config
    }

    /// The current Dead Letter Queue contents (for inspection).
    pub fn dlq(&self) -> (r: &VecDeque<AgentMessage>)
        ensures
            r@ == self@.dlq,
    {
        &self.dlq
    }

    /// Drain and return the current DLQ, oldest first.
    pub fn drain_dlq(&mut self) -> (r: Vec<AgentMessage>)
        requires
            old(self).wf(),
        ensures
            final(self).wf(),
            r@ == old(self)@.dlq,
            final(self)@ == (OrchestratorView { dlq: Seq::empty(), ..old(self)@ }),
    {
        let mut queue: VecDeque<AgentMessage> = VecDeque::new();
        std::mem::swap(&mut queue, &mut self.dlq);
        let mut r: Vec<AgentMessage> = Vec::new();
        let ghost old_dlq = queue@;
        while queue.len() > 0
            invariant
                r@ + queue@ == old_dlq,
            decreases queue@.len(),
        {
            let m = queue.pop_front().unwrap();
            r.push(m);
            assert(r@ + queue@ =~= old_dlq);
        }
        assert(queue@ =~= Seq::<AgentMessage>::empty());
        assert(r@ =~= old_dlq);
        r
    }

    /// The messages that were neither delivered nor dead-lettered, with
    /// their sender, in the order they were observed.
    pub fn observed_messages(&self) -> (r: &Vec<(AgentId, AgentMessage)>)
        ensures
            r@.map_values(|p: (AgentId, AgentMessage)| (p.0@, p.1)) == self@.observed,
    {
        &self.observed_messages
    }

    /// Number of completed tick rounds.
    pub fn round_count(&self) -> (r: usize)
        ensures
            r == self@.round_count,
    {
        self.round_count
    }

    /// Cumulative total messages routed across all rounds.
    pub fn total_messages_routed(&self) -> (r: usize)
        ensures
            r == self@.total_messages_routed,
    {
        self.total_messages_routed
    }

    /// Cumulative total messages dropped across all rounds.
    pub fn total_messages_dropped(&self) -> (r: usize)
        ensures
            r == self@.total_messages_dropped,
    {
        self.total_messages_dropped
    }

    /// Cumulative total messages sent to DLQ across all rounds.
    pub fn total_messages_dlq(&self) -> (r: usize)
        ensures
            r == self@.total_messages_dlq,
    {
        self.total_messages_dlq
    }

    /// Messages sent to the DLQ since the last round ended.
    pub fn messages_dlq(&self) -> (r: usize)
        ensures
            r == self@.messages_dlq,
    {
        self.messages_dlq
    }

    /// Set checkpoint interval in rounds.
    pub fn save_every(&mut self, n: usize) -> (r: &mut Self)
        requires
            old(self).wf(),
        ensures
            r.wf(),
            (*r)@ == (OrchestratorView { save_interval: Some(n), ..old(self)@ }),
            *final(self) == *final(r),
    {
        self.save_interval = Some(n);
        self
    }

    /// Set the directory for auto-save checkpoints.
    pub fn set_checkpoint_dir(&mut self, dir: String) -> (r: &mut Self)
        requires
            old(self).wf(),
        ensures
            r.wf(),
            (*r)@ == (OrchestratorView { checkpoint_dir: Some(dir@), ..old(self)@ }),
            *final(self) == *final(r),
    {
        self.checkpoint_dir = Some(dir);
        self
    }

    /// The checkpoint interval, if one is set.
    pub fn save_interval(&self) -> (r: Option<usize>)
        ensures
            r == self@.save_interval,
    {
        self.save_interval
    }

    /// The checkpoint directory, if one is set.
    pub fn checkpoint_dir(&self) -> (r: Option<String>)
        ensures
            opt_str(r) == self@.checkpoint_dir,
    {
        match &self.checkpoint_dir {
            Some(d) => Some(d.clone()),
            None => None,
        }
    }
}

} // verus!
