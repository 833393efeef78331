//! What a checkpoint records of an orchestrator, and how an orchestrator
//! is rebuilt from one.  Reading and writing checkpoint files, and the
//! agents' linear memories, are the driver's work.

use std::collections::VecDeque;
use vstd::prelude::*;
use vstd::string::*;

use crate::ipc::AgentMessage;
use crate::orchestrator::{
    agent_ids, lookup, pairs_view, slot, AgentStatus, AgentView, OrchestratorConfig, OrchestratorView, StatusView,
};
use crate::router::{distinct_ids, ids_of, RouterConfig, Topology};
use crate::text::{is_prefix_of, same_text, starts_with};

verus! {

/// The text that stands for an agent status in a checkpoint.
pub open spec fn status_text(s: StatusView) -> Seq<char> {
    match s {
        StatusView::Running => "Running"@,
        StatusView::Paused => "Paused"@,
        StatusView::Crashed(m) => "Crashed("@ + m + ")"@,
        StatusView::Terminated => "Terminated"@,
    }
}

/// The status a checkpoint's text stands for.  `Crashed(reason)` keeps its
/// reason; any other text starting with `Crashed` keeps the whole text as
/// reason; an unknown text reads as Terminated.
pub open spec fn parse_status_spec(s: Seq<char>) -> StatusView {
    if s == "Running"@ {
        StatusView::Running
    } else if s == "Paused"@ {
        StatusView::Paused
    } else if s == "Terminated"@ {
        StatusView::Terminated
    } else if is_prefix_of("Crashed"@, s) {
        let open = "Crashed("@;
        if is_prefix_of(open, s) && s.len() >= open.len() + 1 && s.last() == ')' {
            StatusView::Crashed(s.subrange(open.len() as int, s.len() - 1))
        } else {
            StatusView::Crashed(s)
        }
    } else {
        StatusView::Terminated
    }
}

/// The checkpoint text of an agent status.
pub fn agent_status_to_string(status: &AgentStatus) -> (r: String)
    ensures
        r@ == status_text(status@),
{
    match status {
        AgentStatus::Running => String::from_str("Running"),
        AgentStatus::Paused => String::from_str("Paused"),
        AgentStatus::Crashed(msg) => {
            let mut r = String::from_str("Crashed(");
            r.append(msg.as_str());
            r.append(")");
            r
        },
        AgentStatus::Terminated => String::from_str("Terminated"),
    }
}

/// The agent status a checkpoint text stands for.
pub fn parse_agent_status(s: &str) -> (r: AgentStatus)
    ensures
        r@ == parse_status_spec(s@),
{
    if same_text(s, "Running") {
        return AgentStatus::Running;
    }
    if same_text(s, "Paused") {
        return AgentStatus::Paused;
    }
    if same_text(s, "Terminated") {
        return AgentStatus::Terminated;
    }
    if starts_with(s, "Crashed") {
        let n = s.unicode_len();
        let open = "Crashed(";
        let k = open.unicode_len();
        if starts_with(s, open) && n > k && s.get_char(n - 1) == ')' {
            let inner = s.substring_char(k, n - 1);
            return AgentStatus::Crashed(String::from_str(inner));
        }
        return AgentStatus::Crashed(String::from_str(s));
    }
    AgentStatus::Terminated
}

/// Reading back the text of a status gives the status again.
pub proof fn lemma_status_text_round_trip(s: StatusView)
    ensures
        parse_status_spec(status_text(s)) == s,
{
    reveal_strlit("Running");
    reveal_strlit("Paused");
    reveal_strlit("Terminated");
    reveal_strlit("Crashed");
    reveal_strlit("Crashed(");
    reveal_strlit(")");
    let t = status_text(s);
    match s {
        StatusView::Crashed(m) => {
            let open = "Crashed("@;
            assert(t[0] == 'C');
            assert("Running"@[0] == 'R');
            assert("Paused"@[0] == 'P');
            assert("Terminated"@[0] == 'T');
            assert(t != "Running"@);
            assert(t != "Paused"@);
            assert(t != "Terminated"@);
            assert(t.subrange(0, 7) =~= "Crashed"@);
            assert(t.subrange(0, 8) =~= open);
            assert(t.subrange(8, t.len() - 1) =~= m);
            assert(t.last() == ')');
            assert(open.len() == 8);
            assert(is_prefix_of(open, t));
            assert(is_prefix_of("Crashed"@, t));
            assert(t.len() >= open.len() + 1);
            assert(parse_status_spec(t) == StatusView::Crashed(t.subrange(open.len() as int, t.len() - 1)));
        },
        StatusView::Paused => {
            assert("Paused"@.len() != "Running"@.len());
        },
        StatusView::Terminated => {
            assert("Terminated"@.len() != "Running"@.len());
            assert("Terminated"@.len() != "Paused"@.len());
        },
        StatusView::Running => {},
    }
}


/// The version tag a checkpoint carries.
pub open spec fn snapshot_version_spec() -> Seq<char> {
    "cage-snapshot-v1"@
}

/// The version tag this library writes and reads.
pub fn snapshot_version() -> (r: &'static str)
    ensures
        r@ == snapshot_version_spec(),
{
    "cage-snapshot-v1"
}

/// Recorded state of a single agent.
#[derive(Debug, Clone)]
pub struct AgentSnapshot {
    pub id: String,
    pub status: String,
    pub wasm_path: String,
    pub fuel_consumed: u64,
    pub fuel_remaining: u64,
    pub inbox: Vec<AgentMessage>,
    pub outbox: Vec<AgentMessage>,
    pub env: Vec<(String, String)>,
    pub allowed_urls: Vec<String>,
    pub tick_count: u32,
    /// The agent's linear memory, in a full checkpoint.
    pub memory_state: Option<Vec<u8>>,
}

/// Aggregated observability counters across all rounds.
#[derive(Debug, Clone, Copy, PartialEq, Eq, Structural)]
pub struct CumulativeStats {
    pub total_messages_routed: usize,
    pub total_messages_dropped: usize,
    pub total_messages_dlq: usize,
    pub total_fuel_consumed: u64,
}

/// Recorded state of a whole orchestrator.
#[derive(Debug, Clone)]
pub struct OrchestratorSnapshot {
    pub version: String,
    pub saved_at: String,
    pub round_count: usize,
    pub agents: Vec<AgentSnapshot>,
    pub router_config: RouterConfig,
    pub dlq: Vec<AgentMessage>,
    pub cumulative_stats: CumulativeStats,
}

/// Why a checkpoint could not be turned back into an orchestrator.
#[derive(Debug, Clone, PartialEq, Eq)]
pub enum SnapshotError {
    WasmLoad(String),
    InvalidSnapshot(String),
    MemoryError(String),
}

impl AgentSnapshot {
    /// The agent this record stands for.
    pub open spec fn agent_view(&self) -> AgentView {
        AgentView {
            id: self.id@,
            wasm_path: self.wasm_path@,
            inbox: self.inbox@,
            outbox: self.outbox@,
            env: pairs_view(self.env@),
            allowed_urls: ids_of(self.allowed_urls@),
            fuel_consumed: self.fuel_consumed,
            tick_count: self.tick_count,
            status: parse_status_spec(self.status@),
        }
    }
}

/// Whether `s` records agent `a`, which had `fuel_remaining` fuel left.
pub open spec fn records_agent(s: AgentSnapshot, a: AgentView, fuel_remaining: u64) -> bool {
    &&& s.id@ == a.id
    &&& s.status@ == status_text(a.status)
    &&& s.wasm_path@ == a.wasm_path
    &&& s.fuel_consumed == a.fuel_consumed
    &&& s.fuel_remaining == fuel_remaining
    &&& s.inbox@ == a.inbox
    &&& s.outbox@ == a.outbox
    &&& pairs_view(s.env@) == a.env
    &&& ids_of(s.allowed_urls@) == a.allowed_urls
    &&& s.tick_count == a.tick_count
}

/// The fuel consumed by all agents together.
pub open spec fn fuel_sum(agents: Seq<AgentView>) -> int
    decreases agents.len(),
{
    if agents.len() == 0 {
        0
    } else {
        fuel_sum(agents.drop_last()) + agents.last().fuel_consumed
    }
}

/// Whether `snap` records the orchestrator state `v`, whose agents had
/// `fuel_remaining` fuel left (memories not included).
pub open spec fn records(snap: OrchestratorSnapshot, v: OrchestratorView, fuel_remaining: Seq<u64>) -> bool {
    &&& snap.version@ == snapshot_version_spec()
    &&& snap.round_count == v.round_count
    &&& snap.agents@.len() == v.agents.len()
    &&& forall|i: int|
        0 <= i < v.agents.len() ==> records_agent(#[trigger] snap.agents@[i], v.agents[i], fuel_remaining[i])
            && snap.agents@[i].memory_state is None
    &&& snap.router_config.topology == v.topology
    &&& crate::orchestrator::opt_str(snap.router_config.hub) == v.hub
    &&& snap.router_config.dlq_enabled == v.dlq_enabled
    &&& snap.dlq@ == v.dlq
    &&& snap.cumulative_stats.total_messages_routed == v.total_messages_routed
    &&& snap.cumulative_stats.total_messages_dropped == v.total_messages_dropped
    &&& snap.cumulative_stats.total_messages_dlq == v.total_messages_dlq
    &&& snap.cumulative_stats.total_fuel_consumed == fuel_sum(v.agents)
}

/// `agents` with `a` put in: replacing the agent with the same ID, or
/// appended when there is none.
pub open spec fn upsert(agents: Seq<AgentView>, a: AgentView) -> Seq<AgentView> {
    match slot(agents, a.id) {
        Some(i) => agents.update(i, a),
        None => agents.push(a),
    }
}

/// The registry rebuilt from recorded agents, taken in order.
pub open spec fn restore_agents(snaps: Seq<AgentView>) -> Seq<AgentView>
    decreases snaps.len(),
{
    if snaps.len() == 0 {
        Seq::empty()
    } else {
        upsert(restore_agents(snaps.drop_last()), snaps.last())
    }
}

/// The agents that a list of agent records stands for.
pub open spec fn snapshot_agents(snaps: Seq<AgentSnapshot>) -> Seq<AgentView> {
    snaps.map_values(|s: AgentSnapshot| s.agent_view())
}

/// The orchestrator state rebuilt from `snap`: default configuration, the
/// recorded router, registry, DLQ, round count and totals, nothing
/// observed, and no checkpoint settings.
pub open spec fn restored_view(snap: OrchestratorSnapshot) -> OrchestratorView {
    OrchestratorView {
        config: OrchestratorConfig { default_fuel: 500_000, max_agents: 64 },
        agents: restore_agents(snapshot_agents(snap.agents@)),
        observed: Seq::empty(),
        topology: snap.router_config.topology,
        hub: crate::orchestrator::opt_str(snap.router_config.hub),
        dlq_enabled: snap.router_config.dlq_enabled,
        dlq: snap.dlq@,
        messages_dlq: 0,
        round_count: snap.round_count,
        total_messages_routed: snap.cumulative_stats.total_messages_routed,
        total_messages_dropped: snap.cumulative_stats.total_messages_dropped,
        total_messages_dlq: snap.cumulative_stats.total_messages_dlq,
        save_interval: None,
        checkpoint_dir: None,
    }
}

/// Rebuilding the registry keeps agent IDs distinct.
pub proof fn lemma_restore_distinct(snaps: Seq<AgentView>)
    ensures
        distinct_ids(agent_ids(restore_agents(snaps))),
    decreases snaps.len(),
{
    if snaps.len() > 0 {
        let prev = restore_agents(snaps.drop_last());
        lemma_restore_distinct(snaps.drop_last());
        let a = snaps.last();
        let next = restore_agents(snaps);
        assert(next == upsert(prev, a));
        match slot(prev, a.id) {
            Some(i) => {
                assert(agent_ids(next) =~= agent_ids(prev));
            },
            None => {
                assert(agent_ids(next) =~= agent_ids(prev).push(a.id));
                let ids = agent_ids(next);
                assert forall|p: int, q: int| 0 <= p < ids.len() && 0 <= q < ids.len() && p != q implies ids[p] != ids[q] by {
                    if p == prev.len() {
                        assert(prev[q].id != a.id);
                        assert(ids[q] == prev[q].id);
                    } else if q == prev.len() {
                        assert(prev[p].id != a.id);
                        assert(ids[p] == prev[p].id);
                    } else {
                        assert(ids[p] == agent_ids(prev)[p]);
                        assert(ids[q] == agent_ids(prev)[q]);
                    }
                }
            },
        }
    }
}

/// Rebuilding from the records of a registry with distinct IDs gives the
/// registry back, agent for agent and in order.
pub proof fn lemma_restore_recorded(agents: Seq<AgentView>, snaps: Seq<AgentSnapshot>, fuel_remaining: Seq<u64>)
    requires
        distinct_ids(agent_ids(agents)),
        snaps.len() == agents.len(),
        forall|i: int| 0 <= i < agents.len() ==> records_agent(#[trigger] snaps[i], agents[i], fuel_remaining[i]),
    ensures
        restore_agents(snapshot_agents(snaps)) == agents,
    decreases agents.len(),
{
    if agents.len() > 0 {
        let n = agents.len() - 1;
        let pa = agents.drop_last();
        let ps = snaps.drop_last();
        assert(distinct_ids(agent_ids(pa))) by {
            let ids = agent_ids(pa);
            assert forall|p: int, q: int| 0 <= p < ids.len() && 0 <= q < ids.len() && p != q implies ids[p] != ids[q] by {
                assert(ids[p] == agent_ids(agents)[p]);
                assert(ids[q] == agent_ids(agents)[q]);
            }
        }
        assert forall|i: int| 0 <= i < pa.len() implies records_agent(#[trigger] ps[i], pa[i], fuel_remaining[i]) by {
            assert(records_agent(snaps[i], agents[i], fuel_remaining[i]));
        }
        lemma_restore_recorded(pa, ps, fuel_remaining);
        assert(snapshot_agents(snaps).drop_last() =~= snapshot_agents(ps));
        let last = snaps[n].agent_view();
        assert(records_agent(snaps[n], agents[n], fuel_remaining[n]));
        lemma_status_text_round_trip(agents[n].status);
        assert(last == agents[n]);
        assert(slot(pa, last.id) is None) by {
            if exists|i: int| 0 <= i < pa.len() && pa[i].id == last.id {
                let i = choose|i: int| 0 <= i < pa.len() && pa[i].id == last.id;
                assert(agent_ids(agents)[i] == agent_ids(agents)[n]);
            }
        }
        assert(agents =~= pa.push(agents[n]));
    }
}

/// Law: a checkpoint records each agent as it stands, in registry order:
/// its ID, WebAssembly path, the fuel it has burnt, the fuel it has left
/// exactly as handed in (that is what it is restarted with), its tick
/// count, its queues, its environment and whitelist, and a status text
/// that reads back as its status; no memory is recorded.
pub proof fn law_checkpoint_records_agents(snap: OrchestratorSnapshot, v: OrchestratorView, fuel_remaining: Seq<u64>)
    requires
        records(snap, v, fuel_remaining),
    ensures
        snap.agents@.len() == v.agents.len(),
        forall|i: int|
            0 <= i < v.agents.len() ==> {
                let s = #[trigger] snap.agents@[i];
                let a = v.agents[i];
                &&& s.fuel_remaining == fuel_remaining[i]
                &&& s.fuel_consumed == a.fuel_consumed
                &&& s.id@ == a.id
                &&& s.wasm_path@ == a.wasm_path
                &&& s.tick_count == a.tick_count
                &&& s.inbox@ == a.inbox
                &&& s.outbox@ == a.outbox
                &&& pairs_view(s.env@) == a.env
                &&& ids_of(s.allowed_urls@) == a.allowed_urls
                &&& parse_status_spec(s.status@) == a.status
                &&& s.memory_state is None
            },
{
    assert forall|i: int| 0 <= i < v.agents.len() implies parse_status_spec((#[trigger] snap.agents@[i]).status@)
        == v.agents[i].status by {
        assert(records_agent(snap.agents@[i], v.agents[i], fuel_remaining[i]));
        lemma_status_text_round_trip(v.agents[i].status);
    }
}

/// Law: a checkpoint gives back what it recorded.  Rebuilding an
/// orchestrator from a checkpoint of a state with distinct agent IDs gives
/// that state's registry, router, DLQ, round count and totals; the per-round
/// DLQ counter, the observed messages, the checkpoint settings and the
/// configuration start afresh.
pub proof fn lemma_checkpoint_round_trip(snap: OrchestratorSnapshot, v: OrchestratorView, fuel_remaining: Seq<u64>)
    requires
        records(snap, v, fuel_remaining),
        distinct_ids(agent_ids(v.agents)),
    ensures
        restored_view(snap) == (OrchestratorView {
            config: OrchestratorConfig { default_fuel: 500_000, max_agents: 64 },
            observed: Seq::empty(),
            messages_dlq: 0,
            save_interval: None,
            checkpoint_dir: None,
            ..v
        }),
{
    assert forall|i: int| 0 <= i < v.agents.len() implies records_agent(#[trigger] snap.agents@[i], v.agents[i], fuel_remaining[i]) by {
    }
    lemma_restore_recorded(v.agents, snap.agents@, fuel_remaining);
}

/// The empty-path check on the WebAssembly path a checkpoint names for an agent.
pub fn check_wasm_path(wasm_path: &str, agent_id: &str) -> (r: Result<(), SnapshotError>)
    ensures
        r is Err <==> wasm_path@.len() == 0,
        r matches Err(e) ==> e is InvalidSnapshot,
{
    if wasm_path.is_empty() {
        let mut msg = String::from_str("agent '");
        msg.append(agent_id);
        msg.append("' has an empty WASM path");
        return Err(SnapshotError::InvalidSnapshot(msg));
    }
    Ok(())
}

/// Size of a WebAssembly linear-memory page in bytes.
pub const WASM_PAGE_SIZE: usize = 65536;

/// How many pages a memory of `current` bytes must grow by to hold
/// `wanted` bytes.
pub fn pages_to_grow(current: usize, wanted: usize) -> (r: u64)
    ensures
        wanted <= current ==> r == 0,
        wanted > current ==> r as int == (wanted - current + WASM_PAGE_SIZE - 1) / (WASM_PAGE_SIZE as int),
{
    if wanted > current {
        let missing = wanted - current;
        let pages = missing / WASM_PAGE_SIZE + if missing % WASM_PAGE_SIZE == 0 { 0 } else { 1 };
        assert(pages as int == (missing + WASM_PAGE_SIZE - 1) / (WASM_PAGE_SIZE as int)) by (nonlinear_arith)
            requires
                pages as int == missing / 65536 + if missing % 65536 == 0 { 0int } else { 1int },
                missing >= 1,
        ;
        pages as u64
    } else {
        0
    }
}

} // verus!
