use coplex_cage::ipc::AgentMessage;
use coplex_cage::orchestrator::{AgentStatus, Orchestrator, OrchestratorConfig, TickCall, TickOutcome, TickStart};
use coplex_cage::router::{RouterConfig, Topology};
use coplex_cage::snapshot::{
    agent_status_to_string, check_wasm_path, pages_to_grow, parse_agent_status, snapshot_version, SnapshotError,
};

fn msg(to: &str) -> AgentMessage {
    AgentMessage { kind: "peer".to_string(), payload: format!("{{\"to\":\"{to}\"}}") }
}

#[test]
fn status_text_reads_back() {
    for s in [
        AgentStatus::Running,
        AgentStatus::Paused,
        AgentStatus::Terminated,
        AgentStatus::Crashed("out of fuel".to_string()),
        AgentStatus::Crashed(String::new()),
        AgentStatus::Crashed("a)b(c)".to_string()),
    ] {
        assert_eq!(parse_agent_status(&agent_status_to_string(&s)), s);
    }
    assert_eq!(agent_status_to_string(&AgentStatus::Crashed("x".to_string())), "Crashed(x)");
}

#[test]
fn odd_status_texts() {
    assert_eq!(parse_agent_status("Sleeping"), AgentStatus::Terminated);
    assert_eq!(parse_agent_status(""), AgentStatus::Terminated);
    assert_eq!(parse_agent_status("Crashed"), AgentStatus::Crashed("Crashed".to_string()));
    assert_eq!(parse_agent_status("Crashed("), AgentStatus::Crashed("Crashed(".to_string()));
    assert_eq!(parse_agent_status("Crashed()"), AgentStatus::Crashed(String::new()));
    assert_eq!(parse_agent_status("CrashedX"), AgentStatus::Crashed("CrashedX".to_string()));
    assert_eq!(parse_agent_status("running"), AgentStatus::Terminated);
}

#[test]
fn checkpoint_round_trip_restores_state() {
    let mut o = Orchestrator::new(OrchestratorConfig::default());
    o.configure_router(RouterConfig { topology: Topology::Broadcast, hub: None, dlq_enabled: true });
    o.register(
        "a".to_string(),
        "a.wasm".to_string(),
        vec![("K".to_string(), "V".to_string())],
        vec!["https://example.com".to_string()],
        20,
        13,
    )
    .unwrap();
    o.register("b".to_string(), "b.wasm".to_string(), Vec::new(), Vec::new(), 0, 0).unwrap();
    o.route("a", msg("x")).unwrap();
    o.pause("b").unwrap();
    o.finish_tick(
        "a",
        TickOutcome { call: TickCall::Trapped("trap".to_string()), message: None, fuel_before: 9, fuel_after: 1, outbox: Vec::new() },
    )
    .unwrap();
    let snap = o.to_snapshot(&vec![1, 2], "now".to_string());
    assert_eq!(snap.version, "cage-snapshot-v1");
    assert_eq!(snap.saved_at, "now");
    assert_eq!(snap.agents.len(), 2);
    assert_eq!(snap.agents[0].status, "Crashed(trap)");
    assert_eq!(snap.agents[0].fuel_consumed, 15);
    assert_eq!(snap.agents[1].status, "Paused");
    assert_eq!(snap.agents[1].fuel_remaining, 2);
    assert_eq!(snap.cumulative_stats.total_fuel_consumed, 15);
    assert!(snap.agents[0].memory_state.is_none());

    let mut back = Orchestrator::from_snapshot(&snap).unwrap();
    assert_eq!(back.agent_count(), 2);
    assert_eq!(back.agent_stats("a"), Some((15, 1, AgentStatus::Crashed("trap".to_string()))));
    assert_eq!(back.agent_stats("b"), Some((0, 0, AgentStatus::Paused)));
    assert_eq!(back.router_config().topology, Topology::Broadcast);
    assert!(back.router_config().dlq_enabled);
    match back.begin_tick("b").unwrap() {
        TickStart::Skipped(_) => {}
        other => panic!("unexpected {other:?}"),
    }
    back.resume("b").unwrap();
    match back.begin_tick("b").unwrap() {
        TickStart::Run(Some(m)) => assert_eq!(m.destination(), "x"),
        other => panic!("unexpected {other:?}"),
    }
    let again = back.to_snapshot(&vec![1, 2], "later".to_string());
    assert_eq!(again.agents[0].env, vec![("K".to_string(), "V".to_string())]);
    assert_eq!(again.agents[0].allowed_urls, vec!["https://example.com".to_string()]);
}

#[test]
fn unknown_snapshot_version_is_refused() {
    let o = Orchestrator::new(OrchestratorConfig::default());
    let mut snap = o.to_snapshot(&Vec::new(), String::new());
    snap.version = "cage-snapshot-v0".to_string();
    match Orchestrator::from_snapshot(&snap) {
        Err(SnapshotError::InvalidSnapshot(m)) => assert_eq!(m, "unknown snapshot version 'cage-snapshot-v0'"),
        _ => panic!("expected an invalid snapshot"),
    }
}

#[test]
fn unknown_version_is_refused_whatever_the_router() {
    let o = Orchestrator::new(OrchestratorConfig::default());
    let mut snap = o.to_snapshot(&Vec::new(), String::new());
    snap.version = "cage-snapshot-v0".to_string();
    snap.router_config = RouterConfig { topology: Topology::HubAndSpoke, hub: None, dlq_enabled: false };
    match Orchestrator::from_snapshot(&snap) {
        Err(SnapshotError::InvalidSnapshot(m)) => assert_eq!(m, "unknown snapshot version 'cage-snapshot-v0'"),
        _ => panic!("expected an invalid snapshot"),
    }
}

#[test]
fn later_record_replaces_earlier_with_same_id() {
    let mut o = Orchestrator::new(OrchestratorConfig::default());
    o.register("a".to_string(), "a.wasm".to_string(), Vec::new(), Vec::new(), 10, 9).unwrap();
    let mut snap = o.to_snapshot(&vec![0], String::new());
    let mut second = snap.agents[0].clone();
    second.fuel_consumed = 99;
    second.wasm_path = "other.wasm".to_string();
    snap.agents.push(second);
    let back = Orchestrator::from_snapshot(&snap).unwrap();
    assert_eq!(back.agent_count(), 1);
    assert_eq!(back.agent_stats("a").unwrap().0, 99);
}

#[test]
fn version_tag() {
    assert_eq!(snapshot_version(), "cage-snapshot-v1");
}

#[test]
fn empty_wasm_path_is_invalid() {
    match check_wasm_path("", "agent-a") {
        Err(SnapshotError::InvalidSnapshot(m)) => assert_eq!(m, "agent 'agent-a' has an empty WASM path"),
        _ => panic!("expected an invalid snapshot"),
    }
    assert!(check_wasm_path("/nonexistent/path/agent.wasm", "agent-a").is_ok());
}

#[test]
fn memory_grows_by_whole_pages() {
    assert_eq!(pages_to_grow(65536, 65536), 0);
    assert_eq!(pages_to_grow(65536, 1000), 0);
    assert_eq!(pages_to_grow(65536, 65537), 1);
    assert_eq!(pages_to_grow(0, 65536 * 3), 3);
    assert_eq!(pages_to_grow(10, 65536 * 3), 3);
}
