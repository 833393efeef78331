use coplex_cage::ipc::AgentMessage;
use coplex_cage::orchestrator::{
    AgentStatus, Orchestrator, OrchestratorConfig, OrchestratorError, RoundTally, TickCall, TickOutcome, TickStart,
};
use coplex_cage::router::{RouterConfig, Topology};

fn orch_with(ids: &[&str]) -> Orchestrator {
    let mut o = Orchestrator::new(OrchestratorConfig::default());
    for id in ids {
        o.register(id.to_string(), format!("{id}.wasm"), Vec::new(), Vec::new(), 0, 0).unwrap();
    }
    o
}

fn peer(from: &str, to: &str, payload: &str) -> AgentMessage {
    AgentMessage {
        kind: "peer".to_string(),
        payload: format!("{{\"from\":\"{from}\",\"payload\":{payload},\"to\":\"{to}\"}}"),
    }
}

fn outcome(call: TickCall, before: u64, after: u64, outbox: Vec<AgentMessage>) -> TickOutcome {
    TickOutcome { call, message: None, fuel_before: before, fuel_after: after, outbox }
}

fn inbox_len(o: &Orchestrator, id: &str) -> usize {
    let mut o2 = Orchestrator::from_snapshot(&o.to_snapshot(&vec![0; o.agent_count()], String::new())).unwrap();
    let mut n = 0;
    while let Ok(TickStart::Run(Some(_))) = o2.begin_tick(id) {
        n += 1;
    }
    n
}

#[test]
fn default_config() {
    let c = OrchestratorConfig::default();
    assert_eq!(c.default_fuel, 500_000);
    assert_eq!(c.max_agents, 64);
}

#[test]
fn new_orchestrator_is_empty() {
    let o = Orchestrator::new(OrchestratorConfig::default());
    assert_eq!(o.agent_count(), 0);
    assert_eq!(o.round_count(), 0);
    assert_eq!(o.total_messages_routed(), 0);
    assert_eq!(o.router_config().topology, Topology::Direct);
    assert!(o.dlq().is_empty());
}

#[test]
fn spawn_refuses_duplicates_and_full_registry() {
    let mut o = Orchestrator::new(OrchestratorConfig { default_fuel: 10, max_agents: 2 });
    assert_eq!(o.check_spawn("a", None), Ok(10));
    assert_eq!(o.check_spawn("a", Some(7)), Ok(7));
    o.register("a".to_string(), "a.wasm".to_string(), Vec::new(), Vec::new(), 100, 97).unwrap();
    assert_eq!(o.check_spawn("a", None), Err(OrchestratorError::AlreadyExists("a".to_string())));
    assert_eq!(
        o.register("a".to_string(), "x.wasm".to_string(), Vec::new(), Vec::new(), 0, 0),
        Err(OrchestratorError::AlreadyExists("a".to_string()))
    );
    o.register("b".to_string(), "b.wasm".to_string(), Vec::new(), Vec::new(), 0, 0).unwrap();
    assert_eq!(o.check_spawn("c", None), Err(OrchestratorError::MaxAgents(2)));
    assert_eq!(o.agent_count(), 2);
    assert_eq!(o.agent_stats("a"), Some((3, 0, AgentStatus::Running)));
}

#[test]
fn list_agents_in_registration_order() {
    let o = orch_with(&["x", "y"]);
    let l = o.list_agents();
    assert_eq!(l, vec![("x".to_string(), AgentStatus::Running), ("y".to_string(), AgentStatus::Running)]);
}

#[test]
fn pause_then_resume_runs_again() {
    let mut o = orch_with(&["a"]);
    o.pause("a").unwrap();
    assert_eq!(o.agent_stats("a").unwrap().2, AgentStatus::Paused);
    o.resume("a").unwrap();
    assert_eq!(o.agent_stats("a").unwrap().2, AgentStatus::Running);
}

#[test]
fn resume_refuses_agent_that_is_not_paused() {
    let mut o = orch_with(&["a"]);
    assert_eq!(o.resume("a"), Err(OrchestratorError::NotPaused("a".to_string(), AgentStatus::Running)));
    assert_eq!(o.resume("zz"), Err(OrchestratorError::NotFound("zz".to_string())));
    assert_eq!(o.pause("zz"), Err(OrchestratorError::NotFound("zz".to_string())));
}

#[test]
fn kill_removes_and_reports_stats() {
    let mut o = orch_with(&["a", "b"]);
    o.register("c".to_string(), "c.wasm".to_string(), Vec::new(), Vec::new(), 50, 8).unwrap();
    assert_eq!(o.kill("c"), Ok((42, 0)));
    assert!(!o.has_agent("c"));
    assert_eq!(o.agent_count(), 2);
    assert_eq!(o.kill("c"), Err(OrchestratorError::NotFound("c".to_string())));
}

#[test]
fn route_delivers_to_the_target_inbox() {
    let mut o = orch_with(&["a", "b"]);
    assert_eq!(o.route("a", peer("a", "b", "1")), Ok(()));
    match o.begin_tick("b").unwrap() {
        TickStart::Run(Some(m)) => assert_eq!(m.destination(), "b"),
        other => panic!("unexpected {other:?}"),
    }
    assert!(matches!(o.begin_tick("b").unwrap(), TickStart::Run(None)));
}

#[test]
fn route_without_destination_is_observed() {
    let mut o = orch_with(&["a"]);
    let msg = AgentMessage { kind: "peer".to_string(), payload: "{\"x\":1}".to_string() };
    assert_eq!(o.route("a", msg), Err(OrchestratorError::MissingDestination));
    assert_eq!(o.observed_messages().len(), 1);
    assert_eq!(o.observed_messages()[0].0, "a");
}

#[test]
fn unroutable_message_goes_to_dlq_when_enabled() {
    let mut o = orch_with(&["a"]);
    o.configure_router(RouterConfig { topology: Topology::Direct, hub: None, dlq_enabled: true });
    let r = o.route("a", peer("a", "ghost", "2"));
    assert_eq!(r, Err(OrchestratorError::Unroutable { to: "ghost".to_string(), topology: "direct".to_string() }));
    assert_eq!(o.dlq().len(), 1);
    assert_eq!(o.messages_dlq(), 1);
    assert!(o.observed_messages().is_empty());
    let drained = o.drain_dlq();
    assert_eq!(drained.len(), 1);
    assert_eq!(drained[0].destination(), "ghost");
    assert!(o.dlq().is_empty());
}

#[test]
fn message_without_destination_goes_to_dlq_when_enabled() {
    let mut o = orch_with(&["a"]);
    o.configure_router(RouterConfig { topology: Topology::Direct, hub: None, dlq_enabled: true });
    let msg = AgentMessage { kind: "peer".to_string(), payload: "{\"x\":1}".to_string() };
    assert_eq!(o.route("a", msg), Err(OrchestratorError::MissingDestination));
    assert_eq!(o.dlq().len(), 1);
    assert_eq!(o.messages_dlq(), 1);
    assert!(o.observed_messages().is_empty());
}

#[test]
fn register_charges_the_fuel_initialisation_burnt() {
    let mut o = orch_with(&[]);
    o.register("a".to_string(), "a.wasm".to_string(), Vec::new(), Vec::new(), 500, 480).unwrap();
    o.register("b".to_string(), "b.wasm".to_string(), Vec::new(), Vec::new(), 5, 9).unwrap();
    assert_eq!(o.agent_stats("a"), Some((20, 0, AgentStatus::Running)));
    assert_eq!(o.agent_stats("b"), Some((0, 0, AgentStatus::Running)));
}

#[test]
fn unroutable_message_is_observed_without_dlq() {
    let mut o = orch_with(&["a"]);
    assert!(o.route("a", peer("a", "ghost", "2")).is_err());
    assert!(o.dlq().is_empty());
    assert_eq!(o.observed_messages().len(), 1);
}

#[test]
fn broadcast_route_fills_every_other_inbox() {
    let mut o = orch_with(&["a", "b", "c"]);
    o.configure_router(RouterConfig { topology: Topology::Broadcast, hub: None, dlq_enabled: false });
    assert_eq!(o.route("a", peer("a", "@all", "0")), Ok(()));
    assert_eq!(inbox_len(&o, "a"), 0);
    assert_eq!(inbox_len(&o, "b"), 1);
    assert_eq!(inbox_len(&o, "c"), 1);
}

#[test]
fn begin_tick_skips_paused_agent() {
    let mut o = orch_with(&["a"]);
    o.pause("a").unwrap();
    match o.begin_tick("a").unwrap() {
        TickStart::Skipped(t) => {
            assert_eq!(t.agent_id, "a");
            assert!(t.message.is_none());
            assert_eq!(t.messages_routed, 0);
        }
        other => panic!("unexpected {other:?}"),
    }
    assert!(matches!(o.begin_tick("nope"), Err(OrchestratorError::NotFound(_))));
}

#[test]
fn finish_tick_counts_fuel_and_ticks() {
    let mut o = orch_with(&["a"]);
    let r = o.finish_tick("a", outcome(TickCall::Returned(0), 100, 60, Vec::new())).unwrap();
    assert_eq!(r.messages_routed, 0);
    assert_eq!(o.agent_stats("a"), Some((40, 1, AgentStatus::Running)));
    // More fuel after than before counts nothing.
    o.finish_tick("a", outcome(TickCall::Missing, 10, 20, Vec::new())).unwrap();
    assert_eq!(o.agent_stats("a"), Some((40, 2, AgentStatus::Running)));
}

#[test]
fn finish_tick_reports_message_only_on_success() {
    let mut o = orch_with(&["a"]);
    let msg = AgentMessage { kind: "result".to_string(), payload: "42".to_string() };
    let mut oc = outcome(TickCall::Returned(0), 5, 4, Vec::new());
    oc.message = Some(msg.duplicate());
    assert_eq!(o.finish_tick("a", oc).unwrap().message.unwrap().payload, "42");
    let mut oc = outcome(TickCall::Returned(3), 5, 4, Vec::new());
    oc.message = Some(msg);
    assert!(o.finish_tick("a", oc).unwrap().message.is_none());
}

#[test]
fn empty_tank_crashes_agent() {
    let mut o = orch_with(&["a"]);
    o.finish_tick("a", outcome(TickCall::Returned(0), 10, 0, Vec::new())).unwrap();
    assert_eq!(o.agent_stats("a").unwrap().2, AgentStatus::Crashed("out of fuel".to_string()));
}

#[test]
fn trap_crashes_agent_with_reason() {
    let mut o = orch_with(&["a"]);
    let r = o.finish_tick("a", outcome(TickCall::Trapped("unreachable".to_string()), 10, 0, Vec::new())).unwrap();
    assert!(r.message.is_none());
    assert_eq!(o.agent_stats("a").unwrap().2, AgentStatus::Crashed("unreachable".to_string()));
}

#[test]
fn finish_tick_routes_outbox_and_counts_drops() {
    let mut o = orch_with(&["a", "b"]);
    let outbox = vec![peer("a", "b", "1"), peer("a", "ghost", "2"), peer("a", "b", "3")];
    let r = o.finish_tick("a", outcome(TickCall::Returned(0), 10, 9, outbox)).unwrap();
    assert_eq!(r.messages_routed, 2);
    assert_eq!(r.messages_dropped, 1);
    assert_eq!(inbox_len(&o, "b"), 2);
    assert!(matches!(o.finish_tick("zz", outcome(TickCall::Missing, 0, 0, Vec::new())), Err(OrchestratorError::NotFound(_))));
}

#[test]
fn round_ticks_running_agents_and_totals() {
    let mut o = orch_with(&["a", "b", "c"]);
    o.pause("b").unwrap();
    let ids = o.round_agents();
    assert_eq!(ids, vec!["a".to_string(), "c".to_string()]);
    let mut tally = RoundTally::new();
    for id in &ids {
        let before = o.agent_stats(id).unwrap().0;
        let out = if id == "a" {
            outcome(TickCall::Returned(0), 100, 90, vec![peer("a", "c", "1"), peer("a", "ghost", "1")])
        } else {
            outcome(TickCall::Trapped("boom".to_string()), 100, 50, Vec::new())
        };
        assert!(o.tick_fits_check(id, &out));
        let res = o.finish_tick(id, out).ok();
        assert!(tally.fits_check(&o, id, &res, before));
        tally.record(&o, id, res, before);
    }
    tally.record(&o, "ghost", None, 0);
    assert!(o.round_fits_check(&tally));
    let s = o.finish_round(tally);
    assert_eq!(s.round_fuel, 60);
    assert_eq!(s.messages_routed, 1);
    assert_eq!(s.messages_dropped, 1);
    assert_eq!(s.crashed, vec!["c".to_string(), "ghost".to_string()]);
    assert_eq!(s.results.len(), 3);
    assert_eq!(s.routing_topology, "direct");
    assert_eq!(s.agent_inbox_depths, vec![("c".to_string(), 1)]);
    assert_eq!(o.round_count(), 1);
    assert_eq!(o.total_messages_routed(), 1);
    assert_eq!(o.total_messages_dropped(), 1);
}

#[test]
fn round_counts_dlq_and_resets_it() {
    let mut o = orch_with(&["a"]);
    o.configure_router(RouterConfig { topology: Topology::Direct, hub: None, dlq_enabled: true });
    o.route("a", peer("a", "ghost", "1")).unwrap_err();
    let s = o.finish_round(RoundTally::new());
    assert_eq!(s.messages_dlq, 1);
    assert_eq!(s.dlq_depth, 1);
    assert_eq!(o.messages_dlq(), 0);
    assert_eq!(o.total_messages_dlq(), 1);
}

#[test]
fn checkpoint_due_every_n_rounds_with_directory() {
    let mut o = orch_with(&[]);
    o.save_every(2);
    assert!(!o.checkpoint_due());
    o.set_checkpoint_dir("/tmp/ckpt".to_string());
    o.finish_round(RoundTally::new());
    assert!(!o.checkpoint_due());
    o.finish_round(RoundTally::new());
    assert!(o.checkpoint_due());
    assert_eq!(o.save_interval(), Some(2));
    assert_eq!(o.checkpoint_dir(), Some("/tmp/ckpt".to_string()));
}

#[test]
fn zero_interval_never_checkpoints_after_a_round() {
    let mut o = orch_with(&[]);
    o.save_every(0).set_checkpoint_dir("d".to_string());
    o.finish_round(RoundTally::new());
    assert!(!o.checkpoint_due());
}

#[test]
fn hub_and_spoke_round_trip_through_hub() {
    let mut o = orch_with(&["hub", "w1", "w2"]);
    o.configure_router(RouterConfig { topology: Topology::HubAndSpoke, hub: Some("hub".to_string()), dlq_enabled: false });
    assert_eq!(o.route("w1", peer("w1", "w2", "1")), Ok(()));
    assert_eq!(inbox_len(&o, "hub"), 1);
    assert_eq!(inbox_len(&o, "w2"), 0);
    assert_eq!(o.route("hub", peer("hub", "w2", "1")), Ok(()));
    assert_eq!(inbox_len(&o, "w2"), 1);
}

#[test]
fn summary_reports_agents_and_totals() {
    let mut o = orch_with(&["a"]);
    o.finish_tick("a", outcome(TickCall::Returned(0), 10, 4, Vec::new())).unwrap();
    let s = o.summary(&vec![4]);
    assert_eq!(s.version, "cage-snapshot-v1");
    assert_eq!(s.agent_count, 1);
    assert_eq!(s.agents[0].status, "Running");
    assert_eq!(s.agents[0].fuel_consumed, 6);
    assert_eq!(s.agents[0].fuel_remaining, 4);
    assert_eq!(s.total_fuel_consumed, 6);
    assert_eq!(s.topology, "direct");
    assert_eq!(o.total_fuel_consumed(), Some(6));
}

#[test]
fn paused_agent_sits_out_every_round_until_resumed() {
    let mut o = orch_with(&["a", "b", "c"]);
    o.pause("b").unwrap();
    for _ in 0..3 {
        assert_eq!(o.round_agents(), vec!["a".to_string(), "c".to_string()]);
        o.route("a", peer("a", "b", "1")).unwrap();
        o.pause("c").unwrap();
        o.resume("c").unwrap();
        let s = o.finish_round(RoundTally::new());
        assert_eq!(s.results.len(), 0);
        assert_eq!(o.agent_stats("b"), Some((0, 0, AgentStatus::Paused)));
    }
    assert!(matches!(o.begin_tick("b").unwrap(), TickStart::Skipped(_)));
    o.resume("b").unwrap();
    assert_eq!(o.round_agents(), vec!["a".to_string(), "b".to_string(), "c".to_string()]);
}
