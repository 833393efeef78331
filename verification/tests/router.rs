use coplex_cage::router::{
    BroadcastRouter, DirectRouter, HubAndSpokeRouter, MessageRouter, PatternRouter, RouterConfig, Topology,
};

fn ids(names: &[&str]) -> Vec<String> {
    names.iter().map(|s| s.to_string()).collect()
}

#[test]
fn direct_routes_to_the_named_agent() {
    let agents = ids(&["leader", "worker-a"]);
    assert_eq!(DirectRouter.resolve("leader", "worker-a", &agents), ids(&["worker-a"]));
}

#[test]
fn direct_unknown_target_is_unroutable() {
    let agents = ids(&["leader", "worker-a"]);
    assert!(DirectRouter.resolve("leader", "worker-z", &agents).is_empty());
}

#[test]
fn broadcast_reaches_everyone_but_the_sender() {
    let agents = ids(&["leader", "worker-a", "worker-b"]);
    assert_eq!(BroadcastRouter.resolve("leader", "@all", &agents), ids(&["worker-a", "worker-b"]));
    assert_eq!(BroadcastRouter.resolve("worker-a", "ignored", &agents), ids(&["leader", "worker-b"]));
}

#[test]
fn broadcast_with_only_the_sender_is_unroutable() {
    let agents = ids(&["solo"]);
    assert!(BroadcastRouter.resolve("solo", "@all", &agents).is_empty());
}

#[test]
fn pattern_matches_worker_glob() {
    let agents = ids(&["leader", "worker-a", "worker-b", "other"]);
    assert_eq!(PatternRouter.resolve("leader", "worker-*", &agents), ids(&["worker-a", "worker-b"]));
}

#[test]
fn pattern_question_mark_and_class() {
    let agents = ids(&["cat", "cut", "coat"]);
    assert_eq!(PatternRouter.resolve("x", "c?t", &agents), ids(&["cat", "cut"]));
    assert_eq!(PatternRouter.resolve("x", "c[a]t", &agents), ids(&["cat"]));
}

#[test]
fn pattern_invalid_glob_is_unroutable() {
    let agents = ids(&["a", "b"]);
    assert!(PatternRouter.resolve("x", "[abc", &agents).is_empty());
    assert!(PatternRouter.resolve("x", "***", &agents).is_empty());
}

#[test]
fn hub_and_spoke_spokes_reach_the_hub() {
    let router = HubAndSpokeRouter { hub: "hub".to_string() };
    let agents = ids(&["hub", "worker-a", "worker-b"]);
    assert_eq!(router.resolve("worker-a", "worker-b", &agents), ids(&["hub"]));
}

#[test]
fn hub_and_spoke_hub_forwards_to_target() {
    let router = HubAndSpokeRouter { hub: "hub".to_string() };
    let agents = ids(&["hub", "worker-a", "worker-b"]);
    assert_eq!(router.resolve("hub", "worker-b", &agents), ids(&["worker-b"]));
    assert!(router.resolve("hub", "nobody", &agents).is_empty());
}

#[test]
fn hub_and_spoke_without_registered_hub_is_unroutable() {
    let router = HubAndSpokeRouter { hub: "hub".to_string() };
    let agents = ids(&["worker-a", "worker-b"]);
    assert!(router.resolve("worker-a", "worker-b", &agents).is_empty());
}

#[test]
fn router_names() {
    assert_eq!(DirectRouter.name(), "direct");
    assert_eq!(BroadcastRouter.name(), "broadcast");
    assert_eq!(PatternRouter.name(), "pattern");
    assert_eq!(HubAndSpokeRouter { hub: "h".to_string() }.name(), "hub-and-spoke");
}

#[test]
fn topology_names_read_back() {
    for t in [Topology::Direct, Topology::Broadcast, Topology::Pattern, Topology::HubAndSpoke] {
        assert_eq!(Topology::parse(t.as_str()), Some(t));
    }
    assert_eq!(Topology::HubAndSpoke.as_str(), "hub-and-spoke");
    assert_eq!(Topology::parse("star"), None);
    assert_eq!(Topology::parse("Direct"), None);
}

#[test]
fn built_router_matches_topology() {
    assert_eq!(Topology::Direct.build_router(None).name(), "direct");
    assert_eq!(Topology::Broadcast.build_router(None).name(), "broadcast");
    assert_eq!(Topology::Pattern.build_router(None).name(), "pattern");
    let hub = Topology::HubAndSpoke.build_router(Some("hub".to_string()));
    assert_eq!(hub.name(), "hub-and-spoke");
    let agents = ids(&["hub", "w"]);
    assert_eq!(hub.resolve("w", "x", &agents), ids(&["hub"]));
}

#[test]
fn router_config_default_is_direct_without_dlq() {
    let c = RouterConfig::default();
    assert_eq!(c.topology, Topology::Direct);
    assert_eq!(c.hub, None);
    assert!(!c.dlq_enabled);
}
