//! Pluggable routing strategies for inter-agent messages.

use vstd::prelude::*;
use vstd::seq_lib::group_filter_ensures;

mod broadcast;
mod direct;
mod hub_and_spoke;
mod pattern;

pub use broadcast::{broadcast_targets, not_sender, BroadcastRouter};
pub use direct::{direct_targets, DirectRouter};
pub use hub_and_spoke::{hub_targets, HubAndSpokeRouter};
pub use pattern::{glob_match, glob_valid, matched_by, pattern_targets, PatternRouter};

verus! {

/// The identifiers of a list of agents, as sequences of characters.
pub open spec fn ids_of(agents: Seq<String>) -> Seq<Seq<char>> {
    agents.map_values(|a: String| a@)
}

/// Whether `id` names one of `agents`.
pub open spec fn has_id(agents: Seq<Seq<char>>, id: Seq<char>) -> bool {
    agents.contains(id)
}

/// No identifier occurs twice.
pub open spec fn distinct_ids(ids: Seq<Seq<char>>) -> bool {
    forall|i: int, j: int| 0 <= i < ids.len() && 0 <= j < ids.len() && i != j ==> ids[i] != ids[j]
}

/// Keeping some of a list of distinct identifiers keeps them distinct, and
/// keeps only identifiers of the list.
pub proof fn lemma_filter_distinct(s: Seq<Seq<char>>, p: spec_fn(Seq<char>) -> bool)
    requires
        distinct_ids(s),
    ensures
        distinct_ids(s.filter(p)),
        forall|x: Seq<char>| s.filter(p).contains(x) ==> s.contains(x),
    decreases s.len(),
{
    assert forall|x: Seq<char>| s.filter(p).contains(x) implies s.contains(x) by {
        s.lemma_filter_contains_rev(p, x);
    }
    if s.len() > 0 {
        let rest = s.drop_last();
        let last = s.last();
        assert(distinct_ids(rest)) by {
            assert forall|i: int, j: int| 0 <= i < rest.len() && 0 <= j < rest.len() && i != j implies rest[i] != rest[j] by {
                assert(rest[i] == s[i] && rest[j] == s[j]);
            }
        }
        lemma_filter_distinct(rest, p);
        let f = rest.filter(p);
        assert(s.filter(p) == if p(last) { f.push(last) } else { f }) by {
            reveal(Seq::filter);
        }
        assert(!rest.contains(last)) by {
            if rest.contains(last) {
                let k = choose|k: int| 0 <= k < rest.len() && rest[k] == last;
                assert(s[k] == s[s.len() - 1]);
            }
        }
        if p(last) {
            let g = f.push(last);
            assert forall|i: int, j: int| 0 <= i < g.len() && 0 <= j < g.len() && i != j implies g[i] != g[j] by {
                if i == f.len() && j < f.len() {
                    assert(g[j] == f[j]);
                    assert(f.contains(f[j]));
                } else if j == f.len() && i < f.len() {
                    assert(g[i] == f[i]);
                    assert(f.contains(f[i]));
                } else {
                    assert(g[i] == f[i] && g[j] == f[j]);
                }
            }
        }
    }
}

/// Whatever the topology, a message reaches only known agents, and
/// reaches each of them at most once when agent IDs are distinct.
pub proof fn lemma_targets_known(
    topology: Topology,
    hub: Option<Seq<char>>,
    from: Seq<char>,
    to: Seq<char>,
    agents: Seq<Seq<char>>,
)
    requires
        topology == Topology::HubAndSpoke ==> hub is Some,
    ensures
        forall|x: Seq<char>| targets_for(topology, hub, from, to, agents).contains(x) ==> agents.contains(x),
        distinct_ids(agents) ==> distinct_ids(targets_for(topology, hub, from, to, agents)),
{
    let t = targets_for(topology, hub, from, to, agents);
    match topology {
        Topology::Broadcast => {
            let p = not_sender(from);
            assert forall|x: Seq<char>| t.contains(x) implies agents.contains(x) by {
                agents.lemma_filter_contains_rev(p, x);
            }
            if distinct_ids(agents) {
                lemma_filter_distinct(agents, p);
            }
        },
        Topology::Pattern => {
            if glob_valid(to) {
                let p = matched_by(to);
                assert forall|x: Seq<char>| t.contains(x) implies agents.contains(x) by {
                    agents.lemma_filter_contains_rev(p, x);
                }
                if distinct_ids(agents) {
                    lemma_filter_distinct(agents, p);
                }
            }
        },
        _ => {
            assert forall|x: Seq<char>| t.contains(x) implies agents.contains(x) by {
                if t.contains(x) {
                    assert(t.len() == 1);
                    assert(t[0] == x);
                }
            }
        },
    }
}

/// Law: the name of a topology reads back as that topology.
pub proof fn law_topology_name_round_trip(t: Topology)
    ensures
        Topology::named(t.name_spec()) == Some(t),
{
    reveal_strlit("direct");
    reveal_strlit("broadcast");
    reveal_strlit("pattern");
    reveal_strlit("hub-and-spoke");
    assert("broadcast"@.len() != "direct"@.len());
    assert("pattern"@.len() != "direct"@.len());
    assert("pattern"@.len() != "broadcast"@.len());
    assert("hub-and-spoke"@.len() != "direct"@.len());
    assert("hub-and-spoke"@.len() != "broadcast"@.len());
    assert("hub-and-spoke"@.len() != "pattern"@.len());
}

/// Law: a broadcast never reaches its sender and reaches every other agent.
pub proof fn law_broadcast_all_but_sender(from: Seq<char>, agents: Seq<Seq<char>>)
    ensures
        !broadcast_targets(from, agents).contains(from),
        forall|x: Seq<char>| agents.contains(x) && x != from ==> #[trigger] broadcast_targets(from, agents).contains(x),
{
    broadcast use group_filter_ensures;
    let t = broadcast_targets(from, agents);
    if t.contains(from) {
        let k = choose|k: int| 0 <= k < t.len() && t[k] == from;
        assert(not_sender(from)(t[k]));
    }
    assert forall|x: Seq<char>| agents.contains(x) && x != from implies #[trigger] t.contains(x) by {
        let k = choose|k: int| 0 <= k < agents.len() && agents[k] == x;
        agents.lemma_filter_contains(not_sender(from), k);
    }
}

/// Law: under hub-and-spoke routing a message from a spoke reaches the hub
/// and nobody else.
pub proof fn law_spokes_reach_only_hub(hub: Seq<char>, from: Seq<char>, to: Seq<char>, agents: Seq<Seq<char>>)
    requires
        from != hub,
    ensures
        forall|x: Seq<char>| #[trigger] hub_targets(hub, from, to, agents).contains(x) ==> x == hub,
        agents.contains(hub) ==> hub_targets(hub, from, to, agents) == seq![hub],
{
    let t = hub_targets(hub, from, to, agents);
    assert forall|x: Seq<char>| #[trigger] t.contains(x) implies x == hub by {
        let k = choose|k: int| 0 <= k < t.len() && t[k] == x;
    }
}

/// Whether `id` is one of `agents`.
pub fn contains_id(agents: &Vec<String>, id: &String) -> (b: bool)
    ensures
        b == has_id(ids_of(agents@), id@),
{
    let mut i: usize = 0;
    while i < agents.len()
        invariant
            i <= agents.len(),
            forall|j: int| 0 <= j < i ==> agents@[j]@ != id@,
        decreases agents.len() - i,
    {
        if agents[i] == *id {
            assert(ids_of(agents@)[i as int] == id@);
            return true;
        }
        i += 1;
    }
    assert(!ids_of(agents@).contains(id@)) by {
        if ids_of(agents@).contains(id@) {
            let k = choose|k: int| 0 <= k < ids_of(agents@).len() && ids_of(agents@)[k] == id@;
            assert(agents@[k]@ == id@);
        }
    }
    false
}

/// Enum of supported routing topologies.
#[derive(Debug, Clone, Copy, PartialEq, Eq, Structural)]
pub enum Topology {
    /// Route by exact agent ID match (`payload["to"]` names one agent).
    Direct,
    /// Deliver to every agent except the sender.
    Broadcast,
    /// Match agent IDs by glob/wildcard pattern.
    Pattern,
    /// All non-hub traffic routes to the hub; the hub forwards to targets.
    HubAndSpoke,
}

impl Topology {
    /// The stable name of a topology.
    pub open spec fn name_spec(self) -> Seq<char> {
        match self {
            Topology::Direct => "direct"@,
            Topology::Broadcast => "broadcast"@,
            Topology::Pattern => "pattern"@,
            Topology::HubAndSpoke => "hub-and-spoke"@,
        }
    }

    /// The router that `build_router` gives for this topology and hub.
    pub open spec fn router_for(self, hub: Option<String>) -> Router {
        match self {
            Topology::Direct => Router::Direct(DirectRouter),
            Topology::Broadcast => Router::Broadcast(BroadcastRouter),
            Topology::Pattern => Router::Pattern(PatternRouter),
            Topology::HubAndSpoke => Router::HubAndSpoke(HubAndSpokeRouter { hub: hub.unwrap() }),
        }
    }

    /// Build the router for this topology.  A hub-and-spoke router needs a hub.
    pub fn build_router(&self, hub: Option<String>) -> (r: Router)
        requires
            *self == Topology::HubAndSpoke ==> hub.is_some(),
        ensures
            r == self.router_for(hub),
    {
        match self {
            Topology::Direct => Router::Direct(DirectRouter),
            Topology::Broadcast => Router::Broadcast(BroadcastRouter),
            Topology::Pattern => Router::Pattern(PatternRouter),
            Topology::HubAndSpoke => Router::HubAndSpoke(HubAndSpokeRouter { hub: hub.unwrap() }),
        }
    }

    /// The topology a name stands for.
    pub open spec fn named(name: Seq<char>) -> Option<Topology> {
        if name == "direct"@ {
            Some(Topology::Direct)
        } else if name == "broadcast"@ {
            Some(Topology::Broadcast)
        } else if name == "pattern"@ {
            Some(Topology::Pattern)
        } else if name == "hub-and-spoke"@ {
            Some(Topology::HubAndSpoke)
        } else {
            None
        }
    }

    /// The topology named `name` (`direct`, `broadcast`, `pattern` or
    /// `hub-and-spoke`).
    pub fn parse(name: &str) -> (r: Option<Topology>)
        ensures
            r == Topology::named(name@),
    {
        if crate::text::same_text(name, "direct") {
            Some(Topology::Direct)
        } else if crate::text::same_text(name, "broadcast") {
            Some(Topology::Broadcast)
        } else if crate::text::same_text(name, "pattern") {
            Some(Topology::Pattern)
        } else if crate::text::same_text(name, "hub-and-spoke") {
            Some(Topology::HubAndSpoke)
        } else {
            None
        }
    }

    /// Return a stable string name (used by the command line and round summaries).
    pub fn as_str(&self) -> (r: &'static str)
        ensures
            r@ == self.name_spec(),
    {
        proof {
            reveal_strlit("direct");
            reveal_strlit("broadcast");
            reveal_strlit("pattern");
            reveal_strlit("hub-and-spoke");
        }
        match self {
            Topology::Direct => "direct",
            Topology::Broadcast => "broadcast",
            Topology::Pattern => "pattern",
            Topology::HubAndSpoke => "hub-and-spoke",
        }
    }
}

/// The targets of a message from `from` to `to` among `agents` under a
/// topology (and, for hub-and-spoke, its hub).
pub open spec fn targets_for(
    topology: Topology,
    hub: Option<Seq<char>>,
    from: Seq<char>,
    to: Seq<char>,
    agents: Seq<Seq<char>>,
) -> Seq<Seq<char>> {
    match topology {
        Topology::Direct => direct_targets(to, agents),
        Topology::Broadcast => broadcast_targets(from, agents),
        Topology::Pattern => pattern_targets(to, agents),
        Topology::HubAndSpoke => hub_targets(hub.unwrap(), from, to, agents),
    }
}

/// Configuration for the message router.
#[derive(Debug, Clone)]
pub struct RouterConfig {
    /// Which topology to use.
    pub topology: Topology,
    /// Hub agent ID (required for HubAndSpoke, ignored otherwise).
    pub hub: Option<String>,
    /// When `true`, unroutable messages go to a Dead Letter Queue instead
    /// of being silently dropped.
    pub dlq_enabled: bool,
}

impl RouterConfig {
    /// Whether the router that this configuration names can be built.
    pub open spec fn buildable(&self) -> bool {
        self.topology == Topology::HubAndSpoke ==> self.hub.is_some()
    }

    /// A field-by-field copy of this configuration.
    pub fn duplicate(&self) -> (r: RouterConfig)
        ensures
            r == *self,
    {
        let hub = match &self.hub {
            Some(h) => Some(h.clone()),
            None => None,
        };
        RouterConfig { topology: self.topology, hub, dlq_enabled: self.dlq_enabled }
    }
}

impl Default for RouterConfig {
    fn default() -> (r: Self)
        ensures
            r.topology == Topology::Direct,
            r.hub.is_none(),
            !r.dlq_enabled,
    {
        RouterConfig { topology: Topology::Direct, hub: None, dlq_enabled: false }
    }
}

/// A pluggable routing strategy that resolves a destination string to a
/// list of target agent IDs.
pub trait MessageRouter {
    /// The targets that `resolve` gives for a sender, a destination string
    /// and the identifiers of all known agents.
    spec fn resolve_spec(&self, from: Seq<char>, to: Seq<char>, agents: Seq<Seq<char>>) -> Seq<Seq<char>>;

    /// The name that `name` gives.
    spec fn name_spec(&self) -> Seq<char>;

    /// Given the sender, the destination string from `payload["to"]`, and
    /// all known agent IDs, return the agents that should receive the
    /// message.  An empty result signals that the message is unroutable.
    fn resolve(&self, from: &str, to: &str, agents: &Vec<String>) -> (r: Vec<String>)
        ensures
            ids_of(r@) == self.resolve_spec(from@, to@, ids_of(agents@)),
    ;

    /// Human-readable name of this router (e.g. `"direct"`, `"broadcast"`).
    fn name(&self) -> (r: &'static str)
        ensures
            r@ == self.name_spec(),
    ;
}

/// One of the four routers, as built from a `Topology`.
#[derive(Debug, Clone)]
pub enum Router {
    Direct(DirectRouter),
    Broadcast(BroadcastRouter),
    Pattern(PatternRouter),
    HubAndSpoke(HubAndSpokeRouter),
}

impl Router {
    /// The topology this router implements.
    pub open spec fn topology(self) -> Topology {
        match self {
            Router::Direct(_) => Topology::Direct,
            Router::Broadcast(_) => Topology::Broadcast,
            Router::Pattern(_) => Topology::Pattern,
            Router::HubAndSpoke(_) => Topology::HubAndSpoke,
        }
    }
}

impl MessageRouter for Router {
    open spec fn resolve_spec(&self, from: Seq<char>, to: Seq<char>, agents: Seq<Seq<char>>) -> Seq<Seq<char>> {
        match self {
            Router::Direct(r) => r.resolve_spec(from, to, agents),
            Router::Broadcast(r) => r.resolve_spec(from, to, agents),
            Router::Pattern(r) => r.resolve_spec(from, to, agents),
            Router::HubAndSpoke(r) => r.resolve_spec(from, to, agents),
        }
    }

    open spec fn name_spec(&self) -> Seq<char> {
        self.topology().name_spec()
    }

    fn resolve(&self, from: &str, to: &str, agents: &Vec<String>) -> (r: Vec<String>) {
        match self {
            Router::Direct(r) => r.resolve(from, to, agents),
            Router::Broadcast(r) => r.resolve(from, to, agents),
            Router::Pattern(r) => r.resolve(from, to, agents),
            Router::HubAndSpoke(r) => r.resolve(from, to, agents),
        }
    }

    fn name(&self) -> (r: &'static str) {
        match self {
            Router::Direct(r) => r.name(),
            Router::Broadcast(r) => r.name(),
            Router::Pattern(r) => r.name(),
            Router::HubAndSpoke(r) => r.name(),
        }
    }
}

} // verus!
