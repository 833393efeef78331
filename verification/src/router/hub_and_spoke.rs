use vstd::prelude::*;

use super::{contains_id, has_id, ids_of, MessageRouter};

verus! {

/// The targets of a message under hub-and-spoke routing with hub `hub`:
/// the hub forwards to the named agent; anyone else reaches the hub.
pub open spec fn hub_targets(hub: Seq<char>, from: Seq<char>, to: Seq<char>, agents: Seq<Seq<char>>) -> Seq<Seq<char>> {
    if from == hub {
        if has_id(agents, to) {
            seq![to]
        } else {
            Seq::empty()
        }
    } else {
        if has_id(agents, hub) {
            seq![hub]
        } else {
            Seq::empty()
        }
    }
}

/// All traffic from non-hub agents routes through the designated hub.
///
/// * If the sender **is** the hub, the message goes directly to the target
///   (the hub is forwarding a message).
/// * If the sender is **not** the hub, the message goes to the hub, which
///   may then forward it.
#[derive(Debug, Clone)]
pub struct HubAndSpokeRouter {
    /// Agent ID of the hub.
    pub hub: String,
}

impl MessageRouter for HubAndSpokeRouter {
    open spec fn resolve_spec(&self, from: Seq<char>, to: Seq<char>, agents: Seq<Seq<char>>) -> Seq<Seq<char>> {
        hub_targets(self.hub@, from, to, agents)
    }

    open spec fn name_spec(&self) -> Seq<char> {
        "hub-and-spoke"@
    }

    fn resolve(&self, from: &str, to: &str, agents: &Vec<String>) -> (r: Vec<String>) {
        let sender = String::from_str(from);
        let mut r: Vec<String> = Vec::new();
        if sender == self.hub {
            let target = String::from_str(to);
            if contains_id(agents, &target) {
                r.push(target);
            }
        } else {
            if contains_id(agents, &self.hub) {
                r.push(self.hub.clone());
            }
        }
        assert(ids_of(r@) =~= self.resolve_spec(from@, to@, ids_of(agents@)));
        r
    }

    fn name(&self) -> (r: &'static str) {
        proof {
            reveal_strlit("hub-and-spoke");
        }
        "hub-and-spoke"
    }
}

} // verus!
