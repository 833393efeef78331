use vstd::prelude::*;

use super::{ids_of, MessageRouter};

verus! {

/// Whether an agent is not the sender.
pub open spec fn not_sender(from: Seq<char>) -> spec_fn(Seq<char>) -> bool {
    |id: Seq<char>| id != from
}

/// The targets of a broadcast: every agent but the sender, in order.
pub open spec fn broadcast_targets(from: Seq<char>, agents: Seq<Seq<char>>) -> Seq<Seq<char>> {
    agents.filter(not_sender(from))
}

/// Deliver every message to all agents except the sender.
///
/// The destination string is ignored: the topology is the sole routing
/// criterion, so an agent can send to `"@all"` and every other agent
/// receives the message.
#[derive(Debug, Clone, Copy)]
pub struct BroadcastRouter;

impl MessageRouter for BroadcastRouter {
    open spec fn resolve_spec(&self, from: Seq<char>, to: Seq<char>, agents: Seq<Seq<char>>) -> Seq<Seq<char>> {
        broadcast_targets(from, agents)
    }

    open spec fn name_spec(&self) -> Seq<char> {
        "broadcast"@
    }

    fn resolve(&self, from: &str, to: &str, agents: &Vec<String>) -> (r: Vec<String>) {
        let sender = String::from_str(from);
        let ghost keep = not_sender(from@);
        let mut r: Vec<String> = Vec::new();
        let mut i: usize = 0;
        while i < agents.len()
            invariant
                i <= agents.len(),
                sender@ == from@,
                keep == not_sender(from@),
                ids_of(r@) == ids_of(agents@.take(i as int)).filter(keep),
            decreases agents.len() - i,
        {
            proof {
                assert(agents@.take(i + 1) =~= agents@.take(i as int).push(agents@[i as int]));
                assert(ids_of(agents@.take(i + 1)) =~= ids_of(agents@.take(i as int)).push(agents@[i as int]@));
                ids_of(agents@.take(i as int)).lemma_filter_push(agents@[i as int]@, keep);
            }
            if agents[i] != sender {
                r.push(agents[i].clone());
                assert(ids_of(r@) =~= ids_of(agents@.take(i as int)).filter(keep).push(agents@[i as int]@));
            }
            i += 1;
        }
        assert(agents@.take(agents@.len() as int) =~= agents@);
        r
    }

    fn name(&self) -> (r: &'static str) {
        proof {
            reveal_strlit("broadcast");
        }
        "broadcast"
    }
}

} // verus!
