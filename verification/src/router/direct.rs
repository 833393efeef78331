use vstd::prelude::*;

use super::{contains_id, has_id, ids_of, MessageRouter};

verus! {

/// The targets of a direct message: the agent named by the destination, if any.
pub open spec fn direct_targets(to: Seq<char>, agents: Seq<Seq<char>>) -> Seq<Seq<char>> {
    if has_id(agents, to) {
        seq![to]
    } else {
        Seq::empty()
    }
}

/// Route messages by exact agent ID match.
///
/// This is the default topology: `payload["to"]` must be the exact ID of a
/// registered agent.
#[derive(Debug, Clone, Copy)]
pub struct DirectRouter;

impl MessageRouter for DirectRouter {
    open spec fn resolve_spec(&self, from: Seq<char>, to: Seq<char>, agents: Seq<Seq<char>>) -> Seq<Seq<char>> {
        direct_targets(to, agents)
    }

    open spec fn name_spec(&self) -> Seq<char> {
        "direct"@
    }

    fn resolve(&self, from: &str, to: &str, agents: &Vec<String>) -> (r: Vec<String>) {
        let target = String::from_str(to);
        let mut r: Vec<String> = Vec::new();
        if contains_id(agents, &target) {
            r.push(target);
        }
        assert(ids_of(r@) =~= self.resolve_spec(from@, to@, ids_of(agents@)));
        r
    }

    fn name(&self) -> (r: &'static str) {
        proof {
            reveal_strlit("direct");
        }
        "direct"
    }
}

} // verus!
