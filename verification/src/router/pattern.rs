use vstd::prelude::*;

use super::{ids_of, MessageRouter};

verus! {

#[verifier::external_type_specification]
#[verifier::external_body]
pub struct ExGlobPattern(glob::Pattern);

/// Whether `glob::Pattern::new` accepts `pattern` as a glob.
pub uninterp spec fn glob_valid(pattern: Seq<char>) -> bool;

/// Whether the glob compiled from `pattern` matches `name` under the
/// default match options.
pub uninterp spec fn glob_match(pattern: Seq<char>, name: Seq<char>) -> bool;

/// Whether the glob `pattern` matches an agent ID.
pub open spec fn matched_by(pattern: Seq<char>) -> spec_fn(Seq<char>) -> bool {
    |id: Seq<char>| glob_match(pattern, id)
}

/// The targets of a pattern message: the agents whose ID the destination
/// glob matches, in order; nobody when the destination is not a glob.
pub open spec fn pattern_targets(to: Seq<char>, agents: Seq<Seq<char>>) -> Seq<Seq<char>> {
    if glob_valid(to) {
        agents.filter(matched_by(to))
    } else {
        Seq::empty()
    }
}

/// A compiled glob together with the text it was compiled from.
pub struct GlobPattern {
    source: String,
    compiled: glob::Pattern,
}

impl GlobPattern {
    /// The text this glob was compiled from.
    pub closed spec fn source(&self) -> Seq<char> {
        self.source@
    }
}

/// Calls `glob::Pattern::new`: it yields a pattern exactly when the text is
/// a valid glob, and the pattern it yields is the one compiled from `text`.
#[verifier::external_body]
fn compile_glob(text: &str) -> (r: Option<GlobPattern>)
    ensures
        r.is_some() == glob_valid(text@),
        r matches Some(p) ==> p.source() == text@,
{
    match glob::Pattern::new(text) {
        Ok(p) => Some(GlobPattern { source: text.to_string(), compiled: p }),
        Err(_) => None,
    }
}

/// Calls `glob::Pattern::matches`: whether the compiled glob matches `name`.
#[verifier::external_body]
fn glob_matches(p: &GlobPattern, name: &str) -> (b: bool)
    ensures
        b == glob_match(p.source(), name@),
{
    p.compiled.matches(name)
}

/// Match agent IDs by glob/wildcard pattern.
///
/// An agent sending to `"worker-*"` in a round with agents
/// `["leader", "worker-a", "worker-b", "other"]` reaches `worker-a` and
/// `worker-b`.  A destination that is not a valid glob reaches nobody.
#[derive(Debug, Clone, Copy)]
pub struct PatternRouter;

impl MessageRouter for PatternRouter {
    open spec fn resolve_spec(&self, from: Seq<char>, to: Seq<char>, agents: Seq<Seq<char>>) -> Seq<Seq<char>> {
        pattern_targets(to, agents)
    }

    open spec fn name_spec(&self) -> Seq<char> {
        "pattern"@
    }

    fn resolve(&self, from: &str, to: &str, agents: &Vec<String>) -> (r: Vec<String>) {
        let pattern = match compile_glob(to) {
            Some(p) => p,
            None => {
                let r: Vec<String> = Vec::new();
                assert(ids_of(r@) =~= Seq::<Seq<char>>::empty());
                return r;
            }
        };
        let ghost keep = matched_by(to@);
        let mut r: Vec<String> = Vec::new();
        let mut i: usize = 0;
        while i < agents.len()
            invariant
                i <= agents.len(),
                pattern.source() == to@,
                keep == matched_by(to@),
                ids_of(r@) == ids_of(agents@.take(i as int)).filter(keep),
            decreases agents.len() - i,
        {
            proof {
                assert(agents@.take(i + 1) =~= agents@.take(i as int).push(agents@[i as int]));
                assert(ids_of(agents@.take(i + 1)) =~= ids_of(agents@.take(i as int)).push(agents@[i as int]@));
                ids_of(agents@.take(i as int)).lemma_filter_push(agents@[i as int]@, keep);
            }
            if glob_matches(&pattern, agents[i].as_str()) {
                r.push(agents[i].clone());
                assert(ids_of(r@) =~= ids_of(agents@.take(i as int)).filter(keep).push(agents@[i as int]@));
            }
            i += 1;
        }
        assert(agents@.take(agents@.len() as int) =~= agents@);
        r
    }

    fn name(&self) -> (r: &'static str) {
        proof {
            reveal_strlit("pattern");
        }
        "pattern"
    }
}

} // verus!
