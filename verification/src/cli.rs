//! How the command line's arguments are read.

use vstd::prelude::*;

use crate::orchestrator::pairs_view;
use crate::sandbox::env_set;
use crate::text::{split_once, split_once_spec};

verus! {

/// A `KEY=VALUE` argument: the text before the first `=` and the text
/// after it; `None` when there is no `=`.
pub fn parse_env_pair(pair: &str) -> (r: Option<(String, String)>)
    ensures
        match r {
            Some(p) => split_once_spec(pair@, '=') == Some((p.0@, p.1@)),
            None => split_once_spec(pair@, '=') is None,
        },
{
    split_once(pair, '=')
}

/// The environment that a list of `KEY=VALUE` arguments give, malformed
/// ones skipped and later keys overriding earlier ones.
pub open spec fn env_from_args(pairs: Seq<Seq<char>>) -> Seq<(Seq<char>, Seq<char>)>
    decreases pairs.len(),
{
    if pairs.len() == 0 {
        Seq::empty()
    } else {
        let env = env_from_args(pairs.drop_last());
        match split_once_spec(pairs.last(), '=') {
            Some(p) => env_set(env, p.0, p.1),
            None => env,
        }
    }
}

/// The environment given by `KEY=VALUE` arguments.
pub fn env_from_pairs(pairs: &Vec<String>) -> (r: Vec<(String, String)>)
    ensures
        pairs_view(r@) == env_from_args(crate::router::ids_of(pairs@)),
{
    let mut sandbox = crate::sandbox::Sandbox::new();
    let mut i: usize = 0;
    let ghost ids = crate::router::ids_of(pairs@);
    assert(ids.take(0) =~= Seq::<Seq<char>>::empty());
    while i < pairs.len()
        invariant
            sandbox.wf(),
            i <= pairs.len(),
            ids == crate::router::ids_of(pairs@),
            sandbox@.env == env_from_args(ids.take(i as int)),
        decreases pairs.len() - i,
    {
        proof {
            assert(ids.take(i + 1).drop_last() =~= ids.take(i as int));
            assert(ids.take(i + 1).last() == pairs@[i as int]@);
        }
        match parse_env_pair(pairs[i].as_str()) {
            Some((k, v)) => sandbox.set_env(k, v),
            None => {},
        }
        i += 1;
    }
    assert(ids.take(pairs.len() as int) =~= ids);
    crate::orchestrator::copy_pairs(sandbox.env())
}

/// An `ID=PATH` agent argument: the text before the first `=` and the text
/// after it, or the whole argument as both when there is no `=`.
pub fn parse_agent_spec(spec: &str) -> (r: (String, String))
    ensures
        match split_once_spec(spec@, '=') {
            Some(p) => r.0@ == p.0 && r.1@ == p.1,
            None => r.0@ == spec@ && r.1@ == spec@,
        },
{
    match split_once(spec, '=') {
        Some(p) => p,
        None => (String::from_str(spec), String::from_str(spec)),
    }
}

} // verus!
