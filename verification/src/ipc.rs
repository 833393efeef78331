//! Messages exchanged between the host and agents.
//!
//! A payload is held as the compact JSON text of its value.

use vstd::prelude::*;
use vstd::string::*;
use vstd::utf8::encode_utf8;

use crate::json::{json_quoted, json_string_member, opt_view, quote, string_member};

verus! {

/// A message from the host to an agent.
#[derive(Debug, Clone)]
pub struct HostMessage {
    pub kind: String,
    /// The compact JSON text of the payload.
    pub payload: String,
}

/// A message from an agent: a result it reports, or a peer message.
#[derive(Debug, Clone)]
pub struct AgentMessage {
    pub kind: String,
    /// The compact JSON text of the payload.
    pub payload: String,
}

/// The JSON text of a host message: `{"kind":…,"payload":…}`.
pub open spec fn host_message_json(kind: Seq<char>, payload: Seq<char>) -> Seq<char> {
    "{\"kind\":"@ + json_quoted(kind) + ",\"payload\":"@ + payload + "}"@
}

impl HostMessage {
    pub fn new(kind: String, payload: String) -> (r: Self)
        ensures
            r.kind == kind,
            r.payload == payload,
    {
        HostMessage { kind, payload }
    }

    /// The message as UTF-8 JSON bytes.
    pub fn to_bytes(&self) -> (r: Vec<u8>)
        ensures
            r@ == encode_utf8(host_message_json(self.kind@, self.payload@)),
    {
        let mut text = String::from_str("{\"kind\":");
        let quoted = quote(self.kind.as_str());
        text.append(quoted.as_str());
        text.append(",\"payload\":");
        text.append(self.payload.as_str());
        text.append("}");
        let r = text.as_str().as_bytes_vec();
        assert(text@ =~= host_message_json(self.kind@, self.payload@));
        r
    }
}

impl AgentMessage {
    /// A copy of this message.
    pub fn duplicate(&self) -> (r: Self)
        ensures
            r == *self,
    {
        AgentMessage { kind: self.kind.clone(), payload: self.payload.clone() }
    }

    /// The message as UTF-8 JSON bytes: `{"kind":…,"payload":…}`.
    pub fn to_bytes(&self) -> (r: Vec<u8>)
        ensures
            r@ == encode_utf8(host_message_json(self.kind@, self.payload@)),
    {
        HostMessage { kind: self.kind.clone(), payload: self.payload.clone() }.to_bytes()
    }

    /// Where a peer message is addressed: the string `to` member of its
    /// payload, empty when there is none.
    pub open spec fn destination_spec(&self) -> Seq<char> {
        match json_string_member(self.payload@, "to"@) {
            Some(to) => to,
            None => Seq::empty(),
        }
    }

    /// Where a peer message is addressed (`payload["to"]`, or `""`).
    pub fn destination(&self) -> (r: String)
        ensures
            r@ == self.destination_spec(),
    {
        match string_member(self.payload.as_str(), "to") {
            Some(to) => to,
            None => String::new(),
        }
    }
}

} // verus!
