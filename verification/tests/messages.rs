use coplex_cage::ipc::{AgentMessage, HostMessage};

#[test]
fn host_message_bytes_are_its_json() {
    let m = HostMessage::new("init".to_string(), "{\"role\":\"leader\"}".to_string());
    assert_eq!(m.to_bytes(), b"{\"kind\":\"init\",\"payload\":{\"role\":\"leader\"}}".to_vec());
}

#[test]
fn host_message_kind_is_escaped() {
    let m = HostMessage::new("a\"b\n".to_string(), "null".to_string());
    assert_eq!(String::from_utf8(m.to_bytes()).unwrap(), "{\"kind\":\"a\\\"b\\n\",\"payload\":null}");
}

#[test]
fn host_message_bytes_match_serde() {
    let m = HostMessage::new("tick".to_string(), "[1,2,{\"x\":true}]".to_string());
    let v: serde_json::Value = serde_json::from_slice(&m.to_bytes()).unwrap();
    assert_eq!(v["kind"], "tick");
    assert_eq!(v["payload"][2]["x"], true);
}

#[test]
fn destination_reads_the_to_member() {
    let m = AgentMessage { kind: "peer".to_string(), payload: "{\"from\":\"a\",\"payload\":1,\"to\":\"b\"}".to_string() };
    assert_eq!(m.destination(), "b");
}

#[test]
fn destination_is_empty_without_string_to() {
    let none = AgentMessage { kind: "peer".to_string(), payload: "{\"from\":\"a\"}".to_string() };
    assert_eq!(none.destination(), "");
    let number = AgentMessage { kind: "peer".to_string(), payload: "{\"to\":5}".to_string() };
    assert_eq!(number.destination(), "");
    let not_object = AgentMessage { kind: "peer".to_string(), payload: "[\"to\"]".to_string() };
    assert_eq!(not_object.destination(), "");
}

#[test]
fn duplicate_is_equal() {
    let m = AgentMessage { kind: "k".to_string(), payload: "{}".to_string() };
    let d = m.duplicate();
    assert_eq!(d.kind, m.kind);
    assert_eq!(d.payload, m.payload);
}

#[test]
fn agent_message_bytes_are_its_json() {
    let m = AgentMessage { kind: "peer".to_string(), payload: "{\"to\":\"b\"}".to_string() };
    assert_eq!(m.to_bytes(), b"{\"kind\":\"peer\",\"payload\":{\"to\":\"b\"}}".to_vec());
}
