//! The client socket wire format: request lines sent to a replica, and the routing
//! of the self-report envelopes a replica sends back.
use crate::messages::{APIResponse, CDMessage, IOMessage, KVCommand, UIMessage};
use vstd::prelude::*;
use vstd::string::StringExecFns;

verus! {

/// The JSON string literal of `s`: quoted, with JSON escapes.
pub uninterp spec fn json_string_of(s: Seq<char>) -> Seq<char>;

/// Relies on `serde_json::to_string` on a `str`: the JSON string literal of `s`.
/// Serialising a `str` into serde_json's in-memory buffer cannot fail.
#[verifier::external_body]
fn json_string(s: &str) -> (r: String)
    ensures
        r@ == json_string_of(s@),
{
    serde_json::to_string(s).unwrap_or_default()
}

/// The line that carries `cmd` to a replica:
/// `{"APIRequest":<command>}` and a newline, with the command externally tagged.
pub open spec fn request_line(cmd: KVCommand) -> Seq<char> {
    match cmd {
        KVCommand::Put(kv) => "{\"APIRequest\":{\"Put\":{\"key\":"@ + json_string_of(kv.key@)
            + ",\"value\":"@ + json_string_of(kv.value@) + "}}}\n"@,
        KVCommand::Delete(key) => "{\"APIRequest\":{\"Delete\":"@ + json_string_of(key@)
            + "}}\n"@,
        KVCommand::Get(key) => "{\"APIRequest\":{\"Get\":"@ + json_string_of(key@) + "}}\n"@,
    }
}

/// Encodes `cmd` as one request line for a replica's client socket.
pub fn encode_request(cmd: &KVCommand) -> (r: String)
    ensures
        r@ == request_line(*cmd),
{
    match cmd {
        KVCommand::Put(kv) => {
            let mut s = String::from_str("{\"APIRequest\":{\"Put\":{\"key\":");
            s.append(json_string(kv.key.as_str()).as_str());
            s.append(",\"value\":");
            s.append(json_string(kv.value.as_str()).as_str());
            s.append("}}}\n");
            s
        },
        KVCommand::Delete(key) => {
            let mut s = String::from_str("{\"APIRequest\":{\"Delete\":");
            s.append(json_string(key.as_str()).as_str());
            s.append("}}\n");
            s
        },
        KVCommand::Get(key) => {
            let mut s = String::from_str("{\"APIRequest\":{\"Get\":");
            s.append(json_string(key.as_str()).as_str());
            s.append("}}\n");
            s
        },
    }
}

/// Where a replica's self-report goes: round and liveness reports become control
/// events tagged with the reporting node, the rest goes to the UI.
pub open spec fn response_route(pid: u64, resp: APIResponse) -> IOMessage {
    match resp {
        APIResponse::NewRound(r) => IOMessage::CDMessage(CDMessage::NewRound(pid, r)),
        APIResponse::Happiness(h) => IOMessage::CDMessage(CDMessage::Happiness(pid, h)),
        _ => IOMessage::UIMessage(UIMessage::OmnipaxosResponse(resp)),
    }
}

/// Turns an envelope received on the client socket of node `pid` into the
/// event it stands for.
pub fn response_event(pid: u64, resp: APIResponse) -> (r: IOMessage)
    ensures
        r == response_route(pid, resp),
{
    match resp {
        APIResponse::NewRound(round) => IOMessage::CDMessage(CDMessage::NewRound(pid, round)),
        APIResponse::Happiness(h) => IOMessage::CDMessage(CDMessage::Happiness(pid, h)),
        other => IOMessage::UIMessage(UIMessage::OmnipaxosResponse(other)),
    }
}

} // verus!
