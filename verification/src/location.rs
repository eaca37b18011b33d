//! The host location module: the commands sent to the host's location gateway.

use vstd::prelude::*;
use crate::json_doc::{
    doc_bool_at, doc_string_at, json_bool_at, json_error, json_string_at, one_key, JsonDoc, StepView,
};
use crate::text::{decimal, push_decimal, push_str_chars, str_chars, string_of};

verus! {

/// The host side of the location module: it answers a JSON request with a
/// JSON response, or fails with a message.
pub trait LocationGateway {
    /// Whether `reply` (a response, or an error message) is one the gateway
    /// may give for `request`. A host service may answer as it likes, so by
    /// default every reply is possible; an implementation may say more.
    open spec fn answers(&self, request: Seq<char>, reply: Result<Seq<char>, Seq<char>>) -> bool {
        true
    }

    fn handle_json(&self, request_json: &str) -> (r: Result<String, String>)
        ensures
            self.answers(request_json@, reply_view(r)),
    ;
}

/// The views of a reply of the gateway.
pub open spec fn reply_view(r: Result<String, String>) -> Result<Seq<char>, Seq<char>> {
    match r {
        Ok(s) => Ok(s@),
        Err(e) => Err(e@),
    }
}

/// What a command gives for a reply of the gateway: the gateway's error, or
/// what the reply's JSON gives (see `reply_spec`).
pub open spec fn command_outcome(reply: Result<Seq<char>, Seq<char>>) -> Result<Seq<char>, Seq<char>> {
    match reply {
        Err(e) => Err(e),
        Ok(t) => reply_spec(t),
    }
}

/// The commands of the location module.
#[derive(Debug, Clone, Copy, PartialEq, Eq, Structural)]
pub enum LocationCommand {
    Status,
    RequestAccess,
    Current,
}

/// The name of a command in requests.
pub open spec fn command_name(c: LocationCommand) -> Seq<char> {
    match c {
        LocationCommand::Status => "status"@,
        LocationCommand::RequestAccess => "request_access"@,
        LocationCommand::Current => "current"@,
    }
}

/// The JSON request for a command: `{"command":"<name>"}`.
pub open spec fn request_text(c: LocationCommand) -> Seq<char> {
    "{\"command\":\""@ + command_name(c) + "\"}"@
}

/// The JSON request that asks the gateway to run a command.
pub fn location_request(command: LocationCommand) -> (r: String)
    ensures
        r@ == request_text(command),
{
    let mut out = str_chars("{\"command\":\"");
    match command {
        LocationCommand::Status => push_str_chars(&mut out, "status"),
        LocationCommand::RequestAccess => push_str_chars(&mut out, "request_access"),
        LocationCommand::Current => push_str_chars(&mut out, "current"),
    }
    push_str_chars(&mut out, "\"}");
    string_of(&out)
}

/// The check that a location function got no arguments: the error names the
/// function and the number of arguments it got.
pub fn validate_no_args(arg_count: usize, fn_name: &str) -> (r: Result<(), String>)
    ensures
        arg_count == 0 ==> r is Ok,
        arg_count > 0 ==> (r matches Err(e) && e@ == fn_name@ + ": expected no arguments, got "@
            + decimal(arg_count as nat)),
{
    if arg_count == 0 {
        Ok(())
    } else {
        let mut e = str_chars(fn_name);
        push_str_chars(&mut e, ": expected no arguments, got ");
        push_decimal(&mut e, arg_count as u64);
        Err(string_of(&e))
    }
}

/// What the gateway's reply gives: the reply when it is JSON whose `ok`
/// member is `true`; otherwise the reply's `error` string (a generic message
/// when it has none), or the JSON error.
pub open spec fn reply_spec(response: Seq<char>) -> Result<Seq<char>, Seq<char>> {
    match json_error(response) {
        Some(e) => Err(e),
        None => if json_bool_at(response, seq![StepView::Key("ok"@)]) == Some(true) {
            Ok(response)
        } else {
            match json_string_at(response, seq![StepView::Key("error"@)]) {
                Some(m) => Err(m),
                None => Err("location command failed"@),
            }
        },
    }
}

/// The outcome of a gateway reply.
pub fn gateway_reply(response: &str) -> (r: Result<JsonDoc, String>)
    ensures
        match reply_spec(response@) {
            Ok(t) => r matches Ok(d) && d.text_view() == t,
            Err(e) => r matches Err(m) && m@ == e,
        },
{
    let doc = match JsonDoc::parse(response) {
        Ok(d) => d,
        Err(e) => {
            return Err(e);
        },
    };
    if doc_bool_at(&doc, &one_key("ok")) == Some(true) {
        return Ok(doc);
    }
    match doc_string_at(&doc, &one_key("error")) {
        Some(m) => Err(m),
        None => Err(string_of(&str_chars("location command failed"))),
    }
}

/// Sends a command to the gateway and reads its reply: the reply document
/// when it reports success, else the gateway's error or the reply's.
pub fn call_gateway<G: LocationGateway>(gateway: &G, command: LocationCommand) -> (r: Result<JsonDoc, String>)
    ensures
        exists|reply: Result<Seq<char>, Seq<char>>|
            #![trigger gateway.answers(request_text(command), reply)]
            gateway.answers(request_text(command), reply) && match command_outcome(reply) {
                Ok(t) => r matches Ok(d) && d.text_view() == t,
                Err(e) => r matches Err(m) && m@ == e,
            },
        r matches Ok(d) ==> reply_spec(d.text_view()) == Ok::<Seq<char>, Seq<char>>(d.text_view()),
{
    let request = location_request(command);
    let answer = gateway.handle_json(request.as_str());
    let ghost reply = reply_view(answer);
    assert(gateway.answers(request_text(command), reply));
    let response = match answer {
        Ok(s) => s,
        Err(e) => {
            return Err(e);
        },
    };
    gateway_reply(response.as_str())
}

} // verus!
