//! Messages from the injected script: which of them carry an Argus event.
use vstd::prelude::*;
use crate::text::{opt_view, same_text};

verus! {

/// A JSON value as a script message carries it. A number keeps its text;
/// an object keeps its members in order.
#[derive(Debug)]
pub enum JsonValue {
    Null,
    Bool(bool),
    Number(String),
    String(String),
    Array(Vec<JsonValue>),
    Object(Vec<(String, JsonValue)>),
}

/// The value of the first member named `key`.
pub open spec fn member(entries: Seq<(String, JsonValue)>, key: Seq<char>) -> Option<JsonValue>
    decreases entries.len(),
{
    if entries.len() == 0 {
        None
    } else if entries[0].0@ == key {
        Some(entries[0].1)
    } else {
        member(entries.drop_first(), key)
    }
}

/// The member `key` of an object; nothing for any other value.
pub open spec fn json_get(value: JsonValue, key: Seq<char>) -> Option<JsonValue> {
    match value {
        JsonValue::Object(entries) => member(entries@, key),
        _ => None,
    }
}

impl JsonValue {
    /// The member `key` of an object (`serde_json::Value::get` with a string key).
    pub fn get(&self, key: &str) -> (r: Option<&JsonValue>)
        ensures
            match r {
                Some(v) => json_get(*self, key@) == Some(*v),
                None => json_get(*self, key@) is None,
            },
    {
        match self {
            JsonValue::Object(entries) => {
                let n = entries.len();
                let mut i: usize = 0;
                assert(entries@.skip(0) =~= entries@);
                while i < n
                    invariant
                        n == entries.len(),
                        i <= n,
                        member(entries@.skip(i as int), key@) == member(entries@, key@),
                        json_get(*self, key@) == member(entries@, key@),
                    decreases n - i,
                {
                    assert(entries@.skip(i as int)[0] == entries@[i as int]);
                    if same_text(entries[i].0.as_str(), key) {
                        assert(member(entries@.skip(i as int), key@) == Some(entries@[i as int].1));
                        let found = &entries[i].1;
                        assert(*found == entries@[i as int].1);
                        return Some(found);
                    }
                    assert(entries@.skip(i as int).drop_first() =~= entries@.skip(i + 1));
                    i = i + 1;
                }
                None
            },
            _ => None,
        }
    }
}

/// A message from the injected script, by its kind. Frida reports a message
/// that it cannot read as one of its own kinds as `Other`, with the raw
/// message text under `data`.
#[derive(Debug)]
pub enum ScriptMessage {
    Send,
    Log,
    Error,
    Other(JsonValue),
}

/// The raw Argus message that a script message carries: the string under
/// `data` of an `Other` message.
pub open spec fn raw_message(message: ScriptMessage) -> Option<Seq<char>> {
    match message {
        ScriptMessage::Other(v) => match json_get(v, "data"@) {
            Some(JsonValue::String(s)) => Some(s@),
            _ => None,
        },
        _ => None,
    }
}

pub fn extract_argus_raw_message(message: &ScriptMessage) -> (r: Option<String>)
    ensures
        opt_view(r) == raw_message(*message),
{
    match message {
        ScriptMessage::Other(value) => match value.get("data") {
            Some(JsonValue::String(s)) => Some(s.clone()),
            _ => None,
        },
        _ => None,
    }
}

/// What to do with a script message.
#[derive(Debug)]
pub enum HandlerAction {
    /// Hand the raw Argus message to the output.
    Forward(String),
    /// Report the message, with its extra data, as a diagnostic.
    Report(Option<Vec<u8>>),
}

/// Receives the script's messages.
pub struct Handler;

impl Handler {
    /// Forwards the raw Argus message a script message carries; reports any
    /// other message with its data.
    pub fn on_message(&mut self, message: ScriptMessage, data: Option<Vec<u8>>) -> (a:
        HandlerAction)
        ensures
            match a {
                HandlerAction::Forward(raw) => raw_message(message) == Some(raw@),
                HandlerAction::Report(d) => raw_message(message) is None && d == data,
            },
    {
        match extract_argus_raw_message(&message) {
            Some(raw) => HandlerAction::Forward(raw),
            None => HandlerAction::Report(data),
        }
    }
}

} // verus!
