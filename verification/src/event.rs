//! Events that the rule scripts report, in the `argus.frida.v1` schema.
use vstd::prelude::*;
use std::collections::BTreeMap;

verus! {

/// The kind of an event; names the library does not know read as `Other`.
#[derive(Clone, Copy, Debug, PartialEq, Eq, Structural)]
pub enum ArgusEventKind {
    Init,
    Register,
    Collect,
    Triggered,
    Skip,
    Error,
    Other,
}

impl ArgusEventKind {
    /// The event's name as it is written in the schema and on the console.
    pub open spec fn name_view(self) -> Seq<char> {
        match self {
            ArgusEventKind::Init => "init"@,
            ArgusEventKind::Register => "register"@,
            ArgusEventKind::Collect => "collect"@,
            ArgusEventKind::Triggered => "triggered"@,
            ArgusEventKind::Skip => "skip"@,
            ArgusEventKind::Error => "error"@,
            ArgusEventKind::Other => "other"@,
        }
    }

    pub fn name(&self) -> (r: &'static str)
        ensures
            r@ == self.name_view(),
    {
        match self {
            ArgusEventKind::Init => "init",
            ArgusEventKind::Register => "register",
            ArgusEventKind::Collect => "collect",
            ArgusEventKind::Triggered => "triggered",
            ArgusEventKind::Skip => "skip",
            ArgusEventKind::Error => "error",
            ArgusEventKind::Other => "other",
        }
    }
}

/// The API or object an event is about, with the call site where one is known.
#[derive(Debug)]
pub struct Subject {
    pub name: String,
    pub address: Option<String>,
}

/// One event. `data` holds the event's data object as compact JSON text.
#[derive(Debug)]
pub struct ArgusEvent {
    pub schema: String,
    pub time: String,
    pub event: ArgusEventKind,
    pub tag: String,
    pub subject: Subject,
    pub data: String,
}

/// A script message as the runtime sends it: its message type and the event.
#[derive(Debug)]
pub struct FridaEnvelope {
    pub kind: String,
    pub payload: ArgusEvent,
}

/// Event data that carries the arguments of a call.
#[derive(Debug)]
pub struct ArgsData {
    pub args: BTreeMap<String, String>,
}

/// Event data that carries a value before and after a rule changed it.
#[derive(Debug)]
pub struct ChangeData {
    pub original: BTreeMap<String, String>,
    pub current: BTreeMap<String, String>,
}

} // verus!
