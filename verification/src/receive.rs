//! Routing rendered events to the console and to the save file.
use vstd::prelude::*;
use crate::cli::Output;
use crate::console::{self, console_line};
use crate::event::ArgusEvent;
use crate::jsonl::{self, jsonl_line, SerializeError};

verus! {

/// The line of an event in the chosen output mode.
pub open spec fn rendered(event: ArgusEvent, output: Output) -> Seq<char> {
    match output {
        Output::Console => console_line(event),
        Output::Jsonl => jsonl_line(event),
    }
}

/// Renders an event in the chosen output mode; both renderings succeed.
pub fn render_line(event: &ArgusEvent, output: Output) -> (r: Result<String, SerializeError>)
    ensures
        r is Ok,
        r matches Ok(line) ==> line@ == rendered(*event, output),
{
    match output {
        Output::Console => Ok(console::format(event)),
        Output::Jsonl => jsonl::format(event),
    }
}

/// Where one rendered line goes.
#[derive(Debug)]
pub struct Delivery {
    pub line: String,
    /// Printed unless the output is quiet.
    pub to_console: bool,
    /// Written, and flushed at once, when a save file is open.
    pub to_file: bool,
}

/// Plans the delivery of one event: its line, whether it is printed, and
/// whether it is written to the save file.
pub fn plan_delivery(event: &ArgusEvent, output: Output, quiet: bool, has_file: bool) -> (r:
    Result<Delivery, SerializeError>)
    ensures
        r is Ok,
        r matches Ok(d) ==> d.line@ == rendered(*event, output) && d.to_console == !quiet
            && d.to_file == has_file,
{
    let line = render_line(event, output)?;
    Ok(Delivery { line, to_console: !quiet, to_file: has_file })
}

} // verus!
