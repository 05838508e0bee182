//! Colourised one-line rendering of events for live reading.
use vstd::prelude::*;
use crate::event::{ArgusEvent, ArgusEventKind, Subject};
use crate::text::opt_view;

verus! {

pub const RESET: &'static str = "\x1b[0m";

pub const DIM: &'static str = "\x1b[2m";

pub const GREEN: &'static str = "\x1b[32m";

pub const CYAN: &'static str = "\x1b[36m";

pub const YELLOW: &'static str = "\x1b[33m";

pub const RED: &'static str = "\x1b[31m";

pub const MAGENTA: &'static str = "\x1b[35m";

/// The colour an event kind is shown in.
pub open spec fn color_view(kind: ArgusEventKind) -> Seq<char> {
    match kind {
        ArgusEventKind::Init => DIM@,
        ArgusEventKind::Register => GREEN@,
        ArgusEventKind::Collect => CYAN@,
        ArgusEventKind::Triggered => YELLOW@,
        ArgusEventKind::Skip => MAGENTA@,
        ArgusEventKind::Error => RED@,
        ArgusEventKind::Other => RESET@,
    }
}

/// The call site shown for a subject: its address, or `-` where none is known.
pub open spec fn address_view(subject: Subject) -> Seq<char> {
    match subject.address {
        Some(a) => a@,
        None => "-"@,
    }
}

/// The console line of an event. A `register` event shows its colour, name,
/// tag and subject; every other event adds the address and the data.
pub open spec fn console_line(event: ArgusEvent) -> Seq<char> {
    let head = color_view(event.event) + "["@ + event.event.name_view() + "]"@ + RESET@ + " ["@
        + event.tag@ + "] "@ + event.subject.name@;
    match event.event {
        ArgusEventKind::Register => head,
        _ => head + DIM@ + " @ "@ + address_view(event.subject) + RESET@ + " "@ + event.data@,
    }
}

fn event_name(event: &ArgusEventKind) -> (r: &'static str)
    ensures
        r@ == event.name_view(),
{
    event.name()
}

fn event_color(event: &ArgusEventKind) -> (r: &'static str)
    ensures
        r@ == color_view(*event),
{
    match event {
        ArgusEventKind::Init => DIM,
        ArgusEventKind::Register => GREEN,
        ArgusEventKind::Collect => CYAN,
        ArgusEventKind::Triggered => YELLOW,
        ArgusEventKind::Skip => MAGENTA,
        ArgusEventKind::Error => RED,
        ArgusEventKind::Other => RESET,
    }
}

/// Renders an event as one console line.
pub fn format(event: &ArgusEvent) -> (line: String)
    ensures
        line@ == console_line(*event),
{
    let mut line = String::new();
    line.append(event_color(&event.event));
    line.append("[");
    line.append(event_name(&event.event));
    line.append("]");
    line.append(RESET);
    line.append(" [");
    line.append(event.tag.as_str());
    line.append("] ");
    line.append(event.subject.name.as_str());
    match event.event {
        ArgusEventKind::Register => {},
        _ => {
            line.append(DIM);
            line.append(" @ ");
            match &event.subject.address {
                Some(a) => line.append(a.as_str()),
                None => line.append("-"),
            }
            line.append(RESET);
            line.append(" ");
            line.append(event.data.as_str());
        },
    }
    line
}

/// The console mode flag that makes a Windows console interpret ANSI colour
/// sequences.
pub const ENABLE_VIRTUAL_TERMINAL_PROCESSING: u32 = 0x0004;

/// A console mode with virtual-terminal processing switched on and every
/// other flag kept.
pub fn with_virtual_terminal(mode: u32) -> (r: u32)
    ensures
        r == mode | ENABLE_VIRTUAL_TERMINAL_PROCESSING,
{
    mode | ENABLE_VIRTUAL_TERMINAL_PROCESSING
}

/// Law: an event without an address is shown with `-` in its place, just as
/// one whose address is `-`.
pub proof fn lemma_missing_address_shows_dash(event: ArgusEvent, dash: String)
    requires
        event.subject.address is None,
        dash@ == "-"@,
    ensures
        console_line(event) == console_line(
            ArgusEvent {
                subject: Subject { address: Some(dash), ..event.subject },
                ..event
            },
        ),
{
}

/// Law: a `register` line shows neither address nor data: two register
/// events that differ only there render alike.
pub proof fn lemma_register_line_ignores_call_site(a: ArgusEvent, b: ArgusEvent)
    requires
        a.event == ArgusEventKind::Register,
        b.event == ArgusEventKind::Register,
        a.tag@ == b.tag@,
        a.subject.name@ == b.subject.name@,
    ensures
        console_line(a) == console_line(b),
{
}

/// The length of the coloured `[kind]` tag that opens a console line.
pub open spec fn kind_tag_len(kind: ArgusEventKind) -> int {
    (color_view(kind).len() + 1 + kind.name_view().len() + 1) as int
}

/// Law: every line but a `register` line ends with one space and then the
/// event's data, as it stands.
pub proof fn lemma_console_line_ends_with_data(event: ArgusEvent)
    requires
        event.event != ArgusEventKind::Register,
    ensures
        console_line(event).len() > event.data@.len(),
        console_line(event).skip(console_line(event).len() - event.data@.len() - 1) == seq![' ']
            + event.data@,
{
    reveal_strlit(" ");
    let l = console_line(event);
    let front = l.take(l.len() - event.data@.len() - 1);
    assert(l =~= front + seq![' '] + event.data@);
    assert(l.skip(l.len() - event.data@.len() - 1) =~= seq![' '] + event.data@);
}

/// Law: what stands before the data does not depend on the data: two events
/// that differ only in their data have lines that agree up to it.
pub proof fn lemma_console_line_data_last(a: ArgusEvent, b: ArgusEvent)
    requires
        a.event != ArgusEventKind::Register,
        a.event == b.event,
        a.tag@ == b.tag@,
        a.subject.name@ == b.subject.name@,
        opt_view(a.subject.address) == opt_view(b.subject.address),
    ensures
        console_line(a).take(console_line(a).len() - a.data@.len()) == console_line(b).take(
            console_line(b).len() - b.data@.len(),
        ),
{
    let la = console_line(a);
    let lb = console_line(b);
    assert(address_view(a.subject) == address_view(b.subject));
    assert(la.take(la.len() - a.data@.len()) =~= lb.take(lb.len() - b.data@.len()));
}

/// Law: the layout after the coloured `[kind]` tag is the same for every
/// kind but `register`: call site, then data.
pub proof fn lemma_console_layout_same_for_kinds(a: ArgusEvent, b: ArgusEvent)
    requires
        a.event != ArgusEventKind::Register,
        b.event != ArgusEventKind::Register,
        a.tag@ == b.tag@,
        a.subject.name@ == b.subject.name@,
        opt_view(a.subject.address) == opt_view(b.subject.address),
        a.data@ == b.data@,
    ensures
        console_line(a).take(kind_tag_len(a.event)) == color_view(a.event) + "["@
            + a.event.name_view() + "]"@,
        console_line(a).skip(kind_tag_len(a.event)) == console_line(b).skip(kind_tag_len(b.event)),
{
    reveal_strlit("[");
    reveal_strlit("]");
    let la = console_line(a);
    let lb = console_line(b);
    let ta = color_view(a.event) + "["@ + a.event.name_view() + "]"@;
    let tb = color_view(b.event) + "["@ + b.event.name_view() + "]"@;
    assert(address_view(a.subject) == address_view(b.subject));
    let rest_a = la.skip(ta.len() as int);
    let rest_b = lb.skip(tb.len() as int);
    assert(la =~= ta + rest_a);
    assert(lb =~= tb + rest_b);
    assert(la.take(kind_tag_len(a.event)) =~= ta);
    assert(rest_a =~= rest_b);
}

} // verus!
