use argus::cli::Output;
use argus::console;
use argus::event::{ArgusEvent, ArgusEventKind, Subject};
use argus::jsonl;
use argus::receive::{plan_delivery, render_line};

fn winhttp_event(kind: ArgusEventKind, address: Option<&str>) -> ArgusEvent {
    ArgusEvent {
        schema: "argus.frida.v1".to_string(),
        time: "2026-06-04T09:49:48.498Z".to_string(),
        event: kind,
        tag: "behavior".to_string(),
        subject: Subject {
            name: "winhttp.dll!WinHttpConnect".to_string(),
            address: address.map(|a| a.to_string()),
        },
        data: "{\"action\":\"http_request\",\"network\":{\"host\":\"xxx.xxx.xxx.xxx\",\"port\":\"443\"}}"
            .to_string(),
    }
}

#[test]
fn console_triggered_line() {
    let e = winhttp_event(ArgusEventKind::Triggered, Some("0x7ff7744a15ca"));
    assert_eq!(
        console::format(&e),
        "\x1b[33m[triggered]\x1b[0m [behavior] winhttp.dll!WinHttpConnect\x1b[2m @ 0x7ff7744a15ca\x1b[0m {\"action\":\"http_request\",\"network\":{\"host\":\"xxx.xxx.xxx.xxx\",\"port\":\"443\"}}"
    );
}

#[test]
fn console_register_line_has_no_call_site() {
    let e = winhttp_event(ArgusEventKind::Register, Some("0x1"));
    assert_eq!(console::format(&e), "\x1b[32m[register]\x1b[0m [behavior] winhttp.dll!WinHttpConnect");
}

#[test]
fn register_lines_ignore_address_and_data() {
    let a = winhttp_event(ArgusEventKind::Register, Some("0x1"));
    let mut b = winhttp_event(ArgusEventKind::Register, None);
    b.data = "{}".to_string();
    assert_eq!(console::format(&a), console::format(&b));
}

#[test]
fn console_missing_address_is_dash() {
    let e = winhttp_event(ArgusEventKind::Collect, None);
    let d = winhttp_event(ArgusEventKind::Collect, Some("-"));
    assert_eq!(console::format(&e), console::format(&d));
    assert!(console::format(&e).starts_with("\x1b[36m[collect]"));
}

#[test]
fn console_colors_by_kind() {
    let cases = [
        (ArgusEventKind::Init, "\x1b[2m[init]"),
        (ArgusEventKind::Skip, "\x1b[35m[skip]"),
        (ArgusEventKind::Error, "\x1b[31m[error]"),
        (ArgusEventKind::Other, "\x1b[0m[other]"),
    ];
    for (kind, head) in cases {
        assert!(console::format(&winhttp_event(kind, None)).starts_with(head));
    }
}

#[test]
fn jsonl_line_matches_schema_order() {
    let e = winhttp_event(ArgusEventKind::Triggered, Some("0x7ff7744a15ca"));
    assert_eq!(
        jsonl::format(&e).unwrap(),
        "{\"schema\":\"argus.frida.v1\",\"time\":\"2026-06-04T09:49:48.498Z\",\"event\":\"triggered\",\"tag\":\"behavior\",\"subject\":{\"name\":\"winhttp.dll!WinHttpConnect\",\"address\":\"0x7ff7744a15ca\"},\"data\":{\"action\":\"http_request\",\"network\":{\"host\":\"xxx.xxx.xxx.xxx\",\"port\":\"443\"}}}"
    );
}

#[test]
fn jsonl_null_address() {
    let e = winhttp_event(ArgusEventKind::Register, None);
    assert!(jsonl::format(&e).unwrap().contains("\"address\":null}"));
}

#[test]
fn jsonl_escapes_strings() {
    let mut e = winhttp_event(ArgusEventKind::Skip, None);
    e.subject.name = "a\"b\\c\nd\u{1}".to_string();
    let line = jsonl::format(&e).unwrap();
    assert!(line.contains("\"name\":\"a\\\"b\\\\c\\nd\\u0001\""));
    assert!(!line.contains('\n'));
}

#[test]
fn render_follows_output_mode() {
    let e = winhttp_event(ArgusEventKind::Init, Some("0x10"));
    assert_eq!(render_line(&e, Output::Console).unwrap(), console::format(&e));
    assert_eq!(render_line(&e, Output::Jsonl).unwrap(), jsonl::format(&e).unwrap());
}

#[test]
fn quiet_output_is_only_saved() {
    let e = winhttp_event(ArgusEventKind::Init, None);
    let d = plan_delivery(&e, Output::Jsonl, true, true).unwrap();
    assert!(!d.to_console);
    assert!(d.to_file);
    let d = plan_delivery(&e, Output::Console, false, false).unwrap();
    assert!(d.to_console);
    assert!(!d.to_file);
    assert_eq!(d.line, console::format(&e));
}

#[test]
fn virtual_terminal_flag_is_added() {
    assert_eq!(console::with_virtual_terminal(0x3), 0x7);
    assert_eq!(console::with_virtual_terminal(0x7), 0x7);
}

#[test]
fn jsonl_always_renders() {
    let mut e = winhttp_event(ArgusEventKind::Other, None);
    e.schema = "\u{0}\u{1f}\u{7f}é".to_string();
    let line = render_line(&e, Output::Jsonl).unwrap();
    assert!(line.starts_with("{\"schema\":\"\\u0000\\u001f\u{7f}é\""));
    let d = plan_delivery(&e, Output::Jsonl, false, true).unwrap();
    assert_eq!(d.line, line);
}
