//! Machine-readable rendering of events: one JSON object per line.
use vstd::prelude::*;
use crate::event::{ArgusEvent, ArgusEventKind};
use crate::text::{lemma_concat_free, lemma_concat_all_free, concat_all};

verus! {

#[verifier::external_type_specification]
#[verifier::external_body]
pub struct ExJsonError(serde_json::Error);

/// The lower-case hexadecimal digit for `d` (`0 <= d < 16`).
pub open spec fn hex_digit(d: int) -> char {
    if d < 10 {
        (d + 48) as char
    } else {
        (d + 87) as char
    }
}

/// How one character is written inside a JSON string: quote and backslash
/// are escaped, control characters take their short escape or `\u00XX`,
/// every other character stands as it is.
pub open spec fn json_escape(c: char) -> Seq<char> {
    if c == '"' {
        seq!['\\', '"']
    } else if c == '\\' {
        seq!['\\', '\\']
    } else if c == '\u{08}' {
        seq!['\\', 'b']
    } else if c == '\t' {
        seq!['\\', 't']
    } else if c == '\n' {
        seq!['\\', 'n']
    } else if c == '\u{0C}' {
        seq!['\\', 'f']
    } else if c == '\r' {
        seq!['\\', 'r']
    } else if (c as u32) < 0x20 {
        seq!['\\', 'u', '0', '0', hex_digit((c as int) / 16), hex_digit((c as int) % 16)]
    } else {
        seq![c]
    }
}

pub open spec fn json_escaped(s: Seq<char>) -> Seq<char>
    decreases s.len(),
{
    if s.len() == 0 {
        Seq::empty()
    } else {
        json_escaped(s.drop_last()) + json_escape(s.last())
    }
}

/// The JSON string literal for `s`.
pub open spec fn json_string(s: Seq<char>) -> Seq<char> {
    seq!['"'] + json_escaped(s) + seq!['"']
}

/// `serde_json::to_string` on a string slice. Its contract states what the
/// serializer's source shows for strings: the only errors on this path are
/// those of the writer, which here is a `Vec<u8>` that never fails to take
/// bytes, so the call succeeds, and the text is the JSON string literal of
/// `s` (`json_string`).
#[verifier::external_body]
fn json_string_literal(s: &str) -> (r: Result<String, serde_json::Error>)
    ensures
        r is Ok,
        r matches Ok(t) ==> t@ == json_string(s@),
{
    serde_json::to_string(s)
}

/// The message of a serializer error (`Display` of `serde_json::Error`);
/// nothing is stated of its text.
#[verifier::external_body]
fn json_error_text(e: &serde_json::Error) -> String {
    e.to_string()
}

/// A failure to serialize an event, with the serializer's message.
#[derive(Debug)]
pub struct SerializeError {
    pub message: String,
}

fn quoted(s: &str) -> (r: Result<String, SerializeError>)
    ensures
        r is Ok,
        r matches Ok(t) ==> t@ == json_string(s@),
{
    match json_string_literal(s) {
        Ok(t) => Ok(t),
        Err(e) => Err(SerializeError { message: json_error_text(&e) }),
    }
}

/// The JSON text of an optional address: its string literal, or `null`.
pub open spec fn address_json(address: Option<String>) -> Seq<char> {
    match address {
        Some(a) => json_string(a@),
        None => "null"@,
    }
}

/// The JSONL line of an event: its fields in schema order, with the data
/// object written as it came.
pub open spec fn jsonl_line(event: ArgusEvent) -> Seq<char> {
    "{\"schema\":"@ + json_string(event.schema@) + ",\"time\":"@ + json_string(event.time@)
        + ",\"event\":"@ + json_string(event.event.name_view()) + ",\"tag\":"@ + json_string(
        event.tag@,
    ) + ",\"subject\":{\"name\":"@ + json_string(event.subject.name@) + ",\"address\":"@
        + address_json(event.subject.address) + "},\"data\":"@ + event.data@ + "}"@
}

/// Renders an event as one line of JSON: always `jsonl_line(event)`, which
/// holds no line break when the event's data holds none.
pub fn format(event: &ArgusEvent) -> (r: Result<String, SerializeError>)
    ensures
        r is Ok,
        r matches Ok(line) ==> line@ == jsonl_line(*event),
        r matches Ok(line) ==> (!event.data@.contains('\n') ==> !line@.contains('\n')),
{
    proof {
        if !event.data@.contains('\n') {
            lemma_jsonl_single_line(*event);
        }
    }
    let schema = quoted(event.schema.as_str())?;
    let time = quoted(event.time.as_str())?;
    let kind = quoted(event.event.name())?;
    let tag = quoted(event.tag.as_str())?;
    let name = quoted(event.subject.name.as_str())?;
    let mut line = String::new();
    line.append("{\"schema\":");
    line.append(schema.as_str());
    line.append(",\"time\":");
    line.append(time.as_str());
    line.append(",\"event\":");
    line.append(kind.as_str());
    line.append(",\"tag\":");
    line.append(tag.as_str());
    line.append(",\"subject\":{\"name\":");
    line.append(name.as_str());
    line.append(",\"address\":");
    match &event.subject.address {
        Some(a) => {
            let address = quoted(a.as_str())?;
            line.append(address.as_str());
        },
        None => line.append("null"),
    }
    line.append("},\"data\":");
    line.append(event.data.as_str());
    line.append("}");
    Ok(line)
}

proof fn lemma_escape_no_newline(c: char)
    ensures
        !json_escape(c).contains('\n'),
{
    let e = json_escape(c);
    if (c as u32) < 0x20 && c != '"' && c != '\\' && c != '\u{08}' && c != '\t' && c != '\n'
        && c != '\u{0C}' && c != '\r' {
        let hi = (c as int) / 16;
        let lo = (c as int) % 16;
        assert(hex_digit(hi) as u32 >= 48);
        assert(hex_digit(lo) as u32 >= 48);
        assert(forall|i: int| 0 <= i < e.len() ==> e[i] != '\n');
    } else {
        assert(forall|i: int| 0 <= i < e.len() ==> e[i] != '\n');
    }
}

/// A JSON string literal never holds a raw line break.
pub proof fn lemma_json_string_no_newline(s: Seq<char>)
    ensures
        !json_escaped(s).contains('\n'),
        !json_string(s).contains('\n'),
    decreases s.len(),
{
    if s.len() > 0 {
        lemma_json_string_no_newline(s.drop_last());
        lemma_escape_no_newline(s.last());
        lemma_concat_free(json_escaped(s.drop_last()), json_escape(s.last()), '\n');
    } else {
        assert(json_escaped(s) =~= Seq::<char>::empty());
    }
    lemma_concat_free(seq!['"'], json_escaped(s), '\n');
    lemma_concat_free(seq!['"'] + json_escaped(s), seq!['"'], '\n');
}

proof fn lemma_name_no_newline(kind: ArgusEventKind)
    ensures
        !kind.name_view().contains('\n'),
{
    reveal_strlit("init");
    reveal_strlit("register");
    reveal_strlit("collect");
    reveal_strlit("triggered");
    reveal_strlit("skip");
    reveal_strlit("error");
    reveal_strlit("other");
    let n = kind.name_view();
    assert(forall|i: int| 0 <= i < n.len() ==> n[i] != '\n');
}

/// Law: the JSONL rendering of an event whose data holds no line break is a
/// single line, so a JSONL file holds one event per line.
pub proof fn lemma_jsonl_single_line(event: ArgusEvent)
    requires
        !event.data@.contains('\n'),
    ensures
        !jsonl_line(event).contains('\n'),
{
    reveal_strlit("{\"schema\":");
    reveal_strlit(",\"time\":");
    reveal_strlit(",\"event\":");
    reveal_strlit(",\"tag\":");
    reveal_strlit(",\"subject\":{\"name\":");
    reveal_strlit(",\"address\":");
    reveal_strlit("},\"data\":");
    reveal_strlit("}");
    reveal_strlit("null");
    let l0 = "{\"schema\":"@;
    let l1 = ",\"time\":"@;
    let l2 = ",\"event\":"@;
    let l3 = ",\"tag\":"@;
    let l4 = ",\"subject\":{\"name\":"@;
    let l5 = ",\"address\":"@;
    let l6 = "},\"data\":"@;
    let l7 = "}"@;
    assert(forall|i: int| 0 <= i < l0.len() ==> l0[i] != '\n');
    assert(forall|i: int| 0 <= i < l1.len() ==> l1[i] != '\n');
    assert(forall|i: int| 0 <= i < l2.len() ==> l2[i] != '\n');
    assert(forall|i: int| 0 <= i < l3.len() ==> l3[i] != '\n');
    assert(forall|i: int| 0 <= i < l4.len() ==> l4[i] != '\n');
    assert(forall|i: int| 0 <= i < l5.len() ==> l5[i] != '\n');
    assert(forall|i: int| 0 <= i < l6.len() ==> l6[i] != '\n');
    assert(forall|i: int| 0 <= i < l7.len() ==> l7[i] != '\n');
    lemma_json_string_no_newline(event.schema@);
    lemma_json_string_no_newline(event.time@);
    lemma_name_no_newline(event.event);
    lemma_json_string_no_newline(event.event.name_view());
    lemma_json_string_no_newline(event.tag@);
    lemma_json_string_no_newline(event.subject.name@);
    let addr = address_json(event.subject.address);
    match event.subject.address {
        Some(a) => lemma_json_string_no_newline(a@),
        None => {
            let nl = "null"@;
            assert(forall|i: int| 0 <= i < nl.len() ==> nl[i] != '\n');
        },
    }
    let pieces = seq![
        l0,
        json_string(event.schema@),
        l1,
        json_string(event.time@),
        l2,
        json_string(event.event.name_view()),
        l3,
        json_string(event.tag@),
        l4,
        json_string(event.subject.name@),
        l5,
        addr,
        l6,
        event.data@,
        l7,
    ];
    assert forall|j: int| 0 <= j < pieces.len() implies !(#[trigger] pieces[j]).contains('\n') by {}
    lemma_concat_all_free(pieces, '\n');
    assert(concat_all(pieces) =~= jsonl_line(event)) by {
        reveal_with_fuel(concat_all, 16);
        assert(Seq::<char>::empty() + l0 =~= l0);
    }
}

/// Law: whatever the event kind, the line ends with the address member,
/// the string literal of the subject's address when it has one and `null`
/// only when it has none, followed by the data as given.
pub proof fn lemma_jsonl_address_member(event: ArgusEvent)
    ensures
        (",\"address\":"@ + match event.subject.address {
            Some(a) => json_string(a@),
            None => "null"@,
        } + "},\"data\":"@ + event.data@ + "}"@).is_suffix_of(jsonl_line(event)),
{
    let tail = ",\"address\":"@ + match event.subject.address {
        Some(a) => json_string(a@),
        None => "null"@,
    } + "},\"data\":"@ + event.data@ + "}"@;
    let line = jsonl_line(event);
    let front = "{\"schema\":"@ + json_string(event.schema@) + ",\"time\":"@ + json_string(
        event.time@,
    ) + ",\"event\":"@ + json_string(event.event.name_view()) + ",\"tag\":"@ + json_string(
        event.tag@,
    ) + ",\"subject\":{\"name\":"@ + json_string(event.subject.name@);
    assert(line =~= front + tail);
    assert(line.skip(line.len() - tail.len()) =~= tail);
}

/// Law: two events that differ only in their kind have lines that agree
/// from the tag on: the kind changes the `event` member and nothing else.
pub proof fn lemma_jsonl_kind_only_names_event(a: ArgusEvent, b: ArgusEvent)
    requires
        a.schema@ == b.schema@,
        a.time@ == b.time@,
        a.tag@ == b.tag@,
        a.subject.name@ == b.subject.name@,
        crate::text::opt_view(a.subject.address) == crate::text::opt_view(b.subject.address),
        a.data@ == b.data@,
    ensures
        jsonl_line(a).skip(jsonl_line(a).len() - (jsonl_line(b).len() - json_string(
            b.event.name_view(),
        ).len() - ("{\"schema\":"@ + json_string(b.schema@) + ",\"time\":"@ + json_string(
            b.time@,
        ) + ",\"event\":"@).len())) == jsonl_line(b).skip(
            ("{\"schema\":"@ + json_string(b.schema@) + ",\"time\":"@ + json_string(b.time@)
                + ",\"event\":"@ + json_string(b.event.name_view())).len() as int,
        ),
{
    let pre = "{\"schema\":"@ + json_string(b.schema@) + ",\"time\":"@ + json_string(b.time@)
        + ",\"event\":"@;
    assert(address_json(a.subject.address) == address_json(b.subject.address));
    let rest = ",\"tag\":"@ + json_string(b.tag@) + ",\"subject\":{\"name\":"@ + json_string(
        b.subject.name@,
    ) + ",\"address\":"@ + address_json(b.subject.address) + "},\"data\":"@ + b.data@ + "}"@;
    let la = jsonl_line(a);
    let lb = jsonl_line(b);
    assert(la =~= pre + json_string(a.event.name_view()) + rest);
    assert(lb =~= pre + json_string(b.event.name_view()) + rest);
    assert(la.skip(la.len() - rest.len()) =~= rest);
    assert(lb.skip((pre + json_string(b.event.name_view())).len() as int) =~= rest);
}

} // verus!
