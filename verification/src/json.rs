//! JSON text for the report: string escaping, the compact document that
//! becomes the published file's content, and the pretty-printed document
//! written to standard output.

use vstd::prelude::*;

use crate::report::{EntryView, Report};
use crate::strnum::{digit_char, push_char};
use vstd::string::StringExecFns;

verus! {

/// The character for a single lowercase hexadecimal digit.
pub open spec fn hex_digit(d: int) -> char {
    if d < 10 {
        digit_char(d)
    } else if d == 10 {
        'a'
    } else if d == 11 {
        'b'
    } else if d == 12 {
        'c'
    } else if d == 13 {
        'd'
    } else if d == 14 {
        'e'
    } else {
        'f'
    }
}

/// How one character is escaped inside a JSON string: quote and
/// backslash get a backslash, the named control characters get their
/// short escapes, other control characters a `\u00XX` escape, and
/// everything else stands as itself.
pub open spec fn escape_char(c: char) -> Seq<char> {
    if c == '"' {
        seq!['\\', '"']
    } else if c == '\\' {
        seq!['\\', '\\']
    } else if c as u32 == 8 {
        seq!['\\', 'b']
    } else if c as u32 == 9 {
        seq!['\\', 't']
    } else if c as u32 == 10 {
        seq!['\\', 'n']
    } else if c as u32 == 12 {
        seq!['\\', 'f']
    } else if c as u32 == 13 {
        seq!['\\', 'r']
    } else if (c as u32) < 32 {
        seq!['\\', 'u', '0', '0', hex_digit(((c as u32) as int) / 16), hex_digit(((c as u32) as int) % 16)]
    } else {
        seq![c]
    }
}

/// A whole character sequence escaped for JSON, character by character.
pub open spec fn escape_seq(s: Seq<char>) -> Seq<char>
    decreases s.len(),
{
    if s.len() == 0 {
        Seq::empty()
    } else {
        escape_seq(s.drop_last()) + escape_char(s.last())
    }
}

/// A JSON string literal: the escaped text between double quotes.
pub open spec fn json_quoted(s: Seq<char>) -> Seq<char> {
    seq!['"'] + escape_seq(s) + seq!['"']
}

/// One report entry as compact JSON: `"key":"value"`.
pub open spec fn entry_text(e: EntryView) -> Seq<char> {
    json_quoted(e.0) + seq![':'] + json_quoted(e.1)
}

/// The comma-separated compact JSON entries of a report.
pub open spec fn entries_text(es: Seq<EntryView>) -> Seq<char>
    decreases es.len(),
{
    if es.len() == 0 {
        Seq::empty()
    } else if es.len() == 1 {
        entry_text(es[0])
    } else {
        entries_text(es.drop_last()) + seq![','] + entry_text(es.last())
    }
}

/// A whole report as one compact JSON object.
pub open spec fn report_json(es: Seq<EntryView>) -> Seq<char> {
    seq!['{'] + entries_text(es) + seq!['}']
}

/// One report entry as pretty JSON: two spaces of indent, then
/// `"key": "value"`.
pub open spec fn entry_pretty(e: EntryView) -> Seq<char> {
    seq![' ', ' '] + json_quoted(e.0) + seq![':', ' '] + json_quoted(e.1)
}

/// The pretty JSON entries of a report, one per line.
pub open spec fn entries_pretty(es: Seq<EntryView>) -> Seq<char>
    decreases es.len(),
{
    if es.len() == 0 {
        Seq::empty()
    } else if es.len() == 1 {
        entry_pretty(es[0])
    } else {
        entries_pretty(es.drop_last()) + seq![',', '\n'] + entry_pretty(es.last())
    }
}

/// A whole report as one pretty-printed JSON object.
pub open spec fn report_json_pretty(es: Seq<EntryView>) -> Seq<char> {
    if es.len() == 0 {
        seq!['{', '}']
    } else {
        seq!['{', '\n'] + entries_pretty(es) + seq!['\n', '}']
    }
}

/// Appends `escape_char(c)` to `out`.
fn push_escaped(out: &mut String, c: char)
    ensures
        final(out)@ == old(out)@ + escape_char(c),
{
    let code = c as u32;
    if c == '"' {
        push_char(out, '\\');
        push_char(out, '"');
    } else if c == '\\' {
        push_char(out, '\\');
        push_char(out, '\\');
    } else if code == 8 {
        push_char(out, '\\');
        push_char(out, 'b');
    } else if code == 9 {
        push_char(out, '\\');
        push_char(out, 't');
    } else if code == 10 {
        push_char(out, '\\');
        push_char(out, 'n');
    } else if code == 12 {
        push_char(out, '\\');
        push_char(out, 'f');
    } else if code == 13 {
        push_char(out, '\\');
        push_char(out, 'r');
    } else if code < 32 {
        push_char(out, '\\');
        push_char(out, 'u');
        push_char(out, '0');
        push_char(out, '0');
        push_char(out, hex_digit_of(code / 16));
        push_char(out, hex_digit_of(code % 16));
    } else {
        push_char(out, c);
    }
    proof {
        assert(final(out)@ =~= old(out)@ + escape_char(c));
    }
}

/// The character for one hexadecimal digit value below sixteen.
fn hex_digit_of(d: u32) -> (c: char)
    requires
        d < 16,
    ensures
        c == hex_digit(d as int),
{
    match d {
        0 => '0',
        1 => '1',
        2 => '2',
        3 => '3',
        4 => '4',
        5 => '5',
        6 => '6',
        7 => '7',
        8 => '8',
        9 => '9',
        10 => 'a',
        11 => 'b',
        12 => 'c',
        13 => 'd',
        14 => 'e',
        _ => 'f',
    }
}

/// Appends `json_quoted(s@)` to `out`.
pub(crate) fn push_quoted(out: &mut String, s: &String)
    ensures
        final(out)@ == old(out)@ + json_quoted(s@),
{
    push_char(out, '"');
    let n = s.as_str().unicode_len();
    let mut i: usize = 0;
    while i < n
        invariant
            n == s@.len(),
            i <= n,
            out@ == old(out)@ + seq!['"'] + escape_seq(s@.take(i as int)),
        decreases n - i,
    {
        let c = s.as_str().get_char(i);
        push_escaped(out, c);
        proof {
            assert(s@.take(i + 1 as int).drop_last() =~= s@.take(i as int));
            assert(s@.take(i + 1 as int).last() == s@[i as int]);
        }
        i += 1;
    }
    proof {
        assert(s@.take(n as int) =~= s@);
    }
    push_char(out, '"');
    proof {
        assert(final(out)@ =~= old(out)@ + json_quoted(s@));
    }
}

/// The report as compact JSON, as it is published.
pub fn report_to_json(report: &Report) -> (r: String)
    ensures
        r@ == report_json(report@),
{
    let mut out = String::new();
    push_char(&mut out, '{');
    let n = report.len();
    let mut i: usize = 0;
    while i < n
        invariant
            n == report@.len(),
            i <= n,
            out@ == seq!['{'] + entries_text(report@.take(i as int)),
        decreases n - i,
    {
        if i > 0 {
            push_char(&mut out, ',');
        }
        let (k, v) = report.entry_at(i);
        push_quoted(&mut out, k);
        push_char(&mut out, ':');
        push_quoted(&mut out, v);
        proof {
            assert(report@.take(i + 1 as int).drop_last() =~= report@.take(i as int));
            assert(report@.take(i + 1 as int).last() == report@[i as int]);
            assert(out@ =~= seq!['{'] + entries_text(report@.take(i + 1 as int)));
        }
        i += 1;
    }
    push_char(&mut out, '}');
    proof {
        assert(report@.take(n as int) =~= report@);
        assert(out@ =~= report_json(report@));
    }
    out
}

/// The report as pretty-printed JSON, as it is written to standard
/// output.
pub fn report_to_json_pretty(report: &Report) -> (r: String)
    ensures
        r@ == report_json_pretty(report@),
{
    let mut out = String::new();
    push_char(&mut out, '{');
    let n = report.len();
    if n == 0 {
        push_char(&mut out, '}');
        proof {
            assert(out@ =~= report_json_pretty(report@));
        }
        return out;
    }
    push_char(&mut out, '\n');
    let mut i: usize = 0;
    while i < n
        invariant
            n == report@.len(),
            0 < n,
            i <= n,
            out@ == seq!['{', '\n'] + entries_pretty(report@.take(i as int)),
        decreases n - i,
    {
        if i > 0 {
            push_char(&mut out, ',');
            push_char(&mut out, '\n');
        }
        push_char(&mut out, ' ');
        push_char(&mut out, ' ');
        let (k, v) = report.entry_at(i);
        push_quoted(&mut out, k);
        push_char(&mut out, ':');
        push_char(&mut out, ' ');
        push_quoted(&mut out, v);
        proof {
            assert(report@.take(i + 1 as int).drop_last() =~= report@.take(i as int));
            assert(report@.take(i + 1 as int).last() == report@[i as int]);
            assert(out@ =~= seq!['{', '\n'] + entries_pretty(report@.take(i + 1 as int)));
        }
        i += 1;
    }
    push_char(&mut out, '\n');
    push_char(&mut out, '}');
    proof {
        assert(report@.take(n as int) =~= report@);
        assert(out@ =~= report_json_pretty(report@));
    }
    out
}

/// The body of the snippet store's update request: a JSON object that
/// sets the report file's content to `content`.
pub open spec fn gist_body_text(content: Seq<char>) -> Seq<char> {
    "{\"files\":{\"rustybears.json\":{\"content\":"@ + json_quoted(content) + "}}}"@
}

/// The update request body that publishes `report`: its compact JSON is
/// embedded as the content of the report file.
pub fn gist_patch_body(report: &Report) -> (r: String)
    ensures
        r@ == gist_body_text(report_json(report@)),
{
    let mut out = String::from_str("{\"files\":{\"rustybears.json\":{\"content\":");
    let content = report_to_json(report);
    push_quoted(&mut out, &content);
    out.append("}}}");
    out
}

} // verus!
