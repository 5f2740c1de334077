//! Turns text received from the remote host into an HTML fragment.

use vstd::prelude::*;
use crate::ansi::{ansi2html, render};
use crate::text::{chars_of, decode_lossy, lossy_utf8, replace_all, replaced, string_of};

verus! {

/// A control character (Unicode general category Cc).
pub open spec fn is_control(c: char) -> bool {
    (c as u32) <= 0x1F || (0x7F <= (c as u32) && (c as u32) <= 0x9F)
}

/// `s` without its control characters.
pub open spec fn without_controls(s: Seq<char>) -> Seq<char>
    decreases s.len(),
{
    if s.len() == 0 {
        Seq::empty()
    } else if is_control(s.last()) {
        without_controls(s.drop_last())
    } else {
        without_controls(s.drop_last()).push(s.last())
    }
}

/// The escaping that comes before rendering: angle brackets become
/// entities and a tab becomes five spaces.
pub open spec fn escaped(s: Seq<char>) -> Seq<char> {
    replaced(replaced(replaced(s, "<"@, "&lt;"@), ">"@, "&gt;"@), "\t"@, "     "@)
}

/// Line ends (`\r\n`, `\n\r`, `\r`, `\n` and the bytes FF F9 read as
/// Latin-1) become `<br>`, after the escape character is dropped.
pub open spec fn line_breaks(s: Seq<char>) -> Seq<char> {
    replaced(
        replaced(
            replaced(
                replaced(replaced(replaced(s, "\x1B"@, ""@), "\r\n"@, "<br>"@), "\n\r"@, "<br>"@),
                "\r"@,
                "<br>"@,
            ),
            "\n"@,
            "<br>"@,
        ),
        "\u{FF}\u{F9}"@,
        "<br>"@,
    )
}

/// The whole clean-up of remote text.
pub open spec fn sanitized(s: Seq<char>) -> Seq<char> {
    replaced(
        replaced(without_controls(line_breaks(render(escaped(s)))), "_-SYSTEM: CHAT-_"@, ""@),
        "`"@,
        "'"@,
    )
}

/// `s` without its control characters.
pub fn strip_controls(v: &Vec<char>) -> (r: Vec<char>)
    ensures
        r@ == without_controls(v@),
{
    let mut out: Vec<char> = Vec::new();
    let mut i: usize = 0;
    while i < v.len()
        invariant
            i <= v.len(),
            out@ == without_controls(v@.subrange(0, i as int)),
        decreases v.len() - i,
    {
        let c = v[i];
        let ghost pre = v@.subrange(0, i as int);
        assert(v@.subrange(0, i + 1).drop_last() =~= pre);
        if !((c as u32) <= 0x1F || (0x7F <= (c as u32) && (c as u32) <= 0x9F)) {
            out.push(c);
        }
        i += 1;
    }
    assert(v@.subrange(0, v.len() as int) =~= v@);
    out
}

/// Escapes, renders and cleans text received from the remote host.
pub fn strip_telnet(the_item: String) -> (r: String)
    ensures
        r@ == sanitized(the_item@),
{
    let v = chars_of(the_item.as_str());
    proof {
        reveal_strlit("<");
        reveal_strlit(">");
        reveal_strlit("\t");
        reveal_strlit("\x1B");
        reveal_strlit("\r\n");
        reveal_strlit("\n\r");
        reveal_strlit("\r");
        reveal_strlit("\n");
        reveal_strlit("\u{FF}\u{F9}");
        reveal_strlit("_-SYSTEM: CHAT-_");
        reveal_strlit("`");
    }
    let v = replace_all(&v, "<", "&lt;");
    let v = replace_all(&v, ">", "&gt;");
    let v = replace_all(&v, "\t", "     ");
    let html = ansi2html(string_of(v.as_slice()).as_str());
    let v = chars_of(html.as_str());
    let v = replace_all(&v, "\x1B", "");
    let v = replace_all(&v, "\r\n", "<br>");
    let v = replace_all(&v, "\n\r", "<br>");
    let v = replace_all(&v, "\r", "<br>");
    let v = replace_all(&v, "\n", "<br>");
    let v = replace_all(&v, "\u{FF}\u{F9}", "<br>");
    let v = strip_controls(&v);
    let v = replace_all(&v, "_-SYSTEM: CHAT-_", "");
    let v = replace_all(&v, "`", "'");
    string_of(v.as_slice())
}

/// Decodes bytes received from the remote host (invalid UTF-8 becomes
/// U+FFFD) and cleans them with [`strip_telnet`].
pub fn sanitize(raw: &[u8]) -> (r: String)
    ensures
        r@ == sanitized(lossy_utf8(raw@)),
{
    strip_telnet(decode_lossy(raw))
}

} // verus!
