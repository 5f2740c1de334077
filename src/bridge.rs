//! What passes between the client and the remote host once a session runs:
//! the JSON envelopes for the client and the telnet bytes for the host.

use vstd::prelude::*;
use vstd::string::StringSliceAdditionalSpecFns;
use vstd::utf8::encode_utf8;
use libtelnet_rs::Parser;
use libtelnet_rs::events::TelnetEvents;
use crate::sanitize::{sanitize, sanitized};
use crate::session::{connect_outcome, get_details, ConnectDetails, ProtocolError};
use crate::text::{chars_of, lossy_utf8, push_str, string_of};

verus! {

/// A lower-case hexadecimal digit.
pub open spec fn hex_digit(d: int) -> char {
    if d < 10 { ((d + 48) as u8) as char } else { ((d - 10 + 97) as u8) as char }
}

/// How one character is written inside a JSON string: the short escapes
/// for backspace, form feed, newline, carriage return and tab, `\u00XX` for
/// the other ASCII controls, a backslash before `\` and `"`, else the
/// character itself.
pub open spec fn json_char(c: char) -> Seq<char> {
    if c == '\x08' {
        "\\b"@
    } else if c == '\x0C' {
        "\\f"@
    } else if c == '\n' {
        "\\n"@
    } else if c == '\r' {
        "\\r"@
    } else if c == '\t' {
        "\\t"@
    } else if (c as u32) < 0x20 || (c as u32) == 0x7F {
        "\\u00"@ + seq![hex_digit((c as u32 / 16) as int), hex_digit((c as u32 % 16) as int)]
    } else if c == '\\' {
        "\\\\"@
    } else if c == '"' {
        "\\\""@
    } else {
        seq![c]
    }
}

/// The characters of `s`, each written as inside a JSON string.
pub open spec fn json_body(s: Seq<char>) -> Seq<char>
    decreases s.len(),
{
    if s.len() == 0 {
        Seq::empty()
    } else {
        json_body(s.drop_last()) + json_char(s.last())
    }
}

/// The JSON string literal for `s`.
pub open spec fn json_string(s: Seq<char>) -> Seq<char> {
    seq!['"'] + json_body(s) + seq!['"']
}

/// Relies on nanoserde's `SerJson` for `str`: the text between double
/// quotes, each character escaped as [`json_char`] says.
#[verifier::external_body]
fn json_quote(s: &str) -> (r: String)
    ensures
        r@ == json_string(s@),
{
    nanoserde::SerJson::serialize_json(s)
}

/// The JSON object `{"message":<text>}` sent to the client.
pub open spec fn envelope(message: Seq<char>) -> Seq<char> {
    "{\"message\":"@ + json_string(message) + "}"@
}

/// The JSON object with one field, `message`, whose value is the JSON
/// string literal `quoted`.
pub fn message_object(quoted: &str) -> (r: String)
    ensures
        r@ == "{\"message\":"@ + quoted@ + "}"@,
{
    let mut out: Vec<char> = Vec::new();
    push_str(&mut out, "{\"message\":");
    push_str(&mut out, quoted);
    push_str(&mut out, "}");
    string_of(out.as_slice())
}

/// Wraps an HTML fragment for the client.
pub fn client_message(message: &str) -> (r: String)
    ensures
        r@ == envelope(message@),
{
    let q = json_quote(message);
    message_object(q.as_str())
}

pub open spec fn digit_char(d: int) -> char {
    ((d + 48) as u8) as char
}

/// The decimal digits of `n`.
pub open spec fn decimal_text(n: nat) -> Seq<char>
    decreases n,
{
    if n < 10 {
        seq![digit_char(n as int)]
    } else {
        decimal_text(n / 10).push(digit_char((n % 10) as int))
    }
}

fn push_decimal(out: &mut Vec<char>, n: u16)
    ensures
        final(out)@ == old(out)@ + decimal_text(n as nat),
    decreases n,
{
    let ghost start = out@;
    if n >= 10 {
        push_decimal(out, n / 10);
    }
    out.push((((n % 10) as u8) + 48) as char);
    assert(out@ =~= start + decimal_text(n as nat));
}

/// The text of the status line sent before connecting.
pub open spec fn status_text(host: Seq<char>, port: u16, tls: bool) -> Seq<char> {
    "<br>Attempting to establish a "@ + (if tls { "TLS "@ } else { Seq::empty() }) + "connection with "@
        + host + ":"@ + decimal_text(port as nat) + "<br>"@
}

/// The status message sent before connecting.
pub fn status_message(host: &str, port: u16, tls: bool) -> (r: String)
    ensures
        r@ == envelope(status_text(host@, port, tls)),
{
    let mut out: Vec<char> = Vec::new();
    push_str(&mut out, "<br>Attempting to establish a ");
    if tls {
        push_str(&mut out, "TLS ");
    }
    let ghost a = out@;
    assert(a == "<br>Attempting to establish a "@ + (if tls { "TLS "@ } else { Seq::<char>::empty() }));
    push_str(&mut out, "connection with ");
    push_str(&mut out, host);
    push_str(&mut out, ":");
    push_decimal(&mut out, port);
    push_str(&mut out, "<br>");
    client_message(string_of(out.as_slice()).as_str())
}

/// The message that reports the error that ended a session.
pub fn error_message(error: &str) -> (r: String)
    ensures
        r@ == envelope("<br>"@ + error@ + "<br>"@),
{
    let mut out: Vec<char> = Vec::new();
    push_str(&mut out, "<br>");
    push_str(&mut out, error);
    push_str(&mut out, "<br>");
    client_message(string_of(out.as_slice()).as_str())
}

/// White space as `char::is_whitespace` has it (the Unicode White_Space
/// property).
pub open spec fn is_white(c: char) -> bool {
    let u = c as u32;
    (9 <= u <= 13) || u == 32 || u == 0x85 || u == 0xA0 || u == 0x1680 || (0x2000 <= u <= 0x200A)
        || u == 0x2028 || u == 0x2029 || u == 0x202F || u == 0x205F || u == 0x3000
}

fn white(c: char) -> (r: bool)
    ensures
        r == is_white(c),
{
    let u = c as u32;
    (9 <= u && u <= 13) || u == 32 || u == 0x85 || u == 0xA0 || u == 0x1680 || (0x2000 <= u && u <= 0x200A)
        || u == 0x2028 || u == 0x2029 || u == 0x202F || u == 0x205F || u == 0x3000
}

/// Past the white space that starts at `i`.
pub open spec fn lead_end(s: Seq<char>, i: int) -> int
    decreases s.len() - i,
{
    if 0 <= i < s.len() && is_white(s[i]) {
        lead_end(s, i + 1)
    } else {
        i
    }
}

/// Before the white space that ends at `j`, not below `lo`.
pub open spec fn trail_start(s: Seq<char>, lo: int, j: int) -> int
    decreases j - lo,
{
    if lo < j && 0 < j <= s.len() && is_white(s[j - 1]) {
        trail_start(s, lo, j - 1)
    } else {
        j
    }
}

/// `s` without white space at either end.
pub open spec fn trimmed(s: Seq<char>) -> Seq<char> {
    let a = lead_end(s, 0);
    s.subrange(a, trail_start(s, a, s.len() as int))
}

/// `s` without white space at either end.
pub fn trim(s: &str) -> (r: Vec<char>)
    ensures
        r@ == trimmed(s@),
{
    let v = chars_of(s);
    let mut a: usize = 0;
    while a < v.len() && white(v[a])
        invariant
            a <= v@.len(),
            v@ == s@,
            lead_end(v@, a as int) == lead_end(v@, 0),
        decreases v.len() - a,
    {
        a += 1;
    }
    let mut b: usize = v.len();
    while b > a && white(v[b - 1])
        invariant
            a <= b <= v@.len(),
            v@ == s@,
            a == lead_end(v@, 0),
            trail_start(v@, a as int, b as int) == trail_start(v@, a as int, v@.len() as int),
        decreases b - a,
    {
        b -= 1;
    }
    let mut out: Vec<char> = Vec::new();
    let mut i: usize = a;
    while i < b
        invariant
            a <= i <= b <= v@.len(),
            out@ == v@.subrange(a as int, i as int),
        decreases b - i,
    {
        out.push(v[i]);
        i += 1;
        assert(out@ =~= v@.subrange(a as int, i as int));
    }
    out
}

/// `b` with every 0xFF byte doubled, as telnet escapes data.
pub open spec fn iac_escaped(b: Seq<u8>) -> Seq<u8>
    decreases b.len(),
{
    if b.len() == 0 {
        Seq::empty()
    } else if b.last() == 0xFF {
        iac_escaped(b.drop_last()).push(0xFF).push(0xFF)
    } else {
        iac_escaped(b.drop_last()).push(b.last())
    }
}

#[verifier::external_type_specification]
#[verifier::external_body]
pub struct ExParser(Parser);

/// The telnet protocol state of one session. Its parser is only ever made
/// by `Parser::new()`, which supports no telnet option, and is kept private
/// so that no option can be switched on from outside.
pub struct TelnetSession {
    parser: Parser,
}

/// Relies on `libtelnet_rs::Parser::new`: a parser with an empty buffer that
/// supports no option.
#[verifier::external_body]
fn new_parser() -> (r: Parser) {
    Parser::new()
}

impl TelnetSession {
    /// A fresh session state.
    pub fn new() -> (r: TelnetSession) {
        TelnetSession { parser: new_parser() }
    }
}

/// Relies on `libtelnet_rs::Parser::send_text`, which always returns a
/// data-to-send event holding the text followed by `\r\n`, with every 0xFF
/// byte doubled.
#[verifier::external_body]
fn telnet_send_text(parser: &mut Parser, text: &str) -> (r: Vec<u8>)
    ensures
        r@ == iac_escaped(text.spec_bytes() + "\r\n".spec_bytes()),
{
    match parser.send_text(text) {
        TelnetEvents::DataSend(b) => b.to_vec(),
        TelnetEvents::DataReceive(_) => Vec::new(),
        TelnetEvents::IAC(_) => Vec::new(),
        TelnetEvents::Negotiation(_) => Vec::new(),
        TelnetEvents::Subnegotiation(_) => Vec::new(),
        TelnetEvents::DecompressImmediate(_) => Vec::new(),
    }
}

/// An event decoded from the remote host's bytes.
pub enum RemoteEvent {
    /// Data for the client.
    Data(Vec<u8>),
    /// Bytes the protocol asks to send back to the host.
    Reply(Vec<u8>),
    /// Anything else (commands and negotiations), which needs no action.
    Other,
}

/// Relies on `libtelnet_rs::Parser::receive`: the events decoded from the
/// bytes, given what the parser holds from earlier bytes. Called only on the
/// parser of a [`TelnetSession`], which has no option switched on.
#[verifier::external_body]
fn telnet_receive(parser: &mut Parser, data: &[u8]) -> (r: Vec<RemoteEvent>) {
    parser.receive(data).into_iter().map(|e| match e {
        TelnetEvents::DataReceive(b) => RemoteEvent::Data(b.to_vec()),
        TelnetEvents::DataSend(b) => RemoteEvent::Reply(b.to_vec()),
        TelnetEvents::IAC(_) => RemoteEvent::Other,
        TelnetEvents::Negotiation(_) => RemoteEvent::Other,
        TelnetEvents::Subnegotiation(_) => RemoteEvent::Other,
        TelnetEvents::DecompressImmediate(_) => RemoteEvent::Other,
    }).collect()
}

/// What the session does next.
pub enum Action {
    /// Send this envelope to the client.
    SendClient(String),
    /// Write these bytes to the remote host.
    WriteRemote(Vec<u8>),
}

/// The action that answers one event.
pub open spec fn answers_one(ev: RemoteEvent, act: Action) -> bool {
    match (ev, act) {
        (RemoteEvent::Data(b), Action::SendClient(m)) => m@ == envelope(sanitized(lossy_utf8(b@))),
        (RemoteEvent::Reply(b), Action::WriteRemote(w)) => w@ == b@,
        _ => false,
    }
}

/// `acts` answers `evs` in order: data goes to the client sanitised and
/// wrapped, replies go back to the host, other events are skipped.
pub open spec fn answers(evs: Seq<RemoteEvent>, acts: Seq<Action>) -> bool
    decreases evs.len(),
{
    if evs.len() == 0 {
        acts.len() == 0
    } else if evs.last() is Other {
        answers(evs.drop_last(), acts)
    } else {
        acts.len() > 0 && answers_one(evs.last(), acts.last()) && answers(evs.drop_last(), acts.drop_last())
    }
}

/// The actions that answer decoded events.
pub fn remote_actions(evs: Vec<RemoteEvent>) -> (r: Vec<Action>)
    ensures
        answers(evs@, r@),
{
    let mut out: Vec<Action> = Vec::new();
    let mut i: usize = 0;
    while i < evs.len()
        invariant
            i <= evs@.len(),
            answers(evs@.subrange(0, i as int), out@),
        decreases evs.len() - i,
    {
        let ghost before = out@;
        assert(evs@.subrange(0, i + 1).drop_last() =~= evs@.subrange(0, i as int));
        match &evs[i] {
            RemoteEvent::Data(b) => {
                let html = sanitize(b.as_slice());
                out.push(Action::SendClient(client_message(html.as_str())));
                assert(out@.drop_last() =~= before);
            },
            RemoteEvent::Reply(b) => {
                out.push(Action::WriteRemote(copy_bytes(b)));
                assert(out@.drop_last() =~= before);
            },
            RemoteEvent::Other => {},
        }
        i += 1;
    }
    assert(evs@.subrange(0, evs@.len() as int) =~= evs@);
    out
}

fn copy_bytes(b: &Vec<u8>) -> (r: Vec<u8>)
    ensures
        r@ == b@,
{
    let mut out: Vec<u8> = Vec::new();
    let mut i: usize = 0;
    while i < b.len()
        invariant
            i <= b@.len(),
            out@ == b@.subrange(0, i as int),
        decreases b.len() - i,
    {
        out.push(b[i]);
        i += 1;
        assert(out@ =~= b@.subrange(0, i as int));
    }
    out
}

/// Decodes bytes from the remote host and answers each event; what the
/// events are depends on what the parser holds from earlier bytes.
pub fn on_remote_data(session: &mut TelnetSession, data: &[u8]) -> (r: Vec<Action>)
    ensures
        exists|evs: Seq<RemoteEvent>| answers(evs, r@),
{
    let evs = telnet_receive(&mut session.parser, data);
    let ghost e = evs@;
    let r = remote_actions(evs);
    assert(answers(e, r@));
    r
}

/// The bytes to write to the remote host for a message from the client:
/// the message without surrounding white space, then `\r\n`, telnet-escaped.
pub fn on_client_message(session: &mut TelnetSession, message: &str) -> (r: Vec<u8>)
    ensures
        r@ == iac_escaped(encode_utf8(trimmed(message@)) + "\r\n".spec_bytes()),
{
    let t = trim(message);
    let s = string_of(t.as_slice());
    telnet_send_text(&mut session.parser, s.as_str())
}

/// What a transport offers a session: delivering text to the client and
/// closing the client's connection. Both only try: a client that is gone
/// is not an error of the session.
pub trait ConnParent {
    fn try_send(&self, msg: String);

    fn try_close_conn(&self);
}

/// One step of ending a session, carried out on its [`ConnParent`].
pub enum SessionStep {
    /// Deliver this envelope to the client.
    Send(String),
    /// Close the client's connection.
    Close,
}

/// The steps that end a session: one message, then one close.
pub open spec fn closing_steps(steps: Seq<SessionStep>, message: Seq<char>) -> bool {
    &&& steps.len() == 2
    &&& (match steps[0] {
        SessionStep::Send(m) => m@ == message,
        SessionStep::Close => false,
    })
    &&& steps[1] is Close
}

/// How a session that failed ends: the error goes to the client as an HTML
/// fragment, then the connection is closed, and nothing follows.
pub fn failure_steps(error: &str) -> (r: Vec<SessionStep>)
    ensures
        closing_steps(r@, envelope("<br>"@ + error@ + "<br>"@)),
{
    refusal_steps(error_message(error))
}

/// How a session ends after a ready message: that message, then the close.
pub fn refusal_steps(message: String) -> (r: Vec<SessionStep>)
    ensures
        closing_steps(r@, message@),
{
    let mut steps: Vec<SessionStep> = Vec::new();
    steps.push(SessionStep::Send(message));
    steps.push(SessionStep::Close);
    steps
}

/// Carries out the steps on a transport, in order.
pub fn perform(parent: &impl ConnParent, steps: Vec<SessionStep>) {
    let mut steps = steps;
    while steps.len() > 0
        decreases steps.len(),
    {
        match steps.remove(0) {
            SessionStep::Send(m) => parent.try_send(m),
            SessionStep::Close => parent.try_close_conn(),
        }
    }
}

/// How a session opens: from its first message (`None` when the client went
/// away first), either where to connect and the status message to send, or
/// the error message to send before closing.
pub fn begin_session(first: Option<String>) -> (r: Result<(ConnectDetails, String), String>)
    ensures
        match r {
            Ok((d, status)) => first matches Some(m) && connect_outcome(m@) == Ok::<(Seq<char>, u16, bool), ProtocolError>((d.host@, d.port, d.tls))
                && status@ == envelope(status_text(d.host@, d.port, d.tls)),
            Err(msg) => exists|e: ProtocolError| msg@ == envelope("<br>"@ + e.message_text() + "<br>"@)
                && (first is None ==> e == ProtocolError::ClientDisconnect)
                && (first matches Some(m) ==> connect_outcome(m@) == Err::<(Seq<char>, u16, bool), ProtocolError>(e)),
        },
{
    match get_details(first) {
        Ok(d) => {
            let status = status_message(d.host.as_str(), d.port, d.tls);
            Ok((d, status))
        },
        Err(e) => Err(error_message(e.message())),
    }
}

} // verus!
