//! The session control protocol: the first message a client sends, and the
//! JSON envelopes sent back to it.

use vstd::prelude::*;
use crate::text::{chars_of, matches_at, push_str, string_of};

verus! {

/// Why a session could not start.
#[derive(Clone, Copy, PartialEq, Eq, Structural, Debug)]
pub enum ProtocolError {
    /// The client went away before sending its first message.
    ClientDisconnect,
    /// The first word is not `PHUD:CONNECT`.
    UnknownCommand,
    InvalidHost,
    InvalidPort,
    InvalidTls,
    /// More than four space-separated words.
    TooManyArguments,
}

impl ProtocolError {
    pub open spec fn message_text(self) -> Seq<char> {
        match self {
            ProtocolError::ClientDisconnect => "Client disconnect"@,
            ProtocolError::UnknownCommand => "Command unimplemented"@,
            ProtocolError::InvalidHost => "Invalid host"@,
            ProtocolError::InvalidPort => "Invalid port"@,
            ProtocolError::InvalidTls => "Invalid TLS value (true, false)"@,
            ProtocolError::TooManyArguments => "Too many arguments"@,
        }
    }

    /// The human-readable text of the error.
    pub fn message(&self) -> (r: &'static str)
        ensures
            r@ == self.message_text(),
    {
        match self {
            ProtocolError::ClientDisconnect => "Client disconnect",
            ProtocolError::UnknownCommand => "Command unimplemented",
            ProtocolError::InvalidHost => "Invalid host",
            ProtocolError::InvalidPort => "Invalid port",
            ProtocolError::InvalidTls => "Invalid TLS value (true, false)",
            ProtocolError::TooManyArguments => "Too many arguments",
        }
    }
}

/// Where the client asks to connect.
#[derive(Debug)]
pub struct ConnectDetails {
    pub host: String,
    pub port: u16,
    pub tls: bool,
}

/// The positions of the spaces of `s`, in order.
pub open spec fn space_positions(s: Seq<char>) -> Seq<int>
    decreases s.len(),
{
    if s.len() == 0 {
        Seq::empty()
    } else if s.last() == ' ' {
        space_positions(s.drop_last()).push(s.len() - 1)
    } else {
        space_positions(s.drop_last())
    }
}

/// The `k`th word of `s` when it is split at every space (empty words
/// included), given the positions of its spaces.
pub open spec fn word(s: Seq<char>, sp: Seq<int>, k: int) -> Seq<char> {
    let a = if k == 0 { 0 } else { sp[k - 1] + 1 };
    let b = if k < sp.len() { sp[k] } else { s.len() as int };
    s.subrange(a, b)
}

/// The number a word of decimal digits stands for.
pub open spec fn decimal_value(t: Seq<char>) -> int
    decreases t.len(),
{
    if t.len() == 0 {
        0
    } else {
        decimal_value(t.drop_last()) * 10 + (t.last() as int - '0' as int)
    }
}

pub open spec fn all_digits(t: Seq<char>) -> bool {
    forall|i: int| 0 <= i < t.len() ==> '0' <= #[trigger] t[i] <= '9'
}

/// A port number as `u16::from_str` reads it: an optional `+`, then one
/// or more decimal digits, the value at most 65535.
pub open spec fn parse_port(t: Seq<char>) -> Option<u16> {
    let d = if t.len() > 0 && t[0] == '+' { t.drop_first() } else { t };
    if d.len() == 0 || !all_digits(d) || decimal_value(d) > 65535 {
        None
    } else {
        Some(decimal_value(d) as u16)
    }
}

/// `true` or `false`, as `bool::from_str` reads them.
pub open spec fn parse_bool(t: Seq<char>) -> Option<bool> {
    if t == "true"@ {
        Some(true)
    } else if t == "false"@ {
        Some(false)
    } else {
        None
    }
}

/// What the first message of a session asks for:
/// `PHUD:CONNECT <host> <port> <true|false>`, exactly four words.
pub open spec fn connect_outcome(s: Seq<char>) -> Result<(Seq<char>, u16, bool), ProtocolError> {
    let sp = space_positions(s);
    let n = sp.len() + 1;
    if word(s, sp, 0) != "PHUD:CONNECT"@ {
        Err(ProtocolError::UnknownCommand)
    } else if n < 2 {
        Err(ProtocolError::InvalidHost)
    } else if n < 3 || parse_port(word(s, sp, 2)) is None {
        Err(ProtocolError::InvalidPort)
    } else if n < 4 || parse_bool(word(s, sp, 3)) is None {
        Err(ProtocolError::InvalidTls)
    } else if n > 4 {
        Err(ProtocolError::TooManyArguments)
    } else {
        Ok((word(s, sp, 1), parse_port(word(s, sp, 2))->0, parse_bool(word(s, sp, 3))->0))
    }
}

proof fn lemma_space_positions(s: Seq<char>)
    ensures
        forall|k: int| 0 <= k < space_positions(s).len() ==> 0 <= #[trigger] space_positions(s)[k] < s.len()
            && s[space_positions(s)[k]] == ' ',
        forall|k: int, j: int| 0 <= k < j < space_positions(s).len() ==> space_positions(s)[k] < space_positions(s)[j],
        space_positions(s).len() <= s.len(),
    decreases s.len(),
{
    if s.len() > 0 {
        lemma_space_positions(s.drop_last());
    }
}

fn spaces_of(v: &Vec<char>) -> (r: Vec<usize>)
    ensures
        r@.len() == space_positions(v@).len(),
        forall|k: int| 0 <= k < r@.len() ==> r@[k] as int == space_positions(v@)[k],
{
    let mut out: Vec<usize> = Vec::new();
    let mut i: usize = 0;
    while i < v.len()
        invariant
            i <= v@.len(),
            out@.len() == space_positions(v@.subrange(0, i as int)).len(),
            forall|k: int| 0 <= k < out@.len() ==> out@[k] as int == space_positions(v@.subrange(0, i as int))[k],
        decreases v.len() - i,
    {
        assert(v@.subrange(0, i + 1).drop_last() =~= v@.subrange(0, i as int));
        if v[i] == ' ' {
            out.push(i);
        }
        i += 1;
    }
    assert(v@.subrange(0, v@.len() as int) =~= v@);
    out
}

/// `v[a..b]`.
fn sub_chars(v: &Vec<char>, a: usize, b: usize) -> (r: Vec<char>)
    requires
        a <= b <= v@.len(),
    ensures
        r@ == v@.subrange(a as int, b as int),
{
    let mut out: Vec<char> = Vec::new();
    let mut i: usize = a;
    while i < b
        invariant
            a <= i <= b <= v@.len(),
            out@ == v@.subrange(a as int, i as int),
        decreases b - i,
    {
        out.push(v[i]);
        i += 1;
        assert(out@ =~= v@.subrange(a as int, i as int));
    }
    out
}

fn same_chars(a: &Vec<char>, b: &str) -> (r: bool)
    ensures
        r == (a@ == b@),
{
    let p = chars_of(b);
    if a.len() != p.len() {
        return false;
    }
    let m = matches_at(a, 0, &p);
    assert(a@.subrange(0, p@.len() as int) =~= a@);
    m
}

fn port_of(t: &Vec<char>) -> (r: Option<u16>)
    ensures
        r == parse_port(t@),
{
    let start: usize = if t.len() > 0 && t[0] == '+' { 1 } else { 0 };
    let ghost d = if t@.len() > 0 && t@[0] == '+' { t@.drop_first() } else { t@ };
    assert(d =~= t@.subrange(start as int, t@.len() as int));
    assert(parse_port(t@) == (if d.len() == 0 || !all_digits(d) || decimal_value(d) > 65535 {
        None
    } else {
        Some(decimal_value(d) as u16)
    }));
    if start >= t.len() {
        return None;
    }
    let mut val: u32 = 0;
    let mut i: usize = start;
    while i < t.len()
        invariant
            start <= i <= t@.len(),
            d == t@.subrange(start as int, t@.len() as int),
            parse_port(t@) == (if d.len() == 0 || !all_digits(d) || decimal_value(d) > 65535 {
                None
            } else {
                Some(decimal_value(d) as u16)
            }),
            all_digits(t@.subrange(start as int, i as int)),
            val == decimal_value(t@.subrange(start as int, i as int)),
            val <= 65535,
        decreases t.len() - i,
    {
        let c = t[i];
        assert(t@.subrange(start as int, i + 1).drop_last() =~= t@.subrange(start as int, i as int));
        if !('0' <= c && c <= '9') {
            assert(d[i - start] == c);
            assert(!('0' <= d[i - start] <= '9'));
            assert(!all_digits(d));
            assert(parse_port(t@) is None);
            return None;
        }
        let nv = val * 10 + ((c as u32) - ('0' as u32));
        if nv > 65535 {
            proof {
                assert(d.subrange(0, (i + 1 - start) as int) =~= t@.subrange(start as int, i + 1));
                if all_digits(d) {
                    lemma_decimal_grows(d, (i + 1 - start) as int);
                    assert(decimal_value(d) > 65535);
                }
                assert(parse_port(t@) is None);
            }
            return None;
        }
        val = nv;
        i += 1;
        assert(all_digits(t@.subrange(start as int, i as int)));
    }
    Some(val as u16)
}

proof fn lemma_decimal_grows(d: Seq<char>, n: int)
    requires
        0 <= n <= d.len(),
        all_digits(d),
    ensures
        decimal_value(d) >= decimal_value(d.subrange(0, n)),
        decimal_value(d.subrange(0, n)) >= 0,
    decreases d.len(),
{
    if n == d.len() {
        assert(d.subrange(0, n) =~= d);
        lemma_decimal_nonneg(d);
    } else {
        assert(d.drop_last().subrange(0, n) =~= d.subrange(0, n));
        assert(all_digits(d.drop_last()));
        lemma_decimal_grows(d.drop_last(), n);
        lemma_decimal_nonneg(d.drop_last());
    }
}

proof fn lemma_decimal_nonneg(d: Seq<char>)
    requires
        all_digits(d),
    ensures
        decimal_value(d) >= 0,
    decreases d.len(),
{
    if d.len() > 0 {
        assert(all_digits(d.drop_last()));
        lemma_decimal_nonneg(d.drop_last());
    }
}

fn bool_of(t: &Vec<char>) -> (r: Option<bool>)
    ensures
        r == parse_bool(t@),
{
    if same_chars(t, "true") {
        Some(true)
    } else if same_chars(t, "false") {
        Some(false)
    } else {
        None
    }
}

/// Reads the first message of a session (`None` when the client went away
/// before sending one).
pub fn get_details(first: Option<String>) -> (r: Result<ConnectDetails, ProtocolError>)
    ensures
        first is None ==> r == Err::<ConnectDetails, ProtocolError>(ProtocolError::ClientDisconnect),
        first matches Some(m) ==> match (r, connect_outcome(m@)) {
            (Ok(d), Ok((host, port, tls))) => d.host@ == host && d.port == port && d.tls == tls,
            (Err(e), Err(f)) => e == f,
            _ => false,
        },
{
    let msg = match first {
        None => return Err(ProtocolError::ClientDisconnect),
        Some(m) => m,
    };
    let v = chars_of(msg.as_str());
    let sp = spaces_of(&v);
    proof {
        lemma_space_positions(v@);
    }
    let ghost sps = space_positions(v@);
    let w0_end = if sp.len() > 0 { sp[0] } else { v.len() };
    let w0 = sub_chars(&v, 0, w0_end);
    assert(w0@ == word(v@, sps, 0));
    if !same_chars(&w0, "PHUD:CONNECT") {
        return Err(ProtocolError::UnknownCommand);
    }
    if sp.len() < 1 {
        return Err(ProtocolError::InvalidHost);
    }
    let w1_end = if sp.len() > 1 { sp[1] } else { v.len() };
    let host = sub_chars(&v, sp[0] + 1, w1_end);
    assert(host@ == word(v@, sps, 1));
    if sp.len() < 2 {
        return Err(ProtocolError::InvalidPort);
    }
    let w2_end = if sp.len() > 2 { sp[2] } else { v.len() };
    let pw = sub_chars(&v, sp[1] + 1, w2_end);
    assert(pw@ == word(v@, sps, 2));
    let port = match port_of(&pw) {
        None => return Err(ProtocolError::InvalidPort),
        Some(p) => p,
    };
    if sp.len() < 3 {
        return Err(ProtocolError::InvalidTls);
    }
    let w3_end = if sp.len() > 3 { sp[3] } else { v.len() };
    let tw = sub_chars(&v, sp[2] + 1, w3_end);
    assert(tw@ == word(v@, sps, 3));
    let tls = match bool_of(&tw) {
        None => return Err(ProtocolError::InvalidTls),
        Some(b) => b,
    };
    if sp.len() > 3 {
        return Err(ProtocolError::TooManyArguments);
    }
    Ok(ConnectDetails { host: string_of(host.as_slice()), port, tls })
}

} // verus!
