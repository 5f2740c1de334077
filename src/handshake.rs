//! The legacy (Hixie-76) WebSocket handshake: locating the request in the
//! bytes received so far, reading its headers, deriving the challenge from
//! the two keys and writing the reply.

use vstd::prelude::*;
use vstd::string::StringSliceAdditionalSpecFns;
use crate::frame::slice_of;

verus! {

/// Whether `pat` occurs in `s` at `i`.
pub open spec fn occurs_at(s: Seq<u8>, i: int, pat: Seq<u8>) -> bool {
    0 <= i && i + pat.len() <= s.len() && s.subrange(i, i + pat.len()) == pat
}

/// `i` is the first occurrence of `pat` in `s` at or after `from`.
pub open spec fn first_at(s: Seq<u8>, pat: Seq<u8>, from: int, i: int) -> bool {
    from <= i && occurs_at(s, i, pat) && forall|j: int| from <= j < i ==> !occurs_at(s, j, pat)
}

/// The first occurrence of `pat` in `s` at or after `from`.
pub open spec fn find_first(s: Seq<u8>, pat: Seq<u8>, from: int) -> Option<int> {
    if exists|i: int| first_at(s, pat, from, i) {
        Some(choose|i: int| first_at(s, pat, from, i))
    } else {
        None
    }
}

proof fn lemma_first_unique(s: Seq<u8>, pat: Seq<u8>, from: int, i: int, k: int)
    requires
        first_at(s, pat, from, i),
        first_at(s, pat, from, k),
    ensures
        i == k,
{
    if i < k {
        assert(!occurs_at(s, i, pat));
    } else if k < i {
        assert(!occurs_at(s, k, pat));
    }
}

/// The first occurrence of `pat` in `s` at or after `from`.
pub fn find_from(s: &[u8], pat: &[u8], from: usize) -> (r: Option<usize>)
    ensures
        r matches Some(i) ==> find_first(s@, pat@, from as int) == Some(i as int),
        r matches Some(i) ==> occurs_at(s@, i as int, pat@) && from <= i,
        r is None ==> find_first(s@, pat@, from as int) is None,
        r is None ==> forall|j: int| from <= j ==> !occurs_at(s@, j, pat@),
{
    if pat.len() > s.len() || from > s.len() - pat.len() {
        assert forall|j: int| from <= j implies !occurs_at(s@, j, pat@) by {}
        return None;
    }
    let last = s.len() - pat.len();
    let mut i: usize = from;
    loop
        invariant
            from <= i <= last,
            last == s@.len() - pat@.len(),
            forall|j: int| from <= j < i ==> !occurs_at(s@, j, pat@),
        ensures
            forall|j: int| from <= j <= last ==> !occurs_at(s@, j, pat@),
        decreases last - i,
    {
        let mut k: usize = 0;
        let mut same = true;
        while k < pat.len()
            invariant
                k <= pat@.len(),
                i + pat@.len() <= s@.len(),
                s@.len() == s.len(),
                pat@.len() == pat.len(),
                same == forall|m: int| 0 <= m < k ==> s@[i + m] == pat@[m],
            decreases pat.len() - k,
        {
            if s[i + k] != pat[k] {
                same = false;
            }
            k += 1;
        }
        if same {
            assert(s@.subrange(i as int, i + pat@.len()) =~= pat@);
            proof {
                assert(first_at(s@, pat@, from as int, i as int));
                let c = choose|c: int| first_at(s@, pat@, from as int, c);
                lemma_first_unique(s@, pat@, from as int, i as int, c);
            }
            return Some(i);
        } else {
            proof {
                let m = choose|m: int| 0 <= m < pat@.len() && s@[i + m] != pat@[m];
                assert(s@.subrange(i as int, i + pat@.len())[m] != pat@[m]);
            }
        }
        if i == last {
            break;
        }
        i += 1;
    }
    assert forall|j: int| from <= j implies !occurs_at(s@, j, pat@) by {}
    None
}

pub open spec fn ascii_lower(c: u8) -> u8 {
    if 65 <= c <= 90 { (c + 32) as u8 } else { c }
}

/// Equal up to the case of ASCII letters.
pub open spec fn eq_ignore_case(a: Seq<u8>, b: Seq<u8>) -> bool {
    a.len() == b.len() && forall|i: int| 0 <= i < a.len() ==> ascii_lower(a[i]) == ascii_lower(b[i])
}

/// `k` starts a line of `s`.
pub open spec fn line_start(s: Seq<u8>, k: int) -> bool {
    k == 0 || (0 < k <= s.len() && s[k - 1] == 10)
}

/// A line that starts at `k` with `<name>: `, the name in any case.
pub open spec fn header_line_at(s: Seq<u8>, k: int, name: Seq<u8>) -> bool {
    &&& 0 <= k
    &&& line_start(s, k)
    &&& k + name.len() + 2 <= s.len()
    &&& eq_ignore_case(s.subrange(k, k + name.len()), name)
    &&& s[k + name.len()] == 58
    &&& s[k + name.len() + 1] == 32
}

/// The first line of `s` that is a `name` header.
#[verifier::opaque]
pub open spec fn first_header_line(s: Seq<u8>, name: Seq<u8>) -> Option<int> {
    if exists|k: int| header_line_at(s, k, name) {
        Some(choose|k: int| header_line_at(s, k, name) && forall|j: int| 0 <= j < k ==> !header_line_at(s, j, name))
    } else {
        None
    }
}

/// The end of the line that holds `i`: the next line feed, or the end.
pub open spec fn line_end(s: Seq<u8>, i: int) -> int
    decreases s.len() - i,
{
    if 0 <= i < s.len() && s[i] != 10 {
        line_end(s, i + 1)
    } else {
        i
    }
}

/// ASCII white space. Header values are trimmed of these bytes only; a
/// non-ASCII space such as U+00A0 at either end stays in the value.
pub open spec fn is_space(c: u8) -> bool {
    c == 32 || (9 <= c <= 13)
}

/// Past the white space that starts at `i`, not beyond `end`.
pub open spec fn skip_space(s: Seq<u8>, i: int, end: int) -> int
    decreases end - i,
{
    if 0 <= i < end && i < s.len() && is_space(s[i]) {
        skip_space(s, i + 1, end)
    } else {
        i
    }
}

/// Before the white space that ends at `j`, not below `start`.
pub open spec fn drop_space(s: Seq<u8>, start: int, j: int) -> int
    decreases j - start,
{
    if start < j && 0 < j <= s.len() && is_space(s[j - 1]) {
        drop_space(s, start, j - 1)
    } else {
        j
    }
}

/// The value of the first `name` header: the rest of its line with the
/// white space at both ends removed.
pub open spec fn header_value(s: Seq<u8>, name: Seq<u8>) -> Option<Seq<u8>> {
    match first_header_line(s, name) {
        Some(k) => {
            let v0 = k + name.len() + 2;
            let v1 = line_end(s, v0);
            let a = skip_space(s, v0, v1);
            let b = drop_space(s, a, v1);
            Some(s.subrange(a, b))
        },
        None => None,
    }
}

fn lower(c: u8) -> (r: u8)
    ensures
        r == ascii_lower(c),
{
    if 65 <= c && c <= 90 { c + 32 } else { c }
}

fn header_line_here(s: &[u8], k: usize, name: &[u8]) -> (r: bool)
    requires
        k <= s@.len(),
    ensures
        r == header_line_at(s@, k as int, name@),
{
    if !(k == 0 || s[k - 1] == 10) {
        return false;
    }
    if name.len() > s.len() - k || s.len() - k - name.len() < 2 {
        return false;
    }
    let mut i: usize = 0;
    while i < name.len()
        invariant
            i <= name@.len(),
            k + name@.len() + 2 <= s@.len(),
            s@.len() == s.len(),
            name@.len() == name.len(),
            forall|m: int| 0 <= m < i ==> ascii_lower(s@[k + m]) == ascii_lower(name@[m]),
        decreases name.len() - i,
    {
        if lower(s[k + i]) != lower(name[i]) {
            assert(s@.subrange(k as int, k + name@.len())[i as int] == s@[k + i]);
            return false;
        }
        i += 1;
    }
    assert(eq_ignore_case(s@.subrange(k as int, k + name@.len()), name@));
    s[k + name.len()] == 58 && s[k + name.len() + 1] == 32
}

fn first_header(s: &[u8], name: &[u8]) -> (r: Option<usize>)
    ensures
        match r {
            Some(k) => first_header_line(s@, name@) == Some(k as int) && k + name@.len() + 2 <= s@.len(),
            None => first_header_line(s@, name@) is None,
        },
{
    reveal(first_header_line);
    let mut k: usize = 0;
    while k < s.len()
        invariant
            k <= s@.len(),
            forall|j: int| 0 <= j < k ==> !header_line_at(s@, j, name@),
        decreases s.len() - k,
    {
        if header_line_here(s, k, name) {
            proof {
                assert(header_line_at(s@, k as int, name@) && forall|j: int| 0 <= j < k ==> !header_line_at(s@, j, name@));
                let c = choose|c: int| header_line_at(s@, c, name@) && forall|j: int| 0 <= j < c ==> !header_line_at(s@, j, name@);
                if c < k {
                } else if k < c {
                }
                assert(c == k);
                reveal(first_header_line);
                assert(first_header_line(s@, name@) == Some(k as int));
                assert(k + name@.len() + 2 <= s@.len());
            }
            return Some(k);
        }
        k += 1;
    }
    assert forall|j: int| !header_line_at(s@, j, name@) by {
        if 0 <= j < k {
        }
    }
    reveal(first_header_line);
    None
}

/// The rest of the line that continues at `v0`, with the white space at
/// both ends removed.
fn trimmed_line(s: &[u8], v0: usize) -> (r: Vec<u8>)
    requires
        v0 <= s@.len(),
    ensures
        ({
            let v1 = line_end(s@, v0 as int);
            let a = skip_space(s@, v0 as int, v1);
            r@ == s@.subrange(a, drop_space(s@, a, v1))
        }),
{
    let mut v1 = v0;
    while v1 < s.len() && s[v1] != 10
        invariant
            v0 <= v1 <= s@.len(),
            line_end(s@, v1 as int) == line_end(s@, v0 as int),
        decreases s.len() - v1,
    {
        v1 += 1;
    }
    let mut a = v0;
    while a < v1 && is_space_byte(s[a])
        invariant
            v0 <= a <= v1 <= s@.len(),
            skip_space(s@, a as int, v1 as int) == skip_space(s@, v0 as int, v1 as int),
        decreases v1 - a,
    {
        a += 1;
    }
    let mut b = v1;
    while b > a && is_space_byte(s[b - 1])
        invariant
            a <= b <= v1 <= s@.len(),
            drop_space(s@, a as int, b as int) == drop_space(s@, a as int, v1 as int),
        decreases b - a,
    {
        b -= 1;
    }
    slice_of(s, a, b)
}

/// The value of the first `name` header of `s`.
pub fn find_header(s: &[u8], name: &[u8]) -> (r: Option<Vec<u8>>)
    ensures
        match r {
            Some(v) => header_value(s@, name@) == Some(v@),
            None => header_value(s@, name@) is None,
        },
{
    match first_header(s, name) {
        None => None,
        Some(k) => {
            assert(s@.len() == s.len() && name@.len() == name.len());
            let v0 = k + name.len() + 2;
            let v = trimmed_line(s, v0);
            assert(header_value(s@, name@) == Some(v@));
            Some(v)
        },
    }
}

fn is_space_byte(c: u8) -> (r: bool)
    ensures
        r == is_space(c),
{
    c == 32 || (9 <= c && c <= 13)
}

pub open spec fn is_digit_byte(c: u8) -> bool {
    48 <= c <= 57
}

/// The number written by the digits of `k`, read in order.
pub open spec fn digit_value(k: Seq<u8>) -> int
    decreases k.len(),
{
    if k.len() == 0 {
        0
    } else if is_digit_byte(k.last()) {
        digit_value(k.drop_last()) * 10 + (k.last() - 48)
    } else {
        digit_value(k.drop_last())
    }
}

pub open spec fn digit_count(k: Seq<u8>) -> int
    decreases k.len(),
{
    if k.len() == 0 {
        0
    } else {
        digit_count(k.drop_last()) + if is_digit_byte(k.last()) { 1int } else { 0int }
    }
}

pub open spec fn space_count(k: Seq<u8>) -> int
    decreases k.len(),
{
    if k.len() == 0 {
        0
    } else {
        space_count(k.drop_last()) + if k.last() == 32 { 1int } else { 0int }
    }
}

/// The 32-bit number a key stands for: its digits read as one number,
/// divided by its count of spaces. There is none when the key has no digit
/// or no space, when the number does not fit in 64 bits, or when the
/// division leaves a remainder.
pub open spec fn key_part(k: Seq<u8>) -> Option<u32> {
    if digit_count(k) == 0 || digit_value(k) > u64::MAX || space_count(k) == 0
        || digit_value(k) % space_count(k) != 0 {
        None
    } else {
        Some(((digit_value(k) / space_count(k)) % 0x1_0000_0000) as u32)
    }
}

proof fn lemma_digit_value_nonneg(k: Seq<u8>)
    ensures
        digit_value(k) >= 0,
        0 <= digit_count(k) <= k.len(),
        0 <= space_count(k) <= k.len(),
    decreases k.len(),
{
    if k.len() > 0 {
        lemma_digit_value_nonneg(k.drop_last());
    }
}

/// Derives the number that a key stands for.
pub fn key_number(k: &[u8]) -> (r: Option<u32>)
    ensures
        r == key_part(k@),
{
    let mut val: u64 = 0;
    let mut over = false;
    let mut digits: usize = 0;
    let mut spaces: usize = 0;
    let mut i: usize = 0;
    while i < k.len()
        invariant
            i <= k@.len(),
            digits == digit_count(k@.subrange(0, i as int)),
            spaces == space_count(k@.subrange(0, i as int)),
            digits <= i,
            spaces <= i,
            !over ==> val == digit_value(k@.subrange(0, i as int)),
            over ==> digit_value(k@.subrange(0, i as int)) > u64::MAX,
        decreases k.len() - i,
    {
        let c = k[i];
        let ghost pre = k@.subrange(0, i as int);
        assert(k@.subrange(0, i + 1).drop_last() =~= pre);
        proof {
            lemma_digit_value_nonneg(pre);
        }
        if 48 <= c && c <= 57 {
            digits += 1;
            let d = (c - 48) as u64;
            if !over {
                if val > (u64::MAX - d) / 10 {
                    over = true;
                    assert(val * 10 + d > u64::MAX) by (nonlinear_arith)
                        requires
                            val > (u64::MAX - d) / 10,
                            d <= 9,
                    ;
                } else {
                    assert(val * 10 + d <= u64::MAX) by (nonlinear_arith)
                        requires
                            val <= (u64::MAX - d) / 10,
                            d <= 9,
                    ;
                    val = val * 10 + d;
                }
            }
        } else if c == 32 {
            spaces += 1;
        }
        i += 1;
    }
    assert(k@.subrange(0, k@.len() as int) =~= k@);
    if digits == 0 || over || spaces == 0 || val % (spaces as u64) != 0 {
        return None;
    }
    Some(((val / (spaces as u64)) % 0x1_0000_0000) as u32)
}

/// The four bytes of `p`, most significant first.
pub open spec fn be_bytes(p: u32) -> Seq<u8> {
    seq![(p / 0x100_0000) as u8, ((p / 0x1_0000) % 256) as u8, ((p / 256) % 256) as u8, (p % 256) as u8]
}

/// Appends `b` to `out`.
pub fn extend(out: &mut Vec<u8>, b: &[u8])
    ensures
        final(out)@ == old(out)@ + b@,
{
    let ghost start = out@;
    let mut i: usize = 0;
    while i < b.len()
        invariant
            i <= b@.len(),
            out@ == start + b@.subrange(0, i as int),
        decreases b.len() - i,
    {
        out.push(b[i]);
        i += 1;
        assert(out@ =~= start + b@.subrange(0, i as int));
    }
    assert(b@.subrange(0, b@.len() as int) =~= b@);
}

fn push_be(out: &mut Vec<u8>, p: u32)
    ensures
        final(out)@ == old(out)@ + be_bytes(p),
{
    let ghost start = out@;
    out.push((p / 0x100_0000) as u8);
    out.push(((p / 0x1_0000) % 256) as u8);
    out.push(((p / 256) % 256) as u8);
    out.push((p % 256) as u8);
    assert(out@ =~= start + be_bytes(p));
}

/// The bytes received may hold at most this many, less one: a request that
/// fills them is refused.
pub const HANDSHAKE_CAPACITY: usize = 512;

/// Why a handshake failed.
#[derive(Clone, Copy, PartialEq, Eq, Structural, Debug)]
pub enum HandshakeError {
    /// The capacity was used up before a whole request arrived.
    ExhaustedBuffer,
    /// One of the four required headers is missing.
    MissingHeader,
    /// A key has no digit or no space, or its number does not divide evenly.
    BadKey,
}

impl HandshakeError {
    pub open spec fn message_text(self) -> Seq<char> {
        match self {
            HandshakeError::ExhaustedBuffer => "Exhausted buffer"@,
            HandshakeError::MissingHeader => "Header not found"@,
            HandshakeError::BadKey => "Incorrect client data"@,
        }
    }

    /// The human-readable text of the error.
    pub fn message(&self) -> (r: &'static str)
        ensures
            r@ == self.message_text(),
    {
        match self {
            HandshakeError::ExhaustedBuffer => "Exhausted buffer",
            HandshakeError::MissingHeader => "Header not found",
            HandshakeError::BadKey => "Incorrect client data",
        }
    }
}

pub open spec fn request_marker() -> Seq<u8> {
    "GET / HTTP/".spec_bytes()
}

pub open spec fn crlf_blank() -> Seq<u8> {
    "\r\n\r\n".spec_bytes()
}

pub open spec fn lf_blank() -> Seq<u8> {
    "\n\n".spec_bytes()
}

/// Where the request line starts, where its headers end, and where the
/// eight key bytes after the blank line start; none until all of them have
/// arrived. A `\r\n\r\n` blank line anywhere after the request line is taken
/// before a `\n\n` one.
pub open spec fn request_bounds(buf: Seq<u8>) -> Option<(int, int, int)> {
    match find_first(buf, request_marker(), 0) {
        None => None,
        Some(a) => {
            let term = match find_first(buf, crlf_blank(), a) {
                Some(h) => Some((h, h + crlf_blank().len())),
                None => match find_first(buf, lf_blank(), a) {
                    Some(h) => Some((h, h + lf_blank().len())),
                    None => None,
                },
            };
            match term {
                Some((h, k)) => if k + 8 <= buf.len() { Some((a, h, k)) } else { None },
                None => None,
            }
        },
    }
}

fn locate_request(buf: &[u8]) -> (r: Option<(usize, usize, usize)>)
    ensures
        match r {
            Some((a, h, k)) => request_bounds(buf@) == Some((a as int, h as int, k as int))
                && a <= h <= k && k + 8 <= buf@.len(),
            None => request_bounds(buf@) is None,
        },
{
    assert(buf@.len() == buf.len());
    let marker = "GET / HTTP/".as_bytes();
    let crlf = "\r\n\r\n".as_bytes();
    let lf = "\n\n".as_bytes();
    let a = match find_from(buf, marker, 0) {
        None => return None,
        Some(a) => a,
    };
    let (h, k) = match find_from(buf, crlf, a) {
        Some(h) => (h, h + crlf.len()),
        None => match find_from(buf, lf, a) {
            Some(h) => (h, h + lf.len()),
            None => return None,
        },
    };
    if k > buf.len() || buf.len() - k < 8 {
        return None;
    }
    Some((a, h, k))
}

pub open spec fn key1_name() -> Seq<u8> {
    "Sec-WebSocket-Key1".spec_bytes()
}

pub open spec fn key2_name() -> Seq<u8> {
    "Sec-WebSocket-Key2".spec_bytes()
}

pub open spec fn host_name() -> Seq<u8> {
    "Host".spec_bytes()
}

pub open spec fn origin_name() -> Seq<u8> {
    "Origin".spec_bytes()
}

/// The sixteen bytes to be hashed: both key numbers, most significant byte
/// first, then the eight key bytes.
pub open spec fn challenge_of(p1: u32, p2: u32, key3: Seq<u8>) -> Seq<u8> {
    be_bytes(p1) + be_bytes(p2) + key3
}

/// What the bytes received so far make of the handshake: not yet complete
/// (`Ok(None)`), or the origin, the host and the challenge to hash.
pub open spec fn request_outcome(buf: Seq<u8>) -> Result<Option<(Seq<u8>, Seq<u8>, Seq<u8>)>, HandshakeError> {
    if buf.len() >= HANDSHAKE_CAPACITY {
        Err(HandshakeError::ExhaustedBuffer)
    } else {
        match request_bounds(buf) {
            None => Ok(None),
            Some((a, h, k)) => {
                let req = buf.subrange(a, h);
                match (
                    header_value(req, key1_name()),
                    header_value(req, key2_name()),
                    header_value(req, host_name()),
                    header_value(req, origin_name()),
                ) {
                    (Some(k1), Some(k2), Some(host), Some(origin)) => match (key_part(k1), key_part(k2)) {
                        (Some(p1), Some(p2)) => Ok(Some((origin, host, challenge_of(p1, p2, buf.subrange(k, k + 8))))),
                        _ => Err(HandshakeError::BadKey),
                    },
                    _ => Err(HandshakeError::MissingHeader),
                }
            },
        }
    }
}

/// A complete, valid handshake request.
pub struct Challenge {
    pub origin: Vec<u8>,
    pub host: Vec<u8>,
    /// The sixteen bytes whose digest answers the handshake.
    pub challenge: Vec<u8>,
}

/// Once the whole request has arrived, a key that has no space, or whose
/// number is not a multiple of its count of spaces, fails the handshake and
/// no reply is made; bytes that fill the capacity fail it too.
pub proof fn lemma_bad_key_gets_no_reply(buf: Seq<u8>, a: int, h: int, k: int)
    requires
        buf.len() < HANDSHAKE_CAPACITY,
        request_bounds(buf) == Some((a, h, k)),
        header_value(buf.subrange(a, h), key1_name()) is Some,
        header_value(buf.subrange(a, h), key2_name()) is Some,
        header_value(buf.subrange(a, h), host_name()) is Some,
        header_value(buf.subrange(a, h), origin_name()) is Some,
        ({
            let k1 = header_value(buf.subrange(a, h), key1_name())->0;
            let k2 = header_value(buf.subrange(a, h), key2_name())->0;
            space_count(k1) == 0 || digit_value(k1) % space_count(k1) != 0
                || space_count(k2) == 0 || digit_value(k2) % space_count(k2) != 0
        }),
    ensures
        request_outcome(buf) == Err::<Option<(Seq<u8>, Seq<u8>, Seq<u8>)>, HandshakeError>(HandshakeError::BadKey),
{
}

/// Bytes that reach the capacity fail the handshake, whatever they hold.
pub proof fn lemma_handshake_bounded(buf: Seq<u8>)
    requires
        buf.len() >= HANDSHAKE_CAPACITY,
    ensures
        request_outcome(buf) == Err::<Option<(Seq<u8>, Seq<u8>, Seq<u8>)>, HandshakeError>(HandshakeError::ExhaustedBuffer),
{
}

/// Reads the handshake request from the bytes received so far.
pub fn read_request(received: &[u8]) -> (r: Result<Option<Challenge>, HandshakeError>)
    ensures
        match (r, request_outcome(received@)) {
            (Ok(None), Ok(None)) => true,
            (Ok(Some(c)), Ok(Some((origin, host, ch)))) => c.origin@ == origin && c.host@ == host
                && c.challenge@ == ch,
            (Err(e), Err(f)) => e == f,
            _ => false,
        },
{
    if received.len() >= HANDSHAKE_CAPACITY {
        return Err(HandshakeError::ExhaustedBuffer);
    }
    let (a, h, k) = match locate_request(received) {
        None => return Ok(None),
        Some(b) => b,
    };
    let req = slice_of(received, a, h);
    let k1 = find_header(req.as_slice(), "Sec-WebSocket-Key1".as_bytes());
    let k2 = find_header(req.as_slice(), "Sec-WebSocket-Key2".as_bytes());
    let host = find_header(req.as_slice(), "Host".as_bytes());
    let origin = find_header(req.as_slice(), "Origin".as_bytes());
    match (k1, k2, host, origin) {
        (Some(k1), Some(k2), Some(host), Some(origin)) => {
            match (key_number(k1.as_slice()), key_number(k2.as_slice())) {
                (Some(p1), Some(p2)) => {
                    let mut ch: Vec<u8> = Vec::new();
                    push_be(&mut ch, p1);
                    push_be(&mut ch, p2);
                    let key3 = slice_of(received, k, k + 8);
                    extend(&mut ch, key3.as_slice());
                    Ok(Some(Challenge { origin, host, challenge: ch }))
                },
                _ => Err(HandshakeError::BadKey),
            }
        },
        _ => Err(HandshakeError::MissingHeader),
    }
}

pub open spec fn reply_head() -> Seq<u8> {
    "HTTP/1.1 101 WebSocket Protocol Handshake\r\nUpgrade: WebSocket\r\nConnection: Upgrade\r\nSec-WebSocket-Origin: ".spec_bytes()
}

pub open spec fn reply_location() -> Seq<u8> {
    "\r\nSec-WebSocket-Location: ws://".spec_bytes()
}

pub open spec fn reply_tail() -> Seq<u8> {
    "/\r\n\r\n".spec_bytes()
}

/// The reply that completes the handshake.
pub open spec fn reply_bytes(origin: Seq<u8>, host: Seq<u8>, digest: Seq<u8>) -> Seq<u8> {
    reply_head() + origin + reply_location() + host + reply_tail() + digest
}

/// Writes the reply for a request, given the digest of its challenge.
pub fn handshake_reply(origin: &[u8], host: &[u8], digest: &[u8]) -> (r: Vec<u8>)
    ensures
        r@ == reply_bytes(origin@, host@, digest@),
{
    let mut out: Vec<u8> = Vec::new();
    extend(&mut out, "HTTP/1.1 101 WebSocket Protocol Handshake\r\nUpgrade: WebSocket\r\nConnection: Upgrade\r\nSec-WebSocket-Origin: ".as_bytes());
    extend(&mut out, origin);
    extend(&mut out, "\r\nSec-WebSocket-Location: ws://".as_bytes());
    extend(&mut out, host);
    extend(&mut out, "/\r\n\r\n".as_bytes());
    extend(&mut out, digest);
    out
}

/// What `md5::compute` gives for some bytes.
pub uninterp spec fn md5_of(data: Seq<u8>) -> Seq<u8>;

/// Relies on `md5::compute`: the MD5 digest of the bytes, sixteen of them.
#[verifier::external_body]
fn md5_digest(data: &[u8]) -> (r: Vec<u8>)
    ensures
        r@ == md5_of(data@),
        r@.len() == 16,
{
    md5::compute(data).0.to_vec()
}

/// Handles the bytes received so far on a legacy connection: `Ok(None)`
/// while the request is incomplete, else the reply to write.
pub fn handshake_response(received: &[u8]) -> (r: Result<Option<Vec<u8>>, HandshakeError>)
    ensures
        match (r, request_outcome(received@)) {
            (Ok(None), Ok(None)) => true,
            (Ok(Some(v)), Ok(Some((origin, host, ch)))) => v@ == reply_bytes(origin, host, md5_of(ch)),
            (Err(e), Err(f)) => e == f,
            _ => false,
        },
{
    match read_request(received) {
        Ok(None) => Ok(None),
        Ok(Some(c)) => {
            let digest = md5_digest(c.challenge.as_slice());
            Ok(Some(handshake_reply(c.origin.as_slice(), c.host.as_slice(), digest.as_slice())))
        },
        Err(e) => Err(e),
    }
}

} // verus!
