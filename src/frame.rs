//! Framing of the legacy WebSocket protocol: `0x00 <utf-8 text> 0xFF` for a
//! message, `0xFF 0x00` to close.

use vstd::prelude::*;
use vstd::string::StringSliceAdditionalSpecFns;
use vstd::utf8::{decode_utf8, valid_utf8};
use crate::text::{decode_lossy, lossy_utf8};

verus! {

/// Room for one incoming frame, delimiter included.
pub const FRAME_CAPACITY: usize = 2048;

/// The byte that ends a frame.
pub const FRAME_END: u8 = 0xFF;

/// Why a frame could not be read.
#[derive(Clone, Copy, PartialEq, Eq, Structural, Debug)]
pub enum FrameError {
    /// The peer closed the connection, or asked to close it.
    ConnectionClosed,
    /// The frame starts with a byte other than `0x00` or `0xFF`.
    MalformedFrame,
    /// More than the capacity arrived without a delimiter.
    LimitReached,
}

impl FrameError {
    pub open spec fn message_text(self) -> Seq<char> {
        match self {
            FrameError::ConnectionClosed => "Connection closed"@,
            FrameError::MalformedFrame => "Malformed frame"@,
            FrameError::LimitReached => "Limit reached"@,
        }
    }

    /// The human-readable text of the error.
    pub fn message(&self) -> (r: &'static str)
        ensures
            r@ == self.message_text(),
    {
        match self {
            FrameError::ConnectionClosed => "Connection closed",
            FrameError::MalformedFrame => "Malformed frame",
            FrameError::LimitReached => "Limit reached",
        }
    }
}

/// The bytes written for one message.
pub open spec fn text_frame(data: Seq<u8>) -> Seq<u8> {
    seq![0x00u8] + data + seq![0xFFu8]
}

/// Wraps a message as a frame.
pub fn encode_frame(data: &str) -> (r: Vec<u8>)
    ensures
        r@ == text_frame(data.spec_bytes()),
{
    let bytes = data.as_bytes();
    let mut out: Vec<u8> = Vec::new();
    out.push(0x00);
    let mut i: usize = 0;
    while i < bytes.len()
        invariant
            i <= bytes@.len(),
            bytes@ == data.spec_bytes(),
            out@ == seq![0x00u8] + bytes@.subrange(0, i as int),
        decreases bytes.len() - i,
    {
        out.push(bytes[i]);
        i += 1;
        assert(out@ =~= seq![0x00u8] + bytes@.subrange(0, i as int));
    }
    out.push(0xFF);
    assert(bytes@.subrange(0, bytes@.len() as int) =~= bytes@);
    assert(out@ =~= text_frame(data.spec_bytes()));
    out
}

/// The bytes written to close the connection.
pub fn close_frame() -> (r: Vec<u8>)
    ensures
        r@ == seq![0xFFu8, 0x00u8],
{
    let mut out: Vec<u8> = Vec::new();
    out.push(0xFF);
    out.push(0x00);
    assert(out@ =~= seq![0xFFu8, 0x00u8]);
    out
}

/// What a completed read gives: the text between the leading `0x00` and the
/// trailing `0xFF`; an empty read or a leading `0xFF` (a close request, or a
/// frame type that is not supported) closes; any other leading byte is a
/// malformed frame.
pub open spec fn frame_outcome(buf: Seq<u8>) -> Result<Seq<char>, FrameError> {
    if buf.len() == 0 || buf[0] == 0xFF {
        Err(FrameError::ConnectionClosed)
    } else if buf[0] != 0x00 {
        Err(FrameError::MalformedFrame)
    } else if buf.len() < 2 || buf.last() != 0xFF {
        Err(FrameError::ConnectionClosed)
    } else {
        Ok(lossy_utf8(buf.subrange(1, buf.len() - 1)))
    }
}

/// Decodes one frame as read up to and including its delimiter.
pub fn decode_frame(buf: &[u8]) -> (r: Result<String, FrameError>)
    ensures
        match (r, frame_outcome(buf@)) {
            (Ok(s), Ok(t)) => s@ == t,
            (Err(e), Err(f)) => e == f,
            _ => false,
        },
        frame_outcome(buf@) is Ok && valid_utf8(buf@.subrange(1, buf@.len() - 1))
            ==> r == Ok::<String, FrameError>(r->Ok_0) && r->Ok_0@ == decode_utf8(buf@.subrange(1, buf@.len() - 1)),
{
    if buf.len() == 0 || buf[0] == 0xFF {
        return Err(FrameError::ConnectionClosed);
    }
    if buf[0] != 0x00 {
        return Err(FrameError::MalformedFrame);
    }
    if buf.len() < 2 || buf[buf.len() - 1] != 0xFF {
        return Err(FrameError::ConnectionClosed);
    }
    let payload = slice_of(buf, 1, buf.len() - 1);
    Ok(decode_lossy(payload.as_slice()))
}

/// `b[start..end]` as a vector.
pub fn slice_of(b: &[u8], start: usize, end: usize) -> (r: Vec<u8>)
    requires
        start <= end <= b@.len(),
    ensures
        r@ == b@.subrange(start as int, end as int),
{
    let mut out: Vec<u8> = Vec::new();
    let mut i: usize = start;
    while i < end
        invariant
            start <= i <= end <= b@.len(),
            out@ == b@.subrange(start as int, i as int),
        decreases end - i,
    {
        out.push(b[i]);
        i += 1;
        assert(out@ =~= b@.subrange(start as int, i as int));
    }
    out
}

/// Index of the first `needle` in `hay`, if any.
pub open spec fn first_index(hay: Seq<u8>, needle: u8) -> Option<int> {
    if exists|i: int| 0 <= i < hay.len() && hay[i] == needle {
        Some(choose|i: int| 0 <= i < hay.len() && hay[i] == needle && forall|j: int| 0 <= j < i ==> hay[j] != needle)
    } else {
        None
    }
}

/// Relies on `memchr::memchr`: the position of the first occurrence of the
/// byte, or `None` when it does not occur.
#[verifier::external_body]
fn find_byte(needle: u8, hay: &[u8]) -> (r: Option<usize>)
    ensures
        match r {
            Some(i) => i < hay@.len() && hay@[i as int] == needle
                && forall|j: int| 0 <= j < i ==> hay@[j] != needle,
            None => forall|j: int| 0 <= j < hay@.len() ==> hay@[j] != needle,
        },
{
    memchr::memchr(needle, hay)
}

/// One step of reading a frame: takes from the bytes now `available` up to
/// and including the first `delim`, appending them to `buf`. Returns whether
/// the frame is complete (the delimiter was taken, or nothing was available:
/// the peer closed) and how many bytes were taken. Fails when `buf` would
/// grow past `max`.
pub fn take_until(buf: &mut Vec<u8>, available: &[u8], delim: u8, max: usize) -> (r: Result<(bool, usize), FrameError>)
    ensures
        match r {
            Ok((done, used)) => {
                &&& used == (match first_index(available@, delim) {
                    Some(i) => i + 1,
                    None => available@.len() as int,
                })
                &&& final(buf)@ == old(buf)@ + available@.subrange(0, used as int)
                &&& final(buf)@.len() <= max
                &&& (forall|j: int| 0 <= j < used - 1 ==> available@[j] != delim)
                &&& (done <==> (used == 0 || available@[used - 1] == delim))
                &&& (!done ==> used == available@.len())
                &&& (done && used > 0 ==> available@[used - 1] == delim)
            },
            Err(e) => {
                &&& e == FrameError::LimitReached
                &&& *final(buf) == *old(buf)
                &&& old(buf)@.len() + (match first_index(available@, delim) {
                    Some(i) => i + 1,
                    None => available@.len() as int,
                }) > max
            },
        },
        r is Ok <==> old(buf)@.len() + (match first_index(available@, delim) {
            Some(i) => i + 1,
            None => available@.len() as int,
        }) <= max,
{
    match find_byte(delim, available) {
        Some(i) => {
            proof {
                assert(available@[i as int] == delim);
                let k = choose|k: int| 0 <= k < available@.len() && available@[k] == delim && forall|j: int| 0 <= j < k ==> available@[j] != delim;
                if k < i {
                } else if k > i {
                }
                assert(k == i);
            }
            if buf.len() > max || i >= max - buf.len() {
                return Err(FrameError::LimitReached);
            }
            let ghost before = buf@;
            let mut j: usize = 0;
            while j <= i
                invariant
                    j <= i + 1,
                    i < available@.len(),
                    buf@ == before + available@.subrange(0, j as int),
                decreases i + 1 - j,
            {
                buf.push(available[j]);
                j += 1;
                assert(buf@ =~= before + available@.subrange(0, j as int));
            }
            assert(first_index(available@, delim) == Some(i as int));
            Ok((true, i + 1))
        },
        None => {
            if buf.len() > max || available.len() > max - buf.len() {
                return Err(FrameError::LimitReached);
            }
            let ghost before = buf@;
            let mut j: usize = 0;
            while j < available.len()
                invariant
                    j <= available@.len(),
                    buf@ == before + available@.subrange(0, j as int),
                decreases available.len() - j,
            {
                buf.push(available[j]);
                j += 1;
                assert(buf@ =~= before + available@.subrange(0, j as int));
            }
            assert(!exists|k: int| 0 <= k < available@.len() && available@[k] == delim);
            assert(buf@ =~= before + available@.subrange(0, available@.len() as int));
            Ok((available.len() == 0, available.len()))
        },
    }
}

} // verus!
