//! Character-sequence helpers shared by the renderer and the sanitizer.

use vstd::prelude::*;
use vstd::std_specs::iter::IteratorSpec;
use vstd::utf8::{decode_utf8, valid_utf8};

verus! {

broadcast use {vstd::string::axiom_spec_iter, vstd::string::next_postcondition};

/// The characters of `s`, in order.
pub fn chars_of(s: &str) -> (r: Vec<char>)
    ensures
        r@ == s@,
{
    let mut out: Vec<char> = Vec::new();
    let mut it = s.chars();
    loop
        invariant
            it.obeys_prophetic_iter_laws(),
            out@ + it.remaining() == s@,
            it.decrease() is Some,
        ensures
            out@ == s@,
        decreases it.decrease()->0,
    {
        match it.next() {
            Some(c) => {
                out.push(c);
            },
            None => {
                break;
            },
        }
    }
    out
}

/// Appends the characters of `s` to `out`.
pub fn push_str(out: &mut Vec<char>, s: &str)
    ensures
        final(out)@ == old(out)@ + s@,
{
    let ghost start = out@;
    let ghost mut done: Seq<char> = Seq::empty();
    let mut it = s.chars();
    loop
        invariant
            it.obeys_prophetic_iter_laws(),
            it.decrease() is Some,
            done + it.remaining() == s@,
            out@ == start + done,
        ensures
            out@ == start + s@,
        decreases it.decrease()->0,
    {
        let ghost rest = it.remaining();
        match it.next() {
            Some(c) => {
                out.push(c);
                proof {
                    assert(done.push(c) + it.remaining() =~= done + rest);
                    done = done.push(c);
                    assert(out@ =~= start + done);
                }
            },
            None => {
                assert(done =~= s@);
                break;
            },
        }
    }
}

/// `s[i..]` with every occurrence of `pat` replaced by `rep`, scanning left
/// to right without overlap.
pub open spec fn replace_from(s: Seq<char>, i: int, pat: Seq<char>, rep: Seq<char>) -> Seq<char>
    decreases s.len() - i,
{
    if i < 0 || i >= s.len() {
        Seq::empty()
    } else if pat.len() > 0 && i + pat.len() <= s.len() && s.subrange(i, i + pat.len()) == pat {
        rep + replace_from(s, i + pat.len(), pat, rep)
    } else {
        seq![s[i]] + replace_from(s, i + 1, pat, rep)
    }
}

/// `s` with every occurrence of `pat` replaced by `rep`.
pub open spec fn replaced(s: Seq<char>, pat: Seq<char>, rep: Seq<char>) -> Seq<char> {
    replace_from(s, 0, pat, rep)
}

/// Whether `p` occurs in `v` at `i`.
pub fn matches_at(v: &Vec<char>, i: usize, p: &Vec<char>) -> (r: bool)
    requires
        i <= v.len(),
    ensures
        r == (i + p.len() <= v.len() && v@.subrange(i as int, i + p.len()) == p@),
{
    if p.len() > v.len() - i {
        return false;
    }
    let mut k: usize = 0;
    while k < p.len()
        invariant
            k <= p.len(),
            i + p.len() <= v.len(),
            forall|j: int| 0 <= j < k ==> v@[i + j] == p@[j],
        decreases p.len() - k,
    {
        if v[i + k] != p[k] {
            assert(v@.subrange(i as int, i + p.len())[k as int] != p@[k as int]);
            return false;
        }
        k += 1;
    }
    assert(v@.subrange(i as int, i + p.len()) =~= p@);
    true
}

/// `v` with every occurrence of `pat` replaced by `rep`.
pub fn replace_all(v: &Vec<char>, pat: &str, rep: &str) -> (r: Vec<char>)
    requires
        pat@.len() > 0,
    ensures
        r@ == replaced(v@, pat@, rep@),
{
    let p = chars_of(pat);
    let mut out: Vec<char> = Vec::new();
    let mut i: usize = 0;
    while i < v.len()
        invariant
            i <= v.len(),
            p@ == pat@,
            p@.len() > 0,
            out@ + replace_from(v@, i as int, pat@, rep@) == replaced(v@, pat@, rep@),
        decreases v.len() - i,
    {
        let ghost before = out@;
        if matches_at(v, i, &p) {
            push_str(&mut out, rep);
            i += p.len();
            assert(before + (rep@ + replace_from(v@, i as int, pat@, rep@)) =~= out@ + replace_from(v@, i as int, pat@, rep@));
        } else {
            out.push(v[i]);
            i += 1;
            assert(before + (seq![v@[i - 1]] + replace_from(v@, i as int, pat@, rep@)) =~= out@ + replace_from(v@, i as int, pat@, rep@));
        }
    }
    assert(out@ + replace_from(v@, i as int, pat@, rep@) =~= out@);
    out
}

/// Relies on `String::from_iter` over `char`s: the string holds exactly the
/// given characters, in order.
#[verifier::external_body]
pub fn string_of(v: &[char]) -> (r: String)
    ensures
        r@ == v@,
{
    String::from_iter(v.iter())
}

/// What `String::from_utf8_lossy` makes of a byte sequence.
pub uninterp spec fn lossy_utf8(b: Seq<u8>) -> Seq<char>;

/// Relies on `String::from_utf8_lossy`: the bytes decoded as UTF-8, each
/// invalid sequence replaced by U+FFFD; the result depends on the bytes alone,
/// and valid UTF-8 comes back as the text it encodes.
#[verifier::external_body]
pub fn decode_lossy(b: &[u8]) -> (r: String)
    ensures
        r@ == lossy_utf8(b@),
        valid_utf8(b@) ==> r@ == decode_utf8(b@),
{
    String::from_utf8_lossy(b).into_owned()
}

} // verus!
