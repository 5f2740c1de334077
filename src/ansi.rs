//! Conversion of ANSI SGR escape sequences into HTML `<span>` markup.

use vstd::prelude::*;
use crate::text::{push_str, chars_of, string_of};

verus! {

/// The escape character that starts every SGR sequence.
pub const ESC: char = '\x1B';

/// The rendering attributes in force at one point of the text.
#[derive(Clone, Copy, PartialEq, Eq, Structural, Debug)]
pub struct Styles {
    pub background: Option<u8>,
    pub blink: bool,
    pub bold: bool,
    pub color: Option<u8>,
    pub inverse: bool,
    pub italic: bool,
    pub strikethrough: bool,
    pub underline: bool,
}

/// No attribute set.
pub open spec fn plain() -> Styles {
    Styles {
        background: None,
        blink: false,
        bold: false,
        color: None,
        inverse: false,
        italic: false,
        strikethrough: false,
        underline: false,
    }
}

impl Styles {
    /// Colour indices name one of the eight standard colours.
    pub open spec fn wf(self) -> bool {
        &&& (self.background is Some ==> self.background->0 < 8)
        &&& (self.color is Some ==> self.color->0 < 8)
    }

    /// A snapshot with no attribute set.
    pub fn new() -> (r: Styles)
        ensures
            r == plain(),
    {
        Styles {
            background: None,
            blink: false,
            bold: false,
            color: None,
            inverse: false,
            italic: false,
            strikethrough: false,
            underline: false,
        }
    }

    /// The snapshot after applying one SGR code.
    pub fn with_code(&self, code: u32) -> (r: Styles)
        requires
            self.wf(),
        ensures
            r == apply_code(*self, code as int),
            r.wf(),
    {
        let s = *self;
        match code {
            0 => Styles::new(),
            1 => Styles { bold: true, ..s },
            3 => Styles { italic: true, ..s },
            4 | 21 => Styles { underline: true, ..s },
            5 | 6 => Styles { blink: true, ..s },
            7 => Styles { inverse: true, ..s },
            9 => Styles { strikethrough: true, ..s },
            2 | 22 => Styles { bold: false, ..s },
            23 => Styles { italic: false, ..s },
            24 => Styles { underline: false, ..s },
            25 => Styles { blink: false, ..s },
            27 => Styles { inverse: false, ..s },
            29 => Styles { strikethrough: false, ..s },
            30..=37 => Styles { color: Some((code - 30) as u8), ..s },
            39 => Styles { color: None, ..s },
            40..=47 => Styles { background: Some((code - 40) as u8), ..s },
            49 => Styles { background: None, ..s },
            _ => s,
        }
    }
}

/// The effect of one SGR code; codes outside the table change nothing.
pub open spec fn apply_code(st: Styles, code: int) -> Styles {
    if code == 0 {
        plain()
    } else if code == 1 {
        Styles { bold: true, ..st }
    } else if code == 3 {
        Styles { italic: true, ..st }
    } else if code == 4 || code == 21 {
        Styles { underline: true, ..st }
    } else if code == 5 || code == 6 {
        Styles { blink: true, ..st }
    } else if code == 7 {
        Styles { inverse: true, ..st }
    } else if code == 9 {
        Styles { strikethrough: true, ..st }
    } else if code == 2 || code == 22 {
        Styles { bold: false, ..st }
    } else if code == 23 {
        Styles { italic: false, ..st }
    } else if code == 24 {
        Styles { underline: false, ..st }
    } else if code == 25 {
        Styles { blink: false, ..st }
    } else if code == 27 {
        Styles { inverse: false, ..st }
    } else if code == 29 {
        Styles { strikethrough: false, ..st }
    } else if 30 <= code <= 37 {
        Styles { color: Some((code - 30) as u8), ..st }
    } else if code == 39 {
        Styles { color: None, ..st }
    } else if 40 <= code <= 47 {
        Styles { background: Some((code - 40) as u8), ..st }
    } else if code == 49 {
        Styles { background: None, ..st }
    } else {
        st
    }
}

/// An ASCII decimal digit. Only these are read as SGR parameters: a
/// sequence written with other Unicode digits is left in the text.
pub open spec fn is_digit(c: char) -> bool {
    '0' <= c <= '9'
}

/// End of the parameter list `d+(;d+)*` that continues at `i`.
pub open spec fn params_end(s: Seq<char>, i: int) -> int
    decreases s.len() - i,
{
    if 0 <= i < s.len() && is_digit(s[i]) {
        params_end(s, i + 1)
    } else if 0 <= i && i + 1 < s.len() && s[i] == ';' && is_digit(s[i + 1]) {
        params_end(s, i + 1)
    } else {
        i
    }
}

/// Length of the SGR sequence `ESC [ d+(;d+)* m` that starts at `i`, or 0.
pub open spec fn sgr_len(s: Seq<char>, i: int) -> int {
    if 0 <= i && i + 2 < s.len() && s[i] == ESC && s[i + 1] == '[' && is_digit(s[i + 2]) {
        let p = params_end(s, i + 2);
        if p < s.len() && s[p] == 'm' {
            p + 1 - i
        } else {
            0
        }
    } else {
        0
    }
}

/// End of the maximal run of back-to-back SGR sequences that starts at `i`.
pub open spec fn run_end(s: Seq<char>, i: int) -> int
    decreases s.len() - i,
{
    if sgr_len(s, i) > 0 && i + sgr_len(s, i) <= s.len() {
        run_end(s, i + sgr_len(s, i))
    } else {
        i
    }
}

/// The accumulator of a code after one more digit; every value past 255 is
/// kept as 256, which no table entry names.
pub open spec fn push_digit(acc: int, c: char) -> int {
    let v = (if acc < 0 { 0 } else { acc }) * 10 + (c as int - '0' as int);
    if v > 256 { 256 } else { v }
}

/// Applies, in order, the numeric codes written in `s[i..e]` to `st`; `acc`
/// is the code being read (`-1` when none is).
pub open spec fn apply_span(s: Seq<char>, i: int, e: int, st: Styles, acc: int) -> Styles
    decreases e - i,
{
    if i >= e {
        if acc >= 0 { apply_code(st, acc) } else { st }
    } else if is_digit(s[i]) {
        apply_span(s, i + 1, e, st, push_digit(acc, s[i]))
    } else {
        apply_span(s, i + 1, e, if acc >= 0 { apply_code(st, acc) } else { st }, -1)
    }
}

pub open spec fn bg_class(i: u8) -> Seq<char> {
    if i == 0 { "tnc_bg_black "@ }
    else if i == 1 { "tnc_bg_red "@ }
    else if i == 2 { "tnc_bg_green "@ }
    else if i == 3 { "tnc_bg_yellow "@ }
    else if i == 4 { "tnc_bg_blue "@ }
    else if i == 5 { "tnc_bg_magenta "@ }
    else if i == 6 { "tnc_bg_cyan "@ }
    else { "tnc_bg_silver "@ }
}

pub open spec fn fg_class(i: u8) -> Seq<char> {
    if i == 0 { "tnc_black "@ }
    else if i == 1 { "tnc_red "@ }
    else if i == 2 { "tnc_green "@ }
    else if i == 3 { "tnc_yellow "@ }
    else if i == 4 { "tnc_blue "@ }
    else if i == 5 { "tnc_magenta "@ }
    else if i == 6 { "tnc_cyan "@ }
    else { "tnc_white "@ }
}

pub open spec fn opt_class(on: bool, c: Seq<char>) -> Seq<char> {
    if on { c } else { Seq::empty() }
}

/// The class names of a snapshot, each followed by a space, in the fixed
/// order background, blink, inverse, strikethrough, underline, bold,
/// foreground, italic.
pub open spec fn class_list(st: Styles) -> Seq<char> {
    (if st.background is Some { bg_class(st.background->0) } else { Seq::empty() })
        + opt_class(st.blink, "tnc_blink "@)
        + opt_class(st.inverse, "tnc_inverse "@)
        + opt_class(st.strikethrough, "tnc_line_through "@)
        + opt_class(st.underline, "tnc_underline "@)
        + opt_class(st.bold, "tnc_bold "@)
        + (if st.color is Some { fg_class(st.color->0) } else { Seq::empty() })
        + opt_class(st.italic, "tnc_italic "@)
}

pub open spec fn trim_last_space(c: Seq<char>) -> Seq<char> {
    if c.len() > 0 && c.last() == ' ' { c.drop_last() } else { c }
}

pub open spec fn open_tag(st: Styles) -> Seq<char> {
    "<span class=\""@ + trim_last_space(class_list(st)) + "\">"@
}

pub open spec fn close_tag() -> Seq<char> {
    "</span>"@
}

/// The output for `s[i..]`, given the snapshot in force and whether no
/// style block has been opened yet.
pub open spec fn render_from(s: Seq<char>, i: int, st: Styles, first: bool) -> Seq<char>
    decreases s.len() - i,
{
    if i < 0 || i >= s.len() {
        close_tag()
    } else if sgr_len(s, i) > 0 && run_end(s, i) > i && run_end(s, i) <= s.len() {
        let e = run_end(s, i);
        let ns = apply_span(s, i, e, st, -1);
        if ns == st {
            render_from(s, e, st, first)
        } else {
            (if first { Seq::empty() } else { close_tag() }) + open_tag(ns) + render_from(s, e, ns, false)
        }
    } else {
        seq![s[i]] + render_from(s, i + 1, st, first)
    }
}

/// The HTML rendering of `s`: every run of SGR sequences becomes a style
/// transition (or nothing, when it changes no attribute), and one closing
/// tag ends the text.
pub open spec fn render(s: Seq<char>) -> Seq<char> {
    render_from(s, 0, plain(), true)
}

proof fn lemma_plain_from(s: Seq<char>, i: int, st: Styles, first: bool)
    requires
        0 <= i <= s.len(),
        forall|k: int| 0 <= k < s.len() ==> sgr_len(s, k) == 0,
    ensures
        render_from(s, i, st, first) == s.subrange(i, s.len() as int) + close_tag(),
    decreases s.len() - i,
{
    if i < s.len() {
        lemma_plain_from(s, i + 1, st, first);
        assert(s.subrange(i, s.len() as int) =~= seq![s[i]] + s.subrange(i + 1, s.len() as int));
    } else {
        assert(s.subrange(i, s.len() as int) =~= Seq::<char>::empty());
    }
}

/// Text without any SGR sequence is returned unchanged, followed by exactly
/// one closing tag.
pub proof fn lemma_render_without_sgr(s: Seq<char>)
    requires
        forall|k: int| 0 <= k < s.len() ==> sgr_len(s, k) == 0,
    ensures
        render(s) == s + close_tag(),
{
    lemma_plain_from(s, 0, plain(), true);
    assert(s.subrange(0, s.len() as int) =~= s);
}

/// Code 0 clears every attribute, and a second code 0 changes nothing more.
pub proof fn lemma_reset_twice(st: Styles)
    ensures
        apply_code(st, 0) == plain(),
        apply_code(apply_code(st, 0), 0) == apply_code(st, 0),
{
}

/// A run of SGR sequences that leaves the attributes as they were emits
/// nothing: in particular a reset while nothing is set.
pub proof fn lemma_unchanged_run_is_dropped(s: Seq<char>, i: int, st: Styles, first: bool)
    requires
        0 <= i < s.len(),
        sgr_len(s, i) > 0,
        apply_span(s, i, run_end(s, i), st, -1) == st,
    ensures
        run_end(s, i) > i,
        render_from(s, i, st, first) == render_from(s, run_end(s, i), st, first),
{
    lemma_run_end_ge(s, i + sgr_len(s, i));
    lemma_params_end_bounded(s, i + 2);
}

proof fn lemma_params_end_bounded(s: Seq<char>, i: int)
    requires
        0 <= i <= s.len(),
    ensures
        i <= params_end(s, i) <= s.len(),
    decreases s.len() - i,
{
    if i < s.len() && is_digit(s[i]) {
        lemma_params_end_bounded(s, i + 1);
    } else if i + 1 < s.len() && s[i] == ';' && is_digit(s[i + 1]) {
        lemma_params_end_bounded(s, i + 1);
    }
}

proof fn lemma_run_end_ge(s: Seq<char>, i: int)
    ensures
        run_end(s, i) >= i,
        i <= s.len() ==> run_end(s, i) <= s.len(),
    decreases s.len() - i,
{
    if sgr_len(s, i) > 0 && i + sgr_len(s, i) <= s.len() {
        lemma_run_end_ge(s, i + sgr_len(s, i));
    }
}

fn digit(c: char) -> (r: bool)
    ensures
        r == is_digit(c),
{
    '0' <= c && c <= '9'
}

fn params_end_at(v: &Vec<char>, i: usize) -> (r: usize)
    requires
        i <= v.len(),
    ensures
        r == params_end(v@, i as int),
        i <= r <= v.len(),
{
    let mut j: usize = i;
    while j < v.len() && (digit(v[j]) || (j + 1 < v.len() && v[j] == ';' && digit(v[j + 1])))
        invariant
            i <= j <= v.len(),
            params_end(v@, j as int) == params_end(v@, i as int),
        decreases v.len() - j,
    {
        j += 1;
    }
    j
}

fn sgr_len_at(v: &Vec<char>, i: usize) -> (r: usize)
    requires
        i <= v.len(),
    ensures
        r == sgr_len(v@, i as int),
        r > 0 ==> i + r <= v.len(),
{
    if i < v.len() && v.len() - i > 2 && v[i] == ESC && v[i + 1] == '[' && digit(v[i + 2]) {
        let p = params_end_at(v, i + 2);
        if p < v.len() && v[p] == 'm' {
            p + 1 - i
        } else {
            0
        }
    } else {
        0
    }
}

fn run_end_at(v: &Vec<char>, i: usize) -> (r: usize)
    requires
        i <= v.len(),
    ensures
        r == run_end(v@, i as int),
        i <= r <= v.len(),
{
    let mut j: usize = i;
    loop
        invariant
            i <= j <= v.len(),
            run_end(v@, j as int) == run_end(v@, i as int),
        ensures
            j == run_end(v@, i as int),
            i <= j <= v.len(),
        decreases v.len() - j,
    {
        let n = sgr_len_at(v, j);
        if n == 0 {
            break;
        }
        j = j + n;
    }
    j
}

/// Applies the codes written in `v[i..e]`, in order, to `st`.
fn apply_codes(v: &Vec<char>, i: usize, e: usize, st: Styles) -> (r: Styles)
    requires
        i <= e <= v.len(),
        st.wf(),
    ensures
        r == apply_span(v@, i as int, e as int, st, -1),
        r.wf(),
{
    let mut cur = st;
    let mut acc: i32 = -1;
    let mut j: usize = i;
    while j < e
        invariant
            i <= j <= e <= v.len(),
            -1 <= acc <= 256,
            cur.wf(),
            apply_span(v@, j as int, e as int, cur, acc as int) == apply_span(v@, i as int, e as int, st, -1),
        decreases e - j,
    {
        let c = v[j];
        if digit(c) {
            let base: i32 = if acc < 0 { 0 } else { acc };
            let d = ((c as u32) - ('0' as u32)) as i32;
            let nv = base * 10 + d;
            acc = if nv > 256 { 256 } else { nv };
        } else {
            if acc >= 0 {
                cur = cur.with_code(acc as u32);
            }
            acc = -1;
        }
        j += 1;
    }
    if acc >= 0 {
        cur = cur.with_code(acc as u32);
    }
    cur
}

fn bg_name(i: u8) -> (r: &'static str)
    ensures
        r@ == bg_class(i),
{
    match i {
        0 => "tnc_bg_black ",
        1 => "tnc_bg_red ",
        2 => "tnc_bg_green ",
        3 => "tnc_bg_yellow ",
        4 => "tnc_bg_blue ",
        5 => "tnc_bg_magenta ",
        6 => "tnc_bg_cyan ",
        _ => "tnc_bg_silver ",
    }
}

fn fg_name(i: u8) -> (r: &'static str)
    ensures
        r@ == fg_class(i),
{
    match i {
        0 => "tnc_black ",
        1 => "tnc_red ",
        2 => "tnc_green ",
        3 => "tnc_yellow ",
        4 => "tnc_blue ",
        5 => "tnc_magenta ",
        6 => "tnc_cyan ",
        _ => "tnc_white ",
    }
}

fn push_opt(out: &mut Vec<char>, on: bool, c: &str)
    ensures
        final(out)@ == old(out)@ + opt_class(on, c@),
{
    if on {
        push_str(out, c);
    } else {
        assert(out@ =~= out@ + opt_class(on, c@));
    }
}

fn class_names(st: Styles) -> (r: Vec<char>)
    ensures
        r@ == class_list(st),
{
    let mut cls: Vec<char> = Vec::new();
    match st.background {
        Some(b) => push_str(&mut cls, bg_name(b)),
        None => {},
    }
    let ghost bg = if st.background is Some { bg_class(st.background->0) } else { Seq::<char>::empty() };
    assert(cls@ =~= bg);
    push_opt(&mut cls, st.blink, "tnc_blink ");
    push_opt(&mut cls, st.inverse, "tnc_inverse ");
    push_opt(&mut cls, st.strikethrough, "tnc_line_through ");
    push_opt(&mut cls, st.underline, "tnc_underline ");
    push_opt(&mut cls, st.bold, "tnc_bold ");
    let ghost mid = cls@;
    match st.color {
        Some(c) => push_str(&mut cls, fg_name(c)),
        None => {},
    }
    assert(cls@ =~= mid + (if st.color is Some { fg_class(st.color->0) } else { Seq::<char>::empty() }));
    push_opt(&mut cls, st.italic, "tnc_italic ");
    cls
}

fn push_open_tag(out: &mut Vec<char>, st: Styles)
    ensures
        final(out)@ == old(out)@ + open_tag(st),
{
    let mut cls = class_names(st);
    if cls.len() > 0 && cls[cls.len() - 1] == ' ' {
        cls.pop();
    }
    let ghost trimmed = cls@;
    assert(trimmed =~= trim_last_space(class_list(st)));
    let ghost before = out@;
    push_str(out, "<span class=\"");
    let ghost mid = out@;
    out.append(&mut cls);
    assert(out@ =~= mid + trimmed);
    push_str(out, "\">");
    assert(out@ =~= before + open_tag(st));
}

/// Renders the SGR escape sequences of `text` as HTML `<span>` blocks with
/// `tnc_*` classes. Rendering starts from no style at every call.
pub fn ansi2html(text: &str) -> (r: String)
    ensures
        r@ == render(text@),
{
    let v = chars_of(text);
    let mut out: Vec<char> = Vec::new();
    let mut st = Styles::new();
    let mut first = true;
    let mut i: usize = 0;
    while i < v.len()
        invariant
            i <= v.len(),
            v@ == text@,
            st.wf(),
            out@ + render_from(v@, i as int, st, first) == render(v@),
        decreases v.len() - i,
    {
        let n = sgr_len_at(&v, i);
        if n > 0 {
            let e = run_end_at(&v, i);
            proof {
                lemma_run_end_ge(v@, (i + n) as int);
            }
            let ns = apply_codes(&v, i, e, st);
            if ns != st {
                let ghost before = out@;
                if !first {
                    push_str(&mut out, "</span>");
                }
                push_open_tag(&mut out, ns);
                assert(out@ =~= before + (if first { Seq::empty() } else { close_tag() }) + open_tag(ns));
                st = ns;
                first = false;
            }
            i = e;
        } else {
            out.push(v[i]);
            i += 1;
        }
    }
    push_str(&mut out, "</span>");
    string_of(out.as_slice())
}

proof fn lemma_params_suffix(s: Seq<char>, q: int, k: int)
    requires
        0 <= q <= k <= s.len(),
    ensures
        params_end(s, k) == params_end(s.subrange(q, s.len() as int), k - q) + q,
    decreases s.len() - k,
{
    let u = s.subrange(q, s.len() as int);
    if k < s.len() {
        assert(u[k - q] == s[k]);
        if k + 1 < s.len() {
            assert(u[k + 1 - q] == s[k + 1]);
        }
        lemma_params_suffix(s, q, k + 1);
    }
}

proof fn lemma_sgr_suffix(s: Seq<char>, q: int, k: int)
    requires
        0 <= q <= k <= s.len(),
    ensures
        sgr_len(s, k) == sgr_len(s.subrange(q, s.len() as int), k - q),
{
    let u = s.subrange(q, s.len() as int);
    if k + 2 < s.len() {
        assert(u[k - q] == s[k] && u[k + 1 - q] == s[k + 1] && u[k + 2 - q] == s[k + 2]);
        lemma_params_suffix(s, q, k + 2);
        lemma_params_end_bounded(s, k + 2);
        let p = params_end(s, k + 2);
        if p < s.len() {
            assert(u[p - q] == s[p]);
        }
    }
}

proof fn lemma_run_suffix(s: Seq<char>, q: int, k: int)
    requires
        0 <= q <= k <= s.len(),
    ensures
        run_end(s, k) == run_end(s.subrange(q, s.len() as int), k - q) + q,
    decreases s.len() - k,
{
    lemma_sgr_suffix(s, q, k);
    if sgr_len(s, k) > 0 && k + sgr_len(s, k) <= s.len() {
        lemma_run_suffix(s, q, k + sgr_len(s, k));
    }
}

proof fn lemma_span_agree(s: Seq<char>, t: Seq<char>, k: int, ds: int, e: int, st: Styles, acc: int)
    requires
        0 <= k,
        0 <= k - ds,
        e <= s.len(),
        e - ds <= t.len(),
        forall|j: int| k <= j < e ==> s[j] == t[j - ds],
    ensures
        apply_span(s, k, e, st, acc) == apply_span(t, k - ds, e - ds, st, acc),
    decreases e - k,
{
    if k < e {
        assert(s[k] == t[k - ds]);
        if is_digit(s[k]) {
            lemma_span_agree(s, t, k + 1, ds, e, st, push_digit(acc, s[k]));
        } else {
            lemma_span_agree(s, t, k + 1, ds, e, if acc >= 0 { apply_code(st, acc) } else { st }, -1);
        }
    }
}

proof fn lemma_render_suffix(s: Seq<char>, q: int, k: int, st: Styles, first: bool)
    requires
        0 <= q <= k <= s.len(),
    ensures
        render_from(s, k, st, first) == render_from(s.subrange(q, s.len() as int), k - q, st, first),
    decreases s.len() - k,
{
    let u = s.subrange(q, s.len() as int);
    if k < s.len() {
        lemma_sgr_suffix(s, q, k);
        lemma_run_suffix(s, q, k);
        let e = run_end(s, k);
        if sgr_len(s, k) > 0 && e > k && e <= s.len() {
            lemma_span_agree(s, u, k, q, e, st, -1);
            let ns = apply_span(s, k, e, st, -1);
            if ns == st {
                lemma_render_suffix(s, q, e, st, first);
            } else {
                lemma_render_suffix(s, q, e, ns, false);
            }
        } else {
            assert(u[k - q] == s[k]);
            lemma_render_suffix(s, q, k + 1, st, first);
        }
    }
}

proof fn lemma_params_agree(s: Seq<char>, t: Seq<char>, k: int, m: int)
    requires
        0 <= k <= m < s.len(),
        m < t.len(),
        forall|j: int| k <= j <= m ==> s[j] == t[j],
        !is_digit(s[m]),
        s[m] != ';',
    ensures
        params_end(s, k) == params_end(t, k),
        params_end(s, k) <= m,
    decreases m - k,
{
    if k < m {
        assert(s[k] == t[k] && s[k + 1] == t[k + 1]);
        if is_digit(s[k]) || (s[k] == ';' && is_digit(s[k + 1])) {
            lemma_params_agree(s, t, k + 1, m);
        }
    } else {
        assert(s[k] == t[k]);
    }
}

/// The span that ends with `b`, where `s[b-3..b]` is a non-digit, `0`,
/// `m`, leaves no attribute, whatever came before it.
proof fn lemma_span_ends_plain(s: Seq<char>, k: int, b: int, e: int, st: Styles, acc: int)
    requires
        0 <= k <= b - 3,
        b <= e <= s.len(),
        !is_digit(s[b - 3]),
        s[b - 2] == '0',
        s[b - 1] == 'm',
    ensures
        apply_span(s, k, e, st, acc) == apply_span(s, b, e, plain(), -1),
    decreases b - 3 - k,
{
    if k < b - 3 {
        if is_digit(s[k]) {
            lemma_span_ends_plain(s, k + 1, b, e, st, push_digit(acc, s[k]));
        } else {
            lemma_span_ends_plain(s, k + 1, b, e, if acc >= 0 { apply_code(st, acc) } else { st }, -1);
        }
    } else {
        let st1 = if acc >= 0 { apply_code(st, acc) } else { st };
        assert(apply_span(s, k, e, st, acc) == apply_span(s, b - 2, e, st1, -1));
        assert(push_digit(-1, '0') == 0);
        assert(apply_span(s, b - 2, e, st1, -1) == apply_span(s, b - 1, e, st1, 0));
        assert(apply_span(s, b - 1, e, st1, 0) == apply_span(s, b, e, apply_code(st1, 0), -1));
    }
}

/// An SGR sequence on its own whose last code is 0.
pub open spec fn ends_in_reset(a: Seq<char>) -> bool {
    &&& a.len() >= 4
    &&& sgr_len(a, 0) == a.len()
    &&& a[a.len() - 2] == '0'
    &&& !is_digit(a[a.len() - 3])
}

/// `ESC [ 0 m`.
pub open spec fn reset_sequence() -> Seq<char> {
    seq![ESC, '[', '0', 'm']
}

proof fn lemma_reset_sequence()
    ensures
        ends_in_reset(reset_sequence()),
{
    let b = reset_sequence();
    assert(params_end(b, 3) == 3);
    assert(params_end(b, 2) == 3);
}

proof fn lemma_head(a: Seq<char>, t: Seq<char>)
    requires
        ends_in_reset(a),
    ensures
        sgr_len(a + t, 0) == a.len(),
        a[0] == ESC,
        a[1] == '[',
{
    let at = a + t;
    lemma_params_end_bounded(a, 2);
    let p = params_end(a, 2);
    assert forall|j: int| 2 <= j <= p implies a[j] == at[j] by {}
    lemma_params_agree(a, at, 2, p);
}

proof fn lemma_middle(s: Seq<char>, a: Seq<char>, t: Seq<char>)
    requires
        ends_in_reset(a),
    ensures
        sgr_len(s + a + t, s.len() as int) == a.len(),
        run_end(s + a + t, s.len() as int) == run_end(t, 0) + s.len() + a.len(),
        run_end(t, 0) >= 0,
        (s + a + t)[s.len() as int] == ESC,
        (s + a + t)[s.len() as int + 1] == '[',
{
    let x = s + a + t;
    let n = s.len() as int;
    lemma_head(a, t);
    lemma_sgr_suffix(x, n, n);
    assert(x.subrange(n, x.len() as int) =~= a + t);
    lemma_run_suffix(x, n + a.len(), n + a.len());
    assert(x.subrange(n + a.len(), x.len() as int) =~= t);
    lemma_run_end_ge(t, 0);
}

proof fn lemma_sgr_prefix(s: Seq<char>, a: Seq<char>, b: Seq<char>, t: Seq<char>, i: int)
    requires
        ends_in_reset(a),
        ends_in_reset(b),
        0 <= i < s.len(),
    ensures
        sgr_len(s + a + t, i) == sgr_len(s + b + t, i),
        sgr_len(s + a + t, i) > 0 ==> i + sgr_len(s + a + t, i) <= s.len(),
        sgr_len(s + a + t, i) >= 0,
{
    let x = s + a + t;
    let y = s + b + t;
    let n = s.len() as int;
    lemma_middle(s, a, t);
    lemma_middle(s, b, t);
    assert forall|j: int| 0 <= j <= n + 1 implies x[j] == y[j] by {
        if j < n {
            assert(x[j] == s[j] && y[j] == s[j]);
        }
    }
    if i + 2 < x.len() {
        lemma_params_end_bounded(x, i + 2);
    }
    if x[i] == ESC && x[i + 1] == '[' && is_digit(x[i + 2]) {
        lemma_params_agree(x, y, i + 2, n);
        lemma_params_end_bounded(x, i + 2);
        let p = params_end(x, i + 2);
        assert(x[p] == y[p]);
    }
}

proof fn lemma_run_prefix(s: Seq<char>, a: Seq<char>, b: Seq<char>, t: Seq<char>, i: int)
    requires
        ends_in_reset(a),
        ends_in_reset(b),
        0 <= i <= s.len(),
    ensures
        ({
            let rx = run_end(s + a + t, i);
            let ry = run_end(s + b + t, i);
            (rx == ry && rx < s.len()) || (rx - a.len() == ry - b.len() && ry >= s.len() + b.len())
        }),
    decreases s.len() - i,
{
    lemma_middle(s, a, t);
    lemma_middle(s, b, t);
    if i < s.len() {
        lemma_sgr_prefix(s, a, b, t, i);
        let l = sgr_len(s + a + t, i);
        if l > 0 {
            lemma_run_prefix(s, a, b, t, i + l);
        }
    }
}

proof fn lemma_span_prefix(s: Seq<char>, a: Seq<char>, b: Seq<char>, t: Seq<char>, k: int, ex: int, st: Styles, acc: int)
    requires
        ends_in_reset(a),
        ends_in_reset(b),
        0 <= k <= s.len(),
        s.len() + a.len() <= ex <= s.len() + a.len() + t.len(),
    ensures
        apply_span(s + a + t, k, ex, st, acc) == apply_span(s + b + t, k, ex - a.len() + b.len(), st, acc),
    decreases s.len() - k,
{
    let x = s + a + t;
    let y = s + b + t;
    let n = s.len() as int;
    let ey = ex - a.len() + b.len();
    lemma_middle(s, a, t);
    lemma_middle(s, b, t);
    if k < n {
        assert(x[k] == s[k] && y[k] == s[k]);
        if is_digit(x[k]) {
            lemma_span_prefix(s, a, b, t, k + 1, ex, st, push_digit(acc, x[k]));
        } else {
            lemma_span_prefix(s, a, b, t, k + 1, ex, if acc >= 0 { apply_code(st, acc) } else { st }, -1);
        }
    } else {
        let st1 = if acc >= 0 { apply_code(st, acc) } else { st };
        assert(apply_span(x, k, ex, st, acc) == apply_span(x, n + 1, ex, st1, -1));
        assert(apply_span(y, k, ey, st, acc) == apply_span(y, n + 1, ey, st1, -1));
        lemma_span_ends_plain(x, n + 1, n + a.len(), ex, st1, -1);
        lemma_span_ends_plain(y, n + 1, n + b.len(), ey, st1, -1);
        lemma_span_agree(x, t, n + a.len(), n + a.len(), ex, plain(), -1);
        lemma_span_agree(y, t, n + b.len(), n + b.len(), ey, plain(), -1);
    }
}

#[verifier::rlimit(60)]
#[verifier::spinoff_prover]
proof fn lemma_render_prefix(s: Seq<char>, a: Seq<char>, b: Seq<char>, t: Seq<char>, i: int, st: Styles, first: bool)
    requires
        ends_in_reset(a),
        ends_in_reset(b),
        0 <= i <= s.len(),
    ensures
        render_from(s + a + t, i, st, first) == render_from(s + b + t, i, st, first),
    decreases s.len() - i,
{
    let x = s + a + t;
    let y = s + b + t;
    let n = s.len() as int;
    lemma_middle(s, a, t);
    lemma_middle(s, b, t);
    lemma_run_prefix(s, a, b, t, i);
    lemma_run_end_ge(x, i);
    lemma_run_end_ge(y, i);
    let ex = run_end(x, i);
    let ey = run_end(y, i);
    if i < n {
        lemma_sgr_prefix(s, a, b, t, i);
    }
    if i < n && sgr_len(x, i) == 0 {
        assert(x[i] == s[i] && y[i] == s[i]);
        lemma_render_prefix(s, a, b, t, i + 1, st, first);
    } else {
        if i < n {
            lemma_run_end_ge(x, i + sgr_len(x, i));
            assert(ex == run_end(x, i + sgr_len(x, i)));
        } else {
            assert(ex == run_end(t, 0) + n + a.len());
        }
        assert(ex > i);
        if ex < n {
            lemma_span_agree(x, y, i, 0, ex, st, -1);
            let ns = apply_span(x, i, ex, st, -1);
            if ns == st {
                lemma_render_prefix(s, a, b, t, ex, st, first);
            } else {
                lemma_render_prefix(s, a, b, t, ex, ns, false);
            }
        } else {
            lemma_span_prefix(s, a, b, t, i, ex, st, -1);
            let ns = apply_span(x, i, ex, st, -1);
            let st2 = if ns == st { st } else { ns };
            let f2 = if ns == st { first } else { false };
            lemma_render_suffix(x, n + a.len(), ex, st2, f2);
            lemma_render_suffix(y, n + b.len(), ey, st2, f2);
            assert(x.subrange(n + a.len(), x.len() as int) =~= t);
            assert(y.subrange(n + b.len(), y.len() as int) =~= t);
        }
    }
}

/// A code 0 discards every attribute set before it: an SGR sequence whose
/// last code is 0 renders, in any text, exactly as a bare `ESC [ 0 m` would.
pub proof fn lemma_reset_discards_earlier_codes(s: Seq<char>, a: Seq<char>, t: Seq<char>)
    requires
        ends_in_reset(a),
    ensures
        render(s + a + t) == render(s + reset_sequence() + t),
{
    lemma_reset_sequence();
    lemma_render_prefix(s, a, reset_sequence(), t, 0, plain(), true);
}

} // verus!
