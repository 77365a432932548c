//! Stack traces and their layout.

use vstd::prelude::*;
use crate::error::Pos;
use crate::text::{append, append_str, chars_of, join, joined, string_of, texts};

verus! {

// ---- decimal numbers -----------------------------------------------------

pub open spec fn digit_char(d: nat) -> char {
    if d == 0 {
        '0'
    } else if d == 1 {
        '1'
    } else if d == 2 {
        '2'
    } else if d == 3 {
        '3'
    } else if d == 4 {
        '4'
    } else if d == 5 {
        '5'
    } else if d == 6 {
        '6'
    } else if d == 7 {
        '7'
    } else if d == 8 {
        '8'
    } else {
        '9'
    }
}

/// A number in decimal.
pub open spec fn decimal(n: nat) -> Seq<char>
    decreases n,
{
    if n < 10 {
        seq![digit_char(n)]
    } else {
        decimal(n / 10).push(digit_char(n % 10))
    }
}

fn digit_of(d: usize) -> (r: char)
    requires
        d < 10,
    ensures
        r == digit_char(d as nat),
{
    if d == 0 {
        '0'
    } else if d == 1 {
        '1'
    } else if d == 2 {
        '2'
    } else if d == 3 {
        '3'
    } else if d == 4 {
        '4'
    } else if d == 5 {
        '5'
    } else if d == 6 {
        '6'
    } else if d == 7 {
        '7'
    } else if d == 8 {
        '8'
    } else {
        '9'
    }
}

pub fn to_decimal(n: usize) -> (r: Vec<char>)
    ensures
        r@ == decimal(n as nat),
    decreases n,
{
    if n < 10 {
        let mut out: Vec<char> = Vec::new();
        out.push(digit_of(n));
        proof {
            assert(out@ =~= seq![digit_char(n as nat)]);
        }
        out
    } else {
        let mut out = to_decimal(n / 10);
        out.push(digit_of(n % 10));
        out
    }
}

// ---- widths --------------------------------------------------------------

/// How many bytes a character takes.
pub open spec fn char_bytes(c: char) -> nat {
    if c <= '\u{7F}' {
        1
    } else if c <= '\u{7FF}' {
        2
    } else if c <= '\u{FFFF}' {
        3
    } else {
        4
    }
}

/// How many bytes a text takes.
pub open spec fn text_bytes(s: Seq<char>) -> nat
    decreases s.len(),
{
    if s.len() == 0 {
        0
    } else {
        text_bytes(s.drop_last()) + char_bytes(s.last())
    }
}

/// How many bytes a text takes.
fn byte_len(s: &Vec<char>) -> (r: u128)
    ensures
        r == text_bytes(s@),
        r <= 4 * s@.len(),
{
    let n: usize = s.len();
    let mut total: u128 = 0;
    let mut i: usize = 0;
    proof {
        assert(s@.take(0) =~= Seq::empty());
    }
    while i < n
        invariant
            n == s@.len(),
            i <= n,
            total == text_bytes(s@.take(i as int)),
            total <= 4 * i,
        decreases n - i,
    {
        let c = s[i];
        proof {
            assert(s@.take(i + 1).drop_last() =~= s@.take(i as int));
        }
        total += if c <= '\u{7F}' {
            1
        } else if c <= '\u{7FF}' {
            2
        } else if c <= '\u{FFFF}' {
            3
        } else {
            4
        };
        i += 1;
    }
    proof {
        assert(s@.take(n as int) =~= s@);
    }
    total
}

/// The width of a variable with its `$`, as far as it can be told.
pub open spec fn caret_width(name: Seq<char>) -> int {
    if 1 + text_bytes(name) <= usize::MAX {
        1 + text_bytes(name) as int
    } else {
        usize::MAX as int
    }
}

pub fn caret_length(name: &str) -> (r: usize)
    ensures
        r == caret_width(name@),
{
    let n: u128 = byte_len(&chars_of(name));
    if n < usize::MAX as u128 {
        n as usize + 1
    } else {
        usize::MAX
    }
}

// ---- frames --------------------------------------------------------------

/// A frame of a stack trace: where a call stands, and the member that holds it.
#[derive(Debug)]
pub struct DiagFrame {
    pub url: String,
    pub pos: Pos,
    pub member: String,
    pub length: usize,
}

/// What a [`DiagFrame`] is.
pub ghost struct Trace {
    pub url: Seq<char>,
    pub pos: Pos,
    pub member: Seq<char>,
    pub length: usize,
}

impl View for DiagFrame {
    type V = Trace;

    open spec fn view(&self) -> Trace {
        Trace { url: self.url@, pos: self.pos, member: self.member@, length: self.length }
    }
}

impl DiagFrame {
    pub fn copy(&self) -> (r: DiagFrame)
        ensures
            r@ == self@,
    {
        DiagFrame {
            url: self.url.clone(),
            pos: self.pos,
            member: self.member.clone(),
            length: self.length,
        }
    }
}

pub open spec fn traces(v: Seq<DiagFrame>) -> Seq<Trace> {
    Seq::new(v.len(), |i: int| v[i]@)
}

/// The place of a frame: its file, line and column.
pub open spec fn place(t: Trace) -> Seq<char> {
    (t.url.push(' ') + decimal(t.pos.line as nat)).push(':') + decimal(t.pos.col as nat)
}

/// The width of the widest place among the first `n` frames.
pub open spec fn widest(ts: Seq<Trace>, n: nat) -> nat
    decreases n,
{
    if n == 0 || n > ts.len() {
        0
    } else {
        let w = text_bytes(place(ts[n - 1]));
        let before = widest(ts, (n - 1) as nat);
        if w > before {
            w
        } else {
            before
        }
    }
}

/// `n` spaces.
pub open spec fn spaces(n: nat) -> Seq<char> {
    Seq::new(n, |i: int| ' ')
}

/// A line of a trace: the place, padded to the width of the widest, and the member.
pub open spec fn trace_line(t: Trace, indent: nat, width: nat) -> Seq<char> {
    let p = place(t);
    spaces(indent) + p + spaces(
        if width > text_bytes(p) {
            (width - text_bytes(p)) as nat
        } else {
            0
        },
    ) + "  "@ + t.member
}

pub open spec fn trace_lines(ts: Seq<Trace>, indent: nat) -> Seq<Seq<char>> {
    Seq::new(ts.len(), |i: int| trace_line(ts[i], indent, widest(ts, ts.len())))
}

/// A trace: a line for each frame.
pub open spec fn frame_block(ts: Seq<Trace>, indent: nat) -> Seq<char> {
    joined(trace_lines(ts, indent), "\n"@)
}

fn place_of(f: &DiagFrame) -> (r: Vec<char>)
    ensures
        r@ == place(f@),
{
    let mut s = chars_of(f.url.as_str());
    s.push(' ');
    append(&mut s, to_decimal(f.pos.line).as_slice());
    s.push(':');
    append(&mut s, to_decimal(f.pos.col).as_slice());
    s
}

/// Append `n` spaces.
fn pad(out: &mut Vec<char>, n: u128)
    ensures
        final(out)@ == old(out)@ + spaces(n as nat),
{
    let mut i: u128 = 0;
    proof {
        assert(old(out)@ + spaces(0) =~= old(out)@);
    }
    while i < n
        invariant
            i <= n,
            out@ == old(out)@ + spaces(i as nat),
        decreases n - i,
    {
        out.push(' ');
        i += 1;
        proof {
            assert(out@ =~= old(out)@ + spaces(i as nat));
        }
    }
}

/// Lay out a trace, each line indented.
pub fn render_frame_block(frames: &Vec<DiagFrame>, indent: usize) -> (r: String)
    ensures
        r@ == frame_block(traces(frames@), indent as nat),
{
    let ghost ts = traces(frames@);
    let n: usize = frames.len();
    let mut width: u128 = 0;
    let mut i: usize = 0;
    while i < n
        invariant
            n == frames@.len(),
            ts == traces(frames@),
            i <= n,
            width == widest(ts, i as nat),
        decreases n - i,
    {
        let w: u128 = byte_len(&place_of(&frames[i]));
        if w > width {
            width = w;
        }
        i += 1;
    }
    let mut lines: Vec<String> = Vec::new();
    let mut k: usize = 0;
    while k < n
        invariant
            n == frames@.len(),
            ts == traces(frames@),
            k <= n,
            width == widest(ts, n as nat),
            lines@.len() == k,
            forall|j: int|
                0 <= j < k ==> (#[trigger] lines@[j])@ == trace_line(ts[j], indent as nat, width as nat),
        decreases n - k,
    {
        let p = place_of(&frames[k]);
        let w: u128 = byte_len(&p);
        let mut line: Vec<char> = Vec::new();
        pad(&mut line, indent as u128);
        append(&mut line, p.as_slice());
        if width > w {
            pad(&mut line, width - w);
        }
        append_str(&mut line, "  ");
        append_str(&mut line, frames[k].member.as_str());
        proof {
            assert(line@ =~= trace_line(ts[k as int], indent as nat, width as nat));
        }
        lines.push(string_of(line.as_slice()));
        k += 1;
    }
    proof {
        assert(texts(lines@) =~= trace_lines(ts, indent as nat));
    }
    string_of(join(&lines, "\n").as_slice())
}

} // verus!
