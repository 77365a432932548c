//! Diagnostics of an evaluation: the calls that led to a place, rendered errors, and warnings.

use vstd::prelude::*;
use crate::diag::{DiagFrame, Trace, decimal, frame_block, render_frame_block, to_decimal, traces};
use crate::error::{Cut, Error, Excerpt, Fault, Note, Notice, Pos, fault, notes, plain_note};
use crate::eval::{Ev, Evaluator, Rep, ev_of, popped, same_place};
use crate::state::{get, get_text};
use crate::text::{append, append_str, chars_of, same_str, string_of};

verus! {

broadcast use crate::kept::group_kept;

pub open spec fn reversed(ts: Seq<Trace>) -> Seq<Trace> {
    Seq::new(ts.len(), |i: int| ts[ts.len() - 1 - i])
}

/// The trace of a place in the member under evaluation: that place, and the calls that led there,
/// innermost first.
pub open spec fn trace_at(s: Ev, pos: Pos) -> Seq<Trace> {
    seq![Trace { url: s.report.url, pos, member: s.report.member, length: 0 }] + reversed(
        s.report.calls,
    )
}

/// The source of a file: the one under evaluation also stands for those not seen.
pub open spec fn source_of(s: Ev, url: Seq<char>) -> Seq<char> {
    if url == s.report.url {
        s.report.source
    } else {
        match get(s.report.sources, url) {
            Some(t) => t,
            None => s.report.source,
        }
    }
}

/// An error with the place it points at and its trace.
#[verifier::opaque]
pub open spec fn rendered_error(s: Ev, f: Fault, ts: Seq<Trace>) -> Note {
    Note {
        before: ("Error: "@ + f.message).push('\n'),
        excerpt: Some(
            Cut {
                source: source_of(s, ts[0].url),
                pos: ts[0].pos,
                length: if ts[0].length > 0 {
                    ts[0].length
                } else {
                    f.length as usize
                },
            },
        ),
        after: "\n"@ + frame_block(ts, 2),
    }
}

/// An error as it leaves an expression: rendered where diagnostics show sources, the error has a
/// position, and it is not rendered yet.
#[verifier::opaque]
pub open spec fn finalized(s: Ev, f: Fault) -> Fault {
    if f.rendered is Some || !s.report.enabled || f.pos is None {
        f
    } else {
        Fault { rendered: Some(rendered_error(s, f, trace_at(s, f.pos->0))), ..f }
    }
}

/// The state inside a call: its place is recorded, and `member` is under evaluation.
#[verifier::opaque]
pub open spec fn call_entered(s: Ev, pos: Pos, length: usize, member: Seq<char>) -> Ev {
    Ev {
        report: Rep {
            calls: s.report.calls.push(
                Trace { url: s.report.url, pos, member: s.report.member, length },
            ),
            member,
            ..s.report
        },
        ..s
    }
}

/// The state after a call that came from `member`.
#[verifier::opaque]
pub open spec fn call_left(s: Ev, member: Seq<char>) -> Ev {
    Ev { report: Rep { calls: popped(s.report.calls), member, ..s.report }, ..s }
}

/// The state with a diagnostic reported.
pub open spec fn logged(s: Ev, n: Note) -> Ev {
    Ev { report: Rep { log: s.report.log.push(n), ..s.report }, ..s }
}

/// The state with a line reported.
pub open spec fn line_logged(s: Ev, line: Seq<char>) -> Ev {
    logged(s, plain_note(line))
}

/// What a `@warn` reports.
#[verifier::opaque]
pub open spec fn warning(s: Ev, message: Seq<char>, pos: Pos) -> Seq<char> {
    if s.report.enabled {
        ("WARNING: "@ + message).push('\n') + frame_block(trace_at(s, pos), 4) + "\n"@
    } else {
        "WARNING: "@ + message
    }
}

/// What a `@debug` reports.
#[verifier::opaque]
pub open spec fn debug_line(s: Ev, message: Seq<char>, pos: Pos) -> Seq<char> {
    if s.report.enabled {
        s.report.url.push(':') + decimal(pos.line as nat) + " DEBUG: "@ + message
    } else {
        "DEBUG: "@ + message
    }
}

/// The error of an `@error` with this message: it points at the innermost call, or at itself where
/// there is none.
#[verifier::opaque]
pub open spec fn user_error(s: Ev, message: Seq<char>, pos: Pos, length: usize) -> Fault {
    if !s.report.enabled {
        fault(message)
    } else {
        let ts = if s.report.calls.len() == 0 {
            seq![Trace { url: s.report.url, pos, member: s.report.member, length }]
        } else {
            reversed(s.report.calls)
        };
        let f = Fault {
            message,
            pos: Some(ts[0].pos),
            length: ts[0].length as int,
            rendered: None,
        };
        Fault { rendered: Some(rendered_error(s, f, ts)), ..f }
    }
}

fn reverse_frames(v: &Vec<DiagFrame>, out: &mut Vec<DiagFrame>)
    ensures
        traces(final(out)@) == traces(old(out)@) + reversed(traces(v@)),
{
    let ghost all = reversed(traces(v@));
    let n: usize = v.len();
    let mut i: usize = 0;
    proof {
        assert(traces(old(out)@) + all.take(0) =~= traces(old(out)@));
    }
    while i < n
        invariant
            n == v@.len(),
            i <= n,
            all == reversed(traces(v@)),
            traces(out@) == traces(old(out)@) + all.take(i as int),
        decreases n - i,
    {
        let ghost before = traces(out@);
        out.push(v[n - 1 - i].copy());
        i += 1;
        proof {
            assert(traces(out@) =~= before.push(all[i - 1]));
            assert(traces(old(out)@) + all.take(i as int) =~= (traces(old(out)@) + all.take(i - 1)).push(
                all[i - 1],
            ));
        }
    }
    proof {
        assert(all.take(i as int) =~= all);
    }
}

impl Evaluator {
    /// The trace of a place in the member under evaluation.
    pub fn frames_for(&self, pos: Pos) -> (r: Vec<DiagFrame>)
        ensures
            traces(r@) == trace_at(self@, pos),
            r@.len() > 0,
    {
        proof {
            reveal(ev_of);
        }
        let mut out: Vec<DiagFrame> = Vec::new();
        let f = DiagFrame {
            url: self.report.url.clone(),
            pos,
            member: self.report.member.clone(),
            length: 0,
        };
        out.push(f);
        proof {
            assert(traces(out@) =~= seq![f@]);
        }
        reverse_frames(&self.report.calls, &mut out);
        proof {
            assert(traces(out@).len() > 0);
        }
        out
    }

    /// The source of a file.
    pub fn source_for(&self, url: &str) -> (r: String)
        ensures
            r@ == source_of(self@, url@),
    {
        proof {
            reveal(ev_of);
        }
        if same_str(url, self.report.url.as_str()) {
            return self.report.source.clone();
        }
        match get_text(&self.report.sources, url) {
            Some(t) => t,
            None => self.report.source.clone(),
        }
    }

    /// Render an error with the place it points at and its trace.
    pub fn render_error_with_frames(&self, e: &Error, frames: &Vec<DiagFrame>) -> (r: Notice)
        requires
            frames@.len() > 0,
        ensures
            r@ == rendered_error(self@, e@, traces(frames@)),
    {
        proof {
            reveal(rendered_error);
        }
        let first = &frames[0];
        proof {
            assert(traces(frames@)[0] == frames@[0]@);
        }
        let length: usize = if first.length > 0 { first.length } else { e.length };
        let source = self.source_for(first.url.as_str());
        let mut t = chars_of("Error: ");
        append_str(&mut t, e.message.as_str());
        t.push('\n');
        let mut u = chars_of("\n");
        append_str(&mut u, render_frame_block(frames, 2).as_str());
        Notice {
            before: string_of(t.as_slice()),
            excerpt: Some(Excerpt { source, pos: first.pos, length }),
            after: string_of(u.as_slice()),
        }
    }

    /// Render an error that has a position and is not rendered yet.
    pub fn finalize_error(&self, e: Error) -> (r: Error)
        ensures
            r@ == finalized(self@, e@),
    {
        proof {
            reveal(finalized);
        }
        proof {
            reveal(ev_of);
        }
        if e.rendered.is_some() || !self.report.enabled {
            return e;
        }
        match e.pos {
            None => e,
            Some(p) => {
                let frames = self.frames_for(p);
                let n = self.render_error_with_frames(&e, &frames);
                let mut e = e;
                e.rendered = Some(n);
                e
            },
        }
    }

    /// Enter a call. Gives the member it comes from.
    pub fn enter_call(&mut self, pos: Pos, length: usize, member: &str) -> (r: String)
        ensures
            r@ == old(self)@.report.member,
            final(self)@ == call_entered(old(self)@, pos, length, member@),
    {
        proof {
            reveal(call_entered);
        }
        proof {
            reveal(ev_of);
        }
        let from = self.report.member.clone();
        let f = DiagFrame { url: self.report.url.clone(), pos, member: from.clone(), length };
        let ghost before = traces(self.report.calls@);
        self.report.calls.push(f);
        proof {
            assert(traces(self.report.calls@) =~= before.push(f@));
        }
        self.report.member = member.to_owned();
        from
    }

    /// Leave a call that came from `member`.
    pub fn leave_call(&mut self, member: String)
        ensures
            final(self)@ == call_left(old(self)@, member@),
    {
        proof {
            reveal(call_left);
        }
        proof {
            reveal(ev_of);
        }
        let ghost before = traces(self.report.calls@);
        self.report.calls.pop();
        proof {
            assert(traces(self.report.calls@) =~= popped(before));
        }
        self.report.member = member;
    }

    /// Report a diagnostic.
    pub fn log_notice(&mut self, n: Notice)
        ensures
            final(self)@ == logged(old(self)@, n@),
            same_place(old(self)@, final(self)@),
    {
        proof {
            reveal(ev_of);
        }
        let ghost before = notes(self.report.log@);
        let ghost nv = n@;
        self.report.log.push(n);
        proof {
            assert(notes(self.report.log@) =~= before.push(nv));
        }
    }

    /// Report a line.
    pub fn log(&mut self, line: &[char])
        ensures
            final(self)@ == line_logged(old(self)@, line@),
            same_place(old(self)@, final(self)@),
    {
        self.log_notice(Notice::plain(line));
    }

    /// Report a warning.
    pub fn log_warning(&mut self, message: &str, pos: Pos)
        ensures
            final(self)@ == line_logged(old(self)@, warning(old(self)@, message@, pos)),
            same_place(old(self)@, final(self)@),
    {
        proof {
            reveal(warning);
        }
        proof {
            reveal(ev_of);
        }
        let mut t = chars_of("WARNING: ");
        append_str(&mut t, message);
        if self.report.enabled {
            t.push('\n');
            let frames = self.frames_for(pos);
            append_str(&mut t, render_frame_block(&frames, 4).as_str());
            append_str(&mut t, "\n");
        }
        self.log(t.as_slice());
    }

    /// Report a debug message.
    pub fn log_debug(&mut self, message: &str, pos: Pos)
        ensures
            final(self)@ == line_logged(old(self)@, debug_line(old(self)@, message@, pos)),
            same_place(old(self)@, final(self)@),
    {
        proof {
            reveal(debug_line);
        }
        proof {
            reveal(ev_of);
        }
        let mut t: Vec<char> = Vec::new();
        if self.report.enabled {
            t = chars_of(self.report.url.as_str());
            t.push(':');
            append(&mut t, to_decimal(pos.line).as_slice());
            append_str(&mut t, " DEBUG: ");
            append_str(&mut t, message);
        } else {
            t = chars_of("DEBUG: ");
            append_str(&mut t, message);
        }
        self.log(t.as_slice());
    }

    /// The error of an `@error`.
    pub fn build_error(&self, message: &str, pos: Pos, length: usize) -> (r: Error)
        ensures
            r@ == user_error(self@, message@, pos, length),
    {
        proof {
            reveal(user_error);
        }
        proof {
            reveal(ev_of);
        }
        if !self.report.enabled {
            return Error::unpositioned(message);
        }
        let mut frames: Vec<DiagFrame> = Vec::new();
        proof {
            assert(traces(frames@) =~= Seq::empty());
        }
        if self.report.calls.len() == 0 {
            let f = DiagFrame {
                url: self.report.url.clone(),
                pos,
                member: self.report.member.clone(),
                length,
            };
            frames.push(f);
            proof {
                assert(traces(frames@) =~= seq![f@]);
            }
        } else {
            reverse_frames(&self.report.calls, &mut frames);
            proof {
                assert(traces(frames@) =~= reversed(self@.report.calls));
            }
        }
        proof {
            assert(traces(frames@)[0] == frames@[0]@);
        }
        let mut e = Error::at(message, frames[0].pos).with_length(frames[0].length);
        let n = self.render_error_with_frames(&e, &frames);
        e.rendered = Some(n);
        e
    }
}

// ---- laws ----------------------------------------------------------------

/// Leaving a call undoes entering it.
pub proof fn leaving_undoes_entering(s: Ev, pos: Pos, length: usize, member: Seq<char>)
    ensures
        call_left(call_entered(s, pos, length, member), s.report.member) == s,
{
    reveal(call_entered);
    reveal(call_left);
    let r = call_left(call_entered(s, pos, length, member), s.report.member);
    assert(r.report.calls =~= s.report.calls);
}

/// Whatever is done in a call, leaving it gives back the place that it was entered from.
pub proof fn leaving_a_call_restores(s: Ev, pos: Pos, length: usize, member: Seq<char>, inner: Ev)
    requires
        same_place(call_entered(s, pos, length, member), inner),
    ensures
        same_place(s, call_left(inner, s.report.member)),
{
    reveal(call_entered);
    reveal(call_left);
    assert(popped(inner.report.calls) =~= s.report.calls);
}

/// An error that is rendered, or has no position, leaves every expression as it is.
pub proof fn finalizing_is_idempotent(s: Ev, f: Fault)
    ensures
        f.rendered is Some || f.pos is None ==> finalized(s, f) == f,
        finalized(s, finalized(s, f)) == finalized(s, f),
{
    reveal(finalized);
}

} // verus!
