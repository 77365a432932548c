//! Compile errors.

use vstd::prelude::*;
use crate::text::{append_str, chars_of, string_of};

verus! {

/// A place in a source file: line and column, both counted from 1.
#[derive(Clone, Copy, Debug, PartialEq, Eq, Structural)]
pub struct Pos {
    pub line: usize,
    pub col: usize,
}

/// The piece of a source that a diagnostic points at. How it is drawn is left open.
#[derive(Debug, PartialEq, Eq)]
pub struct Excerpt {
    pub source: String,
    pub pos: Pos,
    pub length: usize,
}

/// What an [`Excerpt`] is.
pub ghost struct Cut {
    pub source: Seq<char>,
    pub pos: Pos,
    pub length: usize,
}

impl View for Excerpt {
    type V = Cut;

    open spec fn view(&self) -> Cut {
        Cut { source: self.source@, pos: self.pos, length: self.length }
    }
}

/// A diagnostic: the text up to the excerpt that it shows, and the text from there on.
#[derive(Debug, PartialEq, Eq)]
pub struct Notice {
    pub before: String,
    pub excerpt: Option<Excerpt>,
    pub after: String,
}

/// What a [`Notice`] is.
pub ghost struct Note {
    pub before: Seq<char>,
    pub excerpt: Option<Cut>,
    pub after: Seq<char>,
}

pub open spec fn cut_of(e: Option<Excerpt>) -> Option<Cut> {
    match e {
        Some(x) => Some(x@),
        None => None,
    }
}

impl View for Notice {
    type V = Note;

    open spec fn view(&self) -> Note {
        Note { before: self.before@, excerpt: cut_of(self.excerpt), after: self.after@ }
    }
}

pub open spec fn notes(v: Seq<Notice>) -> Seq<Note> {
    Seq::new(v.len(), |i: int| v[i]@)
}

pub open spec fn note_of(n: Option<Notice>) -> Option<Note> {
    match n {
        Some(x) => Some(x@),
        None => None,
    }
}

/// A diagnostic of text alone.
pub open spec fn plain_note(text: Seq<char>) -> Note {
    Note { before: text, excerpt: None, after: Seq::empty() }
}

/// The text of a diagnostic whose excerpt is drawn as `snippet`.
pub open spec fn note_text(n: Note, snippet: Seq<char>) -> Seq<char> {
    match n.excerpt {
        Some(_) => n.before + snippet + n.after,
        None => n.before + n.after,
    }
}

impl Notice {
    /// A diagnostic of text alone.
    pub fn plain(text: &[char]) -> (r: Notice)
        ensures
            r@ == plain_note(text@),
    {
        let after = String::new();
        proof {
            assert(after@ =~= Seq::empty());
        }
        Notice { before: string_of(text), excerpt: None, after }
    }

    pub fn copy(&self) -> (r: Notice)
        ensures
            r@ == self@,
    {
        Notice {
            before: self.before.clone(),
            excerpt: match &self.excerpt {
                Some(e) => Some(
                    Excerpt { source: e.source.clone(), pos: e.pos, length: e.length },
                ),
                None => None,
            },
            after: self.after.clone(),
        }
    }

    /// The text, with the excerpt drawn as `snippet`.
    pub fn text(&self, snippet: &str) -> (r: String)
        ensures
            r@ == note_text(self@, snippet@),
    {
        let mut t = chars_of(self.before.as_str());
        if self.excerpt.is_some() {
            append_str(&mut t, snippet);
        }
        append_str(&mut t, self.after.as_str());
        string_of(t.as_slice())
    }
}

/// Copy a list of diagnostics.
pub fn copy_notices(v: &Vec<Notice>) -> (r: Vec<Notice>)
    ensures
        notes(r@) == notes(v@),
{
    let mut out: Vec<Notice> = Vec::new();
    let mut i: usize = 0;
    while i < v.len()
        invariant
            i <= v@.len(),
            notes(out@) =~= notes(v@).take(i as int),
        decreases v@.len() - i,
    {
        let ghost before = notes(out@);
        let n = v[i].copy();
        let ghost nv = n@;
        out.push(n);
        proof {
            assert(notes(out@) =~= before.push(nv));
            assert(notes(v@)[i as int] == v@[i as int]@);
        }
        i += 1;
    }
    proof {
        assert(notes(v@).take(i as int) =~= notes(v@));
    }
    out
}

/// A compile error: its message, where it arose, how many characters it spans, and the diagnostic
/// with its place once one has been made.
#[derive(Debug)]
pub struct Error {
    pub message: String,
    pub pos: Option<Pos>,
    pub length: usize,
    pub rendered: Option<Notice>,
}

/// What an [`Error`] says.
pub ghost struct Fault {
    pub message: Seq<char>,
    pub pos: Option<Pos>,
    pub length: int,
    pub rendered: Option<Note>,
}

impl View for Error {
    type V = Fault;

    open spec fn view(&self) -> Fault {
        Fault {
            message: self.message@,
            pos: self.pos,
            length: self.length as int,
            rendered: note_of(self.rendered),
        }
    }
}

/// An error with a message and no position.
pub open spec fn fault(message: Seq<char>) -> Fault {
    Fault { message, pos: None, length: 0, rendered: None }
}

/// An error with a message and a position.
pub open spec fn fault_at(message: Seq<char>, pos: Pos) -> Fault {
    Fault { message, pos: Some(pos), length: 0, rendered: None }
}

impl Error {
    pub fn unpositioned(message: &str) -> (r: Error)
        ensures
            r@ == fault(message@),
    {
        Error { message: message.to_owned(), pos: None, length: 0, rendered: None }
    }

    pub fn at(message: &str, pos: Pos) -> (r: Error)
        ensures
            r@ == fault_at(message@, pos),
    {
        Error { message: message.to_owned(), pos: Some(pos), length: 0, rendered: None }
    }

    pub fn copy(&self) -> (r: Error)
        ensures
            r@ == self@,
    {
        Error {
            message: self.message.clone(),
            pos: self.pos,
            length: self.length,
            rendered: match &self.rendered {
                Some(n) => Some(n.copy()),
                None => None,
            },
        }
    }

    pub fn with_length(self, length: usize) -> (r: Error)
        ensures
            r@ == (Fault { length: length as int, ..self@ }),
    {
        Error { message: self.message, pos: self.pos, length, rendered: self.rendered }
    }

    pub fn has_position(&self) -> (r: bool)
        ensures
            r == (self.pos is Some),
    {
        self.pos.is_some()
    }
}

/// Whether `r` is `Ok` exactly when there is no fault, and fails with that fault otherwise.
pub open spec fn verdict(r: Result<(), Error>, f: Option<Seq<char>>) -> bool {
    match f {
        None => r is Ok,
        Some(m) => r is Err && r->Err_0@ == fault(m),
    }
}

} // verus!
