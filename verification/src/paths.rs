//! Which file a URL names: lexical normalization, candidate files in order of precedence, and the
//! choice among those that exist.

use vstd::prelude::*;
use crate::names::{after_last, tail_after_last};
use crate::text::{
    append, append_str, chars_of, ends, ends_with, has_char, holds_text, joined, rows, string_of,
    text_of, texts, to_vec,
};

verus! {

// ---- segments ------------------------------------------------------------

/// The pieces of `s` between the occurrences of `c`.
pub open spec fn split_at(s: Seq<char>, c: char) -> Seq<Seq<char>>
    decreases s.len(),
{
    if s.len() == 0 {
        seq![Seq::empty()]
    } else {
        let before = split_at(s.drop_last(), c);
        if s.last() == c {
            before.push(Seq::empty())
        } else {
            before.drop_last().push(before.last().push(s.last()))
        }
    }
}

pub fn split(s: &[char], c: char) -> (r: Vec<Vec<char>>)
    ensures
        rows(r@) == split_at(s@, c),
{
    let mut out: Vec<Vec<char>> = Vec::new();
    let mut cur: Vec<char> = Vec::new();
    let mut i: usize = 0;
    proof {
        assert(s@.take(0) =~= Seq::empty());
        assert(rows(out@).push(cur@) =~= split_at(s@.take(0), c));
    }
    while i < s.len()
        invariant
            i <= s@.len(),
            rows(out@).push(cur@) == split_at(s@.take(i as int), c),
        decreases s@.len() - i,
    {
        proof {
            assert(s@.take(i + 1).drop_last() =~= s@.take(i as int));
        }
        let ghost prev_out = rows(out@);
        let ghost prev_cur = cur@;
        if s[i] == c {
            out.push(cur);
            cur = Vec::new();
            proof {
                assert(rows(out@) =~= prev_out.push(prev_cur));
                assert(rows(out@).push(cur@) =~= prev_out.push(prev_cur).push(Seq::empty()));
            }
        } else {
            cur.push(s[i]);
            proof {
                assert(prev_out.push(prev_cur).drop_last() =~= prev_out);
            }
        }
        i += 1;
    }
    let ghost last = cur@;
    let ghost before = rows(out@);
    out.push(cur);
    proof {
        assert(s@.take(i as int) =~= s@);
        assert(rows(out@) =~= before.push(last));
    }
    out
}

/// The segments that are left when `.` and empty segments are dropped and each `..` takes the
/// segment before it along, where there is one.
pub open spec fn climbed(segs: Seq<Seq<char>>) -> Seq<Seq<char>>
    decreases segs.len(),
{
    if segs.len() == 0 {
        Seq::empty()
    } else {
        let before = climbed(segs.drop_last());
        let s = segs.last();
        if s.len() == 0 || s == seq!['.'] {
            before
        } else if s == seq!['.', '.'] && before.len() > 0 && before.last() != seq!['.', '.'] {
            before.drop_last()
        } else {
            before.push(s)
        }
    }
}

/// A path without `.` and without a `..` that could be resolved.
pub open spec fn lexical(path: Seq<char>) -> Seq<char> {
    let t = joined(climbed(split_at(path, '/')), seq!['/']);
    if path.len() > 0 && path[0] == '/' {
        seq!['/'] + t
    } else if t.len() == 0 {
        seq!['.']
    } else {
        t
    }
}

fn is_dot(s: &Vec<char>) -> (r: bool)
    ensures
        r == (s@ == seq!['.']),
{
    let r = s.len() == 1 && s[0] == '.';
    proof {
        if r {
            assert(s@ =~= seq!['.']);
        }
    }
    r
}

fn is_dot_dot(s: &Vec<char>) -> (r: bool)
    ensures
        r == (s@ == seq!['.', '.']),
{
    let r = s.len() == 2 && s[0] == '.' && s[1] == '.';
    proof {
        if r {
            assert(s@ =~= seq!['.', '.']);
        }
    }
    r
}

fn climb(segs: Vec<Vec<char>>) -> (r: Vec<Vec<char>>)
    ensures
        rows(r@) == climbed(rows(segs@)),
{
    let mut out: Vec<Vec<char>> = Vec::new();
    let mut i: usize = 0;
    proof {
        assert(rows(out@) =~= Seq::empty());
    }
    while i < segs.len()
        invariant
            i <= segs@.len(),
            rows(out@) == climbed(rows(segs@).take(i as int)),
        decreases segs@.len() - i,
    {
        let ghost before = rows(out@);
        proof {
            assert(rows(segs@).take(i + 1).drop_last() =~= rows(segs@).take(i as int));
            assert(rows(segs@).take(i + 1).last() == segs@[i as int]@);
        }
        let s = &segs[i];
        if s.len() == 0 || is_dot(s) {
        } else if is_dot_dot(s) && out.len() > 0 && !is_dot_dot(&out[out.len() - 1]) {
            proof {
                assert(before.last() == out@[out@.len() - 1]@);
            }
            out.pop();
            proof {
                assert(rows(out@) =~= before.drop_last());
            }
        } else {
            proof {
                if before.len() > 0 {
                    assert(before.last() == out@[out@.len() - 1]@);
                }
            }
            out.push(to_vec(s.as_slice()));
            proof {
                assert(rows(out@) =~= before.push(s@));
            }
        }
        i += 1;
    }
    proof {
        assert(rows(segs@).take(i as int) =~= rows(segs@));
    }
    out
}

fn join_rows(parts: &Vec<Vec<char>>, sep: char) -> (r: Vec<char>)
    ensures
        r@ == joined(rows(parts@), seq![sep]),
{
    let mut out: Vec<char> = Vec::new();
    let mut i: usize = 0;
    while i < parts.len()
        invariant
            i <= parts@.len(),
            out@ == joined(rows(parts@).take(i as int), seq![sep]),
        decreases parts@.len() - i,
    {
        let ghost done = rows(parts@).take(i + 1);
        let ghost before = out@;
        proof {
            assert(done.drop_last() =~= rows(parts@).take(i as int));
            assert(done.last() == parts@[i as int]@);
        }
        if i > 0 {
            out.push(sep);
        }
        append(&mut out, parts[i].as_slice());
        i += 1;
        proof {
            if i == 1 {
                assert(out@ =~= done[0]);
            } else {
                assert(before.push(sep) =~= before + seq![sep]);
            }
        }
    }
    proof {
        assert(rows(parts@).take(i as int) =~= rows(parts@));
    }
    out
}

fn normal_chars(path: &[char]) -> (r: Vec<char>)
    ensures
        r@ == lexical(path@),
{
    let segs = climb(split(path, '/'));
    let t = join_rows(&segs, '/');
    if path.len() > 0 && path[0] == '/' {
        let mut out: Vec<char> = Vec::new();
        out.push('/');
        append(&mut out, t.as_slice());
        proof {
            assert(out@ =~= seq!['/'] + t@);
        }
        out
    } else if t.len() == 0 {
        let mut out: Vec<char> = Vec::new();
        out.push('.');
        proof {
            assert(out@ =~= seq!['.']);
        }
        out
    } else {
        t
    }
}

/// Remove `.` and `..` segments from a URL path, without a look at any file.
pub fn lexical_normalize(path: &str) -> (r: String)
    ensures
        r@ == lexical(path@),
{
    let chars = chars_of(path);
    string_of(normal_chars(chars.as_slice()).as_slice())
}

/// Whether no segment of the list is dropped or resolved by [`climbed`].
pub open spec fn settled(segs: Seq<Seq<char>>) -> bool {
    &&& forall|k: int|
        0 <= k < segs.len() ==> {
            let s = #[trigger] segs[k];
            s.len() > 0 && s != seq!['.'] && !s.contains('/')
        }
    &&& forall|k: int|
        0 < k < segs.len() && #[trigger] segs[k] == seq!['.', '.'] ==> segs[k - 1] == seq!['.', '.']
}

proof fn lemma_split_pieces(s: Seq<char>, c: char)
    ensures
        split_at(s, c).len() > 0,
        forall|k: int| 0 <= k < split_at(s, c).len() ==> !(#[trigger] split_at(s, c)[k]).contains(c),
    decreases s.len(),
{
    if s.len() > 0 {
        lemma_split_pieces(s.drop_last(), c);
    }
}

proof fn lemma_climbed_settled(segs: Seq<Seq<char>>)
    requires
        forall|k: int| 0 <= k < segs.len() ==> !(#[trigger] segs[k]).contains('/'),
    ensures
        settled(climbed(segs)),
    decreases segs.len(),
{
    if segs.len() > 0 {
        lemma_climbed_settled(segs.drop_last());
        assert(!segs[segs.len() - 1].contains('/'));
    }
}

proof fn lemma_settled_climbs(segs: Seq<Seq<char>>)
    requires
        settled(segs),
    ensures
        climbed(segs) == segs,
    decreases segs.len(),
{
    if segs.len() > 0 {
        let h = segs.drop_last();
        assert(settled(h));
        lemma_settled_climbs(h);
        assert(segs[segs.len() - 1].len() > 0);
        if segs.last() == seq!['.', '.'] && h.len() > 0 {
            assert(segs[segs.len() - 1 - 1] == seq!['.', '.']);
        }
        assert(h.push(segs.last()) =~= segs);
    } else {
        assert(climbed(segs) =~= segs);
    }
}

/// Text without `c` in it extends the last piece.
proof fn lemma_split_extend(s: Seq<char>, t: Seq<char>, c: char)
    requires
        !t.contains(c),
    ensures
        split_at(s + t, c) == split_at(s, c).drop_last().push(split_at(s, c).last() + t),
    decreases t.len(),
{
    lemma_split_pieces(s, c);
    if t.len() == 0 {
        assert(s + t =~= s);
        assert(split_at(s, c).last() + t =~= split_at(s, c).last());
        assert(split_at(s, c).drop_last().push(split_at(s, c).last()) =~= split_at(s, c));
    } else {
        let h = t.drop_last();
        assert(t[t.len() - 1] != c);
        assert forall|k: int| 0 <= k < h.len() implies h[k] != c by {
            assert(t[k] != c);
        }
        lemma_split_extend(s, h, c);
        assert((s + t).drop_last() =~= s + h);
        assert((s + t).last() == t.last());
        let before = split_at(s + h, c);
        assert(before.last() == split_at(s, c).last() + h);
        assert(before.drop_last() =~= split_at(s, c).drop_last());
        assert((split_at(s, c).last() + h).push(t.last()) =~= split_at(s, c).last() + t);
    }
}

proof fn lemma_split_joined(segs: Seq<Seq<char>>, lead: Seq<char>)
    requires
        settled(segs),
        segs.len() > 0,
        lead.len() == 0 || lead == seq!['/'],
    ensures
        split_at(lead + joined(segs, seq!['/']), '/') == if lead.len() == 0 {
            segs
        } else {
            seq![Seq::<char>::empty()] + segs
        },
    decreases segs.len(),
{
    let head = if lead.len() == 0 {
        Seq::<Seq<char>>::empty()
    } else {
        seq![Seq::<char>::empty()]
    };
    assert(!segs[segs.len() - 1].contains('/'));
    if segs.len() == 1 {
        lemma_split_extend(lead, segs[0], '/');
        if lead.len() == 0 {
            assert(split_at(lead, '/') =~= seq![Seq::<char>::empty()]);
        } else {
            assert(lead.drop_last() =~= Seq::empty());
            reveal_with_fuel(split_at, 3);
            assert(split_at(lead, '/') =~= seq![Seq::<char>::empty(), Seq::<char>::empty()]);
        }
        assert(Seq::<char>::empty() + segs[0] =~= segs[0]);
        assert(split_at(lead + segs[0], '/') =~= head + segs);
    } else {
        let h = segs.drop_last();
        assert(settled(h));
        lemma_split_joined(h, lead);
        let t = lead + joined(h, seq!['/']);
        let t2 = t + seq!['/'];
        assert(t2.drop_last() =~= t);
        assert(split_at(t2, '/') == split_at(t, '/').push(Seq::empty()));
        lemma_split_extend(t2, segs.last(), '/');
        assert(lead + joined(segs, seq!['/']) =~= t2 + segs.last());
        assert(Seq::<char>::empty() + segs.last() =~= segs.last());
        assert(split_at(t2, '/').drop_last() =~= split_at(t, '/'));
        assert(split_at(lead + joined(segs, seq!['/']), '/') =~= split_at(t, '/').push(segs.last()));
        assert(split_at(t, '/') == head + h) by {
            if lead.len() == 0 {
                assert(head + h =~= h);
            }
        }
        assert((head + h).push(segs.last()) =~= head + segs);
    }
    if lead.len() == 0 {
        assert(head + segs =~= segs);
    }
}

proof fn lemma_climbed_lead(segs: Seq<Seq<char>>)
    requires
        settled(segs),
    ensures
        climbed(seq![Seq::<char>::empty()] + segs) == segs,
    decreases segs.len(),
{
    let all = seq![Seq::<char>::empty()] + segs;
    if segs.len() == 0 {
        reveal_with_fuel(climbed, 3);
        assert(all.drop_last() =~= Seq::empty());
        assert(climbed(all) =~= segs);
    } else {
        let h = segs.drop_last();
        assert(settled(h));
        lemma_climbed_lead(h);
        assert(all.drop_last() =~= seq![Seq::<char>::empty()] + h);
        assert(all.last() == segs.last());
        assert(segs[segs.len() - 1].len() > 0);
        if segs.last() == seq!['.', '.'] && h.len() > 0 {
            assert(segs[segs.len() - 1 - 1] == seq!['.', '.']);
        }
        assert(h.push(segs.last()) =~= segs);
    }
}

/// Normalizing a path twice gives what normalizing it once gives.
pub proof fn lexical_is_idempotent(path: Seq<char>)
    ensures
        lexical(lexical(path)) == lexical(path),
{
    let segs = climbed(split_at(path, '/'));
    lemma_split_pieces(path, '/');
    lemma_climbed_settled(split_at(path, '/'));
    let t = joined(segs, seq!['/']);
    let n = lexical(path);
    if path.len() > 0 && path[0] == '/' {
        let lead = seq!['/'];
        if segs.len() > 0 {
            lemma_split_joined(segs, lead);
            lemma_climbed_lead(segs);
        } else {
            reveal_with_fuel(split_at, 3);
            reveal_with_fuel(climbed, 4);
            assert(n =~= lead);
            assert(n.drop_last() =~= Seq::empty());
            assert(split_at(n, '/') =~= seq![Seq::<char>::empty()] + seq![Seq::<char>::empty()]);
            let two = split_at(n, '/');
            assert(two.drop_last().drop_last() =~= Seq::empty());
            assert(climbed(two) =~= Seq::empty());
        }
    } else if segs.len() > 0 {
        lemma_split_joined(segs, Seq::empty());
        assert(Seq::<char>::empty() + t =~= t);
        lemma_settled_climbs(segs);
        lemma_joined_first(segs);
    } else {
        reveal_with_fuel(split_at, 3);
        reveal_with_fuel(climbed, 3);
        assert(n =~= seq!['.']);
        assert(n.drop_last() =~= Seq::empty());
        assert(Seq::empty().push('.') =~= seq!['.']);
        assert(split_at(n, '/') =~= seq![seq!['.']]);
        assert(split_at(n, '/').drop_last() =~= Seq::empty());
        assert(climbed(split_at(n, '/')) =~= Seq::empty());
    }
}

proof fn lemma_joined_first(segs: Seq<Seq<char>>)
    requires
        settled(segs),
        segs.len() > 0,
    ensures
        joined(segs, seq!['/']).len() > 0,
        joined(segs, seq!['/'])[0] != '/',
    decreases segs.len(),
{
    assert(segs[0].len() > 0 && !segs[0].contains('/'));
    if segs.len() > 1 {
        let h = segs.drop_last();
        assert(settled(h));
        lemma_joined_first(h);
    } else {
        assert(segs[0][0] != '/');
    }
}

// ---- joining -------------------------------------------------------------

/// `b` under the directory `a`; an absolute `b` stands alone.
pub open spec fn path_join(a: Seq<char>, b: Seq<char>) -> Seq<char> {
    if (b.len() > 0 && b[0] == '/') || a.len() == 0 {
        b
    } else if a.last() == '/' {
        a + b
    } else {
        a.push('/') + b
    }
}

fn join_path(a: &[char], b: &[char]) -> (r: Vec<char>)
    ensures
        r@ == path_join(a@, b@),
{
    if (b.len() > 0 && b[0] == '/') || a.len() == 0 {
        return to_vec(b);
    }
    let mut out = to_vec(a);
    if a[a.len() - 1] != '/' {
        out.push('/');
    }
    append(&mut out, b);
    out
}

/// The directory part of a normalized path: what stands before its last `/`.
pub open spec fn parent_of(s: Seq<char>) -> Option<Seq<char>> {
    let k = s.len() - after_last(s, '/').len() - 1;
    if !s.contains('/') || s.len() == 1 {
        None
    } else if k == 0 {
        Some(seq!['/'])
    } else {
        Some(s.take(k))
    }
}

/// The file part of a normalized path: its last segment, or all of it where that names no file.
pub open spec fn file_of(s: Seq<char>) -> Seq<char> {
    let last = after_last(s, '/');
    if last.len() == 0 || last == seq!['.'] || last == seq!['.', '.'] {
        s
    } else {
        last
    }
}

/// The directory in which the file of a normalized path is looked for.
pub open spec fn dir_of(base: Seq<char>, s: Seq<char>) -> Seq<char> {
    match parent_of(s) {
        Some(p) => path_join(base, p),
        None => base,
    }
}

pub proof fn lemma_after_last_suffix(s: Seq<char>, c: char)
    ensures
        after_last(s, c).len() <= s.len(),
        s.contains(c) ==> after_last(s, c).len() < s.len(),
        !s.contains(c) ==> after_last(s, c) == s,
    decreases s.len(),
{
    if s.len() > 0 {
        let h = s.drop_last();
        lemma_after_last_suffix(h, c);
        if s.last() != c {
            if s.contains(c) {
                let k = choose|k: int| 0 <= k < s.len() && s[k] == c;
                assert(h[k] == c);
            } else {
                assert forall|k: int| 0 <= k < h.len() implies h[k] != c by {
                    assert(s[k] != c);
                }
                assert(h.push(s.last()) =~= s);
            }
        } else {
            assert(s[s.len() - 1] == c);
        }
    }
}

fn find_dir(base: &[char], s: &[char]) -> (r: Vec<char>)
    ensures
        r@ == dir_of(base@, s@),
{
    let last = tail_after_last(s, '/');
    proof {
        lemma_after_last_suffix(s@, '/');
    }
    if !has_char(s, '/') || s.len() == 1 {
        return to_vec(base);
    }
    let k: usize = s.len() - last.len() - 1;
    if k == 0 {
        let mut root: Vec<char> = Vec::new();
        root.push('/');
        proof {
            assert(root@ =~= seq!['/']);
        }
        join_path(base, root.as_slice())
    } else {
        let par = vstd::slice::slice_subrange(s, 0, k);
        proof {
            assert(par@ =~= s@.take(k as int));
        }
        join_path(base, par)
    }
}

fn find_file<'a>(s: &'a [char]) -> (r: &'a [char])
    ensures
        r@ == file_of(s@),
{
    let last = tail_after_last(s, '/');
    let v = to_vec(last);
    if v.len() == 0 || is_dot(&v) || is_dot_dot(&v) {
        s
    } else {
        last
    }
}

// ---- the directory and the name of a file --------------------------------

/// The length of the part of a path that is no segment of it: the `/` of an absolute path, or the
/// `.` that a relative one begins with.
pub open spec fn root_len(p: Seq<char>) -> int {
    if p.len() > 0 && (p[0] == '/' || (p[0] == '.' && (p.len() == 1 || p[1] == '/'))) {
        1
    } else {
        0
    }
}

/// Where the first `n` characters of a path end, without the separators and the segments `.` at
/// their end; what the path begins with stays.
pub open spec fn segments_end(p: Seq<char>, n: int) -> int
    decreases n,
{
    if n <= root_len(p) || n > p.len() {
        n
    } else if p[n - 1] == '/' || (p[n - 1] == '.' && (n - 1 == root_len(p) || p[n - 2] == '/')) {
        segments_end(p, n - 1)
    } else {
        n
    }
}

/// Where the first `n` characters of a path end, without their last segment and the separator
/// before it.
pub open spec fn last_segment_start(p: Seq<char>, n: int) -> int
    decreases n,
{
    if n <= root_len(p) || n > p.len() {
        n
    } else if p[n - 1] == '/' {
        n - 1
    } else {
        last_segment_start(p, n - 1)
    }
}

/// A path without separators and segments `.` at its end.
pub open spec fn without_trail(p: Seq<char>) -> Seq<char> {
    p.take(segments_end(p, p.len() as int))
}

/// The directory of a file: its path without the last segment. There is none where nothing is left.
pub open spec fn directory(p: Seq<char>) -> Option<Seq<char>> {
    let n = segments_end(p, p.len() as int);
    if n <= root_len(p) {
        None
    } else {
        let m = segments_end(p, last_segment_start(p, n));
        if m <= 0 {
            None
        } else {
            Some(p.take(m))
        }
    }
}

fn prefix_len(p: &[char]) -> (r: usize)
    ensures
        r == root_len(p@),
        r <= p@.len(),
{
    if p.len() > 0 && (p[0] == '/' || (p[0] == '.' && (p.len() == 1 || p[1] == '/'))) {
        1
    } else {
        0
    }
}

fn trimmed_end(p: &[char], n: usize) -> (r: usize)
    requires
        n <= p@.len(),
    ensures
        r == segments_end(p@, n as int),
        r <= n,
{
    let root: usize = prefix_len(p);
    let mut i: usize = n;
    while i > root && (p[i - 1] == '/' || (p[i - 1] == '.' && (i - 1 == root || p[i - 2] == '/')))
        invariant
            root == root_len(p@),
            i <= n <= p@.len(),
            segments_end(p@, i as int) == segments_end(p@, n as int),
        decreases i,
    {
        i -= 1;
    }
    i
}

/// The path of a file without separators and segments `.` at its end.
pub fn strip_trail(p: &[char]) -> (r: &[char])
    ensures
        r@ == without_trail(p@),
{
    let n: usize = trimmed_end(p, p.len());
    let r = vstd::slice::slice_subrange(p, 0, n);
    proof {
        assert(r@ =~= p@.take(n as int));
    }
    r
}

/// The directory of a file, if it has one.
pub fn directory_of(key: &str) -> (r: Option<String>)
    ensures
        text_of(r) == directory(key@),
{
    let p = chars_of(key);
    let root: usize = prefix_len(p.as_slice());
    let n: usize = trimmed_end(p.as_slice(), p.len());
    if n <= root {
        return None;
    }
    let mut i: usize = n;
    while i > root && p[i - 1] != '/'
        invariant
            root == root_len(p@),
            i <= n <= p@.len(),
            last_segment_start(p@, i as int) == last_segment_start(p@, n as int),
        decreases i,
    {
        i -= 1;
    }
    if i > root {
        i -= 1;
    }
    let m: usize = trimmed_end(p.as_slice(), i);
    if m == 0 {
        return None;
    }
    let par = vstd::slice::slice_subrange(p.as_slice(), 0, m);
    proof {
        assert(par@ =~= p@.take(m as int));
    }
    Some(string_of(par))
}

// ---- candidates ----------------------------------------------------------

/// The partial and the plain file that a stem and an extension name.
pub open spec fn pair(dir: Seq<char>, stem: Seq<char>, ext: Seq<char>, import_only: bool) -> Seq<
    Seq<char>,
> {
    let suffix = if import_only {
        ".import"@
    } else {
        Seq::empty()
    };
    let plain = (stem + suffix).push('.') + ext;
    seq![path_join(dir, seq!['_'] + plain), path_join(dir, plain)]
}

/// The Sass files that a stem names, or the CSS files.
pub open spec fn sass_tier(dir: Seq<char>, stem: Seq<char>, import_only: bool) -> Seq<Seq<char>> {
    pair(dir, stem, "scss"@, import_only) + pair(dir, stem, "sass"@, import_only)
}

/// The tier alone where `on` holds, else no tier.
pub open spec fn if_allowed(on: bool, tier: Seq<Seq<char>>) -> Seq<Seq<Seq<char>>> {
    if on {
        seq![tier]
    } else {
        Seq::empty()
    }
}

pub open spec fn without_suffix(s: Seq<char>, n: int) -> Seq<char> {
    s.take(s.len() - n)
}

/// The candidate files for `path` under `base`, in tiers of falling precedence. Import-only files
/// are among them only where they are allowed.
pub open spec fn tiers(base: Seq<char>, path: Seq<char>, import_only: bool) -> Seq<Seq<Seq<char>>> {
    let p = lexical(path);
    let dir = dir_of(base, p);
    let file = file_of(p);
    if ends(file, ".css"@) {
        seq![pair(dir, without_suffix(file, 4), "css"@, false)]
    } else if ends(file, ".scss"@) {
        let stem = without_suffix(file, 5);
        if_allowed(import_only, pair(dir, stem, "scss"@, true)).push(pair(dir, stem, "scss"@, false))
    } else if ends(file, ".sass"@) {
        let stem = without_suffix(file, 5);
        if_allowed(import_only, pair(dir, stem, "sass"@, true)).push(pair(dir, stem, "sass"@, false))
    } else {
        let index = path_join(dir, file);
        (if_allowed(import_only, sass_tier(dir, file, true)).push(sass_tier(dir, file, false)).push(
            pair(dir, file, "css"@, false),
        ) + if_allowed(import_only, sass_tier(index, "index"@, true))).push(
            sass_tier(index, "index"@, false),
        )
    }
}

pub open spec fn tables(v: Seq<Vec<String>>) -> Seq<Seq<Seq<char>>> {
    Seq::new(v.len(), |i: int| texts(v[i]@))
}

/// Append the partial and the plain file of a stem to `out`.
fn push_pair(out: &mut Vec<String>, dir: &[char], stem: &[char], ext: &str, import_only: bool)
    ensures
        texts(final(out)@) == texts(old(out)@) + pair(dir@, stem@, ext@, import_only),
{
    let mut plain = to_vec(stem);
    let ghost suffix = if import_only {
        ".import"@
    } else {
        Seq::empty()
    };
    if import_only {
        append_str(&mut plain, ".import");
    }
    proof {
        assert(plain@ =~= stem@ + suffix);
    }
    plain.push('.');
    append_str(&mut plain, ext);
    let mut partial: Vec<char> = Vec::new();
    partial.push('_');
    append(&mut partial, plain.as_slice());
    proof {
        assert(partial@ =~= seq!['_'] + plain@);
    }
    out.push(string_of(join_path(dir, partial.as_slice()).as_slice()));
    out.push(string_of(join_path(dir, plain.as_slice()).as_slice()));
    proof {
        assert(texts(final(out)@) =~= texts(old(out)@) + pair(dir@, stem@, ext@, import_only));
    }
}

fn tier_exact(dir: &[char], stem: &[char], ext: &str, import_only: bool) -> (r: Vec<String>)
    ensures
        texts(r@) == pair(dir@, stem@, ext@, import_only),
{
    let mut out: Vec<String> = Vec::new();
    push_pair(&mut out, dir, stem, ext, import_only);
    proof {
        assert(texts(out@) =~= pair(dir@, stem@, ext@, import_only));
    }
    out
}

fn tier_with_extensions(dir: &[char], stem: &[char], import_only: bool) -> (r: Vec<String>)
    ensures
        texts(r@) == sass_tier(dir@, stem@, import_only),
{
    let mut out: Vec<String> = Vec::new();
    push_pair(&mut out, dir, stem, "scss", import_only);
    push_pair(&mut out, dir, stem, "sass", import_only);
    proof {
        assert(texts(out@) =~= sass_tier(dir@, stem@, import_only));
    }
    out
}

fn push_tier(out: &mut Vec<Vec<String>>, tier: Vec<String>)
    ensures
        tables(final(out)@) == tables(old(out)@).push(texts(tier@)),
{
    out.push(tier);
    proof {
        assert(tables(final(out)@) =~= tables(old(out)@).push(texts(tier@)));
    }
}

/// The candidate files for `path` under `base`, in tiers of falling precedence.
pub fn candidate_tiers(base: &str, path: &str, allow_import_only: bool) -> (r: Vec<Vec<String>>)
    ensures
        tables(r@) == tiers(base@, path@, allow_import_only),
{
    let base = chars_of(base);
    let path = chars_of(path);
    let p = normal_chars(path.as_slice());
    let dir = find_dir(base.as_slice(), p.as_slice());
    let d = dir.as_slice();
    let file = find_file(p.as_slice());
    let n: usize = file.len();
    let mut out: Vec<Vec<String>> = Vec::new();
    proof {
        assert(tables(out@) =~= Seq::empty());
        reveal_strlit(".css");
        reveal_strlit(".scss");
        reveal_strlit(".sass");
    }
    if ends_with(file, ".css") {
        let stem = vstd::slice::slice_subrange(file, 0, n - 4);
        proof {
            assert(stem@ =~= without_suffix(file@, 4));
        }
        push_tier(&mut out, tier_exact(d, stem, "css", false));
        proof {
            assert(tables(out@) =~= tiers(base@, path@, allow_import_only));
        }
        return out;
    }
    if ends_with(file, ".scss") || ends_with(file, ".sass") {
        let ext = if ends_with(file, ".scss") {
            "scss"
        } else {
            "sass"
        };
        let stem = vstd::slice::slice_subrange(file, 0, n - 5);
        proof {
            assert(stem@ =~= without_suffix(file@, 5));
        }
        if allow_import_only {
            push_tier(&mut out, tier_exact(d, stem, ext, true));
        }
        push_tier(&mut out, tier_exact(d, stem, ext, false));
        proof {
            assert(tables(out@) =~= tiers(base@, path@, allow_import_only));
        }
        return out;
    }
    if allow_import_only {
        push_tier(&mut out, tier_with_extensions(d, file, true));
    }
    push_tier(&mut out, tier_with_extensions(d, file, false));
    push_tier(&mut out, tier_exact(d, file, "css", false));
    let index = join_path(d, file);
    let stem = chars_of("index");
    if allow_import_only {
        push_tier(&mut out, tier_with_extensions(index.as_slice(), stem.as_slice(), true));
    }
    push_tier(&mut out, tier_with_extensions(index.as_slice(), stem.as_slice(), false));
    proof {
        assert(tables(out@) =~= tiers(base@, path@, allow_import_only));
    }
    out
}

// ---- resolution ----------------------------------------------------------

/// What a URL names in one directory: a file, more than one of the same precedence, or none.
#[derive(Debug)]
pub enum Resolution {
    Found(String),
    Ambiguous,
    NotFound,
}

/// What a [`Resolution`] says.
pub ghost enum Found {
    One(Seq<char>),
    Many,
    Nothing,
}

impl View for Resolution {
    type V = Found;

    open spec fn view(&self) -> Found {
        match *self {
            Resolution::Found(p) => Found::One(p@),
            Resolution::Ambiguous => Found::Many,
            Resolution::NotFound => Found::Nothing,
        }
    }
}

/// The candidates of a tier that are among `files`, in order.
pub open spec fn present(tier: Seq<Seq<char>>, files: Seq<Seq<char>>) -> Seq<Seq<char>>
    decreases tier.len(),
{
    if tier.len() == 0 {
        Seq::empty()
    } else {
        let before = present(tier.drop_last(), files);
        if files.contains(tier.last()) {
            before.push(tier.last())
        } else {
            before
        }
    }
}

proof fn lemma_present(tier: Seq<Seq<char>>, files: Seq<Seq<char>>)
    ensures
        forall|k: int|
            0 <= k < present(tier, files).len() ==> files.contains(#[trigger] present(tier, files)[k])
                && tier.contains(present(tier, files)[k]),
    decreases tier.len(),
{
    if tier.len() > 0 {
        let h = tier.drop_last();
        lemma_present(h, files);
        assert forall|k: int| 0 <= k < present(tier, files).len() implies files.contains(
            #[trigger] present(tier, files)[k],
        ) && tier.contains(present(tier, files)[k]) by {
            if k < present(h, files).len() {
                let c = present(h, files)[k];
                assert(h.contains(c));
                let j = choose|j: int| 0 <= j < h.len() && h[j] == c;
                assert(tier[j] == c);
            } else {
                assert(tier[tier.len() - 1] == present(tier, files)[k]);
            }
        }
    }
}

/// What the first tier, from `k` on, with a file among `files` gives.
pub open spec fn chosen(tiers: Seq<Seq<Seq<char>>>, files: Seq<Seq<char>>, k: int) -> Found
    decreases tiers.len() - k,
{
    if k < 0 || k >= tiers.len() {
        Found::Nothing
    } else {
        let here = present(tiers[k], files);
        if here.len() == 1 {
            Found::One(here[0])
        } else if here.len() > 1 {
            Found::Many
        } else {
            chosen(tiers, files, k + 1)
        }
    }
}

/// What `path` names under `base`, where `files` are the files that exist.
pub open spec fn resolution(
    base: Seq<char>,
    path: Seq<char>,
    import_only: bool,
    files: Seq<Seq<char>>,
) -> Found {
    chosen(tiers(base, path, import_only), files, 0)
}

/// What a tier gives.
fn tier_from(tier: &Vec<String>, files: &Vec<String>) -> (r: Resolution)
    ensures
        ({
            let here = present(texts(tier@), texts(files@));
            r@ == if here.len() == 0 {
                Found::Nothing
            } else if here.len() == 1 {
                Found::One(here[0])
            } else {
                Found::Many
            }
        }),
{
    let mut found: Vec<String> = Vec::new();
    let mut i: usize = 0;
    proof {
        assert(texts(tier@).take(0) =~= Seq::empty());
        assert(texts(found@) =~= Seq::empty());
    }
    while i < tier.len()
        invariant
            i <= tier@.len(),
            texts(found@) == present(texts(tier@).take(i as int), texts(files@)),
        decreases tier@.len() - i,
    {
        let ghost before = texts(found@);
        proof {
            let t = texts(tier@).take(i + 1);
            assert(t.drop_last() =~= texts(tier@).take(i as int));
            assert(t.last() == tier@[i as int]@);
        }
        if holds_text(files, tier[i].as_str()) {
            found.push(tier[i].clone());
            proof {
                assert(texts(found@) =~= before.push(tier@[i as int]@));
            }
        }
        i += 1;
    }
    proof {
        assert(texts(tier@).take(i as int) =~= texts(tier@));
    }
    if found.len() == 0 {
        Resolution::NotFound
    } else if found.len() == 1 {
        proof {
            assert(texts(found@)[0] == found@[0]@);
        }
        Resolution::Found(found[0].clone())
    } else {
        Resolution::Ambiguous
    }
}

/// Resolve `path` under `base`, where `files` lists the files that exist among its candidates.
pub fn resolve_in_base(
    base: &str,
    path: &str,
    allow_import_only: bool,
    files: &Vec<String>,
) -> (r: Resolution)
    ensures
        r@ == resolution(base@, path@, allow_import_only, texts(files@)),
{
    let list = candidate_tiers(base, path, allow_import_only);
    let ghost all = tiers(base@, path@, allow_import_only);
    let mut k: usize = 0;
    while k < list.len()
        invariant
            k <= list@.len(),
            tables(list@) == all,
            chosen(all, texts(files@), k as int) == resolution(
                base@,
                path@,
                allow_import_only,
                texts(files@),
            ),
        decreases list@.len() - k,
    {
        proof {
            assert(all[k as int] == texts(list@[k as int]@));
        }
        match tier_from(&list[k], files) {
            Resolution::NotFound => {},
            other => {
                return other;
            },
        }
        k += 1;
    }
    Resolution::NotFound
}

/// What resolution finds is a file that exists and a candidate of some tier.
pub proof fn found_file_exists(tiers: Seq<Seq<Seq<char>>>, files: Seq<Seq<char>>, k: int)
    requires
        0 <= k,
    ensures
        chosen(tiers, files, k) is One ==> files.contains(chosen(tiers, files, k)->One_0) && exists|j: int|
            k <= j < tiers.len() && (#[trigger] tiers[j]).contains(chosen(tiers, files, k)->One_0),
    decreases tiers.len() - k,
{
    if k < tiers.len() {
        let here = present(tiers[k], files);
        lemma_present(tiers[k], files);
        if here.len() == 1 {
            assert(tiers[k].contains(here[0]));
        } else if here.len() == 0 {
            found_file_exists(tiers, files, k + 1);
        }
    }
}

/// Every candidate of a module load is a candidate of an import, which has the import-only files
/// besides.
pub proof fn module_candidates_are_import_candidates(base: Seq<char>, path: Seq<char>)
    ensures
        forall|k: int|
            0 <= k < tiers(base, path, false).len() ==> tiers(base, path, true).contains(
                #[trigger] tiers(base, path, false)[k],
            ),
{
    let with = tiers(base, path, true);
    let without = tiers(base, path, false);
    let file = file_of(lexical(path));
    assert forall|k: int| 0 <= k < without.len() implies with.contains(#[trigger] without[k]) by {
        if ends(file, ".css"@) {
            assert(with[k] == without[k]);
        } else if ends(file, ".scss"@) || ends(file, ".sass"@) {
            assert(with[k + 1] == without[k]);
        } else if k < 2 {
            assert(with[k + 1] == without[k]);
        } else {
            assert(with[k + 2] == without[k]);
        }
    }
}

} // verus!
