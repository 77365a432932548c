//! Which files a load looks for, and which of them it takes.

use vstd::prelude::*;
use crate::files::{extension, path_syntax};
use crate::names::after_last;
use crate::options::Syntax;
use crate::paths::{Found, chosen, climbed, lexical, path_join, present, resolution, split_at, tiers};
use crate::text::{ends, lower};

verus! {

/// Whether a text names a file without a directory and without an extension of a stylesheet.
pub open spec fn bare_name(n: Seq<char>) -> bool {
    &&& n.len() > 0
    &&& !n.contains('/')
    &&& n != seq!['.']
    &&& n != seq!['.', '.']
    &&& !ends(n, ".css"@)
    &&& !ends(n, ".scss"@)
    &&& !ends(n, ".sass"@)
}

/// Whether a text is the path of a directory that a file's name can be put behind.
pub open spec fn is_directory(d: Seq<char>) -> bool {
    d.len() > 0 && d.last() != '/'
}

/// The path of a file in a directory.
pub open spec fn file_in(d: Seq<char>, file: Seq<char>) -> Seq<char> {
    d + seq!['/'] + file
}

/// A file of a directory, as a partial and plainly.
pub open spec fn both_forms(d: Seq<char>, file: Seq<char>) -> Seq<Seq<char>> {
    seq![file_in(d, seq!['_'] + file), file_in(d, file)]
}

/// The files of either Sass syntax with a stem, in a directory.
pub open spec fn sass_files(d: Seq<char>, stem: Seq<char>) -> Seq<Seq<char>> {
    both_forms(d, stem + ".scss"@) + both_forms(d, stem + ".sass"@)
}

proof fn lemma_pair(d: Seq<char>, stem: Seq<char>, ext: Seq<char>)
    requires
        is_directory(d),
        stem.len() > 0,
        stem[0] != '/',
    ensures
        crate::paths::pair(d, stem, ext, false) == both_forms(d, stem + seq!['.'] + ext),
        crate::paths::pair(d, stem, ext, true) == both_forms(d, stem + ".import"@ + seq!['.'] + ext),
{
    let none = Seq::<char>::empty();
    assert((stem + none).push('.') + ext =~= stem + seq!['.'] + ext);
    assert((stem + ".import"@).push('.') + ext =~= stem + ".import"@ + seq!['.'] + ext);
    lemma_file_in(d, seq!['_'] + (stem + seq!['.'] + ext));
    lemma_file_in(d, stem + seq!['.'] + ext);
    lemma_file_in(d, seq!['_'] + (stem + ".import"@ + seq!['.'] + ext));
    lemma_file_in(d, stem + ".import"@ + seq!['.'] + ext);
    assert((stem + seq!['.'] + ext)[0] == stem[0]);
    assert((stem + ".import"@ + seq!['.'] + ext)[0] == stem[0]);
}

proof fn lemma_file_in(d: Seq<char>, file: Seq<char>)
    requires
        is_directory(d),
        file.len() > 0,
        file[0] != '/',
    ensures
        path_join(d, file) == file_in(d, file),
{
    assert(d.push('/') + file =~= file_in(d, file));
}

proof fn lemma_sass_tier(d: Seq<char>, stem: Seq<char>)
    requires
        is_directory(d),
        stem.len() > 0,
        stem[0] != '/',
    ensures
        crate::paths::sass_tier(d, stem, false) == sass_files(d, stem),
        crate::paths::sass_tier(d, stem, true) == sass_files(d, stem + ".import"@),
{
    lemma_pair(d, stem, "scss"@);
    lemma_pair(d, stem, "sass"@);
    lemma_dotted(stem);
    lemma_dotted(stem + ".import"@);
}

proof fn lemma_dotted(stem: Seq<char>)
    ensures
        stem + seq!['.'] + "scss"@ == stem + ".scss"@,
        stem + seq!['.'] + "sass"@ == stem + ".sass"@,
        stem + seq!['.'] + "css"@ == stem + ".css"@,
{
    reveal_strlit("scss");
    reveal_strlit("sass");
    reveal_strlit("css");
    reveal_strlit(".scss");
    reveal_strlit(".sass");
    reveal_strlit(".css");
    assert(stem + seq!['.'] + "scss"@ =~= stem + ".scss"@);
    assert(stem + seq!['.'] + "sass"@ =~= stem + ".sass"@);
    assert(stem + seq!['.'] + "css"@ =~= stem + ".css"@);
}

proof fn lemma_bare_lexical(n: Seq<char>)
    requires
        n.len() > 0,
        !n.contains('/'),
        n != seq!['.'],
        n != seq!['.', '.'],
    ensures
        lexical(n) == n,
        crate::paths::parent_of(n) is None,
        crate::paths::file_of(n) == n,
        n[0] != '/',
{
    lemma_unsplit(n);
    assert(n.contains(n[0]));
    let one = seq![n];
    assert(one.drop_last() =~= Seq::<Seq<char>>::empty());
    assert(climbed(Seq::<Seq<char>>::empty()) == Seq::<Seq<char>>::empty());
    assert(climbed(one) =~= one);
    lemma_unsuffixed(n);
}

proof fn lemma_unsplit(n: Seq<char>)
    requires
        !n.contains('/'),
    ensures
        split_at(n, '/') == seq![n],
    decreases n.len(),
{
    if n.len() > 0 {
        let less = n.drop_last();
        assert(n.contains(n[n.len() - 1]));
        assert(!less.contains('/')) by {
            if less.contains('/') {
                let k = choose|k: int| 0 <= k < less.len() && less[k] == '/';
                assert(n[k] == '/');
            }
        }
        lemma_unsplit(less);
        assert(less.push(n.last()) =~= n);
        assert(seq![less].drop_last().push(seq![less].last().push(n.last())) =~= seq![n]);
    } else {
        assert(n =~= Seq::<char>::empty());
    }
}

proof fn lemma_unsuffixed(n: Seq<char>)
    requires
        !n.contains('/'),
    ensures
        after_last(n, '/') == n,
    decreases n.len(),
{
    if n.len() > 0 {
        let less = n.drop_last();
        assert(n.contains(n[n.len() - 1]));
        assert(!less.contains('/')) by {
            if less.contains('/') {
                let k = choose|k: int| 0 <= k < less.len() && less[k] == '/';
                assert(n[k] == '/');
            }
        }
        lemma_unsuffixed(less);
        assert(less.push(n.last()) =~= n);
    }
}

/// A bare name stands for a Sass file of that name, plain or as a partial; failing that for a CSS file;
/// failing that for the index of a directory of that name.
pub proof fn bare_name_stands_for_files(base: Seq<char>, n: Seq<char>)
    requires
        is_directory(base),
        bare_name(n),
        n.last() != '/',
    ensures
        tiers(base, n, false) == seq![
            sass_files(base, n),
            both_forms(base, n + ".css"@),
            sass_files(file_in(base, n), "index"@),
        ],
{
    lemma_bare_lexical(n);
    lemma_sass_tier(base, n);
    lemma_pair(base, n, "css"@);
    lemma_dotted(n);
    lemma_file_in(base, n);
    reveal_strlit("index");
    assert(file_in(base, n).last() == n.last());
    lemma_sass_tier(file_in(base, n), "index"@);
    assert(tiers(base, n, false) =~= seq![
        sass_files(base, n),
        both_forms(base, n + ".css"@),
        sass_files(file_in(base, n), "index"@),
    ]);
}

/// An `@import` looks for import-only files before the others, of the name and of the index.
pub proof fn imports_look_for_import_only_files_first(base: Seq<char>, n: Seq<char>)
    requires
        is_directory(base),
        bare_name(n),
        n.last() != '/',
    ensures
        tiers(base, n, true) == seq![
            sass_files(base, n + ".import"@),
            sass_files(base, n),
            both_forms(base, n + ".css"@),
            sass_files(file_in(base, n), "index"@ + ".import"@),
            sass_files(file_in(base, n), "index"@),
        ],
{
    lemma_bare_lexical(n);
    lemma_sass_tier(base, n);
    lemma_pair(base, n, "css"@);
    lemma_dotted(n);
    lemma_file_in(base, n);
    reveal_strlit("index");
    assert(file_in(base, n).last() == n.last());
    lemma_sass_tier(file_in(base, n), "index"@);
    assert(tiers(base, n, true) =~= seq![
        sass_files(base, n + ".import"@),
        sass_files(base, n),
        both_forms(base, n + ".css"@),
        sass_files(file_in(base, n), "index"@ + ".import"@),
        sass_files(file_in(base, n), "index"@),
    ]);
}

/// Whether no file of a list is among those there are.
pub open spec fn none_there(list: Seq<Seq<char>>, files: Seq<Seq<char>>) -> bool {
    forall|k: int| 0 <= k < list.len() ==> !files.contains(#[trigger] list[k])
}

/// The first kind of file that there is any of decides: one such file is taken, and several are an
/// error.
pub proof fn first_kind_decides(list: Seq<Seq<Seq<char>>>, files: Seq<Seq<char>>, k: int, at: int, x: int)
    requires
        0 <= k <= at < list.len(),
        forall|j: int| k <= j < at ==> none_there(#[trigger] list[j], files),
        0 <= x < list[at].len(),
        files.contains(list[at][x]),
    ensures
        (forall|y: int| 0 <= y < list[at].len() && y != x ==> !files.contains(#[trigger] list[at][y]))
            ==> chosen(list, files, k) == Found::One(list[at][x]),
        forall|y: int|
            0 <= y < list[at].len() && y != x && files.contains(#[trigger] list[at][y]) ==> chosen(
                list,
                files,
                k,
            ) == Found::Many,
    decreases at - k,
{
    if k < at {
        assert(none_there(list[k], files));
        lemma_nothing_present(list[k], files);
        first_kind_decides(list, files, k + 1, at, x);
        assert(chosen(list, files, k) == chosen(list, files, k + 1));
    } else {
        lemma_present_count(list[at], files, x);
    }
}

/// Where there is none of the files that a name stands for, nothing is found.
pub proof fn nothing_is_found_where_nothing_is(list: Seq<Seq<Seq<char>>>, files: Seq<Seq<char>>, k: int)
    requires
        0 <= k <= list.len(),
        forall|j: int| k <= j < list.len() ==> none_there(#[trigger] list[j], files),
    ensures
        chosen(list, files, k) == Found::Nothing,
    decreases list.len() - k,
{
    if k < list.len() {
        assert(none_there(list[k], files));
        lemma_nothing_present(list[k], files);
        nothing_is_found_where_nothing_is(list, files, k + 1);
    }
}

proof fn lemma_nothing_present(tier: Seq<Seq<char>>, files: Seq<Seq<char>>)
    requires
        none_there(tier, files),
    ensures
        present(tier, files).len() == 0,
    decreases tier.len(),
{
    if tier.len() > 0 {
        let less = tier.drop_last();
        assert(!files.contains(tier[tier.len() - 1]));
        assert forall|k: int| 0 <= k < less.len() implies !files.contains(#[trigger] less[k]) by {
            assert(less[k] == tier[k]);
        }
        lemma_nothing_present(less, files);
    }
}

proof fn lemma_present_count(tier: Seq<Seq<char>>, files: Seq<Seq<char>>, x: int)
    requires
        0 <= x < tier.len(),
        files.contains(tier[x]),
    ensures
        present(tier, files).len() >= 1,
        (forall|y: int| 0 <= y < tier.len() && y != x ==> !files.contains(#[trigger] tier[y])) ==> present(
            tier,
            files,
        ) == seq![tier[x]],
        forall|y: int|
            0 <= y < tier.len() && y != x && files.contains(#[trigger] tier[y]) ==> present(
                tier,
                files,
            ).len() >= 2,
    decreases tier.len(),
{
    let less = tier.drop_last();
    let n = tier.len() - 1;
    if x < n {
        lemma_present_count(less, files, x);
        assert(less[x] == tier[x]);
        if forall|y: int| 0 <= y < tier.len() && y != x ==> !files.contains(#[trigger] tier[y]) {
            assert(!files.contains(tier[n]));
            assert forall|y: int| 0 <= y < less.len() && y != x implies !files.contains(
                #[trigger] less[y],
            ) by {
                assert(less[y] == tier[y]);
            }
        }
        assert forall|y: int|
            0 <= y < tier.len() && y != x && files.contains(#[trigger] tier[y]) implies present(
            tier,
            files,
        ).len() >= 2 by {
            if y < n {
                assert(less[y] == tier[y]);
                assert(present(less, files).len() >= 2);
            }
        }
    } else {
        if forall|y: int| 0 <= y < tier.len() && y != x ==> !files.contains(#[trigger] tier[y]) {
            assert forall|y: int| 0 <= y < less.len() implies !files.contains(#[trigger] less[y]) by {
                assert(less[y] == tier[y]);
            }
            lemma_nothing_present(less, files);
            assert(present(tier, files) =~= seq![tier[x]]);
        }
        assert forall|y: int|
            0 <= y < tier.len() && y != x && files.contains(#[trigger] tier[y]) implies present(
            tier,
            files,
        ).len() >= 2 by {
            assert(less[y] == tier[y]);
            lemma_present_count(less, files, y);
        }
    }
}

/// A partial is found by its bare name, without its underscore and its extension.
pub proof fn partial_is_found_by_its_bare_name(base: Seq<char>, n: Seq<char>, files: Seq<Seq<char>>)
    requires
        is_directory(base),
        bare_name(n),
        files.contains(file_in(base, seq!['_'] + (n + ".scss"@))),
        !files.contains(file_in(base, n + ".scss"@)),
        !files.contains(file_in(base, seq!['_'] + (n + ".sass"@))),
        !files.contains(file_in(base, n + ".sass"@)),
    ensures
        resolution(base, n, false, files) == Found::One(file_in(base, seq!['_'] + (n + ".scss"@))),
{
    assert(n.contains(n[n.len() - 1]));
    bare_name_stands_for_files(base, n);
    let list = tiers(base, n, false);
    let t = sass_files(base, n);
    assert(list[0] == t);
    assert(t[0] == file_in(base, seq!['_'] + (n + ".scss"@)));
    assert(t[1] == file_in(base, n + ".scss"@));
    assert(t[2] == file_in(base, seq!['_'] + (n + ".sass"@)));
    assert(t[3] == file_in(base, n + ".sass"@));
    first_kind_decides(list, files, 0, 0, 0);
}

/// A name that stands for a partial and for a plain file of the same kind is an error.
pub proof fn partial_and_plain_file_are_ambiguous(base: Seq<char>, n: Seq<char>, files: Seq<Seq<char>>)
    requires
        is_directory(base),
        bare_name(n),
        files.contains(file_in(base, seq!['_'] + (n + ".scss"@))),
        files.contains(file_in(base, n + ".scss"@)),
    ensures
        resolution(base, n, false, files) == Found::Many,
{
    assert(n.contains(n[n.len() - 1]));
    bare_name_stands_for_files(base, n);
    let list = tiers(base, n, false);
    let t = sass_files(base, n);
    assert(list[0] == t);
    assert(t[0] == file_in(base, seq!['_'] + (n + ".scss"@)));
    assert(t[1] == file_in(base, n + ".scss"@));
    first_kind_decides(list, files, 0, 0, 0);
    assert(files.contains(list[0][1]));
}

/// A part `.` of a path changes nothing.
pub proof fn dot_changes_nothing(a: Seq<Seq<char>>, b: Seq<Seq<char>>)
    ensures
        climbed(a + seq![seq!['.']] + b) == climbed(a + b),
    decreases b.len(),
{
    let all = a + seq![seq!['.']] + b;
    if b.len() == 0 {
        assert(all.drop_last() =~= a);
        assert(a + b =~= a);
    } else {
        let less = b.drop_last();
        dot_changes_nothing(a, less);
        assert(all.drop_last() =~= a + seq![seq!['.']] + less);
        assert((a + b).drop_last() =~= a + less);
        assert(all.last() == b.last());
        assert((a + b).last() == b.last());
    }
}

/// A part of a path and the `..` behind it take each other away.
pub proof fn dots_take_the_part_before(a: Seq<Seq<char>>, x: Seq<char>, b: Seq<Seq<char>>)
    requires
        x.len() > 0,
        x != seq!['.'],
        x != seq!['.', '.'],
    ensures
        climbed(a + seq![x, seq!['.', '.']] + b) == climbed(a + b),
    decreases b.len(),
{
    let dots = seq!['.', '.'];
    let all = a + seq![x, dots] + b;
    if b.len() == 0 {
        let one = a.push(x);
        assert(all.drop_last() =~= one);
        assert(all.last() == dots);
        assert(one.drop_last() =~= a);
        assert(a + b =~= a);
        assert(climbed(one) == climbed(a).push(x));
        assert(dots.len() == 2 && seq!['.'].len() == 1);
        assert(climbed(one).drop_last() =~= climbed(a));
    } else {
        let less = b.drop_last();
        dots_take_the_part_before(a, x, less);
        assert(all.drop_last() =~= a + seq![x, dots] + less);
        assert((a + b).drop_last() =~= a + less);
        assert(all.last() == b.last());
        assert((a + b).last() == b.last());
    }
}

/// The syntax of a file is that of its extension, in any case; SCSS where that says nothing else.
pub proof fn syntax_follows_the_extension(d: Seq<char>, stem: Seq<char>, ext: Seq<char>)
    requires
        stem.len() > 0,
        !stem.contains('/'),
        ext.len() > 0,
        !ext.contains('/'),
        !ext.contains('.'),
    ensures
        ({
            let syntax = path_syntax(file_in(d, stem + seq!['.'] + ext));
            &&& lower(ext) == "sass"@ ==> syntax == Syntax::Sass
            &&& lower(ext) == "css"@ ==> syntax == Syntax::Css
            &&& lower(ext) != "sass"@ && lower(ext) != "css"@ ==> syntax == Syntax::Scss
        }),
{
    let file = stem + seq!['.'] + ext;
    let path = file_in(d, file);
    let e = ext[ext.len() - 1];
    assert(ext.contains(e));
    assert(path[path.len() - 1] == e);
    assert(file.last() == e);
    assert(crate::paths::segments_end(path, path.len() as int) == path.len());
    assert(path.take(path.len() as int) =~= path);
    assert(!file.contains('/')) by {
        if file.contains('/') {
            let k = choose|k: int| 0 <= k < file.len() && file[k] == '/';
            if k < stem.len() {
                assert(stem[k] == '/');
            } else if k > stem.len() {
                assert(ext[k - stem.len() - 1] == '/');
            }
        }
    }
    lemma_behind_last(d + seq!['/'], file, '/');
    assert(stem + seq!['.'] + ext =~= (stem + seq!['.']) + ext);
    lemma_behind_last(stem + seq!['.'], ext, '.');
    assert(extension(path) == Some(ext)) by {
        assert(seq!['.', '.'].last() == '.');
    }
    reveal_strlit("sass");
    reveal_strlit("css");
    assert("sass"@.len() != "css"@.len());
}

proof fn lemma_behind_last(head: Seq<char>, t: Seq<char>, c: char)
    requires
        head.len() > 0,
        head.last() == c,
        !t.contains(c),
    ensures
        after_last(head + t, c) == t,
    decreases t.len(),
{
    if t.len() == 0 {
        assert(head + t =~= head);
    } else {
        let u = t.drop_last();
        assert(t.contains(t[t.len() - 1]));
        assert(!u.contains(c)) by {
            if u.contains(c) {
                let k = choose|k: int| 0 <= k < u.len() && u[k] == c;
                assert(t[k] == c);
            }
        }
        lemma_behind_last(head, u, c);
        assert((head + t).drop_last() =~= head + u);
        assert(u.push(t.last()) =~= t);
    }
}

} // verus!
