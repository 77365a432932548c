//! The search for a file along a list of directories.

use vstd::prelude::*;
use crate::names::{after_last, tail_after_last};
use crate::options::Syntax;
use crate::paths::{
    Found, Resolution, candidate_tiers, chosen, found_file_exists, lemma_after_last_suffix, present,
    resolution, resolve_in_base, strip_trail, tables, tiers, without_trail,
};
use crate::text::{chars_of, holds_text, lower, spells, text_of, texts, to_lower};

verus! {

/// The extension of the file that a path names: what follows the last `.` of its last segment,
/// unless that is its first character. A separator or a segment `.` at the end does not count.
pub open spec fn extension(path: Seq<char>) -> Option<Seq<char>> {
    let file = after_last(without_trail(path), '/');
    let ext = after_last(file, '.');
    if file == seq!['.', '.'] || ext.len() + 1 >= file.len() {
        None
    } else {
        Some(ext)
    }
}

/// The syntax that a file of this path is in.
pub open spec fn path_syntax(path: Seq<char>) -> Syntax {
    match extension(path) {
        Some(e) => if lower(e) == "sass"@ {
            Syntax::Sass
        } else if lower(e) == "css"@ {
            Syntax::Css
        } else {
            Syntax::Scss
        },
        None => Syntax::Scss,
    }
}

pub fn syntax_for_path(path: &str) -> (r: Syntax)
    ensures
        r == path_syntax(path@),
{
    let chars = chars_of(path);
    let file = tail_after_last(strip_trail(chars.as_slice()), '/');
    let ext = tail_after_last(file, '.');
    proof {
        lemma_after_last_suffix(file@, '.');
        if file@ == seq!['.', '.'] {
            assert(ext@ =~= Seq::empty());
            reveal_strlit("sass");
            reveal_strlit("css");
            assert(lower(ext@).len() == 0);
            assert("sass"@.len() == 4 && "css"@.len() == 3);
        }
    }
    if file.len() == 0 || ext.len() >= file.len() - 1 {
        return Syntax::Scss;
    }
    let low = to_lower(ext);
    if spells(low.as_slice(), "sass") {
        Syntax::Sass
    } else if spells(low.as_slice(), "css") {
        Syntax::Css
    } else {
        Syntax::Scss
    }
}

/// The key of a file that was found: its canonical path, or where there is none its own.
pub open spec fn file_key(found: Seq<char>, canonical: Option<Seq<char>>) -> Seq<char> {
    match canonical {
        Some(c) => c,
        None => found,
    }
}

/// What is answered with a file that was found: its key, its text and its syntax.
pub fn found_source(found: &str, canonical: Option<String>, text: String) -> (r: (String, String, Syntax))
    ensures
        r.0@ == file_key(found@, text_of(canonical)),
        r.1 == text,
        r.2 == path_syntax(found@),
{
    let syntax = syntax_for_path(found);
    let key = match canonical {
        Some(c) => c,
        None => found.to_owned(),
    };
    (key, text, syntax)
}

/// An importer that looks for partials (`_name.scss`, `name/_index.scss`) along a list of
/// directories.
pub struct FsImporter {
    pub load_paths: Vec<String>,
}

/// The directories of a search: that of the importing file, then the load paths.
pub open spec fn search_bases(base_dir: Option<Seq<char>>, load_paths: Seq<Seq<char>>) -> Seq<Seq<char>> {
    match base_dir {
        Some(b) => seq![b] + load_paths,
        None => load_paths,
    }
}

/// The file that a search of the directories from `k` on comes to: the first that resolves, is
/// not ambiguous, and can be read. An ambiguous URL ends the search.
pub open spec fn searched(
    bases: Seq<Seq<char>>,
    path: Seq<char>,
    import_only: bool,
    files: Seq<Seq<char>>,
    unreadable: Seq<Seq<char>>,
    k: int,
) -> Option<Seq<char>>
    decreases bases.len() - k,
{
    if k < 0 || k >= bases.len() {
        None
    } else {
        match resolution(bases[k], path, import_only, files) {
            Found::Many => None,
            Found::One(p) => if unreadable.contains(p) {
                searched(bases, path, import_only, files, unreadable, k + 1)
            } else {
                Some(p)
            },
            Found::Nothing => searched(bases, path, import_only, files, unreadable, k + 1),
        }
    }
}

/// The candidates of the directories from `k` on.
pub open spec fn all_candidates(bases: Seq<Seq<char>>, path: Seq<char>, import_only: bool, k: int) -> Seq<
    Seq<Seq<char>>,
>
    decreases bases.len() - k,
{
    if k < 0 || k >= bases.len() {
        Seq::empty()
    } else {
        tiers(bases[k], path, import_only) + all_candidates(bases, path, import_only, k + 1)
    }
}

impl FsImporter {
    /// An importer that searches `load_paths` in order.
    pub fn new(load_paths: Vec<String>) -> (r: Self)
        ensures
            r.load_paths == load_paths,
    {
        FsImporter { load_paths }
    }

    /// The directories that a search goes through.
    pub fn bases(&self, base_dir: Option<&str>) -> (r: Vec<String>)
        ensures
            texts(r@) == search_bases(
                match base_dir {
                    Some(b) => Some(b@),
                    None => None,
                },
                texts(self.load_paths@),
            ),
    {
        let mut out: Vec<String> = Vec::new();
        if let Some(b) = base_dir {
            out.push(b.to_owned());
        }
        let ghost head = texts(out@);
        let mut i: usize = 0;
        let ghost all = texts(self.load_paths@);
        proof {
            assert(texts(out@) =~= head + all.take(0));
        }
        while i < self.load_paths.len()
            invariant
                i <= self.load_paths@.len(),
                all == texts(self.load_paths@),
                texts(out@) == head + all.take(i as int),
            decreases self.load_paths@.len() - i,
        {
            let ghost before = texts(out@);
            out.push(self.load_paths[i].clone());
            i += 1;
            proof {
                assert(texts(out@) =~= before.push(all[i - 1]));
                assert(head + all.take(i as int) =~= (head + all.take(i - 1)).push(all[i - 1]));
            }
        }
        proof {
            assert(all.take(i as int) =~= all);
            match base_dir {
                Some(b) => {
                    assert(head =~= seq![b@]);
                },
                None => {
                    assert(head + all =~= all);
                },
            }
        }
        out
    }

    /// The files whose existence decides the search, in tiers.
    pub fn candidates(&self, path: &str, base_dir: Option<&str>, allow_import_only: bool) -> (r: Vec<
        Vec<String>,
    >)
        ensures
            tables(r@) == all_candidates(
                search_bases(
                    match base_dir {
                        Some(b) => Some(b@),
                        None => None,
                    },
                    texts(self.load_paths@),
                ),
                path@,
                allow_import_only,
                0,
            ),
    {
        let bases = self.bases(base_dir);
        let ghost bs = texts(bases@);
        let ghost goal = all_candidates(bs, path@, allow_import_only, 0);
        let mut out: Vec<Vec<String>> = Vec::new();
        let mut k: usize = 0;
        proof {
            assert(tables(out@) + goal =~= goal);
        }
        while k < bases.len()
            invariant
                k <= bases@.len(),
                bs == texts(bases@),
                tables(out@) + all_candidates(bs, path@, allow_import_only, k as int) == goal,
            decreases bases@.len() - k,
        {
            let ghost before = tables(out@);
            let ghost rest = all_candidates(bs, path@, allow_import_only, k + 1);
            let mut here = candidate_tiers(bases[k].as_str(), path, allow_import_only);
            let ghost hv = tables(here@);
            out.append(&mut here);
            proof {
                assert(tables(out@) =~= before + hv);
                assert(before + hv + rest =~= before + (hv + rest));
            }
            k += 1;
        }
        proof {
            assert(tables(out@) + Seq::<Seq<Seq<char>>>::empty() =~= tables(out@));
        }
        out
    }

    /// The file that a search comes to, where `files` lists the candidates that exist and
    /// `unreadable` those whose reading failed.
    pub fn search(
        &self,
        path: &str,
        base_dir: Option<&str>,
        allow_import_only: bool,
        files: &Vec<String>,
        unreadable: &Vec<String>,
    ) -> (r: Option<String>)
        ensures
            text_of(r) == searched(
                search_bases(
                    match base_dir {
                        Some(b) => Some(b@),
                        None => None,
                    },
                    texts(self.load_paths@),
                ),
                path@,
                allow_import_only,
                texts(files@),
                texts(unreadable@),
                0,
            ),
    {
        let bases = self.bases(base_dir);
        let ghost bs = texts(bases@);
        let ghost goal = searched(
            bs,
            path@,
            allow_import_only,
            texts(files@),
            texts(unreadable@),
            0,
        );
        let mut k: usize = 0;
        while k < bases.len()
            invariant
                k <= bases@.len(),
                bs == texts(bases@),
                bs == search_bases(
                    match base_dir {
                        Some(b) => Some(b@),
                        None => None,
                    },
                    texts(self.load_paths@),
                ),
                goal == searched(
                    bs,
                    path@,
                    allow_import_only,
                    texts(files@),
                    texts(unreadable@),
                    0,
                ),
                searched(
                    bs,
                    path@,
                    allow_import_only,
                    texts(files@),
                    texts(unreadable@),
                    k as int,
                ) == goal,
            decreases bases@.len() - k,
        {
            match resolve_in_base(bases[k].as_str(), path, allow_import_only, files) {
                Resolution::Found(p) => {
                    if !holds_text(unreadable, p.as_str()) {
                        return Some(p);
                    }
                },
                Resolution::Ambiguous => {
                    return None;
                },
                Resolution::NotFound => {},
            }
            k += 1;
        }
        None
    }
}

/// The first directory in which a URL resolves decides: a file that is found there and can be read is
/// what the search comes to, whatever the directories after it hold. The directory of the importing
/// file comes before all others.
pub proof fn first_directory_decides(
    base_dir: Option<Seq<char>>,
    load_paths: Seq<Seq<char>>,
    path: Seq<char>,
    import_only: bool,
    files: Seq<Seq<char>>,
    unreadable: Seq<Seq<char>>,
    i: int,
)
    requires
        ({
            let bases = search_bases(base_dir, load_paths);
            &&& 0 <= i < bases.len()
            &&& forall|j: int|
                0 <= j < i ==> resolution(#[trigger] bases[j], path, import_only, files) == Found::Nothing
            &&& resolution(bases[i], path, import_only, files) is One
            &&& !unreadable.contains(resolution(bases[i], path, import_only, files)->One_0)
        }),
    ensures
        ({
            let bases = search_bases(base_dir, load_paths);
            searched(bases, path, import_only, files, unreadable, 0) == Some(
                resolution(bases[i], path, import_only, files)->One_0,
            )
        }),
        base_dir is Some ==> search_bases(base_dir, load_paths)[0] == base_dir->0,
        base_dir is Some ==> search_bases(base_dir, load_paths).skip(1) == load_paths,
        base_dir is None ==> search_bases(base_dir, load_paths) == load_paths,
{
    let bases = search_bases(base_dir, load_paths);
    lemma_nothing_found_before(bases, path, import_only, files, unreadable, 0, i);
    if base_dir is Some {
        assert(bases.skip(1) =~= load_paths);
    }
}

proof fn lemma_nothing_found_before(
    bases: Seq<Seq<char>>,
    path: Seq<char>,
    import_only: bool,
    files: Seq<Seq<char>>,
    unreadable: Seq<Seq<char>>,
    k: int,
    i: int,
)
    requires
        0 <= k <= i < bases.len(),
        forall|j: int|
            k <= j < i ==> resolution(#[trigger] bases[j], path, import_only, files) == Found::Nothing,
    ensures
        searched(bases, path, import_only, files, unreadable, k) == searched(
            bases,
            path,
            import_only,
            files,
            unreadable,
            i,
        ),
    decreases i - k,
{
    if k < i {
        assert(resolution(bases[k], path, import_only, files) == Found::Nothing);
        lemma_nothing_found_before(bases, path, import_only, files, unreadable, k + 1, i);
    }
}

/// What a search comes to exists and was not found unreadable.
pub proof fn searched_file_exists(
    bases: Seq<Seq<char>>,
    path: Seq<char>,
    import_only: bool,
    files: Seq<Seq<char>>,
    unreadable: Seq<Seq<char>>,
    k: int,
)
    requires
        0 <= k,
    ensures
        match searched(bases, path, import_only, files, unreadable, k) {
            Some(p) => files.contains(p) && !unreadable.contains(p),
            None => true,
        },
    decreases bases.len() - k,
{
    if k < bases.len() {
        found_file_exists(tiers(bases[k], path, import_only), files, 0);
        match resolution(bases[k], path, import_only, files) {
            Found::Many => {},
            _ => {
                searched_file_exists(bases, path, import_only, files, unreadable, k + 1);
            },
        }
    }
}

/// Whether two lists hold the same of the candidates.
pub open spec fn same_listing(
    candidates: Seq<Seq<Seq<char>>>,
    a: Seq<Seq<char>>,
    b: Seq<Seq<char>>,
) -> bool {
    forall|t: int, x: Seq<char>|
        0 <= t < candidates.len() && #[trigger] candidates[t].contains(x) ==> a.contains(x)
            == b.contains(x)
}

/// Without a directory of an importing file, all lookups of an import choose the same file, and take
/// it to be in the same syntax, as long as the same candidates exist and can be read: the search
/// goes along the load paths, and what else there is has no influence.
pub proof fn import_lookups_agree(
    load_paths: Seq<Seq<char>>,
    path: Seq<char>,
    files: Seq<Seq<char>>,
    unreadable: Seq<Seq<char>>,
    later_files: Seq<Seq<char>>,
    later_unreadable: Seq<Seq<char>>,
)
    requires
        same_listing(all_candidates(load_paths, path, true, 0), files, later_files),
        same_listing(all_candidates(load_paths, path, true, 0), unreadable, later_unreadable),
    ensures
        ({
            let first = searched(search_bases(None, load_paths), path, true, files, unreadable, 0);
            let second = searched(
                search_bases(None, load_paths),
                path,
                true,
                later_files,
                later_unreadable,
                0,
            );
            &&& first == second
            &&& first == searched(load_paths, path, true, files, unreadable, 0)
            &&& first is Some ==> path_syntax(first->0) == path_syntax(second->0)
        }),
{
    search_sees_only_candidates(
        load_paths,
        path,
        true,
        files,
        unreadable,
        later_files,
        later_unreadable,
        0,
    );
}

/// A search depends on which of its candidates exist and can be read, and on nothing else.
pub proof fn search_sees_only_candidates(
    bases: Seq<Seq<char>>,
    path: Seq<char>,
    import_only: bool,
    files: Seq<Seq<char>>,
    unreadable: Seq<Seq<char>>,
    later_files: Seq<Seq<char>>,
    later_unreadable: Seq<Seq<char>>,
    k: int,
)
    requires
        0 <= k,
        same_listing(all_candidates(bases, path, import_only, k), files, later_files),
        same_listing(all_candidates(bases, path, import_only, k), unreadable, later_unreadable),
    ensures
        searched(bases, path, import_only, files, unreadable, k) == searched(
            bases,
            path,
            import_only,
            later_files,
            later_unreadable,
            k,
        ),
    decreases bases.len() - k,
{
    if k < bases.len() {
        let here = tiers(bases[k], path, import_only);
        let rest = all_candidates(bases, path, import_only, k + 1);
        lemma_listing_split(here, rest, files, later_files);
        lemma_listing_split(here, rest, unreadable, later_unreadable);
        lemma_chosen_agrees(here, files, later_files, 0);
        found_file_exists(here, files, 0);
        search_sees_only_candidates(
            bases,
            path,
            import_only,
            files,
            unreadable,
            later_files,
            later_unreadable,
            k + 1,
        );
    }
}

proof fn lemma_listing_split(
    here: Seq<Seq<Seq<char>>>,
    rest: Seq<Seq<Seq<char>>>,
    a: Seq<Seq<char>>,
    b: Seq<Seq<char>>,
)
    requires
        same_listing(here + rest, a, b),
    ensures
        same_listing(here, a, b),
        same_listing(rest, a, b),
{
    let all = here + rest;
    assert forall|t: int, x: Seq<char>|
        0 <= t < here.len() && #[trigger] here[t].contains(x) implies a.contains(x) == b.contains(x) by {
        assert(all[t].contains(x));
    }
    assert forall|t: int, x: Seq<char>|
        0 <= t < rest.len() && #[trigger] rest[t].contains(x) implies a.contains(x) == b.contains(x) by {
        assert(all[here.len() + t].contains(x));
    }
}

proof fn lemma_chosen_agrees(
    list: Seq<Seq<Seq<char>>>,
    a: Seq<Seq<char>>,
    b: Seq<Seq<char>>,
    k: int,
)
    requires
        0 <= k,
        same_listing(list, a, b),
    ensures
        chosen(list, a, k) == chosen(list, b, k),
    decreases list.len() - k,
{
    if k < list.len() {
        assert forall|x: Seq<char>| #[trigger] list[k].contains(x) implies a.contains(x) == b.contains(
            x,
        ) by {}
        lemma_present_agrees(list[k], a, b);
        lemma_chosen_agrees(list, a, b, k + 1);
    }
}

proof fn lemma_present_agrees(tier: Seq<Seq<char>>, a: Seq<Seq<char>>, b: Seq<Seq<char>>)
    requires
        forall|x: Seq<char>| #[trigger] tier.contains(x) ==> a.contains(x) == b.contains(x),
    ensures
        present(tier, a) == present(tier, b),
    decreases tier.len(),
{
    if tier.len() > 0 {
        let t = tier.drop_last();
        assert forall|x: Seq<char>| #[trigger] t.contains(x) implies a.contains(x) == b.contains(x) by {
            let i = choose|i: int| 0 <= i < t.len() && t[i] == x;
            assert(tier[i] == x);
            assert(tier.contains(x));
        }
        lemma_present_agrees(t, a, b);
        assert(tier.contains(tier.last()));
    }
}

/// A file has one key: two lookups whose searches end at the same file, by whatever URLs and from
/// whatever directories, give the same key, and so do two whose files have the same canonical path.
/// What the canonical path of a file is, the file system says.
pub proof fn one_file_has_one_key(
    bases: Seq<Seq<char>>,
    path: Seq<char>,
    later_bases: Seq<Seq<char>>,
    later_path: Seq<char>,
    import_only: bool,
    later_import_only: bool,
    files: Seq<Seq<char>>,
    unreadable: Seq<Seq<char>>,
    canonical: spec_fn(Seq<char>) -> Option<Seq<char>>,
)
    requires
        searched(bases, path, import_only, files, unreadable, 0) is Some,
        searched(later_bases, later_path, later_import_only, files, unreadable, 0) is Some,
    ensures
        ({
            let p = searched(bases, path, import_only, files, unreadable, 0)->0;
            let q = searched(later_bases, later_path, later_import_only, files, unreadable, 0)->0;
            p == q || (canonical(p) is Some && canonical(p) == canonical(q)) ==> file_key(p, canonical(p))
                == file_key(q, canonical(q))
        }),
{
}

} // verus!
