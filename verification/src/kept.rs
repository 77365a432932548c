//! What an evaluation keeps of what it has loaded.

use vstd::prelude::*;
use crate::env::Mod;
use crate::page::Imported;
use crate::state::{Ids, get, put, put_keeps_others};

verus! {

/// Whether what had been loaded is still there: every import `i` and every module by its key in `c`,
/// and whether the CSS of the modules `m` stands in the output.
#[verifier::opaque]
pub open spec fn kept(
    i: Seq<Imported>,
    c: Ids,
    m: Seq<Mod>,
    later_i: Seq<Imported>,
    later_c: Ids,
    later_m: Seq<Mod>,
) -> bool {
    &&& i.len() <= later_i.len()
    &&& forall|k: int| 0 <= k < i.len() ==> #[trigger] later_i[k] == i[k]
    &&& forall|key: Seq<char>| get(c, key) is Some ==> #[trigger] get(later_c, key) == get(c, key)
    &&& m.len() <= later_m.len()
    &&& forall|k: int|
        0 <= k < m.len() && m[k].emitted_main ==> (#[trigger] later_m[k]).emitted_main
}

pub broadcast proof fn kept_at_first(i: Seq<Imported>, c: Ids, m: Seq<Mod>)
    ensures
        #[trigger] kept(i, c, m, i, c, m),
{
    reveal(kept);
}

pub broadcast proof fn kept_further(
    i: Seq<Imported>,
    c: Ids,
    m: Seq<Mod>,
    i1: Seq<Imported>,
    c1: Ids,
    m1: Seq<Mod>,
    i2: Seq<Imported>,
    c2: Ids,
    m2: Seq<Mod>,
)
    requires
        #[trigger] kept(i, c, m, i1, c1, m1),
        #[trigger] kept(i1, c1, m1, i2, c2, m2),
    ensures
        kept(i, c, m, i2, c2, m2),
{
    reveal(kept);
    assert forall|k: int| 0 <= k < i.len() implies #[trigger] i2[k] == i[k] by {
        assert(i1[k] == i[k]);
    }
    assert forall|key: Seq<char>| get(c, key) is Some implies #[trigger] get(c2, key) == get(
        c,
        key,
    ) by {
        assert(get(c1, key) == get(c, key));
    }
    assert forall|k: int| 0 <= k < m.len() && m[k].emitted_main implies (
    #[trigger] m2[k]).emitted_main by {
        assert(m1[k].emitted_main);
    }
}

/// A module that is new keeps what had been loaded.
pub proof fn kept_with_module(
    i: Seq<Imported>,
    c: Ids,
    m: Seq<Mod>,
    i1: Seq<Imported>,
    c1: Ids,
    m1: Seq<Mod>,
    key: Seq<char>,
    id: usize,
    added: Mod,
)
    requires
        kept(i, c, m, i1, c1, m1),
        get(c, key) is None,
    ensures
        kept(i, c, m, i1, put(c1, key, id), m1.push(added)),
{
    reveal(kept);
    assert forall|k: Seq<char>| get(c, k) is Some implies #[trigger] get(put(c1, key, id), k)
        == get(c, k) by {
        put_keeps_others(c1, key, id, k);
        assert(get(c1, k) == get(c, k));
    }
    assert forall|k: int| 0 <= k < m.len() && m[k].emitted_main implies (#[trigger] m1.push(
        added,
    )[k]).emitted_main by {
        assert(m1[k].emitted_main);
    }
}

pub broadcast group group_kept {
    kept_at_first,
    kept_further,
}

} // verus!
