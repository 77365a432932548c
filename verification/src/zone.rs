//! Which time-zone file a `TZ` value names.

use vstd::prelude::*;
use crate::paths::{split, split_at};
use crate::text::{append, chars_of, rows, string_of, text_of};

verus! {

/// Whether one of the segments could leave the directory, or names nothing.
pub open spec fn climbs(segs: Seq<Seq<char>>) -> bool {
    exists|k: int|
        0 <= k < segs.len() && ((#[trigger] segs[k]).len() == 0 || segs[k] == seq!['.'] || segs[k] == seq![
            '.',
            '.',
        ])
}

/// The name in a `TZ` value: the value without a leading `:`.
pub open spec fn zone_name(tz: Seq<char>) -> Seq<char> {
    if tz.len() > 0 && tz[0] == ':' {
        tz.skip(1)
    } else {
        tz
    }
}

/// The file that a `TZ` value names. An unset or empty one names the system's own; a name is
/// looked up among the zone files, and one that could lead out of them names none.
pub open spec fn zone_path(tz: Option<Seq<char>>) -> Option<Seq<char>> {
    match tz {
        None => Some("/etc/localtime"@),
        Some(t) => {
            let name = zone_name(t);
            if t.len() == 0 {
                Some("/etc/localtime"@)
            } else if name.len() == 0 {
                None
            } else if name[0] == '/' {
                Some(name)
            } else if climbs(split_at(name, '/')) {
                None
            } else {
                Some("/usr/share/zoneinfo/"@ + name)
            }
        },
    }
}

fn segment_climbs(s: &Vec<char>) -> (r: bool)
    ensures
        r == (s@.len() == 0 || s@ == seq!['.'] || s@ == seq!['.', '.']),
{
    let n: usize = s.len();
    proof {
        if n == 1 && s@[0] == '.' {
            assert(s@ =~= seq!['.']);
        }
        if n == 2 && s@[0] == '.' && s@[1] == '.' {
            assert(s@ =~= seq!['.', '.']);
        }
    }
    n == 0 || (n == 1 && s[0] == '.') || (n == 2 && s[0] == '.' && s[1] == '.')
}

/// The file that a `TZ` value names, if it names one.
pub fn tz_path(tz: Option<&str>) -> (r: Option<String>)
    ensures
        text_of(r) == zone_path(
            match tz {
                Some(t) => Some(t@),
                None => None,
            },
        ),
{
    let t = match tz {
        Some(t) => chars_of(t),
        None => {
            return Some("/etc/localtime".to_owned());
        },
    };
    let n: usize = t.len();
    if n == 0 {
        return Some("/etc/localtime".to_owned());
    }
    let from: usize = if t[0] == ':' { 1 } else { 0 };
    let name = vstd::slice::slice_subrange(t.as_slice(), from, n);
    proof {
        assert(name@ =~= zone_name(t@));
    }
    if name.len() == 0 {
        return None;
    }
    if name[0] == '/' {
        return Some(string_of(name));
    }
    let segs = split(name, '/');
    let ghost all = split_at(name@, '/');
    let mut i: usize = 0;
    while i < segs.len()
        invariant
            i <= segs@.len(),
            rows(segs@) == all,
            all == split_at(name@, '/'),
            t@.len() > 0,
            name@ == zone_name(t@),
            name@.len() > 0,
            name@[0] != '/',
            tz is Some,
            t@ == tz->0@,
            forall|k: int|
                0 <= k < i ==> !((#[trigger] all[k]).len() == 0 || all[k] == seq!['.'] || all[k] == seq![
                    '.',
                    '.',
                ]),
        decreases segs@.len() - i,
    {
        proof {
            assert(all[i as int] == segs@[i as int]@);
        }
        if segment_climbs(&segs[i]) {
            return None;
        }
        i += 1;
    }
    let mut out = chars_of("/usr/share/zoneinfo/");
    append(&mut out, name);
    Some(string_of(out.as_slice()))
}

/// A path that is given for a name, and not for an absolute path, is a file below the directory of
/// the zone files: none of its segments is empty, `.` or `..`.
pub proof fn zone_stays_inside(tz: Seq<char>)
    requires
        zone_path(Some(tz)) is Some,
        zone_name(tz).len() > 0,
        zone_name(tz)[0] != '/',
    ensures
        zone_path(Some(tz))->0 == "/usr/share/zoneinfo/"@ + zone_name(tz),
        !climbs(split_at(zone_name(tz), '/')),
{
    if tz.len() == 0 {
        assert(zone_name(tz).len() == 0);
    }
}

} // verus!
