use vstd::prelude::*;
use vstd::string::*;
use crate::error::Error;
use crate::outside::{json_string_list, parse_json_string_list};
use crate::perm::{
    grants_lookup, grants_unique, grants_upsert, lemma_grants_upsert, Permission, PermissionMap,
};

verus! {

// ---------------------------------------------------------------------------
// Grant strings from the authorization service: "{club}-{level}"
// ---------------------------------------------------------------------------

/// Index of the first `-` in `e`, or -1 when there is none.
pub open spec fn first_dash(e: Seq<char>) -> int
    decreases e.len(),
{
    if e.len() == 0 {
        -1
    } else if e[0] == '-' {
        0
    } else {
        let r = first_dash(e.skip(1));
        if r < 0 {
            -1
        } else {
            r + 1
        }
    }
}

/// What one grant string denotes: the club before the first `-`, and the
/// permission named by everything after it — exactly `r` or `rw`. Anything
/// else is malformed.
pub open spec fn grant_of(e: Seq<char>) -> Option<(Seq<char>, Permission)> {
    let d = first_dash(e);
    if d < 0 {
        None
    } else {
        let name = e.take(d);
        let level = e.skip(d + 1);
        if level == seq!['r'] {
            Some((name, Permission::Read))
        } else if level == seq!['r', 'w'] {
            Some((name, Permission::ReadWrite))
        } else {
            None
        }
    }
}

/// Folding the fetched grant strings over an accumulator, left to right;
/// one malformed entry fails the whole resolution.
pub open spec fn resolve_entries(
    acc: Seq<(Seq<char>, Permission)>,
    entries: Seq<Seq<char>>,
) -> Option<Seq<(Seq<char>, Permission)>>
    decreases entries.len(),
{
    if entries.len() == 0 {
        Some(acc)
    } else {
        match grant_of(entries[0]) {
            None => None,
            Some((name, p)) => resolve_entries(grants_upsert(acc, name, p), entries.skip(1)),
        }
    }
}

/// The grants a subject ends up with: the default seed, overridden by
/// whatever the authorization service reported.
pub open spec fn spec_resolve(entries: Seq<Seq<char>>) -> Option<Seq<(Seq<char>, Permission)>> {
    resolve_entries(seq![("metadorerna"@, Permission::Read)], entries)
}

/// A scan that saw no dash before `i` has found `first_dash`.
pub proof fn lemma_first_dash_scan(e: Seq<char>, i: int)
    requires
        0 <= i <= e.len(),
        forall|j: int| 0 <= j < i ==> e[j] != '-',
        i < e.len() ==> e[i] == '-',
    ensures
        first_dash(e) == if i < e.len() {
            i
        } else {
            -1
        },
    decreases i,
{
    if i == 0 {
        if e.len() > 0 && e[0] != '-' {
            // i == e.len() == 0 is impossible here, so e[0] == '-'
        }
    } else {
        assert(e[0] != '-');
        assert forall|j: int| 0 <= j < i - 1 implies e.skip(1)[j] != '-' by {
            assert(e.skip(1)[j] == e[j + 1]);
        }
        if i - 1 < e.skip(1).len() {
            assert(e.skip(1)[i - 1] == e[i]);
        }
        lemma_first_dash_scan(e.skip(1), i - 1);
    }
}

/// Split one grant string into club and permission, `None` when malformed.
pub fn parse_grant(entry: &String) -> (r: Option<(String, Permission)>)
    ensures
        match r {
            Some(v) => grant_of(entry@) == Some((v.0@, v.1)),
            None => grant_of(entry@) is None,
        },
{
    let s = entry.as_str();
    let n = s.unicode_len();
    let mut i: usize = 0;
    while i < n && s.get_char(i) != '-'
        invariant
            n == s@.len(),
            0 <= i <= n,
            forall|j: int| 0 <= j < i ==> s@[j] != '-',
        decreases n - i,
    {
        i = i + 1;
    }
    proof {
        lemma_first_dash_scan(s@, i as int);
    }
    if i == n {
        return None;
    }
    let name = s.substring_char(0, i).to_owned();
    let level_len = n - (i + 1);
    proof {
        assert(name@ =~= s@.take(i as int));
        assert(s@.skip(i as int + 1).len() == level_len);
        assert(s@.skip(i as int + 1) =~= s@.subrange(i as int + 1, n as int));
    }
    if level_len == 1 && s.get_char(i + 1) == 'r' {
        proof {
            assert(s@.skip(i as int + 1) =~= seq!['r']);
        }
        Some((name, Permission::Read))
    } else if level_len == 2 && s.get_char(i + 1) == 'r' && s.get_char(i + 2) == 'w' {
        proof {
            assert(s@.skip(i as int + 1) =~= seq!['r', 'w']);
        }
        Some((name, Permission::ReadWrite))
    } else {
        proof {
            let level = s@.skip(i as int + 1);
            assert(level != seq!['r'] && level != seq!['r', 'w']) by {
                if level =~= seq!['r'] {
                    assert(level.len() == 1);
                    assert(level[0] == s@[i as int + 1]);
                    assert(level[0] == 'r');
                }
                if level =~= seq!['r', 'w'] {
                    assert(level.len() == 2);
                    assert(level[0] == s@[i as int + 1]);
                    assert(level[1] == s@[i as int + 2]);
                    assert(level[0] == 'r' && level[1] == 'w');
                }
            }
        }
        None
    }
}

/// Fold the fetched grant strings over the default seed. Every subject
/// keeps at least the seed grant; fetched entries override it club by club;
/// one malformed entry fails the whole resolution, so a partial permission
/// set is never granted.
pub fn resolve_pls_entries(entries: &Vec<String>) -> (r: Result<PermissionMap, Error>)
    ensures
        match r {
            Ok(m) => {
                &&& spec_resolve(entries.deep_view()) == Some(m@)
                &&& m@.len() >= 1
                &&& grants_unique(m@)
            },
            Err(e) => e is InternalServerError && spec_resolve(entries.deep_view()) is None,
        },
{
    let ghost all = entries.deep_view();
    let mut acc = Permission::default_privlages();
    let n = entries.len();
    let mut i: usize = 0;
    proof {
        assert(all.skip(0) =~= all);
    }
    while i < n
        invariant
            n == entries@.len(),
            all == entries.deep_view(),
            0 <= i <= n,
            resolve_entries(acc@, all.skip(i as int)) == spec_resolve(all),
            acc@.len() >= 1,
            grants_unique(acc@),
        decreases n - i,
    {
        let ghost rem = all.skip(i as int);
        proof {
            assert(rem[0] == entries@[i as int]@);
            assert(rem.skip(1) =~= all.skip(i as int + 1));
        }
        match parse_grant(&entries[i]) {
            None => {
                return Err(
                    Error::InternalServerError(
                        String::from_str("malformed permission entry from pls"),
                    ),
                );
            },
            Some((name, p)) => {
                proof {
                    lemma_grants_upsert(acc@, name@, p);
                }
                acc.insert(name, p);
            },
        }
        i = i + 1;
    }
    proof {
        assert(all.skip(n as int) =~= Seq::<Seq<char>>::empty());
    }
    Ok(acc)
}

/// Turn the authorization service's response body into the subject's
/// grants: a JSON array of `"{club}-{level}"` strings folded over the
/// default seed. Any parse failure is an internal error — never a partial
/// permission set.
pub fn parse_pls_body(body: &str) -> (r: Result<PermissionMap, Error>)
    ensures
        match r {
            Ok(m) => {
                &&& json_string_list(body@) matches Some(es) && spec_resolve(es) == Some(m@)
                &&& m@.len() >= 1
                &&& grants_unique(m@)
            },
            Err(e) => {
                &&& e is InternalServerError
                &&& (json_string_list(body@) is None || (json_string_list(body@) matches Some(
                    es,
                ) && spec_resolve(es) is None))
            },
        },
{
    match parse_json_string_list(body) {
        None => Err(
            Error::InternalServerError(
                String::from_str("pls response is not a JSON array of strings"),
            ),
        ),
        Some(entries) => resolve_pls_entries(&entries),
    }
}

} // verus!
