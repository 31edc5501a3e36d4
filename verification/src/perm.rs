use vstd::prelude::*;
use vstd::string::*;

verus! {

/// Permission level a subject holds for one club. `ReadWrite` includes `Read`.
#[derive(Clone, Copy, Debug, PartialEq, Eq, Structural)]
pub enum Permission {
    Read,
    ReadWrite,
}

/// `held` is enough for a route that demands `required`:
/// `ReadWrite` satisfies both levels, `Read` only a `Read` demand.
pub open spec fn permission_satisfies(held: Permission, required: Permission) -> bool {
    match required {
        Permission::Read => true,
        Permission::ReadWrite => held == Permission::ReadWrite,
    }
}

/// The level's name in diagnostics.
pub open spec fn permission_label(p: Permission) -> Seq<char> {
    match p {
        Permission::Read => "Read"@,
        Permission::ReadWrite => "ReadWrite"@,
    }
}

/// The permission order is exactly this: `ReadWrite` satisfies a `Read`
/// demand and a `ReadWrite` demand; `Read` satisfies only a `Read` demand.
pub proof fn lemma_permission_order()
    ensures
        permission_satisfies(Permission::ReadWrite, Permission::Read),
        permission_satisfies(Permission::ReadWrite, Permission::ReadWrite),
        permission_satisfies(Permission::Read, Permission::Read),
        !permission_satisfies(Permission::Read, Permission::ReadWrite),
{
}

/// Index of the first grant for `club`, or -1 when no grant names it.
pub open spec fn grants_index(gs: Seq<(Seq<char>, Permission)>, club: Seq<char>) -> int
    decreases gs.len(),
{
    if gs.len() == 0 {
        -1
    } else if gs[0].0 == club {
        0
    } else {
        let r = grants_index(gs.skip(1), club);
        if r < 0 {
            -1
        } else {
            r + 1
        }
    }
}

/// The permission the grant list maps `club` to, if any.
pub open spec fn grants_lookup(gs: Seq<(Seq<char>, Permission)>, club: Seq<char>) -> Option<
    Permission,
> {
    let i = grants_index(gs, club);
    if i < 0 {
        None
    } else {
        Some(gs[i].1)
    }
}

/// Insert-or-update: a grant for a club already named is replaced in place,
/// a new club is appended, so ingestion order is kept and last write wins.
pub open spec fn grants_upsert(
    gs: Seq<(Seq<char>, Permission)>,
    club: Seq<char>,
    p: Permission,
) -> Seq<(Seq<char>, Permission)> {
    let i = grants_index(gs, club);
    if i < 0 {
        gs.push((club, p))
    } else {
        gs.update(i, (club, p))
    }
}

/// No two grants name the same club.
pub open spec fn grants_unique(gs: Seq<(Seq<char>, Permission)>) -> bool {
    forall|i: int, j: int| 0 <= i < j < gs.len() ==> gs[i].0 != gs[j].0
}

/// `grants_index` points at the first grant for `club`, and is -1 exactly
/// when no grant names `club`.
pub proof fn lemma_grants_index(gs: Seq<(Seq<char>, Permission)>, club: Seq<char>)
    ensures
        grants_index(gs, club) < 0 ==> forall|j: int| 0 <= j < gs.len() ==> gs[j].0 != club,
        grants_index(gs, club) >= 0 ==> {
            let i = grants_index(gs, club);
            &&& i < gs.len()
            &&& gs[i].0 == club
            &&& forall|j: int| 0 <= j < i ==> gs[j].0 != club
        },
    decreases gs.len(),
{
    if gs.len() > 0 && gs[0].0 != club {
        lemma_grants_index(gs.skip(1), club);
        assert forall|j: int| 0 <= j < gs.len() - 1 implies gs.skip(1)[j] == gs[j + 1] by {}
        let r = grants_index(gs.skip(1), club);
        if r < 0 {
            assert forall|j: int| 0 <= j < gs.len() implies gs[j].0 != club by {
                if j > 0 {
                    assert(gs.skip(1)[j - 1].0 != club);
                }
            }
        } else {
            assert(gs[r + 1].0 == gs.skip(1)[r].0);
            assert forall|j: int| 0 <= j < r + 1 implies gs[j].0 != club by {
                if j > 0 {
                    assert(gs.skip(1)[j - 1].0 != club);
                }
            }
        }
    }
}

/// A scan that saw no grant for `club` in the first `i` places and a match at
/// place `i` has found `grants_index`; a full scan without a match shows -1.
pub proof fn lemma_grants_index_unique(
    gs: Seq<(Seq<char>, Permission)>,
    club: Seq<char>,
    i: int,
)
    requires
        0 <= i <= gs.len(),
        forall|j: int| 0 <= j < i ==> gs[j].0 != club,
    ensures
        i < gs.len() && gs[i].0 == club ==> grants_index(gs, club) == i,
        i == gs.len() ==> grants_index(gs, club) == -1,
{
    lemma_grants_index(gs, club);
    let r = grants_index(gs, club);
    if i < gs.len() && gs[i].0 == club {
        if r < 0 {
            assert(gs[i].0 != club);
        } else if r < i {
            assert(gs[r].0 != club);
        } else if r > i {
            assert(gs[i].0 != club);
        }
    } else if i == gs.len() {
        if r >= 0 {
            assert(gs[r].0 != club);
        }
    }
}

/// Updating a grant whose club differs from `other` leaves the first match
/// for `other` where it was.
pub proof fn lemma_grants_index_update_other(
    gs: Seq<(Seq<char>, Permission)>,
    i: int,
    entry: (Seq<char>, Permission),
    other: Seq<char>,
)
    requires
        0 <= i < gs.len(),
        gs[i].0 != other,
        entry.0 != other,
    ensures
        grants_index(gs.update(i, entry), other) == grants_index(gs, other),
        grants_lookup(gs.update(i, entry), other) == grants_lookup(gs, other),
    decreases gs.len(),
{
    let gs2 = gs.update(i, entry);
    if i == 0 {
        assert(gs2.skip(1) =~= gs.skip(1));
    } else {
        assert(gs2[0] == gs[0]);
        assert(gs2.skip(1) =~= gs.skip(1).update(i - 1, entry));
        lemma_grants_index_update_other(gs.skip(1), i - 1, entry, other);
    }
    lemma_grants_index(gs, other);
    if grants_index(gs, other) >= 0 {
        assert(gs2[grants_index(gs, other)] == gs[grants_index(gs, other)]);
    }
}

/// Appending a grant for a different club leaves the first match for `other`
/// unchanged.
pub proof fn lemma_grants_index_push(
    gs: Seq<(Seq<char>, Permission)>,
    entry: (Seq<char>, Permission),
    other: Seq<char>,
)
    requires
        entry.0 != other,
    ensures
        grants_index(gs.push(entry), other) == grants_index(gs, other),
        grants_lookup(gs.push(entry), other) == grants_lookup(gs, other),
    decreases gs.len(),
{
    let gs2 = gs.push(entry);
    if gs.len() == 0 {
        assert(gs2[0] == entry);
        assert(gs2.skip(1) =~= Seq::<(Seq<char>, Permission)>::empty().push(entry).skip(1));
        assert(grants_index(gs2.skip(1), other) == -1) by {
            lemma_grants_index(gs2.skip(1), other);
            if grants_index(gs2.skip(1), other) >= 0 {
                assert(gs2.skip(1).len() == 0);
            }
        }
    } else {
        assert(gs2[0] == gs[0]);
        assert(gs2.skip(1) =~= gs.skip(1).push(entry));
        lemma_grants_index_push(gs.skip(1), entry, other);
    }
    if grants_index(gs, other) >= 0 {
        lemma_grants_index(gs, other);
        assert(gs2[grants_index(gs, other)] == gs[grants_index(gs, other)]);
    }
}

/// After an upsert the club maps to the new permission, every other club maps
/// to what it mapped to before, and key-uniqueness is preserved.
pub proof fn lemma_grants_upsert(
    gs: Seq<(Seq<char>, Permission)>,
    club: Seq<char>,
    p: Permission,
)
    ensures
        grants_lookup(grants_upsert(gs, club, p), club) == Some(p),
        forall|other: Seq<char>|
            other != club ==> grants_lookup(grants_upsert(gs, club, p), other) == grants_lookup(
                gs,
                other,
            ),
        grants_unique(gs) ==> grants_unique(grants_upsert(gs, club, p)),
        gs.len() <= grants_upsert(gs, club, p).len() <= gs.len() + 1,
{
    lemma_grants_index(gs, club);
    let i = grants_index(gs, club);
    let gs2 = grants_upsert(gs, club, p);
    if i < 0 {
        assert(gs2 == gs.push((club, p)));
        assert(forall|j: int| 0 <= j < gs.len() ==> gs2[j] == gs[j]);
        lemma_grants_index_unique(gs2, club, gs.len() as int);
        assert(grants_index(gs2, club) == gs.len());
        assert forall|other: Seq<char>| other != club implies grants_lookup(gs2, other)
            == grants_lookup(gs, other) by {
            lemma_grants_index_push(gs, (club, p), other);
        }
    } else {
        assert(gs2 == gs.update(i, (club, p)));
        assert(forall|j: int| 0 <= j < gs.len() && j != i ==> gs2[j] == gs[j]);
        lemma_grants_index_unique(gs2, club, i);
        assert(grants_index(gs2, club) == i);
        assert forall|other: Seq<char>| other != club implies grants_lookup(gs2, other)
            == grants_lookup(gs, other) by {
            lemma_grants_index_update_other(gs, i, (club, p), other);
        }
        if grants_unique(gs) {
            assert forall|a: int, b: int| 0 <= a < b < gs2.len() implies gs2[a].0 != gs2[b].0 by {
                assert(gs2[a].0 == if a == i { club } else { gs[a].0 });
                assert(gs2[b].0 == if b == i { club } else { gs[b].0 });
                assert(gs[i].0 == club);
            }
        }
    }
}

/// Abstract value of a raw grant list.
pub open spec fn entries_view(entries: Seq<(String, Permission)>) -> Seq<(Seq<char>, Permission)> {
    Seq::new(entries.len(), |i: int| (entries[i].0@, entries[i].1))
}

/// Club-to-permission mapping of one subject, ingestion order kept.
#[derive(Clone)]
pub struct PermissionMap {
    entries: Vec<(String, Permission)>,
}

impl View for PermissionMap {
    type V = Seq<(Seq<char>, Permission)>;

    closed spec fn view(&self) -> Seq<(Seq<char>, Permission)> {
        Seq::new(self.entries@.len(), |i: int| (self.entries@[i].0@, self.entries@[i].1))
    }
}

impl PermissionMap {
    /// Map with no grants.
    pub fn new() -> (r: PermissionMap)
        ensures
            r@ =~= Seq::<(Seq<char>, Permission)>::empty(),
    {
        PermissionMap { entries: Vec::new() }
    }

    pub fn len(&self) -> (r: usize)
        ensures
            r == self@.len(),
    {
        self.entries.len()
    }

    /// Club name and permission of the grant at `i`, in ingestion order.
    pub fn entry_at(&self, i: usize) -> (r: (String, Permission))
        requires
            i < self@.len(),
        ensures
            (r.0@, r.1) == self@[i as int],
    {
        let e = &self.entries[i];
        (e.0.clone(), e.1)
    }

    /// Index of the grant for `club`, if one exists.
    fn index_of(&self, club: &String) -> (r: Option<usize>)
        ensures
            match r {
                Some(i) => grants_index(self@, club@) == i as int && i < self@.len()
                    && self@[i as int].0 == club@,
                None => grants_index(self@, club@) == -1,
            },
    {
        let n = self.entries.len();
        let mut i: usize = 0;
        while i < n
            invariant
                n == self@.len(),
                0 <= i <= n,
                forall|j: int| 0 <= j < i ==> self@[j].0 != club@,
            decreases n - i,
        {
            if self.entries[i].0 == *club {
                proof {
                    lemma_grants_index_unique(self@, club@, i as int);
                }
                return Some(i);
            }
            i = i + 1;
        }
        proof {
            lemma_grants_index_unique(self@, club@, n as int);
        }
        None
    }

    /// The permission this map holds for `club`, if any.
    pub fn get(&self, club: &String) -> (r: Option<Permission>)
        ensures
            r == grants_lookup(self@, club@),
    {
        match self.index_of(club) {
            Some(i) => Some(self.entries[i].1),
            None => None,
        }
    }

    /// Wrap a raw grant list as read back from a token payload, in its
    /// given order.
    pub(crate) fn from_entries(entries: Vec<(String, Permission)>) -> (r: PermissionMap)
        ensures
            r@.len() == entries@.len(),
            forall|i: int|
                0 <= i < entries@.len() ==> r@[i] == (entries@[i].0@, entries@[i].1),
    {
        PermissionMap { entries }
    }

    /// Record that `club` grants `p`: last write wins, order of first
    /// ingestion is kept.
    pub fn insert(&mut self, club: String, p: Permission)
        ensures
            final(self)@ =~= grants_upsert(old(self)@, club@, p),
    {
        let ghost pre = self@;
        match self.index_of(&club) {
            Some(i) => {
                self.entries[i] = (club, p);
                proof {
                    assert(self@ =~= pre.update(i as int, (club@, p)));
                }
            },
            None => {
                self.entries.push((club, p));
                proof {
                    assert(self@ =~= pre.push((club@, p)));
                }
            },
        }
    }
}

impl Permission {
    /// The level's name, for diagnostics.
    pub fn label(&self) -> (r: String)
        ensures
            r@ == permission_label(*self),
    {
        match self {
            Permission::Read => String::from_str("Read"),
            Permission::ReadWrite => String::from_str("ReadWrite"),
        }
    }

    /// Baseline grant every authenticated subject starts from: read access to
    /// the `metadorerna` storeroom.
    pub fn default_privlages() -> (r: PermissionMap)
        ensures
            r@ =~= seq![("metadorerna"@, Permission::Read)],
            grants_unique(r@),
    {
        let mut privlages = PermissionMap::new();
        privlages.insert(String::from_str("metadorerna"), Permission::Read);
        privlages
    }
}

} // verus!
