//! The roster: a mapping from connection identifier to username, with unique
//! keys. The server owns the authoritative roster; each client session keeps
//! a mirror of it rebuilt from server notifications.

use vstd::prelude::*;

verus! {

/// Mathematical shape of one roster entry: a connection identifier and the
/// username that connection joined with.
pub struct UserView {
    pub id: u64,
    pub name: Seq<char>,
}

/// The connection identifiers of a roster view, in entry order.
pub open spec fn ids_of(s: Seq<UserView>) -> Seq<u64> {
    s.map_values(|u: UserView| u.id)
}

/// A roster view is well formed when no connection identifier repeats.
pub open spec fn roster_wf(s: Seq<UserView>) -> bool {
    ids_of(s).no_duplicates()
}

/// The roster view as a mapping from connection identifier to username.
/// Later entries win, which does not matter on well-formed rosters.
pub open spec fn map_of(s: Seq<UserView>) -> Map<u64, Seq<char>>
    decreases s.len(),
{
    if s.len() == 0 {
        Map::empty()
    } else {
        map_of(s.drop_last()).insert(s.last().id, s.last().name)
    }
}

/// A key is in the roster's mapping exactly when some entry carries it.
pub proof fn lemma_map_of_dom(s: Seq<UserView>)
    ensures
        forall|x: u64| #[trigger] map_of(s).contains_key(x) <==> ids_of(s).contains(x),
    decreases s.len(),
{
    if s.len() > 0 {
        let d = s.drop_last();
        lemma_map_of_dom(d);
        assert(map_of(s) == map_of(d).insert(s.last().id, s.last().name));
        assert forall|x: u64| #[trigger] map_of(s).contains_key(x) implies ids_of(s).contains(x) by {
            if x == s.last().id {
                assert(ids_of(s)[s.len() - 1] == x);
            } else {
                assert(map_of(d).contains_key(x));
                assert(ids_of(d).contains(x));
                let i = choose|i: int| 0 <= i < ids_of(d).len() && ids_of(d)[i] == x;
                assert(ids_of(s)[i] == x);
            }
        }
        assert forall|x: u64| ids_of(s).contains(x) implies #[trigger] map_of(s).contains_key(x) by {
            let i = choose|i: int| 0 <= i < ids_of(s).len() && ids_of(s)[i] == x;
            if i < s.len() - 1 {
                assert(ids_of(d)[i] == x);
                assert(ids_of(d).contains(x));
                assert(map_of(d).contains_key(x));
            } else {
                assert(x == s.last().id);
            }
        }
    }
}

/// On a well-formed roster, each entry's name is what the mapping gives
/// for that entry's identifier.
pub proof fn lemma_map_of_index(s: Seq<UserView>, i: int)
    requires
        roster_wf(s),
        0 <= i < s.len(),
    ensures
        map_of(s).contains_key(s[i].id),
        map_of(s)[s[i].id] == s[i].name,
    decreases s.len(),
{
    let d = s.drop_last();
    if i == s.len() - 1 {
    } else {
        assert(roster_wf(d)) by {
            assert(forall|j: int| 0 <= j < d.len() ==> ids_of(d)[j] == ids_of(s)[j]);
        }
        lemma_map_of_index(d, i);
        assert(ids_of(s)[i] != ids_of(s)[s.len() - 1]);
        assert(s[i].id != s.last().id);
    }
}

/// Dropping the last entry keeps a roster well formed.
pub proof fn lemma_wf_drop_last(s: Seq<UserView>)
    requires
        roster_wf(s),
        s.len() > 0,
    ensures
        roster_wf(s.drop_last()),
{
    let d = s.drop_last();
    assert(forall|j: int| 0 <= j < d.len() ==> ids_of(d)[j] == ids_of(s)[j]);
}

/// Appending an entry whose identifier is fresh extends the mapping by that
/// entry and keeps the roster well formed.
pub proof fn lemma_map_of_push(s: Seq<UserView>, u: UserView)
    requires
        roster_wf(s),
        !map_of(s).contains_key(u.id),
    ensures
        map_of(s.push(u)) == map_of(s).insert(u.id, u.name),
        roster_wf(s.push(u)),
        ids_of(s.push(u)) == ids_of(s).push(u.id),
    decreases s.len(),
{
    lemma_map_of_dom(s);
    assert(s.push(u).drop_last() =~= s);
    assert(ids_of(s.push(u)) =~= ids_of(s).push(u.id));
    assert(!ids_of(s).contains(u.id));
    assert forall|i: int, j: int|
        0 <= i < ids_of(s.push(u)).len() && 0 <= j < ids_of(s.push(u)).len() && i != j implies
        ids_of(s.push(u))[i] != ids_of(s.push(u))[j] by {
        if i < s.len() && j < s.len() {
            assert(ids_of(s)[i] != ids_of(s)[j]);
        } else if i == s.len() {
            assert(ids_of(s)[j] == ids_of(s.push(u))[j]);
        } else {
            assert(ids_of(s)[i] == ids_of(s.push(u))[i]);
        }
    }
}

/// Removing the entry at an index removes exactly that identifier from the
/// mapping and keeps the roster well formed.
pub proof fn lemma_map_of_remove(s: Seq<UserView>, i: int)
    requires
        roster_wf(s),
        0 <= i < s.len(),
    ensures
        map_of(s.remove(i)) == map_of(s).remove(s[i].id),
        roster_wf(s.remove(i)),
    decreases s.len(),
{
    let r = s.remove(i);
    let d = s.drop_last();
    lemma_map_of_dom(s);
    lemma_map_of_dom(d);
    lemma_wf_drop_last(s);
    assert(map_of(s) == map_of(d).insert(s.last().id, s.last().name));
    assert forall|p: int, q: int|
        0 <= p < ids_of(r).len() && 0 <= q < ids_of(r).len() && p != q implies
        ids_of(r)[p] != ids_of(r)[q] by {
        let p2: int = if p < i { p } else { p + 1 };
        let q2: int = if q < i { q } else { q + 1 };
        assert(ids_of(r)[p] == ids_of(s)[p2]);
        assert(ids_of(r)[q] == ids_of(s)[q2]);
        assert(ids_of(s)[p2] != ids_of(s)[q2]);
    }
    if i == s.len() - 1 {
        assert(r =~= d);
        assert(!ids_of(d).contains(s[i].id)) by {
            assert forall|j: int| 0 <= j < ids_of(d).len() implies ids_of(d)[j] != s[i].id by {
                assert(ids_of(d)[j] == ids_of(s)[j]);
                assert(ids_of(s)[j] != ids_of(s)[i]);
            }
        }
        assert(!map_of(d).contains_key(s[i].id));
        assert(map_of(s) == map_of(d).insert(s.last().id, s.last().name));
        assert(map_of(r) =~= map_of(s).remove(s[i].id));
    } else {
        lemma_map_of_remove(d, i);
        assert(r.drop_last() =~= d.remove(i));
        assert(r.last() == s.last());
        assert(map_of(r) == map_of(d.remove(i)).insert(s.last().id, s.last().name));
        assert(s[i].id != s.last().id) by {
            assert(ids_of(s)[i] != ids_of(s)[s.len() - 1]);
        }
        assert(map_of(d).remove(s[i].id).insert(s.last().id, s.last().name)
            =~= map_of(s).remove(s[i].id));
    }
}

/// One roster entry as stored: the connection identifier and the username.
#[derive(Debug)]
struct Entry {
    id: u64,
    name: String,
}

/// The roster itself: entries with pairwise-distinct connection identifiers.
/// Its view is the sequence of entries; `map_of` gives the mapping it stands
/// for. No ordering of entries is promised to callers.
#[derive(Debug)]
pub struct Roster {
    entries: Vec<Entry>,
}

impl View for Roster {
    type V = Seq<UserView>;

    closed spec fn view(&self) -> Seq<UserView> {
        self.entries@.map_values(|e: Entry| UserView { id: e.id, name: e.name@ })
    }
}

impl Roster {
    /// Well-formedness: no connection identifier appears twice.
    pub open spec fn wf(&self) -> bool {
        roster_wf(self@)
    }

    /// An empty roster, as a server starts with.
    pub fn new() -> (r: Roster)
        ensures
            r@ == Seq::<UserView>::empty(),
            r.wf(),
    {
        let r = Roster { entries: Vec::new() };
        proof {
            assert(r@ =~= Seq::<UserView>::empty());
        }
        r
    }

    /// How many connections are in the roster.
    pub fn len(&self) -> (n: usize)
        ensures
            n == self@.len(),
    {
        self.entries.len()
    }

    /// Whether `id` is in the roster.
    pub fn contains(&self, id: u64) -> (b: bool)
        ensures
            b == map_of(self@).contains_key(id),
            b == ids_of(self@).contains(id),
    {
        let mut i: usize = 0;
        while i < self.entries.len()
            invariant
                i <= self@.len(),
                forall|j: int| 0 <= j < i ==> self@[j].id != id,
            decreases self@.len() - i,
        {
            if self.entries[i].id == id {
                proof {
                    lemma_map_of_dom(self@);
                    assert(ids_of(self@)[i as int] == id);
                    assert(ids_of(self@).contains(id));
                    assert(map_of(self@).contains_key(id));
                }
                return true;
            }
            i += 1;
        }
        proof {
            lemma_map_of_dom(self@);
            assert(forall|j: int| 0 <= j < ids_of(self@).len() ==> ids_of(self@)[j] != id);
            assert(!ids_of(self@).contains(id));
            assert(!map_of(self@).contains_key(id));
        }
        false
    }

    /// The username joined under `id`, if `id` is in the roster.
    pub fn get(&self, id: u64) -> (r: Option<&String>)
        requires
            self.wf(),
        ensures
            match r {
                Some(name) => map_of(self@).contains_key(id) && name@ == map_of(self@)[id],
                None => !map_of(self@).contains_key(id),
            },
    {
        let mut i: usize = 0;
        while i < self.entries.len()
            invariant
                i <= self@.len(),
                forall|j: int| 0 <= j < i ==> self@[j].id != id,
                self.wf(),
            decreases self@.len() - i,
        {
            if self.entries[i].id == id {
                proof {
                    assert(ids_of(self@)[i as int] == id);
                    lemma_map_of_index(self@, i as int);
                }
                return Some(&self.entries[i].name);
            }
            i += 1;
        }
        proof {
            lemma_map_of_dom(self@);
            assert(forall|j: int| 0 <= j < ids_of(self@).len() ==> ids_of(self@)[j] != id);
            assert(!ids_of(self@).contains(id));
            assert(!map_of(self@).contains_key(id));
        }
        None
    }

    /// Insert a fresh connection. The entry goes to the end; the mapping
    /// gains exactly this association.
    pub fn insert(&mut self, id: u64, name: String)
        requires
            old(self).wf(),
            !map_of(old(self)@).contains_key(id),
        ensures
            final(self)@ == old(self)@.push((UserView { id: id, name: name@ })),
            final(self).wf(),
            map_of(final(self)@) == map_of(old(self)@).insert(id, name@),
    {
        let ghost u = UserView { id: id, name: name@ };
        proof {
            lemma_map_of_push(old(self)@, u);
        }
        self.entries.push(Entry { id, name });
        proof {
            assert(self@ =~= old(self)@.push(u));
        }
    }

    /// Remove a connection, returning its username if it was present.
    /// The mapping loses exactly that association; if the connection was
    /// absent, nothing changes.
    pub fn remove(&mut self, id: u64) -> (r: Option<String>)
        requires
            old(self).wf(),
        ensures
            final(self).wf(),
            match r {
                Some(name) => map_of(old(self)@).contains_key(id)
                    && name@ == map_of(old(self)@)[id]
                    && map_of(final(self)@) == map_of(old(self)@).remove(id),
                None => !map_of(old(self)@).contains_key(id) && final(self)@ == old(self)@,
            },
    {
        let mut i: usize = 0;
        while i < self.entries.len()
            invariant
                i <= self@.len(),
                forall|j: int| 0 <= j < i ==> self@[j].id != id,
                self.wf(),
                self@ == old(self)@,
            decreases self@.len() - i,
        {
            if self.entries[i].id == id {
                proof {
                    assert(ids_of(self@)[i as int] == id);
                    lemma_map_of_index(self@, i as int);
                    lemma_map_of_remove(self@, i as int);
                }
                let e = self.entries.remove(i);
                proof {
                    assert(self@ =~= old(self)@.remove(i as int));
                }
                return Some(e.name);
            }
            i += 1;
        }
        proof {
            lemma_map_of_dom(self@);
            assert(forall|j: int| 0 <= j < ids_of(self@).len() ==> ids_of(self@)[j] != id);
            assert(!ids_of(self@).contains(id));
            assert(!map_of(self@).contains_key(id));
        }
        None
    }

    /// Insert or overwrite: used by the client mirror, where a notification
    /// for an identifier already present replaces its username.
    pub fn set(&mut self, id: u64, name: String)
        requires
            old(self).wf(),
        ensures
            final(self).wf(),
            map_of(final(self)@) == map_of(old(self)@).insert(id, name@),
    {
        let _ = self.remove(id);
        proof {
            assert(!map_of(self@).contains_key(id));
        }
        self.insert(id, name);
        proof {
            assert(map_of(self@) =~= map_of(old(self)@).insert(id, name@));
        }
    }

    /// A copy of the roster, used as the snapshot a newly joined client is
    /// sent.
    pub fn snapshot(&self) -> (r: Roster)
        ensures
            r@ == self@,
    {
        let mut es: Vec<Entry> = Vec::new();
        let mut i: usize = 0;
        while i < self.entries.len()
            invariant
                i <= self@.len(),
                es@.len() == i,
                forall|j: int| 0 <= j < i ==> #[trigger] es@[j].id == self.entries@[j].id
                    && es@[j].name@ == self.entries@[j].name@,
            decreases self@.len() - i,
        {
            es.push(Entry { id: self.entries[i].id, name: self.entries[i].name.clone() });
            i += 1;
        }
        let r = Roster { entries: es };
        proof {
            assert(r@ =~= self@);
        }
        r
    }

    /// The connection identifiers in entry order: the recipients of a
    /// broadcast.
    pub fn ids(&self) -> (r: Vec<u64>)
        ensures
            r@ == ids_of(self@),
    {
        let mut r: Vec<u64> = Vec::new();
        let mut i: usize = 0;
        proof {
            assert(r@ =~= ids_of(self@).subrange(0, 0));
        }
        while i < self.entries.len()
            invariant
                i <= self@.len(),
                r@ == ids_of(self@).subrange(0, i as int),
            decreases self@.len() - i,
        {
            r.push(self.entries[i].id);
            proof {
                assert(r@ =~= ids_of(self@).subrange(0, i as int + 1));
            }
            i += 1;
        }
        proof {
            assert(ids_of(self@).subrange(0, ids_of(self@).len() as int) =~= ids_of(self@));
        }
        r
    }

    /// The connection identifier of the entry at `i`.
    pub fn id_at(&self, i: usize) -> (id: u64)
        requires
            i < self@.len(),
        ensures
            id == self@[i as int].id,
    {
        self.entries[i].id
    }

    /// The username of the entry at `i`.
    pub fn name_at(&self, i: usize) -> (name: &String)
        requires
            i < self@.len(),
        ensures
            name@ == self@[i as int].name,
    {
        &self.entries[i].name
    }
}

} // verus!
