//! The dimension cache: a map from a source file's path to its thumbnail
//! record.
//!
//! The map is kept as a vector of entries with pairwise distinct keys and is
//! verified against a `Map` view; every operation states exactly how it
//! changes that view. [`crate::shared`] wraps it in a verified
//! reader/writer lock for the scanner and the request handlers.

use vstd::prelude::*;

use crate::record::{Thumb, ThumbView};

verus! {

pub open spec fn distinct_keys(s: Seq<(String, Thumb)>) -> bool {
    forall|i: int, j: int|
        #![trigger s[i].0@, s[j].0@]
        0 <= i < j < s.len() ==> s[i].0@ != s[j].0@
}

/// The map a sequence of entries stands for.
pub open spec fn as_map(s: Seq<(String, Thumb)>) -> Map<Seq<char>, ThumbView>
    decreases s.len(),
{
    if s.len() == 0 {
        Map::empty()
    } else {
        as_map(s.drop_last()).insert(s.last().0@, s.last().1@)
    }
}

/// Inserting a fresh key grows a finite map by one element.
pub(crate) proof fn lemma_map_insert_fresh_len(m: Map<Seq<char>, ThumbView>, k: Seq<char>, v: ThumbView)
    requires
        m.dom().finite(),
        !m.contains_key(k),
    ensures
        m.insert(k, v).len() == m.len() + 1,
        m.insert(k, v).dom().finite(),
{
    assert(m.insert(k, v).dom() =~= m.dom().insert(k));
    vstd::set::axiom_set_insert_len(m.dom(), k);
    vstd::set::axiom_set_insert_finite(m.dom(), k);
}

/// A key is in the map exactly when some entry holds it.
proof fn lemma_as_map_contains(s: Seq<(String, Thumb)>, k: Seq<char>)
    ensures
        as_map(s).contains_key(k) <==> exists|i: int| 0 <= i < s.len() && s[i].0@ == k,
    decreases s.len(),
{
    if s.len() > 0 {
        lemma_as_map_contains(s.drop_last(), k);
        if s.last().0@ == k {
            assert(s[s.len() - 1].0@ == k);
        } else if exists|i: int| 0 <= i < s.len() && s[i].0@ == k {
            let i = choose|i: int| 0 <= i < s.len() && s[i].0@ == k;
            assert(s.drop_last()[i] == s[i]);
        }
    }
}

/// With distinct keys, every entry is in the map with its own value.
proof fn lemma_as_map_pair(s: Seq<(String, Thumb)>, i: int)
    requires
        distinct_keys(s),
        0 <= i < s.len(),
    ensures
        as_map(s).contains_pair(s[i].0@, s[i].1@),
    decreases s.len(),
{
    if i == s.len() - 1 {
    } else {
        assert(distinct_keys(s.drop_last()));
        assert(s.drop_last()[i] == s[i]);
        lemma_as_map_pair(s.drop_last(), i);
        assert(s[i].0@ != s.last().0@);
    }
}

/// With distinct keys, the map has exactly one element per entry.
proof fn lemma_as_map_len(s: Seq<(String, Thumb)>)
    requires
        distinct_keys(s),
    ensures
        as_map(s).len() == s.len(),
        as_map(s).dom().finite(),
    decreases s.len(),
{
    if s.len() > 0 {
        assert(distinct_keys(s.drop_last()));
        lemma_as_map_len(s.drop_last());
        lemma_as_map_contains(s.drop_last(), s.last().0@);
        assert(forall|i: int|
            0 <= i < s.drop_last().len() ==> s.drop_last()[i].0@ != s.last().0@);
        assert(!as_map(s.drop_last()).contains_key(s.last().0@));
        lemma_map_insert_fresh_len(as_map(s.drop_last()), s.last().0@, s.last().1@);
    }
}

/// Replacing the entry at `i`, keeping its key, replaces that key's value.
proof fn lemma_as_map_update(s: Seq<(String, Thumb)>, i: int, e: (String, Thumb))
    requires
        distinct_keys(s),
        0 <= i < s.len(),
        e.0@ == s[i].0@,
    ensures
        as_map(s.update(i, e)) =~= as_map(s).insert(e.0@, e.1@),
    decreases s.len(),
{
    let t = s.update(i, e);
    if i == s.len() - 1 {
        assert(t.drop_last() =~= s.drop_last());
    } else {
        assert(distinct_keys(s.drop_last()));
        assert(t.drop_last() =~= s.drop_last().update(i, e));
        assert(s.drop_last()[i] == s[i]);
        lemma_as_map_update(s.drop_last(), i, e);
        assert(t.last() == s.last());
        assert(e.0@ != s.last().0@);
    }
}

/// Removing the entry at `i` removes exactly its key from the map.
proof fn lemma_as_map_remove(s: Seq<(String, Thumb)>, i: int)
    requires
        distinct_keys(s),
        0 <= i < s.len(),
    ensures
        as_map(s.remove(i)) =~= as_map(s).remove(s[i].0@),
    decreases s.len(),
{
    let t = s.remove(i);
    if i == s.len() - 1 {
        assert(t =~= s.drop_last());
        lemma_as_map_contains(s.drop_last(), s[i].0@);
        assert(forall|j: int|
            0 <= j < s.drop_last().len() ==> s.drop_last()[j].0@ != s[i].0@);
        assert(!as_map(s.drop_last()).contains_key(s[i].0@));
        assert(as_map(s.drop_last()).remove(s[i].0@) =~= as_map(s.drop_last()));
        assert(as_map(s).remove(s[i].0@) =~= as_map(s.drop_last()).insert(
            s[i].0@,
            s[i].1@,
        ).remove(s[i].0@));
    } else {
        assert(distinct_keys(s.drop_last()));
        assert(s.drop_last()[i] == s[i]);
        lemma_as_map_remove(s.drop_last(), i);
        assert(t.drop_last() =~= s.drop_last().remove(i));
        assert(t.last() == s.last());
        assert(s[i].0@ != s.last().0@);
    }
}

/// The shared dimension cache for one monitored directory: maps the source
/// file's full path to its [`Thumb`] record. Keys are unique; iteration
/// order carries no meaning.
pub struct ThumbCache {
    entries: Vec<(String, Thumb)>,
}

impl View for ThumbCache {
    type V = Map<Seq<char>, ThumbView>;

    closed spec fn view(&self) -> Map<Seq<char>, ThumbView> {
        as_map(self.entries@)
    }
}

impl ThumbCache {
    /// Entries are pairwise distinct in their keys.
    pub closed spec fn wf(&self) -> bool {
        distinct_keys(self.entries@)
    }

    /// The keys, in the cache's internal order.
    pub closed spec fn key_seq(&self) -> Seq<Seq<char>> {
        self.entries@.map_values(|e: (String, Thumb)| e.0@)
    }

    /// The records, in the same order as [`Self::key_seq`].
    pub closed spec fn record_seq(&self) -> Seq<ThumbView> {
        self.entries@.map_values(|e: (String, Thumb)| e.1@)
    }

    /// The entry sequences line up with the map view.
    pub proof fn lemma_entries(&self)
        requires
            self.wf(),
        ensures
            self.key_seq().len() == self@.len(),
            self.record_seq().len() == self@.len(),
            forall|i: int|
                0 <= i < self@.len() ==> self@.contains_pair(
                    #[trigger] self.key_seq()[i],
                    self.record_seq()[i],
                ),
            forall|k: Seq<char>|
                self@.contains_key(k) <==> self.key_seq().contains(k),
            forall|i: int, j: int|
                0 <= i < j < self@.len() ==> self.key_seq()[i] != self.key_seq()[j],
    {
        let s = self.entries@;
        lemma_as_map_len(s);
        assert forall|i: int| 0 <= i < self@.len() implies self@.contains_pair(
            #[trigger] self.key_seq()[i],
            self.record_seq()[i],
        ) by {
            lemma_as_map_pair(s, i);
        }
        assert forall|k: Seq<char>| self@.contains_key(k) <==> self.key_seq().contains(k) by {
            lemma_as_map_contains(s, k);
            if self@.contains_key(k) {
                let i = choose|i: int| 0 <= i < s.len() && s[i].0@ == k;
                assert(self.key_seq()[i] == k);
            }
            if self.key_seq().contains(k) {
                let i = choose|i: int|
                    0 <= i < self.key_seq().len() && self.key_seq()[i] == k;
                assert(s[i].0@ == k);
            }
        }
    }

    /// An empty cache.
    pub fn new() -> (c: ThumbCache)
        ensures
            c.wf(),
            c@ == Map::<Seq<char>, ThumbView>::empty(),
    {
        ThumbCache { entries: Vec::new() }
    }

    /// The number of cached records.
    pub fn len(&self) -> (n: usize)
        requires
            self.wf(),
        ensures
            n == self@.len(),
    {
        proof {
            lemma_as_map_len(self.entries@);
        }
        self.entries.len()
    }

    /// Inserts or replaces the record under `key`.
    ///
    /// This is the single write operation of the cache; it does no
    /// input/output and touches exactly one entry.
    pub fn upsert(&mut self, key: String, rec: Thumb)
        requires
            old(self).wf(),
        ensures
            final(self).wf(),
            final(self)@ == old(self)@.insert(key@, rec@),
    {
        let ghost s0 = self.entries@;
        let n = self.entries.len();
        let mut i: usize = 0;
        while i < n
            invariant
                0 <= i <= n == self.entries@.len(),
                self.entries@ == s0,
                s0 == old(self).entries@,
                distinct_keys(s0),
                forall|j: int| 0 <= j < i ==> s0[j].0@ != key@,
            decreases n - i,
        {
            if self.entries[i].0 == key {
                proof {
                    lemma_as_map_update(s0, i as int, (key, rec));
                }
                self.entries[i] = (key, rec);
                proof {
                    let t = self.entries@;
                    assert(t =~= s0.update(i as int, (key, rec)));
                    assert forall|a: int, b: int|
                        #![trigger t[a].0@, t[b].0@]
                        0 <= a < b < t.len() implies t[a].0@ != t[b].0@ by {
                        assert(t[a] == if a == i { (key, rec) } else { s0[a] });
                        assert(t[b] == if b == i { (key, rec) } else { s0[b] });
                        assert(s0[a].0@ != s0[b].0@);
                    }
                    assert(distinct_keys(t));
                }
                return ;
            }
            i = i + 1;
        }
        proof {
            assert(self.entries@ =~= s0);
        }
        self.entries.push((key, rec));
        proof {
            let s1 = self.entries@;
            assert(s1.drop_last() =~= s0);
            assert(distinct_keys(s1));
        }
    }

    /// Looks the record for `key` up; a copy is returned, the cache is not
    /// changed. A miss is an ordinary outcome the caller tolerates.
    pub fn get(&self, key: &str) -> (r: Option<Thumb>)
        requires
            self.wf(),
        ensures
            match r {
                Some(t) => self@.contains_key(key@) && t@ == self@[key@],
                None => !self@.contains_key(key@),
            },
    {
        let k: String = key.to_owned();
        let n = self.entries.len();
        let mut i: usize = 0;
        while i < n
            invariant
                0 <= i <= n == self.entries@.len(),
                self.wf(),
                k@ == key@,
                forall|j: int| 0 <= j < i ==> self.entries@[j].0@ != key@,
            decreases n - i,
        {
            if self.entries[i].0 == k {
                proof {
                    lemma_as_map_pair(self.entries@, i as int);
                }
                return Some(self.entries[i].1.clone());
            }
            i = i + 1;
        }
        proof {
            lemma_as_map_contains(self.entries@, key@);
        }
        None
    }

    /// True when a record is cached under `key`.
    pub fn contains_key(&self, key: &str) -> (r: bool)
        requires
            self.wf(),
        ensures
            r == self@.contains_key(key@),
    {
        match self.get(key) {
            Some(_) => true,
            None => false,
        }
    }

    /// Removes the record under `key`, if one is cached.
    pub fn remove(&mut self, key: &str)
        requires
            old(self).wf(),
        ensures
            final(self).wf(),
            final(self)@ == old(self)@.remove(key@),
    {
        let k: String = key.to_owned();
        let ghost s0 = self.entries@;
        let n = self.entries.len();
        let mut i: usize = 0;
        while i < n
            invariant
                0 <= i <= n == self.entries@.len(),
                self.entries@ == s0,
                s0 == old(self).entries@,
                distinct_keys(s0),
                k@ == key@,
                forall|j: int| 0 <= j < i ==> s0[j].0@ != key@,
            decreases n - i,
        {
            if self.entries[i].0 == k {
                proof {
                    lemma_as_map_remove(s0, i as int);
                }
                self.entries.remove(i);
                proof {
                    let t = self.entries@;
                    assert(t =~= s0.remove(i as int));
                    assert forall|a: int, b: int|
                        #![trigger t[a].0@, t[b].0@]
                        0 <= a < b < t.len() implies t[a].0@ != t[b].0@ by {
                        assert(t[a] == if a < i { s0[a] } else { s0[a + 1] });
                        assert(t[b] == if b < i { s0[b] } else { s0[b + 1] });
                    }
                    assert(distinct_keys(t));
                }
                return ;
            }
            i = i + 1;
        }
        proof {
            lemma_as_map_contains(s0, key@);
            assert(!as_map(s0).contains_key(key@));
            assert(as_map(s0).remove(key@) =~= as_map(s0));
        }
    }

    /// All cached keys, copied out in the cache's internal order.
    pub fn keys(&self) -> (r: Vec<String>)
        requires
            self.wf(),
        ensures
            r@.map_values(|s: String| s@) == self.key_seq(),
    {
        let n = self.entries.len();
        let mut r: Vec<String> = Vec::new();
        let mut i: usize = 0;
        while i < n
            invariant
                0 <= i <= n == self.entries@.len(),
                r@.len() == i,
                forall|j: int| 0 <= j < i ==> r@[j]@ == self.entries@[j].0@,
            decreases n - i,
        {
            r.push(self.entries[i].0.clone());
            i = i + 1;
        }
        proof {
            assert(r@.map_values(|s: String| s@) =~= self.key_seq());
        }
        r
    }

    /// A point-in-time copy of all cached records; the listing handler sorts
    /// and serializes it without holding any lock.
    pub fn snapshot(&self) -> (r: Vec<Thumb>)
        requires
            self.wf(),
        ensures
            r@.map_values(|t: Thumb| t@) == self.record_seq(),
            r@.len() == self@.len(),
            forall|i: int|
                0 <= i < r@.len() ==> self@.contains_pair(self.key_seq()[i], #[trigger] r@[i]@),
    {
        let n = self.entries.len();
        let mut r: Vec<Thumb> = Vec::new();
        let mut i: usize = 0;
        while i < n
            invariant
                0 <= i <= n == self.entries@.len(),
                r@.len() == i,
                forall|j: int| 0 <= j < i ==> r@[j]@ == self.entries@[j].1@,
            decreases n - i,
        {
            r.push(self.entries[i].1.clone());
            i = i + 1;
        }
        proof {
            self.lemma_entries();
            assert(r@.map_values(|t: Thumb| t@) =~= self.record_seq());
        }
        r
    }
}

/// Two upserts under distinct keys never interfere: each key ends up with
/// its own record, whichever order a scheduler lets the two writers run in.
/// This is the reason scanning workers that handle disjoint files cannot
/// lose each other's updates.
pub proof fn lemma_upsert_commutes(
    m: Map<Seq<char>, ThumbView>,
    k1: Seq<char>,
    v1: ThumbView,
    k2: Seq<char>,
    v2: ThumbView,
)
    requires
        k1 != k2,
    ensures
        m.insert(k1, v1).insert(k2, v2) == m.insert(k2, v2).insert(k1, v1),
        m.insert(k1, v1).insert(k2, v2)[k1] == v1,
        m.insert(k1, v1).insert(k2, v2)[k2] == v2,
{
    assert(m.insert(k1, v1).insert(k2, v2) =~= m.insert(k2, v2).insert(k1, v1));
}

/// Inserting records under `n` fresh, pairwise distinct keys grows the map
/// by exactly `n` elements, and each key maps to exactly the record that was
/// inserted under it: no update is lost.
pub open spec fn insert_all(
    m: Map<Seq<char>, ThumbView>,
    items: Seq<(Seq<char>, ThumbView)>,
) -> Map<Seq<char>, ThumbView>
    decreases items.len(),
{
    if items.len() == 0 {
        m
    } else {
        insert_all(m, items.drop_last()).insert(items.last().0, items.last().1)
    }
}

pub proof fn lemma_disjoint_upserts(
    m: Map<Seq<char>, ThumbView>,
    items: Seq<(Seq<char>, ThumbView)>,
)
    requires
        m.dom().finite(),
        forall|i: int, j: int|
            #![trigger items[i].0, items[j].0]
            0 <= i < j < items.len() ==> items[i].0 != items[j].0,
        forall|i: int| 0 <= i < items.len() ==> !m.contains_key(#[trigger] items[i].0),
    ensures
        insert_all(m, items).len() == m.len() + items.len(),
        insert_all(m, items).dom().finite(),
        forall|i: int|
            0 <= i < items.len() ==> insert_all(m, items).contains_pair(
                #[trigger] items[i].0,
                items[i].1,
            ),
        forall|k: Seq<char>|
            m.contains_key(k) ==> #[trigger] insert_all(m, items).contains_key(k),
    decreases items.len(),
{
    if items.len() > 0 {
        let rest = items.drop_last();
        assert(forall|i: int| 0 <= i < rest.len() ==> rest[i] == items[i]);
        lemma_disjoint_upserts(m, rest);
        let prev = insert_all(m, rest);
        assert(forall|i: int| 0 <= i < rest.len() ==> rest[i].0 != items.last().0);
        if prev.contains_key(items.last().0) {
            lemma_insert_all_contains(m, rest, items.last().0);
            assert(false);
        }
        lemma_map_insert_fresh_len(prev, items.last().0, items.last().1);
        assert forall|i: int| 0 <= i < items.len() implies insert_all(m, items).contains_pair(
            #[trigger] items[i].0,
            items[i].1,
        ) by {
            if i < items.len() - 1 {
                assert(prev.contains_pair(items[i].0, items[i].1));
                assert(items[i].0 != items.last().0);
            }
        }
    }
}

/// A key in the result of `insert_all` came from the map or from an item.
proof fn lemma_insert_all_contains(
    m: Map<Seq<char>, ThumbView>,
    items: Seq<(Seq<char>, ThumbView)>,
    k: Seq<char>,
)
    requires
        insert_all(m, items).contains_key(k),
    ensures
        m.contains_key(k) || exists|i: int| 0 <= i < items.len() && items[i].0 == k,
    decreases items.len(),
{
    if items.len() > 0 {
        if items.last().0 == k {
            assert(items[items.len() - 1].0 == k);
        } else {
            lemma_insert_all_contains(m, items.drop_last(), k);
            if exists|i: int| 0 <= i < items.drop_last().len() && items.drop_last()[i].0 == k {
                let i = choose|i: int|
                    0 <= i < items.drop_last().len() && items.drop_last()[i].0 == k;
                assert(items[i].0 == k);
            }
        }
    }
}

} // verus!
