//! An expiring store from package name to version list. The store lives in
//! memory here; reading and writing its file is left to the caller.

use crate::types::{copy_strings, texts, RegistryVersionInfo};
use vstd::prelude::*;

verus! {

/// One stored answer: the versions of a package and when they were fetched
/// (seconds since the Unix epoch).
#[derive(Debug)]
pub struct CacheEntry {
    pub name: String,
    pub versions: Vec<String>,
    pub timestamp: u64,
}

/// What the store says of one name: the versions and their fetch time.
pub type EntryView = (Seq<Seq<char>>, u64);

pub open spec fn entry_value(e: CacheEntry) -> EntryView {
    (texts(e.versions@), e.timestamp)
}

/// The store's contents: each name mapped to its entry, a later entry of a
/// name overriding an earlier one.
pub open spec fn entries_map(s: Seq<CacheEntry>) -> Map<Seq<char>, EntryView>
    decreases s.len(),
{
    if s.len() == 0 {
        Map::empty()
    } else {
        entries_map(s.drop_last()).insert(s.last().name@, entry_value(s.last()))
    }
}

pub open spec fn names_distinct(s: Seq<CacheEntry>) -> bool {
    forall|i: int, j: int| 0 <= i < j < s.len() ==> s[i].name@ != s[j].name@
}

/// True if an entry fetched at `timestamp` is too old at `now`.
pub open spec fn expired(timestamp: u64, now: u64, ttl: u64) -> bool {
    now as int - timestamp as int > ttl as int
}

/// True if an entry fetched at `timestamp` is too old at `now`.
pub fn is_expired(timestamp: u64, now: u64, ttl: u64) -> (r: bool)
    ensures
        r == expired(timestamp, now, ttl),
{
    now > timestamp && now - timestamp > ttl
}

/// What a lookup of `name` at `now` finds in a store whose entries live for
/// `ttl` seconds.
pub open spec fn lookup(m: Map<Seq<char>, EntryView>, name: Seq<char>, now: u64, ttl: u64) -> Option<
    Seq<Seq<char>>,
> {
    if m.contains_key(name) && !expired(m[name].1, now, ttl) {
        Some(m[name].0)
    } else {
        None
    }
}

/// The entries of `m` that are not too old at `now`.
pub open spec fn unexpired(m: Map<Seq<char>, EntryView>, now: u64, ttl: u64) -> Map<
    Seq<char>,
    EntryView,
> {
    Map::new(|k: Seq<char>| m.contains_key(k) && !expired(m[k].1, now, ttl), |k: Seq<char>| m[k])
}

/// The versions a lookup returned, as texts.
pub open spec fn info_versions(r: Option<RegistryVersionInfo>) -> Option<Seq<Seq<char>>> {
    match r {
        Some(info) => Some(texts(info.versions@)),
        None => None,
    }
}

/// A name just stored is found again, with the versions stored, as long as
/// the entry has not outlived the ttl.
pub proof fn lemma_set_then_get(
    m: Map<Seq<char>, EntryView>,
    name: Seq<char>,
    versions: Seq<Seq<char>>,
    timestamp: u64,
    now: u64,
    ttl: u64,
)
    requires
        now as int <= timestamp as int + ttl as int,
    ensures
        lookup(m.insert(name, (versions, timestamp)), name, now, ttl) == Some(versions),
{
}

/// With a ttl of zero, an entry is no longer found once the clock has moved
/// past the second it was stored in.
pub proof fn lemma_zero_ttl_expires(
    m: Map<Seq<char>, EntryView>,
    name: Seq<char>,
    versions: Seq<Seq<char>>,
    timestamp: u64,
    now: u64,
)
    requires
        now > timestamp,
    ensures
        lookup(m.insert(name, (versions, timestamp)), name, now, 0) is None,
{
}

/// Storing versions, writing the store's entries out and reading them
/// into a new store: the new store finds those versions under the name while
/// the entry is within its ttl, and answers every other name as the first
/// store did.
pub proof fn lemma_entries_round_trip(
    c: Map<Seq<char>, EntryView>,
    name: Seq<char>,
    versions: Seq<Seq<char>>,
    timestamp: u64,
    written: Seq<CacheEntry>,
    other: Seq<char>,
    now: u64,
    ttl: u64,
)
    requires
        entries_map(written) == c.insert(name, (versions, timestamp)),
        now as int <= timestamp as int + ttl as int,
        other != name,
    ensures
        lookup(entries_map(written), name, now, ttl) == Some(versions),
        lookup(entries_map(written), other, now, ttl) == lookup(c, other, now, ttl),
{
}

proof fn lemma_entries_map(s: Seq<CacheEntry>)
    requires
        names_distinct(s),
    ensures
        forall|k: Seq<char>| #[trigger]
            entries_map(s).contains_key(k) <==> exists|j: int| 0 <= j < s.len() && s[j].name@ == k,
        forall|j: int|
            0 <= j < s.len() ==> #[trigger] entries_map(s)[s[j].name@] == entry_value(s[j]),
    decreases s.len(),
{
    if s.len() > 0 {
        let p = s.drop_last();
        assert(names_distinct(p));
        lemma_entries_map(p);
        assert forall|k: Seq<char>| #[trigger]
            entries_map(s).contains_key(k) <==> exists|j: int|
                0 <= j < s.len() && s[j].name@ == k by {
            if entries_map(p).contains_key(k) {
                let j = choose|j: int| 0 <= j < p.len() && p[j].name@ == k;
                assert(s[j] == p[j]);
            }
            if exists|j: int| 0 <= j < s.len() && s[j].name@ == k {
                let j = choose|j: int| 0 <= j < s.len() && s[j].name@ == k;
                if j < p.len() {
                    assert(p[j] == s[j]);
                }
            }
        }
        assert forall|j: int| 0 <= j < s.len() implies #[trigger] entries_map(s)[s[j].name@]
            == entry_value(s[j]) by {
            assert(entries_map(s) == entries_map(p).insert(s.last().name@, entry_value(s.last())));
            if j < p.len() {
                assert(p[j] == s[j]);
                assert(s[j].name@ != s.last().name@);
                assert(entries_map(p)[p[j].name@] == entry_value(p[j]));
            }
        }
    }
}

/// The versions a registry lists for packages, kept for a while.
pub struct Cache {
    file_path: String,
    ttl_seconds: u64,
    entries: Vec<CacheEntry>,
}

impl View for Cache {
    type V = Map<Seq<char>, EntryView>;

    closed spec fn view(&self) -> Map<Seq<char>, EntryView> {
        entries_map(self.entries@)
    }
}

impl Cache {
    /// Each stored name is stored once.
    pub closed spec fn wf(&self) -> bool {
        names_distinct(self.entries@)
    }

    /// How long, in seconds, an entry answers lookups.
    pub closed spec fn ttl(&self) -> u64 {
        self.ttl_seconds
    }

    /// The file the store belongs to.
    pub closed spec fn path(&self) -> Seq<char> {
        self.file_path@
    }

    /// An empty store for the file at `file_path`, whose entries live for
    /// `ttl_seconds`.
    pub fn new(file_path: &str, ttl_seconds: u64) -> (r: Self)
        ensures
            r.wf(),
            r@ == Map::<Seq<char>, EntryView>::empty(),
            r.ttl() == ttl_seconds,
            r.path() == file_path@,
    {
        let r = Cache { file_path: file_path.to_string(), ttl_seconds, entries: Vec::new() };
        assert(r@ =~= Map::<Seq<char>, EntryView>::empty());
        r
    }

    /// Relies on `SystemTime::now` and `SystemTime::duration_since`: the
    /// current time in whole seconds since the Unix epoch (zero if the clock
    /// stands before it). Nothing is promised of its value.
    #[verifier::external_body]
    pub fn now() -> (r: u64) {
        std::time::SystemTime::now().duration_since(std::time::UNIX_EPOCH).map(|d| d.as_secs()).unwrap_or(0)
    }

    /// A store for the file at `file_path` holding `entries` (a later entry
    /// of a name overriding an earlier one).
    pub fn from_entries(file_path: &str, ttl_seconds: u64, entries: &Vec<CacheEntry>) -> (r: Self)
        ensures
            r.wf(),
            r@ == entries_map(entries@),
            r.ttl() == ttl_seconds,
            r.path() == file_path@,
    {
        let mut c = Cache::new(file_path, ttl_seconds);
        let mut i: usize = 0;
        assert(entries@.take(0) =~= Seq::<CacheEntry>::empty());
        while i < entries.len()
            invariant
                i <= entries.len(),
                c.wf(),
                c@ == entries_map(entries@.take(i as int)),
                c.ttl() == ttl_seconds,
                c.path() == file_path@,
            decreases entries.len() - i,
        {
            assert(entries@.take(i + 1).drop_last() =~= entries@.take(i as int));
            assert(entries@.take(i + 1).last() == entries@[i as int]);
            let e = &entries[i];
            c.set_at(e.name.as_str(), copy_strings(&e.versions), e.timestamp);
            i = i + 1;
        }
        assert(entries@.take(entries.len() as int) =~= entries@);
        c
    }

    /// The file the store belongs to.
    pub fn file_path(&self) -> (r: &str)
        ensures
            r@ == self.path(),
    {
        self.file_path.as_str()
    }

    /// How long entries live, in seconds.
    pub fn ttl_seconds(&self) -> (r: u64)
        ensures
            r == self.ttl(),
    {
        self.ttl_seconds
    }

    /// The stored entries, each name once, for writing the store out.
    pub fn entries(&self) -> (r: &Vec<CacheEntry>)
        requires
            self.wf(),
        ensures
            entries_map(r@) == self@,
            names_distinct(r@),
    {
        &self.entries
    }

    fn position(&self, name: &str) -> (r: Option<usize>)
        requires
            self.wf(),
        ensures
            r matches Some(i) ==> i < self.entries@.len() && self.entries@[i as int].name@ == name@,
            r is None ==> forall|j: int|
                0 <= j < self.entries@.len() ==> self.entries@[j].name@ != name@,
    {
        let mut i: usize = 0;
        while i < self.entries.len()
            invariant
                i <= self.entries@.len(),
                forall|j: int| 0 <= j < i ==> self.entries@[j].name@ != name@,
            decreases self.entries@.len() - i,
        {
            if crate::target::text_equals(self.entries[i].name.as_str(), name) {
                return Some(i);
            }
            i = i + 1;
        }
        None
    }

    /// The versions stored for `name`, unless there are none or they are
    /// too old at `now`.
    pub fn get_at(&self, name: &str, now: u64) -> (r: Option<RegistryVersionInfo>)
        requires
            self.wf(),
        ensures
            info_versions(r) == lookup(self@, name@, now, self.ttl()),
            r matches Some(info) ==> info.name@ == name@,
    {
        proof {
            lemma_entries_map(self.entries@);
        }
        match self.position(name) {
            None => None,
            Some(i) => {
                let e = &self.entries[i];
                assert(self@[name@] == entry_value(self.entries@[i as int]));
                if is_expired(e.timestamp, now, self.ttl_seconds) {
                    None
                } else {
                    Some(RegistryVersionInfo { name: name.to_string(), versions: copy_strings(&e.versions) })
                }
            },
        }
    }

    /// The versions stored for `name`, unless there are none or they are
    /// too old now.
    pub fn get(&self, name: &str) -> (r: Option<RegistryVersionInfo>)
        requires
            self.wf(),
        ensures
            r matches Some(info) ==> self@.contains_key(name@) && texts(info.versions@)
                == self@[name@].0 && info.name@ == name@,
            !self@.contains_key(name@) ==> r is None,
            exists|t: u64| info_versions(r) == lookup(self@, name@, t, self.ttl()),
    {
        let t = Self::now();
        let r = self.get_at(name, t);
        assert(info_versions(r) == lookup(self@, name@, t, self.ttl()));
        r
    }

    /// Stores `versions` for `name` as fetched at `timestamp`, replacing what
    /// was stored for it.
    pub fn set_at(&mut self, name: &str, versions: Vec<String>, timestamp: u64)
        requires
            old(self).wf(),
        ensures
            final(self).wf(),
            final(self)@ == old(self)@.insert(name@, (texts(versions@), timestamp)),
            final(self).ttl() == old(self).ttl(),
            final(self).path() == old(self).path(),
    {
        let entry = CacheEntry { name: name.to_string(), versions, timestamp };
        let ghost val = entry_value(entry);
        proof {
            lemma_entries_map(self.entries@);
        }
        let ghost before = self.entries@;
        match self.position(name) {
            None => {
                self.entries.push(entry);
                assert(self.entries@.drop_last() =~= before);
            },
            Some(i) => {
                self.entries.set(i, entry);
                let ghost after = self.entries@;
                assert(names_distinct(after)) by {
                    assert forall|a: int, b: int| 0 <= a < b < after.len() implies after[a].name@
                        != after[b].name@ by {
                        if a != i && b != i {
                            assert(after[a] == before[a] && after[b] == before[b]);
                        } else if a == i {
                            assert(after[b] == before[b]);
                        } else {
                            assert(after[a] == before[a]);
                        }
                    }
                }
                proof {
                    lemma_entries_map(after);
                }
                let ghost want = entries_map(before).insert(name@, val);
                assert forall|k: Seq<char>| #[trigger] entries_map(after).contains_key(k)
                    == want.contains_key(k) by {
                    if k != name@ {
                        if exists|j: int| 0 <= j < after.len() && after[j].name@ == k {
                            let j = choose|j: int| 0 <= j < after.len() && after[j].name@ == k;
                            assert(before[j] == after[j]);
                        }
                        if exists|j: int| 0 <= j < before.len() && before[j].name@ == k {
                            let j = choose|j: int| 0 <= j < before.len() && before[j].name@ == k;
                            assert(before[j] == after[j]);
                        }
                    } else {
                        assert(after[i as int].name@ == k);
                    }
                }
                assert forall|k: Seq<char>| #[trigger] entries_map(after).contains_key(k) implies
                    entries_map(after)[k] == want[k] by {
                    let j = choose|j: int| 0 <= j < after.len() && after[j].name@ == k;
                    if j != i {
                        assert(before[j] == after[j]);
                    }
                }
                assert(entries_map(after) =~= want);
            },
        }
    }

    /// Stores `versions` for `name` as fetched now.
    pub fn set(&mut self, name: &str, versions: Vec<String>)
        requires
            old(self).wf(),
        ensures
            final(self).wf(),
            final(self)@.contains_key(name@),
            final(self)@[name@].0 == texts(versions@),
            final(self)@.remove(name@) == old(self)@.remove(name@),
            final(self).ttl() == old(self).ttl(),
            final(self).path() == old(self).path(),
    {
        self.set_at(name, versions, Self::now());
        assert(final(self)@.remove(name@) =~= old(self)@.remove(name@));
    }

    /// Removes every entry that is too old at `now`.
    pub fn prune_at(&mut self, now: u64)
        requires
            old(self).wf(),
        ensures
            final(self).wf(),
            final(self)@ == unexpired(old(self)@, now, old(self).ttl()),
            final(self).ttl() == old(self).ttl(),
            final(self).path() == old(self).path(),
    {
        let ghost orig = self.entries@;
        let ghost want = unexpired(entries_map(orig), now, self.ttl_seconds);
        proof {
            lemma_entries_map(orig);
        }
        let mut i: usize = 0;
        while i < self.entries.len()
            invariant
                i <= self.entries@.len(),
                names_distinct(self.entries@),
                self.ttl_seconds == old(self).ttl_seconds,
                self.file_path@ == old(self).file_path@,
                orig == old(self).entries@,
                want == unexpired(entries_map(orig), now, self.ttl_seconds),
                forall|j: int|
                    0 <= j < self.entries@.len() ==> exists|o: int|
                        0 <= o < orig.len() && #[trigger] self.entries@[j] == orig[o],
                forall|j: int|
                    0 <= j < i ==> !expired(#[trigger] self.entries@[j].timestamp, now, self.ttl_seconds),
                forall|o: int|
                    0 <= o < orig.len() && !expired(#[trigger] orig[o].timestamp, now, self.ttl_seconds)
                        ==> exists|j: int| 0 <= j < self.entries@.len() && self.entries@[j] == orig[o],
            decreases self.entries@.len() - i,
        {
            let ts = self.entries[i].timestamp;
            if is_expired(ts, now, self.ttl_seconds) {
                let ghost before = self.entries@;
                self.entries.remove(i);
                let ghost after = self.entries@;
                assert forall|j: int| 0 <= j < after.len() implies exists|o: int|
                    0 <= o < orig.len() && #[trigger] after[j] == orig[o] by {
                    if j < i {
                        assert(after[j] == before[j]);
                    } else {
                        assert(after[j] == before[j + 1]);
                    }
                }
                assert forall|o: int|
                    0 <= o < orig.len() && !expired(#[trigger] orig[o].timestamp, now, self.ttl_seconds)
                        implies exists|j: int| 0 <= j < after.len() && after[j] == orig[o] by {
                    let j = choose|j: int| 0 <= j < before.len() && before[j] == orig[o];
                    if j < i {
                        assert(after[j] == orig[o]);
                    } else {
                        assert(j != i);
                        assert(after[j - 1] == orig[o]);
                    }
                }
                assert(names_distinct(after)) by {
                    assert forall|a: int, b: int| 0 <= a < b < after.len() implies after[a].name@
                        != after[b].name@ by {
                        let a2 = if a < i { a } else { a + 1 };
                        let b2 = if b < i { b } else { b + 1 };
                        assert(after[a] == before[a2] && after[b] == before[b2]);
                    }
                }
                assert forall|j: int| 0 <= j < i implies !expired(
                    #[trigger] after[j].timestamp,
                    now,
                    self.ttl_seconds,
                ) by {
                    assert(after[j] == before[j]);
                }
            } else {
                i = i + 1;
            }
        }
        let ghost fin = self.entries@;
        proof {
            lemma_entries_map(fin);
        }
        assert forall|k: Seq<char>| #[trigger] entries_map(fin).contains_key(k) == want.contains_key(
            k,
        ) by {
            if entries_map(fin).contains_key(k) {
                let j = choose|j: int| 0 <= j < fin.len() && fin[j].name@ == k;
                let o = choose|o: int| 0 <= o < orig.len() && fin[j] == orig[o];
                assert(entries_map(orig)[orig[o].name@] == entry_value(orig[o]));
                assert(!expired(fin[j].timestamp, now, self.ttl_seconds));
            }
            if want.contains_key(k) {
                let o = choose|o: int| 0 <= o < orig.len() && orig[o].name@ == k;
                assert(entries_map(orig)[orig[o].name@] == entry_value(orig[o]));
                let j = choose|j: int| 0 <= j < fin.len() && fin[j] == orig[o];
                assert(fin[j].name@ == k);
            }
        }
        assert forall|k: Seq<char>| #[trigger] entries_map(fin).contains_key(k) implies entries_map(
            fin,
        )[k] == want[k] by {
            let j = choose|j: int| 0 <= j < fin.len() && fin[j].name@ == k;
            let o = choose|o: int| 0 <= o < orig.len() && fin[j] == orig[o];
            assert(entries_map(orig)[orig[o].name@] == entry_value(orig[o]));
        }
        assert(entries_map(fin) =~= want);
    }

    /// Removes every entry that is too old now.
    pub fn prune(&mut self)
        requires
            old(self).wf(),
        ensures
            final(self).wf(),
            final(self)@.submap_of(old(self)@),
            exists|t: u64| final(self)@ == unexpired(old(self)@, t, old(self).ttl()),
            final(self).ttl() == old(self).ttl(),
            final(self).path() == old(self).path(),
    {
        let t = Self::now();
        self.prune_at(t);
        assert(final(self)@ == unexpired(old(self)@, t, old(self).ttl()));
    }

    /// Removes every entry.
    pub fn clear(&mut self)
        ensures
            final(self).wf(),
            final(self)@ == Map::<Seq<char>, EntryView>::empty(),
            final(self).ttl() == old(self).ttl(),
            final(self).path() == old(self).path(),
    {
        self.entries = Vec::new();
        assert(final(self)@ =~= Map::<Seq<char>, EntryView>::empty());
    }
}

} // verus!
