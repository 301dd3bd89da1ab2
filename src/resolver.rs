//! The steps of one resolution, around the fetching of what the cache
//! lacks: split the packages into cache hits and misses, store what was
//! fetched, and turn the version lists into update records in input order.

use crate::cache::{lookup, Cache, EntryView};
use crate::semver_utils::{
    base_version, classify_update, construct_new_range, new_range_text, parse_base_version,
    update_class,
};
use crate::target::{resolve_target_version, resolved};
use crate::types::{copy_strings, texts, PackageInfo, RegistryVersionInfo, UpdateResult};
use crate::version::version_text;
use vstd::prelude::*;

verus! {

/// What a package declaration holds.
pub struct PackageView {
    pub name: Seq<char>,
    pub range: Seq<char>,
    pub dep_type: Seq<char>,
}

impl View for PackageInfo {
    type V = PackageView;

    open spec fn view(&self) -> PackageView {
        PackageView { name: self.name@, range: self.version_range@, dep_type: self.dep_type@ }
    }
}

/// What an update record holds.
pub struct UpdateView {
    pub name: Seq<char>,
    pub current: Seq<char>,
    pub current_version: Seq<char>,
    pub latest: Seq<char>,
    pub new_range: Seq<char>,
    pub update_type: Seq<char>,
    pub dep_type: Seq<char>,
}

impl View for UpdateResult {
    type V = UpdateView;

    open spec fn view(&self) -> UpdateView {
        UpdateView {
            name: self.name@,
            current: self.current@,
            current_version: self.current_version@,
            latest: self.latest@,
            new_range: self.new_range@,
            update_type: self.update_type@,
            dep_type: self.dep_type@,
        }
    }
}

pub open spec fn packages_view(ps: Seq<PackageInfo>) -> Seq<PackageView> {
    ps.map_values(|p: PackageInfo| p@)
}

pub open spec fn updates_view(us: Seq<UpdateResult>) -> Seq<UpdateView> {
    us.map_values(|u: UpdateResult| u@)
}

pub open spec fn opt_texts(o: Option<Vec<String>>) -> Option<Seq<Seq<char>>> {
    match o {
        Some(v) => Some(texts(v@)),
        None => None,
    }
}

pub open spec fn found_view(fs: Seq<Option<Vec<String>>>) -> Seq<Option<Seq<Seq<char>>>> {
    fs.map_values(|o: Option<Vec<String>>| opt_texts(o))
}

/// The record a package gets from the versions known for it, if an update
/// qualifies.
pub open spec fn update_for(
    p: PackageView,
    versions: Seq<Seq<char>>,
    target: Seq<char>,
    include_prerelease: bool,
) -> Option<UpdateView> {
    match resolved(p.range, versions, target, include_prerelease) {
        None => None,
        Some(nv) => Some(
            UpdateView {
                name: p.name,
                current: p.range,
                current_version: match base_version(p.range) {
                    Some(b) => version_text(b),
                    None => seq![],
                },
                latest: version_text(nv),
                new_range: new_range_text(p.range, nv),
                update_type: match base_version(p.range) {
                    Some(b) => update_class(b, nv),
                    None => "unknown"@,
                },
                dep_type: p.dep_type,
            },
        ),
    }
}

/// The records of a batch, in the order of its packages; a package with no
/// known versions or no qualifying update has none.
pub open spec fn updates_spec(
    ps: Seq<PackageView>,
    fs: Seq<Option<Seq<Seq<char>>>>,
    target: Seq<char>,
    include_prerelease: bool,
) -> Seq<UpdateView>
    decreases ps.len(),
{
    if ps.len() == 0 || fs.len() == 0 {
        seq![]
    } else {
        let rest = updates_spec(ps.drop_last(), fs.drop_last(), target, include_prerelease);
        match fs.last() {
            Some(vs) => match update_for(ps.last(), vs, target, include_prerelease) {
                Some(u) => rest.push(u),
                None => rest,
            },
            None => rest,
        }
    }
}

/// Records follow input order: the records of the first `n` packages are
/// the first records of the whole batch, so no later package, however soon
/// its versions arrived, places a record before an earlier one's.
pub proof fn lemma_updates_in_input_order(
    ps: Seq<PackageView>,
    fs: Seq<Option<Seq<Seq<char>>>>,
    target: Seq<char>,
    include_prerelease: bool,
    n: int,
)
    requires
        ps.len() == fs.len(),
        0 <= n <= ps.len(),
    ensures
        ({
            let head = updates_spec(ps.take(n), fs.take(n), target, include_prerelease);
            let all = updates_spec(ps, fs, target, include_prerelease);
            head.len() <= all.len() && all.take(head.len() as int) == head
        }),
    decreases ps.len(),
{
    if n == ps.len() {
        assert(ps.take(n) =~= ps);
        assert(fs.take(n) =~= fs);
        let all = updates_spec(ps, fs, target, include_prerelease);
        assert(all.take(all.len() as int) =~= all);
    } else {
        lemma_updates_in_input_order(ps.drop_last(), fs.drop_last(), target, include_prerelease, n);
        assert(ps.drop_last().take(n) =~= ps.take(n));
        assert(fs.drop_last().take(n) =~= fs.take(n));
        let head = updates_spec(ps.take(n), fs.take(n), target, include_prerelease);
        let rest = updates_spec(ps.drop_last(), fs.drop_last(), target, include_prerelease);
        let all = updates_spec(ps, fs, target, include_prerelease);
        assert(all == rest || exists|u: UpdateView| all == rest.push(u));
        if all != rest {
            let u = choose|u: UpdateView| all == rest.push(u);
            assert(all.take(head.len() as int) =~= rest.take(head.len() as int));
        }
    }
}

/// A package whose fetch failed gets no record and leaves the others'
/// records as they would be without it.
pub proof fn lemma_failed_fetch_isolated(
    ps: Seq<PackageView>,
    fs: Seq<Option<Seq<Seq<char>>>>,
    target: Seq<char>,
    include_prerelease: bool,
    i: int,
)
    requires
        ps.len() == fs.len(),
        0 <= i < ps.len(),
        fs[i] is None,
    ensures
        updates_spec(ps, fs, target, include_prerelease) == updates_spec(
            ps.remove(i),
            fs.remove(i),
            target,
            include_prerelease,
        ),
    decreases ps.len(),
{
    if i == ps.len() - 1 {
        assert(ps.remove(i) =~= ps.drop_last());
        assert(fs.remove(i) =~= fs.drop_last());
    } else {
        lemma_failed_fetch_isolated(ps.drop_last(), fs.drop_last(), target, include_prerelease, i);
        assert(ps.remove(i).drop_last() =~= ps.drop_last().remove(i));
        assert(fs.remove(i).drop_last() =~= fs.drop_last().remove(i));
        assert(ps.remove(i).last() == ps.last());
        assert(fs.remove(i).last() == fs.last());
    }
}

/// The positions of the packages that a lookup at `now` does not answer,
/// ascending.
pub open spec fn miss_indices(
    ps: Seq<PackageView>,
    m: Map<Seq<char>, EntryView>,
    now: u64,
    ttl: u64,
) -> Seq<int>
    decreases ps.len(),
{
    if ps.len() == 0 {
        seq![]
    } else {
        let rest = miss_indices(ps.drop_last(), m, now, ttl);
        if lookup(m, ps.last().name, now, ttl) is None {
            rest.push(ps.len() - 1)
        } else {
            rest
        }
    }
}

pub open spec fn indices_view(v: Seq<usize>) -> Seq<int> {
    v.map_values(|i: usize| i as int)
}

/// How a batch splits against the cache.
pub struct Partition {
    /// For each package, the versions the cache holds for it, if any.
    pub found: Vec<Option<Vec<String>>>,
    /// The positions of the packages to fetch, ascending.
    pub to_fetch: Vec<usize>,
    pub cache_hits: u32,
    pub cache_misses: u32,
}

/// Looks each package up in the cache at time `now`.
pub fn partition_packages(packages: &Vec<PackageInfo>, cache: &Cache, now: u64) -> (r: Partition)
    requires
        cache.wf(),
        packages.len() <= u32::MAX,
    ensures
        r.found.len() == packages.len(),
        forall|i: int|
            0 <= i < packages.len() ==> opt_texts(#[trigger] r.found@[i]) == lookup(
                cache@,
                packages@[i].name@,
                now,
                cache.ttl(),
            ),
        indices_view(r.to_fetch@) == miss_indices(packages_view(packages@), cache@, now, cache.ttl()),
        strictly_ascending(r.to_fetch@),
        forall|j: int| 0 <= j < r.to_fetch.len() ==> #[trigger] r.to_fetch@[j] < packages.len(),
        r.cache_misses as int == r.to_fetch.len(),
        r.cache_hits as int + r.cache_misses as int == packages.len(),
{
    let mut found: Vec<Option<Vec<String>>> = Vec::new();
    let mut to_fetch: Vec<usize> = Vec::new();
    let mut hits: u32 = 0;
    let mut misses: u32 = 0;
    let mut i: usize = 0;
    let ghost pv = packages_view(packages@);
    assert(pv.take(0) =~= Seq::<PackageView>::empty());
    assert(indices_view(to_fetch@) =~= Seq::<int>::empty());
    while i < packages.len()
        invariant
            i <= packages.len(),
            packages.len() <= u32::MAX,
            pv == packages_view(packages@),
            cache.wf(),
            found.len() == i,
            forall|k: int|
                0 <= k < i ==> opt_texts(#[trigger] found@[k]) == lookup(
                    cache@,
                    packages@[k].name@,
                    now,
                    cache.ttl(),
                ),
            indices_view(to_fetch@) == miss_indices(pv.take(i as int), cache@, now, cache.ttl()),
            strictly_ascending(to_fetch@),
            forall|j: int| 0 <= j < to_fetch.len() ==> #[trigger] to_fetch@[j] < i,
            misses as int == to_fetch.len(),
            hits as int + misses as int == i,
        decreases packages.len() - i,
    {
        assert(pv.take(i + 1).drop_last() =~= pv.take(i as int));
        assert(pv.take(i + 1).last() == packages@[i as int]@);
        let ghost before = to_fetch@;
        match cache.get_at(packages[i].name.as_str(), now) {
            Some(info) => {
                found.push(Some(info.versions));
                hits = hits + 1;
            },
            None => {
                found.push(None);
                to_fetch.push(i);
                assert(indices_view(to_fetch@) =~= indices_view(before).push(i as int));
                misses = misses + 1;
            },
        }
        i = i + 1;
    }
    assert(pv.take(packages.len() as int) =~= pv);
    Partition { found, to_fetch, cache_hits: hits, cache_misses: misses }
}

/// The names of the packages at the given positions.
pub open spec fn names_at(ps: Seq<PackageInfo>, idx: Seq<usize>) -> Seq<Seq<char>> {
    idx.map_values(|i: usize| ps[i as int].name@)
}

/// The cache contents after storing each successful fetch at `now`, in
/// order, under the declared name of the package it was made for.
pub open spec fn stored(
    m: Map<Seq<char>, EntryView>,
    names: Seq<Seq<char>>,
    rs: Seq<Option<RegistryVersionInfo>>,
    now: u64,
) -> Map<Seq<char>, EntryView>
    decreases rs.len(),
{
    if rs.len() == 0 {
        m
    } else {
        let before = stored(m, names.drop_last(), rs.drop_last(), now);
        match rs.last() {
            Some(info) => before.insert(names.last(), (texts(info.versions@), now)),
            None => before,
        }
    }
}

/// True if each result is tagged with a distinct position below `count` and
/// there are `count` of them.
pub open spec fn tags_valid(arrivals: Seq<(usize, Option<RegistryVersionInfo>)>, count: nat) -> bool {
    &&& arrivals.len() == count
    &&& forall|j: int| 0 <= j < arrivals.len() ==> (#[trigger] arrivals[j]).0 < count
    &&& forall|a: int, b: int|
        0 <= a < b < arrivals.len() ==> arrivals[a].0 != arrivals[b].0
}

/// True if `r` holds each tagged result at the position it is tagged with.
pub open spec fn placed(
    r: Seq<Option<RegistryVersionInfo>>,
    arrivals: Seq<(usize, Option<RegistryVersionInfo>)>,
) -> bool {
    forall|j: int| 0 <= j < arrivals.len() ==> r[(#[trigger] arrivals[j]).0 as int] == arrivals[j].1
}

/// Puts fetch results, listed in the order the fetches completed and each
/// tagged with its position among the misses, back into miss order.
pub fn order_results(count: usize, arrivals: Vec<(usize, Option<RegistryVersionInfo>)>) -> (r: Vec<
    Option<RegistryVersionInfo>,
>)
    requires
        tags_valid(arrivals@, count as nat),
    ensures
        r.len() == count,
        placed(r@, arrivals@),
{
    let ghost orig = arrivals@;
    let mut arrivals = arrivals;
    let mut r: Vec<Option<RegistryVersionInfo>> = Vec::new();
    let mut i: usize = 0;
    while i < count
        invariant
            i <= count,
            r.len() == i,
        decreases count - i,
    {
        r.push(None);
        i = i + 1;
    }
    assert(orig.take(orig.len() as int) =~= orig);
    while arrivals.len() > 0
        invariant
            r.len() == count,
            tags_valid(orig, count as nat),
            arrivals.len() <= orig.len(),
            arrivals@ == orig.take(arrivals.len() as int),
            forall|j: int|
                arrivals.len() <= j < orig.len() ==> r[(#[trigger] orig[j]).0 as int] == orig[j].1,
        decreases arrivals.len(),
    {
        let ghost k = arrivals.len() - 1;
        assert(arrivals@[k] == orig[k]);
        let (tag, value) = arrivals.pop().unwrap();
        assert(orig[k] == (tag, value));
        r.set(tag, value);
        assert forall|j: int| arrivals.len() <= j < orig.len() implies r[(#[trigger] orig[j]).0 as int]
            == orig[j].1 by {
            if j != k {
                assert(orig[j].0 != orig[k].0);
            }
        }
        assert(arrivals@ =~= orig.take(arrivals.len() as int));
    }
    r
}

/// True if some result is tagged with position `p`.
pub open spec fn has_tag(a: Seq<(usize, Option<RegistryVersionInfo>)>, p: int) -> bool {
    exists|j: int| 0 <= j < a.len() && a[j].0 == p
}

/// When `count` results carry distinct tags below `count`, every position
/// below `count` carries one.
pub proof fn lemma_tags_cover(a: Seq<(usize, Option<RegistryVersionInfo>)>, count: nat, p: int)
    requires
        tags_valid(a, count),
        0 <= p < count,
    ensures
        has_tag(a, p),
{
    let tags = a.map_values(|x: (usize, Option<RegistryVersionInfo>)| x.0 as int);
    assert(tags.no_duplicates()) by {
        assert forall|i: int, j: int| 0 <= i < tags.len() && 0 <= j < tags.len() && i != j implies tags[i]
            != tags[j] by {
            if i < j {
                assert(a[i].0 != a[j].0);
            } else {
                assert(a[j].0 != a[i].0);
            }
        }
    }
    tags.unique_seq_to_set();
    if !has_tag(a, p) {
        let range = vstd::set_lib::set_int_range(0, count as int);
        vstd::set_lib::lemma_int_range(0, count as int);
        assert(tags.to_set().subset_of(range.remove(p))) by {
            assert forall|x: int| tags.to_set().contains(x) implies range.remove(p).contains(x) by {
                assert(tags.contains(x));
                let j = choose|j: int| 0 <= j < tags.len() && tags[j] == x;
                assert(a[j].0 < count);
                assert(a[j].0 != p);
            }
        }
        assert(range.contains(p));
        vstd::set_lib::lemma_len_subset(tags.to_set(), range.remove(p));
        assert(false);
    }
}

/// The order in which fetches complete does not matter: two listings of the
/// same tagged results, each position tagged once, put back in miss order
/// give the same sequence.
pub proof fn lemma_completion_order_irrelevant(
    a: Seq<(usize, Option<RegistryVersionInfo>)>,
    b: Seq<(usize, Option<RegistryVersionInfo>)>,
    count: nat,
    ra: Seq<Option<RegistryVersionInfo>>,
    rb: Seq<Option<RegistryVersionInfo>>,
)
    requires
        tags_valid(a, count),
        tags_valid(b, count),
        forall|j: int| 0 <= j < a.len() ==> exists|k: int| 0 <= k < b.len() && b[k] == #[trigger] a[j],
        ra.len() == count && placed(ra, a),
        rb.len() == count && placed(rb, b),
    ensures
        ra == rb,
{
    assert forall|p: int| 0 <= p < count implies ra[p] == rb[p] by {
        lemma_tags_cover(a, count, p);
        let j = choose|j: int| 0 <= j < a.len() && a[j].0 == p;
        let k = choose|k: int| 0 <= k < b.len() && b[k] == a[j];
        assert(ra[a[j].0 as int] == a[j].1);
        assert(rb[b[k].0 as int] == b[k].1);
    }
    assert(ra =~= rb);
}

pub open spec fn strictly_ascending(v: Seq<usize>) -> bool {
    forall|a: int, b: int| 0 <= a < b < v.len() ==> v[a] < v[b]
}

/// Stores each successful fetch in the cache under the declared name of the
/// package it was made for, and records its versions for the package at the matching
/// position; a failed fetch changes nothing.
pub fn record_fetches(
    cache: &mut Cache,
    packages: &Vec<PackageInfo>,
    to_fetch: &Vec<usize>,
    results: &Vec<Option<RegistryVersionInfo>>,
    found: &mut Vec<Option<Vec<String>>>,
    now: u64,
)
    requires
        old(cache).wf(),
        results.len() == to_fetch.len(),
        strictly_ascending(to_fetch@),
        old(found).len() == packages.len(),
        forall|j: int| 0 <= j < to_fetch.len() ==> #[trigger] to_fetch@[j] < old(found).len(),
    ensures
        final(cache).wf(),
        final(cache)@ == stored(old(cache)@, names_at(packages@, to_fetch@), results@, now),
        final(cache).ttl() == old(cache).ttl(),
        final(cache).path() == old(cache).path(),
        final(found).len() == old(found).len(),
        forall|j: int|
            0 <= j < to_fetch.len() ==> opt_texts(#[trigger] final(found)@[to_fetch@[j] as int])
                == match results@[j] {
                Some(info) => Some(texts(info.versions@)),
                None => opt_texts(old(found)@[to_fetch@[j] as int]),
            },
        forall|i: int|
            0 <= i < old(found).len() && (forall|j: int|
                0 <= j < to_fetch.len() ==> to_fetch@[j] != i) ==> #[trigger] final(found)@[i]
                == old(found)@[i],
{
    let mut j: usize = 0;
    assert(results@.take(0) =~= Seq::<Option<RegistryVersionInfo>>::empty());
    assert(names_at(packages@, to_fetch@).take(0) =~= Seq::<Seq<char>>::empty());
    while j < results.len()
        invariant
            j <= results.len(),
            results.len() == to_fetch.len(),
            strictly_ascending(to_fetch@),
            forall|k: int| 0 <= k < to_fetch.len() ==> #[trigger] to_fetch@[k] < old(found).len(),
            cache.wf(),
            found.len() == packages.len(),
            cache@ == stored(
                old(cache)@,
                names_at(packages@, to_fetch@).take(j as int),
                results@.take(j as int),
                now,
            ),
            cache.ttl() == old(cache).ttl(),
            cache.path() == old(cache).path(),
            found.len() == old(found).len(),
            forall|k: int|
                0 <= k < j ==> opt_texts(#[trigger] found@[to_fetch@[k] as int]) == match results@[k] {
                    Some(info) => Some(texts(info.versions@)),
                    None => opt_texts(old(found)@[to_fetch@[k] as int]),
                },
            forall|k: int|
                j <= k < to_fetch.len() ==> #[trigger] found@[to_fetch@[k] as int] == old(
                    found,
                )@[to_fetch@[k] as int],
            forall|i: int|
                0 <= i < old(found).len() && (forall|k: int|
                    0 <= k < to_fetch.len() ==> to_fetch@[k] != i) ==> #[trigger] found@[i]
                    == old(found)@[i],
        decreases results.len() - j,
    {
        assert(results@.take(j + 1).drop_last() =~= results@.take(j as int));
        assert(results@.take(j + 1).last() == results@[j as int]);
        let ghost names = names_at(packages@, to_fetch@);
        assert(names.take(j + 1).drop_last() =~= names.take(j as int));
        assert(names.take(j + 1).last() == packages@[to_fetch@[j as int] as int].name@);
        let idx = to_fetch[j];
        match &results[j] {
            Some(info) => {
                cache.set_at(packages[idx].name.as_str(), copy_strings(&info.versions), now);
                let ghost before = found@;
                found.set(idx, Some(copy_strings(&info.versions)));
                assert forall|k: int| 0 <= k < to_fetch.len() && k != j implies #[trigger] found@[to_fetch@[
                    k] as int] == before[to_fetch@[k] as int] by {
                    assert(to_fetch@[k] != to_fetch@[j as int]);
                }
            },
            None => {},
        }
        j = j + 1;
    }
    assert(results@.take(results.len() as int) =~= results@);
    assert(names_at(packages@, to_fetch@).take(results.len() as int) =~= names_at(
        packages@,
        to_fetch@,
    ));
}

/// The record for one package, if an update qualifies.
pub fn make_update(
    package: &PackageInfo,
    versions: &Vec<String>,
    target: &str,
    include_prerelease: bool,
) -> (r: Option<UpdateResult>)
    ensures
        match r {
            Some(u) => update_for(package@, texts(versions@), target@, include_prerelease) == Some(
                u@,
            ),
            None => update_for(package@, texts(versions@), target@, include_prerelease) is None,
        },
{
    let resolved_version = resolve_target_version(
        package.version_range.as_str(),
        versions.as_slice(),
        target,
        include_prerelease,
    );
    match resolved_version {
        None => None,
        Some(new_version) => {
            let current_version = parse_base_version(package.version_range.as_str());
            let current_version_str = match &current_version {
                Some(v) => v.to_text(),
                None => String::new(),
            };
            let update_type = match &current_version {
                Some(cv) => classify_update(cv, &new_version),
                None => String::from_str("unknown"),
            };
            let new_range = construct_new_range(package.version_range.as_str(), &new_version);
            let u = UpdateResult {
                name: package.name.clone(),
                current: package.version_range.clone(),
                current_version: current_version_str,
                latest: new_version.to_text(),
                new_range,
                update_type,
                dep_type: package.dep_type.clone(),
            };
            assert(current_version_str@ == match base_version(package@.range) {
                Some(b) => version_text(b),
                None => seq![],
            });
            Some(u)
        },
    }
}

/// The update records of a batch, in the order of its packages, from the
/// versions found for each (`None` where the fetch failed).
pub fn build_updates(
    packages: &Vec<PackageInfo>,
    found: &Vec<Option<Vec<String>>>,
    target: &str,
    include_prerelease: bool,
) -> (r: Vec<UpdateResult>)
    requires
        found.len() == packages.len(),
    ensures
        updates_view(r@) == updates_spec(
            packages_view(packages@),
            found_view(found@),
            target@,
            include_prerelease,
        ),
{
    let mut out: Vec<UpdateResult> = Vec::new();
    let mut i: usize = 0;
    let ghost pv = packages_view(packages@);
    let ghost fv = found_view(found@);
    assert(updates_view(out@) =~= Seq::<UpdateView>::empty());
    while i < packages.len()
        invariant
            i <= packages.len(),
            found.len() == packages.len(),
            pv == packages_view(packages@),
            fv == found_view(found@),
            updates_view(out@) == updates_spec(
                pv.take(i as int),
                fv.take(i as int),
                target@,
                include_prerelease,
            ),
        decreases packages.len() - i,
    {
        assert(pv.take(i + 1).drop_last() =~= pv.take(i as int));
        assert(fv.take(i + 1).drop_last() =~= fv.take(i as int));
        assert(pv.take(i + 1).last() == packages@[i as int]@);
        assert(fv.take(i + 1).last() == opt_texts(found@[i as int]));
        match &found[i] {
            Some(versions) => {
                match make_update(&packages[i], versions, target, include_prerelease) {
                    Some(u) => {
                        let ghost before = out@;
                        out.push(u);
                        assert(updates_view(out@) =~= updates_view(before).push(u@));
                    },
                    None => {},
                }
            },
            None => {},
        }
        i = i + 1;
    }
    assert(pv.take(packages.len() as int) =~= pv);
    assert(fv.take(packages.len() as int) =~= fv);
    out
}

} // verus!
