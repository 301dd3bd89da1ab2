//! The values that cross the library's boundary.

use vstd::prelude::*;

verus! {

/// A declared dependency: its name, its version range, and what kind of
/// dependency it is (carried through unchanged).
#[derive(Clone, Debug)]
pub struct PackageInfo {
    pub name: String,
    pub version_range: String,
    pub dep_type: String,
}

/// Settings of one resolution; an absent field takes its default.
#[derive(Clone, Debug)]
pub struct CheckOptions {
    pub registry: Option<String>,
    pub target: Option<String>,
    pub concurrency: Option<u32>,
    pub timeout_ms: Option<u32>,
    pub cache_file: Option<String>,
    pub cache_ttl_seconds: Option<u32>,
    pub include_prerelease: Option<bool>,
    pub retries: Option<u32>,
}

impl Default for CheckOptions {
    fn default() -> (r: Self)
        ensures
            r.registry is None,
            r.target matches Some(t) && t@ == "latest"@,
            r.concurrency == Some(24u32),
            r.timeout_ms == Some(30000u32),
            r.cache_file is None,
            r.cache_ttl_seconds == Some(600u32),
            r.include_prerelease == Some(false),
            r.retries == Some(3u32),
    {
        CheckOptions {
            registry: None,
            target: Some(String::from_str("latest")),
            concurrency: Some(24),
            timeout_ms: Some(30000),
            cache_file: None,
            cache_ttl_seconds: Some(600),
            include_prerelease: Some(false),
            retries: Some(3),
        }
    }
}

/// One proposed update.
#[derive(Clone, Debug)]
pub struct UpdateResult {
    pub name: String,
    pub current: String,
    pub current_version: String,
    pub latest: String,
    pub new_range: String,
    pub update_type: String,
    pub dep_type: String,
}

/// The versions a registry lists for a package.
#[derive(Clone, Debug)]
pub struct RegistryVersionInfo {
    pub name: String,
    pub versions: Vec<String>,
}

/// The texts of a list of strings.
pub open spec fn texts(vs: Seq<String>) -> Seq<Seq<char>> {
    vs.map_values(|s: String| s@)
}

/// Copies a list of strings.
pub fn copy_strings(vs: &Vec<String>) -> (r: Vec<String>)
    ensures
        texts(r@) == texts(vs@),
{
    let mut out: Vec<String> = Vec::new();
    let mut i: usize = 0;
    while i < vs.len()
        invariant
            i <= vs.len(),
            out@.len() == i,
            texts(out@) =~= texts(vs@).take(i as int),
        decreases vs.len() - i,
    {
        let ghost before = out@;
        let c = vs[i].clone();
        out.push(c);
        assert(out@ == before.push(c));
        assert(c@ == vs@[i as int]@);
        assert forall|k: int| 0 <= k < i implies texts(out@)[k] == texts(before)[k] by {
            assert(out@[k] == before[k]);
        }
        assert(texts(out@) =~= texts(vs@).take(i + 1));
        i = i + 1;
    }
    assert(texts(vs@).take(vs.len() as int) =~= texts(vs@));
    out
}

} // verus!
