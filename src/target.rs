//! Choosing the version a dependency should move to, by target policy.

use crate::semver_utils::{base_version, parse_base_version};
use crate::types::texts;
use crate::version::{
    lemma_version_cmp_order, parse_version, parsed_version, version_cmp, view_opt, Version,
    VersionView,
};
use vstd::prelude::*;

verus! {

#[verifier::external_type_specification]
#[verifier::external_body]
pub struct ExRange(node_semver::Range);

/// How far an update may go.
#[derive(Clone, Copy, Debug, PartialEq, Eq)]
pub enum Target {
    /// The highest version.
    Latest,
    /// The highest version with the same major number.
    Minor,
    /// The highest version with the same major and minor numbers.
    Patch,
    /// The highest version that the declared range admits.
    Semver,
}

/// The policy a name selects: `latest`, `minor`, `patch` or `semver`.
pub open spec fn target_of(t: Seq<char>) -> Option<Target> {
    if t == "latest"@ {
        Some(Target::Latest)
    } else if t == "minor"@ {
        Some(Target::Minor)
    } else if t == "patch"@ {
        Some(Target::Patch)
    } else if t == "semver"@ {
        Some(Target::Semver)
    } else {
        None
    }
}

/// True if the two texts are equal.
pub fn text_equals(a: &str, b: &str) -> (r: bool)
    ensures
        r == (a@ == b@),
{
    let la = a.unicode_len();
    let lb = b.unicode_len();
    if la != lb {
        return false;
    }
    let mut i: usize = 0;
    while i < la
        invariant
            la == a@.len(),
            lb == b@.len(),
            la == lb,
            i <= la,
            forall|k: int| 0 <= k < i ==> a@[k] == b@[k],
        decreases la - i,
    {
        if a.get_char(i) != b.get_char(i) {
            return false;
        }
        i = i + 1;
    }
    assert(a@ =~= b@);
    true
}

/// Reads a policy name.
pub fn parse_target(t: &str) -> (r: Option<Target>)
    ensures
        r == target_of(t@),
{
    if text_equals(t, "latest") {
        Some(Target::Latest)
    } else if text_equals(t, "minor") {
        Some(Target::Minor)
    } else if text_equals(t, "patch") {
        Some(Target::Patch)
    } else if text_equals(t, "semver") {
        Some(Target::Semver)
    } else {
        None
    }
}

/// True if node-semver's range grammar accepts the text.
pub uninterp spec fn range_parses(text: Seq<char>) -> bool;

/// True if the range written as `text` admits the version.
pub uninterp spec fn range_admits(text: Seq<char>, v: VersionView) -> bool;

/// A parsed version range, with the text it was read from.
pub struct VersionRange {
    inner: node_semver::Range,
    text: String,
}

impl View for VersionRange {
    type V = Seq<char>;

    closed spec fn view(&self) -> Seq<char> {
        self.text@
    }
}

pub open spec fn is_blank(c: char) -> bool {
    c == ' ' || c == '\t'
}

pub open spec fn is_wildcard(c: char) -> bool {
    c == 'x' || c == 'X' || c == '*'
}

pub open spec fn is_digit(c: char) -> bool {
    '0' <= c <= '9'
}

/// The first position from `i` on that holds no space or tab.
pub open spec fn skip_blanks(t: Seq<char>, i: int) -> int
    decreases t.len() - i,
{
    if 0 <= i < t.len() && is_blank(t[i]) {
        skip_blanks(t, i + 1)
    } else {
        i
    }
}

/// The first position from `i` on that holds no digit.
pub open spec fn skip_digits(t: Seq<char>, i: int) -> int
    decreases t.len() - i,
{
    if 0 <= i < t.len() && is_digit(t[i]) {
        skip_digits(t, i + 1)
    } else {
        i
    }
}

/// Position `i`, or the one after it where `i` holds `c`.
pub open spec fn skip_char(t: Seq<char>, i: int, c: char) -> int {
    if 0 <= i < t.len() && t[i] == c {
        i + 1
    } else {
        i
    }
}

pub open spec fn char_at(t: Seq<char>, i: int, p: spec_fn(char) -> bool) -> bool {
    0 <= i < t.len() && p(t[i])
}

/// Where the major component of a partial version starting at `i` stands:
/// after blanks, an optional `v`, and blanks.
pub open spec fn component_start(t: Seq<char>, i: int) -> int {
    skip_blanks(t, skip_char(t, skip_blanks(t, i), 'v'))
}

/// An `=` operator (not the end of `>=` or `<=`) whose partial version has
/// a wildcard major: node-semver's range grammar has no arm for it.
pub open spec fn exact_wildcard_at(t: Seq<char>, i: int) -> bool {
    &&& 0 <= i < t.len()
    &&& t[i] == '='
    &&& (i == 0 || (t[i - 1] != '<' && t[i - 1] != '>'))
    &&& char_at(t, component_start(t, i + 1), |c: char| is_wildcard(c))
}

/// A `~` or `~>` whose partial version has a wildcard major, or a number,
/// a wildcard minor and then a numeric patch: node-semver's range grammar
/// has no arm for either.
pub open spec fn tilde_wildcard_at(t: Seq<char>, i: int) -> bool {
    &&& 0 <= i < t.len()
    &&& t[i] == '~'
    &&& {
        let j = component_start(t, skip_blanks(t, skip_char(t, skip_blanks(t, i + 1), '>')));
        let d = skip_digits(t, j);
        char_at(t, j, |c: char| is_wildcard(c)) || (d > j && char_at(t, d, |c: char| c == '.')
            && char_at(t, d + 1, |c: char| is_wildcard(c)) && char_at(t, d + 2, |c: char| c == '.')
            && char_at(t, d + 3, |c: char| is_digit(c)))
    }
}

/// True if the text holds a comparator on which node-semver's range parser
/// reaches an `unreachable!` arm (`=x`, `= v*`, `~x`, `~1.x.3`, `~>1.x.3`);
/// such texts are never handed to it.
pub open spec fn range_text_unsafe(t: Seq<char>) -> bool {
    exists|i: int| 0 <= i < t.len() && #[trigger] unsafe_at(t, i)
}

/// True if a comparator node-semver cannot take starts at `i`.
pub open spec fn unsafe_at(t: Seq<char>, i: int) -> bool {
    exact_wildcard_at(t, i) || tilde_wildcard_at(t, i)
}

fn skip_blanks_exec(t: &str, len: usize, i: usize) -> (r: usize)
    requires
        len == t@.len(),
        i <= len,
    ensures
        r as int == skip_blanks(t@, i as int),
        r <= len,
{
    let mut k = i;
    while k < len && (t.get_char(k) == ' ' || t.get_char(k) == '\t')
        invariant
            len == t@.len(),
            i <= k <= len,
            skip_blanks(t@, i as int) == skip_blanks(t@, k as int),
        decreases len - k,
    {
        k = k + 1;
    }
    k
}

fn skip_digits_exec(t: &str, len: usize, i: usize) -> (r: usize)
    requires
        len == t@.len(),
        i <= len,
    ensures
        r as int == skip_digits(t@, i as int),
        r <= len,
{
    let mut k = i;
    while k < len && '0' <= t.get_char(k) && t.get_char(k) <= '9'
        invariant
            len == t@.len(),
            i <= k <= len,
            skip_digits(t@, i as int) == skip_digits(t@, k as int),
        decreases len - k,
    {
        k = k + 1;
    }
    k
}

fn skip_char_exec(t: &str, len: usize, i: usize, c: char) -> (r: usize)
    requires
        len == t@.len(),
        i <= len,
    ensures
        r as int == skip_char(t@, i as int, c),
        r <= len,
{
    if i < len && t.get_char(i) == c {
        i + 1
    } else {
        i
    }
}

fn component_start_exec(t: &str, len: usize, i: usize) -> (r: usize)
    requires
        len == t@.len(),
        i <= len,
    ensures
        r as int == component_start(t@, i as int),
        r <= len,
{
    let a = skip_blanks_exec(t, len, i);
    let b = skip_char_exec(t, len, a, 'v');
    skip_blanks_exec(t, len, b)
}

fn wildcard_at_exec(t: &str, len: usize, i: usize) -> (r: bool)
    requires
        len == t@.len(),
    ensures
        r == char_at(t@, i as int, |c: char| is_wildcard(c)),
{
    if i < len {
        let c = t.get_char(i);
        c == 'x' || c == 'X' || c == '*'
    } else {
        false
    }
}

fn exact_wildcard_exec(t: &str, len: usize, i: usize) -> (r: bool)
    requires
        len == t@.len(),
        i < len,
    ensures
        r == exact_wildcard_at(t@, i as int),
{
    if t.get_char(i) != '=' {
        return false;
    }
    if i > 0 && (t.get_char(i - 1) == '<' || t.get_char(i - 1) == '>') {
        return false;
    }
    let j = component_start_exec(t, len, i + 1);
    wildcard_at_exec(t, len, j)
}

fn tilde_wildcard_exec(t: &str, len: usize, i: usize) -> (r: bool)
    requires
        len == t@.len(),
        i < len,
    ensures
        r == tilde_wildcard_at(t@, i as int),
{
    if t.get_char(i) != '~' {
        return false;
    }
    let a = skip_blanks_exec(t, len, i + 1);
    let b = skip_char_exec(t, len, a, '>');
    let c = skip_blanks_exec(t, len, b);
    let j = component_start_exec(t, len, c);
    if wildcard_at_exec(t, len, j) {
        return true;
    }
    let d = skip_digits_exec(t, len, j);
    d > j && d < len && len - d > 3 && t.get_char(d) == '.' && wildcard_at_exec(t, len, d + 1) && t.get_char(
        d + 2,
    ) == '.' && '0' <= t.get_char(d + 3) && t.get_char(d + 3) <= '9'
}

/// Tells whether a range text holds a comparator that node-semver's range
/// parser cannot take.
pub fn is_range_text_unsafe(t: &str) -> (r: bool)
    ensures
        r == range_text_unsafe(t@),
{
    let len = t.unicode_len();
    let mut i: usize = 0;
    while i < len
        invariant
            len == t@.len(),
            i <= len,
            forall|k: int|
                0 <= k < i ==> !#[trigger] unsafe_at(t@, k),
        decreases len - i,
    {
        if exact_wildcard_exec(t, len, i) || tilde_wildcard_exec(t, len, i) {
            assert(unsafe_at(t@, i as int));
            return true;
        }
        i = i + 1;
    }
    false
}

/// Relies on node_semver's `Range::parse` (reached through `FromStr`): a
/// range where the text is one, `None` where not. It panics on the
/// comparators that `range_text_unsafe` describes; `requires` keeps those
/// out.
#[verifier::external_body]
pub(crate) fn parse_range(text: &str) -> (r: Option<VersionRange>)
    requires
        !range_text_unsafe(text@),
    ensures
        r.is_some() == range_parses(text@),
        r matches Some(range) ==> range@ == text@,
{
    text.parse::<node_semver::Range>().ok().map(|inner| VersionRange { inner, text: text.to_string() })
}

impl VersionRange {
    /// Relies on node_semver's `Range::satisfies`, which reads the version's
    /// numbers and prerelease identifiers and never its build metadata.
    #[verifier::external_body]
    pub(crate) fn admits(&self, v: &Version) -> (r: bool)
        ensures
            r == range_admits(self@, v@),
    {
        let id = |i: &crate::version::Identifier| match i {
            crate::version::Identifier::Numeric(n) => node_semver::Identifier::Numeric(*n),
            crate::version::Identifier::AlphaNumeric(s) => node_semver::Identifier::AlphaNumeric(s.clone()),
        };
        let mut outside = node_semver::Version::new(v.major, v.minor, v.patch);
        outside.pre_release = v.pre_release.iter().map(id).collect();
        self.inner.satisfies(&outside)
    }
}

/// True if `v` is a version that the policy would move `cur` to: it must be
/// strictly above `cur`, and for `semver` admitted by the range, whose text is
/// given.
pub open spec fn qualifies(
    target: Target,
    cur: VersionView,
    v: VersionView,
    range: Option<Seq<char>>,
) -> bool {
    version_cmp(v, cur) > 0 && match target {
        Target::Latest => true,
        Target::Minor => v.major == cur.major,
        Target::Patch => v.major == cur.major && v.minor == cur.minor,
        Target::Semver => match range {
            Some(text) => range_admits(text, v),
            None => false,
        },
    }
}

/// The position of the highest qualifying candidate; among equally high
/// ones, the last.
pub open spec fn best_index(
    c: Seq<VersionView>,
    target: Target,
    cur: VersionView,
    range: Option<Seq<char>>,
) -> Option<int>
    decreases c.len(),
{
    if c.len() == 0 {
        None
    } else {
        let i = c.len() - 1;
        let rest = best_index(c.drop_last(), target, cur, range);
        if qualifies(target, cur, c[i], range) && (rest is None || version_cmp(
            c[i],
            c[rest.unwrap()],
        ) >= 0) {
            Some(i)
        } else {
            rest
        }
    }
}

pub proof fn lemma_best_index_bounds(
    c: Seq<VersionView>,
    target: Target,
    cur: VersionView,
    range: Option<Seq<char>>,
)
    ensures
        best_index(c, target, cur, range) matches Some(i) ==> 0 <= i < c.len() && qualifies(
            target,
            cur,
            c[i],
            range,
        ),
    decreases c.len(),
{
    if c.len() > 0 {
        lemma_best_index_bounds(c.drop_last(), target, cur, range);
    }
}

/// The chosen candidate qualifies and no qualifying candidate is above it;
/// where none is chosen, none qualifies.
pub proof fn lemma_best_is_highest(
    c: Seq<VersionView>,
    target: Target,
    cur: VersionView,
    range: Option<Seq<char>>,
)
    ensures
        match best_index(c, target, cur, range) {
            Some(i) => 0 <= i < c.len() && qualifies(target, cur, c[i], range) && forall|j: int|
                0 <= j < c.len() && qualifies(target, cur, c[j], range) ==> version_cmp(c[j], c[i])
                    <= 0,
            None => forall|j: int| 0 <= j < c.len() ==> !qualifies(target, cur, c[j], range),
        },
    decreases c.len(),
{
    if c.len() > 0 {
        let p = c.drop_last();
        let last = c.len() - 1;
        lemma_best_is_highest(p, target, cur, range);
        lemma_version_cmp_order(c[last], c[last], c[last]);
        match best_index(p, target, cur, range) {
            Some(r) => {
                assert(p[r] == c[r]);
                if best_index(c, target, cur, range) == Some(last) {
                    assert forall|j: int|
                        0 <= j < c.len() && qualifies(target, cur, c[j], range) implies version_cmp(
                        c[j],
                        c[last],
                    ) <= 0 by {
                        if j < last {
                            assert(p[j] == c[j]);
                            lemma_version_cmp_order(c[j], c[r], c[last]);
                            lemma_version_cmp_order(c[last], c[r], c[j]);
                        }
                    }
                } else {
                    assert forall|j: int|
                        0 <= j < c.len() && qualifies(target, cur, c[j], range) implies version_cmp(
                        c[j],
                        c[r],
                    ) <= 0 by {
                        if j < last {
                            assert(p[j] == c[j]);
                        } else {
                            lemma_version_cmp_order(c[last], c[r], c[r]);
                        }
                    }
                }
            },
            None => {
                assert forall|j: int| 0 <= j < last implies !qualifies(target, cur, c[j], range) by {
                    assert(p[j] == c[j]);
                }
            },
        }
    }
}

pub open spec fn versions_view(vs: Seq<Version>) -> Seq<VersionView> {
    vs.map_values(|v: Version| v@)
}

/// True if `v` qualifies for the policy.
fn qualifies_exec(target: Target, cur: &Version, v: &Version, range: &Option<VersionRange>) -> (r:
    bool)
    ensures
        r == qualifies(
            target,
            cur@,
            v@,
            match range {
                Some(x) => Some(x@),
                None => None,
            },
        ),
{
    if v.compare(cur) <= 0 {
        return false;
    }
    match target {
        Target::Latest => true,
        Target::Minor => v.major == cur.major,
        Target::Patch => v.major == cur.major && v.minor == cur.minor,
        Target::Semver => match range {
            Some(x) => x.admits(v),
            None => false,
        },
    }
}

/// The text of an optional range.
pub open spec fn range_text(range: Option<VersionRange>) -> Option<Seq<char>> {
    match range {
        Some(x) => Some(x@),
        None => None,
    }
}

/// Picks, among `candidates`, the position of the highest one that the
/// policy would move `current` to (the last of equally high ones).
pub fn select_target(
    current: &Version,
    candidates: &Vec<Version>,
    target: Target,
    range: &Option<VersionRange>,
) -> (r: Option<usize>)
    ensures
        r matches Some(i) ==> Some(i as int) == best_index(
            versions_view(candidates@),
            target,
            current@,
            range_text(*range),
        ),
        r is None ==> best_index(
            versions_view(candidates@),
            target,
            current@,
            range_text(*range),
        ) is None,
{
    let ghost c = versions_view(candidates@);
    let ghost rt = range_text(*range);
    let mut best: Option<usize> = None;
    let mut i: usize = 0;
    assert(c.take(0) =~= Seq::<VersionView>::empty());
    while i < candidates.len()
        invariant
            i <= candidates.len(),
            c == versions_view(candidates@),
            rt == range_text(*range),
            match best {
                Some(b) => best_index(c.take(i as int), target, current@, rt) == Some(b as int),
                None => best_index(c.take(i as int), target, current@, rt) is None,
            },
        decreases candidates.len() - i,
    {
        let ghost pre = c.take(i as int);
        let ghost post = c.take(i + 1);
        assert(post.drop_last() =~= pre);
        assert(post[i as int] == candidates@[i as int]@);
        proof {
            lemma_best_index_bounds(pre, target, current@, rt);
        }
        let q = qualifies_exec(target, current, &candidates[i], range);
        if q {
            match best {
                None => {
                    best = Some(i);
                },
                Some(b) => {
                    assert(post[b as int] == candidates@[b as int]@);
                    if candidates[i].compare(&candidates[b]) >= 0 {
                        best = Some(i);
                    }
                },
            }
        }
        i = i + 1;
    }
    assert(c.take(candidates.len() as int) =~= c);
    best
}


/// The versions among `texts` that parse, in their order, without
/// prereleases unless `include_prerelease`.
pub open spec fn candidates(texts: Seq<Seq<char>>, include_prerelease: bool) -> Seq<VersionView>
    decreases texts.len(),
{
    if texts.len() == 0 {
        seq![]
    } else {
        let rest = candidates(texts.drop_last(), include_prerelease);
        match parsed_version(texts.last()) {
            Some(v) => if include_prerelease || v.pre.len() == 0 {
                rest.push(v)
            } else {
                rest
            },
            None => rest,
        }
    }
}

/// Parses the versions a registry lists, keeping those eligible.
pub fn collect_candidates(versions: &[String], include_prerelease: bool) -> (r: Vec<Version>)
    ensures
        versions_view(r@) == candidates(texts(versions@), include_prerelease),
{
    let mut out: Vec<Version> = Vec::new();
    let mut i: usize = 0;
    let ghost t = texts(versions@);
    assert(t.take(0) =~= Seq::<Seq<char>>::empty());
    assert(versions_view(out@) =~= Seq::<VersionView>::empty());
    while i < versions.len()
        invariant
            i <= versions.len(),
            t == texts(versions@),
            versions_view(out@) == candidates(t.take(i as int), include_prerelease),
        decreases versions.len() - i,
    {
        assert(t.take(i + 1).drop_last() =~= t.take(i as int));
        assert(t.take(i + 1).last() == versions@[i as int]@);
        let parsed = parse_version(versions[i].as_str());
        match parsed {
            Some(v) => {
                if include_prerelease || !v.is_prerelease() {
                    let ghost before = out@;
                    out.push(v);
                    assert(versions_view(out@) =~= versions_view(before).push(v@));
                }
            },
            None => {},
        }
        i = i + 1;
    }
    assert(t.take(versions.len() as int) =~= t);
    out
}

/// The version a range should move to under the policy named `target`:
/// none where the range has no base version, the policy is unknown, or (for
/// `semver`) the range holds a comparator node-semver cannot take, or does
/// not parse;
/// else the highest qualifying candidate.
pub open spec fn resolved(
    range: Seq<char>,
    versions: Seq<Seq<char>>,
    target: Seq<char>,
    include_prerelease: bool,
) -> Option<VersionView> {
    match (base_version(range), target_of(target)) {
        (Some(cur), Some(t)) => {
            if t == Target::Semver && (range_text_unsafe(range) || !range_parses(range)) {
                None
            } else {
                let c = candidates(versions, include_prerelease);
                let rt = if t == Target::Semver {
                    Some(range)
                } else {
                    None
                };
                match best_index(c, t, cur, rt) {
                    Some(i) => Some(c[i]),
                    None => None,
                }
            }
        },
        _ => None,
    }
}

/// Where the range has a base version and the policy is known (and, for
/// `semver`, the range parses), the resolved version is a candidate that
/// qualifies and that no qualifying candidate is above; where none is
/// resolved, no candidate qualifies.
pub proof fn lemma_resolved_is_highest(
    range: Seq<char>,
    versions: Seq<Seq<char>>,
    target: Seq<char>,
    include_prerelease: bool,
)
    requires
        base_version(range) is Some,
        target_of(target) is Some,
        target_of(target) == Some(Target::Semver) ==> !range_text_unsafe(range) && range_parses(
            range,
        ),
    ensures
        ({
            let cur = base_version(range).unwrap();
            let t = target_of(target).unwrap();
            let c = candidates(versions, include_prerelease);
            let rt = if t == Target::Semver {
                Some(range)
            } else {
                None
            };
            match resolved(range, versions, target, include_prerelease) {
                Some(v) => c.contains(v) && qualifies(t, cur, v, rt) && forall|j: int|
                    0 <= j < c.len() && qualifies(t, cur, c[j], rt) ==> version_cmp(c[j], v) <= 0,
                None => forall|j: int| 0 <= j < c.len() ==> !qualifies(t, cur, c[j], rt),
            }
        }),
{
    let cur = base_version(range).unwrap();
    let t = target_of(target).unwrap();
    let c = candidates(versions, include_prerelease);
    let rt = if t == Target::Semver {
        Some(range)
    } else {
        None
    };
    lemma_best_is_highest(c, t, cur, rt);
}

/// Resolves the version that `current_range` should move to among the
/// registry's `versions`, under the policy named `target`.
pub fn resolve_target_version(
    current_range: &str,
    versions: &[String],
    target: &str,
    include_prerelease: bool,
) -> (r: Option<Version>)
    ensures
        view_opt(r) == resolved(current_range@, texts(versions@), target@, include_prerelease),
{
    let current = match parse_base_version(current_range) {
        Some(v) => v,
        None => return None,
    };
    let mut cands = collect_candidates(versions, include_prerelease);
    let t = match parse_target(target) {
        Some(t) => t,
        None => return None,
    };
    let range = match t {
        Target::Semver => {
            if is_range_text_unsafe(current_range) {
                return None;
            }
            match parse_range(current_range) {
                Some(x) => Some(x),
                None => return None,
            }
        },
        _ => None,
    };
    let ghost c = versions_view(cands@);
    proof {
        lemma_best_index_bounds(c, t, current@, range_text(range));
    }
    match select_target(&current, &cands, t, &range) {
        Some(i) => {
            assert(c[i as int] == cands@[i as int]@);
            Some(cands.remove(i))
        },
        None => None,
    }
}

} // verus!
