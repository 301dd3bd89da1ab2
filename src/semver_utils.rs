//! Range-prefix extraction, base-version parsing, update classification and
//! range rewriting.

use crate::version::{
    core_text, joined, parse_version, parsed_version, view_opt, Version, VersionView,
};
use vstd::prelude::*;

verus! {

/// True if the character has the Unicode White_Space property.
pub open spec fn is_white_space(c: char) -> bool {
    let n = c as u32;
    (9 <= n <= 13) || n == 32 || n == 0x85 || n == 0xa0 || n == 0x1680 || (0x2000 <= n <= 0x200a)
        || n == 0x2028 || n == 0x2029 || n == 0x202f || n == 0x205f || n == 0x3000
}

/// The text without its leading white space.
pub open spec fn trim_start_ws(s: Seq<char>) -> Seq<char>
    decreases s.len(),
{
    if s.len() > 0 && is_white_space(s[0]) {
        trim_start_ws(s.skip(1))
    } else {
        s
    }
}

/// The text without its trailing white space.
pub open spec fn trim_end_ws(s: Seq<char>) -> Seq<char>
    decreases s.len(),
{
    if s.len() > 0 && is_white_space(s.last()) {
        trim_end_ws(s.drop_last())
    } else {
        s
    }
}

/// The text without leading and trailing white space.
pub open spec fn trimmed(s: Seq<char>) -> Seq<char> {
    trim_end_ws(trim_start_ws(s))
}

/// Relies on `str::trim`: the text without the leading and trailing
/// characters that have the Unicode White_Space property.
#[verifier::external_body]
fn trim_text<'a>(s: &'a str) -> (r: &'a str)
    ensures
        r@ == trimmed(s@),
{
    s.trim()
}

/// True if `t` begins with `p`.
pub open spec fn begins_with(t: Seq<char>, p: Seq<char>) -> bool {
    p.len() <= t.len() && t.take(p.len() as int) == p
}

/// The operator a (trimmed) range begins with, longest match first; empty
/// where it begins with none.
pub open spec fn range_prefix(t: Seq<char>) -> Seq<char> {
    if begins_with(t, seq!['>', '=']) {
        seq!['>', '=']
    } else if begins_with(t, seq!['<', '=']) {
        seq!['<', '=']
    } else if begins_with(t, seq!['^']) {
        seq!['^']
    } else if begins_with(t, seq!['~']) {
        seq!['~']
    } else if begins_with(t, seq!['>']) {
        seq!['>']
    } else if begins_with(t, seq!['<']) {
        seq!['<']
    } else if begins_with(t, seq!['=']) {
        seq!['=']
    } else {
        seq![]
    }
}

/// A trimmed range that begins with one of the operators `>=`, `<=`, `^`,
/// `~`, `>`, `<`, `=` has that operator as its prefix, unless what follows
/// makes a longer operator of it (`=` after `>` or `<`). Whatever the text,
/// its prefix is one it begins with.
pub proof fn lemma_operator_prefix(p: Seq<char>, v: Seq<char>)
    requires
        p == seq!['>', '='] || p == seq!['<', '='] || p == seq!['^'] || p == seq!['~'] || p
            == seq!['>'] || p == seq!['<'] || p == seq!['='],
        !((p == seq!['>'] || p == seq!['<']) && v.len() > 0 && v[0] == '='),
    ensures
        range_prefix(p + v) == p,
        begins_with(p + v, range_prefix(p + v)),
{
    let t = p + v;
    assert(t.take(p.len() as int) =~= p);
    assert(t[0] == p[0]);
    if p.len() == 2 {
        assert(t[1] == p[1]);
    } else if v.len() > 0 {
        assert(t[1] == v[0]);
    }
    assert(t.take(1) =~= seq![t[0]]);
    if t.len() >= 2 {
        assert(t.take(2) =~= seq![t[0], t[1]]);
    }
}

proof fn lemma_trim_end_keeps_head(a: Seq<char>, b: Seq<char>)
    requires
        a.len() > 0,
        !is_white_space(a.last()),
    ensures
        trim_end_ws(a + b) == a + trim_end_ws(b),
        trim_end_ws(b).len() <= b.len(),
        b.take(trim_end_ws(b).len() as int) == trim_end_ws(b),
    decreases b.len(),
{
    if b.len() == 0 {
        assert(a + b =~= a);
        assert(b.take(0) =~= b);
    } else {
        assert((a + b).last() == b.last());
        if is_white_space(b.last()) {
            assert((a + b).drop_last() =~= a + b.drop_last());
            lemma_trim_end_keeps_head(a, b.drop_last());
            let w = trim_end_ws(b.drop_last());
            assert(b.take(w.len() as int) =~= b.drop_last().take(w.len() as int));
        } else {
            assert(b.take(b.len() as int) =~= b);
        }
    }
}

/// A range written as one of the operators `>=`, `<=`, `^`, `~`, `>`, `<`,
/// `=` followed by a version has that operator as its prefix. A text that
/// node-semver reads as a version starts with `v`, `V`, a space or a digit,
/// never with `=`; the only texts left out are those where `=` after `>` or
/// `<` would make a longer operator.
pub proof fn lemma_extract_prefix_of_operator(p: Seq<char>, v: Seq<char>)
    requires
        p == seq!['>', '='] || p == seq!['<', '='] || p == seq!['^'] || p == seq!['~'] || p
            == seq!['>'] || p == seq!['<'] || p == seq!['='],
        !((p == seq!['>'] || p == seq!['<']) && v.len() > 0 && v[0] == '='),
    ensures
        range_prefix(trimmed(p + v)) == p,
{
    let t = p + v;
    assert(t[0] == p[0]);
    assert(trim_start_ws(t) == t);
    lemma_trim_end_keeps_head(p, v);
    let w = trim_end_ws(v);
    if w.len() > 0 {
        assert(w[0] == v.take(w.len() as int)[0]);
    }
    lemma_operator_prefix(p, w);
}

/// True if the text at position `i` continues with `p`.
fn continues_with(t: &str, len: usize, i: usize, p: &str) -> (r: bool)
    requires
        len == t@.len(),
        i <= len,
    ensures
        r == begins_with(t@.skip(i as int), p@),
{
    let plen = p.unicode_len();
    if plen > len - i {
        return false;
    }
    let mut j: usize = 0;
    while j < plen
        invariant
            plen == p@.len(),
            i + plen <= len,
            len == t@.len(),
            j <= plen,
            forall|k: int| 0 <= k < j ==> t@[i + k] == p@[k],
        decreases plen - j,
    {
        if t.get_char(i + j) != p.get_char(j) {
            assert(t@.skip(i as int).take(plen as int)[j as int] != p@[j as int]);
            return false;
        }
        j = j + 1;
    }
    assert(t@.skip(i as int).take(plen as int) =~= p@);
    true
}

/// The operator that a trimmed range begins with (`>=`, `<=`, `^`, `~`, `>`,
/// `<`, `=`), or the empty text.
pub fn range_operator(t: &str) -> (r: &'static str)
    ensures
        r@ == range_prefix(t@),
{
    proof {
        reveal_strlit(">=");
        reveal_strlit("<=");
        reveal_strlit("^");
        reveal_strlit("~");
        reveal_strlit(">");
        reveal_strlit("<");
        reveal_strlit("=");
        reveal_strlit("");
    }
    let len = t.unicode_len();
    assert(t@.skip(0) =~= t@);
    assert(">="@ =~= seq!['>', '=']);
    assert("<="@ =~= seq!['<', '=']);
    assert("^"@ =~= seq!['^']);
    assert("~"@ =~= seq!['~']);
    assert(">"@ =~= seq!['>']);
    assert("<"@ =~= seq!['<']);
    assert("="@ =~= seq!['=']);
    assert(""@ =~= Seq::<char>::empty());
    if continues_with(t, len, 0, ">=") {
        ">="
    } else if continues_with(t, len, 0, "<=") {
        "<="
    } else if continues_with(t, len, 0, "^") {
        "^"
    } else if continues_with(t, len, 0, "~") {
        "~"
    } else if continues_with(t, len, 0, ">") {
        ">"
    } else if continues_with(t, len, 0, "<") {
        "<"
    } else if continues_with(t, len, 0, "=") {
        "="
    } else {
        ""
    }
}

/// The operator prefix of a range, after surrounding whitespace is removed.
/// Hyphen ranges, alternatives and bare versions have none.
pub fn extract_prefix(range_str: &str) -> (r: &'static str)
    ensures
        r@ == range_prefix(trimmed(range_str@)),
{
    range_operator(trim_text(range_str))
}

/// `t` with every leading repetition of `p` removed.
pub open spec fn strip_repeated(t: Seq<char>, p: Seq<char>) -> Seq<char>
    decreases t.len(),
{
    if p.len() > 0 && begins_with(t, p) {
        strip_repeated(t.skip(p.len() as int), p)
    } else {
        t
    }
}

/// A range with its leading operators removed, one kind after another:
/// `>=`, `<=`, `^`, `~`, `>`, `<`, `=`.
pub open spec fn strip_operators_spec(t: Seq<char>) -> Seq<char> {
    strip_repeated(
        strip_repeated(
            strip_repeated(
                strip_repeated(
                    strip_repeated(
                        strip_repeated(strip_repeated(t, seq!['>', '=']), seq!['<', '=']),
                        seq!['^'],
                    ),
                    seq!['~'],
                ),
                seq!['>'],
            ),
            seq!['<'],
        ),
        seq!['='],
    )
}

/// Removes every leading repetition of `p` from `t`.
fn strip_prefix_repeated<'a>(t: &'a str, p: &str) -> (r: &'a str)
    ensures
        r@ == strip_repeated(t@, p@),
{
    let len = t.unicode_len();
    let plen = p.unicode_len();
    let mut i: usize = 0;
    assert(t@.skip(0) =~= t@);
    if plen == 0 {
        return t;
    }
    while continues_with(t, len, i, p)
        invariant
            len == t@.len(),
            plen == p@.len(),
            plen > 0,
            i <= len,
            strip_repeated(t@, p@) == strip_repeated(t@.skip(i as int), p@),
        decreases len - i,
    {
        assert(t@.skip(i as int).skip(plen as int) =~= t@.skip(i + plen));
        i = i + plen;
    }
    let r = t.substring_char(i, len);
    assert(r@ =~= t@.skip(i as int));
    r
}

/// Removes the leading operators of a trimmed range.
pub fn strip_operators(t: &str) -> (r: &str)
    ensures
        r@ == strip_operators_spec(t@),
{
    proof {
        reveal_strlit(">=");
        reveal_strlit("<=");
        reveal_strlit("^");
        reveal_strlit("~");
        reveal_strlit(">");
        reveal_strlit("<");
        reveal_strlit("=");
    }
    assert(">="@ =~= seq!['>', '=']);
    assert("<="@ =~= seq!['<', '=']);
    assert("^"@ =~= seq!['^']);
    assert("~"@ =~= seq!['~']);
    assert(">"@ =~= seq!['>']);
    assert("<"@ =~= seq!['<']);
    assert("="@ =~= seq!['=']);
    let s = strip_prefix_repeated(t, ">=");
    let s = strip_prefix_repeated(s, "<=");
    let s = strip_prefix_repeated(s, "^");
    let s = strip_prefix_repeated(s, "~");
    let s = strip_prefix_repeated(s, ">");
    let s = strip_prefix_repeated(s, "<");
    strip_prefix_repeated(s, "=")
}

/// The text with each `.x` and each `.*` written as `.0`, scanning from the
/// left.
pub open spec fn wildcards_normalized(t: Seq<char>) -> Seq<char>
    decreases t.len(),
{
    if t.len() == 0 {
        seq![]
    } else if t.len() >= 2 && t[0] == '.' && (t[1] == 'x' || t[1] == '*') {
        seq!['.', '0'] + wildcards_normalized(t.skip(2))
    } else {
        seq![t[0]] + wildcards_normalized(t.skip(1))
    }
}

/// Writes x-range wildcards (`.x`, `.*`) as `.0`.
pub fn normalize_wildcards(t: &str) -> (r: String)
    ensures
        r@ == wildcards_normalized(t@),
{
    proof {
        reveal_strlit(".0");
    }
    assert(".0"@ =~= seq!['.', '0']);
    let len = t.unicode_len();
    let mut out = String::new();
    let mut i: usize = 0;
    assert(t@.skip(0) =~= t@);
    while i < len
        invariant
            len == t@.len(),
            i <= len,
            ".0"@ == seq!['.', '0'],
            wildcards_normalized(t@) == out@ + wildcards_normalized(t@.skip(i as int)),
        decreases len - i,
    {
        let ghost rest = t@.skip(i as int);
        let c = t.get_char(i);
        if c == '.' && i + 1 < len && (t.get_char(i + 1) == 'x' || t.get_char(i + 1) == '*') {
            assert(rest.skip(2) =~= t@.skip(i + 2));
            assert(rest[0] == '.' && rest[1] == t@[i + 1]);
            assert(wildcards_normalized(rest) == seq!['.', '0'] + wildcards_normalized(rest.skip(2)));
            let ghost before = out@;
            out.append(".0");
            assert(out@ + wildcards_normalized(t@.skip(i + 2)) =~= before + wildcards_normalized(rest));
            assert(out@ + wildcards_normalized(t@.skip(i + 2)) =~= wildcards_normalized(t@));
            i = i + 2;
        } else {
            assert(rest.skip(1) =~= t@.skip(i + 1));
            let one = t.substring_char(i, i + 1);
            assert(one@ =~= seq![c]);
            out.append(one);
            assert(out@ + wildcards_normalized(t@.skip(i + 1)) =~= wildcards_normalized(t@));
            i = i + 1;
        }
    }
    assert(t@.skip(len as int) =~= Seq::<char>::empty());
    assert(out@ =~= wildcards_normalized(t@));
    out
}

/// The length of a version's numeric core: the characters before the first
/// `-` or `+`.
pub open spec fn core_len(t: Seq<char>) -> nat
    decreases t.len(),
{
    if t.len() == 0 || t[0] == '-' || t[0] == '+' {
        0
    } else {
        1 + core_len(t.skip(1))
    }
}

/// The number of dots in a version's numeric core.
pub open spec fn core_dots(t: Seq<char>) -> nat
    decreases t.len(),
{
    if t.len() == 0 || t[0] == '-' || t[0] == '+' {
        0
    } else {
        (if t[0] == '.' {
            1nat
        } else {
            0nat
        }) + core_dots(t.skip(1))
    }
}

/// The version text with a missing minor, or missing minor and patch, filled
/// with `.0` at the end of its numeric core (`1` and `1.0` become `1.0.0`).
pub open spec fn components_filled(t: Seq<char>) -> Seq<char> {
    let k = core_len(t) as int;
    let fill = if core_dots(t) == 0 {
        seq!['.', '0', '.', '0']
    } else if core_dots(t) == 1 {
        seq!['.', '0']
    } else {
        seq![]
    };
    t.take(k) + fill + t.skip(k)
}

/// Fills a missing minor or patch component with `.0`.
pub fn fill_components(t: &str) -> (r: String)
    ensures
        r@ == components_filled(t@),
{
    proof {
        reveal_strlit(".0.0");
        reveal_strlit(".0");
    }
    assert(".0.0"@ =~= seq!['.', '0', '.', '0']);
    assert(".0"@ =~= seq!['.', '0']);
    let len = t.unicode_len();
    let mut i: usize = 0;
    let mut dots: usize = 0;
    assert(t@.skip(0) =~= t@);
    while i < len && t.get_char(i) != '-' && t.get_char(i) != '+'
        invariant
            len == t@.len(),
            i <= len,
            dots <= i,
            core_len(t@) == i + core_len(t@.skip(i as int)),
            core_dots(t@) == dots + core_dots(t@.skip(i as int)),
        decreases len - i,
    {
        let ghost rest = t@.skip(i as int);
        assert(rest[0] == t@[i as int]);
        assert(rest.skip(1) =~= t@.skip(i + 1));
        if t.get_char(i) == '.' {
            dots = dots + 1;
        }
        i = i + 1;
    }
    assert(core_len(t@.skip(i as int)) == 0);
    let mut out = String::from_str(t.substring_char(0, i));
    if dots == 0 {
        out.append(".0.0");
    } else if dots == 1 {
        out.append(".0");
    }
    out.append(t.substring_char(i, len));
    assert(out@ =~= components_filled(t@));
    out
}

/// The text that the base version of a range is read from.
pub open spec fn base_text(range: Seq<char>) -> Seq<char> {
    components_filled(wildcards_normalized(trimmed(strip_operators_spec(trimmed(range)))))
}

/// The base version of a range, if its text is a version.
pub open spec fn base_version(range: Seq<char>) -> Option<VersionView> {
    parsed_version(base_text(range))
}

/// The single version a range is built on: operators stripped, x-range
/// wildcards written as `.0`, missing components filled with `.0`, then
/// parsed.
pub fn parse_base_version(range_str: &str) -> (r: Option<Version>)
    ensures
        view_opt(r) == base_version(range_str@),
{
    let t = trim_text(range_str);
    let s = strip_operators(t);
    let u = trim_text(s);
    let n = normalize_wildcards(u);
    let f = fill_components(n.as_str());
    parse_version(f.as_str())
}

/// How big a step from `cur` to `new` is: the first of major, minor and
/// patch where `new` is higher decides; otherwise a prerelease on either side
/// makes it a prerelease step, else none.
pub open spec fn update_class(cur: VersionView, new: VersionView) -> Seq<char> {
    if new.major > cur.major {
        "major"@
    } else if new.minor > cur.minor {
        "minor"@
    } else if new.patch > cur.patch {
        "patch"@
    } else if new.pre.len() > 0 || cur.pre.len() > 0 {
        "prerelease"@
    } else {
        "none"@
    }
}

/// Classifies the step from `current` to `new_version`.
pub fn classify_update(current: &Version, new_version: &Version) -> (r: String)
    ensures
        r@ == update_class(current@, new_version@),
{
    if new_version.major > current.major {
        String::from_str("major")
    } else if new_version.minor > current.minor {
        String::from_str("minor")
    } else if new_version.patch > current.patch {
        String::from_str("patch")
    } else if new_version.pre_release.len() > 0 || current.pre_release.len() > 0 {
        String::from_str("prerelease")
    } else {
        String::from_str("none")
    }
}

/// The range that replaces `range` for `v`: the range's operator prefix,
/// then `v`'s `major.minor.patch`, then `-` and its prerelease identifiers
/// where it has some.
pub open spec fn new_range_text(range: Seq<char>, v: VersionView) -> Seq<char> {
    range_prefix(trimmed(range)) + core_text(v) + if v.pre.len() == 0 {
        seq![]
    } else {
        seq!['-'] + joined(v.pre)
    }
}

/// Rewrites a range for a new version, keeping its operator prefix.
pub fn construct_new_range(original_range: &str, new_version: &Version) -> (r: String)
    ensures
        r@ == new_range_text(original_range@, new_version@),
{
    proof {
        reveal_strlit("-");
    }
    let prefix = extract_prefix(original_range);
    let mut out = String::from_str(prefix);
    let core = new_version.core_string();
    out.append(core.as_str());
    if new_version.pre_release.len() > 0 {
        out.append("-");
        let pre = crate::version::join_identifiers(&new_version.pre_release);
        out.append(pre.as_str());
    }
    assert(out@ =~= new_range_text(original_range@, new_version@));
    out
}

} // verus!
