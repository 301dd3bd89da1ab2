//! Semantic versions as plain values, their precedence, and their text.

use vstd::prelude::*;

verus! {

/// One dot-separated identifier of a prerelease or build suffix.
#[derive(Clone, Debug)]
pub enum Identifier {
    Numeric(u64),
    AlphaNumeric(String),
}

/// What an identifier denotes.
pub enum IdentView {
    Num(u64),
    Alpha(Seq<char>),
}

/// A semantic version: `major.minor.patch`, optional prerelease identifiers
/// and optional build metadata.
#[derive(Clone, Debug)]
pub struct Version {
    pub major: u64,
    pub minor: u64,
    pub patch: u64,
    pub build: Vec<Identifier>,
    pub pre_release: Vec<Identifier>,
}

/// What a version denotes.
pub struct VersionView {
    pub major: u64,
    pub minor: u64,
    pub patch: u64,
    pub pre: Seq<IdentView>,
    pub build: Seq<IdentView>,
}

impl View for Identifier {
    type V = IdentView;

    open spec fn view(&self) -> IdentView {
        match self {
            Identifier::Numeric(n) => IdentView::Num(*n),
            Identifier::AlphaNumeric(s) => IdentView::Alpha(s@),
        }
    }
}

pub open spec fn idents_view(ids: Seq<Identifier>) -> Seq<IdentView> {
    ids.map_values(|i: Identifier| i@)
}

impl View for Version {
    type V = VersionView;

    open spec fn view(&self) -> VersionView {
        VersionView {
            major: self.major,
            minor: self.minor,
            patch: self.patch,
            pre: idents_view(self.pre_release@),
            build: idents_view(self.build@),
        }
    }
}

/// Three-way comparison of integers: -1, 0 or 1.
pub open spec fn cmp_int(a: int, b: int) -> int {
    if a < b {
        -1
    } else if a > b {
        1
    } else {
        0
    }
}

/// Lexicographic comparison of character sequences, by code point.
pub open spec fn chars_cmp(a: Seq<char>, b: Seq<char>) -> int
    decreases a.len(),
{
    if a.len() == 0 {
        if b.len() == 0 {
            0
        } else {
            -1
        }
    } else if b.len() == 0 {
        1
    } else if a[0] != b[0] {
        cmp_int(a[0] as int, b[0] as int)
    } else {
        chars_cmp(a.drop_first(), b.drop_first())
    }
}

/// Identifier order: numeric identifiers come before alphanumeric ones;
/// numbers compare by value, the rest by their characters.
pub open spec fn ident_cmp(a: IdentView, b: IdentView) -> int {
    match (a, b) {
        (IdentView::Num(x), IdentView::Num(y)) => cmp_int(x as int, y as int),
        (IdentView::Num(_), IdentView::Alpha(_)) => -1,
        (IdentView::Alpha(_), IdentView::Num(_)) => 1,
        (IdentView::Alpha(x), IdentView::Alpha(y)) => chars_cmp(x, y),
    }
}

/// Lexicographic comparison of identifier lists; a proper prefix comes first.
pub open spec fn idents_cmp(a: Seq<IdentView>, b: Seq<IdentView>) -> int
    decreases a.len(),
{
    if a.len() == 0 {
        if b.len() == 0 {
            0
        } else {
            -1
        }
    } else if b.len() == 0 {
        1
    } else if ident_cmp(a[0], b[0]) != 0 {
        ident_cmp(a[0], b[0])
    } else {
        idents_cmp(a.drop_first(), b.drop_first())
    }
}

/// Version precedence: major, minor, patch, then prerelease, where a version
/// without prerelease identifiers follows every one with them. Build metadata
/// takes no part.
pub open spec fn version_cmp(a: VersionView, b: VersionView) -> int {
    if a.major != b.major {
        cmp_int(a.major as int, b.major as int)
    } else if a.minor != b.minor {
        cmp_int(a.minor as int, b.minor as int)
    } else if a.patch != b.patch {
        cmp_int(a.patch as int, b.patch as int)
    } else if a.pre.len() == 0 && b.pre.len() == 0 {
        0
    } else if a.pre.len() == 0 {
        1
    } else if b.pre.len() == 0 {
        -1
    } else {
        idents_cmp(a.pre, b.pre)
    }
}

proof fn lemma_chars_cmp_order(a: Seq<char>, b: Seq<char>, c: Seq<char>)
    ensures
        chars_cmp(a, b) == -chars_cmp(b, a),
        chars_cmp(a, b) <= 0 && chars_cmp(b, c) <= 0 ==> chars_cmp(a, c) <= 0,
        -1 <= chars_cmp(a, b) <= 1,
    decreases a.len(),
{
    if a.len() > 0 && b.len() > 0 && c.len() > 0 {
        lemma_chars_cmp_order(a.drop_first(), b.drop_first(), c.drop_first());
    } else if a.len() > 0 && b.len() > 0 {
        lemma_chars_cmp_order(a.drop_first(), b.drop_first(), b.drop_first());
    }
}

proof fn lemma_ident_cmp_order(a: IdentView, b: IdentView, c: IdentView)
    ensures
        ident_cmp(a, b) == -ident_cmp(b, a),
        ident_cmp(a, b) <= 0 && ident_cmp(b, c) <= 0 ==> ident_cmp(a, c) <= 0,
        -1 <= ident_cmp(a, b) <= 1,
{
    match (a, b, c) {
        (IdentView::Alpha(x), IdentView::Alpha(y), IdentView::Alpha(z)) => {
            lemma_chars_cmp_order(x, y, z);
        },
        (IdentView::Alpha(x), IdentView::Alpha(y), _) => {
            lemma_chars_cmp_order(x, y, y);
        },
        _ => {},
    }
}

proof fn lemma_idents_cmp_order(a: Seq<IdentView>, b: Seq<IdentView>, c: Seq<IdentView>)
    ensures
        idents_cmp(a, b) == -idents_cmp(b, a),
        idents_cmp(a, b) <= 0 && idents_cmp(b, c) <= 0 ==> idents_cmp(a, c) <= 0,
    decreases a.len(),
{
    if a.len() > 0 && b.len() > 0 {
        let cc = if c.len() > 0 { c } else { b };
        lemma_ident_cmp_order(a[0], b[0], cc[0]);
        lemma_ident_cmp_order(b[0], cc[0], a[0]);
        lemma_ident_cmp_order(a[0], cc[0], b[0]);
        lemma_ident_cmp_order(cc[0], a[0], b[0]);
        lemma_ident_cmp_order(cc[0], b[0], a[0]);
        lemma_idents_cmp_order(a.drop_first(), b.drop_first(), cc.drop_first());
        if c.len() > 0 {
            if ident_cmp(a[0], b[0]) == 0 && ident_cmp(b[0], c[0]) == 0 {
                assert(ident_cmp(a[0], c[0]) <= 0);
                assert(ident_cmp(c[0], a[0]) <= 0) by {
                    lemma_ident_cmp_order(c[0], b[0], a[0]);
                }
            }
        }
    }
}

/// Version precedence is a total preorder: swapping the sides negates the
/// comparison, and "not above" is transitive.
pub proof fn lemma_version_cmp_order(a: VersionView, b: VersionView, c: VersionView)
    ensures
        version_cmp(a, b) == -version_cmp(b, a),
        version_cmp(a, a) == 0,
        version_cmp(a, b) <= 0 && version_cmp(b, c) <= 0 ==> version_cmp(a, c) <= 0,
{
    lemma_idents_cmp_order(a.pre, b.pre, c.pre);
    lemma_idents_cmp_order(a.pre, a.pre, a.pre);
}

fn cmp_u64(a: u64, b: u64) -> (r: i8)
    ensures
        r as int == cmp_int(a as int, b as int),
{
    if a < b {
        -1
    } else if a > b {
        1
    } else {
        0
    }
}

/// Compares two texts character by character.
pub fn compare_chars(a: &str, b: &str) -> (r: i8)
    ensures
        r as int == chars_cmp(a@, b@),
{
    let la = a.unicode_len();
    let lb = b.unicode_len();
    let mut i: usize = 0;
    assert(a@.skip(0) =~= a@);
    assert(b@.skip(0) =~= b@);
    while i < la && i < lb
        invariant
            la == a@.len(),
            lb == b@.len(),
            i <= la,
            i <= lb,
            forall|j: int| 0 <= j < i ==> a@[j] == b@[j],
            chars_cmp(a@, b@) == chars_cmp(a@.skip(i as int), b@.skip(i as int)),
        decreases la - i,
    {
        let ca = a.get_char(i);
        let cb = b.get_char(i);
        assert(a@.skip(i as int)[0] == ca);
        assert(b@.skip(i as int)[0] == cb);
        if ca != cb {
            return cmp_u64(ca as u64, cb as u64);
        }
        assert(a@.skip(i as int).drop_first() =~= a@.skip(i + 1));
        assert(b@.skip(i as int).drop_first() =~= b@.skip(i + 1));
        i = i + 1;
    }
    if i < la {
        1
    } else if i < lb {
        -1
    } else {
        0
    }
}

/// Compares two identifiers.
pub fn compare_idents(a: &Identifier, b: &Identifier) -> (r: i8)
    ensures
        r as int == ident_cmp(a@, b@),
{
    match (a, b) {
        (Identifier::Numeric(x), Identifier::Numeric(y)) => cmp_u64(*x, *y),
        (Identifier::Numeric(_), Identifier::AlphaNumeric(_)) => -1,
        (Identifier::AlphaNumeric(_), Identifier::Numeric(_)) => 1,
        (Identifier::AlphaNumeric(x), Identifier::AlphaNumeric(y)) => compare_chars(x.as_str(), y.as_str()),
    }
}

/// Compares two identifier lists.
pub fn compare_ident_lists(a: &Vec<Identifier>, b: &Vec<Identifier>) -> (r: i8)
    ensures
        r as int == idents_cmp(idents_view(a@), idents_view(b@)),
{
    let mut i: usize = 0;
    assert(idents_view(a@).skip(0) =~= idents_view(a@));
    assert(idents_view(b@).skip(0) =~= idents_view(b@));
    while i < a.len() && i < b.len()
        invariant
            i <= a.len(),
            i <= b.len(),
            idents_cmp(idents_view(a@), idents_view(b@)) == idents_cmp(
                idents_view(a@).skip(i as int),
                idents_view(b@).skip(i as int),
            ),
        decreases a.len() - i,
    {
        let c = compare_idents(&a[i], &b[i]);
        let ghost sa = idents_view(a@).skip(i as int);
        let ghost sb = idents_view(b@).skip(i as int);
        assert(sa[0] == a@[i as int]@);
        assert(sb[0] == b@[i as int]@);
        if c != 0 {
            return c;
        }
        assert(sa.drop_first() =~= idents_view(a@).skip(i + 1));
        assert(sb.drop_first() =~= idents_view(b@).skip(i + 1));
        i = i + 1;
    }
    if i < a.len() {
        1
    } else if i < b.len() {
        -1
    } else {
        0
    }
}

impl Version {
    /// Compares two versions by precedence.
    pub fn compare(&self, other: &Version) -> (r: i8)
        ensures
            r as int == version_cmp(self@, other@),
    {
        if self.major != other.major {
            cmp_u64(self.major, other.major)
        } else if self.minor != other.minor {
            cmp_u64(self.minor, other.minor)
        } else if self.patch != other.patch {
            cmp_u64(self.patch, other.patch)
        } else if self.pre_release.len() == 0 && other.pre_release.len() == 0 {
            0
        } else if self.pre_release.len() == 0 {
            1
        } else if other.pre_release.len() == 0 {
            -1
        } else {
            compare_ident_lists(&self.pre_release, &other.pre_release)
        }
    }

    /// True if the version carries prerelease identifiers.
    pub fn is_prerelease(&self) -> (r: bool)
        ensures
            r == (self@.pre.len() > 0),
    {
        self.pre_release.len() > 0
    }
}

/// The decimal digits of `n`, most significant first, without padding.
pub open spec fn decimal(n: nat) -> Seq<char>
    decreases n,
{
    let digits = seq!['0', '1', '2', '3', '4', '5', '6', '7', '8', '9'];
    if n < 10 {
        seq![digits[n as int]]
    } else {
        decimal(n / 10) + seq![digits[(n % 10) as int]]
    }
}

/// The text of an identifier.
pub open spec fn ident_text(i: IdentView) -> Seq<char> {
    match i {
        IdentView::Num(n) => decimal(n as nat),
        IdentView::Alpha(s) => s,
    }
}

/// Identifiers written out and joined by dots.
pub open spec fn joined(ids: Seq<IdentView>) -> Seq<char>
    decreases ids.len(),
{
    if ids.len() == 0 {
        seq![]
    } else if ids.len() == 1 {
        ident_text(ids[0])
    } else {
        joined(ids.drop_last()) + seq!['.'] + ident_text(ids.last())
    }
}

/// `major.minor.patch`.
pub open spec fn core_text(v: VersionView) -> Seq<char> {
    decimal(v.major as nat) + seq!['.'] + decimal(v.minor as nat) + seq!['.'] + decimal(
        v.patch as nat,
    )
}

/// `-` and the prerelease identifiers, or nothing where there are none.
pub open spec fn pre_text(v: VersionView) -> Seq<char> {
    if v.pre.len() == 0 {
        seq![]
    } else {
        seq!['-'] + joined(v.pre)
    }
}

/// `+` and the build identifiers, or nothing where there are none.
pub open spec fn build_text(v: VersionView) -> Seq<char> {
    if v.build.len() == 0 {
        seq![]
    } else {
        seq!['+'] + joined(v.build)
    }
}

/// The full text of a version.
pub open spec fn version_text(v: VersionView) -> Seq<char> {
    core_text(v) + pre_text(v) + build_text(v)
}

/// Relies on the standard `ToString` of `u64`: its decimal digits, with no
/// sign and no leading zeros.
#[verifier::external_body]
fn decimal_text(n: u64) -> (r: String)
    ensures
        r@ == decimal(n as nat),
{
    n.to_string()
}

/// Writes an identifier out.
pub fn identifier_text(i: &Identifier) -> (r: String)
    ensures
        r@ == ident_text(i@),
{
    match i {
        Identifier::Numeric(n) => decimal_text(*n),
        Identifier::AlphaNumeric(s) => s.clone(),
    }
}

/// Writes identifiers out, joined by dots.
pub fn join_identifiers(ids: &Vec<Identifier>) -> (r: String)
    ensures
        r@ == joined(idents_view(ids@)),
{
    let mut out = String::new();
    let mut i: usize = 0;
    proof {
        reveal_strlit(".");
    }
    while i < ids.len()
        invariant
            i <= ids.len(),
            out@ == joined(idents_view(ids@).take(i as int)),
        decreases ids.len() - i,
    {
        let ghost before = idents_view(ids@).take(i as int);
        let ghost after = idents_view(ids@).take(i + 1);
        assert(after.drop_last() =~= before);
        assert(after.last() == ids@[i as int]@);
        let piece = identifier_text(&ids[i]);
        if i > 0 {
            out.append(".");
        } else {
            assert(before =~= Seq::<IdentView>::empty());
        }
        out.append(piece.as_str());
        proof {
            reveal_strlit(".");
        }
        assert("."@ =~= seq!['.']);
        if i > 0 {
            assert(out@ =~= joined(after));
        } else {
            assert(after.len() == 1);
            assert(out@ =~= joined(after));
        }
        i = i + 1;
    }
    assert(idents_view(ids@).take(ids.len() as int) =~= idents_view(ids@));
    out
}

impl Version {
    /// `major.minor.patch`.
    pub fn core_string(&self) -> (r: String)
        ensures
            r@ == core_text(self@),
    {
        proof {
            reveal_strlit(".");
        }
        let mut out = decimal_text(self.major);
        out.append(".");
        let minor = decimal_text(self.minor);
        out.append(minor.as_str());
        out.append(".");
        let patch = decimal_text(self.patch);
        out.append(patch.as_str());
        out
    }

    /// The full text of the version, prerelease and build included.
    pub fn to_text(&self) -> (r: String)
        ensures
            r@ == version_text(self@),
    {
        proof {
            reveal_strlit("-");
            reveal_strlit("+");
        }
        let mut out = self.core_string();
        if self.pre_release.len() > 0 {
            out.append("-");
            let pre = join_identifiers(&self.pre_release);
            out.append(pre.as_str());
        }
        if self.build.len() > 0 {
            out.append("+");
            let build = join_identifiers(&self.build);
            out.append(build.as_str());
        }
        assert(out@ =~= version_text(self@));
        out
    }
}

/// The versions of a list of optional versions.
pub open spec fn view_opt(r: Option<Version>) -> Option<VersionView> {
    match r {
        Some(v) => Some(v@),
        None => None,
    }
}

/// What node-semver's version grammar reads from a text: `None` where the
/// text is not a version.
pub uninterp spec fn parsed_version(text: Seq<char>) -> Option<VersionView>;

/// Relies on node_semver's `Version::parse` (reached through `FromStr`): the
/// version the text denotes, or `None` where it does not parse. The fields
/// are moved over one for one.
#[verifier::external_body]
pub(crate) fn parse_version(text: &str) -> (r: Option<Version>)
    ensures
        view_opt(r) == parsed_version(text@),
{
    let id = |i: node_semver::Identifier| match i {
        node_semver::Identifier::Numeric(n) => Identifier::Numeric(n),
        node_semver::Identifier::AlphaNumeric(s) => Identifier::AlphaNumeric(s),
    };
    text.parse::<node_semver::Version>().ok().map(|v| Version {
        major: v.major,
        minor: v.minor,
        patch: v.patch,
        build: v.build.into_iter().map(id).collect(),
        pre_release: v.pre_release.into_iter().map(id).collect(),
    })
}

} // verus!
