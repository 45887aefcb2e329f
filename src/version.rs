//! Semantic versions as plain data: the numeric triple with pre-release and
//! build identifiers. Parsing and printing are semver's.

use vstd::prelude::*;

verus! {

/// One dot-separated pre-release or build identifier.
pub enum Identifier {
    /// An identifier made of digits only.
    Numeric(u64),
    /// Any other identifier.
    AlphaNumeric(String),
}

/// The view of an [`Identifier`].
pub enum IdentifierView {
    Numeric(u64),
    AlphaNumeric(Seq<char>),
}

impl View for Identifier {
    type V = IdentifierView;

    open spec fn view(&self) -> IdentifierView {
        match self {
            Identifier::Numeric(n) => IdentifierView::Numeric(*n),
            Identifier::AlphaNumeric(s) => IdentifierView::AlphaNumeric(s@),
        }
    }
}

/// The views of a sequence of identifiers.
pub open spec fn identifier_views(s: Seq<Identifier>) -> Seq<IdentifierView> {
    s.map_values(|i: Identifier| i@)
}

/// A semantic version `major.minor.patch[-pre][+build]`.
pub struct Version {
    pub major: u64,
    pub minor: u64,
    pub patch: u64,
    pub pre: Vec<Identifier>,
    pub build: Vec<Identifier>,
}

/// The view of a [`Version`].
pub struct VersionView {
    pub major: u64,
    pub minor: u64,
    pub patch: u64,
    pub pre: Seq<IdentifierView>,
    pub build: Seq<IdentifierView>,
}

impl View for Version {
    type V = VersionView;

    open spec fn view(&self) -> VersionView {
        VersionView {
            major: self.major,
            minor: self.minor,
            patch: self.patch,
            pre: identifier_views(self.pre@),
            build: identifier_views(self.build@),
        }
    }
}

/// What semver's parser makes of `text`; `None` where it rejects it.
pub uninterp spec fn parsed_version(text: Seq<char>) -> Option<VersionView>;

/// The decimal digits of `n`, as `Display` for `u64` writes them.
pub open spec fn decimal(n: u64) -> Seq<char>
    decreases n,
{
    if n < 10 {
        seq![(n + 48) as char]
    } else {
        decimal((n / 10) as u64).push(((n % 10) + 48) as char)
    }
}

/// An identifier as text: its number in decimal, or its characters.
pub open spec fn identifier_text(i: IdentifierView) -> Seq<char> {
    match i {
        IdentifierView::Numeric(n) => decimal(n),
        IdentifierView::AlphaNumeric(s) => s,
    }
}

/// Identifiers as text, separated by dots.
pub open spec fn dotted(ids: Seq<IdentifierView>) -> Seq<char>
    decreases ids.len(),
{
    if ids.len() == 0 {
        Seq::empty()
    } else if ids.len() == 1 {
        identifier_text(ids[0])
    } else {
        dotted(ids.drop_last()) + seq!['.'] + identifier_text(ids.last())
    }
}

/// How semver prints `v`: `major.minor.patch`, then `-` and the
/// pre-release identifiers if any, then `+` and the build identifiers if any.
pub open spec fn version_text(v: VersionView) -> Seq<char> {
    decimal(v.major) + seq!['.'] + decimal(v.minor) + seq!['.'] + decimal(v.patch) + (if v.pre.len() == 0 {
        Seq::empty()
    } else {
        seq!['-'] + dotted(v.pre)
    }) + (if v.build.len() == 0 {
        Seq::empty()
    } else {
        seq!['+'] + dotted(v.build)
    })
}

/// The number of `-` characters in `s`.
pub open spec fn hyphen_count(s: Seq<char>) -> nat
    decreases s.len(),
{
    if s.len() == 0 {
        0
    } else {
        hyphen_count(s.drop_last()) + if s.last() == '-' {
            1nat
        } else {
            0nat
        }
    }
}

/// Most hyphens a text handed to semver's parser may hold: its parser panics
/// once one identifier joins more than 255 hyphens, and build metadata has no
/// leading hyphen of its own, so 255 in all is the safe bound.
pub const MAX_HYPHENS: usize = 255;

/// Relies on semver's `Version::parse`: the outcome depends on the text alone.
/// The hyphen bound keeps clear of the panic in semver-parser's
/// `bounded_identifier`.
#[verifier::external_body]
fn parse_version(text: &str) -> (r: Option<Version>)
    requires
        hyphen_count(text@) <= MAX_HYPHENS,
    ensures
        r is None <==> parsed_version(text@) is None,
        r matches Some(v) ==> parsed_version(text@) == Some(v@),
{
    let v = semver::Version::parse(text).ok()?;
    let ids = |l: Vec<semver::Identifier>| -> Vec<Identifier> {
        l.into_iter().map(|i| match i {
            semver::Identifier::Numeric(n) => Identifier::Numeric(n),
            semver::Identifier::AlphaNumeric(s) => Identifier::AlphaNumeric(s),
        }).collect()
    };
    Some(Version { major: v.major, minor: v.minor, patch: v.patch, pre: ids(v.pre), build: ids(v.build) })
}

/// Relies on semver's `Display` for `Version`, which writes the fields as
/// `version_text` states.
#[verifier::external_body]
fn version_to_string(v: &Version) -> (r: String)
    ensures
        r@ == version_text(v@),
{
    let ids = |l: &Vec<Identifier>| -> Vec<semver::Identifier> {
        l.iter().map(|i| match i {
            Identifier::Numeric(n) => semver::Identifier::Numeric(*n),
            Identifier::AlphaNumeric(s) => semver::Identifier::AlphaNumeric(s.clone()),
        }).collect()
    };
    let s = semver::Version { major: v.major, minor: v.minor, patch: v.patch, pre: ids(&v.pre), build: ids(&v.build) };
    s.to_string()
}

/// A prefix holds no more hyphens than the whole text.
pub proof fn lemma_hyphens_grow(s: Seq<char>, k: int)
    requires
        0 <= k <= s.len(),
    ensures
        hyphen_count(s.take(k)) <= hyphen_count(s),
    decreases s.len() - k,
{
    if k < s.len() {
        lemma_hyphens_grow(s, k + 1);
        assert(s.take(k + 1).drop_last() =~= s.take(k));
    } else {
        assert(s.take(k) =~= s);
    }
}

/// A text without `-` has no hyphens to count.
pub proof fn lemma_no_hyphens(s: Seq<char>)
    requires
        forall|j: int| 0 <= j < s.len() ==> s[j] != '-',
    ensures
        hyphen_count(s) == 0,
    decreases s.len(),
{
    if s.len() > 0 {
        assert forall|j: int| 0 <= j < s.drop_last().len() implies s.drop_last()[j] != '-' by {
            assert(s.drop_last()[j] == s[j]);
        }
        lemma_no_hyphens(s.drop_last());
    }
}

/// A copy of every identifier of `v`, in order.
pub fn clone_identifiers(v: &Vec<Identifier>) -> (r: Vec<Identifier>)
    ensures
        identifier_views(r@) == identifier_views(v@),
{
    let mut r: Vec<Identifier> = Vec::new();
    let mut i: usize = 0;
    while i < v.len()
        invariant
            i <= v@.len(),
            identifier_views(r@) == identifier_views(v@.take(i as int)),
        decreases v@.len() - i,
    {
        let c = match &v[i] {
            Identifier::Numeric(n) => Identifier::Numeric(*n),
            Identifier::AlphaNumeric(s) => Identifier::AlphaNumeric(s.clone()),
        };
        let ghost before = r@;
        r.push(c);
        assert(identifier_views(r@) =~= identifier_views(before).push(v@[i as int]@));
        assert(identifier_views(v@.take(i + 1)) =~= identifier_views(v@.take(i as int)).push(v@[i as int]@));
        i = i + 1;
    }
    assert(v@.take(v@.len() as int) =~= v@);
    r
}

impl Version {
    /// The version that `text` spells, as semver parses it; `None` where
    /// semver rejects it.
    /// Texts with more than `MAX_HYPHENS` hyphens are refused without asking
    /// semver.
    pub fn parse(text: &str) -> (r: Option<Version>)
        ensures
            hyphen_count(text@) <= MAX_HYPHENS ==> (r is None <==> parsed_version(text@) is None),
            hyphen_count(text@) <= MAX_HYPHENS ==> (r matches Some(v) ==> parsed_version(text@) == Some(v@)),
            hyphen_count(text@) > MAX_HYPHENS ==> r is None,
    {
        let n = text.unicode_len();
        let mut count: usize = 0;
        let mut i: usize = 0;
        while i < n
            invariant
                n == text@.len(),
                i <= n,
                count == hyphen_count(text@.take(i as int)),
                count <= MAX_HYPHENS,
            decreases n - i,
        {
            assert(text@.take(i + 1).drop_last() =~= text@.take(i as int));
            if text.get_char(i) == '-' {
                count = count + 1;
                if count > MAX_HYPHENS {
                    proof {
                        lemma_hyphens_grow(text@, i + 1);
                    }
                    return None;
                }
            }
            i = i + 1;
        }
        assert(text@.take(n as int) =~= text@);
        parse_version(text)
    }

    /// The version as semver prints it, `major.minor.patch[-pre][+build]`.
    pub fn to_text(&self) -> (r: String)
        ensures
            r@ == version_text(self@),
    {
        version_to_string(self)
    }

    /// The version `major.minor.patch` with no pre-release and no build identifiers.
    pub fn new(major: u64, minor: u64, patch: u64) -> (r: Version)
        ensures
            r@ == (VersionView { major, minor, patch, pre: Seq::empty(), build: Seq::empty() }),
    {
        let r = Version { major, minor, patch, pre: Vec::new(), build: Vec::new() };
        assert(identifier_views(r.pre@) =~= Seq::<IdentifierView>::empty());
        assert(identifier_views(r.build@) =~= Seq::<IdentifierView>::empty());
        r
    }

    /// A copy of this version.
    pub fn duplicate(&self) -> (r: Version)
        ensures
            r@ == self@,
    {
        Version {
            major: self.major,
            minor: self.minor,
            patch: self.patch,
            pre: clone_identifiers(&self.pre),
            build: clone_identifiers(&self.build),
        }
    }

    /// Next patch release: the patch number goes up by one and the
    /// pre-release and build identifiers are cleared.
    pub fn increment_patch(&mut self)
        requires
            old(self).patch < u64::MAX,
        ensures
            final(self)@ == (VersionView {
                patch: (old(self).patch + 1) as u64,
                pre: Seq::empty(),
                build: Seq::empty(),
                ..old(self)@
            }),
    {
        self.patch = self.patch + 1;
        self.pre = Vec::new();
        self.build = Vec::new();
        assert(identifier_views(self.pre@) =~= Seq::<IdentifierView>::empty());
        assert(identifier_views(self.build@) =~= Seq::<IdentifierView>::empty());
    }

    /// Next minor release: the minor number goes up by one, the patch number
    /// goes to zero and the identifiers are cleared.
    pub fn increment_minor(&mut self)
        requires
            old(self).minor < u64::MAX,
        ensures
            final(self)@ == (VersionView {
                minor: (old(self).minor + 1) as u64,
                patch: 0,
                pre: Seq::empty(),
                build: Seq::empty(),
                ..old(self)@
            }),
    {
        self.minor = self.minor + 1;
        self.patch = 0;
        self.pre = Vec::new();
        self.build = Vec::new();
        assert(identifier_views(self.pre@) =~= Seq::<IdentifierView>::empty());
        assert(identifier_views(self.build@) =~= Seq::<IdentifierView>::empty());
    }

    /// Next major release: the major number goes up by one, minor and patch
    /// go to zero and the identifiers are cleared.
    pub fn increment_major(&mut self)
        requires
            old(self).major < u64::MAX,
        ensures
            final(self)@ == (VersionView {
                major: (old(self).major + 1) as u64,
                minor: 0,
                patch: 0,
                pre: Seq::empty(),
                build: Seq::empty(),
            }),
    {
        self.major = self.major + 1;
        self.minor = 0;
        self.patch = 0;
        self.pre = Vec::new();
        self.build = Vec::new();
        assert(identifier_views(self.pre@) =~= Seq::<IdentifierView>::empty());
        assert(identifier_views(self.build@) =~= Seq::<IdentifierView>::empty());
    }
}

} // verus!
