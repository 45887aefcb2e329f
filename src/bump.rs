//! Version bumps: which field goes up, and the pre-release and build
//! identifiers given as dot-separated flags.

use crate::version::{Identifier, IdentifierView, Version, VersionView, identifier_views};
use vstd::prelude::*;

verus! {

/// The pieces of `s` between dots, as `str::split('.')` yields them.
pub open spec fn split_dots(s: Seq<char>) -> Seq<Seq<char>>
    decreases s.len(),
{
    if s.len() == 0 {
        seq![Seq::empty()]
    } else {
        let p = split_dots(s.drop_last());
        if s.last() == '.' {
            p.push(Seq::empty())
        } else {
            p.update(p.len() - 1, p.last().push(s.last()))
        }
    }
}

/// Every character is an ASCII digit.
pub open spec fn all_digits(s: Seq<char>) -> bool {
    forall|i: int| 0 <= i < s.len() ==> '0' <= #[trigger] s[i] <= '9'
}

/// The number the decimal digits `s` spell.
pub open spec fn digits_value(s: Seq<char>) -> nat
    decreases s.len(),
{
    if s.len() == 0 {
        0
    } else {
        digits_value(s.drop_last()) * 10 + (s.last() as nat - '0' as nat) as nat
    }
}

/// The `u64` that `s` spells as std parses it: an optional `+` and then one
/// or more decimal digits, with a value that fits.
pub open spec fn parsed_u64(s: Seq<char>) -> Option<u64> {
    let body = if s.len() > 0 && s[0] == '+' {
        s.skip(1)
    } else {
        s
    };
    if body.len() > 0 && all_digits(body) && digits_value(body) <= u64::MAX {
        Some(digits_value(body) as u64)
    } else {
        None
    }
}

/// The identifier a flag piece stands for: numeric when it parses as a
/// `u64`, alphanumeric otherwise.
pub open spec fn identifier_of(p: Seq<char>) -> IdentifierView {
    match parsed_u64(p) {
        Some(n) => IdentifierView::Numeric(n),
        None => IdentifierView::AlphaNumeric(p),
    }
}

/// The identifiers a dot-separated flag stands for.
pub open spec fn flag_identifiers(flag: Seq<char>) -> Seq<IdentifierView> {
    split_dots(flag).map_values(|p: Seq<char>| identifier_of(p))
}

proof fn lemma_split_nonempty(s: Seq<char>)
    ensures
        split_dots(s).len() >= 1,
    decreases s.len(),
{
    if s.len() > 0 {
        lemma_split_nonempty(s.drop_last());
    }
}

proof fn lemma_digits_grow(s: Seq<char>, k: int)
    requires
        0 <= k <= s.len(),
    ensures
        digits_value(s.take(k)) <= digits_value(s),
    decreases s.len() - k,
{
    if k < s.len() {
        lemma_digits_grow(s, k + 1);
        assert(s.take(k + 1).drop_last() =~= s.take(k));
    } else {
        assert(s.take(k) =~= s);
    }
}

/// The `u64` that `s` spells, as `parsed_u64` states it.
pub fn parse_u64(s: &str) -> (r: Option<u64>)
    ensures
        r == parsed_u64(s@),
{
    let n = s.unicode_len();
    let mut start: usize = 0;
    if n > 0 && s.get_char(0) == '+' {
        start = 1;
    }
    let ghost body = if s@.len() > 0 && s@[0] == '+' {
        s@.skip(1)
    } else {
        s@
    };
    assert(body =~= s@.skip(start as int));
    if start == n {
        return None;
    }
    let mut acc: u64 = 0;
    let mut i: usize = start;
    while i < n
        invariant
            n == s@.len(),
            start <= i <= n,
            body == s@.skip(start as int),
            body == (if s@.len() > 0 && s@[0] == '+' {
                s@.skip(1)
            } else {
                s@
            }),
            all_digits(body.take(i - start)),
            acc == digits_value(body.take(i - start)),
        decreases n - i,
    {
        let c = s.get_char(i);
        assert(body[i - start] == c);
        assert(body.take(i - start + 1).drop_last() =~= body.take(i - start));
        if c < '0' || c > '9' {
            assert(!('0' <= body[i - start] <= '9'));
            assert(!all_digits(body));
            assert(parsed_u64(s@) is None);
            return None;
        }
        let d = (c as u32 - '0' as u32) as u64;
        assert(body.take(i - start + 1).last() == c);
        assert(digits_value(body.take(i - start + 1)) == acc * 10 + d);
        if acc > 1844674407370955161 || (acc == 1844674407370955161 && d > 5) {
            proof {
                lemma_digits_grow(body, i - start + 1);
            }
            assert(digits_value(body) > u64::MAX);
            assert(parsed_u64(s@) is None);
            return None;
        }
        acc = acc * 10 + d;
        i = i + 1;
    }
    assert(body.take(i - start) =~= body);
    Some(acc)
}

/// The identifiers a dot-separated flag stands for.
pub fn flag_to_identifiers(flag: &str) -> (r: Vec<Identifier>)
    ensures
        identifier_views(r@) == flag_identifiers(flag@),
{
    let n = flag.unicode_len();
    let mut ids: Vec<Identifier> = Vec::new();
    let mut start: usize = 0;
    let mut i: usize = 0;
    assert(flag@.take(0) =~= Seq::<char>::empty());
    assert(flag@.subrange(0, 0) =~= Seq::<char>::empty());
    while i < n
        invariant
            n == flag@.len(),
            start <= i <= n,
            identifier_views(ids@) + seq![identifier_of(flag@.subrange(start as int, i as int))]
                == split_dots(flag@.take(i as int)).map_values(|p: Seq<char>| identifier_of(p)),
            split_dots(flag@.take(i as int)).last() == flag@.subrange(start as int, i as int),
            split_dots(flag@.take(i as int)).len() == ids@.len() + 1,
        decreases n - i,
    {
        let ghost t = flag@.take(i as int);
        let ghost t1 = flag@.take(i + 1);
        assert(t1.drop_last() =~= t);
        assert(t1.last() == flag@[i as int]);
        proof {
            lemma_split_nonempty(t);
        }
        let c = flag.get_char(i);
        if c == '.' {
            let piece = flag.substring_char(start, i);
            let id = match parse_u64(piece) {
                Some(v) => Identifier::Numeric(v),
                None => Identifier::AlphaNumeric(String::from_str(piece)),
            };
            let ghost prev = ids@;
            ids.push(id);
            assert(identifier_views(ids@) =~= identifier_views(prev).push(identifier_of(piece@)));
            start = i + 1;
            assert(flag@.subrange(start as int, i + 1) =~= Seq::<char>::empty());
            assert(split_dots(t1).map_values(|p: Seq<char>| identifier_of(p)) =~= split_dots(t).map_values(
                |p: Seq<char>| identifier_of(p),
            ).push(identifier_of(Seq::empty())));
            assert(identifier_views(ids@) + seq![identifier_of(flag@.subrange(start as int, i + 1))]
                =~= split_dots(t1).map_values(|p: Seq<char>| identifier_of(p)));
        } else {
            let ghost p = split_dots(t);
            assert(flag@.subrange(start as int, i + 1) =~= flag@.subrange(start as int, i as int).push(c));
            assert(split_dots(t1) == p.update(p.len() - 1, p.last().push(c)));
            assert forall|k: int| 0 <= k < ids@.len() implies identifier_views(ids@)[k] == identifier_of(p[k]) by {
                assert((identifier_views(ids@) + seq![identifier_of(flag@.subrange(start as int, i as int))])[k]
                    == p.map_values(|q: Seq<char>| identifier_of(q))[k]);
            }
            assert(split_dots(t1).map_values(|p: Seq<char>| identifier_of(p)) =~= identifier_views(ids@)
                + seq![identifier_of(flag@.subrange(start as int, i + 1))]);
        }
        i = i + 1;
    }
    assert(flag@.take(n as int) =~= flag@);
    let piece = flag.substring_char(start, n);
    let id = match parse_u64(piece) {
        Some(v) => Identifier::Numeric(v),
        None => Identifier::AlphaNumeric(String::from_str(piece)),
    };
    let ghost prev = ids@;
    ids.push(id);
    assert(identifier_views(ids@) =~= identifier_views(prev).push(identifier_of(piece@)));
    ids
}

/// The identifiers of an optional flag: none when it is absent.
pub open spec fn opt_flag_identifiers(flag: Option<String>) -> Seq<IdentifierView> {
    match flag {
        Some(f) => flag_identifiers(f@),
        None => Seq::empty(),
    }
}

/// Options shared by every kind of bump.
pub struct BumpFlags {
    /// Commit and tag the bump in the pack's repository.
    pub git_tag: bool,
    /// Pre-release identifiers, dot-separated; none clears them.
    pub pre: Option<String>,
    /// Build identifiers, dot-separated; none clears them.
    pub meta: Option<String>,
}

/// Which field a bump raises.
pub enum BumpField {
    Major { flags: BumpFlags },
    Minor { flags: BumpFlags },
    Patch { flags: BumpFlags },
    /// Only the pre-release and build identifiers change.
    Pre { flags: BumpFlags },
}

/// Sets the pre-release and build identifiers from `flags`.
pub fn apply_ver_flags(version: &mut Version, flags: &BumpFlags)
    ensures
        final(version)@ == (VersionView {
            pre: opt_flag_identifiers(flags.pre),
            build: opt_flag_identifiers(flags.meta),
            ..old(version)@
        }),
{
    match &flags.pre {
        Some(pre) => version.pre = flag_to_identifiers(pre.as_str()),
        None => version.pre = Vec::new(),
    }
    match &flags.meta {
        Some(meta) => version.build = flag_to_identifiers(meta.as_str()),
        None => version.build = Vec::new(),
    }
    assert(identifier_views(version.pre@) =~= opt_flag_identifiers(flags.pre));
    assert(identifier_views(version.build@) =~= opt_flag_identifiers(flags.meta));
}

/// The numeric field that a bump of `field` raises is below its maximum.
pub open spec fn bump_fits(v: VersionView, field: Option<BumpField>) -> bool {
    match field {
        Some(BumpField::Major { .. }) => v.major < u64::MAX,
        Some(BumpField::Minor { .. }) => v.minor < u64::MAX,
        Some(BumpField::Patch { .. }) | None => v.patch < u64::MAX,
        Some(BumpField::Pre { .. }) => true,
    }
}

/// The version after a bump: `set` when given; else `field` raised (the
/// patch number when no field is named) and the identifiers taken from the
/// field's flags, or from `flags` when no field is named.
pub open spec fn bumped(v: VersionView, set: Option<VersionView>, field: Option<BumpField>, flags: BumpFlags) -> VersionView {
    match set {
        Some(s) => s,
        None => match field {
            Some(BumpField::Major { flags: f }) => VersionView {
                major: (v.major + 1) as u64,
                minor: 0,
                patch: 0,
                pre: opt_flag_identifiers(f.pre),
                build: opt_flag_identifiers(f.meta),
            },
            Some(BumpField::Minor { flags: f }) => VersionView {
                minor: (v.minor + 1) as u64,
                patch: 0,
                pre: opt_flag_identifiers(f.pre),
                build: opt_flag_identifiers(f.meta),
                ..v
            },
            Some(BumpField::Patch { flags: f }) => VersionView {
                patch: (v.patch + 1) as u64,
                pre: opt_flag_identifiers(f.pre),
                build: opt_flag_identifiers(f.meta),
                ..v
            },
            Some(BumpField::Pre { flags: f }) => VersionView {
                pre: opt_flag_identifiers(f.pre),
                build: opt_flag_identifiers(f.meta),
                ..v
            },
            None => VersionView {
                patch: (v.patch + 1) as u64,
                pre: opt_flag_identifiers(flags.pre),
                build: opt_flag_identifiers(flags.meta),
                ..v
            },
        },
    }
}

/// Bumps `version`; returns whether the bump is to be committed and tagged,
/// which the flags of the named field decide, else `flags`.
pub fn bump_version(version: &mut Version, set: Option<Version>, field: &Option<BumpField>, flags: &BumpFlags) -> (r: bool)
    requires
        set is Some || bump_fits(old(version)@, *field),
    ensures
        final(version)@ == bumped(
            old(version)@,
            match set {
                Some(s) => Some(s@),
                None => None,
            },
            *field,
            *flags,
        ),
        r == match (set, field) {
            (None, Some(BumpField::Major { flags: f })) => f.git_tag,
            (None, Some(BumpField::Minor { flags: f })) => f.git_tag,
            (None, Some(BumpField::Patch { flags: f })) => f.git_tag,
            (None, Some(BumpField::Pre { flags: f })) => f.git_tag,
            _ => flags.git_tag,
        },
{
    match set {
        Some(s) => {
            *version = s;
            flags.git_tag
        },
        None => match field {
            Some(BumpField::Major { flags: f }) => {
                version.increment_major();
                apply_ver_flags(version, f);
                f.git_tag
            },
            Some(BumpField::Minor { flags: f }) => {
                version.increment_minor();
                apply_ver_flags(version, f);
                f.git_tag
            },
            Some(BumpField::Patch { flags: f }) => {
                version.increment_patch();
                apply_ver_flags(version, f);
                f.git_tag
            },
            Some(BumpField::Pre { flags: f }) => {
                apply_ver_flags(version, f);
                f.git_tag
            },
            None => {
                version.increment_patch();
                apply_ver_flags(version, flags);
                flags.git_tag
            },
        },
    }
}

} // verus!
