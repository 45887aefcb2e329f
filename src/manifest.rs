//! The package manifest: pack metadata, the persisted set of mod records and
//! the set of user-managed include paths.

use crate::artifact::{Mod, ModView, rank, views, ascending, contains_id};
use crate::compare::{compare, minus, lemma_diff_exact, lemma_minus_members, lemma_minus_keeps, lemma_minus_ascending};
use crate::version::{Version, VersionView};
use vstd::prelude::*;

verus! {

/// The records of `s`, as a set.
pub open spec fn record_set(s: Seq<ModView>) -> Set<ModView> {
    Set::new(|x: ModView| s.contains(x))
}

/// The persisted set after a sync against `new`: the old records whose
/// identity `new` still declares, and the new records whose identity is new.
pub open spec fn synced_set(old: Seq<ModView>, new: Seq<ModView>) -> Set<ModView> {
    Set::new(
        |x: ModView|
            (old.contains(x) && contains_id(new, rank(x))) || (new.contains(x) && !contains_id(
                old,
                rank(x),
            )),
    )
}

/// `Some(v)` for a non-empty `v`, `None` for an empty one.
pub open spec fn non_empty(v: Seq<ModView>) -> Option<Seq<ModView>> {
    if v.len() == 0 {
        None
    } else {
        Some(v)
    }
}

/// The views of an optional vector of records.
pub open spec fn opt_views(o: Option<Vec<Mod>>) -> Option<Seq<ModView>> {
    match o {
        Some(v) => Some(views(v@)),
        None => None,
    }
}

/// The first record of `s` whose file name is `name`.
pub open spec fn first_named(s: Seq<ModView>, name: Seq<char>) -> Option<ModView>
    decreases s.len(),
{
    if s.len() == 0 {
        None
    } else if s[0].file_name == name {
        Some(s[0])
    } else {
        first_named(s.drop_first(), name)
    }
}

/// Some record of `s` has file name `name`.
pub open spec fn has_name(s: Seq<ModView>, name: Seq<char>) -> bool {
    exists|i: int| 0 <= i < s.len() && (#[trigger] s[i]).file_name == name
}

/// A copy of every record of `v`, in order.
pub fn clone_mods(v: &Vec<Mod>) -> (r: Vec<Mod>)
    ensures
        r@ == v@,
{
    let mut r: Vec<Mod> = Vec::new();
    let mut i: usize = 0;
    while i < v.len()
        invariant
            i <= v@.len(),
            r@ == v@.take(i as int),
        decreases v@.len() - i,
    {
        r.push(v[i].clone());
        assert(r@ =~= v@.take(i + 1));
        i = i + 1;
    }
    assert(v@.take(v@.len() as int) =~= v@);
    r
}

proof fn lemma_contains_id_take(s: Seq<ModView>, i: int)
    requires
        0 <= i < s.len(),
    ensures
        forall|k: int| contains_id(s.take(i + 1), k) <==> contains_id(s.take(i), k) || rank(s[i]) == k,
{
    assert forall|k: int| contains_id(s.take(i + 1), k) implies contains_id(s.take(i), k) || rank(s[i]) == k by {
        let j = choose|j: int| 0 <= j < s.take(i + 1).len() && rank(#[trigger] s.take(i + 1)[j]) == k;
        if j < i {
            assert(s.take(i)[j] == s[j]);
        }
    }
    assert forall|k: int| contains_id(s.take(i), k) || rank(s[i]) == k implies contains_id(s.take(i + 1), k) by {
        if rank(s[i]) == k {
            assert(s.take(i + 1)[i] == s[i]);
        } else {
            let j = choose|j: int| 0 <= j < s.take(i).len() && rank(#[trigger] s.take(i)[j]) == k;
            assert(s.take(i + 1)[j] == s[j]);
        }
    }
}

/// For a record `x` of `old`: the diff removes its identity exactly when
/// `new` lacks it.
proof fn lemma_removed_id(old: Seq<ModView>, new: Seq<ModView>, x: ModView)
    requires
        old.contains(x),
    ensures
        contains_id(minus(old, new), rank(x)) <==> !contains_id(new, rank(x)),
{
    lemma_minus_members(old, new);
    let m = minus(old, new);
    if contains_id(m, rank(x)) {
        let j = choose|j: int| 0 <= j < m.len() && rank(#[trigger] m[j]) == rank(x);
        assert(!contains_id(new, rank(m[j])));
    }
    if !contains_id(new, rank(x)) {
        lemma_minus_keeps(old, new, x);
        let j = choose|j: int| 0 <= j < m.len() && m[j] == x;
        assert(rank(m[j]) == rank(x));
    }
}

/// `minus(b, a)` holds exactly the records of `b` whose identity `a` lacks.
proof fn lemma_minus_keeps_all(b: Seq<ModView>, a: Seq<ModView>)
    ensures
        forall|x: ModView| minus(b, a).contains(x) <==> b.contains(x) && !contains_id(a, rank(x)),
{
    lemma_minus_members(b, a);
    assert forall|x: ModView| minus(b, a).contains(x) <==> b.contains(x) && !contains_id(a, rank(x)) by {
        if b.contains(x) && !contains_id(a, rank(x)) {
            lemma_minus_keeps(b, a, x);
        }
        if minus(b, a).contains(x) {
            let j = choose|j: int| 0 <= j < minus(b, a).len() && minus(b, a)[j] == x;
        }
    }
}

/// Syncing the declared records is idempotent: once the persisted records are
/// the synced set of `old` against `new`, a second sync against the same `new`
/// adds nothing and removes nothing.
pub proof fn lemma_resync_no_delta(old: Seq<ModView>, new: Seq<ModView>, cur: Seq<ModView>)
    requires
        record_set(cur) == synced_set(old, new),
    ensures
        minus(new, cur).len() == 0,
        minus(cur, new).len() == 0,
{
    lemma_minus_members(new, cur);
    lemma_minus_members(cur, new);
    if minus(new, cur).len() > 0 {
        let y = minus(new, cur)[0];
        let i = choose|i: int| 0 <= i < new.len() && new[i] == y;
        assert(rank(new[i]) == rank(y));
        if contains_id(old, rank(y)) {
            let j = choose|j: int| 0 <= j < old.len() && rank(#[trigger] old[j]) == rank(y);
            let x = old[j];
            assert(old.contains(x) && contains_id(new, rank(x)));
            assert(synced_set(old, new).contains(x));
            assert(cur.contains(x));
            let q = choose|q: int| 0 <= q < cur.len() && cur[q] == x;
            assert(rank(cur[q]) == rank(y));
        } else {
            assert(synced_set(old, new).contains(y));
            assert(cur.contains(y));
            let q = choose|q: int| 0 <= q < cur.len() && cur[q] == y;
            assert(rank(cur[q]) == rank(y));
        }
    }
    if minus(cur, new).len() > 0 {
        let x = minus(cur, new)[0];
        assert(record_set(cur).contains(x));
        if new.contains(x) {
            let q = choose|q: int| 0 <= q < new.len() && new[q] == x;
            assert(rank(new[q]) == rank(x));
        }
    }
}

/// Position of the last `/` in `p`, or -1 when there is none.
pub open spec fn last_slash(p: Seq<char>) -> int
    decreases p.len(),
{
    if p.len() == 0 {
        -1
    } else if p.last() == '/' {
        p.len() - 1
    } else {
        last_slash(p.drop_last())
    }
}

/// The parent of a relative `/`-separated path: what stands before its last
/// separator, the empty path for a single component, and none for the empty
/// path.
pub open spec fn parent_of(p: Seq<char>) -> Option<Seq<char>> {
    if p.len() == 0 {
        None
    } else if last_slash(p) < 0 {
        Some(Seq::empty())
    } else {
        Some(p.take(last_slash(p)))
    }
}

proof fn lemma_last_slash(p: Seq<char>)
    ensures
        -1 <= last_slash(p) < p.len(),
        last_slash(p) >= 0 ==> p[last_slash(p)] == '/',
        forall|j: int| last_slash(p) < j < p.len() ==> p[j] != '/',
    decreases p.len(),
{
    if p.len() > 0 && p.last() != '/' {
        lemma_last_slash(p.drop_last());
        assert forall|j: int| last_slash(p) < j < p.len() implies p[j] != '/' by {
            if j < p.len() - 1 {
                assert(p.drop_last()[j] == p[j]);
            }
        }
    }
}

/// The nearest proper ancestor of `p` that `set` holds.
pub open spec fn contained_in(set: Set<Seq<char>>, p: Seq<char>) -> Option<Seq<char>>
    decreases p.len(),
{
    match parent_of(p) {
        None => None,
        Some(q) => if set.contains(q) {
            Some(q)
        } else if q.len() < p.len() {
            contained_in(set, q)
        } else {
            None
        },
    }
}

/// The pack's manifest.
pub struct Manifest {
    pub name: String,
    pub version: Version,
    pub author: String,
    pub minecraft_version: Version,
    pub mod_loader: String,
    pub mod_loader_version: Version,
    /// Paths the user manages by hand; never removed by a sync.
    pub includes: Vec<String>,
    /// The declared mods, in ascending order of identity.
    pub mods: Vec<Mod>,
}

impl Manifest {
    /// The declared records, in ascending order of identity.
    pub open spec fn mods_view(&self) -> Seq<ModView> {
        views(self.mods@)
    }

    /// The include paths, in the order they were added.
    pub open spec fn include_paths(&self) -> Seq<Seq<char>> {
        self.includes@.map_values(|s: String| s@)
    }

    /// The include paths, as a set.
    pub open spec fn includes_view(&self) -> Set<Seq<char>> {
        Set::new(|p: Seq<char>| self.include_paths().contains(p))
    }

    /// Everything but the declared mods agrees with `other`.
    pub open spec fn same_but_mods(&self, other: &Manifest) -> bool {
        &&& self.name == other.name
        &&& self.version == other.version
        &&& self.author == other.author
        &&& self.minecraft_version == other.minecraft_version
        &&& self.mod_loader == other.mod_loader
        &&& self.mod_loader_version == other.mod_loader_version
        &&& self.includes == other.includes
    }

    /// Everything but the includes agrees with `other`.
    pub open spec fn same_but_includes(&self, other: &Manifest) -> bool {
        &&& self.name == other.name
        &&& self.version == other.version
        &&& self.author == other.author
        &&& self.minecraft_version == other.minecraft_version
        &&& self.mod_loader == other.mod_loader
        &&& self.mod_loader_version == other.mod_loader_version
        &&& self.mods == other.mods
    }

    /// The records are an ordered set and no include path is listed twice.
    pub open spec fn wf(&self) -> bool {
        ascending(self.mods_view()) && self.include_paths().no_duplicates()
    }

    /// A manifest with the given metadata, no mods and no includes.
    pub fn new(
        name: String,
        version: Version,
        author: String,
        minecraft_version: Version,
        mod_loader: String,
        mod_loader_version: Version,
    ) -> (r: Manifest)
        ensures
            r.wf(),
            r.mods_view().len() == 0,
            r.includes@.len() == 0,
            r.includes_view().is_empty(),
            r.name == name,
            r.version == version,
            r.author == author,
            r.minecraft_version == minecraft_version,
            r.mod_loader == mod_loader,
            r.mod_loader_version == mod_loader_version,
    {
        let r = Manifest {
            name,
            version,
            author,
            minecraft_version,
            mod_loader,
            mod_loader_version,
            includes: Vec::new(),
            mods: Vec::new(),
        };
        assert(r.include_paths() =~= Seq::<Seq<char>>::empty());
        assert(r.includes_view() =~= Set::<Seq<char>>::empty());
        r
    }

    /// The declared mods, or `None` when there are none.
    pub fn get_mods(&self) -> (r: Option<&Vec<Mod>>)
        ensures
            r is None <==> self.mods_view().len() == 0,
            r matches Some(v) ==> views(v@) == self.mods_view(),
    {
        if self.mods.len() == 0 {
            None
        } else {
            Some(&self.mods)
        }
    }

    /// Adds `module` unless a record with its identity is already declared;
    /// returns whether it was added.
    pub fn add_mod(&mut self, module: Mod) -> (r: bool)
        requires
            old(self).wf(),
        ensures
            final(self).wf(),
            r == !contains_id(old(self).mods_view(), rank(module@)),
            r ==> record_set(final(self).mods_view()) == record_set(old(self).mods_view()).insert(module@),
            !r ==> final(self).mods_view() == old(self).mods_view(),
            final(self).same_but_mods(old(self)),
    {
        let ghost old_v = self.mods_view();
        let k = module.identity();
        let mut i: usize = 0;
        while i < self.mods.len() && self.mods[i].identity() < k
            invariant
                i <= self.mods@.len(),
                old_v == self.mods_view(),
                ascending(old_v),
                k == rank(module@),
                forall|j: int| 0 <= j < i ==> rank(#[trigger] old_v[j]) < k,
            decreases self.mods@.len() - i,
        {
            i = i + 1;
        }
        if i < self.mods.len() && self.mods[i].identity() == k {
            assert(old_v[i as int] == self.mods@[i as int]@);
            return false;
        }
        assert(!contains_id(old_v, k as int)) by {
            if contains_id(old_v, k as int) {
                let j = choose|j: int| 0 <= j < old_v.len() && rank(#[trigger] old_v[j]) == k;
                if j >= i {
                    assert(old_v[i as int] == self.mods@[i as int]@);
                }
            }
        }
        let ghost mv = module@;
        self.mods.insert(i, module);
        let ghost nv = self.mods_view();
        assert(nv =~= old_v.insert(i as int, mv));
        assert forall|a: int, b: int| 0 <= a < b < nv.len() implies rank(nv[a]) < rank(nv[b]) by {
            if i < self.mods@.len() - 1 && b > i as int {
                assert(old_v[i as int] == self.mods@[i as int + 1]@);
                assert(rank(old_v[i as int]) > k);
            }
        }
        assert(record_set(nv) =~= record_set(old_v).insert(mv)) by {
            assert forall|x: ModView| nv.contains(x) implies old_v.contains(x) || x == mv by {
                let j = choose|j: int| 0 <= j < nv.len() && nv[j] == x;
                if j < i {
                    assert(old_v[j] == x);
                } else if j > i {
                    assert(old_v[j - 1] == x);
                }
            }
            assert forall|x: ModView| old_v.contains(x) || x == mv implies nv.contains(x) by {
                if x == mv {
                    assert(nv[i as int] == x);
                } else {
                    let j = choose|j: int| 0 <= j < old_v.len() && old_v[j] == x;
                    if j < i {
                        assert(nv[j] == x);
                    } else {
                        assert(nv[j + 1] == x);
                    }
                }
            }
        }
        true
    }

    /// Removes the record with the identity of `module`; returns whether one
    /// was declared.
    pub fn remove_mod(&mut self, module: &Mod) -> (r: bool)
        requires
            old(self).wf(),
        ensures
            final(self).wf(),
            r == contains_id(old(self).mods_view(), rank(module@)),
            record_set(final(self).mods_view()) == Set::new(
                |x: ModView| old(self).mods_view().contains(x) && rank(x) != rank(module@),
            ),
            final(self).same_but_mods(old(self)),
    {
        let ghost old_v = self.mods_view();
        let k = module.identity();
        let mut i: usize = 0;
        while i < self.mods.len() && self.mods[i].identity() != k
            invariant
                i <= self.mods@.len(),
                old_v == self.mods_view(),
                k == rank(module@),
                forall|j: int| 0 <= j < i ==> rank(#[trigger] old_v[j]) != k,
            decreases self.mods@.len() - i,
        {
            i = i + 1;
        }
        if i == self.mods.len() {
            assert(!contains_id(old_v, k as int));
            assert(record_set(old_v) =~= Set::new(|x: ModView| old_v.contains(x) && rank(x) != k)) by {
                assert forall|x: ModView| old_v.contains(x) implies rank(x) != k by {
                    let j = choose|j: int| 0 <= j < old_v.len() && old_v[j] == x;
                }
            }
            return false;
        }
        assert(old_v[i as int] == self.mods@[i as int]@);
        let _ = self.mods.remove(i);
        let ghost nv = self.mods_view();
        assert(nv =~= old_v.remove(i as int));
        assert forall|a: int, b: int| 0 <= a < b < nv.len() implies rank(nv[a]) < rank(nv[b]) by {
            let a0 = if a < i { a } else { a + 1 };
            let b0 = if b < i { b } else { b + 1 };
            assert(nv[a] == old_v[a0] && nv[b] == old_v[b0]);
        }
        assert(record_set(nv) =~= Set::new(|x: ModView| old_v.contains(x) && rank(x) != k)) by {
            assert forall|x: ModView| nv.contains(x) implies old_v.contains(x) && rank(x) != k by {
                let j = choose|j: int| 0 <= j < nv.len() && nv[j] == x;
                if j < i {
                    assert(old_v[j] == x);
                } else {
                    assert(old_v[j + 1] == x);
                    assert(rank(old_v[i as int]) < rank(old_v[j + 1]));
                }
            }
            assert forall|x: ModView| old_v.contains(x) && rank(x) != k implies nv.contains(x) by {
                let j = choose|j: int| 0 <= j < old_v.len() && old_v[j] == x;
                if j < i {
                    assert(nv[j] == x);
                } else {
                    assert(j != i);
                    assert(nv[j - 1] == x);
                }
            }
        }
        true
    }

    /// Brings the declared mods in line with `new`: records whose identity
    /// `new` no longer declares are removed, records with a new identity are
    /// added. Returns the added records and the removed ones, each in
    /// ascending order and `None` when there are none.
    pub fn sync_mods(&mut self, new: &Manifest) -> (r: (Option<Vec<Mod>>, Option<Vec<Mod>>))
        requires
            old(self).wf(),
            new.wf(),
        ensures
            final(self).wf(),
            record_set(final(self).mods_view()) == synced_set(old(self).mods_view(), new.mods_view()),
            opt_views(r.0) == non_empty(minus(new.mods_view(), old(self).mods_view())),
            opt_views(r.1) == non_empty(minus(old(self).mods_view(), new.mods_view())),
            final(self).same_but_mods(old(self)),
    {
        let ghost old_v = self.mods_view();
        let ghost new_v = new.mods_view();
        let mut c = compare(clone_mods(&self.mods), clone_mods(&new.mods));
        let (add, rm) = c.split();
        proof {
            lemma_diff_exact(old_v, new_v);
            lemma_minus_members(new_v, old_v);
            lemma_minus_ascending(new_v, old_v);
        }
        let ghost rmv = views(rm@);
        let ghost addv = views(add@);
        assert(rmv.take(0) =~= Seq::<ModView>::empty());
        assert(record_set(self.mods_view()) =~= Set::new(
            |x: ModView| old_v.contains(x) && !contains_id(rmv.take(0), rank(x)),
        ));
        let mut i: usize = 0;
        while i < rm.len()
            invariant
                self.wf(),
                i <= rm@.len(),
                rmv == views(rm@),
                record_set(self.mods_view()) == Set::new(
                    |x: ModView| old_v.contains(x) && !contains_id(rmv.take(i as int), rank(x)),
                ),
                self.same_but_mods(old(self)),
            decreases rm@.len() - i,
        {
            let ghost cur = self.mods_view();
            let _ = self.remove_mod(&rm[i]);
            proof {
                lemma_contains_id_take(rmv, i as int);
                assert(record_set(cur).contains(rmv[i as int]) ==> cur.contains(rmv[i as int]));
                assert(record_set(self.mods_view()) =~= Set::new(
                    |x: ModView| old_v.contains(x) && !contains_id(rmv.take(i + 1), rank(x)),
                )) by {
                    assert forall|x: ModView| cur.contains(x) <==> record_set(cur).contains(x) by {}
                }
            }
            i = i + 1;
        }
        assert(rmv.take(rm@.len() as int) =~= rmv);
        let ghost kept = Set::new(|x: ModView| old_v.contains(x) && contains_id(new_v, rank(x)));
        assert(record_set(self.mods_view()) =~= kept) by {
            assert forall|x: ModView| old_v.contains(x) implies (contains_id(rmv, rank(x)) <==> !contains_id(new_v, rank(x))) by {
                lemma_removed_id(old_v, new_v, x);
            }
        }
        assert(addv.take(0) =~= Seq::<ModView>::empty());
        assert(record_set(self.mods_view()) =~= Set::new(
            |x: ModView| kept.contains(x) || addv.take(0).contains(x),
        ));
        let mut j: usize = 0;
        while j < add.len()
            invariant
                self.wf(),
                j <= add@.len(),
                addv == views(add@),
                addv == minus(new_v, old_v),
                ascending(addv),
                forall|q: int| 0 <= q < addv.len() ==> !contains_id(old_v, rank(#[trigger] addv[q])),
                kept == Set::new(|x: ModView| old_v.contains(x) && contains_id(new_v, rank(x))),
                record_set(self.mods_view()) == Set::new(
                    |x: ModView| kept.contains(x) || addv.take(j as int).contains(x),
                ),
                self.same_but_mods(old(self)),
            decreases add@.len() - j,
        {
            let ghost cur = self.mods_view();
            let ghost y = addv[j as int];
            assert(!contains_id(cur, rank(y))) by {
                if contains_id(cur, rank(y)) {
                    let q = choose|q: int| 0 <= q < cur.len() && rank(#[trigger] cur[q]) == rank(y);
                    assert(record_set(cur).contains(cur[q]));
                    if old_v.contains(cur[q]) {
                        let w = choose|w: int| 0 <= w < old_v.len() && old_v[w] == cur[q];
                        assert(rank(old_v[w]) == rank(y));
                        assert(!contains_id(old_v, rank(addv[j as int])));
                    } else {
                        assert(addv.take(j as int).contains(cur[q]));
                        let w = choose|w: int| 0 <= w < j && #[trigger] addv.take(j as int)[w] == cur[q];
                        assert(addv[w] == cur[q]);
                    }
                }
            }
            let m = add[j].clone();
            assert(m@ == y);
            let _ = self.add_mod(m);
            assert(record_set(self.mods_view()) =~= Set::new(
                |x: ModView| kept.contains(x) || addv.take(j + 1).contains(x),
            )) by {
                assert forall|x: ModView| #[trigger] record_set(self.mods_view()).contains(x) <==> record_set(cur).contains(x) || x == y by {}
                assert forall|x: ModView| addv.take(j + 1).contains(x) <==> addv.take(j as int).contains(x) || x == y by {
                    if addv.take(j + 1).contains(x) {
                        let w = choose|w: int| 0 <= w < j + 1 && #[trigger] addv.take(j + 1)[w] == x;
                        if w < j {
                            assert(addv.take(j as int)[w] == x);
                        }
                    }
                    if addv.take(j as int).contains(x) {
                        let w = choose|w: int| 0 <= w < j && #[trigger] addv.take(j as int)[w] == x;
                        assert(addv.take(j + 1)[w] == x);
                    }
                    if x == y {
                        assert(addv.take(j + 1)[j as int] == x);
                    }
                }
            }
            j = j + 1;
        }
        assert(addv.take(add@.len() as int) =~= addv);
        assert(record_set(self.mods_view()) =~= synced_set(old_v, new_v)) by {
            lemma_minus_keeps_all(new_v, old_v);
        }
        let added = if add.len() == 0 {
            None
        } else {
            Some(add)
        };
        let removed = if rm.len() == 0 {
            None
        } else {
            Some(rm)
        };
        (added, removed)
    }

    /// Whether `path` is one of the include paths.
    pub fn include_exists(&self, path: &str) -> (r: bool)
        ensures
            r == self.includes_view().contains(path@),
    {
        let target = String::from_str(path);
        let mut i: usize = 0;
        while i < self.includes.len()
            invariant
                i <= self.includes@.len(),
                target@ == path@,
                forall|j: int| 0 <= j < i ==> self.includes@[j]@ != path@,
            decreases self.includes@.len() - i,
        {
            if self.includes[i] == target {
                assert(self.include_paths()[i as int] == path@);
                return true;
            }
            i = i + 1;
        }
        assert(!self.include_paths().contains(path@)) by {
            if self.include_paths().contains(path@) {
                let j = choose|j: int| 0 <= j < self.include_paths().len() && self.include_paths()[j] == path@;
                assert(self.includes@[j]@ == path@);
            }
        }
        false
    }

    /// The include paths, or `None` when there are none.
    pub fn get_includes(&self) -> (r: Option<&Vec<String>>)
        ensures
            r is None <==> self.includes@.len() == 0,
            r matches Some(v) ==> v@ == self.includes@,
    {
        if self.includes.len() == 0 {
            None
        } else {
            Some(&self.includes)
        }
    }

    /// Adds `path` to the includes; returns whether it was not there yet.
    pub fn add_include(&mut self, path: String) -> (r: bool)
        requires
            old(self).wf(),
        ensures
            final(self).wf(),
            r == !old(self).includes_view().contains(path@),
            final(self).includes_view() == old(self).includes_view().insert(path@),
            final(self).same_but_includes(old(self)),
    {
        if self.include_exists(path.as_str()) {
            assert(self.includes_view().insert(path@) =~= self.includes_view());
            return false;
        }
        let ghost before = self.include_paths();
        let ghost pv = path@;
        self.includes.push(path);
        assert(self.include_paths() =~= before.push(pv));
        assert(self.includes_view() =~= Set::new(|p: Seq<char>| before.contains(p)).insert(pv)) by {
            assert forall|p: Seq<char>| self.include_paths().contains(p) <==> before.contains(p) || p == pv by {
                if self.include_paths().contains(p) {
                    let j = choose|j: int| 0 <= j < self.include_paths().len() && self.include_paths()[j] == p;
                    if j < before.len() {
                        assert(before[j] == p);
                    }
                }
                if before.contains(p) {
                    let j = choose|j: int| 0 <= j < before.len() && before[j] == p;
                    assert(self.include_paths()[j] == p);
                }
                if p == pv {
                    assert(self.include_paths()[before.len() as int] == p);
                }
            }
        }
        true
    }

    /// Removes `path` from the includes; returns whether it was there.
    pub fn remove_include(&mut self, path: &str) -> (r: bool)
        requires
            old(self).wf(),
        ensures
            final(self).wf(),
            r == old(self).includes_view().contains(path@),
            final(self).includes_view() == old(self).includes_view().remove(path@),
            final(self).same_but_includes(old(self)),
    {
        let ghost before = self.include_paths();
        let target = String::from_str(path);
        let mut i: usize = 0;
        while i < self.includes.len()
            invariant
                i <= self.includes@.len(),
                self.wf(),
                self.includes == old(self).includes,
                self.same_but_includes(old(self)),
                before == self.include_paths(),
                target@ == path@,
                forall|j: int| 0 <= j < i ==> before[j] != path@,
            decreases self.includes@.len() - i,
        {
            if self.includes[i] == target {
                assert(before[i as int] == path@);
                let _ = self.includes.remove(i);
                assert(self.include_paths() =~= before.remove(i as int));
                assert(self.include_paths().no_duplicates()) by {
                    assert forall|a: int, b: int| 0 <= a < b < self.include_paths().len() implies self.include_paths()[a] != self.include_paths()[b] by {
                        let a0 = if a < i { a } else { a + 1 };
                        let b0 = if b < i { b } else { b + 1 };
                        assert(self.include_paths()[a] == before[a0] && self.include_paths()[b] == before[b0]);
                    }
                }
                assert(self.includes_view() =~= Set::new(|p: Seq<char>| before.contains(p)).remove(path@)) by {
                    assert forall|p: Seq<char>| self.include_paths().contains(p) <==> before.contains(p) && p != path@ by {
                        if self.include_paths().contains(p) {
                            let j = choose|j: int| 0 <= j < self.include_paths().len() && self.include_paths()[j] == p;
                            if j < i {
                                assert(before[j] == p);
                            } else {
                                assert(before[j + 1] == p);
                                assert(j + 1 != i);
                            }
                        }
                        if before.contains(p) && p != path@ {
                            let j = choose|j: int| 0 <= j < before.len() && before[j] == p;
                            if j < i {
                                assert(self.include_paths()[j] == p);
                            } else {
                                assert(j != i);
                                assert(self.include_paths()[j - 1] == p);
                            }
                        }
                    }
                }
                return true;
            }
            i = i + 1;
        }
        assert(!before.contains(path@));
        assert(self.includes_view() =~= self.includes_view().remove(path@));
        false
    }

    /// The nearest proper ancestor of `path` that is an include.
    pub fn include_contained(&self, path: &str) -> (r: Option<String>)
        ensures
            r is None <==> contained_in(self.includes_view(), path@) is None,
            r matches Some(q) ==> contained_in(self.includes_view(), path@) == Some(q@),
    {
        let mut cur = String::from_str(path);
        loop
            invariant
                contained_in(self.includes_view(), path@) == contained_in(self.includes_view(), cur@),
            decreases cur@.len(),
        {
            let n = cur.as_str().unicode_len();
            if n == 0 {
                return None;
            }
            let mut k: usize = n;
            while k > 0 && cur.as_str().get_char(k - 1) != '/'
                invariant
                    k <= n,
                    n == cur@.len(),
                    forall|j: int| k <= j < n ==> cur@[j] != '/',
                decreases k,
            {
                k = k - 1;
            }
            proof {
                lemma_last_slash(cur@);
            }
            let parent = if k == 0 {
                proof {
                    assert(last_slash(cur@) < 0 || last_slash(cur@) == 0);
                    assert(cur@.take(0) =~= Seq::<char>::empty());
                }
                String::new()
            } else {
                assert(last_slash(cur@) == k - 1);
                String::from_str(cur.as_str().substring_char(0, k - 1))
            };
            assert(parent_of(cur@) == Some(parent@)) by {
                if k == 0 && last_slash(cur@) < 0 {
                    assert(parent@ =~= Seq::<char>::empty());
                }
            }
            if self.include_exists(parent.as_str()) {
                return Some(parent);
            }
            cur = parent;
        }
    }

    /// Drops every include that another include already covers as an
    /// ancestor.
    pub fn includes_clean(&mut self)
        requires
            old(self).wf(),
        ensures
            final(self).wf(),
            final(self).includes_view() == Set::new(
                |p: Seq<char>|
                    old(self).includes_view().contains(p) && contained_in(old(self).includes_view(), p) is None,
            ),
            final(self).same_but_includes(old(self)),
    {
        let ghost start = self.includes_view();
        let ghost paths = self.include_paths();
        let mut covered: Vec<String> = Vec::new();
        let mut i: usize = 0;
        while i < self.includes.len()
            invariant
                i <= self.includes@.len(),
                start == self.includes_view(),
                paths == self.include_paths(),
                forall|q: int| 0 <= q < covered@.len() ==> start.contains(#[trigger] covered@[q]@)
                    && contained_in(start, covered@[q]@) is Some,
                forall|j: int| 0 <= j < i && contained_in(start, #[trigger] paths[j]) is Some
                    ==> covered@.map_values(|c: String| c@).contains(paths[j]),
            decreases self.includes@.len() - i,
        {
            assert(paths[i as int] == self.includes@[i as int]@);
            assert(start.contains(paths[i as int]));
            let ghost before = covered@.map_values(|c: String| c@);
            if self.include_contained(self.includes[i].as_str()).is_some() {
                covered.push(self.includes[i].clone());
                assert(covered@.map_values(|c: String| c@) =~= before.push(paths[i as int]));
            }
            assert forall|j: int| 0 <= j < i + 1 && contained_in(start, #[trigger] paths[j]) is Some
                implies covered@.map_values(|c: String| c@).contains(paths[j]) by {
                if j < i {
                    let q = choose|q: int| 0 <= q < before.len() && before[q] == paths[j];
                    assert(covered@.map_values(|c: String| c@)[q] == paths[j]);
                } else {
                    assert(covered@.map_values(|c: String| c@)[covered@.len() - 1] == paths[j]);
                }
            }
            i = i + 1;
        }
        let ghost cv = covered@.map_values(|c: String| c@);
        assert forall|p: Seq<char>| start.contains(p) && contained_in(start, p) is Some implies cv.contains(p) by {
            let j = choose|j: int| 0 <= j < paths.len() && paths[j] == p;
        }
        let mut j: usize = 0;
        assert(cv.take(0) =~= Seq::<Seq<char>>::empty());
        assert(self.includes_view() =~= Set::new(|p: Seq<char>| start.contains(p) && !cv.take(0).contains(p)));
        while j < covered.len()
            invariant
                self.wf(),
                j <= covered@.len(),
                cv == covered@.map_values(|c: String| c@),
                self.includes_view() == Set::new(|p: Seq<char>| start.contains(p) && !cv.take(j as int).contains(p)),
                self.same_but_includes(old(self)),
            decreases covered@.len() - j,
        {
            let _ = self.remove_include(covered[j].as_str());
            assert(self.includes_view() =~= Set::new(
                |p: Seq<char>| start.contains(p) && !cv.take(j + 1).contains(p),
            )) by {
                assert forall|p: Seq<char>| #[trigger] cv.take(j + 1).contains(p) <==> cv.take(j as int).contains(p) || cv[j as int] == p by {
                    if cv.take(j + 1).contains(p) {
                        let q = choose|q: int| 0 <= q < j + 1 && #[trigger] cv.take(j + 1)[q] == p;
                        if q < j {
                            assert(cv.take(j as int)[q] == p);
                        }
                    }
                    if cv.take(j as int).contains(p) {
                        let q = choose|q: int| 0 <= q < j && #[trigger] cv.take(j as int)[q] == p;
                        assert(cv.take(j + 1)[q] == p);
                    }
                    if cv[j as int] == p {
                        assert(cv.take(j + 1)[j as int] == p);
                    }
                }
            }
            j = j + 1;
        }
        assert(cv.take(j as int) =~= cv);
        assert(self.includes_view() =~= Set::new(
            |p: Seq<char>| start.contains(p) && contained_in(start, p) is None,
        )) by {
            assert forall|p: Seq<char>| cv.contains(p) implies start.contains(p) && contained_in(start, p) is Some by {
                let q = choose|q: int| 0 <= q < cv.len() && cv[q] == p;
                assert(covered@[q]@ == p);
            }
        }
    }

    /// The first declared record whose file name is `path`.
    pub fn get_mod_by_filename(&self, path: &str) -> (r: Option<&Mod>)
        ensures
            r is None <==> first_named(self.mods_view(), path@) is None,
            r matches Some(m) ==> first_named(self.mods_view(), path@) == Some(m@),
    {
        let ghost v = self.mods_view();
        let target = String::from_str(path);
        let mut i: usize = 0;
        assert(v.skip(0) =~= v);
        while i < self.mods.len()
            invariant
                i <= self.mods@.len(),
                v == self.mods_view(),
                target@ == path@,
                first_named(v, path@) == first_named(v.skip(i as int), path@),
            decreases self.mods@.len() - i,
        {
            assert(v.skip(i as int)[0] == self.mods@[i as int]@);
            if self.mods[i].file_name == target {
                return Some(&self.mods[i]);
            }
            assert(v.skip(i as int).drop_first() =~= v.skip(i + 1));
            i = i + 1;
        }
        assert(v.skip(i as int) =~= Seq::<ModView>::empty());
        None
    }
}

impl Default for Manifest {
    /// An unnamed manifest at version `0.0.0` with no mods and no includes.
    fn default() -> (r: Manifest)
        ensures
            r.wf(),
            r.name@.len() == 0,
            r.author@.len() == 0,
            r.mod_loader@.len() == 0,
            r.version@ == zero_version(),
            r.minecraft_version@ == zero_version(),
            r.mod_loader_version@ == zero_version(),
            r.mods@.len() == 0,
            r.includes@.len() == 0,
    {
        Manifest::new(
            String::new(),
            Version::new(0, 0, 0),
            String::new(),
            Version::new(0, 0, 0),
            String::new(),
            Version::new(0, 0, 0),
        )
    }
}

/// The version `0.0.0`.
pub open spec fn zero_version() -> VersionView {
    VersionView { major: 0, minor: 0, patch: 0, pre: Seq::empty(), build: Seq::empty() }
}

} // verus!
