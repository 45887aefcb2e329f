//! The instance description: the launcher's record of the installed pack,
//! from which the declared set of mods is taken.

use crate::artifact::{Mod, ModView, rank, contains_id};
use crate::json::ManifestJson;
use crate::manifest::{Manifest, record_set};
use crate::version::{Version, VersionView, lemma_no_hyphens, parsed_version};
use vstd::prelude::*;

verus! {

/// The installed file of an addon.
pub struct InstalledFile {
    pub id: u32,
    pub file_name: String,
    pub file_length: u64,
    pub package_fingerprint: u32,
}

/// One installed addon of the instance.
pub struct InstalledAddon {
    pub addon_id: u32,
    pub installed_file: InstalledFile,
}

/// The record an installed addon declares.
pub open spec fn addon_record(a: InstalledAddon) -> ModView {
    ModView {
        project_id: a.addon_id,
        file_id: a.installed_file.id,
        file_name: a.installed_file.file_name@,
        fingerprint: a.installed_file.package_fingerprint,
        file_size: a.installed_file.file_length,
    }
}

/// The records the addons declare, in order.
pub open spec fn addon_records(s: Seq<InstalledAddon>) -> Seq<ModView> {
    s.map_values(|a: InstalledAddon| addon_record(a))
}

/// The records of `s` that no earlier record of `s` shares an identity with.
pub open spec fn first_of_each_id(s: Seq<ModView>) -> Set<ModView> {
    Set::new(
        |x: ModView|
            exists|i: int|
                0 <= i < s.len() && s[i] == x && !contains_id(#[trigger] s.take(i), rank(x)),
    )
}

impl Mod {
    /// The record of an installed addon.
    pub fn from_addon(ia: &InstalledAddon) -> (r: Mod)
        ensures
            r@ == addon_record(*ia),
    {
        Mod {
            project_id: ia.addon_id,
            file_id: ia.installed_file.id,
            file_name: ia.installed_file.file_name.clone(),
            file_size: ia.installed_file.file_length,
            fingerprint: ia.installed_file.package_fingerprint,
        }
    }
}

/// The mod loader entry of the instance, such as `forge-36.1.0`.
pub struct BaseModLoader {
    pub name: String,
}

/// Position of the last `-` in `s`, or -1 when there is none.
pub open spec fn last_dash(s: Seq<char>) -> int
    decreases s.len(),
{
    if s.len() == 0 {
        -1
    } else if s.last() == '-' {
        s.len() - 1
    } else {
        last_dash(s.drop_last())
    }
}

/// The loader name and version of `name`: split at its last `-`, with the
/// version part parsed by semver.
pub open spec fn mod_loader_of(name: Seq<char>) -> Option<(Seq<char>, VersionView)> {
    if last_dash(name) < 0 {
        None
    } else {
        match parsed_version(name.skip(last_dash(name) + 1)) {
            Some(v) => Some((name.take(last_dash(name)), v)),
            None => None,
        }
    }
}

proof fn lemma_last_dash(s: Seq<char>)
    ensures
        -1 <= last_dash(s) < s.len(),
        last_dash(s) >= 0 ==> s[last_dash(s)] == '-',
        forall|j: int| last_dash(s) < j < s.len() ==> s[j] != '-',
    decreases s.len(),
{
    if s.len() > 0 && s.last() != '-' {
        lemma_last_dash(s.drop_last());
        assert forall|j: int| last_dash(s) < j < s.len() implies s[j] != '-' by {
            if j < s.len() - 1 {
                assert(s.drop_last()[j] == s[j]);
            }
        }
    }
}

impl BaseModLoader {
    /// The loader name and its version, when the entry has both.
    pub fn get_mod_loader(&self) -> (r: Option<(String, Version)>)
        ensures
            r is None <==> mod_loader_of(self.name@) is None,
            r matches Some(p) ==> mod_loader_of(self.name@) == Some((p.0@, p.1@)),
    {
        let s = self.name.as_str();
        let n = s.unicode_len();
        let mut k: usize = n;
        while k > 0 && s.get_char(k - 1) != '-'
            invariant
                k <= n,
                n == s@.len(),
                forall|j: int| k <= j < n ==> s@[j] != '-',
            decreases k,
        {
            k = k - 1;
        }
        proof {
            lemma_last_dash(s@);
        }
        if k == 0 {
            assert(last_dash(s@) < 0);
            return None;
        }
        assert(last_dash(s@) == k - 1);
        let loader = s.substring_char(0, k - 1);
        let rest = s.substring_char(k, n);
        proof {
            assert forall|j: int| 0 <= j < rest@.len() implies rest@[j] != '-' by {
                assert(rest@[j] == s@[k + j]);
            }
            lemma_no_hyphens(rest@);
            assert(rest@ =~= s@.skip(last_dash(s@) + 1));
        }
        match Version::parse(rest) {
            Some(v) => Some((String::from_str(loader), v)),
            None => None,
        }
    }
}

/// The launcher's description of the installed pack.
pub struct MinecraftInstance {
    pub name: String,
    pub custom_author: String,
    pub game_version: Version,
    pub base_mod_loader: BaseModLoader,
    pub manifest: Option<ManifestJson>,
    pub installed_addons: Option<Vec<InstalledAddon>>,
}

impl MinecraftInstance {
    /// The installed addons, none when the instance lists none.
    pub open spec fn addons(&self) -> Seq<InstalledAddon> {
        match self.installed_addons {
            Some(v) => v@,
            None => Seq::empty(),
        }
    }
}

impl Manifest {
    /// The manifest an instance declares: its name, author and game version,
    /// the pack version of its embedded manifest (else the game version), its
    /// mod loader (else an empty name and `0.0.0`), and the first record of
    /// each identity among its addons.
    pub fn from_instance(mi: &MinecraftInstance) -> (r: Manifest)
        ensures
            r.wf(),
            r.includes@.len() == 0,
            r.name@ == mi.name@,
            r.author@ == mi.custom_author@,
            r.minecraft_version@ == mi.game_version@,
            r.version@ == match mi.manifest {
                Some(m) => m.version@,
                None => mi.game_version@,
            },
            match mod_loader_of(mi.base_mod_loader.name@) {
                Some(p) => r.mod_loader@ == p.0 && r.mod_loader_version@ == p.1,
                None => r.mod_loader@.len() == 0 && r.mod_loader_version@ == (VersionView {
                    major: 0,
                    minor: 0,
                    patch: 0,
                    pre: Seq::empty(),
                    build: Seq::empty(),
                }),
            },
            record_set(r.mods_view()) == first_of_each_id(addon_records(mi.addons())),
    {
        let version = match &mi.manifest {
            Some(m) => m.version.duplicate(),
            None => mi.game_version.duplicate(),
        };
        let (mod_loader, mod_loader_version) = match mi.base_mod_loader.get_mod_loader() {
            Some(p) => p,
            None => (String::new(), Version::new(0, 0, 0)),
        };
        let mut m = Manifest::new(
            mi.name.clone(),
            version,
            mi.custom_author.clone(),
            mi.game_version.duplicate(),
            mod_loader,
            mod_loader_version,
        );
        let ghost recs = addon_records(mi.addons());
        assert(recs.take(0) =~= Seq::<ModView>::empty());
        assert(record_set(m.mods_view()) =~= first_of_each_id(recs.take(0)));
        match &mi.installed_addons {
            None => {
                assert(recs =~= recs.take(0));
            },
            Some(addons) => {
                let mut i: usize = 0;
                while i < addons.len()
                    invariant
                        m.wf(),
                        i <= addons@.len(),
                        recs == addon_records(addons@),
                        m.includes@.len() == 0,
                        m.name@ == mi.name@,
                        m.author@ == mi.custom_author@,
                        m.minecraft_version@ == mi.game_version@,
                        m.version@ == match mi.manifest {
                            Some(mj) => mj.version@,
                            None => mi.game_version@,
                        },
                        match mod_loader_of(mi.base_mod_loader.name@) {
                            Some(p) => m.mod_loader@ == p.0 && m.mod_loader_version@ == p.1,
                            None => m.mod_loader@.len() == 0 && m.mod_loader_version@ == (VersionView {
                                major: 0,
                                minor: 0,
                                patch: 0,
                                pre: Seq::empty(),
                                build: Seq::empty(),
                            }),
                        },
                        record_set(m.mods_view()) == first_of_each_id(recs.take(i as int)),
                        forall|k: int| contains_id(m.mods_view(), k) <==> contains_id(recs.take(i as int), k),
                    decreases addons@.len() - i,
                {
                    let ghost cur = m.mods_view();
                    let r = Mod::from_addon(&addons[i]);
                    let ghost x = r@;
                    assert(x == recs[i as int]);
                    let added = m.add_mod(r);
                    proof {
                        let t = recs.take(i as int);
                        let t1 = recs.take(i + 1);
                        assert(t1 =~= t.push(x));
                        assert forall|k: int| contains_id(t1, k) <==> contains_id(t, k) || rank(x) == k by {
                            if contains_id(t1, k) {
                                let j = choose|j: int| 0 <= j < t1.len() && rank(#[trigger] t1[j]) == k;
                                if j < t.len() {
                                    assert(t[j] == t1[j]);
                                }
                            }
                            if contains_id(t, k) {
                                let j = choose|j: int| 0 <= j < t.len() && rank(#[trigger] t[j]) == k;
                                assert(t1[j] == t[j]);
                            }
                            if rank(x) == k {
                                assert(t1[i as int] == x);
                            }
                        }
                        assert forall|y: ModView| first_of_each_id(t1).contains(y) <==> first_of_each_id(t).contains(y) || (y == x && !contains_id(t, rank(x))) by {
                            if first_of_each_id(t1).contains(y) {
                                let j = choose|j: int| 0 <= j < t1.len() && t1[j] == y && !contains_id(#[trigger] t1.take(j), rank(y));
                                if j < i {
                                    assert(t1.take(j) =~= t.take(j));
                                    assert(t[j] == y);
                                } else {
                                    assert(t1.take(j) =~= t);
                                }
                            }
                            if first_of_each_id(t).contains(y) {
                                let j = choose|j: int| 0 <= j < t.len() && t[j] == y && !contains_id(#[trigger] t.take(j), rank(y));
                                assert(t1.take(j) =~= t.take(j));
                                assert(t1[j] == y);
                            }
                            if y == x && !contains_id(t, rank(x)) {
                                assert(t1.take(i as int) =~= t);
                                assert(t1[i as int] == y);
                            }
                        }
                        if added {
                            assert(record_set(m.mods_view()) =~= first_of_each_id(t1));
                            assert forall|k: int| contains_id(m.mods_view(), k) <==> contains_id(t1, k) by {
                                let nv = m.mods_view();
                                if contains_id(nv, k) {
                                    let j = choose|j: int| 0 <= j < nv.len() && rank(#[trigger] nv[j]) == k;
                                    assert(record_set(nv).contains(nv[j]));
                                    if nv[j] != x {
                                        assert(record_set(cur).contains(nv[j]));
                                        let q = choose|q: int| 0 <= q < cur.len() && cur[q] == nv[j];
                                        assert(contains_id(cur, k));
                                    }
                                }
                                if contains_id(cur, k) {
                                    let j = choose|j: int| 0 <= j < cur.len() && rank(#[trigger] cur[j]) == k;
                                    assert(record_set(cur).contains(cur[j]));
                                    assert(record_set(nv).contains(cur[j]));
                                    let q = choose|q: int| 0 <= q < nv.len() && nv[q] == cur[j];
                                }
                                if rank(x) == k {
                                    assert(record_set(nv).contains(x));
                                    let q = choose|q: int| 0 <= q < nv.len() && nv[q] == x;
                                }
                            }
                        } else {
                            assert(first_of_each_id(t1) =~= first_of_each_id(t));
                        }
                    }
                    i = i + 1;
                }
                assert(recs.take(addons@.len() as int) =~= recs);
            },
        }
        m
    }
}

} // verus!
