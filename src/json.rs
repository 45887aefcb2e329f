//! The pack manifest in the launcher's export format.

use crate::artifact::{Mod, views};
use crate::manifest::Manifest;
use crate::version::{Version, version_text};
use vstd::prelude::*;

verus! {

/// Format version of the export manifest.
pub const MANIFEST_VERSION: u8 = 1;

/// One mod file of the export manifest.
pub struct FileJson {
    pub project_id: u32,
    pub file_id: u32,
    pub required: bool,
}

impl FileJson {
    /// The required export entry of a record.
    pub fn from_mod(m: &Mod) -> (r: FileJson)
        ensures
            r.project_id == m.project_id,
            r.file_id == m.file_id,
            r.required,
    {
        FileJson { project_id: m.project_id, file_id: m.file_id, required: true }
    }
}

/// The identity of a file entry, ordered as `(project_id, file_id)`.
pub open spec fn file_rank(f: FileJson) -> int {
    f.project_id as int * 0x1_0000_0000 + f.file_id as int
}

/// File entries in strictly ascending order of identity.
pub open spec fn files_ascending(s: Seq<FileJson>) -> bool {
    forall|i: int, j: int| 0 <= i < j < s.len() ==> file_rank(s[i]) < file_rank(s[j])
}

/// Some entry of `s` has identity `k`.
pub open spec fn has_file(s: Seq<FileJson>, k: int) -> bool {
    exists|i: int| 0 <= i < s.len() && file_rank(#[trigger] s[i]) == k
}

/// The entries of `s`, as a set.
pub open spec fn file_set(s: Seq<FileJson>) -> Set<FileJson> {
    Set::new(|x: FileJson| s.contains(x))
}

/// One mod loader of the export manifest.
pub struct ModLoaderJson {
    pub id: String,
    pub primary: bool,
}

/// The game section of the export manifest.
pub struct MinecraftJson {
    pub version: Version,
    pub mod_loaders: Vec<ModLoaderJson>,
}

impl MinecraftJson {
    /// Makes `name-version` the one, primary, mod loader.
    pub fn set_mod_loader(&mut self, name: &str, version: &Version)
        ensures
            final(self).version == old(self).version,
            final(self).mod_loaders@.len() == 1,
            final(self).mod_loaders@[0].id@ == name@ + seq!['-'] + version_text(version@),
            final(self).mod_loaders@[0].primary,
    {
        let mut id = String::from_str(name);
        let dash = "-";
        proof {
            reveal_strlit("-");
        }
        id.append(dash);
        let v = version.to_text();
        id.append(v.as_str());
        self.mod_loaders = vec![ModLoaderJson { id, primary: true }];
    }
}

/// The export manifest of a pack.
pub struct ManifestJson {
    pub minecraft: MinecraftJson,
    pub manifest_type: String,
    pub manifest_version: u8,
    pub name: String,
    pub version: Version,
    pub author: String,
    pub overrides: String,
    /// The mod files, in ascending order of identity.
    pub files: Vec<FileJson>,
}

impl ManifestJson {
    /// This is the export manifest of `m`: its metadata, its mod loader, and
    /// one required file entry per declared record, in the same order.
    pub open spec fn describes(&self, m: &Manifest) -> bool {
        let r = self;
        &&& r.manifest_type@ == seq!['m', 'i', 'n', 'e', 'c', 'r', 'a', 'f', 't', 'M', 'o', 'd', 'p', 'a', 'c', 'k']
        &&& r.manifest_version == MANIFEST_VERSION
        &&& r.overrides@ == seq!['o', 'v', 'e', 'r', 'r', 'i', 'd', 'e', 's']
        &&& r.name@ == m.name@
        &&& r.author@ == m.author@
        &&& r.version@ == m.version@
        &&& r.minecraft.version@ == m.minecraft_version@
        &&& r.minecraft.mod_loaders@.len() == 1
        &&& r.minecraft.mod_loaders@[0].id@ == m.mod_loader@ + seq!['-'] + version_text(m.mod_loader_version@)
        &&& r.minecraft.mod_loaders@[0].primary
        &&& r.files@.len() == m.mods_view().len()
        &&& forall|i: int|
            0 <= i < r.files@.len() ==> (#[trigger] r.files@[i]).project_id == m.mods_view()[i].project_id
                && r.files@[i].file_id == m.mods_view()[i].file_id && r.files@[i].required
    }

    /// Adds `file` unless an entry with its identity is listed already;
    /// returns whether it was added.
    pub fn add_file(&mut self, file: FileJson) -> (r: bool)
        requires
            files_ascending(old(self).files@),
        ensures
            files_ascending(final(self).files@),
            r == !has_file(old(self).files@, file_rank(file)),
            r ==> file_set(final(self).files@) == file_set(old(self).files@).insert(file),
            !r ==> final(self).files@ == old(self).files@,
    {
        let ghost old_v = self.files@;
        let k: u64 = (file.project_id as u64) * 0x1_0000_0000 + (file.file_id as u64);
        let mut i: usize = 0;
        while i < self.files.len()
            && (self.files[i].project_id as u64) * 0x1_0000_0000 + (self.files[i].file_id as u64) < k
            invariant
                i <= self.files@.len(),
                old_v == self.files@,
                files_ascending(old_v),
                k == file_rank(file),
                forall|j: int| 0 <= j < i ==> file_rank(#[trigger] old_v[j]) < k,
            decreases self.files@.len() - i,
        {
            i = i + 1;
        }
        if i < self.files.len() && (self.files[i].project_id as u64) * 0x1_0000_0000 + (self.files[i].file_id as u64)
            == k {
            return false;
        }
        assert(!has_file(old_v, k as int)) by {
            if has_file(old_v, k as int) {
                let j = choose|j: int| 0 <= j < old_v.len() && file_rank(#[trigger] old_v[j]) == k;
            }
        }
        self.files.insert(i, file);
        let ghost nv = self.files@;
        assert(nv =~= old_v.insert(i as int, file));
        assert forall|a: int, b: int| 0 <= a < b < nv.len() implies file_rank(nv[a]) < file_rank(nv[b]) by {
            if b > i as int && i < old_v.len() {
                assert(file_rank(old_v[i as int]) > k);
            }
        }
        assert(file_set(nv) =~= file_set(old_v).insert(file)) by {
            assert forall|x: FileJson| nv.contains(x) implies old_v.contains(x) || x == file by {
                let j = choose|j: int| 0 <= j < nv.len() && nv[j] == x;
                if j < i {
                    assert(old_v[j] == x);
                } else if j > i {
                    assert(old_v[j - 1] == x);
                }
            }
            assert forall|x: FileJson| old_v.contains(x) || x == file implies nv.contains(x) by {
                if x == file {
                    assert(nv[i as int] == x);
                } else {
                    let j = choose|j: int| 0 <= j < old_v.len() && old_v[j] == x;
                    if j < i {
                        assert(nv[j] == x);
                    } else {
                        assert(nv[j + 1] == x);
                    }
                }
            }
        }
        true
    }

    /// The export manifest of `m`.
    pub fn from_manifest(m: &Manifest) -> (r: ManifestJson)
        ensures
            r.describes(m),
    {
        let kind = "minecraftModpack";
        let over = "overrides";
        proof {
            reveal_strlit("minecraftModpack");
            reveal_strlit("overrides");
        }
        let mut files: Vec<FileJson> = Vec::new();
        let mut i: usize = 0;
        while i < m.mods.len()
            invariant
                i <= m.mods@.len(),
                files@.len() == i,
                forall|j: int|
                    0 <= j < i ==> (#[trigger] files@[j]).project_id == m.mods_view()[j].project_id
                        && files@[j].file_id == m.mods_view()[j].file_id && files@[j].required,
            decreases m.mods@.len() - i,
        {
            files.push(FileJson::from_mod(&m.mods[i]));
            i = i + 1;
        }
        let mut minecraft = MinecraftJson { version: m.minecraft_version.duplicate(), mod_loaders: Vec::new() };
        minecraft.set_mod_loader(m.mod_loader.as_str(), &m.mod_loader_version);
        let r = ManifestJson {
            minecraft,
            manifest_type: String::from_str(kind),
            manifest_version: MANIFEST_VERSION,
            name: m.name.clone(),
            version: m.version.duplicate(),
            author: m.author.clone(),
            overrides: String::from_str(over),
            files,
        };
        assert(r.manifest_type@ == seq!['m', 'i', 'n', 'e', 'c', 'r', 'a', 'f', 't', 'M', 'o', 'd', 'p', 'a', 'c', 'k']);
        assert(r.overrides@ == seq!['o', 'v', 'e', 'r', 'r', 'i', 'd', 'e', 's']);
        assert(r.minecraft.mod_loaders@.len() == 1);
        assert(r.files@.len() == m.mods_view().len());
        r
    }
}

} // verus!
