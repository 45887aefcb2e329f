//! What each command decides, apart from reading and writing files: the
//! caller loads the manifest, hands it here, and saves what comes back.

use crate::json::ManifestJson;
use crate::manifest::{Manifest, contained_in, record_set, synced_set};
use crate::plan::{DirEntry, Task, entry_views, plan_spec, plan_sync, task_views};
use vstd::prelude::*;

verus! {

/// Sets the pack's author.
pub struct AuthorParams {
    pub author: String,
}

impl AuthorParams {
    /// Replaces the author and leaves everything else as it is.
    pub fn run(&self, manifest: &mut Manifest)
        ensures
            final(manifest).author == self.author,
            final(manifest).name == old(manifest).name,
            final(manifest).version == old(manifest).version,
            final(manifest).minecraft_version == old(manifest).minecraft_version,
            final(manifest).mod_loader == old(manifest).mod_loader,
            final(manifest).mod_loader_version == old(manifest).mod_loader_version,
            final(manifest).includes == old(manifest).includes,
            final(manifest).mods == old(manifest).mods,
    {
        manifest.author = self.author.clone();
    }
}

/// Reconciles the manifest and the artifact directory with the instance.
pub struct SyncParams {}

impl SyncParams {
    /// Replaces the declared mods of `manifest` by those of `declared` (see
    /// `Manifest::sync_mods`), takes over its name and mod loader, and returns
    /// every task of the pass over the directory `dir` whose entries are
    /// `entries`. The caller saves the manifest before it runs any task.
    pub fn run(&self, manifest: &mut Manifest, declared: &Manifest, dir: &str, entries: &Vec<DirEntry>) -> (r: Vec<Task>)
        requires
            old(manifest).wf(),
            declared.wf(),
        ensures
            final(manifest).wf(),
            record_set(final(manifest).mods_view()) == synced_set(old(manifest).mods_view(), declared.mods_view()),
            final(manifest).name == declared.name,
            final(manifest).mod_loader == declared.mod_loader,
            final(manifest).mod_loader_version@ == declared.mod_loader_version@,
            final(manifest).author == old(manifest).author,
            final(manifest).version == old(manifest).version,
            final(manifest).minecraft_version == old(manifest).minecraft_version,
            final(manifest).includes == old(manifest).includes,
            task_views(r@) == plan_spec(
                final(manifest).mods_view(),
                final(manifest).includes_view(),
                dir@,
                entry_views(entries@),
            ),
    {
        let _ = manifest.sync_mods(declared);
        manifest.mod_loader = declared.mod_loader.clone();
        manifest.mod_loader_version = declared.mod_loader_version.duplicate();
        manifest.name = declared.name.clone();
        plan_sync(manifest, dir, entries)
    }
}

/// The include set after cleaning: the paths no other path of it covers.
pub open spec fn cleaned(set: Set<Seq<char>>) -> Set<Seq<char>> {
    Set::new(|p: Seq<char>| set.contains(p) && contained_in(set, p) is None)
}

/// How adding `paths` to the include set `set` ends: the new set, or the first
/// path that is refused, with the include that already covers it if any.
pub open spec fn add_paths(set: Set<Seq<char>>, paths: Seq<Seq<char>>) -> Result<
    Set<Seq<char>>,
    (Seq<char>, Option<Seq<char>>),
>
    decreases paths.len(),
{
    if paths.len() == 0 {
        Ok(set)
    } else {
        match contained_in(set, paths[0]) {
            Some(q) => Err((paths[0], Some(q))),
            None => if set.contains(paths[0]) {
                Err((paths[0], None))
            } else {
                add_paths(cleaned(set.insert(paths[0])), paths.drop_first())
            },
        }
    }
}

/// The paths of a sequence of strings.
pub open spec fn string_views(s: Seq<String>) -> Seq<Seq<char>> {
    s.map_values(|p: String| p@)
}

/// What a change to the includes came to.
pub enum IncludeOutcome {
    /// The includes changed; the listed paths to remove were not there.
    Updated { not_found: Vec<String> },
    /// `path` lies under `by`, which is already an include; nothing is saved.
    AlreadyIncludedBy { path: String, by: String },
    /// `path` is already an include; nothing is saved.
    AlreadyListed { path: String },
}

/// Adds paths, relative to the pack root, to the includes.
pub struct Add {
    pub paths: Vec<String>,
}

impl Add {
    /// Adds each path in turn, dropping the includes it covers; stops at the
    /// first path that an include covers or that is listed already.
    pub fn run(&self, manifest: &mut Manifest) -> (r: IncludeOutcome)
        requires
            old(manifest).wf(),
        ensures
            final(manifest).wf(),
            final(manifest).same_but_includes(old(manifest)),
            match add_paths(old(manifest).includes_view(), string_views(self.paths@)) {
                Ok(s) => r matches IncludeOutcome::Updated { not_found } && not_found@.len() == 0
                    && final(manifest).includes_view() == s,
                Err((p, Some(q))) => r matches IncludeOutcome::AlreadyIncludedBy { path, by } && path@ == p
                    && by@ == q,
                Err((p, None)) => r matches IncludeOutcome::AlreadyListed { path } && path@ == p,
            },
    {
        let ghost paths = string_views(self.paths@);
        let mut i: usize = 0;
        assert(paths.skip(0) =~= paths);
        while i < self.paths.len()
            invariant
                manifest.wf(),
                manifest.same_but_includes(old(manifest)),
                i <= self.paths@.len(),
                paths == string_views(self.paths@),
                add_paths(old(manifest).includes_view(), paths) == add_paths(
                    manifest.includes_view(),
                    paths.skip(i as int),
                ),
            decreases self.paths@.len() - i,
        {
            let ghost rest = paths.skip(i as int);
            assert(rest[0] == self.paths@[i as int]@);
            assert(rest.drop_first() =~= paths.skip(i + 1));
            let path = &self.paths[i];
            match manifest.include_contained(path.as_str()) {
                Some(by) => {
                    return IncludeOutcome::AlreadyIncludedBy { path: path.clone(), by };
                },
                None => {},
            }
            if !manifest.add_include(path.clone()) {
                return IncludeOutcome::AlreadyListed { path: path.clone() };
            }
            manifest.includes_clean();
            i = i + 1;
        }
        assert(paths.skip(i as int) =~= Seq::<Seq<char>>::empty());
        IncludeOutcome::Updated { not_found: Vec::new() }
    }
}

/// The set of paths that `s` holds.
pub open spec fn path_set(s: Seq<Seq<char>>) -> Set<Seq<char>> {
    Set::new(|p: Seq<char>| s.contains(p))
}

/// The paths that removing `paths` one by one from `set` does not find.
pub open spec fn not_found_paths(set: Set<Seq<char>>, paths: Seq<Seq<char>>) -> Seq<Seq<char>>
    decreases paths.len(),
{
    if paths.len() == 0 {
        Seq::empty()
    } else {
        let rest = not_found_paths(set.remove(paths[0]), paths.drop_first());
        if set.contains(paths[0]) {
            rest
        } else {
            seq![paths[0]] + rest
        }
    }
}

/// Removes paths, relative to the pack root, from the includes.
pub struct Remove {
    pub paths: Vec<String>,
}

impl Remove {
    /// Removes each path; returns the paths that were not includes when
    /// their turn came, in order.
    pub fn run(&self, manifest: &mut Manifest) -> (r: Vec<String>)
        requires
            old(manifest).wf(),
        ensures
            final(manifest).wf(),
            final(manifest).same_but_includes(old(manifest)),
            final(manifest).includes_view() == old(manifest).includes_view().difference(
                path_set(string_views(self.paths@)),
            ),
            string_views(r@) == not_found_paths(old(manifest).includes_view(), string_views(self.paths@)),
    {
        let ghost paths = string_views(self.paths@);
        let ghost start = manifest.includes_view();
        let mut missing: Vec<String> = Vec::new();
        let mut i: usize = 0;
        assert(start =~= start.difference(path_set(paths.take(0))));
        assert(paths.skip(0) =~= paths);
        while i < self.paths.len()
            invariant
                manifest.wf(),
                manifest.same_but_includes(old(manifest)),
                start == old(manifest).includes_view(),
                i <= self.paths@.len(),
                paths == string_views(self.paths@),
                manifest.includes_view() == start.difference(path_set(paths.take(i as int))),
                not_found_paths(start, paths) == string_views(missing@) + not_found_paths(
                    manifest.includes_view(),
                    paths.skip(i as int),
                ),
            decreases self.paths@.len() - i,
        {
            let path = &self.paths[i];
            let ghost rest = paths.skip(i as int);
            assert(rest[0] == path@);
            assert(paths[i as int] == path@);
            assert(rest.drop_first() =~= paths.skip(i + 1));
            let ghost before = manifest.includes_view();
            let ghost prev = missing@;
            if !manifest.remove_include(path.as_str()) {
                missing.push(path.clone());
                assert(string_views(missing@) =~= string_views(prev) + seq![path@]);
            }
            assert(path_set(paths.take(i + 1)) =~= path_set(paths.take(i as int)).insert(path@)) by {
                assert forall|p: Seq<char>| #[trigger] path_set(paths.take(i + 1)).contains(p) <==> path_set(paths.take(i as int)).insert(path@).contains(p) by {
                    if paths.take(i + 1).contains(p) {
                        let j = choose|j: int| 0 <= j < i + 1 && #[trigger] paths.take(i + 1)[j] == p;
                        if j < i {
                            assert(paths.take(i as int)[j] == p);
                        }
                    }
                    if paths.take(i as int).contains(p) {
                        let j = choose|j: int| 0 <= j < i && #[trigger] paths.take(i as int)[j] == p;
                        assert(paths.take(i + 1)[j] == p);
                    }
                    if p == path@ {
                        assert(paths.take(i + 1)[i as int] == p);
                    }
                }
            }
            assert(manifest.includes_view() =~= start.difference(path_set(paths.take(i + 1))));
            assert(manifest.includes_view() =~= before.remove(path@));
            i = i + 1;
        }
        assert(paths.take(i as int) =~= paths);
        assert(paths.skip(i as int) =~= Seq::<Seq<char>>::empty());
        assert(string_views(missing@) + Seq::<Seq<char>>::empty() =~= string_views(missing@));
        missing
    }
}

/// Changes the includes.
pub enum Include {
    Add(Add),
    Remove(Remove),
}

impl Include {
    /// Runs the change on `manifest`.
    pub fn run(&self, manifest: &mut Manifest) -> (r: IncludeOutcome)
        requires
            old(manifest).wf(),
        ensures
            final(manifest).wf(),
            final(manifest).same_but_includes(old(manifest)),
            match self {
                Include::Add(a) => match add_paths(old(manifest).includes_view(), string_views(a.paths@)) {
                    Ok(s) => r matches IncludeOutcome::Updated { not_found } && not_found@.len() == 0
                        && final(manifest).includes_view() == s,
                    Err((p, Some(q))) => r matches IncludeOutcome::AlreadyIncludedBy { path, by } && path@ == p
                        && by@ == q,
                    Err((p, None)) => r matches IncludeOutcome::AlreadyListed { path } && path@ == p,
                },
                Include::Remove(rm) => r matches IncludeOutcome::Updated { not_found }
                    && final(manifest).includes_view() == old(manifest).includes_view().difference(
                    path_set(string_views(rm.paths@)),
                ) && string_views(not_found@) == not_found_paths(
                    old(manifest).includes_view(),
                    string_views(rm.paths@),
                ),
            },
    {
        match self {
            Include::Add(a) => a.run(manifest),
            Include::Remove(rm) => {
                let not_found = rm.run(manifest);
                IncludeOutcome::Updated { not_found }
            },
        }
    }
}

/// Builds the pack archive.
pub struct PackParams {}

impl PackParams {
    /// The export manifest that goes into the archive; the caller adds the
    /// include paths of `manifest` under the overrides folder.
    pub fn run(&self, manifest: &Manifest) -> (r: ManifestJson)
        ensures
            r.describes(manifest),
    {
        ManifestJson::from_manifest(manifest)
    }
}

} // verus!
