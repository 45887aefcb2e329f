//! The sync planner: classifies every entry of the artifact directory and
//! every declared record into the tasks one reconciliation pass performs.

use crate::artifact::{Mod, ModView};
use crate::manifest::{Manifest, first_named, has_name};
use vstd::prelude::*;

verus! {

/// Suffix that marks a present but inactive file.
pub open spec fn disabled_marker() -> Seq<char> {
    seq!['.', 'd', 'i', 's', 'a', 'b', 'l', 'e', 'd']
}

/// The name carries the disable marker.
pub open spec fn is_disabled(name: Seq<char>) -> bool {
    name.len() >= disabled_marker().len() && name.skip(name.len() - disabled_marker().len())
        == disabled_marker()
}

/// The name with the disable marker taken off, and whether it had one.
pub open spec fn effective_spec(name: Seq<char>) -> (Seq<char>, bool) {
    if is_disabled(name) {
        (name.take(name.len() - disabled_marker().len()), true)
    } else {
        (name, false)
    }
}

/// The path of the entry `name` of directory `dir`.
pub open spec fn entry_path(dir: Seq<char>, name: Seq<char>) -> Seq<char> {
    dir + seq!['/'] + name
}

/// One entry of the artifact directory, as a scan reports it.
pub struct DirEntry {
    pub name: String,
    pub is_dir: bool,
}

/// The view of a [`DirEntry`].
pub struct EntryView {
    pub name: Seq<char>,
    pub is_dir: bool,
}

impl View for DirEntry {
    type V = EntryView;

    open spec fn view(&self) -> EntryView {
        EntryView { name: self.name@, is_dir: self.is_dir }
    }
}

/// The views of a sequence of entries.
pub open spec fn entry_views(s: Seq<DirEntry>) -> Seq<EntryView> {
    s.map_values(|e: DirEntry| e@)
}

/// One unit of work of a reconciliation pass.
pub enum Task {
    /// Check the file at `path` against `module`.
    Verify { path: String, module: Mod },
    /// Delete the file at `path`.
    Remove { path: String },
    /// Download `module` into the directory, then check it.
    Fetch { module: Mod },
}

/// The view of a [`Task`].
pub enum TaskView {
    Verify(Seq<char>, ModView),
    Remove(Seq<char>),
    Fetch(ModView),
}

impl View for Task {
    type V = TaskView;

    open spec fn view(&self) -> TaskView {
        match self {
            Task::Verify { path, module } => TaskView::Verify(path@, module@),
            Task::Remove { path } => TaskView::Remove(path@),
            Task::Fetch { module } => TaskView::Fetch(module@),
        }
    }
}

/// The views of a sequence of tasks.
pub open spec fn task_views(s: Seq<Task>) -> Seq<TaskView> {
    s.map_values(|t: Task| t@)
}

/// What a pass does with one directory entry: directories and disabled files
/// are left alone; a file named as a declared record is verified; any other
/// file is removed unless its path is an include.
pub open spec fn entry_task(
    mods: Seq<ModView>,
    includes: Set<Seq<char>>,
    dir: Seq<char>,
    e: EntryView,
) -> Option<TaskView> {
    if e.is_dir || is_disabled(e.name) {
        None
    } else {
        match first_named(mods, e.name) {
            Some(m) => Some(TaskView::Verify(entry_path(dir, e.name), m)),
            None => if includes.contains(entry_path(dir, e.name)) {
                None
            } else {
                Some(TaskView::Remove(entry_path(dir, e.name)))
            },
        }
    }
}

/// The tasks for the entries, in scan order.
pub open spec fn scan_tasks(
    mods: Seq<ModView>,
    includes: Set<Seq<char>>,
    dir: Seq<char>,
    entries: Seq<EntryView>,
) -> Seq<TaskView>
    decreases entries.len(),
{
    if entries.len() == 0 {
        Seq::empty()
    } else {
        let rest = scan_tasks(mods, includes, dir, entries.drop_first());
        match entry_task(mods, includes, dir, entries[0]) {
            Some(t) => seq![t] + rest,
            None => rest,
        }
    }
}

/// Some entry is named `name`.
pub open spec fn present(entries: Seq<EntryView>, name: Seq<char>) -> bool {
    exists|i: int| 0 <= i < entries.len() && (#[trigger] entries[i]).name == name
}

/// The record is on disk neither under its name nor disabled.
pub open spec fn missing(entries: Seq<EntryView>, m: ModView) -> bool {
    !present(entries, m.file_name) && !present(entries, m.file_name + disabled_marker())
}

/// A fetch for every declared record that is missing, in declared order.
pub open spec fn fetch_tasks(mods: Seq<ModView>, entries: Seq<EntryView>) -> Seq<TaskView>
    decreases mods.len(),
{
    if mods.len() == 0 {
        Seq::empty()
    } else {
        let rest = fetch_tasks(mods.drop_first(), entries);
        if missing(entries, mods[0]) {
            seq![TaskView::Fetch(mods[0])] + rest
        } else {
            rest
        }
    }
}

/// Every task of one reconciliation pass: the scan's, then the fetches.
pub open spec fn plan_spec(
    mods: Seq<ModView>,
    includes: Set<Seq<char>>,
    dir: Seq<char>,
    entries: Seq<EntryView>,
) -> Seq<TaskView> {
    scan_tasks(mods, includes, dir, entries) + fetch_tasks(mods, entries)
}

/// The entry is one a pass deletes.
pub open spec fn is_removed(mods: Seq<ModView>, includes: Set<Seq<char>>, dir: Seq<char>, e: EntryView) -> bool {
    entry_task(mods, includes, dir, e) matches Some(TaskView::Remove(_))
}

/// The entries a pass leaves in place, in scan order.
pub open spec fn survivors(
    mods: Seq<ModView>,
    includes: Set<Seq<char>>,
    dir: Seq<char>,
    entries: Seq<EntryView>,
) -> Seq<EntryView>
    decreases entries.len(),
{
    if entries.len() == 0 {
        Seq::empty()
    } else {
        let rest = survivors(mods, includes, dir, entries.drop_first());
        if is_removed(mods, includes, dir, entries[0]) {
            rest
        } else {
            seq![entries[0]] + rest
        }
    }
}

/// The files a pass downloads, in declared order.
pub open spec fn fetched_entries(mods: Seq<ModView>, entries: Seq<EntryView>) -> Seq<EntryView>
    decreases mods.len(),
{
    if mods.len() == 0 {
        Seq::empty()
    } else {
        let rest = fetched_entries(mods.drop_first(), entries);
        if missing(entries, mods[0]) {
            seq![EntryView { name: mods[0].file_name, is_dir: false }] + rest
        } else {
            rest
        }
    }
}

/// The directory after a pass whose tasks all succeeded.
pub open spec fn after_pass(
    mods: Seq<ModView>,
    includes: Set<Seq<char>>,
    dir: Seq<char>,
    entries: Seq<EntryView>,
) -> Seq<EntryView> {
    survivors(mods, includes, dir, entries) + fetched_entries(mods, entries)
}

proof fn lemma_first_named_found(s: Seq<ModView>, name: Seq<char>)
    requires
        has_name(s, name),
    ensures
        first_named(s, name) is Some,
    decreases s.len(),
{
    if s[0].file_name != name {
        let i = choose|i: int| 0 <= i < s.len() && (#[trigger] s[i]).file_name == name;
        assert(s.drop_first()[i - 1] == s[i]);
        lemma_first_named_found(s.drop_first(), name);
    }
}

/// Some entry of `entries` gives the task `t`.
pub open spec fn from_entry(
    mods: Seq<ModView>,
    includes: Set<Seq<char>>,
    dir: Seq<char>,
    entries: Seq<EntryView>,
    t: TaskView,
) -> bool {
    exists|i: int| 0 <= i < entries.len() && entry_task(mods, includes, dir, #[trigger] entries[i]) == Some(t)
}

/// `t` fetches a record of `mods` that is missing from `entries`.
pub open spec fn fetch_of_missing(mods: Seq<ModView>, entries: Seq<EntryView>, t: TaskView) -> bool {
    exists|i: int| 0 <= i < mods.len() && missing(entries, #[trigger] mods[i]) && t == TaskView::Fetch(mods[i])
}

proof fn lemma_scan_members(
    mods: Seq<ModView>,
    includes: Set<Seq<char>>,
    dir: Seq<char>,
    entries: Seq<EntryView>,
)
    ensures
        forall|k: int|
            0 <= k < scan_tasks(mods, includes, dir, entries).len() ==> from_entry(
                mods,
                includes,
                dir,
                entries,
                #[trigger] scan_tasks(mods, includes, dir, entries)[k],
            ),
    decreases entries.len(),
{
    if entries.len() > 0 {
        let t = entries.drop_first();
        lemma_scan_members(mods, includes, dir, t);
        let sc = scan_tasks(mods, includes, dir, entries);
        let rest = scan_tasks(mods, includes, dir, t);
        assert forall|k: int| 0 <= k < sc.len() implies from_entry(mods, includes, dir, entries, #[trigger] sc[k]) by {
            let off: int = if entry_task(mods, includes, dir, entries[0]) is Some { 1 } else { 0 };
            if k < off {
                assert(entry_task(mods, includes, dir, entries[0]) == Some(sc[k]));
            } else {
                assert(sc[k] == rest[k - off]);
                let i = choose|i: int| 0 <= i < t.len() && entry_task(mods, includes, dir, #[trigger] t[i]) == Some(rest[k - off]);
                assert(entries[i + 1] == t[i]);
            }
        }
    }
}

proof fn lemma_fetch_members(mods: Seq<ModView>, entries: Seq<EntryView>)
    ensures
        forall|k: int|
            0 <= k < fetch_tasks(mods, entries).len() ==> fetch_of_missing(
                mods,
                entries,
                #[trigger] fetch_tasks(mods, entries)[k],
            ),
    decreases mods.len(),
{
    if mods.len() > 0 {
        let t = mods.drop_first();
        lemma_fetch_members(t, entries);
        let f = fetch_tasks(mods, entries);
        let rest = fetch_tasks(t, entries);
        assert forall|k: int| 0 <= k < f.len() implies fetch_of_missing(mods, entries, #[trigger] f[k]) by {
            let off: int = if missing(entries, mods[0]) { 1 } else { 0 };
            if k < off {
                assert(missing(entries, mods[0]) && f[k] == TaskView::Fetch(mods[0]));
            } else {
                assert(f[k] == rest[k - off]);
                let i = choose|i: int| 0 <= i < t.len() && missing(entries, #[trigger] t[i]) && rest[k - off] == TaskView::Fetch(t[i]);
                assert(mods[i + 1] == t[i]);
            }
        }
    }
}

proof fn lemma_survivors(
    mods: Seq<ModView>,
    includes: Set<Seq<char>>,
    dir: Seq<char>,
    entries: Seq<EntryView>,
)
    ensures
        forall|x: EntryView| #[trigger] survivors(mods, includes, dir, entries).contains(x) <==> entries.contains(x)
            && !is_removed(mods, includes, dir, x),
    decreases entries.len(),
{
    if entries.len() > 0 {
        let t = entries.drop_first();
        lemma_survivors(mods, includes, dir, t);
        let sv = survivors(mods, includes, dir, entries);
        let rest = survivors(mods, includes, dir, t);
        assert forall|x: EntryView| #[trigger] sv.contains(x) <==> entries.contains(x) && !is_removed(mods, includes, dir, x) by {
            if sv.contains(x) {
                let k = choose|k: int| 0 <= k < sv.len() && sv[k] == x;
                if !is_removed(mods, includes, dir, entries[0]) && k == 0 {
                    assert(entries[0] == x);
                } else {
                    let off: int = if is_removed(mods, includes, dir, entries[0]) { 0 } else { 1 };
                    assert(rest[k - off] == x);
                    assert(rest.contains(x));
                    let i = choose|i: int| 0 <= i < t.len() && t[i] == x;
                    assert(entries[i + 1] == x);
                }
            }
            if entries.contains(x) && !is_removed(mods, includes, dir, x) {
                let i = choose|i: int| 0 <= i < entries.len() && entries[i] == x;
                if i == 0 {
                    assert(sv[0] == x);
                } else {
                    assert(t[i - 1] == x);
                    assert(rest.contains(x));
                    let k = choose|k: int| 0 <= k < rest.len() && rest[k] == x;
                    let off: int = if is_removed(mods, includes, dir, entries[0]) { 0 } else { 1 };
                    assert(sv[k + off] == x);
                }
            }
        }
    }
}

proof fn lemma_fetched_entries(mods: Seq<ModView>, entries: Seq<EntryView>)
    ensures
        forall|x: EntryView| #[trigger] fetched_entries(mods, entries).contains(x) ==> !x.is_dir && has_name(mods, x.name),
        forall|i: int| 0 <= i < mods.len() && missing(entries, #[trigger] mods[i]) ==> fetched_entries(mods, entries).contains(
            EntryView { name: mods[i].file_name, is_dir: false },
        ),
    decreases mods.len(),
{
    if mods.len() > 0 {
        let t = mods.drop_first();
        lemma_fetched_entries(t, entries);
        let fe = fetched_entries(mods, entries);
        let rest = fetched_entries(t, entries);
        let off: int = if missing(entries, mods[0]) { 1 } else { 0 };
        assert forall|x: EntryView| #[trigger] fe.contains(x) implies !x.is_dir && has_name(mods, x.name) by {
            let k = choose|k: int| 0 <= k < fe.len() && fe[k] == x;
            if k < off {
                assert(mods[0].file_name == x.name);
            } else {
                assert(rest[k - off] == x);
                assert(rest.contains(x));
                let i = choose|i: int| 0 <= i < t.len() && (#[trigger] t[i]).file_name == x.name;
                assert(mods[i + 1] == t[i]);
            }
        }
        assert forall|i: int| 0 <= i < mods.len() && missing(entries, #[trigger] mods[i]) implies fe.contains(
            EntryView { name: mods[i].file_name, is_dir: false },
        ) by {
            let x = EntryView { name: mods[i].file_name, is_dir: false };
            if i == 0 {
                assert(fe[0] == x);
            } else {
                assert(t[i - 1] == mods[i]);
                assert(rest.contains(x));
                let k = choose|k: int| 0 <= k < rest.len() && rest[k] == x;
                assert(fe[k + off] == x);
            }
        }
    }
}

/// Reconciliation is idempotent: once a pass over `entries` has run and every
/// task of it succeeded, a second pass against the same declared records and
/// includes, over a listing `later` of the directory as the first pass left it
/// (in any order), verifies only; it fetches and removes nothing.
pub proof fn lemma_second_pass_only_verifies(
    mods: Seq<ModView>,
    includes: Set<Seq<char>>,
    dir: Seq<char>,
    entries: Seq<EntryView>,
    later: Seq<EntryView>,
)
    requires
        forall|x: EntryView| later.contains(x) <==> after_pass(mods, includes, dir, entries).contains(x),
    ensures
        forall|k: int|
            0 <= k < plan_spec(mods, includes, dir, later).len() ==> #[trigger] plan_spec(
                mods,
                includes,
                dir,
                later,
            )[k] is Verify,
{
    let after = after_pass(mods, includes, dir, entries);
    let sv = survivors(mods, includes, dir, entries);
    let fe = fetched_entries(mods, entries);
    let p = plan_spec(mods, includes, dir, later);
    let sc = scan_tasks(mods, includes, dir, later);
    let ft = fetch_tasks(mods, later);
    lemma_scan_members(mods, includes, dir, later);
    lemma_fetch_members(mods, later);
    lemma_survivors(mods, includes, dir, entries);
    lemma_fetched_entries(mods, entries);
    assert forall|k: int| 0 <= k < p.len() implies #[trigger] p[k] is Verify by {
        if k < sc.len() {
            assert(p[k] == sc[k]);
            assert(from_entry(mods, includes, dir, later, sc[k]));
            let i = choose|i: int| 0 <= i < later.len() && entry_task(mods, includes, dir, #[trigger] later[i]) == Some(sc[k]);
            let e = later[i];
            assert(later.contains(e));
            assert(after.contains(e));
            let w = choose|w: int| 0 <= w < after.len() && after[w] == e;
            if w < sv.len() {
                assert(sv[w] == e);
                assert(sv.contains(e));
            } else {
                assert(fe[w - sv.len()] == e);
                assert(fe.contains(e));
                if !is_disabled(e.name) {
                    lemma_first_named_found(mods, e.name);
                }
            }
        } else {
            assert(p[k] == ft[k - sc.len()]);
            assert(fetch_of_missing(mods, later, ft[k - sc.len()]));
            let i = choose|i: int| 0 <= i < mods.len() && missing(later, #[trigger] mods[i]) && ft[k - sc.len()] == TaskView::Fetch(mods[i]);
            let m = mods[i];
            let e = if missing(entries, m) {
                let x = EntryView { name: m.file_name, is_dir: false };
                assert(fe.contains(x));
                let q = choose|q: int| 0 <= q < fe.len() && fe[q] == x;
                assert(after[sv.len() + q] == x);
                x
            } else if present(entries, m.file_name) {
                let q = choose|q: int| 0 <= q < entries.len() && (#[trigger] entries[q]).name == m.file_name;
                let e = entries[q];
                assert(has_name(mods, e.name));
                lemma_first_named_found(mods, e.name);
                assert(!is_removed(mods, includes, dir, e));
                assert(entries.contains(e));
                assert(sv.contains(e));
                let w = choose|w: int| 0 <= w < sv.len() && sv[w] == e;
                assert(after[w] == e);
                e
            } else {
                let q = choose|q: int| 0 <= q < entries.len() && (#[trigger] entries[q]).name == m.file_name + disabled_marker();
                let e = entries[q];
                assert(e.name.skip(e.name.len() - disabled_marker().len()) =~= disabled_marker());
                assert(!is_removed(mods, includes, dir, e));
                assert(entries.contains(e));
                assert(sv.contains(e));
                let w = choose|w: int| 0 <= w < sv.len() && sv[w] == e;
                assert(after[w] == e);
                e
            };
            assert(after.contains(e));
            assert(later.contains(e));
            let j = choose|j: int| 0 <= j < later.len() && later[j] == e;
            assert(later[j].name == e.name);
        }
    }
}

/// Whether `name` ends with the disable marker.
pub fn is_disabled_name(name: &str) -> (r: bool)
    ensures
        r == is_disabled(name@),
{
    let marker = ".disabled";
    proof {
        reveal_strlit(".disabled");
    }
    assert(marker@ == disabled_marker());
    let n = name.unicode_len();
    let k = marker.unicode_len();
    if n < k {
        return false;
    }
    let mut i: usize = 0;
    while i < k
        invariant
            n == name@.len(),
            k == marker@.len(),
            marker@ == disabled_marker(),
            k <= n,
            i <= k,
            forall|j: int| 0 <= j < i ==> name@[n - k + j] == marker@[j],
        decreases k - i,
    {
        if name.get_char(n - k + i) != marker.get_char(i) {
            assert(name@.skip(n - k)[i as int] != disabled_marker()[i as int]);
            return false;
        }
        i = i + 1;
    }
    assert(name@.skip(n - k) =~= disabled_marker());
    true
}

/// The file name with the disable marker taken off, and whether it had one.
pub fn effective_name(name: &str) -> (r: (String, bool))
    ensures
        (r.0@, r.1) == effective_spec(name@),
{
    if is_disabled_name(name) {
        let n = name.unicode_len();
        let base = name.substring_char(0, n - 9);
        (String::from_str(base), true)
    } else {
        (String::from_str(name), false)
    }
}

/// The path of the entry `name` of directory `dir`.
pub fn join_path(dir: &str, name: &str) -> (r: String)
    ensures
        r@ == entry_path(dir@, name@),
{
    let mut p = String::from_str(dir);
    let sep = "/";
    proof {
        reveal_strlit("/");
    }
    p.append(sep);
    p.append(name);
    p
}

/// Whether some entry is named `name`.
pub fn entry_present(entries: &Vec<DirEntry>, name: &String) -> (r: bool)
    ensures
        r == present(entry_views(entries@), name@),
{
    let ghost ev = entry_views(entries@);
    let mut i: usize = 0;
    while i < entries.len()
        invariant
            i <= entries@.len(),
            ev == entry_views(entries@),
            forall|j: int| 0 <= j < i ==> (#[trigger] ev[j]).name != name@,
        decreases entries@.len() - i,
    {
        if entries[i].name == *name {
            assert(ev[i as int].name == name@);
            return true;
        }
        i = i + 1;
    }
    false
}

/// The task for one directory entry, if any.
pub fn classify_entry(manifest: &Manifest, dir: &str, e: &DirEntry) -> (r: Option<Task>)
    ensures
        r matches Some(t) ==> entry_task(manifest.mods_view(), manifest.includes_view(), dir@, e@)
            == Some(t@),
        r is None ==> entry_task(manifest.mods_view(), manifest.includes_view(), dir@, e@) is None,
{
    if e.is_dir {
        return None;
    }
    let (_, disabled) = effective_name(e.name.as_str());
    if disabled {
        return None;
    }
    let path = join_path(dir, e.name.as_str());
    match manifest.get_mod_by_filename(e.name.as_str()) {
        Some(m) => Some(Task::Verify { path, module: m.clone() }),
        None => {
            if manifest.include_exists(path.as_str()) {
                None
            } else {
                Some(Task::Remove { path })
            }
        },
    }
}

/// Every task of one reconciliation pass over the directory `dir`, whose
/// entries are `entries`: one per entry that needs verifying or removing, in
/// scan order, then one fetch per declared record found under neither of its
/// names, in declared order.
pub fn plan_sync(manifest: &Manifest, dir: &str, entries: &Vec<DirEntry>) -> (r: Vec<Task>)
    ensures
        task_views(r@) == plan_spec(
            manifest.mods_view(),
            manifest.includes_view(),
            dir@,
            entry_views(entries@),
        ),
{
    let ghost mods = manifest.mods_view();
    let ghost incs = manifest.includes_view();
    let ghost ev = entry_views(entries@);
    let mut tasks: Vec<Task> = Vec::new();
    let mut i: usize = 0;
    assert(ev.skip(0) =~= ev);
    assert(task_views(tasks@) + scan_tasks(mods, incs, dir@, ev) =~= scan_tasks(mods, incs, dir@, ev));
    while i < entries.len()
        invariant
            i <= entries@.len(),
            mods == manifest.mods_view(),
            incs == manifest.includes_view(),
            ev == entry_views(entries@),
            scan_tasks(mods, incs, dir@, ev) == task_views(tasks@) + scan_tasks(
                mods,
                incs,
                dir@,
                ev.skip(i as int),
            ),
        decreases entries@.len() - i,
    {
        assert(ev.skip(i as int)[0] == entries@[i as int]@);
        assert(ev.skip(i as int).drop_first() =~= ev.skip(i + 1));
        let ghost prev = tasks@;
        match classify_entry(manifest, dir, &entries[i]) {
            Some(t) => {
                tasks.push(t);
                assert(task_views(tasks@) =~= task_views(prev) + seq![tasks@.last()@]);
            },
            None => {},
        }
        i = i + 1;
    }
    assert(ev.skip(i as int) =~= Seq::<EntryView>::empty());
    assert(task_views(tasks@) + Seq::<TaskView>::empty() =~= task_views(tasks@));
    let ghost scanned = tasks@;
    let mut j: usize = 0;
    assert(mods.skip(0) =~= mods);
    assert(tasks@.skip(scanned.len() as int) =~= Seq::<Task>::empty());
    assert(task_views(tasks@.skip(scanned.len() as int)) + fetch_tasks(mods, ev) =~= fetch_tasks(mods, ev));
    assert(tasks@.take(scanned.len() as int) =~= scanned);
    let marker = ".disabled";
    proof {
        reveal_strlit(".disabled");
    }
    while j < manifest.mods.len()
        invariant
            j <= manifest.mods@.len(),
            mods == manifest.mods_view(),
            ev == entry_views(entries@),
            marker@ == disabled_marker(),
            task_views(scanned) == scan_tasks(mods, incs, dir@, ev),
            tasks@.len() >= scanned.len(),
            tasks@.take(scanned.len() as int) == scanned,
            fetch_tasks(mods, ev) == task_views(tasks@.skip(scanned.len() as int)) + fetch_tasks(
                mods.skip(j as int),
                ev,
            ),
        decreases manifest.mods@.len() - j,
    {
        let m = &manifest.mods[j];
        assert(mods.skip(j as int)[0] == m@);
        assert(mods.skip(j as int).drop_first() =~= mods.skip(j + 1));
        let ghost prev = tasks@;
        let mut disabled_name = m.file_name.clone();
        disabled_name.append(marker);
        if !entry_present(entries, &m.file_name) && !entry_present(entries, &disabled_name) {
            tasks.push(Task::Fetch { module: m.clone() });
            assert(tasks@.skip(scanned.len() as int) =~= prev.skip(scanned.len() as int).push(
                tasks@.last(),
            ));
            assert(tasks@.take(scanned.len() as int) =~= prev.take(scanned.len() as int));
            assert(task_views(tasks@.skip(scanned.len() as int)) =~= task_views(
                prev.skip(scanned.len() as int),
            ) + seq![TaskView::Fetch(m@)]);
        }
        j = j + 1;
    }
    assert(mods.skip(j as int) =~= Seq::<ModView>::empty());
    assert(task_views(tasks@) =~= task_views(tasks@.take(scanned.len() as int)) + task_views(
        tasks@.skip(scanned.len() as int),
    ));
    tasks
}

} // verus!
