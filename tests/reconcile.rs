use mcpacker::artifact::Mod;
use mcpacker::manifest::Manifest;
use mcpacker::plan::{effective_name, is_disabled_name, join_path, plan_sync, DirEntry, Task};
use mcpacker::version::Version;

fn rec(project_id: u32, file_id: u32, name: &str, size: u64, fingerprint: u32) -> Mod {
    Mod {
        project_id,
        file_id,
        file_name: name.to_string(),
        fingerprint,
        file_size: size,
    }
}

fn manifest_with(mods: Vec<Mod>) -> Manifest {
    let mut m = Manifest::new(
        "pack".to_string(),
        Version::new(1, 0, 0),
        "me".to_string(),
        Version::new(1, 16, 5),
        "forge".to_string(),
        Version::new(36, 1, 0),
    );
    for r in mods {
        m.add_mod(r);
    }
    m
}

fn file(name: &str) -> DirEntry {
    DirEntry { name: name.to_string(), is_dir: false }
}

fn summary(tasks: &[Task]) -> Vec<String> {
    tasks
        .iter()
        .map(|t| match t {
            Task::Verify { path, module } => format!("verify {} {}", path, module.file_name),
            Task::Remove { path } => format!("remove {}", path),
            Task::Fetch { module } => format!("fetch {}", module.file_name),
        })
        .collect()
}

#[test]
fn sync_adds_declared_record_and_plans_fetch_and_verify() {
    let mut persisted = manifest_with(vec![rec(1, 10, "a.jar", 100, 0xAAAA)]);
    let declared = manifest_with(vec![
        rec(1, 10, "a.jar", 100, 0xAAAA),
        rec(2, 20, "b.jar", 50, 0xBBBB),
    ]);
    let (add, rm) = persisted.sync_mods(&declared);
    let add = add.expect("one record added");
    assert_eq!(add.len(), 1);
    assert_eq!((add[0].project_id, add[0].file_id), (2, 20));
    assert!(rm.is_none());
    assert_eq!(persisted.get_mods().unwrap().len(), 2);

    let tasks = plan_sync(&persisted, "mods", &vec![file("a.jar")]);
    assert_eq!(summary(&tasks), vec!["verify mods/a.jar a.jar", "fetch b.jar"]);
}

#[test]
fn orphan_is_removed_unless_included() {
    let mut m = manifest_with(vec![rec(1, 10, "a.jar", 100, 0xAAAA)]);
    let entries = vec![file("a.jar"), file("c.jar")];
    let tasks = plan_sync(&m, "mods", &entries);
    assert_eq!(summary(&tasks), vec!["verify mods/a.jar a.jar", "remove mods/c.jar"]);

    assert!(m.add_include("mods/c.jar".to_string()));
    let tasks = plan_sync(&m, "mods", &entries);
    assert_eq!(summary(&tasks), vec!["verify mods/a.jar a.jar"]);
}

#[test]
fn disabled_file_satisfies_declared_record() {
    let m = manifest_with(vec![rec(1, 10, "a.jar", 100, 0xAAAA)]);
    let tasks = plan_sync(&m, "mods", &vec![file("a.jar.disabled")]);
    assert!(tasks.is_empty());
}

#[test]
fn directories_are_ignored_but_count_as_present() {
    let m = manifest_with(vec![rec(1, 10, "a.jar", 100, 0xAAAA)]);
    let entries = vec![DirEntry { name: "a.jar".to_string(), is_dir: true }, DirEntry {
        name: "sub".to_string(),
        is_dir: true,
    }];
    assert!(plan_sync(&m, "mods", &entries).is_empty());
}

#[test]
fn second_pass_only_verifies() {
    let m = manifest_with(vec![rec(1, 10, "a.jar", 1, 1), rec(2, 20, "b.jar", 1, 1)]);
    let first = plan_sync(&m, "mods", &vec![file("a.jar"), file("junk.jar")]);
    assert_eq!(
        summary(&first),
        vec!["verify mods/a.jar a.jar", "remove mods/junk.jar", "fetch b.jar"]
    );
    let second = plan_sync(&m, "mods", &vec![file("a.jar"), file("b.jar")]);
    assert_eq!(summary(&second), vec!["verify mods/a.jar a.jar", "verify mods/b.jar b.jar"]);
}

#[test]
fn resync_against_same_declared_set_is_empty() {
    let mut persisted = manifest_with(vec![rec(1, 10, "a.jar", 1, 1), rec(9, 9, "z.jar", 1, 1)]);
    let declared = manifest_with(vec![rec(1, 10, "a.jar", 1, 1), rec(2, 20, "b.jar", 1, 1)]);
    let (add, rm) = persisted.sync_mods(&declared);
    assert!(add.is_some());
    assert_eq!(rm.unwrap().len(), 1);
    let (add, rm) = persisted.sync_mods(&declared);
    assert!(add.is_none());
    assert!(rm.is_none());
}

#[test]
fn disable_marker_helpers() {
    assert!(is_disabled_name("a.jar.disabled"));
    assert!(!is_disabled_name("a.jar"));
    assert!(!is_disabled_name("disabled"));
    assert_eq!(effective_name("a.jar.disabled"), ("a.jar".to_string(), true));
    assert_eq!(effective_name("a.jar"), ("a.jar".to_string(), false));
    assert_eq!(join_path("mods", "x.jar"), "mods/x.jar");
}
