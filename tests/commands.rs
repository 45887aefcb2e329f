use mcpacker::artifact::Mod;
use mcpacker::commands::{Add, AuthorParams, Include, IncludeOutcome, PackParams, Remove, SyncParams};
use mcpacker::instance::{BaseModLoader, InstalledAddon, InstalledFile, MinecraftInstance};
use mcpacker::integrity::VerifyError;
use mcpacker::json::FileJson;
use mcpacker::manifest::Manifest;
use mcpacker::plan::{DirEntry, Task};
use mcpacker::report::{aggregate, TaskError};
use mcpacker::version::{Identifier, Version};

fn base() -> Manifest {
    Manifest::new(
        "pack".to_string(),
        Version::new(1, 0, 0),
        "me".to_string(),
        Version::new(1, 16, 5),
        "forge".to_string(),
        Version::new(36, 1, 0),
    )
}

fn addon(project: u32, file: u32, name: &str) -> InstalledAddon {
    InstalledAddon {
        addon_id: project,
        installed_file: InstalledFile {
            id: file,
            file_name: name.to_string(),
            file_length: 100,
            package_fingerprint: 0xAAAA,
        },
    }
}

fn instance(loader: &str, addons: Option<Vec<InstalledAddon>>) -> MinecraftInstance {
    MinecraftInstance {
        name: "New Pack".to_string(),
        custom_author: "someone".to_string(),
        game_version: Version::new(1, 16, 5),
        base_mod_loader: BaseModLoader { name: loader.to_string() },
        manifest: None,
        installed_addons: addons,
    }
}

#[test]
fn author_is_replaced() {
    let mut m = base();
    AuthorParams { author: "other".to_string() }.run(&mut m);
    assert_eq!(m.author, "other");
    assert_eq!(m.name, "pack");
}

#[test]
fn mod_loader_is_split_at_last_dash() {
    let (name, v) = BaseModLoader { name: "forge-36.1.0".to_string() }
        .get_mod_loader()
        .unwrap();
    assert_eq!(name, "forge");
    assert_eq!((v.major, v.minor, v.patch), (36, 1, 0));
    let (name, v) = BaseModLoader { name: "fabric-loader-0.11.3".to_string() }
        .get_mod_loader()
        .unwrap();
    assert_eq!(name, "fabric-loader");
    assert_eq!((v.major, v.minor, v.patch), (0, 11, 3));
    assert!(BaseModLoader { name: "forge".to_string() }.get_mod_loader().is_none());
    assert!(BaseModLoader { name: "forge-latest".to_string() }.get_mod_loader().is_none());
}

#[test]
fn manifest_from_instance_keeps_first_of_each_identity() {
    let mi = instance(
        "forge-36.1.0",
        Some(vec![addon(2, 20, "b.jar"), addon(1, 10, "a.jar"), addon(2, 20, "dup.jar")]),
    );
    let m = Manifest::from_instance(&mi);
    assert_eq!(m.name, "New Pack");
    assert_eq!(m.author, "someone");
    assert_eq!(m.mod_loader, "forge");
    assert_eq!(m.mod_loader_version.major, 36);
    assert_eq!(m.version.minor, 16);
    let names: Vec<&str> = m.get_mods().unwrap().iter().map(|r| r.file_name.as_str()).collect();
    assert_eq!(names, vec!["a.jar", "b.jar"]);
    let none = Manifest::from_instance(&instance("vanilla", None));
    assert!(none.get_mods().is_none());
    assert_eq!(none.mod_loader, "");
    assert_eq!(none.mod_loader_version.major, 0);
}

#[test]
fn sync_command_updates_manifest_and_plans() {
    let mut m = base();
    m.add_mod(Mod {
        project_id: 9,
        file_id: 9,
        file_name: "old.jar".to_string(),
        fingerprint: 0,
        file_size: 0,
    });
    let declared = Manifest::from_instance(&instance("forge-36.2.0", Some(vec![addon(1, 10, "a.jar")])));
    let entries = vec![
        DirEntry { name: "old.jar".to_string(), is_dir: false },
        DirEntry { name: "a.jar".to_string(), is_dir: false },
    ];
    let tasks = SyncParams {}.run(&mut m, &declared, "mods", &entries);
    assert_eq!(m.name, "New Pack");
    assert_eq!(m.author, "me");
    assert_eq!(m.mod_loader_version.minor, 2);
    assert_eq!(m.get_mods().unwrap().len(), 1);
    assert_eq!(tasks.len(), 2);
    assert!(matches!(&tasks[0], Task::Remove { path } if path == "mods/old.jar"));
    assert!(matches!(&tasks[1], Task::Verify { path, module } if path == "mods/a.jar" && module.file_id == 10));
}

#[test]
fn include_add_and_remove_commands() {
    let mut m = base();
    let add = Include::Add(Add { paths: vec!["config/x.toml".to_string(), "config".to_string()] });
    assert!(matches!(add.run(&mut m), IncludeOutcome::Updated { .. }));
    assert_eq!(m.get_includes().unwrap(), &vec!["config".to_string()]);

    let again = Add { paths: vec!["config/y".to_string()] };
    match again.run(&mut m) {
        IncludeOutcome::AlreadyIncludedBy { path, by } => {
            assert_eq!(path, "config/y");
            assert_eq!(by, "config");
        }
        _ => panic!("expected the path to be covered"),
    }
    assert!(matches!(
        Add { paths: vec!["config".to_string()] }.run(&mut m),
        IncludeOutcome::AlreadyListed { .. }
    ));

    let rm = Include::Remove(Remove { paths: vec!["config".to_string(), "nope".to_string()] });
    match rm.run(&mut m) {
        IncludeOutcome::Updated { not_found } => assert_eq!(not_found, vec!["nope".to_string()]),
        _ => panic!("removal always updates"),
    }
    assert!(m.get_includes().is_none());
}

#[test]
fn pack_builds_export_manifest() {
    let mut m = base();
    m.add_mod(Mod { project_id: 2, file_id: 1, file_name: "b".to_string(), fingerprint: 0, file_size: 0 });
    m.add_mod(Mod { project_id: 1, file_id: 5, file_name: "a".to_string(), fingerprint: 0, file_size: 0 });
    let j = PackParams {}.run(&m);
    assert_eq!(j.manifest_type, "minecraftModpack");
    assert_eq!(j.manifest_version, 1);
    assert_eq!(j.overrides, "overrides");
    assert_eq!(j.minecraft.mod_loaders.len(), 1);
    assert_eq!(j.minecraft.mod_loaders[0].id, "forge-36.1.0");
    assert!(j.minecraft.mod_loaders[0].primary);
    let ids: Vec<(u32, u32, bool)> = j.files.iter().map(|f: &FileJson| (f.project_id, f.file_id, f.required)).collect();
    assert_eq!(ids, vec![(1, 5, true), (2, 1, true)]);
}

#[test]
fn versions_parse_and_print() {
    let v = Version::parse("1.2.3-beta.4+build.7").unwrap();
    assert_eq!((v.major, v.minor, v.patch), (1, 2, 3));
    assert!(matches!(&v.pre[0], Identifier::AlphaNumeric(s) if s == "beta"));
    assert!(matches!(&v.pre[1], Identifier::Numeric(4)));
    assert_eq!(v.to_text(), "1.2.3-beta.4+build.7");
    assert!(Version::parse("1.2").is_none());
    let mut w = Version::new(1, 2, 3);
    w.increment_minor();
    assert_eq!(w.to_text(), "1.3.0");
    w.increment_major();
    assert_eq!(w.to_text(), "2.0.0");
    w.increment_patch();
    assert_eq!(w.to_text(), "2.0.1");
}

#[test]
fn failures_are_aggregated_in_order() {
    assert!(aggregate(vec![Ok(()), Ok(())]).is_ok());
    assert!(aggregate(Vec::new()).is_ok());
    let outcomes = vec![
        Ok(()),
        Err(TaskError::Remove { path: "mods/x".to_string(), reason: "denied".to_string() }),
        Ok(()),
        Err(TaskError::Integrity(VerifyError::Length {
            file_name: "a.jar".to_string(),
            expected_len: 1,
            actual_len: 2,
        })),
    ];
    let e = aggregate(outcomes).unwrap_err();
    assert_eq!(e.failures.len(), 2);
    assert!(matches!(&e.failures[0], TaskError::Remove { path, .. } if path == "mods/x"));
    assert!(matches!(&e.failures[1], TaskError::Integrity(VerifyError::Length { .. })));
}

#[test]
fn export_files_stay_ordered_and_unique() {
    let mut j = PackParams {}.run(&base());
    assert!(j.files.is_empty());
    assert!(j.add_file(FileJson { project_id: 3, file_id: 1, required: true }));
    assert!(j.add_file(FileJson { project_id: 1, file_id: 9, required: true }));
    assert!(!j.add_file(FileJson { project_id: 3, file_id: 1, required: false }));
    let ids: Vec<(u32, u32)> = j.files.iter().map(|f| (f.project_id, f.file_id)).collect();
    assert_eq!(ids, vec![(1, 9), (3, 1)]);
}

#[test]
fn long_hyphen_chains_are_refused_without_panicking() {
    let mut pre = "1.0.0-a".to_string();
    for _ in 0..254 {
        pre.push_str("-a");
    }
    assert!(Version::parse(&pre).is_some());
    assert!(Version::parse(&format!("{}-a", pre)).is_none());
    let mut build = "1.0.0+a".to_string();
    for _ in 0..255 {
        build.push_str("-a");
    }
    assert!(Version::parse(&build).is_some());
    assert!(Version::parse(&format!("{}-a", build)).is_none());
}
