use mcpacker::artifact::Mod;
use mcpacker::manifest::Manifest;
use mcpacker::version::Version;

fn rec(project_id: u32, file_id: u32, name: &str) -> Mod {
    Mod {
        project_id,
        file_id,
        file_name: name.to_string(),
        fingerprint: 0,
        file_size: 0,
    }
}

fn empty() -> Manifest {
    Manifest::new(
        "pack".to_string(),
        Version::new(0, 1, 0),
        "me".to_string(),
        Version::new(1, 16, 5),
        "forge".to_string(),
        Version::new(36, 1, 0),
    )
}

#[test]
fn add_and_remove_mods_keep_order() {
    let mut m = empty();
    assert!(m.get_mods().is_none());
    assert!(m.add_mod(rec(3, 1, "c")));
    assert!(m.add_mod(rec(1, 5, "a")));
    assert!(m.add_mod(rec(2, 0, "b")));
    assert!(!m.add_mod(rec(2, 0, "dup")));
    let names: Vec<&str> = m.get_mods().unwrap().iter().map(|r| r.file_name.as_str()).collect();
    assert_eq!(names, vec!["a", "b", "c"]);
    assert!(m.remove_mod(&rec(2, 0, "whatever")));
    assert!(!m.remove_mod(&rec(2, 0, "whatever")));
    assert_eq!(m.get_mods().unwrap().len(), 2);
    assert!(m.remove_mod(&rec(1, 5, "a")));
    assert!(m.remove_mod(&rec(3, 1, "c")));
    assert!(m.get_mods().is_none());
}

#[test]
fn lookup_by_file_name() {
    let mut m = empty();
    m.add_mod(rec(1, 1, "x.jar"));
    m.add_mod(rec(2, 2, "y.jar"));
    assert_eq!(m.get_mod_by_filename("y.jar").unwrap().project_id, 2);
    assert!(m.get_mod_by_filename("z.jar").is_none());
}

#[test]
fn includes_add_remove_and_contain() {
    let mut m = empty();
    assert!(m.get_includes().is_none());
    assert!(m.add_include("config".to_string()));
    assert!(!m.add_include("config".to_string()));
    assert!(m.include_exists("config"));
    assert!(!m.include_exists("conf"));
    assert_eq!(m.include_contained("config/a/b.toml"), Some("config".to_string()));
    assert_eq!(m.include_contained("config"), None);
    assert_eq!(m.include_contained("other/x"), None);
    assert!(m.remove_include("config"));
    assert!(!m.remove_include("config"));
    assert!(m.get_includes().is_none());
}

#[test]
fn includes_clean_drops_covered_paths() {
    let mut m = empty();
    m.add_include("config/a/b.toml".to_string());
    m.add_include("scripts".to_string());
    m.add_include("config".to_string());
    m.add_include("config/a".to_string());
    m.includes_clean();
    let mut left = m.get_includes().unwrap().clone();
    left.sort();
    assert_eq!(left, vec!["config".to_string(), "scripts".to_string()]);
}

#[test]
fn default_manifest_is_empty() {
    let m = Manifest::default();
    assert_eq!(m.name, "");
    assert_eq!(m.version.to_text(), "0.0.0");
    assert!(m.get_mods().is_none());
    assert!(m.get_includes().is_none());
}
