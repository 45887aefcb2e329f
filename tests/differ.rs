use mcpacker::artifact::Mod;
use mcpacker::compare::{compare, Side};

fn rec(project_id: u32, file_id: u32, name: &str) -> Mod {
    Mod {
        project_id,
        file_id,
        file_name: name.to_string(),
        fingerprint: 0,
        file_size: 0,
    }
}

fn ids(v: &[Mod]) -> Vec<(u32, u32)> {
    v.iter().map(|m| (m.project_id, m.file_id)).collect()
}

#[test]
fn diff_against_itself_is_empty() {
    let a = vec![rec(1, 10, "a.jar"), rec(2, 20, "b.jar"), rec(3, 5, "c.jar")];
    let mut c = compare(a.clone(), a);
    assert!(c.next().is_none());
    assert!(c.next().is_none());
}

#[test]
fn diff_of_empty_sets_is_empty() {
    let (add, rm) = compare(Vec::new(), Vec::new()).split();
    assert!(add.is_empty());
    assert!(rm.is_empty());
}

#[test]
fn diff_adds_and_removes_exactly_the_differences() {
    let a = vec![rec(1, 10, "a"), rec(1, 11, "b"), rec(3, 1, "c"), rec(5, 0, "d")];
    let b = vec![rec(1, 11, "b2"), rec(2, 0, "e"), rec(3, 1, "c"), rec(6, 6, "f")];
    let (add, rm) = compare(a, b).split();
    assert_eq!(ids(&add), vec![(2, 0), (6, 6)]);
    assert_eq!(ids(&rm), vec![(1, 10), (5, 0)]);
}

#[test]
fn diff_emits_in_merge_order() {
    let a = vec![rec(1, 1, "x"), rec(4, 4, "y")];
    let b = vec![rec(2, 2, "z")];
    let mut c = compare(a, b);
    let mut seen = Vec::new();
    while let Some(s) = c.next() {
        seen.push(match s {
            Side::Left(m) => ('L', m.project_id),
            Side::Right(m) => ('R', m.project_id),
        });
    }
    assert_eq!(seen, vec![('L', 1), ('R', 2), ('L', 4)]);
}

#[test]
fn diff_against_empty_side() {
    let a = vec![rec(1, 1, "x"), rec(2, 2, "y")];
    let (add, rm) = compare(Vec::new(), a.clone()).split();
    assert_eq!(ids(&add), vec![(1, 1), (2, 2)]);
    assert!(rm.is_empty());
    let (add, rm) = compare(a, Vec::new()).split();
    assert!(add.is_empty());
    assert_eq!(ids(&rm), vec![(1, 1), (2, 2)]);
}

#[test]
fn records_compare_by_identity_only() {
    let a = rec(1, 10, "a.jar");
    let b = rec(1, 10, "other.jar");
    assert!(a == b);
    assert!(rec(1, 11, "a") > rec(1, 10, "a"));
    assert!(rec(1, 99, "a") < rec(2, 0, "a"));
    assert_eq!(rec(2, 3, "a").identity(), (2u64 << 32) + 3);
}
