use mcpacker::bump::{apply_ver_flags, bump_version, flag_to_identifiers, parse_u64, BumpField, BumpFlags};
use mcpacker::version::{Identifier, Version};

fn flags(git: bool, pre: Option<&str>, meta: Option<&str>) -> BumpFlags {
    BumpFlags {
        git_tag: git,
        pre: pre.map(|s| s.to_string()),
        meta: meta.map(|s| s.to_string()),
    }
}

#[test]
fn u64_parsing_follows_std() {
    assert_eq!(parse_u64("0"), Some(0));
    assert_eq!(parse_u64("42"), Some(42));
    assert_eq!(parse_u64("+7"), Some(7));
    assert_eq!(parse_u64("18446744073709551615"), Some(u64::MAX));
    assert_eq!(parse_u64("18446744073709551616"), None);
    assert_eq!(parse_u64(""), None);
    assert_eq!(parse_u64("+"), None);
    assert_eq!(parse_u64("-1"), None);
    assert_eq!(parse_u64("1a"), None);
    for s in ["0", "42", "+7", "99999999999999999999", "x", ""] {
        assert_eq!(parse_u64(s), s.parse::<u64>().ok());
    }
}

#[test]
fn flags_split_into_identifiers() {
    let ids = flag_to_identifiers("alpha.1.x2");
    assert_eq!(ids.len(), 3);
    assert!(matches!(&ids[0], Identifier::AlphaNumeric(s) if s == "alpha"));
    assert!(matches!(&ids[1], Identifier::Numeric(1)));
    assert!(matches!(&ids[2], Identifier::AlphaNumeric(s) if s == "x2"));
    let ids = flag_to_identifiers("a..b");
    assert_eq!(ids.len(), 3);
    assert!(matches!(&ids[1], Identifier::AlphaNumeric(s) if s.is_empty()));
    assert_eq!(flag_to_identifiers("").len(), 1);
}

#[test]
fn ver_flags_replace_identifiers() {
    let mut v = Version::new(1, 2, 3);
    apply_ver_flags(&mut v, &flags(false, Some("rc.1"), Some("b5")));
    assert_eq!(v.to_text(), "1.2.3-rc.1+b5");
    apply_ver_flags(&mut v, &flags(false, None, None));
    assert_eq!(v.to_text(), "1.2.3");
}

#[test]
fn bump_fields() {
    let top = flags(true, None, None);
    let mut v = Version::new(1, 2, 3);
    assert!(bump_version(&mut v, None, &None, &top));
    assert_eq!(v.to_text(), "1.2.4");
    let git = bump_version(&mut v, None, &Some(BumpField::Minor { flags: flags(false, Some("beta"), None) }), &top);
    assert!(!git);
    assert_eq!(v.to_text(), "1.3.0-beta");
    bump_version(&mut v, None, &Some(BumpField::Major { flags: flags(false, None, None) }), &top);
    assert_eq!(v.to_text(), "2.0.0");
    bump_version(&mut v, None, &Some(BumpField::Patch { flags: flags(false, None, Some("m")) }), &top);
    assert_eq!(v.to_text(), "2.0.1+m");
    bump_version(&mut v, None, &Some(BumpField::Pre { flags: flags(false, Some("rc"), None) }), &top);
    assert_eq!(v.to_text(), "2.0.1-rc");
    bump_version(&mut v, Some(Version::new(9, 9, 9)), &None, &top);
    assert_eq!(v.to_text(), "9.9.9");
}
