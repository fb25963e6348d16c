use skillstore::storage::{
    join_path, validate_skill_name, RemoveAction, SkillNameErrorKind, SkillProbe, SkillStorage,
    StorageError, StorageProbe,
};
use std::path::PathBuf;

fn kind_of(name: &str) -> Option<SkillNameErrorKind> {
    validate_skill_name(name).err().map(|e| e.kind)
}

#[test]
fn validate_skill_name_rejects_path_traversal() {
    assert!(validate_skill_name("..").is_err());
    assert!(validate_skill_name("../demo").is_err());
    assert!(validate_skill_name("foo\\bar").is_err());
}

#[test]
fn validate_skill_name_accepts_plain_names() {
    assert!(validate_skill_name("demo").is_ok());
    assert!(validate_skill_name("my-alias").is_ok());
    assert!(validate_skill_name("a.b_c").is_ok());
    assert!(validate_skill_name("...").is_ok());
}

#[test]
fn validate_skill_name_reports_each_rule() {
    assert_eq!(kind_of(""), Some(SkillNameErrorKind::Empty));
    assert_eq!(kind_of(" \t\n"), Some(SkillNameErrorKind::Empty));
    assert_eq!(kind_of(" demo"), Some(SkillNameErrorKind::Untrimmed));
    assert_eq!(kind_of("demo\u{3000}"), Some(SkillNameErrorKind::Untrimmed));
    assert_eq!(kind_of("."), Some(SkillNameErrorKind::Reserved));
    assert_eq!(kind_of(".."), Some(SkillNameErrorKind::Reserved));
    assert_eq!(kind_of("a/b"), Some(SkillNameErrorKind::PathSeparator));
    assert_eq!(kind_of("/"), Some(SkillNameErrorKind::PathSeparator));
    assert_eq!(kind_of("a\\b"), Some(SkillNameErrorKind::PathSeparator));
    assert_eq!(kind_of("a b"), Some(SkillNameErrorKind::Whitespace));
    assert_eq!(kind_of("a\u{a0}b"), Some(SkillNameErrorKind::Whitespace));
}

#[test]
fn validate_skill_name_messages() {
    let m = |n: &str| validate_skill_name(n).unwrap_err().message();
    assert_eq!(m("  "), "skill name cannot be empty");
    assert_eq!(m(" x"), "skill name must not have leading or trailing whitespace:  x");
    assert_eq!(m(".."), "invalid skill name: ..");
    assert_eq!(m("../demo"), "skill name must not contain path separators: ../demo");
    assert_eq!(m("a b"), "skill name must not contain whitespace: a b");
}

#[test]
fn join_path_matches_pathbuf_join() {
    let cases = [
        ("/tmp/skills", "demo"),
        ("/tmp/skills/", "demo"),
        ("", "demo"),
        ("base", ""),
        ("base", "/abs/path"),
        ("a/b", "c/d"),
        ("a", ".skillhub/info.json"),
        ("ü", "ß"),
    ];
    for (base, p) in cases {
        let expected = PathBuf::from(base).join(p);
        assert_eq!(join_path(base, p), expected.to_str().unwrap(), "{base} + {p}");
    }
}

#[test]
fn skill_path_is_below_base() {
    let storage = SkillStorage::new("/tmp/skills".to_string());
    assert_eq!(storage.skill_path("demo"), "/tmp/skills/demo");
    assert_eq!(
        storage.marker_paths("demo"),
        vec![
            "/tmp/skills/demo/SKILL.md".to_string(),
            "/tmp/skills/demo/skill.md".to_string(),
            "/tmp/skills/demo/.skillhub/info.json".to_string(),
        ]
    );
}

#[test]
fn installed_needs_a_marker_file() {
    let storage = SkillStorage::new("/s".to_string());
    assert!(!storage.installed("demo", &vec![]));
    assert!(!storage.installed("demo", &vec!["/s/demo/README.md".to_string()]));
    assert!(storage.installed("demo", &vec!["/s/demo/SKILL.md".to_string()]));
    assert!(storage.installed("demo", &vec!["/s/demo/skill.md".to_string()]));
    assert!(storage.installed("demo", &vec!["/s/demo/.skillhub/info.json".to_string()]));
    assert!(!storage.installed("demo", &vec!["/s/other/SKILL.md".to_string()]));
}

fn probe(exists: bool, file_like: bool, markers: &[&str]) -> SkillProbe {
    SkillProbe {
        exists,
        file_like,
        existing_markers: markers.iter().map(|m| m.to_string()).collect(),
    }
}

#[test]
fn remove_preserves_unmanaged_directory() {
    let storage = SkillStorage::new("/tmp/x/skills".to_string());
    let p = probe(true, false, &[]);
    assert!(matches!(storage.remove("notes", &p), Ok(RemoveAction::Keep)));
}

#[test]
fn remove_preserves_unmanaged_file() {
    let storage = SkillStorage::new("/tmp/x/skills".to_string());
    let p = probe(true, true, &[]);
    assert!(matches!(storage.remove("notes", &p), Ok(RemoveAction::Keep)));
}

#[test]
fn remove_deletes_manual_skill() {
    let storage = SkillStorage::new("/tmp/x/skills".to_string());
    let p = probe(true, false, &["/tmp/x/skills/demo/SKILL.md"]);
    match storage.remove("demo", &p) {
        Ok(RemoveAction::RemoveDir(path)) => assert_eq!(path, "/tmp/x/skills/demo"),
        other => panic!("unexpected {other:?}"),
    }
}

#[test]
fn remove_deletes_managed_skill() {
    let storage = SkillStorage::new("/tmp/x/skills".to_string());
    let p = probe(true, false, &["/tmp/x/skills/demo/.skillhub/info.json"]);
    match storage.remove("demo", &p) {
        Ok(RemoveAction::RemoveDir(path)) => assert_eq!(path, "/tmp/x/skills/demo"),
        other => panic!("unexpected {other:?}"),
    }
}

#[test]
fn remove_missing_or_invalid() {
    let storage = SkillStorage::new("/s".to_string());
    let p = probe(false, false, &["/s/demo/SKILL.md"]);
    assert!(matches!(storage.remove("demo", &p), Ok(RemoveAction::Keep)));
    let p = probe(true, true, &["/s/demo/SKILL.md"]);
    match storage.remove("demo", &p) {
        Ok(RemoveAction::RemoveFile(path)) => assert_eq!(path, "/s/demo"),
        other => panic!("unexpected {other:?}"),
    }
    let err = storage.remove("../demo", &p).unwrap_err();
    assert_eq!(err.kind, SkillNameErrorKind::PathSeparator);
}

#[test]
fn list_missing_storage_is_empty() {
    let storage = SkillStorage::new("/tmp/x/missing".to_string());
    let p = StorageProbe { exists: false, is_dir: false, entry_names: vec![] };
    assert!(storage.list(&p).expect("list").is_empty());
}

#[test]
fn list_file_storage_is_error() {
    let storage = SkillStorage::new("/tmp/x/skills".to_string());
    let p = StorageProbe { exists: true, is_dir: false, entry_names: vec![] };
    let err = storage.list(&p).unwrap_err();
    assert!(matches!(&err, StorageError::NotADirectory(path) if path == "/tmp/x/skills"));
    assert_eq!(err.message(), "skill storage path is not a directory: /tmp/x/skills");
}

#[test]
fn list_sorts_entries() {
    let storage = SkillStorage::new("/s".to_string());
    let names: Vec<String> = ["b", "a", "Z", "ä", "a-b", "ab", "a"].iter().map(|s| s.to_string()).collect();
    let p = StorageProbe { exists: true, is_dir: true, entry_names: names.clone() };
    let mut expected = names;
    expected.sort();
    assert_eq!(storage.list(&p).unwrap(), expected);
}

#[test]
fn metadata_is_saved_where_it_is_loaded() {
    let storage = SkillStorage::new("/s".to_string());
    let (dir, file) = storage.metadata_paths("demo").unwrap();
    assert_eq!(dir, "/s/demo/.skillhub");
    assert_eq!(file, "/s/demo/.skillhub/info.json");
    assert_eq!(storage.info_path("demo"), Some(file));
    assert_eq!(storage.info_path(".."), None);
    assert!(storage.metadata_paths(" x").is_err());
}

#[test]
fn listing_twice_gives_the_same_names() {
    let storage = SkillStorage::new("/s".to_string());
    let names: Vec<String> = ["c", "a", "b"].iter().map(|s| s.to_string()).collect();
    let p1 = StorageProbe { exists: true, is_dir: true, entry_names: names.clone() };
    let p2 = StorageProbe { exists: true, is_dir: true, entry_names: names.into_iter().rev().collect() };
    assert_eq!(storage.list(&p1).unwrap(), storage.list(&p2).unwrap());
}
