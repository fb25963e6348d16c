use skillstore::metadata::{InstalledSkill, SourceField, SourceValue};
use skillstore::update::{
    add_match_name, candidate_from_info, collect_candidates, github_subdir, select_candidates,
    source_skill, source_type, FoundSkill, Selection,
};

fn record(fields: &[(&str, &str)]) -> SourceValue {
    SourceValue {
        text: None,
        fields: fields
            .iter()
            .map(|(k, v)| SourceField { key: k.to_string(), value: v.to_string() })
            .collect(),
    }
}

fn installed_github_skill(subdir: Option<&str>) -> InstalledSkill {
    let mut fields = vec![("type", "github"), ("owner", "example"), ("repo", "skills"), ("ref", "main")];
    if let Some(subdir) = subdir {
        fields.push(("subdir", subdir));
    }
    InstalledSkill {
        name: "my-alias".to_string(),
        version: "abc123".to_string(),
        slug: Some("my-alias".to_string()),
        display_name: Some("Upstream Name".to_string()),
        target: None,
        source: record(&fields),
    }
}

fn registry_skill(name: &str, slug: Option<&str>, kind: &str) -> InstalledSkill {
    InstalledSkill {
        name: name.to_string(),
        version: "1.0.0".to_string(),
        slug: slug.map(|s| s.to_string()),
        display_name: None,
        target: None,
        source: record(&[("type", kind)]),
    }
}

#[test]
fn github_candidate_preserves_alias_and_subdir() {
    let info = installed_github_skill(Some("skills/demo"));
    let (key, candidate) = candidate_from_info("my-alias", &info, None);

    assert_eq!(key, "github:example/skills@main#subdir=skills/demo");
    assert_eq!(candidate.install_name.as_deref(), Some("my-alias"));
    assert_eq!(candidate.subdir.as_deref(), Some("skills/demo"));
    assert_eq!(candidate.source_skill, "github:example/skills@main");
}

#[test]
fn github_candidate_supports_legacy_metadata_without_subdir() {
    let info = installed_github_skill(None);
    let (key, candidate) = candidate_from_info("my-alias", &info, Some("next"));

    assert_eq!(key, "github:example/skills@next");
    assert_eq!(candidate.install_name.as_deref(), Some("my-alias"));
    assert_eq!(candidate.subdir, None);
    assert_eq!(candidate.source_skill, "github:example/skills@next");
}

#[test]
fn registry_candidate_does_not_force_an_alias() {
    let info = registry_skill("demo", Some("demo"), "clawhub");
    let (_, candidate) = candidate_from_info("demo", &info, None);

    assert_eq!(candidate.install_name, None);
    assert_eq!(candidate.subdir, None);
}

#[test]
fn candidate_match_names_are_trimmed_sorted_and_unique() {
    let info = installed_github_skill(None);
    let (_, candidate) = candidate_from_info(" folder ", &info, None);
    assert_eq!(candidate.match_names, vec!["Upstream Name", "folder", "my-alias"]);
    assert_eq!(candidate.name, "my-alias");
}

#[test]
fn source_type_defaults_and_plain_strings() {
    let mut info = registry_skill("demo", None, "  clawhub ");
    assert_eq!(source_type(&info), "clawhub");
    info.source = SourceValue { text: Some(" registry ".to_string()), fields: vec![] };
    assert_eq!(source_type(&info), "registry");
    info.source = SourceValue { text: None, fields: vec![] };
    assert_eq!(source_type(&info), "kingdee");
    info.source = record(&[("type", "   ")]);
    assert_eq!(source_type(&info), "kingdee");
    let (key, _) = candidate_from_info("demo", &info, None);
    assert_eq!(key, "kingdee:demo");
}

#[test]
fn github_without_repo_falls_back_to_slug() {
    let info = InstalledSkill {
        name: "n".to_string(),
        version: String::new(),
        slug: None,
        display_name: None,
        target: None,
        source: record(&[("type", "github"), ("owner", "o")]),
    };
    let (key, skill) = source_skill("github", "folder", &info, None);
    assert_eq!(key, "github:folder");
    assert_eq!(skill, key);
    let info = installed_github_skill(Some("  "));
    assert_eq!(github_subdir(&info), None);
    let info = InstalledSkill { source: record(&[("type", "github"), ("owner", "o"), ("repo", "r")]), ..info };
    assert_eq!(source_skill("github", "s", &info, None).0, "github:o/r@HEAD");
}

#[test]
fn add_match_name_skips_blank() {
    let mut names = Vec::new();
    add_match_name(&mut names, "  ");
    assert!(names.is_empty());
    add_match_name(&mut names, " b ");
    add_match_name(&mut names, "a");
    add_match_name(&mut names, "b");
    assert_eq!(names, vec!["a", "b"]);
}

fn found(folder: &str, info: InstalledSkill) -> FoundSkill {
    FoundSkill { folder_name: folder.to_string(), info }
}

#[test]
fn collect_merges_by_key_in_key_order() {
    let entries = vec![
        found("zeta", registry_skill("zeta", None, "clawhub")),
        found("alpha", registry_skill("Alpha Skill", Some("alpha"), "clawhub")),
        found("alpha-copy", registry_skill("alpha", Some("alpha"), "clawhub")),
        found("beta", registry_skill("beta", None, "kingdee")),
    ];
    let cs = collect_candidates(&entries, None);
    let names: Vec<&str> = cs.iter().map(|c| c.source_skill.as_str()).collect();
    assert_eq!(names, vec!["clawhub:alpha", "clawhub:zeta", "kingdee:beta"]);
    assert_eq!(cs[0].match_names, vec!["Alpha Skill", "alpha", "alpha-copy"]);
}

#[test]
fn select_all_or_by_name() {
    let entries = vec![
        found("alpha", registry_skill("Alpha", None, "clawhub")),
        found("beta", registry_skill("beta", None, "clawhub")),
    ];
    let cs = || collect_candidates(&entries, None);
    match select_candidates(cs(), None, false) {
        Ok(Selection::Candidates(v)) => assert_eq!(v.len(), 2),
        _ => panic!("expected all"),
    }
    match select_candidates(cs(), Some("  ".to_string()), false) {
        Ok(Selection::Candidates(v)) => assert_eq!(v.len(), 2),
        _ => panic!("expected all"),
    }
    match select_candidates(cs(), Some(" ALPHA ".to_string()), false) {
        Ok(Selection::Candidates(v)) => {
            assert_eq!(v.len(), 1);
            assert_eq!(v[0].name, "alpha");
        },
        _ => panic!("expected alpha"),
    }
    match select_candidates(cs(), Some("gamma".to_string()), true) {
        Ok(Selection::Candidates(v)) => assert_eq!(v.len(), 2),
        _ => panic!("expected all"),
    }
    assert!(matches!(select_candidates(Vec::new(), None, true), Ok(Selection::NothingInstalled)));
}

#[test]
fn select_unknown_lists_available() {
    let entries = vec![
        found("b", registry_skill("b", None, "clawhub")),
        found("a", registry_skill("a", None, "kingdee")),
        found("b2", registry_skill("b", Some("b"), "other")),
    ];
    let err = match select_candidates(collect_candidates(&entries, None), Some(" gamma ".to_string()), false) {
        Err(e) => e,
        Ok(_) => panic!("expected an error"),
    };
    assert_eq!(err.requested, "gamma");
    assert_eq!(
        err.message(),
        "skill not installed: gamma. Use `skillmux update --all` or choose one of: a, b"
    );
}

#[test]
fn first_found_copy_decides_the_folder() {
    let entries = vec![
        found("one", installed_github_skill(None)),
        found("two", installed_github_skill(None)),
    ];
    let cs = collect_candidates(&entries, None);
    assert_eq!(cs.len(), 1);
    assert_eq!(cs[0].install_name.as_deref(), Some("one"));
    assert_eq!(cs[0].match_names, vec!["Upstream Name", "my-alias", "one", "two"]);
}

#[test]
fn request_by_folder_name_selects_the_merged_skill() {
    let entries = vec![
        found("alpha", registry_skill("Alpha", None, "clawhub")),
        found("alpha-copy", registry_skill("alpha", Some("alpha"), "clawhub")),
        found("beta", registry_skill("beta", None, "clawhub")),
    ];
    match select_candidates(collect_candidates(&entries, None), Some("Alpha-Copy".to_string()), false) {
        Ok(Selection::Candidates(v)) => {
            assert_eq!(v.len(), 1);
            assert_eq!(v[0].source_skill, "clawhub:alpha");
        },
        _ => panic!("expected the merged alpha candidate"),
    }
}
