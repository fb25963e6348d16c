use skillstore::metadata::{InstalledSkill, SourceValue};
use skillstore::report::{report_status, report_version, target_statuses, InstallReport, TargetReport};
use skillstore::summary::summary_table;
use skillstore::update::candidate_from_info;

fn target(name: &str, status: &str, updated: bool, previous: Option<&str>, aliases: &[&str]) -> TargetReport {
    TargetReport {
        target: name.to_string(),
        status: status.to_string(),
        updated,
        version: "2.0".to_string(),
        previous_version: previous.map(|p| p.to_string()),
        legacy_aliases_removed: aliases.iter().map(|a| a.to_string()).collect(),
    }
}

fn report(targets: Vec<TargetReport>) -> InstallReport {
    InstallReport { source: "clawhub".to_string(), version: "2.0".to_string(), targets }
}

#[test]
fn status_is_shared_or_mixed() {
    assert_eq!(report_status(&report(vec![])), "mixed");
    assert_eq!(report_status(&report(vec![target("a", "updated", true, None, &[])])), "updated");
    assert_eq!(
        report_status(&report(vec![target("a", "updated", true, None, &[]), target("b", "updated", true, None, &[])])),
        "updated"
    );
    assert_eq!(
        report_status(&report(vec![target("a", "updated", true, None, &[]), target("b", "unchanged", false, None, &[])])),
        "mixed"
    );
}

#[test]
fn version_shows_first_update() {
    assert_eq!(report_version(&report(vec![])), "2.0");
    assert_eq!(
        report_version(&report(vec![
            target("a", "unchanged", false, Some("0.1"), &[]),
            target("b", "updated", true, Some("1.0"), &[]),
            target("c", "updated", true, Some("1.5"), &[]),
        ])),
        "1.0 -> 2.0"
    );
    assert_eq!(
        report_version(&report(vec![target("b", "updated", true, None, &[]), target("c", "updated", true, Some("1.5"), &[])])),
        "2.0"
    );
}

#[test]
fn target_statuses_list_aliases() {
    let r = report(vec![
        target("home", "updated", true, None, &["old", "older"]),
        target("work", "unchanged", false, None, &[]),
    ]);
    assert_eq!(target_statuses(&r), "home: updated (removed alias: old, older), work: unchanged");
    assert_eq!(target_statuses(&report(vec![])), "");
}

#[test]
fn summary_table_holds_one_row_per_skill() {
    let info = InstalledSkill {
        name: "demo".to_string(),
        version: "1.0".to_string(),
        slug: Some("demo-slug".to_string()),
        display_name: None,
        target: None,
        source: SourceValue { text: Some("clawhub".to_string()), fields: vec![] },
    };
    let (_, c) = candidate_from_info("demo", &info, None);
    let r = report(vec![target("home", "updated", true, Some("1.0"), &[])]);
    let mut table = summary_table(&vec![(c, r)]);
    assert_eq!(table.current_style_as_preset(), "││──╞═╪╡┆╌┼├┤┬┴╭╮╰╯");
    assert!(matches!(table.content_arrangement(), comfy_table::ContentArrangement::Dynamic));
    let header: Vec<String> = table.header().unwrap().cell_iter().map(|c| c.content()).collect();
    assert_eq!(header, vec!["Skill", "Source", "Status", "Version", "Targets"]);
    let rows: Vec<Vec<String>> = table.row_iter().map(|r| r.cell_iter().map(|c| c.content()).collect()).collect();
    assert_eq!(rows, vec![vec!["demo-slug", "clawhub", "updated", "1.0 -> 2.0", "home: updated"]]);
    let drawn = table.to_string();
    assert!(drawn.contains("demo-slug"));
    assert!(drawn.contains('╭'));
}

#[test]
fn consistency_ties_flag_to_status() {
    assert!(report(vec![]).is_consistent());
    assert!(report(vec![target("a", "updated", true, None, &[]), target("b", "updated", true, None, &[])]).is_consistent());
    assert!(report(vec![target("a", "updated", true, None, &[]), target("b", "unchanged", false, None, &[])]).is_consistent());
    assert!(!report(vec![target("a", "updated", true, None, &[]), target("b", "updated", false, None, &[])]).is_consistent());
}
