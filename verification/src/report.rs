//! Summaries of what updating skills did.
use vstd::prelude::*;
use vstd::string::StringExecFns;
use crate::metadata::opt_view;
use crate::order::{insert_sorted, lemma_str_lt_irreflexive, strictly_sorted};
use crate::text::{join, joined, str_eq, views};

verus! {

/// What installing a skill did in one target.
pub struct TargetReport {
    /// The target installed into.
    pub target: String,
    /// The label of the outcome (its status).
    pub status: String,
    /// The outcome is an update of an installed version.
    pub updated: bool,
    /// The version installed.
    pub version: String,
    /// The version that was installed before.
    pub previous_version: Option<String>,
    /// Old alias directories that were removed.
    pub legacy_aliases_removed: Vec<String>,
}

/// What installing a skill did.
pub struct InstallReport {
    /// Where the skill came from.
    pub source: String,
    /// The version installed.
    pub version: String,
    /// The outcome in each target.
    pub targets: Vec<TargetReport>,
}

impl InstallReport {
    /// The `updated` flag is a function of the status: targets with the same
    /// status agree on whether it is the update status.
    pub open spec fn consistent(&self) -> bool {
        forall|i: int, j: int|
            0 <= i < self.targets@.len() && 0 <= j < self.targets@.len()
                && #[trigger] self.targets@[i].status@ == #[trigger] self.targets@[j].status@
                ==> self.targets@[i].updated == self.targets@[j].updated
    }

    /// Whether targets with the same status agree on whether it is the update status.
    pub fn is_consistent(&self) -> (r: bool)
        ensures
            r == self.consistent(),
    {
        let n = self.targets.len();
        let mut i: usize = 0;
        while i < n
            invariant
                n == self.targets@.len(),
                i <= n,
                forall|a: int, b: int|
                    0 <= a < i && 0 <= b < n
                        && #[trigger] self.targets@[a].status@ == #[trigger] self.targets@[b].status@
                        ==> self.targets@[a].updated == self.targets@[b].updated,
            decreases n - i,
        {
            let mut j: usize = 0;
            while j < n
                invariant
                    n == self.targets@.len(),
                    i < n,
                    j <= n,
                    forall|a: int, b: int|
                        0 <= a < i && 0 <= b < n
                            && #[trigger] self.targets@[a].status@ == #[trigger] self.targets@[b].status@
                            ==> self.targets@[a].updated == self.targets@[b].updated,
                    forall|b: int|
                        0 <= b < j && self.targets@[i as int].status@ == #[trigger] self.targets@[b].status@
                            ==> self.targets@[i as int].updated == self.targets@[b].updated,
                decreases n - j,
            {
                if str_eq(self.targets[i].status.as_str(), self.targets[j].status.as_str())
                    && self.targets[i].updated != self.targets[j].updated {
                    return false;
                }
                j = j + 1;
            }
            i = i + 1;
        }
        true
    }
}

/// The status of each target.
pub open spec fn statuses(targets: Seq<TargetReport>) -> Seq<Seq<char>> {
    targets.map_values(|t: TargetReport| t.status@)
}

/// The distinct statuses of the targets.
pub open spec fn status_labels(targets: Seq<TargetReport>) -> Set<Seq<char>> {
    statuses(targets).to_set()
}

/// The status of the whole install: the one status all targets share, else `mixed`.
pub open spec fn report_status_text(r: InstallReport) -> Seq<char> {
    let labels = status_labels(r.targets@);
    if labels.len() == 1 {
        labels.choose()
    } else {
        "mixed"@
    }
}

/// The version shown for an install: `previous -> new` from the first updated
/// target when it knows its previous version, else the version installed.
pub open spec fn version_text(targets: Seq<TargetReport>, fallback: Seq<char>) -> Seq<char>
    decreases targets.len(),
{
    if targets.len() == 0 {
        fallback
    } else if targets[0].updated {
        match opt_view(targets[0].previous_version) {
            Some(p) => p + " -> "@ + targets[0].version@,
            None => fallback,
        }
    } else {
        version_text(targets.drop_first(), fallback)
    }
}

/// How one target fared: `target: status`, and the aliases removed there.
pub open spec fn target_text(t: TargetReport) -> Seq<char> {
    let head = t.target@ + ": "@ + t.status@;
    if t.legacy_aliases_removed@.len() > 0 {
        head + " (removed alias: "@ + joined(views(t.legacy_aliases_removed@), ", "@) + ")"@
    } else {
        head
    }
}

/// A target that removed aliases says so after its status, the aliases
/// separated by commas; a target that removed none says only its status.
pub proof fn lemma_target_text_reports_removed_aliases(t: TargetReport)
    ensures
        t.legacy_aliases_removed@.len() == 0 ==> target_text(t) == t.target@ + ": "@ + t.status@,
        t.legacy_aliases_removed@.len() == 1 ==> target_text(t) == t.target@ + ": "@ + t.status@
            + " (removed alias: "@ + t.legacy_aliases_removed@[0]@ + ")"@,
        t.legacy_aliases_removed@.len() > 0 ==> target_text(t) == t.target@ + ": "@ + t.status@
            + " (removed alias: "@ + joined(views(t.legacy_aliases_removed@), ", "@) + ")"@,
{
}

/// The text of a single target's report is that target's text.
pub proof fn lemma_single_target_text(t: TargetReport)
    ensures
        targets_text(seq![t]) == target_text(t),
{
    assert(target_texts(seq![t]) =~= seq![target_text(t)]);
}

/// How each target fared.
pub open spec fn target_texts(targets: Seq<TargetReport>) -> Seq<Seq<char>> {
    targets.map_values(|t: TargetReport| target_text(t))
}

/// How every target fared, separated by commas.
pub open spec fn targets_text(targets: Seq<TargetReport>) -> Seq<char> {
    joined(target_texts(targets), ", "@)
}

/// The status shared by all targets of the install, or `mixed`.
pub fn report_status(report: &InstallReport) -> (r: String)
    ensures
        r@ == report_status_text(*report),
{
    let mut labels: Vec<String> = Vec::new();
    let mut i: usize = 0;
    while i < report.targets.len()
        invariant
            i <= report.targets.len(),
            strictly_sorted(views(labels@)),
            views(labels@).to_set() == status_labels(report.targets@.take(i as int)),
        decreases report.targets.len() - i,
    {
        insert_sorted(&mut labels, report.targets[i].status.clone());
        proof {
            let a = statuses(report.targets@.take(i as int));
            assert(statuses(report.targets@.take(i + 1)) =~= a + seq![report.targets@[i as int].status@]);
            Seq::lemma_to_set_insert_commutes(a, report.targets@[i as int].status@);
        }
        i = i + 1;
    }
    proof {
        assert(report.targets@.take(report.targets@.len() as int) =~= report.targets@);
        assert(views(labels@).no_duplicates()) by {
            assert forall|a: int, b: int| 0 <= a < views(labels@).len() && 0 <= b < views(labels@).len() && a != b
                implies views(labels@)[a] != views(labels@)[b] by {
                lemma_str_lt_irreflexive(views(labels@)[a]);
                lemma_str_lt_irreflexive(views(labels@)[b]);
            }
        }
        views(labels@).unique_seq_to_set();
    }
    if labels.len() == 1 {
        proof {
            let s = views(labels@).to_set();
            assert(s =~= set![labels@[0]@]) by {
                assert(views(labels@)[0] == labels@[0]@);
            }
            assert(s.finite());
            assert(s.len() != 0);
            assert(s.contains(s.choose()));
        }
        labels[0].clone()
    } else {
        String::from_str("mixed")
    }
}

/// The version installed, shown as `previous -> new` where the first updated
/// target knows the version it replaced.
pub fn report_version(report: &InstallReport) -> (r: String)
    ensures
        r@ == version_text(report.targets@, report.version@),
{
    let mut i: usize = 0;
    assert(report.targets@.skip(0) =~= report.targets@);
    while i < report.targets.len()
        invariant
            i <= report.targets.len(),
            version_text(report.targets@, report.version@) == version_text(
                report.targets@.skip(i as int),
                report.version@,
            ),
        decreases report.targets.len() - i,
    {
        let t = &report.targets[i];
        if t.updated {
            match &t.previous_version {
                Some(previous) => {
                    let mut r = previous.clone();
                    r.append(" -> ");
                    r.append(t.version.as_str());
                    return r;
                },
                None => {
                    return report.version.clone();
                },
            }
        }
        assert(report.targets@.skip(i as int).drop_first() =~= report.targets@.skip(i + 1));
        i = i + 1;
    }
    report.version.clone()
}

fn target_status(t: &TargetReport) -> (r: String)
    ensures
        r@ == target_text(*t),
{
    let mut r = t.target.clone();
    r.append(": ");
    r.append(t.status.as_str());
    if t.legacy_aliases_removed.len() > 0 {
        r.append(" (removed alias: ");
        let aliases = join(&t.legacy_aliases_removed, ", ");
        r.append(aliases.as_str());
        r.append(")");
    }
    r
}

/// How each target fared, separated by commas.
pub fn target_statuses(report: &InstallReport) -> (r: String)
    ensures
        r@ == targets_text(report.targets@),
{
    let mut parts: Vec<String> = Vec::new();
    let mut i: usize = 0;
    while i < report.targets.len()
        invariant
            i <= report.targets.len(),
            views(parts@) == target_texts(report.targets@.take(i as int)),
        decreases report.targets.len() - i,
    {
        let s = target_status(&report.targets[i]);
        let ghost old_parts = parts@;
        assert(s@ == target_text(report.targets@[i as int]));
        parts.push(s);
        proof {
            assert(views(parts@) =~= views(old_parts).push(target_text(report.targets@[i as int])));
            assert(views(parts@) =~= target_texts(report.targets@.take(i + 1)));
        }
        i = i + 1;
    }
    assert(report.targets@.take(report.targets@.len() as int) =~= report.targets@);
    join(&parts, ", ")
}

} // verus!
