//! The table that summarises an update run, drawn by `comfy_table`.
use vstd::prelude::*;
use vstd::string::StringExecFns;
use comfy_table::Table;
use crate::report::{
    report_status, report_status_text, report_version, target_statuses, targets_text,
    version_text, InstallReport,
};
use crate::text::views;
use crate::update::UpdateCandidate;

verus! {

/// `comfy_table::Table`, carried through as an opaque value.
#[verifier::external_type_specification]
#[verifier::external_body]
pub struct ExTable(comfy_table::Table);

/// The texts of the header cells of a table, if it has a header.
pub uninterp spec fn table_header(t: Table) -> Option<Seq<Seq<char>>>;

/// The texts of the cells of each row of a table, in order.
pub uninterp spec fn table_rows(t: Table) -> Seq<Seq<Seq<char>>>;

/// A drawing style that a table can load (one of `comfy_table::presets`).
#[derive(Debug, Clone, Copy, PartialEq, Eq)]
pub enum TablePreset {
    /// `UTF8_FULL`: box-drawing lines around and between all cells.
    Utf8Full,
}

/// A change to a table's drawing style (one of `comfy_table::modifiers`).
#[derive(Debug, Clone, Copy, PartialEq, Eq)]
pub enum TableModifier {
    /// `UTF8_ROUND_CORNERS`: rounded outer corners.
    Utf8RoundCorners,
}

/// How a table fits its content to the width available
/// (`comfy_table::ContentArrangement`).
#[derive(Debug, Clone, Copy, PartialEq, Eq)]
pub enum ContentLayout {
    Disabled,
    Dynamic,
    DynamicFullWidth,
}

/// The number of parts of a table that a style draws (`TableComponent`).
pub open spec fn style_len() -> nat {
    19
}

/// The characters of a preset, one per part of the table, a space for a part
/// not drawn.
pub open spec fn preset_text(p: TablePreset) -> Seq<char> {
    match p {
        TablePreset::Utf8Full => "││──╞═╪╡┆╌┼├┤┬┴┌┐└┘"@,
    }
}

/// The characters of a modifier, one per part of the table, a space for a
/// part it leaves as it is.
pub open spec fn modifier_text(m: TableModifier) -> Seq<char> {
    match m {
        TableModifier::Utf8RoundCorners => "               ╭╮╰╯"@,
    }
}

/// `style` after loading the preset `p`: each part that `p` has a character
/// for takes it.
pub open spec fn loaded_style(style: Seq<char>, p: Seq<char>) -> Seq<char> {
    Seq::new(style.len(), |i: int| if i < p.len() { p[i] } else { style[i] })
}

/// `style` after applying the modifier `m`: each part that `m` gives a
/// character other than a space takes it.
pub open spec fn modified_style(style: Seq<char>, m: Seq<char>) -> Seq<char> {
    Seq::new(style.len(), |i: int| if i < m.len() && m[i] != ' ' { m[i] } else { style[i] })
}

/// The drawing style of a table: one character per part, a space for a part
/// not drawn (what `Table::current_style_as_preset` gives).
pub uninterp spec fn table_style(t: Table) -> Seq<char>;

/// How a table fits its content (what `Table::content_arrangement` gives).
pub uninterp spec fn table_layout(t: Table) -> ContentLayout;

/// `Table::new`: a table with no header and no rows, laid out without
/// arrangement, with a style for every part.
#[verifier::external_body]
fn new_table() -> (t: Table)
    ensures
        table_header(t) is None,
        table_rows(t) == Seq::<Seq<Seq<char>>>::empty(),
        table_style(t).len() == style_len(),
        table_layout(t) == ContentLayout::Disabled,
{
    Table::new()
}

/// `Table::load_preset`: each part the preset has a character for is drawn
/// with it; the header, rows and layout stay.
#[verifier::external_body]
fn load_preset(t: &mut Table, preset: TablePreset)
    ensures
        table_style(*final(t)) == loaded_style(table_style(*old(t)), preset_text(preset)),
        table_layout(*final(t)) == table_layout(*old(t)),
        table_header(*final(t)) == table_header(*old(t)),
        table_rows(*final(t)) == table_rows(*old(t)),
{
    match preset {
        TablePreset::Utf8Full => t.load_preset(comfy_table::presets::UTF8_FULL),
    };
}

/// `Table::apply_modifier`: each part the modifier gives a character (not a
/// space) for is drawn with it; the header, rows and layout stay.
#[verifier::external_body]
fn apply_modifier(t: &mut Table, modifier: TableModifier)
    ensures
        table_style(*final(t)) == modified_style(table_style(*old(t)), modifier_text(modifier)),
        table_layout(*final(t)) == table_layout(*old(t)),
        table_header(*final(t)) == table_header(*old(t)),
        table_rows(*final(t)) == table_rows(*old(t)),
{
    match modifier {
        TableModifier::Utf8RoundCorners => t.apply_modifier(comfy_table::modifiers::UTF8_ROUND_CORNERS),
    };
}

/// `Table::set_content_arrangement`: the layout becomes `layout`; the style,
/// header and rows stay.
#[verifier::external_body]
fn set_content_arrangement(t: &mut Table, layout: ContentLayout)
    ensures
        table_layout(*final(t)) == layout,
        table_style(*final(t)) == table_style(*old(t)),
        table_header(*final(t)) == table_header(*old(t)),
        table_rows(*final(t)) == table_rows(*old(t)),
{
    match layout {
        ContentLayout::Disabled => t.set_content_arrangement(comfy_table::ContentArrangement::Disabled),
        ContentLayout::Dynamic => t.set_content_arrangement(comfy_table::ContentArrangement::Dynamic),
        ContentLayout::DynamicFullWidth => t.set_content_arrangement(
            comfy_table::ContentArrangement::DynamicFullWidth,
        ),
    };
}

/// `Table::set_header`: the header becomes one cell per string, each holding
/// that string; the rows, style and layout stay.
#[verifier::external_body]
fn set_table_header(t: &mut Table, cells: Vec<String>)
    ensures
        table_header(*final(t)) == Some(views(cells@)),
        table_rows(*final(t)) == table_rows(*old(t)),
        table_style(*final(t)) == table_style(*old(t)),
        table_layout(*final(t)) == table_layout(*old(t)),
{
    t.set_header(cells);
}

/// `Table::add_row`: a row of one cell per string is added after the others;
/// the header, style and layout stay.
#[verifier::external_body]
fn add_table_row(t: &mut Table, cells: Vec<String>)
    ensures
        table_header(*final(t)) == table_header(*old(t)),
        table_rows(*final(t)) == table_rows(*old(t)).push(views(cells@)),
        table_style(*final(t)) == table_style(*old(t)),
        table_layout(*final(t)) == table_layout(*old(t)),
{
    t.add_row(cells);
}

/// The style of the summary: the `UTF8_FULL` lines with rounded corners.
pub open spec fn summary_style() -> Seq<char> {
    modified_style(preset_text(TablePreset::Utf8Full), modifier_text(TableModifier::Utf8RoundCorners))
}

/// The column titles of the summary.
pub open spec fn summary_header() -> Seq<Seq<char>> {
    seq!["Skill"@, "Source"@, "Status"@, "Version"@, "Targets"@]
}

/// The summary row of one updated skill.
pub open spec fn summary_row(c: UpdateCandidate, r: InstallReport) -> Seq<Seq<char>> {
    seq![
        c.name@,
        r.source@,
        report_status_text(r),
        version_text(r.targets@, r.version@),
        targets_text(r.targets@),
    ]
}

/// The summary rows, one per updated skill in order.
pub open spec fn summary_rows(reports: Seq<(UpdateCandidate, InstallReport)>) -> Seq<Seq<Seq<char>>> {
    reports.map_values(|e: (UpdateCandidate, InstallReport)| summary_row(e.0, e.1))
}

/// The table that summarises an update run: drawn with `UTF8_FULL` lines and
/// rounded corners, fitted to the terminal, with one row per updated skill
/// giving its slug, source, status, version and per-target outcome.
pub fn summary_table(reports: &Vec<(UpdateCandidate, InstallReport)>) -> (t: Table)
    ensures
        table_header(t) == Some(summary_header()),
        table_rows(t) == summary_rows(reports@),
        table_style(t) == summary_style(),
        table_layout(t) == ContentLayout::Dynamic,
{
    let mut table = new_table();
    proof {
        reveal_strlit("││──╞═╪╡┆╌┼├┤┬┴┌┐└┘");
        assert(loaded_style(table_style(table), preset_text(TablePreset::Utf8Full)) =~= preset_text(
            TablePreset::Utf8Full,
        ));
    }
    load_preset(&mut table, TablePreset::Utf8Full);
    apply_modifier(&mut table, TableModifier::Utf8RoundCorners);
    set_content_arrangement(&mut table, ContentLayout::Dynamic);
    let mut header: Vec<String> = Vec::new();
    header.push(String::from_str("Skill"));
    header.push(String::from_str("Source"));
    header.push(String::from_str("Status"));
    header.push(String::from_str("Version"));
    header.push(String::from_str("Targets"));
    assert(views(header@) =~= summary_header());
    set_table_header(&mut table, header);
    let mut i: usize = 0;
    while i < reports.len()
        invariant
            i <= reports.len(),
            table_header(table) == Some(summary_header()),
            table_rows(table) == summary_rows(reports@.take(i as int)),
            table_style(table) == summary_style(),
            table_layout(table) == ContentLayout::Dynamic,
        decreases reports.len() - i,
    {
        let (candidate, report) = &reports[i];
        let mut row: Vec<String> = Vec::new();
        row.push(candidate.name.clone());
        row.push(report.source.clone());
        row.push(report_status(report));
        row.push(report_version(report));
        row.push(target_statuses(report));
        assert(views(row@) =~= summary_row(reports@[i as int].0, reports@[i as int].1));
        add_table_row(&mut table, row);
        assert(summary_rows(reports@.take(i + 1)) =~= summary_rows(reports@.take(i as int)).push(
            summary_row(reports@[i as int].0, reports@[i as int].1),
        ));
        i = i + 1;
    }
    assert(reports@.take(reports@.len() as int) =~= reports@);
    table
}

} // verus!
