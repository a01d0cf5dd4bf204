//! The report as the lines of text that a run ends with.

use crate::report::{CleanupReport, ReportModel};
use crate::rule::names_of;
use crate::size::{decimal, decimal_text, get_file_size_string, size_text};
use vstd::prelude::*;
use vstd::string::*;

verus! {

/// The cells of `rows` as plain text, row by row.
pub open spec fn cells_of(rows: Seq<Vec<String>>) -> Seq<Seq<Seq<char>>> {
    rows.map_values(|row: Vec<String>| names_of(row@))
}

/// The text that `tabled` draws for a table of the rows `rows`, the first of
/// them its header, in its default style.
pub uninterp spec fn table_text(rows: Seq<Seq<Seq<char>>>) -> Seq<char>;

/// Draws `rows` as a table.
///
/// Calls `tabled::builder::Builder::from` on the rows, `build` on the builder
/// and `to_string` on the table. Nothing is claimed of the text but that it
/// is the one that `tabled` gives for these rows, which depends on the rows
/// alone.
#[verifier::external_body]
fn draw_table(rows: Vec<Vec<String>>) -> (text: String)
    ensures
        text@ == table_text(cells_of(rows@)),
{
    tabled::builder::Builder::from(rows).build().to_string()
}

/// The rows of the table of cleared owners: the header, then one row for
/// each owner, in the order in which they were cleared.
pub open spec fn owner_rows(cleared: Seq<Seq<char>>) -> Seq<Seq<Seq<char>>> {
    seq![seq!["Program"@]] + cleared.map_values(|program: Seq<char>| seq![program])
}

/// The lines that a run ends with, given the table of cleared owners as
/// drawn: a heading, the table, the bytes credited as freed in binary units,
/// and the numbers of files and of directories removed.
pub open spec fn summary_of(table: Seq<char>, report: ReportModel) -> Seq<Seq<char>> {
    seq![
        "Cleared programms:"@,
        table,
        "Removed: "@ + size_text(report.bytes_freed),
        "Removed files: "@ + decimal(report.files_removed),
        "Removed directories: "@ + decimal(report.directories_removed),
    ]
}

/// Draws the table of the owners that `report` lists as cleared.
pub fn owners_table(report: &CleanupReport) -> (text: String)
    ensures
        text@ == table_text(owner_rows(report@.cleared)),
{
    let cleared = report.cleared();
    let mut rows: Vec<Vec<String>> = Vec::new();
    let mut header: Vec<String> = Vec::new();
    header.push(String::from_str("Program"));
    rows.push(header);
    let mut i: usize = 0;
    while i < cleared.len()
        invariant
            i <= cleared.len(),
            rows.len() == i + 1,
            names_of(rows[0]@) == seq!["Program"@],
            forall|t: int| 0 <= t < i ==> names_of((#[trigger] rows[t + 1])@) == seq![cleared[t]@],
        decreases cleared.len() - i,
    {
        let mut row: Vec<String> = Vec::new();
        row.push(cleared[i].program.clone());
        rows.push(row);
        i += 1;
    }
    assert(cells_of(rows@) =~= owner_rows(report@.cleared)) by {
        let cells = cells_of(rows@);
        let wanted = owner_rows(report@.cleared);
        assert forall|t: int| 0 <= t < cells.len() implies cells[t] == wanted[t] by {
            if t > 0 {
                assert(names_of(rows[(t - 1) + 1]@) == seq![cleared[t - 1]@]);
            }
        }
    }
    draw_table(rows)
}

/// Puts the closing lines of a run together around the table of cleared
/// owners as drawn.
pub fn summary_lines(table: String, report: &CleanupReport) -> (lines: Vec<String>)
    ensures
        names_of(lines@) == summary_of(table@, report@),
{
    let mut lines: Vec<String> = Vec::new();
    lines.push(String::from_str("Cleared programms:"));
    lines.push(table);
    let size = get_file_size_string(report.bytes_freed());
    lines.push(String::from_str("Removed: ").concat(size.as_str()));
    let files = decimal_text(report.files_removed());
    lines.push(String::from_str("Removed files: ").concat(files.as_str()));
    let directories = decimal_text(report.directories_removed());
    lines.push(String::from_str("Removed directories: ").concat(directories.as_str()));
    lines
}

/// The closing lines of a run.
pub fn summary(report: &CleanupReport) -> (lines: Vec<String>)
    ensures
        names_of(lines@) == summary_of(table_text(owner_rows(report@.cleared)), report@),
{
    summary_lines(owners_table(report), report)
}

} // verus!
