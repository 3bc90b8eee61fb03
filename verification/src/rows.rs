//! The shared row shape of the presentation table. Every cell keeps two
//! parallel forms: the native one, verbatim store output for faithful
//! copy/export and re-query, and the display one, a derived, possibly lossy,
//! readable form.

use vstd::prelude::*;

verus! {

/// One row of the presentation table.
pub struct TableRow {
    /// The predicate's human-readable label.
    pub display_predicate: String,
    /// The predicate exactly as the store returned it.
    pub native_predicate: String,
    /// The value's display form, possibly reformatted.
    pub display_value: String,
    /// The value exactly as the store returned it.
    pub native_value: String,
}

/// The mathematical shape of a row: its four fields as character sequences.
pub ghost struct RowView {
    pub display_predicate: Seq<char>,
    pub native_predicate: Seq<char>,
    pub display_value: Seq<char>,
    pub native_value: Seq<char>,
}

impl View for TableRow {
    type V = RowView;

    open spec fn view(&self) -> RowView {
        RowView {
            display_predicate: self.display_predicate@,
            native_predicate: self.native_predicate@,
            display_value: self.display_value@,
            native_value: self.native_value@,
        }
    }
}

/// The rows a table holds, as row views.
pub open spec fn table_view(rows: Seq<TableRow>) -> Seq<RowView> {
    rows.map_values(|r: TableRow| r@)
}

/// One row of a backlink table: a triple that references the inspected
/// identifier as its object, presented without grouping.
pub struct BacklinkRow {
    /// The referencing subject, exactly as the store returned it.
    pub subject: String,
    /// The predicate exactly as the store returned it.
    pub predicate: String,
    /// The predicate's human-readable label.
    pub predicate_label: String,
    /// Whether the subject is syntactically a URI and so gets the
    /// link/navigation affordance.
    pub subject_is_link: bool,
}

/// Navigation re-enters the pipeline with the row's native value: re-querying
/// must use the exact store output, never the display form.
pub fn navigation_target(row: &TableRow) -> (t: String)
    ensures
        t@ == row.native_value@,
{
    row.native_value.clone()
}

/// Navigating from a backlink row inspects the referencing subject, again by
/// its native form.
pub fn backlink_navigation_target(row: &BacklinkRow) -> (t: String)
    ensures
        t@ == row.subject@,
{
    row.subject.clone()
}

} // verus!
