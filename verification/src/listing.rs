//! The catalog as a table for the terminal: one row for each module, with its
//! name and the modules it depends on.

use ascii_table::{AsciiTable, Column};
use vstd::prelude::*;
use vstd::string::StringExecFns;
use crate::module::{Module, ModuleView};

verus! {

/// The widest that the table may get, in characters.
pub const TABLE_WIDTH: usize = 140;

/// `parts` one after the other, with `separator` between each two of them.
pub open spec fn joined(parts: Seq<Seq<char>>, separator: Seq<char>) -> Seq<char>
    decreases parts.len(),
{
    if parts.len() == 0 {
        Seq::empty()
    } else if parts.len() == 1 {
        parts[0]
    } else {
        joined(parts.drop_last(), separator) + separator + parts.last()
    }
}

/// The row that shows a module: its name, then its dependencies with a comma
/// and a blank between them.
pub open spec fn row_of(module: ModuleView) -> Seq<Seq<char>> {
    seq![module.name, joined(module.dependencies, ", "@)]
}

/// The rows that show `modules`, in their order.
pub open spec fn rows_of(modules: Seq<ModuleView>) -> Seq<Seq<Seq<char>>> {
    modules.map_values(|m: ModuleView| row_of(m))
}

/// The headers of the two columns.
pub open spec fn headers() -> Seq<Seq<char>> {
    seq!["Module Name"@, "Dependent Modules"@]
}

/// The text that the crate `ascii_table` draws for a table that is at most
/// `max_width` characters wide, whose columns carry `headers` from the left and
/// are otherwise as the crate sets them up, and whose cells are `rows`.
pub uninterp spec fn table_text(
    max_width: usize,
    headers: Seq<Seq<char>>,
    rows: Seq<Seq<Seq<char>>>,
) -> Seq<char>;

/// Calls `AsciiTable::format` of the crate `ascii_table`. The table is the
/// crate's default one but for its `max_width`, and column `k` is the crate's
/// default column but for its header, `headers[k]`. The contract claims only
/// that the text drawn depends on nothing but the width, the headers and the
/// cells; what the text looks like is not stated.
#[verifier::external_body]
fn format_table(max_width: usize, headers: &Vec<String>, rows: &Vec<Vec<String>>) -> (text: String)
    ensures
        text@ == table_text(max_width, headers.deep_view(), rows.deep_view()),
{
    let mut table = AsciiTable::default();
    table.max_width = max_width;
    for (at, header) in headers.iter().enumerate() {
        table.columns.insert(at, Column { header: header.clone(), ..Column::default() });
    }
    table.format(rows)
}

/// `parts` one after the other, with `separator` between each two of them.
pub fn join(parts: &Vec<String>, separator: &str) -> (text: String)
    ensures
        text@ == joined(parts.deep_view(), separator@),
{
    let mut text = String::new();
    let mut i: usize = 0;
    assert(parts.deep_view().take(0) =~= Seq::empty());
    while i < parts.len()
        invariant
            i <= parts.len(),
            text@ == joined(parts.deep_view().take(i as int), separator@),
        decreases parts.len() - i,
    {
        let ghost before = parts.deep_view().take(i as int);
        proof {
            assert(parts.deep_view().take(i + 1).drop_last() =~= before);
            assert(parts.deep_view().take(i + 1).last() == parts[i as int]@);
        }
        if i > 0 {
            text.append(separator);
        } else {
            assert(text@ + parts[i as int]@ =~= parts[i as int]@);
        }
        text.append(parts[i].as_str());
        i += 1;
    }
    assert(parts.deep_view().take(parts.len() as int) =~= parts.deep_view());
    text
}

/// The table of `mods`: a column headed "Module Name" and a column headed
/// "Dependent Modules", a row for each module, at most `TABLE_WIDTH` characters
/// wide. The text ends with a line feed and is ready to be printed.
pub fn list(mods: &Vec<Module>) -> (text: String)
    ensures
        text@ == table_text(TABLE_WIDTH, headers(), rows_of(mods.deep_view())),
{
    let mut head: Vec<String> = Vec::new();
    head.push("Module Name".to_owned());
    head.push("Dependent Modules".to_owned());
    assert(head.deep_view() =~= headers());
    let mut rows: Vec<Vec<String>> = Vec::new();
    let mut i: usize = 0;
    while i < mods.len()
        invariant
            i <= mods.len(),
            rows.len() == i,
            forall|k: int| 0 <= k < i ==> rows.deep_view()[k] == row_of(mods.deep_view()[k]),
        decreases mods.len() - i,
    {
        let ghost before = rows.deep_view();
        let mut row: Vec<String> = Vec::new();
        row.push(mods[i].name.clone());
        row.push(join(&mods[i].dependencies, ", "));
        assert(row.deep_view() =~= row_of(mods.deep_view()[i as int]));
        rows.push(row);
        assert(rows.deep_view() =~= before.push(row_of(mods.deep_view()[i as int])));
        i += 1;
    }
    assert(rows.deep_view() =~= rows_of(mods.deep_view()));
    format_table(TABLE_WIDTH, &head, &rows)
}

} // verus!
