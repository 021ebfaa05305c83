//! Which database instance a command is about.

use vstd::prelude::*;
use crate::names::has_name;

verus! {

/// How the instance of a command is found.
#[derive(Debug, Clone, PartialEq, Eq)]
pub enum Database {
    /// The command named this instance, and it exists.
    Named(String),
    /// The command named no instance: the operator is to choose one.
    Choose,
    /// The command named this instance, and there is none of that name.
    Unknown(String),
}

/// A `Database` with its alias as a sequence of characters.
pub enum DatabaseView {
    Named(Seq<char>),
    Choose,
    Unknown(Seq<char>),
}

impl View for Database {
    type V = DatabaseView;

    open spec fn view(&self) -> DatabaseView {
        match self {
            Database::Named(alias) => DatabaseView::Named(alias@),
            Database::Choose => DatabaseView::Choose,
            Database::Unknown(alias) => DatabaseView::Unknown(alias@),
        }
    }
}

/// Finds the instance of a command among `dbs`, the aliases of the instances
/// that exist. An alias given in `db_opt` must be one of them, spelled alike;
/// where none is given the operator has to choose.
pub fn get_or_select_db(dbs: &Vec<String>, db_opt: Option<&str>) -> (found: Database)
    ensures
        found@ == match db_opt {
            None => DatabaseView::Choose,
            Some(alias) => if dbs.deep_view().contains(alias@) {
                DatabaseView::Named(alias@)
            } else {
                DatabaseView::Unknown(alias@)
            },
        },
{
    match db_opt {
        None => Database::Choose,
        Some(alias) => {
            let db = alias.to_owned();
            if has_name(dbs, &db) {
                Database::Named(db)
            } else {
                Database::Unknown(db)
            }
        },
    }
}

/// The alias that stands at `selection` in `dbs`, if that is a position in it.
pub fn selected_db(dbs: &Vec<String>, selection: usize) -> (alias: Option<String>)
    ensures
        match alias {
            Some(db) => selection < dbs.len() && db@ == dbs[selection as int]@,
            None => selection >= dbs.len(),
        },
{
    if selection < dbs.len() {
        Some(dbs[selection].clone())
    } else {
        None
    }
}

} // verus!
