//! Planning the installation and removal of optional database modules.
//!
//! A catalog lists every module with the modules it depends on; an instance has
//! some of them installed. From a catalog, an installed set and a request, this
//! crate decides which modules may be removed and which must be installed, and
//! proves that the decision is the one its contracts describe.

pub mod module;
pub mod names;
pub mod outcome;
pub mod removal;
pub mod installation;
pub mod listing;
pub mod request;
pub mod database;

pub use database::{get_or_select_db, selected_db, Database};
pub use installation::{mods_to_install, prerequisites, selection_to_install};
pub use listing::list;
pub use module::{module_names, Module};
pub use outcome::{Decision, ModuleError};
pub use removal::{check_dependents, mods_to_rm, selection_to_rm};
pub use request::{install, list_request, remove, Request};
