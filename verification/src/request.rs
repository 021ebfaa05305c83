//! What is asked of the catalog service: the requests that list, install and
//! remove modules.

use vstd::prelude::*;
use crate::outcome::{ModuleError, ModuleErrorView};

verus! {

/// A request to the catalog service.
#[derive(Debug, Clone, PartialEq, Eq)]
pub enum Request {
    /// List every module that the service knows.
    ListAll,
    /// List the modules installed on the instance `db_alias`.
    ListInstalled { db_alias: String },
    /// Install the modules of `list` on the instance `db_alias`.
    Install { list: Vec<String>, db_alias: String },
    /// Remove the modules of `list` from the instance `db_alias`.
    Remove { list: Vec<String>, db_alias: String },
}

/// A `Request` with its names as sequences of characters.
pub enum RequestView {
    ListAll,
    ListInstalled { db_alias: Seq<char> },
    Install { list: Seq<Seq<char>>, db_alias: Seq<char> },
    Remove { list: Seq<Seq<char>>, db_alias: Seq<char> },
}

impl View for Request {
    type V = RequestView;

    open spec fn view(&self) -> RequestView {
        match self {
            Request::ListAll => RequestView::ListAll,
            Request::ListInstalled { db_alias } => RequestView::ListInstalled {
                db_alias: db_alias@,
            },
            Request::Install { list, db_alias } => RequestView::Install {
                list: list.deep_view(),
                db_alias: db_alias@,
            },
            Request::Remove { list, db_alias } => RequestView::Remove {
                list: list.deep_view(),
                db_alias: db_alias@,
            },
        }
    }
}

/// The path of the service that takes `request`.
pub open spec fn endpoint_of(request: RequestView) -> Seq<char> {
    match request {
        RequestView::ListAll => "module/list"@,
        RequestView::ListInstalled { .. } => "module/list"@,
        RequestView::Install { .. } => "module/install"@,
        RequestView::Remove { .. } => "module/remove"@,
    }
}

/// What it means for a command that the service answered `request` with an
/// error and `message`: the catalog could not be read, or the command could not
/// be carried out.
pub open spec fn failure_of(request: RequestView, message: Seq<char>) -> ModuleErrorView {
    match request {
        RequestView::ListAll => ModuleErrorView::CatalogFetchError(message),
        RequestView::ListInstalled { .. } => ModuleErrorView::CatalogFetchError(message),
        RequestView::Install { .. } => ModuleErrorView::CommandExecutionError(message),
        RequestView::Remove { .. } => ModuleErrorView::CommandExecutionError(message),
    }
}

impl Request {
    /// The error that the command ends with when the service answers this
    /// request with an error. `message` is what the service said, and is kept
    /// word for word.
    pub fn failure(&self, message: String) -> (error: ModuleError)
        ensures
            error@ == failure_of(self@, message@),
    {
        match self {
            Request::ListAll => ModuleError::CatalogFetchError(message),
            Request::ListInstalled { .. } => ModuleError::CatalogFetchError(message),
            Request::Install { .. } => ModuleError::CommandExecutionError(message),
            Request::Remove { .. } => ModuleError::CommandExecutionError(message),
        }
    }

    /// The path of the service that takes this request.
    pub fn endpoint(&self) -> (path: &'static str)
        ensures
            path@ == endpoint_of(self@),
    {
        match self {
            Request::ListAll => "module/list",
            Request::ListInstalled { .. } => "module/list",
            Request::Install { .. } => "module/install",
            Request::Remove { .. } => "module/remove",
        }
    }
}

/// The request that lists modules: those installed on `db` where an instance
/// is given, every module of the catalog where none is.
pub fn list_request(db: Option<&str>) -> (request: Request)
    ensures
        request@ == match db {
            None => RequestView::ListAll,
            Some(alias) => RequestView::ListInstalled { db_alias: alias@ },
        },
{
    match db {
        None => Request::ListAll,
        Some(alias) => Request::ListInstalled { db_alias: alias.to_owned() },
    }
}

/// What is sent to remove `mods` from the instance `db` once the operator was
/// asked to confirm: the request to remove them all if the operator agreed,
/// nothing if not.
pub fn remove(db: &str, mods: Vec<String>, confirmed: bool) -> (request: Option<Request>)
    ensures
        match request {
            Some(sent) => confirmed && sent@ == RequestView::Remove {
                list: mods.deep_view(),
                db_alias: db@,
            },
            None => !confirmed,
        },
{
    if confirmed {
        Some(Request::Remove { list: mods, db_alias: db.to_owned() })
    } else {
        None
    }
}

/// What is sent to install `mods` on the instance `db` once the operator was
/// asked to confirm: the request to install them all if the operator agreed,
/// nothing if not.
pub fn install(db: &str, mods: Vec<String>, confirmed: bool) -> (request: Option<Request>)
    ensures
        match request {
            Some(sent) => confirmed && sent@ == RequestView::Install {
                list: mods.deep_view(),
                db_alias: db@,
            },
            None => !confirmed,
        },
{
    if confirmed {
        Some(Request::Install { list: mods, db_alias: db.to_owned() })
    } else {
        None
    }
}

} // verus!
