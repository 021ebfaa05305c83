//! The data model: a module and its declared dependencies.

use vstd::prelude::*;

verus! {

/// An optional feature of a managed database. `dependencies` names the modules
/// that must be present for this one to work, in the order the catalog declares
/// them. Nothing here demands that those names exist or that they form no cycle.
#[derive(Debug, Clone, PartialEq, Eq)]
pub struct Module {
    pub name: String,
    pub dependencies: Vec<String>,
}

/// A module as the contracts see it: names are sequences of characters, so that
/// two names are equal exactly when they are spelled alike, case included.
pub struct ModuleView {
    pub name: Seq<char>,
    pub dependencies: Seq<Seq<char>>,
}

impl DeepView for Module {
    type V = ModuleView;

    open spec fn deep_view(&self) -> ModuleView {
        ModuleView { name: self.name@, dependencies: self.dependencies.deep_view() }
    }
}

impl View for Module {
    type V = ModuleView;

    open spec fn view(&self) -> ModuleView {
        self.deep_view()
    }
}

impl Module {
    /// A module called `name` that depends on `dependencies`.
    pub fn new(name: String, dependencies: Vec<String>) -> (module: Module)
        ensures
            module.name == name,
            module.dependencies == dependencies,
    {
        Module { name, dependencies }
    }
}

/// The names of `modules`, in their order.
pub open spec fn names_of(modules: Seq<ModuleView>) -> Seq<Seq<char>> {
    modules.map_values(|m: ModuleView| m.name)
}

/// The names of `modules`, in their order.
pub fn module_names(modules: &Vec<Module>) -> (names: Vec<String>)
    ensures
        names.deep_view() == names_of(modules.deep_view()),
{
    let mut names: Vec<String> = Vec::new();
    let mut i: usize = 0;
    while i < modules.len()
        invariant
            i <= modules.len(),
            names.len() == i,
            forall|k: int| 0 <= k < i ==> names.deep_view()[k] == modules.deep_view()[k].name,
        decreases modules.len() - i,
    {
        let ghost before = names.deep_view();
        names.push(modules[i].name.clone());
        assert(names.deep_view() =~= before.push(modules.deep_view()[i as int].name));
        i += 1;
    }
    assert(names.deep_view() =~= names_of(modules.deep_view()));
    names
}

} // verus!
