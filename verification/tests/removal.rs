use module_deps::module::Module;
use module_deps::outcome::{Decision, ModuleError};
use module_deps::removal::{check_dependents, mods_to_rm, selection_to_rm};

fn names(list: &[&str]) -> Vec<String> {
    list.iter().map(|s| s.to_string()).collect()
}

fn module(name: &str, dependencies: &[&str]) -> Module {
    Module::new(name.to_string(), names(dependencies))
}

fn catalog_abc() -> Vec<Module> {
    vec![module("A", &[]), module("B", &["A"]), module("C", &[])]
}

fn installed_ab() -> Vec<Module> {
    vec![module("A", &[]), module("B", &["A"])]
}

fn proceed(modules: &[&str]) -> Result<Decision, ModuleError> {
    Ok(Decision::Proceed { modules: names(modules), implied: vec![] })
}

#[test]
fn removing_a_module_that_another_needs_is_refused() {
    let res = mods_to_rm(&catalog_abc(), &installed_ab(), Some(names(&["A"])));
    assert_eq!(
        res,
        Err(ModuleError::ModuleStillDepended {
            dependency: "A".to_string(),
            dependent: "B".to_string(),
        })
    );
}

#[test]
fn removing_a_module_together_with_its_dependent_is_accepted() {
    let res = mods_to_rm(&catalog_abc(), &installed_ab(), Some(names(&["A", "B"])));
    assert_eq!(res, proceed(&["A", "B"]));
}

#[test]
fn removing_a_dependent_alone_is_accepted() {
    let res = mods_to_rm(&catalog_abc(), &installed_ab(), Some(names(&["B"])));
    assert_eq!(res, proceed(&["B"]));
}

#[test]
fn accepted_removal_comes_back_as_given() {
    let res = mods_to_rm(&catalog_abc(), &installed_ab(), Some(names(&["B", "A", "B"])));
    assert_eq!(res, proceed(&["B", "A", "B"]));
}

#[test]
fn removal_with_nothing_installed_does_nothing() {
    assert_eq!(mods_to_rm(&catalog_abc(), &vec![], Some(names(&["A"]))), Ok(Decision::NothingToDo));
    assert_eq!(
        mods_to_rm(&catalog_abc(), &vec![], Some(names(&["no-such-module"]))),
        Ok(Decision::NothingToDo)
    );
    assert_eq!(mods_to_rm(&catalog_abc(), &vec![], Some(vec![])), Ok(Decision::NothingToDo));
    assert_eq!(mods_to_rm(&catalog_abc(), &vec![], None), Ok(Decision::NothingToDo));
    assert_eq!(mods_to_rm(&vec![], &vec![], None), Ok(Decision::NothingToDo));
}

#[test]
fn removal_without_names_asks_among_the_installed() {
    let res = mods_to_rm(&catalog_abc(), &installed_ab(), None);
    assert_eq!(res, Ok(Decision::Ask(names(&["A", "B"]))));
}

#[test]
fn removal_of_unknown_name_is_not_found() {
    let res = mods_to_rm(&catalog_abc(), &installed_ab(), Some(names(&["A", "X", "Y"])));
    assert_eq!(res, Err(ModuleError::ModuleNotFound("X".to_string())));
}

#[test]
fn removal_compares_names_by_case() {
    let res = mods_to_rm(&catalog_abc(), &installed_ab(), Some(names(&["a"])));
    assert_eq!(res, Err(ModuleError::ModuleNotFound("a".to_string())));
}

#[test]
fn removal_of_module_that_is_not_installed_is_refused() {
    let res = mods_to_rm(&catalog_abc(), &installed_ab(), Some(names(&["B", "C"])));
    assert_eq!(res, Err(ModuleError::ModuleNotInstalled("C".to_string())));
}

#[test]
fn removal_looks_for_unknown_names_before_anything_else() {
    // "C" is not installed and comes first, yet the unknown "X" is what is reported.
    let res = mods_to_rm(&catalog_abc(), &installed_ab(), Some(names(&["C", "X"])));
    assert_eq!(res, Err(ModuleError::ModuleNotFound("X".to_string())));
    // "A" is needed by "B", which stays, yet "C", which is not installed, is reported.
    let res = mods_to_rm(&catalog_abc(), &installed_ab(), Some(names(&["A", "C"])));
    assert_eq!(res, Err(ModuleError::ModuleNotInstalled("C".to_string())));
}

#[test]
fn removal_of_nothing_is_accepted() {
    let res = mods_to_rm(&catalog_abc(), &installed_ab(), Some(vec![]));
    assert_eq!(res, proceed(&[]));
}

#[test]
fn removal_reports_the_first_dependent_and_its_first_dependency() {
    let installed = vec![
        module("A", &[]),
        module("B", &[]),
        module("C", &["Z", "B", "A"]),
        module("D", &["A"]),
    ];
    let res = check_dependents(&installed, &names(&["A", "B"]));
    assert_eq!(
        res,
        Err(ModuleError::ModuleStillDepended {
            dependency: "B".to_string(),
            dependent: "C".to_string(),
        })
    );
    assert_eq!(check_dependents(&installed, &names(&["A", "B", "C", "D"])), Ok(()));
    assert_eq!(check_dependents(&installed, &names(&["C", "D"])), Ok(()));
    assert_eq!(check_dependents(&installed, &vec![]), Ok(()));
}

#[test]
fn removal_ignores_what_the_catalog_says_of_dependencies() {
    // Only what the installed modules declare counts.
    let catalog = vec![module("A", &[]), module("B", &["A"])];
    let installed = vec![module("A", &[]), module("B", &[])];
    let res = mods_to_rm(&catalog, &installed, Some(names(&["A"])));
    assert_eq!(res, proceed(&["A"]));
}

#[test]
fn selection_to_rm_with_nothing_chosen_is_aborted() {
    assert_eq!(selection_to_rm(&installed_ab(), &vec![]), Ok(Decision::Aborted));
}

#[test]
fn selection_to_rm_takes_the_chosen_positions() {
    assert_eq!(selection_to_rm(&installed_ab(), &vec![1]), proceed(&["B"]));
    assert_eq!(selection_to_rm(&installed_ab(), &vec![1, 0]), proceed(&["A", "B"]));
    assert_eq!(selection_to_rm(&installed_ab(), &vec![1, 1, 0, 1]), proceed(&["A", "B"]));
    assert_eq!(selection_to_rm(&installed_ab(), &vec![7]), proceed(&[]));
}

#[test]
fn selection_to_rm_checks_for_dependents() {
    assert_eq!(
        selection_to_rm(&installed_ab(), &vec![0]),
        Err(ModuleError::ModuleStillDepended {
            dependency: "A".to_string(),
            dependent: "B".to_string(),
        })
    );
}
