use module_deps::database::{get_or_select_db, selected_db, Database};
use module_deps::listing::{join, list, TABLE_WIDTH};
use module_deps::module::{module_names, Module};
use module_deps::names::{
    distinct_names, first_absent, first_present, has_name, has_position, names_absent_from, pick,
};
use module_deps::outcome::ModuleError;
use module_deps::request::{install, list_request, remove, Request};

fn names(list: &[&str]) -> Vec<String> {
    list.iter().map(|s| s.to_string()).collect()
}

fn module(name: &str, dependencies: &[&str]) -> Module {
    Module::new(name.to_string(), names(dependencies))
}

#[test]
fn list_draws_a_row_for_each_module() {
    let mods = vec![module("A", &[]), module("B", &["A"]), module("C", &["A", "B"])];
    let expected = "\
┌─────────────┬───────────────────┐
│ Module Name │ Dependent Modules │
├─────────────┼───────────────────┤
│ A           │                   │
│ B           │ A                 │
│ C           │ A, B              │
└─────────────┴───────────────────┘
";
    assert_eq!(list(&mods), expected);
}

#[test]
fn list_of_no_modules_is_an_empty_frame() {
    let expected = "\
┌──┐
│  │
└──┘
";
    assert_eq!(list(&vec![]), expected);
}

#[test]
fn list_cuts_what_does_not_fit() {
    let long = "x".repeat(200);
    let text = list(&vec![module(&long, &[])]);
    let lines: Vec<&str> = text.lines().collect();
    assert_eq!(lines.len(), 5);
    for line in lines.iter() {
        assert_eq!(line.chars().count(), TABLE_WIDTH);
    }
    let head = format!("│ Module Name{} │ Dependent Modules │", " ".repeat(105));
    assert_eq!(lines[1], head);
    let shown = format!("│ {}+ │ {} │", "x".repeat(115), " ".repeat(17));
    assert_eq!(lines[3], shown);
}

#[test]
fn join_puts_the_separator_between_parts() {
    assert_eq!(join(&names(&[]), ", "), "");
    assert_eq!(join(&names(&["a"]), ", "), "a");
    assert_eq!(join(&names(&["a", "b", "c"]), ", "), "a, b, c");
    assert_eq!(join(&names(&["", ""]), ","), ",");
    assert_eq!(join(&names(&["a", "b"]), ""), "ab");
}

#[test]
fn module_names_keeps_the_order() {
    let mods = vec![module("B", &["A"]), module("A", &[]), module("B", &[])];
    assert_eq!(module_names(&mods), names(&["B", "A", "B"]));
    assert_eq!(module_names(&vec![]), names(&[]));
}

#[test]
fn module_new_keeps_what_it_is_given() {
    let m = Module::new("B".to_string(), names(&["A", "C"]));
    assert_eq!(m.name, "B");
    assert_eq!(m.dependencies, names(&["A", "C"]));
}

#[test]
fn has_name_compares_whole_names_by_case() {
    let list = names(&["alpha", "Beta"]);
    assert!(has_name(&list, &"alpha".to_string()));
    assert!(has_name(&list, &"Beta".to_string()));
    assert!(!has_name(&list, &"beta".to_string()));
    assert!(!has_name(&list, &"alph".to_string()));
    assert!(!has_name(&vec![], &"alpha".to_string()));
}

#[test]
fn has_position_finds_what_is_there() {
    assert!(has_position(&vec![3, 1], 1));
    assert!(!has_position(&vec![3, 1], 0));
    assert!(!has_position(&vec![], 0));
}

#[test]
fn first_absent_and_first_present_find_the_first() {
    let among = names(&["A", "B"]);
    assert_eq!(first_absent(&names(&["A", "X", "B", "Y"]), &among), Some(1));
    assert_eq!(first_absent(&names(&["B", "A"]), &among), None);
    assert_eq!(first_absent(&names(&[]), &among), None);
    assert_eq!(first_present(&names(&["X", "Y", "B", "A"]), &among), Some(2));
    assert_eq!(first_present(&names(&["X", "Y"]), &among), None);
    assert_eq!(first_present(&names(&["A"]), &vec![]), None);
}

#[test]
fn names_absent_from_keeps_order_and_repetitions() {
    let among = names(&["B"]);
    assert_eq!(names_absent_from(&names(&["C", "B", "A", "C"]), &among), names(&["C", "A", "C"]));
    assert_eq!(names_absent_from(&names(&["B", "B"]), &among), names(&[]));
}

#[test]
fn distinct_names_keeps_first_occurrences() {
    assert_eq!(distinct_names(&names(&["b", "a", "b", "c", "a"])), names(&["b", "a", "c"]));
    assert_eq!(distinct_names(&names(&["a", "A"])), names(&["a", "A"]));
    assert_eq!(distinct_names(&names(&[])), names(&[]));
}

#[test]
fn pick_takes_options_in_their_own_order() {
    let options = names(&["a", "b", "c"]);
    assert_eq!(pick(&options, &vec![2, 0]), names(&["a", "c"]));
    assert_eq!(pick(&options, &vec![1, 1]), names(&["b"]));
    assert_eq!(pick(&options, &vec![3, 9]), names(&[]));
    assert_eq!(pick(&options, &vec![]), names(&[]));
}

#[test]
fn list_request_depends_on_the_instance() {
    assert_eq!(list_request(None), Request::ListAll);
    assert_eq!(list_request(Some("db1")), Request::ListInstalled { db_alias: "db1".to_string() });
    assert_eq!(list_request(None).endpoint(), "module/list");
    assert_eq!(list_request(Some("db1")).endpoint(), "module/list");
}

#[test]
fn remove_sends_only_what_was_confirmed() {
    assert_eq!(remove("db1", names(&["A"]), false), None);
    let sent = remove("db1", names(&["A", "B"]), true);
    assert_eq!(
        sent,
        Some(Request::Remove { list: names(&["A", "B"]), db_alias: "db1".to_string() })
    );
    assert_eq!(sent.unwrap().endpoint(), "module/remove");
}

#[test]
fn install_sends_only_what_was_confirmed() {
    assert_eq!(install("db1", names(&["A"]), false), None);
    let sent = install("db1", names(&["B", "A"]), true);
    assert_eq!(
        sent,
        Some(Request::Install { list: names(&["B", "A"]), db_alias: "db1".to_string() })
    );
    assert_eq!(sent.unwrap().endpoint(), "module/install");
}

#[test]
fn get_or_select_db_checks_a_given_alias() {
    let dbs = names(&["main", "test"]);
    assert_eq!(get_or_select_db(&dbs, Some("test")), Database::Named("test".to_string()));
    assert_eq!(get_or_select_db(&dbs, Some("Test")), Database::Unknown("Test".to_string()));
    assert_eq!(get_or_select_db(&dbs, Some("")), Database::Unknown("".to_string()));
    assert_eq!(get_or_select_db(&dbs, None), Database::Choose);
    assert_eq!(get_or_select_db(&vec![], None), Database::Choose);
}

#[test]
fn selected_db_is_the_alias_at_the_position() {
    let dbs = names(&["main", "test"]);
    assert_eq!(selected_db(&dbs, 0), Some("main".to_string()));
    assert_eq!(selected_db(&dbs, 1), Some("test".to_string()));
    assert_eq!(selected_db(&dbs, 2), None);
    assert_eq!(selected_db(&vec![], 0), None);
}

#[test]
fn failure_of_a_listing_is_a_catalog_fetch_error() {
    let said = "service unavailable".to_string();
    assert_eq!(
        Request::ListAll.failure(said.clone()),
        ModuleError::CatalogFetchError(said.clone())
    );
    assert_eq!(
        list_request(Some("db1")).failure(said.clone()),
        ModuleError::CatalogFetchError(said)
    );
}

#[test]
fn failure_of_a_command_is_a_command_execution_error() {
    let said = "module B failed to install".to_string();
    let sent = install("db1", names(&["B"]), true).unwrap();
    assert_eq!(sent.failure(said.clone()), ModuleError::CommandExecutionError(said.clone()));
    let sent = remove("db1", names(&["B"]), true).unwrap();
    assert_eq!(sent.failure(said.clone()), ModuleError::CommandExecutionError(said));
}

#[test]
fn crate_root_offers_the_commands() {
    let catalog = vec![module("A", &[]), module("B", &["A"])];
    assert_eq!(
        module_deps::mods_to_install(&catalog, &vec![], Some(names(&["B"]))),
        Ok(module_deps::Decision::Proceed { modules: names(&["B", "A"]), implied: names(&["A"]) })
    );
    assert_eq!(
        module_deps::mods_to_rm(&catalog, &catalog, Some(names(&["A"]))),
        Err(module_deps::ModuleError::ModuleStillDepended {
            dependency: "A".to_string(),
            dependent: "B".to_string(),
        })
    );
}
