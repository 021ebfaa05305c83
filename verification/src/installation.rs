//! Which modules must be installed.
//!
//! To the modules that were asked for, the planner adds the dependencies they
//! declare that are neither installed nor asked for. It looks one level deep
//! and no deeper: what an added module needs in turn is not added.

use vstd::prelude::*;
use crate::module::{Module, ModuleView, module_names, names_of};
use crate::names::{
    absent_from, distinct, distinct_names, first_absent, first_present, has_name,
    lemma_distinct_members, lemma_distinct_no_duplicates, lemma_kept_members, lemma_none_kept,
    names_absent_from, pick, picked, present_in,
};
use crate::outcome::{Decision, DecisionView, ModuleError, ModuleErrorView, outcome_view};

verus! {

/// The dependencies that the modules named in `requested` declare, one list
/// after the other in the order of `catalog`, repetitions included.
pub open spec fn declared_by(catalog: Seq<ModuleView>, requested: Seq<Seq<char>>) -> Seq<
    Seq<char>,
>
    decreases catalog.len(),
{
    if catalog.len() == 0 {
        Seq::empty()
    } else {
        let before = declared_by(catalog.drop_last(), requested);
        if requested.contains(catalog.last().name) {
            before + catalog.last().dependencies
        } else {
            before
        }
    }
}

/// Holds of the names that are neither installed nor requested.
pub open spec fn lacking(installed: Seq<Seq<char>>, requested: Seq<Seq<char>>) -> spec_fn(
    Seq<char>,
) -> bool {
    |name: Seq<char>| !installed.contains(name) && !requested.contains(name)
}

/// The modules that installing `requested` calls for beyond them: the declared
/// dependencies that are lacking, each once, in the order in which the catalog
/// brings them up.
pub open spec fn implied_by(
    catalog: Seq<ModuleView>,
    installed: Seq<Seq<char>>,
    requested: Seq<Seq<char>>,
) -> Seq<Seq<char>> {
    distinct(declared_by(catalog, requested).filter(lacking(installed, requested)))
}

/// The decision to install `requested` with what it implies: the requested
/// modules first, each once and in the order given, then the implied ones.
pub open spec fn with_implied(
    catalog: Seq<ModuleView>,
    installed: Seq<Seq<char>>,
    requested: Seq<Seq<char>>,
) -> DecisionView {
    DecisionView::Proceed {
        modules: distinct(requested) + implied_by(catalog, installed, requested),
        implied: implied_by(catalog, installed, requested),
    }
}

/// The verdict on an installation that names its modules: every name must be in
/// the catalog, then none may be installed already. The first name that fails a
/// test is reported, and the tests are made in this order.
pub open spec fn installation_check(
    catalog: Seq<ModuleView>,
    installed: Seq<Seq<char>>,
    requested: Seq<Seq<char>>,
) -> Result<DecisionView, ModuleErrorView> {
    let unknown = requested.filter(absent_from(names_of(catalog)));
    let present = requested.filter(present_in(installed));
    if unknown.len() > 0 {
        Err(ModuleErrorView::ModuleNotFound(unknown[0]))
    } else if present.len() > 0 {
        Err(ModuleErrorView::ModuleAlreadyInstalled(present[0]))
    } else {
        Ok(with_implied(catalog, installed, requested))
    }
}

/// What an installation command does first, given the catalog, the names of the
/// modules installed on the instance and the modules named on the command line,
/// if any were.
pub open spec fn installation_outcome(
    catalog: Seq<ModuleView>,
    installed: Seq<Seq<char>>,
    requested: Option<Seq<Seq<char>>>,
) -> Result<DecisionView, ModuleErrorView> {
    if catalog.len() == installed.len() {
        Ok(DecisionView::NothingToDo)
    } else {
        match requested {
            None => Ok(DecisionView::Ask(names_of(catalog).filter(absent_from(installed)))),
            Some(names) => installation_check(catalog, installed, names),
        }
    }
}

/// What an installation command does once the operator has marked the
/// `positions` of the modules to install in the list of those not yet installed.
pub open spec fn installation_of_selection(
    catalog: Seq<ModuleView>,
    installed: Seq<Seq<char>>,
    positions: Seq<usize>,
) -> DecisionView {
    if positions.len() == 0 {
        DecisionView::Aborted
    } else {
        with_implied(
            catalog,
            installed,
            picked(names_of(catalog).filter(absent_from(installed)), positions),
        )
    }
}

/// The modules that must be installed along with `mods` though nobody asked for
/// them: what the modules of `mods` declare as a dependency and is neither in
/// `installed` nor in `mods`.
pub fn prerequisites(all_infos: &Vec<Module>, installed: &Vec<String>, mods: &Vec<String>) -> (deps:
    Vec<String>)
    ensures
        deps.deep_view() == implied_by(
            all_infos.deep_view(),
            installed.deep_view(),
            mods.deep_view(),
        ),
{
    let ghost catalog = all_infos.deep_view();
    let ghost requested = mods.deep_view();
    let ghost lacks = lacking(installed.deep_view(), mods.deep_view());
    let mut deps: Vec<String> = Vec::new();
    let mut i: usize = 0;
    proof {
        assert(declared_by(catalog.take(0), requested).filter(lacks) =~= Seq::empty()) by {
            reveal(Seq::filter);
        }
        assert(deps.deep_view() =~= distinct(Seq::empty()));
    }
    while i < all_infos.len()
        invariant
            i <= all_infos.len(),
            catalog == all_infos.deep_view(),
            requested == mods.deep_view(),
            lacks == lacking(installed.deep_view(), mods.deep_view()),
            deps.deep_view() == distinct(declared_by(catalog.take(i as int), requested).filter(lacks)),
        decreases all_infos.len() - i,
    {
        let md = &all_infos[i];
        let ghost before = declared_by(catalog.take(i as int), requested);
        proof {
            assert(catalog.take(i + 1).drop_last() =~= catalog.take(i as int));
            assert(catalog.take(i + 1).last() == catalog[i as int]);
            assert(catalog[i as int].name == md.name@);
            assert(catalog[i as int].dependencies == md.dependencies.deep_view());
        }
        if has_name(mods, &md.name) {
            let ghost declared = md.dependencies.deep_view();
            let mut j: usize = 0;
            assert(before + declared.take(0) =~= before);
            while j < md.dependencies.len()
                invariant
                    j <= md.dependencies.len(),
                    declared == md.dependencies.deep_view(),
                    requested == mods.deep_view(),
                    lacks == lacking(installed.deep_view(), mods.deep_view()),
                    deps.deep_view() == distinct((before + declared.take(j as int)).filter(lacks)),
                decreases md.dependencies.len() - j,
            {
                let dmd = &md.dependencies[j];
                let ghost so_far = before + declared.take(j as int);
                let ghost held = deps.deep_view();
                proof {
                    assert(before + declared.take(j + 1) =~= so_far.push(declared[j as int]));
                    Seq::lemma_filter_push(so_far, declared[j as int], lacks);
                    assert(so_far.filter(lacks).push(declared[j as int]).drop_last()
                        =~= so_far.filter(lacks));
                }
                if !has_name(installed, dmd) && !has_name(mods, dmd) && !has_name(&deps, dmd) {
                    deps.push(dmd.clone());
                    assert(deps.deep_view() =~= held.push(declared[j as int]));
                }
                j += 1;
            }
            assert(declared.take(declared.len() as int) =~= declared);
        }
        i += 1;
    }
    proof {
        assert(catalog.take(catalog.len() as int) =~= catalog);
    }
    deps
}

/// The decision to install `mods` together with their prerequisites.
fn proceed_with(all_infos: &Vec<Module>, installed: &Vec<String>, mods: &Vec<String>) -> (decision:
    Decision)
    ensures
        decision@ == with_implied(
            all_infos.deep_view(),
            installed.deep_view(),
            mods.deep_view(),
        ),
{
    let implied = prerequisites(all_infos, installed, mods);
    let mut modules = distinct_names(mods);
    let ghost asked = modules.deep_view();
    let mut k: usize = 0;
    assert(modules.deep_view() =~= asked + implied.deep_view().take(0));
    while k < implied.len()
        invariant
            k <= implied.len(),
            modules.deep_view() == asked + implied.deep_view().take(k as int),
        decreases implied.len() - k,
    {
        let ghost held = modules.deep_view();
        modules.push(implied[k].clone());
        assert(modules.deep_view() =~= held.push(implied.deep_view()[k as int]));
        assert(asked + implied.deep_view().take(k + 1) =~= (asked + implied.deep_view().take(
            k as int,
        )).push(implied.deep_view()[k as int]));
        k += 1;
    }
    assert(implied.deep_view().take(implied.len() as int) =~= implied.deep_view());
    Decision::Proceed { modules, implied }
}

/// Decides what an installation command does first. `all_infos` is the catalog,
/// `installed` the names of the modules that the instance has installed,
/// `mods_opt` the modules named on the command line.
///
/// Where as many modules are installed as the catalog lists there is nothing to
/// do, whatever was named. With no modules named the operator is asked to
/// choose among those not installed. Otherwise the named modules are checked
/// and, if they pass, returned with the modules they imply.
pub fn mods_to_install(
    all_infos: &Vec<Module>,
    installed: &Vec<String>,
    mods_opt: Option<Vec<String>>,
) -> (res: Result<Decision, ModuleError>)
    ensures
        outcome_view(res) == installation_outcome(
            all_infos.deep_view(),
            installed.deep_view(),
            mods_opt.deep_view(),
        ),
{
    let all = module_names(all_infos);
    assert(all.len() == all.deep_view().len());
    assert(all.deep_view().len() == all_infos.deep_view().len());
    assert(installed.len() == installed.deep_view().len());
    if all.len() == installed.len() {
        return Ok(Decision::NothingToDo);
    }
    let mods = match mods_opt {
        None => {
            return Ok(Decision::Ask(names_absent_from(&all, installed)));
        },
        Some(mods) => mods,
    };
    if let Some(i) = first_absent(&mods, &all) {
        return Err(ModuleError::ModuleNotFound(mods[i].clone()));
    }
    if let Some(i) = first_present(&mods, installed) {
        return Err(ModuleError::ModuleAlreadyInstalled(mods[i].clone()));
    }
    Ok(proceed_with(all_infos, installed, &mods))
}

/// Decides what an installation command does once the operator has chosen.
/// `idxs` holds the positions chosen in the list of modules that
/// `mods_to_install` offered. An empty choice ends the command; any other is
/// returned with the modules it implies.
pub fn selection_to_install(all_infos: &Vec<Module>, installed: &Vec<String>, idxs: &Vec<usize>) -> (decision:
    Decision)
    ensures
        decision@ == installation_of_selection(
            all_infos.deep_view(),
            installed.deep_view(),
            idxs@,
        ),
{
    if idxs.len() == 0 {
        return Decision::Aborted;
    }
    let all = module_names(all_infos);
    let available = names_absent_from(&all, installed);
    let mods = pick(&available, idxs);
    proceed_with(all_infos, installed, &mods)
}

/// Holds of a name that a module of `requested` declares as a dependency and
/// that is neither installed nor requested itself.
pub open spec fn is_unmet_dependency(
    catalog: Seq<ModuleView>,
    installed: Seq<Seq<char>>,
    requested: Seq<Seq<char>>,
    name: Seq<char>,
) -> bool {
    &&& exists|i: int|
        0 <= i < catalog.len() && requested.contains(#[trigger] catalog[i].name)
            && catalog[i].dependencies.contains(name)
    &&& !installed.contains(name)
    &&& !requested.contains(name)
}

/// The declared dependencies are those of the catalog's modules that were
/// requested, and no others.
pub proof fn lemma_declared_members(
    catalog: Seq<ModuleView>,
    requested: Seq<Seq<char>>,
    name: Seq<char>,
)
    ensures
        declared_by(catalog, requested).contains(name) <==> exists|i: int|
            0 <= i < catalog.len() && requested.contains(#[trigger] catalog[i].name)
                && catalog[i].dependencies.contains(name),
    decreases catalog.len(),
{
    if catalog.len() > 0 {
        let front = catalog.drop_last();
        let last = catalog.last();
        let before = declared_by(front, requested);
        lemma_declared_members(front, requested, name);
        if requested.contains(last.name) {
            vstd::seq_lib::lemma_seq_concat_contains_all_elements(before, last.dependencies, name);
        }
        if declared_by(catalog, requested).contains(name) {
            if before.contains(name) {
                let i = choose|i: int|
                    0 <= i < front.len() && requested.contains(#[trigger] front[i].name)
                        && front[i].dependencies.contains(name);
                assert(requested.contains(catalog[i].name) && catalog[i].dependencies.contains(
                    name,
                ));
            } else {
                let i = catalog.len() - 1;
                assert(requested.contains(catalog[i].name) && catalog[i].dependencies.contains(
                    name,
                ));
            }
        }
        if exists|i: int|
            0 <= i < catalog.len() && requested.contains(#[trigger] catalog[i].name)
                && catalog[i].dependencies.contains(name) {
            let i = choose|i: int|
                0 <= i < catalog.len() && requested.contains(#[trigger] catalog[i].name)
                    && catalog[i].dependencies.contains(name);
            if i < catalog.len() - 1 {
                assert(requested.contains(front[i].name) && front[i].dependencies.contains(name));
            }
        }
    }
}

/// The implied modules are the unmet dependencies of the requested ones, and
/// none of them comes twice.
pub proof fn lemma_implied_members(
    catalog: Seq<ModuleView>,
    installed: Seq<Seq<char>>,
    requested: Seq<Seq<char>>,
)
    ensures
        forall|name: Seq<char>| #[trigger]
            implied_by(catalog, installed, requested).contains(name) <==> is_unmet_dependency(
                catalog,
                installed,
                requested,
                name,
            ),
        implied_by(catalog, installed, requested).no_duplicates(),
{
    let declared = declared_by(catalog, requested);
    let lacks = lacking(installed, requested);
    assert forall|name: Seq<char>| #[trigger]
        implied_by(catalog, installed, requested).contains(name) <==> is_unmet_dependency(
            catalog,
            installed,
            requested,
            name,
        ) by {
        lemma_distinct_members(declared.filter(lacks), name);
        lemma_kept_members(declared, lacks, name);
        lemma_declared_members(catalog, requested, name);
    }
    lemma_distinct_no_duplicates(declared.filter(lacks));
}

/// Take a catalog, the names installed on an instance that has fewer or more
/// modules than the catalog lists, and a request for modules that the catalog
/// lists and that are not installed. The planner then answers with the
/// requested modules and the modules they imply. A name is among the implied
/// ones if and only if a requested module declares it as a dependency and it is
/// neither installed nor requested: what an implied module depends on is not
/// added on that account. A name is in the answer if and only if it was
/// requested or is implied, and no name is in it twice.
pub proof fn installation_adds_direct_dependencies(
    catalog: Seq<ModuleView>,
    installed: Seq<Seq<char>>,
    requested: Seq<Seq<char>>,
)
    requires
        catalog.len() != installed.len(),
        forall|k: int|
            0 <= k < requested.len() ==> names_of(catalog).contains(#[trigger] requested[k]),
        forall|k: int| 0 <= k < requested.len() ==> !installed.contains(#[trigger] requested[k]),
    ensures
        installation_outcome(catalog, installed, Some(requested)) == Ok::<
            DecisionView,
            ModuleErrorView,
        >(with_implied(catalog, installed, requested)),
        with_implied(catalog, installed, requested) matches DecisionView::Proceed {
            modules,
            implied,
        } && {
            &&& forall|name: Seq<char>| #[trigger]
                implied.contains(name) <==> is_unmet_dependency(
                    catalog,
                    installed,
                    requested,
                    name,
                )
            &&& forall|name: Seq<char>| #[trigger]
                modules.contains(name) <==> requested.contains(name) || is_unmet_dependency(
                    catalog,
                    installed,
                    requested,
                    name,
                )
            &&& modules.no_duplicates()
            &&& implied.no_duplicates()
        },
{
    lemma_none_kept(requested, absent_from(names_of(catalog)));
    lemma_none_kept(requested, present_in(installed));
    lemma_implied_members(catalog, installed, requested);
    let asked = distinct(requested);
    let implied = implied_by(catalog, installed, requested);
    let modules = asked + implied;
    lemma_distinct_no_duplicates(requested);
    assert forall|name: Seq<char>| #[trigger]
        modules.contains(name) <==> requested.contains(name) || is_unmet_dependency(
            catalog,
            installed,
            requested,
            name,
        ) by {
        lemma_distinct_members(requested, name);
        vstd::seq_lib::lemma_seq_concat_contains_all_elements(asked, implied, name);
    }
    assert forall|i: int, j: int| 0 <= i < asked.len() && 0 <= j < implied.len() implies asked[i]
        != implied[j] by {
        lemma_distinct_members(requested, asked[i]);
        assert(asked.contains(asked[i]));
        assert(implied.contains(implied[j]));
    }
    vstd::seq_lib::lemma_no_dup_in_concat(asked, implied);
}

/// A request to install a name that the catalog does not list is refused as not
/// found, whatever else it names, unless as many modules are installed as the
/// catalog lists. The name reported is one of the request that the catalog
/// lacks.
pub proof fn installation_of_unknown_name_is_not_found(
    catalog: Seq<ModuleView>,
    installed: Seq<Seq<char>>,
    requested: Seq<Seq<char>>,
)
    requires
        catalog.len() != installed.len(),
        exists|k: int|
            0 <= k < requested.len() && !names_of(catalog).contains(#[trigger] requested[k]),
    ensures
        installation_outcome(catalog, installed, Some(requested)) matches Err(
            ModuleErrorView::ModuleNotFound(name),
        ) && requested.contains(name) && !names_of(catalog).contains(name),
{
    let unknown = requested.filter(absent_from(names_of(catalog)));
    lemma_none_kept(requested, absent_from(names_of(catalog)));
    assert(unknown.contains(unknown[0]));
    lemma_kept_members(requested, absent_from(names_of(catalog)), unknown[0]);
}

/// A request to install a module that is installed already is refused as
/// already installed, as long as the catalog lists every name of the request
/// and does not list as many modules as are installed. The name reported is
/// one of the request that is installed.
pub proof fn installation_of_installed_module_is_refused(
    catalog: Seq<ModuleView>,
    installed: Seq<Seq<char>>,
    requested: Seq<Seq<char>>,
)
    requires
        catalog.len() != installed.len(),
        forall|k: int|
            0 <= k < requested.len() ==> names_of(catalog).contains(#[trigger] requested[k]),
        exists|k: int| 0 <= k < requested.len() && installed.contains(#[trigger] requested[k]),
    ensures
        installation_outcome(catalog, installed, Some(requested)) matches Err(
            ModuleErrorView::ModuleAlreadyInstalled(name),
        ) && requested.contains(name) && installed.contains(name),
{
    let present = requested.filter(present_in(installed));
    lemma_none_kept(requested, absent_from(names_of(catalog)));
    lemma_none_kept(requested, present_in(installed));
    assert(present.contains(present[0]));
    lemma_kept_members(requested, present_in(installed), present[0]);
}

/// Where as many modules are installed as the catalog lists, an installation
/// does nothing and succeeds, whatever was requested.
pub proof fn installation_on_full_instance_is_a_no_op(
    catalog: Seq<ModuleView>,
    installed: Seq<Seq<char>>,
    requested: Option<Seq<Seq<char>>>,
)
    requires
        installed.len() == catalog.len(),
    ensures
        installation_outcome(catalog, installed, requested) == Ok::<
            DecisionView,
            ModuleErrorView,
        >(DecisionView::NothingToDo),
{
}

} // verus!
