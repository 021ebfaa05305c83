//! Which modules may be removed.
//!
//! A removal is safe when no module that stays installed declares a dependency
//! on a module that goes.

use vstd::prelude::*;
use crate::module::{Module, ModuleView, module_names, names_of};
use crate::names::{
    absent_from, first_absent, first_present, has_name, lemma_first_kept, lemma_kept_members,
    lemma_none_kept, lemma_picked_members, pick, picked, present_in,
};
use crate::outcome::{Decision, DecisionView, ModuleError, ModuleErrorView, outcome_view};

verus! {

/// Holds of the modules that would stay and that declare a dependency on one of
/// `requested`.
pub open spec fn blocks_removal(requested: Seq<Seq<char>>) -> spec_fn(ModuleView) -> bool {
    |m: ModuleView|
        !requested.contains(m.name) && m.dependencies.filter(present_in(requested)).len() > 0
}

/// Whether `requested` can leave `installed`. It cannot while a module stays
/// that needs one of them: the error then names the first such module in the
/// order of `installed`, and the first of its dependencies that was to go.
pub open spec fn dependents_check(
    installed: Seq<ModuleView>,
    requested: Seq<Seq<char>>,
) -> Result<DecisionView, ModuleErrorView> {
    let blocking = installed.filter(blocks_removal(requested));
    if blocking.len() > 0 {
        Err(
            ModuleErrorView::ModuleStillDepended {
                dependency: blocking[0].dependencies.filter(present_in(requested))[0],
                dependent: blocking[0].name,
            },
        )
    } else {
        Ok(DecisionView::Proceed { modules: requested, implied: Seq::empty() })
    }
}

/// The verdict on a removal that names its modules: every name must be in the
/// catalog, then every name must be installed, then nothing that stays may
/// depend on one of them. The first name that fails a test is reported, and the
/// tests are made in this order.
pub open spec fn removal_check(
    catalog: Seq<ModuleView>,
    installed: Seq<ModuleView>,
    requested: Seq<Seq<char>>,
) -> Result<DecisionView, ModuleErrorView> {
    let unknown = requested.filter(absent_from(names_of(catalog)));
    let missing = requested.filter(absent_from(names_of(installed)));
    if unknown.len() > 0 {
        Err(ModuleErrorView::ModuleNotFound(unknown[0]))
    } else if missing.len() > 0 {
        Err(ModuleErrorView::ModuleNotInstalled(missing[0]))
    } else {
        dependents_check(installed, requested)
    }
}

/// What a removal command does first, given the catalog, the modules installed
/// on the instance and the modules named on the command line, if any were.
pub open spec fn removal_outcome(
    catalog: Seq<ModuleView>,
    installed: Seq<ModuleView>,
    requested: Option<Seq<Seq<char>>>,
) -> Result<DecisionView, ModuleErrorView> {
    if installed.len() == 0 {
        Ok(DecisionView::NothingToDo)
    } else {
        match requested {
            None => Ok(DecisionView::Ask(names_of(installed))),
            Some(names) => removal_check(catalog, installed, names),
        }
    }
}

/// What a removal command does once the operator has marked the `positions` of
/// the modules to remove in the list of installed ones.
pub open spec fn removal_of_selection(
    installed: Seq<ModuleView>,
    positions: Seq<usize>,
) -> Result<DecisionView, ModuleErrorView> {
    if positions.len() == 0 {
        Ok(DecisionView::Aborted)
    } else {
        dependents_check(installed, picked(names_of(installed), positions))
    }
}

/// Tests that none of `installed_infos` that stays depends on one of `mods`.
pub fn check_dependents(installed_infos: &Vec<Module>, mods: &Vec<String>) -> (res: Result<
    (),
    ModuleError,
>)
    ensures
        match res {
            Ok(_) => dependents_check(installed_infos.deep_view(), mods.deep_view()) is Ok,
            Err(error) => dependents_check(installed_infos.deep_view(), mods.deep_view()) == Err::<
                DecisionView,
                ModuleErrorView,
            >(error@),
        },
{
    let ghost blocks = blocks_removal(mods.deep_view());
    let mut i: usize = 0;
    while i < installed_infos.len()
        invariant
            i <= installed_infos.len(),
            blocks == blocks_removal(mods.deep_view()),
            forall|k: int| 0 <= k < i ==> !blocks(installed_infos.deep_view()[k]),
        decreases installed_infos.len() - i,
    {
        let md = &installed_infos[i];
        if !has_name(mods, &md.name) {
            if let Some(j) = first_present(&md.dependencies, mods) {
                proof {
                    lemma_first_kept(installed_infos.deep_view(), blocks, i as int);
                }
                return Err(
                    ModuleError::ModuleStillDepended {
                        dependency: md.dependencies[j].clone(),
                        dependent: md.name.clone(),
                    },
                );
            }
        }
        i += 1;
    }
    proof {
        lemma_none_kept(installed_infos.deep_view(), blocks);
    }
    Ok(())
}

/// Decides what a removal command does first. `all_infos` is the catalog,
/// `installed_infos` what the instance has installed, `mods_opt` the modules
/// named on the command line.
///
/// With nothing installed there is nothing to do, whatever was named. With no
/// modules named the operator is asked to choose among the installed ones.
/// Otherwise the named modules are checked and, if they pass, returned as they
/// were given.
pub fn mods_to_rm(
    all_infos: &Vec<Module>,
    installed_infos: &Vec<Module>,
    mods_opt: Option<Vec<String>>,
) -> (res: Result<Decision, ModuleError>)
    ensures
        outcome_view(res) == removal_outcome(
            all_infos.deep_view(),
            installed_infos.deep_view(),
            mods_opt.deep_view(),
        ),
{
    let all = module_names(all_infos);
    let installed = module_names(installed_infos);
    assert(installed.len() == installed.deep_view().len());
    assert(installed.deep_view().len() == installed_infos.deep_view().len());
    if installed.len() == 0 {
        return Ok(Decision::NothingToDo);
    }
    let mods = match mods_opt {
        None => {
            return Ok(Decision::Ask(installed));
        },
        Some(mods) => mods,
    };
    if let Some(i) = first_absent(&mods, &all) {
        return Err(ModuleError::ModuleNotFound(mods[i].clone()));
    }
    if let Some(i) = first_absent(&mods, &installed) {
        return Err(ModuleError::ModuleNotInstalled(mods[i].clone()));
    }
    match check_dependents(installed_infos, &mods) {
        Err(error) => Err(error),
        Ok(_) => {
            let implied: Vec<String> = Vec::new();
            assert(implied.deep_view() =~= Seq::<Seq<char>>::empty());
            Ok(Decision::Proceed { modules: mods, implied })
        },
    }
}

/// Decides what a removal command does once the operator has chosen. `idxs`
/// holds the positions chosen in the list of installed modules that `mods_to_rm`
/// offered. An empty choice ends the command; any other is checked for modules
/// that stay and depend on a chosen one.
pub fn selection_to_rm(installed_infos: &Vec<Module>, idxs: &Vec<usize>) -> (res: Result<
    Decision,
    ModuleError,
>)
    ensures
        outcome_view(res) == removal_of_selection(installed_infos.deep_view(), idxs@),
{
    if idxs.len() == 0 {
        return Ok(Decision::Aborted);
    }
    let installed = module_names(installed_infos);
    let mods = pick(&installed, idxs);
    match check_dependents(installed_infos, &mods) {
        Err(error) => Err(error),
        Ok(_) => {
            let implied: Vec<String> = Vec::new();
            assert(implied.deep_view() =~= Seq::<Seq<char>>::empty());
            Ok(Decision::Proceed { modules: mods, implied })
        },
    }
}

/// Holds when no module of `installed` that stays once `requested` is gone
/// declares a dependency on one of `requested`.
pub open spec fn no_dependents_left(installed: Seq<ModuleView>, requested: Seq<Seq<char>>) -> bool {
    forall|i: int, j: int|
        0 <= i < installed.len() && !requested.contains(installed[i].name) && 0 <= j
            < installed[i].dependencies.len() ==> !requested.contains(
            #[trigger] installed[i].dependencies[j],
        )
}

/// Nothing blocks a removal exactly when no module that stays depends on one
/// that goes.
pub proof fn lemma_blocking_none(installed: Seq<ModuleView>, requested: Seq<Seq<char>>)
    ensures
        installed.filter(blocks_removal(requested)).len() == 0 <==> no_dependents_left(
            installed,
            requested,
        ),
{
    let blocks = blocks_removal(requested);
    let goes = present_in(requested);
    lemma_none_kept(installed, blocks);
    if no_dependents_left(installed, requested) {
        assert forall|i: int| 0 <= i < installed.len() implies !blocks(
            #[trigger] installed[i],
        ) by {
            lemma_none_kept(installed[i].dependencies, goes);
        }
    }
    if installed.filter(blocks).len() == 0 {
        assert forall|i: int, j: int|
            0 <= i < installed.len() && !requested.contains(installed[i].name) && 0 <= j
                < installed[i].dependencies.len() implies !requested.contains(
            #[trigger] installed[i].dependencies[j],
        ) by {
            assert(!blocks(installed[i]));
            lemma_none_kept(installed[i].dependencies, goes);
            assert(!goes(installed[i].dependencies[j]));
        }
    }
}

/// Take a catalog, an instance whose installed modules the catalog all lists,
/// and a request to remove modules that are all installed. The request is
/// accepted if and only if no module that stays declares a dependency on a
/// module that goes. Where modules are installed and the request is accepted,
/// it comes back as it was given, with nothing implied.
pub proof fn removal_accepted_iff_no_dependents(
    catalog: Seq<ModuleView>,
    installed: Seq<ModuleView>,
    requested: Seq<Seq<char>>,
)
    requires
        forall|i: int|
            0 <= i < installed.len() ==> names_of(catalog).contains(#[trigger] installed[i].name),
        forall|k: int|
            0 <= k < requested.len() ==> names_of(installed).contains(#[trigger] requested[k]),
    ensures
        removal_outcome(catalog, installed, Some(requested)) is Ok <==> no_dependents_left(
            installed,
            requested,
        ),
        installed.len() > 0 && no_dependents_left(installed, requested) ==> removal_outcome(
            catalog,
            installed,
            Some(requested),
        ) == Ok::<DecisionView, ModuleErrorView>(
            DecisionView::Proceed { modules: requested, implied: Seq::empty() },
        ),
{
    let known = names_of(catalog);
    let held = names_of(installed);
    assert forall|k: int| 0 <= k < requested.len() implies !absent_from(held)(
        #[trigger] requested[k],
    ) && !absent_from(known)(requested[k]) by {
        let i = choose|i: int| 0 <= i < held.len() && held[i] == requested[k];
        assert(installed[i].name == requested[k]);
    }
    lemma_none_kept(requested, absent_from(known));
    lemma_none_kept(requested, absent_from(held));
    lemma_blocking_none(installed, requested);
}

/// Once the operator has chosen among the installed modules, the choice is
/// accepted if and only if it is empty, which ends the command, or no module
/// that stays declares a dependency on a chosen one.
pub proof fn selected_removal_accepted_iff_no_dependents(
    installed: Seq<ModuleView>,
    positions: Seq<usize>,
)
    ensures
        removal_of_selection(installed, positions) is Ok <==> positions.len() == 0
            || no_dependents_left(installed, picked(names_of(installed), positions)),
{
    lemma_blocking_none(installed, picked(names_of(installed), positions));
}

/// What a choice removes was offered: every module of an accepted choice is
/// the name of an installed module.
pub proof fn selected_removal_stays_within_installed(
    installed: Seq<ModuleView>,
    positions: Seq<usize>,
)
    ensures
        removal_of_selection(installed, positions) matches Ok(
            DecisionView::Proceed { modules, implied },
        ) ==> implied.len() == 0 && forall|k: int|
            0 <= k < modules.len() ==> names_of(installed).contains(#[trigger] modules[k]),
{
    let chosen = picked(names_of(installed), positions);
    assert forall|k: int| 0 <= k < chosen.len() implies names_of(installed).contains(
        #[trigger] chosen[k],
    ) by {
        assert(chosen.contains(chosen[k]));
        lemma_picked_members(names_of(installed), positions, chosen[k]);
    }
}

/// A refusal for dependents is justified: the module it names as dependent is
/// installed and stays, and it declares the dependency it is blamed for, which
/// is one of the modules that were to go.
pub proof fn removal_refused_for_a_dependent(
    installed: Seq<ModuleView>,
    requested: Seq<Seq<char>>,
)
    requires
        dependents_check(installed, requested) is Err,
    ensures
        dependents_check(installed, requested) matches Err(
            ModuleErrorView::ModuleStillDepended { dependency, dependent },
        ) && requested.contains(dependency) && !requested.contains(dependent) && exists|i: int|
            0 <= i < installed.len() && #[trigger] installed[i].name == dependent
                && installed[i].dependencies.contains(dependency),
{
    let blocks = blocks_removal(requested);
    let goes = present_in(requested);
    let blocking = installed.filter(blocks);
    let first = blocking[0];
    assert(blocking.contains(first));
    lemma_kept_members(installed, blocks, first);
    let hits = first.dependencies.filter(goes);
    assert(hits.contains(hits[0]));
    lemma_kept_members(first.dependencies, goes, hits[0]);
    let i = choose|i: int| 0 <= i < installed.len() && installed[i] == first;
    assert(installed[i].name == first.name);
}

/// A request to remove a name that the catalog does not list is refused as not
/// found, whatever else it names, as long as anything is installed. The name
/// reported is one of the request that the catalog lacks.
pub proof fn removal_of_unknown_name_is_not_found(
    catalog: Seq<ModuleView>,
    installed: Seq<ModuleView>,
    requested: Seq<Seq<char>>,
)
    requires
        installed.len() > 0,
        exists|k: int|
            0 <= k < requested.len() && !names_of(catalog).contains(#[trigger] requested[k]),
    ensures
        removal_outcome(catalog, installed, Some(requested)) matches Err(
            ModuleErrorView::ModuleNotFound(name),
        ) && requested.contains(name) && !names_of(catalog).contains(name),
{
    let unknown = requested.filter(absent_from(names_of(catalog)));
    lemma_none_kept(requested, absent_from(names_of(catalog)));
    assert(unknown.contains(unknown[0]));
    lemma_kept_members(requested, absent_from(names_of(catalog)), unknown[0]);
}

/// A request to remove a module that the catalog lists and that is not
/// installed is refused as not installed, as long as anything is installed and
/// the catalog lists every name of the request.
pub proof fn removal_of_absent_module_is_not_installed(
    catalog: Seq<ModuleView>,
    installed: Seq<ModuleView>,
    requested: Seq<Seq<char>>,
)
    requires
        installed.len() > 0,
        forall|k: int|
            0 <= k < requested.len() ==> names_of(catalog).contains(#[trigger] requested[k]),
        exists|k: int|
            0 <= k < requested.len() && !names_of(installed).contains(#[trigger] requested[k]),
    ensures
        removal_outcome(catalog, installed, Some(requested)) matches Err(
            ModuleErrorView::ModuleNotInstalled(name),
        ) && requested.contains(name) && !names_of(installed).contains(name),
{
    let missing = requested.filter(absent_from(names_of(installed)));
    lemma_none_kept(requested, absent_from(names_of(catalog)));
    lemma_none_kept(requested, absent_from(names_of(installed)));
    assert(missing.contains(missing[0]));
    lemma_kept_members(requested, absent_from(names_of(installed)), missing[0]);
}

/// With nothing installed a removal does nothing and succeeds, whatever the
/// catalog holds and whatever was requested.
pub proof fn removal_from_empty_instance_is_a_no_op(
    catalog: Seq<ModuleView>,
    installed: Seq<ModuleView>,
    requested: Option<Seq<Seq<char>>>,
)
    requires
        installed.len() == 0,
    ensures
        removal_outcome(catalog, installed, requested) == Ok::<DecisionView, ModuleErrorView>(
            DecisionView::NothingToDo,
        ),
{
}

} // verus!
