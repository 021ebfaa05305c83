//! Lists of names: membership, and the order-preserving operations on them that
//! the planners are specified with.

use vstd::prelude::*;

verus! {

/// Holds of the names that do not occur in `names`.
pub open spec fn absent_from(names: Seq<Seq<char>>) -> spec_fn(Seq<char>) -> bool {
    |name: Seq<char>| !names.contains(name)
}

/// Holds of the names that occur in `names`.
pub open spec fn present_in(names: Seq<Seq<char>>) -> spec_fn(Seq<char>) -> bool {
    |name: Seq<char>| names.contains(name)
}

/// `names` with every repetition of an earlier name left out: each name stays
/// where it first occurs.
pub open spec fn distinct(names: Seq<Seq<char>>) -> Seq<Seq<char>>
    decreases names.len(),
{
    if names.len() == 0 {
        names
    } else {
        let before = distinct(names.drop_last());
        if before.contains(names.last()) {
            before
        } else {
            before.push(names.last())
        }
    }
}

/// The options whose position is one of `positions`, in the order of `options`.
/// A position beyond the options selects nothing, and one given twice selects once.
pub open spec fn picked(options: Seq<Seq<char>>, positions: Seq<usize>) -> Seq<Seq<char>>
    decreases options.len(),
{
    if options.len() == 0 {
        options
    } else {
        let before = picked(options.drop_last(), positions);
        if positions.contains((options.len() - 1) as usize) {
            before.push(options.last())
        } else {
            before
        }
    }
}

/// Where `keep` rejects everything before position `i` and accepts what stands
/// there, the kept elements start with that one.
pub proof fn lemma_first_kept<A>(s: Seq<A>, keep: spec_fn(A) -> bool, i: int)
    requires
        0 <= i < s.len(),
        keep(s[i]),
        forall|j: int| 0 <= j < i ==> !keep(s[j]),
    ensures
        s.filter(keep).len() > 0,
        s.filter(keep)[0] == s[i],
{
    let head = s.take(i);
    let tail = s.skip(i + 1);
    lemma_none_kept(head, keep);
    Seq::lemma_filter_push(head, s[i], keep);
    assert(s =~= head.push(s[i]) + tail);
    Seq::filter_distributes_over_add(head.push(s[i]), tail, keep);
}

/// Nothing is kept exactly where `keep` rejects every element.
pub proof fn lemma_none_kept<A>(s: Seq<A>, keep: spec_fn(A) -> bool)
    ensures
        s.filter(keep).len() == 0 <==> forall|j: int| 0 <= j < s.len() ==> !keep(#[trigger] s[j]),
{
    if s.filter(keep).len() > 0 {
        let x = s.filter(keep)[0];
        Seq::lemma_filter_pred(s, keep, 0);
        assert(s.filter(keep).contains(x));
        Seq::lemma_filter_contains_rev(s, keep, x);
    }
    if exists|j: int| 0 <= j < s.len() && keep(#[trigger] s[j]) {
        let j = choose|j: int| 0 <= j < s.len() && keep(#[trigger] s[j]);
        Seq::lemma_filter_contains(s, keep, j);
    }
}

/// What is kept is what the sequence holds and `keep` accepts.
pub proof fn lemma_kept_members<A>(s: Seq<A>, keep: spec_fn(A) -> bool, x: A)
    ensures
        s.filter(keep).contains(x) <==> s.contains(x) && keep(x),
{
    if s.filter(keep).contains(x) {
        Seq::lemma_filter_contains_rev(s, keep, x);
        let k = choose|k: int| 0 <= k < s.filter(keep).len() && s.filter(keep)[k] == x;
        Seq::lemma_filter_pred(s, keep, k);
    }
    if s.contains(x) && keep(x) {
        let k = choose|k: int| 0 <= k < s.len() && s[k] == x;
        Seq::lemma_filter_contains(s, keep, k);
    }
}

/// Leaving out repetitions neither adds a name nor loses one.
pub proof fn lemma_distinct_members(names: Seq<Seq<char>>, name: Seq<char>)
    ensures
        distinct(names).contains(name) <==> names.contains(name),
    decreases names.len(),
{
    if names.len() > 0 {
        let front = names.drop_last();
        lemma_distinct_members(front, name);
        lemma_distinct_members(front, names.last());
        assert(names =~= front.push(names.last()));
        if names.contains(name) {
            let k = choose|k: int| 0 <= k < names.len() && names[k] == name;
            if k < names.len() - 1 {
                assert(front[k] == name);
            }
        }
        if front.contains(name) {
            let k = choose|k: int| 0 <= k < front.len() && front[k] == name;
            assert(names[k] == name);
        }
        if distinct(front).contains(name) && !distinct(front).contains(names.last()) {
            let k = choose|k: int| 0 <= k < distinct(front).len() && distinct(front)[k] == name;
            assert(distinct(front).push(names.last())[k] == name);
        }
        if !distinct(front).contains(names.last()) {
            assert(distinct(names)[distinct(front).len() as int] == names.last());
        }
    }
}

/// With the repetitions left out, no name occurs twice.
pub proof fn lemma_distinct_no_duplicates(names: Seq<Seq<char>>)
    ensures
        distinct(names).no_duplicates(),
    decreases names.len(),
{
    if names.len() > 0 {
        lemma_distinct_no_duplicates(names.drop_last());
    }
}

/// What is picked are the options that stand at one of the positions.
pub proof fn lemma_picked_members(
    options: Seq<Seq<char>>,
    positions: Seq<usize>,
    name: Seq<char>,
)
    ensures
        picked(options, positions).contains(name) <==> exists|i: int|
            0 <= i < options.len() && positions.contains(i as usize) && #[trigger] options[i]
                == name,
    decreases options.len(),
{
    if options.len() > 0 {
        let front = options.drop_last();
        let before = picked(front, positions);
        let at = options.len() - 1;
        lemma_picked_members(front, positions, name);
        if positions.contains(at as usize) {
            vstd::seq_lib::lemma_seq_contains_after_push(before, options.last(), name);
        }
        if picked(options, positions).contains(name) {
            if before.contains(name) {
                let i = choose|i: int|
                    0 <= i < front.len() && positions.contains(i as usize) && #[trigger] front[i]
                        == name;
                assert(options[i] == name);
            } else {
                assert(options[at] == name);
            }
        }
        if exists|i: int|
            0 <= i < options.len() && positions.contains(i as usize) && #[trigger] options[i]
                == name {
            let i = choose|i: int|
                0 <= i < options.len() && positions.contains(i as usize) && #[trigger] options[i]
                    == name;
            if i < at {
                assert(front[i] == name);
            }
        }
    }
}

/// Whether `name` is one of `names`, compared character by character.
pub fn has_name(names: &Vec<String>, name: &String) -> (found: bool)
    ensures
        found == names.deep_view().contains(name@),
{
    let mut i: usize = 0;
    while i < names.len()
        invariant
            i <= names.len(),
            forall|k: int| 0 <= k < i ==> names.deep_view()[k] != name@,
        decreases names.len() - i,
    {
        if names[i] == *name {
            assert(names.deep_view()[i as int] == name@);
            return true;
        }
        i += 1;
    }
    false
}

/// Whether `position` is one of `positions`.
pub fn has_position(positions: &Vec<usize>, position: usize) -> (found: bool)
    ensures
        found == positions@.contains(position),
{
    let mut i: usize = 0;
    while i < positions.len()
        invariant
            i <= positions.len(),
            forall|k: int| 0 <= k < i ==> positions@[k] != position,
        decreases positions.len() - i,
    {
        if positions[i] == position {
            return true;
        }
        i += 1;
    }
    false
}

/// The position of the first of `names` that `among` lacks, if there is one.
pub fn first_absent(names: &Vec<String>, among: &Vec<String>) -> (found: Option<usize>)
    ensures
        match found {
            Some(i) => {
                &&& i < names.len()
                &&& names.deep_view().filter(absent_from(among.deep_view())).len() > 0
                &&& names.deep_view().filter(absent_from(among.deep_view()))[0] == names[i as int]@
            },
            None => names.deep_view().filter(absent_from(among.deep_view())).len() == 0,
        },
{
    let ghost keep = absent_from(among.deep_view());
    let mut i: usize = 0;
    while i < names.len()
        invariant
            i <= names.len(),
            keep == absent_from(among.deep_view()),
            forall|k: int| 0 <= k < i ==> !keep(names.deep_view()[k]),
        decreases names.len() - i,
    {
        if !has_name(among, &names[i]) {
            proof {
                lemma_first_kept(names.deep_view(), keep, i as int);
            }
            return Some(i);
        }
        i += 1;
    }
    proof {
        lemma_none_kept(names.deep_view(), keep);
    }
    None
}

/// The position of the first of `names` that `among` holds too, if there is one.
pub fn first_present(names: &Vec<String>, among: &Vec<String>) -> (found: Option<usize>)
    ensures
        match found {
            Some(i) => {
                &&& i < names.len()
                &&& names.deep_view().filter(present_in(among.deep_view())).len() > 0
                &&& names.deep_view().filter(present_in(among.deep_view()))[0] == names[i as int]@
            },
            None => names.deep_view().filter(present_in(among.deep_view())).len() == 0,
        },
{
    let ghost keep = present_in(among.deep_view());
    let mut i: usize = 0;
    while i < names.len()
        invariant
            i <= names.len(),
            keep == present_in(among.deep_view()),
            forall|k: int| 0 <= k < i ==> !keep(names.deep_view()[k]),
        decreases names.len() - i,
    {
        if has_name(among, &names[i]) {
            proof {
                lemma_first_kept(names.deep_view(), keep, i as int);
            }
            return Some(i);
        }
        i += 1;
    }
    proof {
        lemma_none_kept(names.deep_view(), keep);
    }
    None
}

/// The names of `names` that `among` lacks, in their order.
pub fn names_absent_from(names: &Vec<String>, among: &Vec<String>) -> (rest: Vec<String>)
    ensures
        rest.deep_view() == names.deep_view().filter(absent_from(among.deep_view())),
{
    let ghost keep = absent_from(among.deep_view());
    let mut rest: Vec<String> = Vec::new();
    let mut i: usize = 0;
    proof {
        lemma_none_kept(names.deep_view().take(0), keep);
        assert(rest.deep_view() =~= names.deep_view().take(0).filter(keep));
    }
    while i < names.len()
        invariant
            i <= names.len(),
            keep == absent_from(among.deep_view()),
            rest.deep_view() == names.deep_view().take(i as int).filter(keep),
        decreases names.len() - i,
    {
        let ghost before = rest.deep_view();
        if !has_name(among, &names[i]) {
            rest.push(names[i].clone());
            assert(rest.deep_view() =~= before.push(names[i as int]@));
        }
        proof {
            Seq::lemma_take_succ_push(names.deep_view(), i as int);
            Seq::lemma_filter_push(names.deep_view().take(i as int), names[i as int]@, keep);
        }
        i += 1;
    }
    proof {
        Seq::lemma_take_len(names.deep_view());
    }
    rest
}

/// `names` without the repetitions: each name once, where it first occurs.
pub fn distinct_names(names: &Vec<String>) -> (once: Vec<String>)
    ensures
        once.deep_view() == distinct(names.deep_view()),
{
    let mut once: Vec<String> = Vec::new();
    let mut i: usize = 0;
    assert(once.deep_view() =~= distinct(names.deep_view().take(0)));
    while i < names.len()
        invariant
            i <= names.len(),
            once.deep_view() == distinct(names.deep_view().take(i as int)),
        decreases names.len() - i,
    {
        let ghost before = once.deep_view();
        proof {
            Seq::lemma_take_succ_push(names.deep_view(), i as int);
            assert(names.deep_view().take(i + 1).drop_last() =~= names.deep_view().take(i as int));
        }
        if !has_name(&once, &names[i]) {
            once.push(names[i].clone());
            assert(once.deep_view() =~= before.push(names[i as int]@));
        }
        i += 1;
    }
    proof {
        Seq::lemma_take_len(names.deep_view());
    }
    once
}

/// The options that stand at one of `positions`, in the order of `options`.
pub fn pick(options: &Vec<String>, positions: &Vec<usize>) -> (chosen: Vec<String>)
    ensures
        chosen.deep_view() == picked(options.deep_view(), positions@),
{
    let mut chosen: Vec<String> = Vec::new();
    let mut i: usize = 0;
    assert(chosen.deep_view() =~= picked(options.deep_view().take(0), positions@));
    while i < options.len()
        invariant
            i <= options.len(),
            chosen.deep_view() == picked(options.deep_view().take(i as int), positions@),
        decreases options.len() - i,
    {
        let ghost before = chosen.deep_view();
        proof {
            Seq::lemma_take_succ_push(options.deep_view(), i as int);
            assert(options.deep_view().take(i + 1).drop_last() =~= options.deep_view().take(
                i as int,
            ));
        }
        if has_position(positions, i) {
            chosen.push(options[i].clone());
            assert(chosen.deep_view() =~= before.push(options[i as int]@));
        }
        i += 1;
    }
    proof {
        Seq::lemma_take_len(options.deep_view());
    }
    chosen
}

} // verus!
