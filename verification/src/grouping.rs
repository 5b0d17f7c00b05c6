use std::collections::HashMap;
use vstd::prelude::*;
use vstd::seq_lib::*;
use vstd::std_specs::hash::*;
use crate::model::State;

verus! {

broadcast use group_hash_axioms;

/// The test that picks the states of one country.
pub open spec fn in_country(country_id: u32) -> spec_fn(State) -> bool {
    |s: State| s.country_id == country_id
}

/// The states of one country, in the order in which the source lists them.
pub open spec fn group_of(states: Seq<State>, country_id: u32) -> Seq<State> {
    states.filter(in_country(country_id))
}

/// Whether some state of the sequence belongs to the country.
pub open spec fn has_country(states: Seq<State>, country_id: u32) -> bool {
    exists|i: int| 0 <= i < states.len() && (#[trigger] states[i]).country_id == country_id
}

/// The partition of a sequence of states by country: one group for each
/// country id that occurs, holding that country's states in source order.
pub open spec fn grouping(states: Seq<State>) -> Map<u32, Seq<State>> {
    Map::new(|k: u32| has_country(states, k), |k: u32| group_of(states, k))
}

/// The groups of a map from country id to vector, as sequences.
pub open spec fn groups_view(groups: Map<u32, Vec<State>>) -> Map<u32, Seq<State>> {
    groups.map_values(|v: Vec<State>| v@)
}

/// Appending one state extends the group of its country and no other.
pub proof fn lemma_grouping_push(states: Seq<State>, s: State)
    ensures
        grouping(states.push(s)) == grouping(states).insert(
            s.country_id,
            group_of(states, s.country_id).push(s),
        ),
{
    let next = states.push(s);
    let want = grouping(states).insert(s.country_id, group_of(states, s.country_id).push(s));
    assert forall|k: u32| grouping(next).contains_key(k) <==> want.contains_key(k) by {
        if has_country(next, k) && k != s.country_id {
            let i = choose|i: int| 0 <= i < next.len() && (#[trigger] next[i]).country_id == k;
            assert(states[i].country_id == k);
        }
        if has_country(states, k) {
            let i = choose|i: int| 0 <= i < states.len() && (#[trigger] states[i]).country_id == k;
            assert(next[i].country_id == k);
        }
        if k == s.country_id {
            assert(next[states.len() as int].country_id == k);
        }
    }
    assert forall|k: u32| grouping(next).contains_key(k) implies grouping(next)[k] == want[k] by {
        states.lemma_filter_push(s, in_country(k));
    }
    assert(grouping(next) =~= want);
}

/// A country without states has an empty group.
pub proof fn lemma_group_of_absent(states: Seq<State>, country_id: u32)
    requires
        !has_country(states, country_id),
    ensures
        group_of(states, country_id) == Seq::<State>::empty(),
    decreases states.len(),
{
    reveal(Seq::filter);
    if states.len() > 0 {
        let init = states.drop_last();
        assert(states[states.len() - 1].country_id != country_id);
        assert forall|i: int| 0 <= i < init.len() implies (#[trigger] init[i]).country_id
            != country_id by {
            assert(states[i].country_id != country_id);
        }
        lemma_group_of_absent(init, country_id);
    }
}

/// The test that picks the states of the listed countries.
pub open spec fn in_countries(keys: Seq<u32>) -> spec_fn(State) -> bool {
    |s: State| keys.contains(s.country_id)
}

/// The groups of the listed countries laid end to end, in the order of the list.
pub open spec fn concat_groups(groups: Map<u32, Seq<State>>, keys: Seq<u32>) -> Seq<State>
    decreases keys.len(),
{
    if keys.len() == 0 {
        Seq::empty()
    } else {
        concat_groups(groups, keys.drop_last()) + groups[keys.last()]
    }
}

/// The sizes of the groups of the listed countries, added up.
pub open spec fn total_size(groups: Map<u32, Seq<State>>, keys: Seq<u32>) -> nat
    decreases keys.len(),
{
    if keys.len() == 0 {
        0
    } else {
        total_size(groups, keys.drop_last()) + groups[keys.last()].len()
    }
}

/// Whether `keys` lists every group of `groups` once and nothing else.
pub open spec fn enumerates(keys: Seq<u32>, groups: Map<u32, Seq<State>>) -> bool {
    keys.no_duplicates() && keys.to_set() == groups.dom()
}

/// Every state of a group belongs to the group's country, and a state that
/// belongs to a country is in that country's group.
pub proof fn lemma_group_members(states: Seq<State>, country_id: u32)
    ensures
        forall|j: int|
            0 <= j < group_of(states, country_id).len() ==> (#[trigger] group_of(
                states,
                country_id,
            )[j]).country_id == country_id,
        forall|i: int|
            0 <= i < states.len() && (#[trigger] states[i]).country_id == country_id
                ==> group_of(states, country_id).contains(states[i]),
        has_country(states, country_id) <==> group_of(states, country_id).len() > 0,
{
    let group = group_of(states, country_id);
    assert forall|j: int| 0 <= j < group.len() implies (#[trigger] group[j]).country_id
        == country_id by {
        states.lemma_filter_pred(in_country(country_id), j);
    }
    assert forall|i: int|
        0 <= i < states.len() && (#[trigger] states[i]).country_id == country_id implies group.contains(
        states[i],
    ) by {
        states.lemma_filter_contains(in_country(country_id), i);
    }
    if has_country(states, country_id) {
        let i = choose|i: int| 0 <= i < states.len() && (#[trigger] states[i]).country_id == country_id;
        assert(group.contains(states[i]));
    } else {
        lemma_group_of_absent(states, country_id);
    }
}

/// Where two tests never both hold, filtering by either of them splits what
/// filtering by their disjunction keeps.
proof fn lemma_filter_split(
    states: Seq<State>,
    p: spec_fn(State) -> bool,
    q: spec_fn(State) -> bool,
    r: spec_fn(State) -> bool,
)
    requires
        forall|s: State| #[trigger] r(s) == (p(s) || q(s)) && !(p(s) && q(s)),
    ensures
        states.filter(r).to_multiset() == states.filter(p).to_multiset().add(
            states.filter(q).to_multiset(),
        ),
    decreases states.len(),
{
    broadcast use vstd::multiset::group_multiset_axioms;

    if states.len() == 0 {
        reveal(Seq::filter);
        assert(states.filter(r) =~= Seq::<State>::empty());
        assert(states.filter(p) =~= Seq::<State>::empty());
        assert(states.filter(q) =~= Seq::<State>::empty());
        Seq::<State>::empty().to_multiset_ensures();
        assert(states.filter(r).to_multiset() =~= states.filter(p).to_multiset().add(
            states.filter(q).to_multiset(),
        ));
    } else {
        let init = states.drop_last();
        let last = states.last();
        assert(states =~= init.push(last));
        lemma_filter_split(init, p, q, r);
        init.lemma_filter_push(last, p);
        init.lemma_filter_push(last, q);
        init.lemma_filter_push(last, r);
        to_multiset_build(init.filter(p), last);
        to_multiset_build(init.filter(q), last);
        to_multiset_build(init.filter(r), last);
        assert(states.filter(r).to_multiset() =~= states.filter(p).to_multiset().add(
            states.filter(q).to_multiset(),
        ));
    }
}

/// Filtering by a test that every state passes keeps the sequence as it is.
proof fn lemma_filter_keeps_all(states: Seq<State>, p: spec_fn(State) -> bool)
    requires
        forall|i: int| 0 <= i < states.len() ==> p(#[trigger] states[i]),
    ensures
        states.filter(p) == states,
    decreases states.len(),
{
    if states.len() == 0 {
        reveal(Seq::filter);
    } else {
        let init = states.drop_last();
        let last = states.last();
        assert(states =~= init.push(last));
        assert forall|i: int| 0 <= i < init.len() implies p(#[trigger] init[i]) by {
            assert(init[i] == states[i]);
        }
        lemma_filter_keeps_all(init, p);
        init.lemma_filter_push(last, p);
    }
}

/// Laid end to end, the groups of countries that are listed once each hold
/// the states of those countries, each as often as the input does.
proof fn lemma_concat_groups_filter(states: Seq<State>, keys: Seq<u32>)
    requires
        keys.no_duplicates(),
        forall|i: int| 0 <= i < keys.len() ==> has_country(states, #[trigger] keys[i]),
    ensures
        concat_groups(grouping(states), keys).to_multiset() == states.filter(
            in_countries(keys),
        ).to_multiset(),
        total_size(grouping(states), keys) == concat_groups(grouping(states), keys).len(),
    decreases keys.len(),
{
    broadcast use vstd::multiset::group_multiset_axioms;

    if keys.len() == 0 {
        assert forall|i: int| 0 <= i < states.len() implies !in_countries(keys)(
            #[trigger] states[i],
        ) by {}
        states.lemma_all_neg_filter_empty(in_countries(keys));
        assert(states.filter(in_countries(keys)) =~= Seq::<State>::empty());
    } else {
        let init = keys.drop_last();
        let k = keys.last();
        assert(has_country(states, keys[keys.len() - 1]));
        assert forall|i: int| 0 <= i < init.len() implies has_country(states, #[trigger] init[i]) by {
            assert(init[i] == keys[i]);
        }
        lemma_concat_groups_filter(states, init);
        assert(grouping(states)[k] == group_of(states, k));
        assert forall|s: State| #[trigger]
            in_countries(keys)(s) == (in_countries(init)(s) || in_country(k)(s)) && !(
            in_countries(init)(s) && in_country(k)(s)) by {
            if init.contains(k) {
                let i = choose|i: int| 0 <= i < init.len() && init[i] == k;
                assert(keys[i] == keys[keys.len() - 1]);
            }
            if keys.contains(s.country_id) {
                let i = choose|i: int| 0 <= i < keys.len() && keys[i] == s.country_id;
                if i < init.len() {
                    assert(init[i] == s.country_id);
                }
            }
            if init.contains(s.country_id) {
                let i = choose|i: int| 0 <= i < init.len() && init[i] == s.country_id;
                assert(keys[i] == s.country_id);
            }
            if s.country_id == k {
                assert(keys[keys.len() - 1] == k);
            }
        }
        lemma_filter_split(states, in_countries(init), in_country(k), in_countries(keys));
        lemma_multiset_commutative(concat_groups(grouping(states), init), group_of(states, k));
    }
}

/// Grouping drops no state and repeats none: in whatever order the groups
/// are listed, laid end to end they are a rearrangement of the input, and
/// their sizes add up to its length.
pub proof fn lemma_grouping_is_partition(states: Seq<State>, keys: Seq<u32>)
    requires
        enumerates(keys, grouping(states)),
    ensures
        concat_groups(grouping(states), keys).to_multiset() == states.to_multiset(),
        concat_groups(grouping(states), keys).len() == states.len(),
        total_size(grouping(states), keys) == states.len(),
{
    assert forall|i: int| 0 <= i < keys.len() implies has_country(states, #[trigger] keys[i]) by {
        assert(keys.to_set().contains(keys[i]));
        assert(grouping(states).dom().contains(keys[i]));
    }
    lemma_concat_groups_filter(states, keys);
    assert forall|i: int| 0 <= i < states.len() implies in_countries(keys)(#[trigger] states[i]) by {
        assert(has_country(states, states[i].country_id));
        assert(grouping(states).dom().contains(states[i].country_id));
        assert(keys.to_set().contains(states[i].country_id));
    }
    lemma_filter_keeps_all(states, in_countries(keys));
    to_multiset_len(concat_groups(grouping(states), keys));
    to_multiset_len(states);
}

/// Groups states by the country they belong to.
///
/// There is one group for each country id that occurs among the states, and
/// it holds that country's states in the order of the input.
pub fn group_states_by_country(states: Vec<State>) -> (by_country: HashMap<u32, Vec<State>>)
    ensures
        groups_view(by_country@) == grouping(states@),
        forall|k: u32| by_country@.contains_key(k) <==> has_country(states@, k),
        forall|k: u32|
            by_country@.contains_key(k) ==> (#[trigger] by_country@[k])@ == group_of(states@, k),
        forall|k: u32|
            by_country@.contains_key(k) ==> (#[trigger] by_country@[k])@.len() > 0,
        forall|k: u32, j: int|
            by_country@.contains_key(k) && 0 <= j < by_country@[k]@.len() ==> (
            #[trigger] by_country@[k]@[j]).country_id == k,
        forall|i: int|
            0 <= i < states@.len() ==> by_country@.contains_key((#[trigger] states@[i]).country_id)
                && by_country@[states@[i].country_id]@.contains(states@[i]),
{
    let mut by_country: HashMap<u32, Vec<State>> = HashMap::new();
    for state in it: states
        invariant
            it.seq() == states@,
            groups_view(by_country@) =~= grouping(states@.take(it.index() as int)),
    {
        let ghost done = states@.take(it.index() as int);
        let ghost before = by_country@;
        let country_id = state.country_id;
        proof {
            assert(states@.take(it.index() + 1) =~= done.push(state));
            lemma_grouping_push(done, state);
            assert(groups_view(before).contains_key(country_id) == before.contains_key(country_id));
            if !before.contains_key(country_id) {
                lemma_group_of_absent(done, country_id);
            } else {
                assert(groups_view(before)[country_id] == before[country_id]@);
            }
        }
        by_country.entry(country_id).or_insert(Vec::new()).push(state);
        assert(groups_view(by_country@) =~= grouping(done.push(state)));
    }
    assert(states@.take(states@.len() as int) =~= states@);
    assert forall|k: u32| by_country@.contains_key(k) <==> has_country(states@, k) by {
        assert(groups_view(by_country@).contains_key(k) == by_country@.contains_key(k));
    }
    assert forall|k: u32| by_country@.contains_key(k) implies (#[trigger] by_country@[k])@
        == group_of(states@, k) by {
        assert(groups_view(by_country@)[k] == by_country@[k]@);
    }
    assert forall|k: u32| by_country@.contains_key(k) implies (#[trigger] by_country@[k])@.len()
        > 0 by {
        lemma_group_members(states@, k);
    }
    assert forall|k: u32, j: int|
        by_country@.contains_key(k) && 0 <= j < by_country@[k]@.len() implies (
    #[trigger] by_country@[k]@[j]).country_id == k by {
        lemma_group_members(states@, k);
    }
    assert forall|i: int| 0 <= i < states@.len() implies by_country@.contains_key(
        (#[trigger] states@[i]).country_id,
    ) && by_country@[states@[i].country_id]@.contains(states@[i]) by {
        lemma_group_members(states@, states@[i].country_id);
    }
    by_country
}

} // verus!
