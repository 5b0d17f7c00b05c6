use std::collections::HashMap;
use vstd::prelude::*;
use vstd::std_specs::hash::*;
use vstd::string::StringExecFns;
use crate::decimal::{
    decimal_digits, decimal_string, is_digit, lemma_decimal_digits_injective,
    lemma_decimal_digits_shape,
};
use crate::index::{fallback_code, resolve_code, CountryIndex};
use crate::model::State;

verus! {

broadcast use group_hash_axioms;

/// The ending of every artifact's name.
pub open spec fn extension() -> Seq<char> {
    seq!['.', 'j', 's', 'o', 'n']
}

/// The name of a country's artifact: the id in decimal, an underscore, the
/// code, and the extension.
pub open spec fn filename_of(country_id: u32, code: Seq<char>) -> Seq<char> {
    decimal_digits(country_id as nat) + seq!['_'] + code + extension()
}

/// The share of the work that is done after `written` of `total` artifacts,
/// in whole percent, rounded down.
pub open spec fn progress_of(written: nat, total: nat) -> nat {
    written * 100 / total
}

/// Two artifacts bear the same name only where they are for the same country
/// id and the same code: the id alone keeps the names of two countries apart.
pub proof fn lemma_filename_injective(id1: u32, code1: Seq<char>, id2: u32, code2: Seq<char>)
    requires
        filename_of(id1, code1) == filename_of(id2, code2),
    ensures
        id1 == id2,
        code1 == code2,
{
    let d1 = decimal_digits(id1 as nat);
    let d2 = decimal_digits(id2 as nat);
    let n1 = filename_of(id1, code1);
    let n2 = filename_of(id2, code2);
    lemma_decimal_digits_shape(id1 as nat);
    lemma_decimal_digits_shape(id2 as nat);
    assert(n1[d1.len() as int] == '_');
    assert(n2[d2.len() as int] == '_');
    if d1.len() < d2.len() {
        assert(n2[d1.len() as int] == d2[d1.len() as int]);
        assert(is_digit(d2[d1.len() as int]));
    }
    if d2.len() < d1.len() {
        assert(n1[d2.len() as int] == d1[d2.len() as int]);
        assert(is_digit(d1[d2.len() as int]));
    }
    assert forall|i: int| 0 <= i < d1.len() implies d1[i] == d2[i] by {
        assert(n1[i] == d1[i]);
        assert(n2[i] == d2[i]);
    }
    assert(d1 =~= d2);
    lemma_decimal_digits_injective(id1 as nat, id2 as nat);
    assert(n1.len() == d1.len() + 1 + code1.len() + extension().len());
    assert(n2.len() == d2.len() + 1 + code2.len() + extension().len());
    assert(code1.len() == code2.len());
    assert forall|i: int| 0 <= i < code1.len() implies code1[i] == code2[i] by {
        assert(n1[d1.len() + 1 + i] == code1[i]);
        assert(n2[d2.len() + 1 + i] == code2[i]);
    }
    assert(code1 =~= code2);
}

/// Names the artifact of a country.
pub fn format_filename(country_id: u32, code: &str) -> (name: String)
    ensures
        name@ == filename_of(country_id, code@),
{
    let mut name = decimal_string(country_id as u64);
    name.append("_");
    name.append(code);
    name.append(".json");
    proof {
        reveal_strlit("_");
        reveal_strlit(".json");
        assert("_"@ =~= seq!['_']);
        assert(".json"@ =~= extension());
    }
    name
}

/// The percentage to report after `written` of `total` artifacts.
pub fn progress_percent(written: usize, total: usize) -> (percent: usize)
    requires
        written <= total,
        0 < total,
    ensures
        percent == progress_of(written as nat, total as nat),
        percent <= 100,
{
    let scaled: u128 = (written as u128) * 100;
    let percent: u128 = scaled / (total as u128);
    assert(percent <= 100) by (nonlinear_arith)
        requires
            percent == (written * 100) / (total as int),
            written <= total,
            0 < total,
    ;
    percent as usize
}

/// One artifact to write: which country it is for, what it is called, how
/// many states it holds, and the percentage to report once it is written.
#[derive(Debug, Clone, PartialEq, Eq)]
pub struct CountryFile {
    pub country_id: u32,
    pub filename: String,
    pub state_count: usize,
    pub progress: usize,
}

/// Whether `file` is the artifact of one of the `groups`, named after the
/// code that `index` resolves for its country, and due as number `position`
/// (counted from zero) of `total`.
pub open spec fn describes(
    file: CountryFile,
    groups: Map<u32, Vec<State>>,
    index: Map<u32, Seq<char>>,
    position: int,
    total: nat,
) -> bool {
    &&& groups.contains_key(file.country_id)
    &&& file.filename@ == filename_of(file.country_id, resolve_code(index, file.country_id))
    &&& file.state_count == groups[file.country_id]@.len()
    &&& file.progress == progress_of((position + 1) as nat, total)
}

/// Whether `files` lays out the writing of `groups`: one artifact for every
/// group and none besides, each named after the code that `index` resolves
/// for its country, with the percentage that is due at its place.
pub open spec fn is_plan(
    files: Seq<CountryFile>,
    groups: Map<u32, Vec<State>>,
    index: Map<u32, Seq<char>>,
) -> bool {
    &&& files.len() == groups.len()
    &&& forall|i: int|
        0 <= i < files.len() ==> describes(#[trigger] files[i], groups, index, i, groups.len())
    &&& forall|i: int, j: int|
        0 <= i < j < files.len() ==> (#[trigger] files[i]).country_id != (
        #[trigger] files[j]).country_id
    &&& forall|k: u32|
        groups.contains_key(k) ==> exists|i: int|
            0 <= i < files.len() && (#[trigger] files[i]).country_id == k
}

/// No two artifacts of a plan bear the same name, whatever the codes are.
pub proof fn lemma_plan_names_differ(
    files: Seq<CountryFile>,
    groups: Map<u32, Vec<State>>,
    index: Map<u32, Seq<char>>,
)
    requires
        is_plan(files, groups, index),
    ensures
        forall|i: int, j: int|
            0 <= i < j < files.len() ==> (#[trigger] files[i]).filename@ != (
            #[trigger] files[j]).filename@,
{
    assert forall|i: int, j: int| 0 <= i < j < files.len() implies (#[trigger] files[i]).filename@
        != (#[trigger] files[j]).filename@ by {
        if files[i].filename@ == files[j].filename@ {
            lemma_filename_injective(
                files[i].country_id,
                resolve_code(index, files[i].country_id),
                files[j].country_id,
                resolve_code(index, files[j].country_id),
            );
        }
    }
}

/// A group whose country the index does not know is neither left out nor
/// refused: the plan holds its artifact, named with the fallback code.
pub proof fn lemma_unknown_country_is_filed(
    files: Seq<CountryFile>,
    groups: Map<u32, Vec<State>>,
    index: Map<u32, Seq<char>>,
    country_id: u32,
)
    requires
        is_plan(files, groups, index),
        groups.contains_key(country_id),
        !index.contains_key(country_id),
    ensures
        exists|i: int|
            0 <= i < files.len() && (#[trigger] files[i]).country_id == country_id
                && files[i].filename@ == filename_of(country_id, fallback_code()),
{
    let i = choose|i: int| 0 <= i < files.len() && (#[trigger] files[i]).country_id == country_id;
    assert(describes(files[i], groups, index, i, groups.len()));
}

/// Whether `files` holds an artifact for the country of `file`, with the
/// same name and the same number of states.
pub open spec fn has_artifact(files: Seq<CountryFile>, file: CountryFile) -> bool {
    exists|j: int|
        0 <= j < files.len() && (#[trigger] files[j]).country_id == file.country_id
            && files[j].filename@ == file.filename@ && files[j].state_count == file.state_count
}

/// Two plans for the same groups and the same index write the same
/// artifacts: they can differ in the order of writing and in nothing else
/// but the percentages that follow from it.
pub proof fn lemma_plans_agree(
    first: Seq<CountryFile>,
    second: Seq<CountryFile>,
    groups: Map<u32, Vec<State>>,
    index: Map<u32, Seq<char>>,
)
    requires
        is_plan(first, groups, index),
        is_plan(second, groups, index),
    ensures
        first.len() == second.len(),
        forall|i: int| 0 <= i < first.len() ==> has_artifact(second, #[trigger] first[i]),
{
    assert forall|i: int| 0 <= i < first.len() implies has_artifact(second, #[trigger] first[i]) by {
        let k = first[i].country_id;
        assert(describes(first[i], groups, index, i, groups.len()));
        let j = choose|j: int| 0 <= j < second.len() && (#[trigger] second[j]).country_id == k;
        assert(describes(second[j], groups, index, j, groups.len()));
    }
}

/// Lays out the artifacts to write for the groups of a partition, in the
/// order in which they are to be written.
///
/// Every group gets exactly one artifact. The order is the one in which the
/// map hands out its keys, which is not fixed.
pub fn plan_country_files(by_country: &HashMap<u32, Vec<State>>, index: &CountryIndex) -> (files:
    Vec<CountryFile>)
    ensures
        is_plan(files@, by_country@, index@),
        forall|i: int, j: int|
            0 <= i < j < files@.len() ==> (#[trigger] files@[i]).filename@ != (
            #[trigger] files@[j]).filename@,
{
    let total = by_country.len();
    let mut files: Vec<CountryFile> = Vec::new();
    for country_id in it: by_country.keys()
        invariant
            total == by_country@.len(),
            it.seq().len() == by_country@.len(),
            it.seq().no_duplicates(),
            it.seq().unref().to_set() == by_country@.dom(),
            files@.len() == it.index(),
            forall|k: u32|
                by_country@.contains_key(k) ==> (exists|i: int|
                    0 <= i < files@.len() && (#[trigger] files@[i]).country_id == k) || (exists|
                    i: int,
                | files@.len() <= i < it.seq().len() && *(#[trigger] it.seq()[i]) == k),
            forall|i: int|
                0 <= i < files@.len() ==> (#[trigger] files@[i]).country_id == *it.seq()[i],
            forall|i: int|
                0 <= i < files@.len() ==> describes(
                    #[trigger] files@[i],
                    by_country@,
                    index@,
                    i,
                    by_country@.len(),
                ),
    {
        let id = *country_id;
        let state_count = match by_country.get(country_id) {
            Some(states) => states.len(),
            None => 0,
        };
        let filename = format_filename(id, index.code_for(id));
        let progress = progress_percent(files.len() + 1, total);
        let ghost before = files@;
        files.push(CountryFile { country_id: id, filename, state_count, progress });
        proof {
            assert forall|k: u32| by_country@.contains_key(k) implies (exists|i: int|
                0 <= i < files@.len() && (#[trigger] files@[i]).country_id == k) || (exists|i: int|
                files@.len() <= i < it.seq().len() && *(#[trigger] it.seq()[i]) == k) by {
                if exists|i: int| 0 <= i < before.len() && (#[trigger] before[i]).country_id == k {
                    let i = choose|i: int|
                        0 <= i < before.len() && (#[trigger] before[i]).country_id == k;
                    assert(files@[i].country_id == k);
                } else {
                    let i = choose|i: int|
                        before.len() <= i < it.seq().len() && *(#[trigger] it.seq()[i]) == k;
                    if i == before.len() {
                        assert(files@[i].country_id == k);
                    }
                }
            }
        }
    }
    proof {
        lemma_plan_names_differ(files@, by_country@, index@);
    }
    files
}

} // verus!
