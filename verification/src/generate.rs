//! The whole pipeline: select the vectors, build their units, write them.

use crate::error::{ErrorModel, GenerateError};
use crate::model::{
    groups_view, is_well_formed, names_view, GroupModel, PacketGroup, ValueModel, VectorModel,
};
use crate::render::{render_units, unit_texts, units_text};
use crate::select::{
    candidate_at, effective_name, lemma_empty_allow_list, lemma_listed_is_selected_once,
    lemma_skipped_content_is_irrelevant, select, selected_view, selection, with_vector, Candidate,
    Selected,
};
use crate::unit::{
    accessor_name, build_unit, lemma_unit_exists_iff_well_formed, lemma_unit_matches_vector,
    unit_for, units_view, TestUnit, UnitModel,
};
use vstd::prelude::*;

verus! {

/// Whether `k` is the first chosen vector for which no unit can be built.
pub open spec fn is_first_failure(chosen: Seq<Candidate>, module: Seq<char>, k: int) -> bool {
    &&& 0 <= k < chosen.len()
    &&& unit_for(chosen[k], module) is Err
    &&& forall|j: int| 0 <= j < k ==> unit_for(#[trigger] chosen[j], module) is Ok
}

/// The units for a list of chosen vectors, one for each and in the same
/// order; or, if a unit cannot be built for one of them, the error of the
/// first such vector and no unit at all.
pub open spec fn units_for(chosen: Seq<Candidate>, module: Seq<char>) -> Result<
    Seq<UnitModel>,
    ErrorModel,
> {
    if exists|k: int| is_first_failure(chosen, module, k) {
        Err(unit_for(chosen[choose|k: int| is_first_failure(chosen, module, k)], module)->Err_0)
    } else {
        Ok(chosen.map_values(|c: Candidate| unit_for(c, module)->Ok_0))
    }
}

/// What generation gives for a document: the units of the selected
/// vectors, or the first error among them.
pub open spec fn generated_units(
    groups: Seq<GroupModel>,
    allowed: Seq<Seq<char>>,
    module: Seq<char>,
) -> Result<Seq<UnitModel>, ErrorModel> {
    units_for(selection(groups, allowed), module)
}

/// The text that generation gives for a document.
pub open spec fn generated_text(
    groups: Seq<GroupModel>,
    allowed: Seq<Seq<char>>,
    module: Seq<char>,
) -> Result<Seq<char>, ErrorModel> {
    match generated_units(groups, allowed, module) {
        Ok(units) => Ok(units_text(units)),
        Err(e) => Err(e),
    }
}

/// Builds the units of a list of chosen vectors, stopping at the first
/// vector that fails.
pub fn build_units(chosen: &[Selected], module: &str) -> (r: Result<Vec<TestUnit>, GenerateError>)
    ensures
        match r {
            Ok(units) => Ok::<Seq<UnitModel>, ErrorModel>(units_view(units@)),
            Err(e) => Err(e@),
        } == units_for(selected_view(chosen@), module@),
{
    let ghost models = selected_view(chosen@);
    let mut units: Vec<TestUnit> = Vec::new();
    let mut k: usize = 0;
    while k < chosen.len()
        invariant
            k <= chosen.len(),
            models == selected_view(chosen@),
            units@.len() == k,
            forall|j: int| 0 <= j < k ==> unit_for(#[trigger] models[j], module@) is Ok,
            forall|j: int|
                0 <= j < k ==> (#[trigger] units@[j])@ == unit_for(models[j], module@)->Ok_0,
        decreases chosen.len() - k,
    {
        assert(models[k as int] == chosen@[k as int]@);
        match build_unit(&chosen[k], module) {
            Ok(unit) => {
                units.push(unit);
            },
            Err(e) => {
                proof {
                    assert(is_first_failure(models, module@, k as int));
                    let first = choose|i: int| is_first_failure(models, module@, i);
                    assert(first == k);
                }
                return Err(e);
            },
        }
        k += 1;
    }
    proof {
        assert(!exists|i: int| is_first_failure(models, module@, i));
        assert(units_view(units@) =~= models.map_values(
            |c: Candidate| unit_for(c, module@)->Ok_0,
        ));
    }
    Ok(units)
}

/// Generates the test units of a document.
///
/// The vectors whose effective name is one of `packet_names` are chosen,
/// in document order, and each becomes one unit. A chosen vector that is
/// malformed aborts the whole batch with its error; a vector that is not
/// chosen is never looked into.
pub fn generate_units(groups: &[PacketGroup], packet_names: &[String], module_name: &str) -> (r:
    Result<Vec<TestUnit>, GenerateError>)
    ensures
        match r {
            Ok(units) => Ok::<Seq<UnitModel>, ErrorModel>(units_view(units@)),
            Err(e) => Err(e@),
        } == generated_units(groups_view(groups@), names_view(packet_names@), module_name@),
{
    let chosen = select(groups, packet_names);
    build_units(chosen.as_slice(), module_name)
}

/// Generates the source text of the unit tests of a document: the texts
/// of all units, one after another, or the first error and no text.
pub fn generate_unit_tests(
    groups: &[PacketGroup],
    packet_names: &[String],
    module_name: &str,
) -> (r: Result<String, GenerateError>)
    ensures
        match r {
            Ok(text) => Ok::<Seq<char>, ErrorModel>(text@),
            Err(e) => Err(e@),
        } == generated_text(groups_view(groups@), names_view(packet_names@), module_name@),
{
    match generate_units(groups, packet_names, module_name) {
        Ok(units) => Ok(render_units(units.as_slice())),
        Err(e) => Err(e),
    }
}

/// If no unit can be built for some chosen vector, one such vector
/// comes first.
proof fn lemma_first_failure_exists(chosen: Seq<Candidate>, module: Seq<char>, k: int)
    requires
        0 <= k < chosen.len(),
        unit_for(chosen[k], module) is Err,
    ensures
        exists|f: int| is_first_failure(chosen, module, f),
    decreases k,
{
    if forall|j: int| 0 <= j < k ==> unit_for(#[trigger] chosen[j], module) is Ok {
        assert(is_first_failure(chosen, module, k));
    } else {
        let j = choose|j: int| 0 <= j < k && !(unit_for(#[trigger] chosen[j], module) is Ok);
        lemma_first_failure_exists(chosen, module, j);
    }
}

/// Generation succeeds exactly when a unit can be built for every chosen
/// vector, and then gives one unit for each, in the order of the
/// selection.
pub proof fn lemma_units_follow_selection(chosen: Seq<Candidate>, module: Seq<char>)
    ensures
        units_for(chosen, module) is Ok <==> forall|k: int|
            0 <= k < chosen.len() ==> unit_for(#[trigger] chosen[k], module) is Ok,
        units_for(chosen, module) is Ok ==> {
            let units = units_for(chosen, module)->Ok_0;
            &&& units.len() == chosen.len()
            &&& forall|k: int|
                0 <= k < chosen.len() ==> #[trigger] units[k] == unit_for(chosen[k], module)->Ok_0
        },
{
    if units_for(chosen, module) is Ok {
        assert forall|k: int| 0 <= k < chosen.len() implies unit_for(
            #[trigger] chosen[k],
            module,
        ) is Ok by {
            if unit_for(chosen[k], module) is Err {
                lemma_first_failure_exists(chosen, module, k);
            }
        }
    }
}

/// A vector whose effective name is not listed gives no unit and no
/// error, whatever it holds: generation gives the same units, the same
/// text or the same error when the vector is replaced by any other vector
/// that is not listed either.
pub proof fn lemma_skipped_vector_is_never_read(
    groups: Seq<GroupModel>,
    allowed: Seq<Seq<char>>,
    module: Seq<char>,
    g: int,
    i: int,
    other: VectorModel,
)
    requires
        0 <= g < groups.len(),
        0 <= i < groups[g].tests.len(),
        !allowed.contains(effective_name(groups[g], groups[g].tests[i])),
        !allowed.contains(effective_name(groups[g], other)),
    ensures
        generated_units(with_vector(groups, g, i, other), allowed, module) == generated_units(
            groups,
            allowed,
            module,
        ),
        generated_text(with_vector(groups, g, i, other), allowed, module) == generated_text(
            groups,
            allowed,
            module,
        ),
{
    lemma_skipped_content_is_irrelevant(groups, allowed, g, i, other);
}

/// A vector whose effective name is listed gives exactly one unit when
/// generation succeeds. The unit stands where the vector stands in the
/// selection, no other unit is made for the vector's place, and the unit
/// holds one comparison for each key of the vector's expected fields, in
/// the order of the keys.
pub proof fn lemma_listed_vector_gives_one_unit(
    groups: Seq<GroupModel>,
    allowed: Seq<Seq<char>>,
    module: Seq<char>,
    g: int,
    i: int,
) -> (at: int)
    requires
        0 <= g < groups.len(),
        0 <= i < groups[g].tests.len(),
        allowed.contains(effective_name(groups[g], groups[g].tests[i])),
        generated_units(groups, allowed, module) is Ok,
    ensures
        generated_units(groups, allowed, module)->Ok_0.len() == selection(groups, allowed).len(),
        0 <= at < selection(groups, allowed).len(),
        selection(groups, allowed)[at] == candidate_at(groups, g, i),
        forall|k: int|
            0 <= k < selection(groups, allowed).len() && k != at ==> {
                let c = #[trigger] selection(groups, allowed)[k];
                !(c.group == g && c.ordinal == i + 1)
            },
        unit_for(candidate_at(groups, g, i), module) is Ok,
        generated_units(groups, allowed, module)->Ok_0[at] == unit_for(
            candidate_at(groups, g, i),
            module,
        )->Ok_0,
        groups[g].tests[i].unpacked is Object,
        ({
            let unit = generated_units(groups, allowed, module)->Ok_0[at];
            let fields = groups[g].tests[i].unpacked->Object_0;
            &&& unit.assertions.len() == fields.len()
            &&& forall|j: int|
                0 <= j < fields.len() ==> {
                    &&& (#[trigger] fields[j]).value == ValueModel::Unsigned(
                        unit.assertions[j].expected,
                    )
                    &&& unit.assertions[j].accessor == accessor_name(fields[j].key)
                }
        }),
{
    let chosen = selection(groups, allowed);
    let at = lemma_listed_is_selected_once(groups, allowed, g, i);
    lemma_units_follow_selection(chosen, module);
    assert(unit_for(chosen[at], module) is Ok);
    lemma_unit_matches_vector(chosen[at], module);
    at
}

/// With an empty allow-list generation succeeds with no unit and an
/// empty text.
pub proof fn lemma_nothing_listed(
    groups: Seq<GroupModel>,
    allowed: Seq<Seq<char>>,
    module: Seq<char>,
)
    requires
        allowed.len() == 0,
    ensures
        generated_units(groups, allowed, module) == Ok::<Seq<UnitModel>, ErrorModel>(Seq::empty()),
        generated_text(groups, allowed, module) == Ok::<Seq<char>, ErrorModel>(Seq::empty()),
{
    lemma_empty_allow_list(groups, allowed);
    let chosen = selection(groups, allowed);
    assert(chosen.map_values(|c: Candidate| unit_for(c, module)->Ok_0) =~= Seq::<
        UnitModel,
    >::empty());
    assert(unit_texts(Seq::<UnitModel>::empty()) =~= Seq::<Seq<char>>::empty());
}

/// Generation succeeds exactly when every selected vector is well formed.
pub proof fn lemma_success_iff_selection_well_formed(
    groups: Seq<GroupModel>,
    allowed: Seq<Seq<char>>,
    module: Seq<char>,
)
    ensures
        generated_units(groups, allowed, module) is Ok <==> forall|k: int|
            0 <= k < selection(groups, allowed).len() ==> is_well_formed(
                (#[trigger] selection(groups, allowed)[k]).vector,
            ),
        generated_text(groups, allowed, module) is Ok <==> generated_units(
            groups,
            allowed,
            module,
        ) is Ok,
{
    let chosen = selection(groups, allowed);
    lemma_units_follow_selection(chosen, module);
    assert forall|k: int| 0 <= k < chosen.len() implies (unit_for(#[trigger] chosen[k], module) is Ok
        <==> is_well_formed(chosen[k].vector)) by {
        lemma_unit_exists_iff_well_formed(chosen[k], module);
    }
}

} // verus!
