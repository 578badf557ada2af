//! Choosing the vectors that tests are generated for.

use crate::model::{
    groups_view, names_view, GroupModel, PacketGroup, TestVector, VectorModel,
};
use vstd::prelude::*;
use vstd::seq_lib::lemma_flatten_concat;

verus! {

/// The name under which a vector is filtered and emitted: its own
/// override if it has one, else the name of its group.
pub open spec fn effective_name(group: GroupModel, vector: VectorModel) -> Seq<char> {
    match vector.packet {
        Some(name) => name,
        None => group.name,
    }
}

/// A vector of the document together with where it stands.
pub ghost struct Candidate {
    /// Index of the vector's group in the document.
    pub group: int,
    /// Position of the vector in its group's list, counted from 1.
    pub ordinal: int,
    /// The vector's effective name.
    pub name: Seq<char>,
    pub vector: VectorModel,
}

/// The candidate for vector `i` of group number `g`.
pub open spec fn candidate_at(groups: Seq<GroupModel>, g: int, i: int) -> Candidate {
    Candidate {
        group: g,
        ordinal: i + 1,
        name: effective_name(groups[g], groups[g].tests[i]),
        vector: groups[g].tests[i],
    }
}

/// The vectors of group number `g`, in order.
pub open spec fn group_candidates(groups: Seq<GroupModel>, g: int) -> Seq<Candidate> {
    Seq::new(groups[g].tests.len(), |i: int| candidate_at(groups, g, i))
}

/// The vectors of the document, one sequence for each group.
pub open spec fn candidates_by_group(groups: Seq<GroupModel>) -> Seq<Seq<Candidate>> {
    Seq::new(groups.len(), |g: int| group_candidates(groups, g))
}

/// Every vector of the document, in document order: group by group, and
/// within a group in the order of its list.
pub open spec fn candidates(groups: Seq<GroupModel>) -> Seq<Candidate> {
    candidates_by_group(groups).flatten()
}

/// The test of membership in the allow-list: the effective name is,
/// letter for letter, one of `allowed`.
pub open spec fn is_listed(allowed: Seq<Seq<char>>) -> spec_fn(Candidate) -> bool {
    |c: Candidate| allowed.contains(c.name)
}

/// The vectors to emit: those of the document whose effective name is
/// listed, in document order.
pub open spec fn selection(groups: Seq<GroupModel>, allowed: Seq<Seq<char>>) -> Seq<Candidate> {
    candidates(groups).filter(is_listed(allowed))
}

/// A vector chosen for emission.
#[derive(Debug, PartialEq, Eq)]
pub struct Selected<'a> {
    /// Index of the vector's group in the document.
    pub group: usize,
    /// Position of the vector in its group's list, counted from 1.
    pub ordinal: usize,
    /// The vector's effective name.
    pub name: &'a String,
    pub vector: &'a TestVector,
}

impl<'a> View for Selected<'a> {
    type V = Candidate;

    open spec fn view(&self) -> Candidate {
        Candidate {
            group: self.group as int,
            ordinal: self.ordinal as int,
            name: self.name@,
            vector: self.vector@,
        }
    }
}

/// The values of a sequence of chosen vectors.
pub open spec fn selected_view(chosen: Seq<Selected>) -> Seq<Candidate> {
    chosen.map_values(|s: Selected| s@)
}

/// The effective name of `vector`, which stands in `group`.
pub fn effective_name_of<'a>(group: &'a PacketGroup, vector: &'a TestVector) -> (name: &'a String)
    ensures
        name@ == effective_name(group@, vector@),
{
    match &vector.packet {
        Some(own) => own,
        None => &group.name,
    }
}

/// Whether `name` is one of `allowed`: exact, case-sensitive equality.
pub fn is_allowed(name: &String, allowed: &[String]) -> (found: bool)
    ensures
        found == names_view(allowed@).contains(name@),
{
    let mut i: usize = 0;
    while i < allowed.len()
        invariant
            i <= allowed.len(),
            forall|k: int| 0 <= k < i ==> names_view(allowed@)[k] != name@,
        decreases allowed.len() - i,
    {
        if allowed[i] == *name {
            assert(names_view(allowed@)[i as int] == name@);
            return true;
        }
        i += 1;
    }
    false
}

/// Selects the vectors to emit.
///
/// A vector is chosen exactly when its effective name is one of
/// `allowed`. The chosen vectors keep the order of the document, and each
/// carries the position it has in its own group's list. An empty
/// allow-list gives an empty selection.
pub fn select<'a>(groups: &'a [PacketGroup], allowed: &[String]) -> (chosen: Vec<Selected<'a>>)
    ensures
        selected_view(chosen@) == selection(groups_view(groups@), names_view(allowed@)),
{
    let ghost doc = groups_view(groups@);
    let ghost listed = is_listed(names_view(allowed@));
    let ghost by_group = candidates_by_group(doc);
    let mut chosen: Vec<Selected<'a>> = Vec::new();
    let mut g: usize = 0;
    assert(selected_view(chosen@) =~= by_group.take(0).flatten().filter(listed)) by {
        reveal(Seq::filter);
    }
    while g < groups.len()
        invariant
            g <= groups.len(),
            doc == groups_view(groups@),
            listed == is_listed(names_view(allowed@)),
            by_group == candidates_by_group(doc),
            selected_view(chosen@) == by_group.take(g as int).flatten().filter(listed),
        decreases groups.len() - g,
    {
        let group = &groups[g];
        let ghost before = selected_view(chosen@);
        let ghost here = group_candidates(doc, g as int);
        let mut i: usize = 0;
        assert(selected_view(chosen@) =~= before + here.take(0).filter(listed)) by {
            reveal(Seq::filter);
        }
        while i < group.tests.len()
            invariant
                g < groups.len(),
                group == &groups[g as int],
                i <= group.tests.len(),
                doc == groups_view(groups@),
                listed == is_listed(names_view(allowed@)),
                here == group_candidates(doc, g as int),
                selected_view(chosen@) == before + here.take(i as int).filter(listed),
            decreases group.tests.len() - i,
        {
            let vector = &group.tests[i];
            let name = effective_name_of(group, vector);
            let ghost earlier = selected_view(chosen@);
            let entry = Selected { group: g, ordinal: i + 1, name, vector };
            proof {
                assert(doc[g as int] == group@);
                assert(doc[g as int].tests[i as int] == vector@);
                assert(entry@ == here[i as int]);
                assert(here.take(i + 1) =~= here.take(i as int).push(here[i as int]));
                here.take(i as int).lemma_filter_push(here[i as int], listed);
            }
            if is_allowed(name, allowed) {
                chosen.push(entry);
                assert(selected_view(chosen@) =~= earlier.push(entry@));
                assert(selected_view(chosen@) =~= before + here.take(i + 1).filter(listed));
            }
            i += 1;
        }
        proof {
            assert(here.take(i as int) =~= here);
            assert(by_group.take(g + 1) =~= by_group.take(g as int).push(here));
            by_group.take(g as int).lemma_flatten_push(here);
            Seq::filter_distributes_over_add(by_group.take(g as int).flatten(), here, listed);
        }
        g += 1;
    }
    assert(by_group.take(g as int) =~= by_group);
    chosen
}

/// Whether `a` stands before `b` in the document.
pub open spec fn stands_before(a: Candidate, b: Candidate) -> bool {
    a.group < b.group || (a.group == b.group && a.ordinal < b.ordinal)
}

/// Whether `c` is the candidate of the place that it names.
pub open spec fn is_candidate_of(groups: Seq<GroupModel>, c: Candidate) -> bool {
    &&& 0 <= c.group < groups.len()
    &&& 1 <= c.ordinal <= groups[c.group].tests.len()
    &&& c == candidate_at(groups, c.group, c.ordinal - 1)
}

/// Whether each entry of `list` stands before the entries that follow it.
pub open spec fn in_document_order(list: Seq<Candidate>) -> bool {
    forall|a: int, b: int| 0 <= a < b < list.len() ==> stands_before(list[a], list[b])
}

/// The candidates of the first `n` groups: each is the candidate of its
/// place in one of those groups, each place of those groups occurs, and
/// they stand in document order.
proof fn lemma_candidates_of_prefix(groups: Seq<GroupModel>, n: int)
    requires
        0 <= n <= groups.len(),
    ensures
        forall|k: int|
            0 <= k < candidates_by_group(groups).take(n).flatten().len() ==> {
                let c = #[trigger] candidates_by_group(groups).take(n).flatten()[k];
                is_candidate_of(groups, c) && c.group < n
            },
        forall|g: int, i: int|
            0 <= g < n && 0 <= i < groups[g].tests.len() ==> candidates_by_group(groups).take(
                n,
            ).flatten().contains(#[trigger] candidate_at(groups, g, i)),
        in_document_order(candidates_by_group(groups).take(n).flatten()),
    decreases n,
{
    let by_group = candidates_by_group(groups);
    let flat = by_group.take(n).flatten();
    if n == 0 {
        assert(by_group.take(0) =~= Seq::<Seq<Candidate>>::empty());
        assert(flat =~= Seq::<Candidate>::empty());
    } else {
        lemma_candidates_of_prefix(groups, n - 1);
        let before = by_group.take(n - 1).flatten();
        let here = group_candidates(groups, n - 1);
        assert(by_group.take(n) =~= by_group.take(n - 1).push(here));
        by_group.take(n - 1).lemma_flatten_push(here);
        assert(flat =~= before + here);
        assert forall|k: int| 0 <= k < flat.len() implies is_candidate_of(groups, #[trigger] flat[k])
            && flat[k].group < n by {
            if k < before.len() {
                assert(flat[k] == before[k]);
            } else {
                assert(flat[k] == here[k - before.len()]);
            }
        }
        assert forall|g: int, i: int|
            0 <= g < n && 0 <= i < groups[g].tests.len() implies flat.contains(
            #[trigger] candidate_at(groups, g, i),
        ) by {
            let c = candidate_at(groups, g, i);
            if g < n - 1 {
                let k = choose|k: int| 0 <= k < before.len() && before[k] == c;
                assert(flat[k] == c);
            } else {
                assert(here[i] == c);
                assert(flat[before.len() + i] == c);
            }
        }
        assert forall|a: int, b: int| 0 <= a < b < flat.len() implies stands_before(
            flat[a],
            flat[b],
        ) by {
            if b < before.len() {
                assert(flat[a] == before[a] && flat[b] == before[b]);
            } else if a < before.len() {
                assert(flat[a] == before[a]);
                assert(flat[b] == here[b - before.len()]);
            } else {
                assert(flat[a] == here[a - before.len()]);
                assert(flat[b] == here[b - before.len()]);
            }
        }
    }
}

/// Filtering keeps the document order, and gives only entries of the
/// list that pass the test.
proof fn lemma_filter_keeps_order(list: Seq<Candidate>, test: spec_fn(Candidate) -> bool)
    requires
        in_document_order(list),
    ensures
        in_document_order(list.filter(test)),
        forall|k: int|
            0 <= k < list.filter(test).len() ==> list.contains(#[trigger] list.filter(test)[k])
                && test(list.filter(test)[k]),
    decreases list.len(),
{
    reveal(Seq::filter);
    if list.len() > 0 {
        let front = list.drop_last();
        let kept = front.filter(test);
        let all = list.filter(test);
        assert forall|a: int, b: int| 0 <= a < b < front.len() implies stands_before(
            front[a],
            front[b],
        ) by {
            assert(front[a] == list[a] && front[b] == list[b]);
        }
        lemma_filter_keeps_order(front, test);
        assert forall|k: int| 0 <= k < kept.len() implies list.contains(#[trigger] kept[k])
            && stands_before(kept[k], list.last()) by {
            let j = choose|j: int| 0 <= j < front.len() && front[j] == kept[k];
            assert(list[j] == kept[k]);
        }
        if test(list.last()) {
            assert(all == kept.push(list.last()));
            assert(list[list.len() - 1] == list.last());
            assert forall|k: int| 0 <= k < all.len() implies list.contains(#[trigger] all[k])
                && test(all[k]) by {
                if k < kept.len() {
                    assert(all[k] == kept[k]);
                }
            }
            assert forall|a: int, b: int| 0 <= a < b < all.len() implies stands_before(
                all[a],
                all[b],
            ) by {
                assert(all[a] == kept[a]);
                if b < kept.len() {
                    assert(all[b] == kept[b]);
                }
            }
        } else {
            assert(all == kept);
        }
    }
}

/// The selection keeps the order of the document, holds only vectors of
/// the document, each at the place it names, and only listed ones.
pub proof fn lemma_selection_in_document_order(groups: Seq<GroupModel>, allowed: Seq<Seq<char>>)
    ensures
        in_document_order(selection(groups, allowed)),
        forall|k: int|
            0 <= k < selection(groups, allowed).len() ==> {
                let c = #[trigger] selection(groups, allowed)[k];
                is_candidate_of(groups, c) && allowed.contains(c.name)
            },
{
    let by_group = candidates_by_group(groups);
    let all = candidates(groups);
    let chosen = selection(groups, allowed);
    assert(by_group.take(groups.len() as int) =~= by_group);
    lemma_candidates_of_prefix(groups, groups.len() as int);
    lemma_filter_keeps_order(all, is_listed(allowed));
    assert forall|k: int| 0 <= k < chosen.len() implies is_candidate_of(
        groups,
        #[trigger] chosen[k],
    ) && allowed.contains(chosen[k].name) by {
        let j = choose|j: int| 0 <= j < all.len() && all[j] == chosen[k];
        assert(is_candidate_of(groups, all[j]));
    }
}

/// A vector whose effective name is not listed is left out: no entry of
/// the selection stands for it.
pub proof fn lemma_unlisted_is_skipped(
    groups: Seq<GroupModel>,
    allowed: Seq<Seq<char>>,
    g: int,
    i: int,
)
    requires
        0 <= g < groups.len(),
        0 <= i < groups[g].tests.len(),
        !allowed.contains(effective_name(groups[g], groups[g].tests[i])),
    ensures
        forall|k: int|
            0 <= k < selection(groups, allowed).len() ==> {
                let c = #[trigger] selection(groups, allowed)[k];
                !(c.group == g && c.ordinal == i + 1)
            },
{
    lemma_selection_in_document_order(groups, allowed);
}

/// A vector whose effective name is listed is chosen exactly once: one
/// entry of the selection stands for it, and no other entry names its
/// place.
pub proof fn lemma_listed_is_selected_once(
    groups: Seq<GroupModel>,
    allowed: Seq<Seq<char>>,
    g: int,
    i: int,
) -> (at: int)
    requires
        0 <= g < groups.len(),
        0 <= i < groups[g].tests.len(),
        allowed.contains(effective_name(groups[g], groups[g].tests[i])),
    ensures
        0 <= at < selection(groups, allowed).len(),
        selection(groups, allowed)[at] == candidate_at(groups, g, i),
        forall|k: int|
            0 <= k < selection(groups, allowed).len() && k != at ==> {
                let c = #[trigger] selection(groups, allowed)[k];
                !(c.group == g && c.ordinal == i + 1)
            },
{
    let by_group = candidates_by_group(groups);
    let all = candidates(groups);
    let chosen = selection(groups, allowed);
    let c = candidate_at(groups, g, i);
    assert(by_group.take(groups.len() as int) =~= by_group);
    lemma_candidates_of_prefix(groups, groups.len() as int);
    assert(all.contains(c));
    let j = choose|j: int| 0 <= j < all.len() && all[j] == c;
    all.lemma_filter_contains(is_listed(allowed), j);
    let at = choose|k: int| 0 <= k < chosen.len() && chosen[k] == c;
    lemma_selection_in_document_order(groups, allowed);
    assert forall|k: int| 0 <= k < chosen.len() && k != at implies !((#[trigger] chosen[k]).group
        == g && chosen[k].ordinal == i + 1) by {
        if k < at {
            assert(stands_before(chosen[k], chosen[at]));
        } else {
            assert(stands_before(chosen[at], chosen[k]));
        }
    }
    at
}

/// The document with vector `i` of group `g` replaced by `other`.
pub open spec fn with_vector(groups: Seq<GroupModel>, g: int, i: int, other: VectorModel) -> Seq<
    GroupModel,
> {
    groups.update(g, GroupModel { name: groups[g].name, tests: groups[g].tests.update(i, other) })
}

/// A list of one entry that fails the test filters to nothing.
proof fn lemma_filter_one_rejected(c: Candidate, test: spec_fn(Candidate) -> bool)
    requires
        !test(c),
    ensures
        seq![c].filter(test) == Seq::<Candidate>::empty(),
{
    reveal(Seq::filter);
    assert(seq![c].drop_last() =~= Seq::<Candidate>::empty());
    assert(seq![c].last() == c);
    assert(Seq::<Candidate>::empty().filter(test) =~= Seq::<Candidate>::empty());
}

/// What a skipped vector holds has no effect: replacing a vector whose
/// effective name is not listed by any other vector whose effective name
/// is not listed leaves the selection as it was.
pub proof fn lemma_skipped_content_is_irrelevant(
    groups: Seq<GroupModel>,
    allowed: Seq<Seq<char>>,
    g: int,
    i: int,
    other: VectorModel,
)
    requires
        0 <= g < groups.len(),
        0 <= i < groups[g].tests.len(),
        !allowed.contains(effective_name(groups[g], groups[g].tests[i])),
        !allowed.contains(effective_name(groups[g], other)),
    ensures
        selection(with_vector(groups, g, i, other), allowed) == selection(groups, allowed),
{
    let test = is_listed(allowed);
    let changed = with_vector(groups, g, i, other);
    let old_groups = candidates_by_group(groups);
    let new_groups = candidates_by_group(changed);
    let old_here = group_candidates(groups, g);
    let new_here = group_candidates(changed, g);
    assert forall|h: int| 0 <= h < groups.len() && h != g implies #[trigger] new_groups[h]
        == old_groups[h] by {
        assert(changed[h] == groups[h]);
        assert(group_candidates(changed, h) =~= group_candidates(groups, h));
    }
    let front = old_groups.take(g);
    let back = old_groups.skip(g + 1);
    assert(new_groups.take(g) =~= front);
    assert(new_groups.skip(g + 1) =~= back);
    assert(old_groups =~= front + seq![old_here] + back);
    assert(new_groups =~= front + seq![new_here] + back);
    lemma_flatten_concat(front, seq![old_here]);
    lemma_flatten_concat(front + seq![old_here], back);
    lemma_flatten_concat(front, seq![new_here]);
    lemma_flatten_concat(front + seq![new_here], back);
    seq![old_here].lemma_flatten_singleton();
    seq![new_here].lemma_flatten_singleton();
    assert(candidates(groups) =~= front.flatten() + old_here + back.flatten());
    assert(candidates(changed) =~= front.flatten() + new_here + back.flatten());
    let left = old_here.take(i);
    let right = old_here.skip(i + 1);
    let old_one = candidate_at(groups, g, i);
    let new_one = candidate_at(changed, g, i);
    assert(old_here =~= left + seq![old_one] + right);
    assert(new_here =~= left + seq![new_one] + right) by {
        assert forall|j: int| 0 <= j < new_here.len() && j != i implies new_here[j]
            == old_here[j] by {
            assert(changed[g].tests[j] == groups[g].tests[j]);
        }
    }
    lemma_filter_one_rejected(old_one, test);
    lemma_filter_one_rejected(new_one, test);
    Seq::filter_distributes_over_add(left, seq![old_one], test);
    Seq::filter_distributes_over_add(left + seq![old_one], right, test);
    Seq::filter_distributes_over_add(left, seq![new_one], test);
    Seq::filter_distributes_over_add(left + seq![new_one], right, test);
    assert(old_here.filter(test) =~= new_here.filter(test));
    Seq::filter_distributes_over_add(front.flatten(), old_here, test);
    Seq::filter_distributes_over_add(front.flatten() + old_here, back.flatten(), test);
    Seq::filter_distributes_over_add(front.flatten(), new_here, test);
    Seq::filter_distributes_over_add(front.flatten() + new_here, back.flatten(), test);
}

/// With nothing allowed nothing is selected.
pub proof fn lemma_empty_allow_list(groups: Seq<GroupModel>, allowed: Seq<Seq<char>>)
    requires
        allowed.len() == 0,
    ensures
        selection(groups, allowed) == Seq::<Candidate>::empty(),
{
    lemma_selection_in_document_order(groups, allowed);
    let chosen = selection(groups, allowed);
    if chosen.len() > 0 {
        assert(allowed.contains(chosen[0].name));
    }
    assert(chosen =~= Seq::<Candidate>::empty());
}

} // verus!
