//! Which hosts are chosen for an action on many of them.
use vstd::prelude::*;

use crate::id::Id;
use crate::model::{models, HostFilter, HostProfile, ProfileModel};
use crate::pool::holds_id;

verus! {

/// The identities of the hosts that a filter shows, in their order.
pub open spec fn visible_ids(hosts: Seq<ProfileModel>, filter: HostFilter) -> Seq<Id>
    decreases hosts.len(),
{
    if hosts.len() == 0 {
        Seq::empty()
    } else {
        let before = visible_ids(hosts.drop_last(), filter);
        if filter.shows(hosts.last()) {
            before.push(hosts.last().id)
        } else {
            before
        }
    }
}

/// Some host that the filter shows has the identity.
pub open spec fn is_visible(hosts: Seq<ProfileModel>, filter: HostFilter, id: Id) -> bool {
    exists|i: int| 0 <= i < hosts.len() && (#[trigger] hosts[i]).id == id && filter.shows(hosts[i])
}

proof fn lemma_visible(hosts: Seq<ProfileModel>, filter: HostFilter, id: Id)
    ensures
        visible_ids(hosts, filter).contains(id) == is_visible(hosts, filter, id),
    decreases hosts.len(),
{
    if hosts.len() > 0 {
        let front = hosts.drop_last();
        let before = visible_ids(front, filter);
        let all = visible_ids(hosts, filter);
        lemma_visible(front, filter, id);
        let last = hosts.len() - 1;
        if all.contains(id) {
            let k = choose|k: int| 0 <= k < all.len() && all[k] == id;
            if k < before.len() {
                assert(before[k] == id);
                let i = choose|i: int|
                    0 <= i < front.len() && (#[trigger] front[i]).id == id && filter.shows(
                        front[i],
                    );
                assert(hosts[i] == front[i]);
            } else {
                assert(hosts[last].id == id && filter.shows(hosts[last]));
            }
        }
        if is_visible(hosts, filter, id) {
            let i = choose|i: int|
                0 <= i < hosts.len() && (#[trigger] hosts[i]).id == id && filter.shows(hosts[i]);
            if i < last {
                assert(front[i] == hosts[i]);
                let k = choose|k: int| 0 <= k < before.len() && before[k] == id;
                assert(all[k] == id);
            } else {
                assert(all[before.len() as int] == id);
            }
        }
    }
}

fn list_visible(hosts: &[HostProfile], filter: &HostFilter) -> (r: Vec<Id>)
    ensures
        r@ == visible_ids(models(hosts@), *filter),
{
    let ghost all = models(hosts@);
    let mut out: Vec<Id> = Vec::new();
    let mut i: usize = 0;
    while i < hosts.len()
        invariant
            i <= hosts@.len(),
            all == models(hosts@),
            out@ == visible_ids(all.take(i as int), *filter),
        decreases hosts@.len() - i,
    {
        assert(all.take(i + 1).drop_last() =~= all.take(i as int));
        assert(all.take(i + 1).last() == hosts@[i as int]@);
        if filter.matches(&hosts[i]) {
            out.push(hosts[i].id);
        }
        i = i + 1;
    }
    assert(all.take(i as int) =~= all);
    out
}

/// The identities that are also in another list.
pub open spec fn kept_ids(selected: Seq<Id>, allowed: Seq<Id>) -> Seq<Id> {
    selected.filter(|id: Id| allowed.contains(id))
}

/// Drops the identities that are not in another list.
pub fn retain_ids(selected: &mut Vec<Id>, allowed: &Vec<Id>)
    ensures
        final(selected)@ == kept_ids(old(selected)@, allowed@),
{
    let ghost keep = |id: Id| allowed@.contains(id);
    let mut out: Vec<Id> = Vec::new();
    let mut i: usize = 0;
    assert(selected@.take(0).filter(keep) =~= Seq::empty()) by {
        reveal(Seq::filter);
    }
    while i < selected.len()
        invariant
            i <= selected@.len(),
            keep == (|id: Id| allowed@.contains(id)),
            selected@ == old(selected)@,
            out@ == selected@.take(i as int).filter(keep),
        decreases selected@.len() - i,
    {
        assert(selected@.take(i + 1).drop_last() =~= selected@.take(i as int));
        reveal(Seq::filter);
        if holds_id(allowed, selected[i]) {
            out.push(selected[i]);
        }
        i = i + 1;
    }
    assert(selected@.take(i as int) =~= selected@);
    *selected = out;
}

/// Keeps only what the filter shows, so that nothing out of sight is acted on.
pub fn retain_visible_selection(hosts: &[HostProfile], filter: &HostFilter, selected: &mut Vec<Id>)
    ensures
        final(selected)@ == kept_ids(old(selected)@, visible_ids(models(hosts@), *filter)),
{
    let visible = list_visible(hosts, filter);
    retain_ids(selected, &visible);
}

/// Every identity of a list is in another.
pub open spec fn all_within(ids: Seq<Id>, others: Seq<Id>) -> bool {
    forall|i: int| 0 <= i < ids.len() ==> others.contains(#[trigger] ids[i])
}

fn within(ids: &Vec<Id>, others: &Vec<Id>) -> (r: bool)
    ensures
        r == all_within(ids@, others@),
{
    let mut i: usize = 0;
    while i < ids.len()
        invariant
            i <= ids@.len(),
            forall|j: int| 0 <= j < i ==> others@.contains(#[trigger] ids@[j]),
        decreases ids@.len() - i,
    {
        if !holds_id(others, ids[i]) {
            assert(!others@.contains(ids@[i as int]));
            return false;
        }
        i = i + 1;
    }
    true
}

/// What toggling makes of a selection: nothing, if all that is visible was chosen; otherwise
/// all that is visible.
pub open spec fn toggled(visible: Seq<Id>, selected: Seq<Id>) -> Seq<Id> {
    if visible.len() > 0 && all_within(visible, selected) {
        Seq::empty()
    } else {
        visible
    }
}

pub fn toggle_visible_selection(hosts: &[HostProfile], filter: &HostFilter, selected: &mut Vec<Id>)
    ensures
        final(selected)@ == toggled(visible_ids(models(hosts@), *filter), old(selected)@),
{
    let visible = list_visible(hosts, filter);
    if visible.len() > 0 && within(&visible, selected) {
        *selected = Vec::new();
    } else {
        *selected = visible;
    }
}

/// Nothing that the filter hides is ever chosen by toggling, nor stays chosen when the filter
/// changes.
pub proof fn hidden_hosts_are_never_chosen(
    hosts: Seq<ProfileModel>,
    filter: HostFilter,
    selected: Seq<Id>,
    id: Id,
)
    requires
        !is_visible(hosts, filter, id),
    ensures
        !toggled(visible_ids(hosts, filter), selected).contains(id),
        !kept_ids(selected, visible_ids(hosts, filter)).contains(id),
{
    lemma_visible(hosts, filter, id);
    let visible = visible_ids(hosts, filter);
    let keep = |other: Id| visible.contains(other);
    let kept = selected.filter(keep);
    if kept.contains(id) {
        let i = choose|i: int| 0 <= i < kept.len() && kept[i] == id;
        selected.lemma_filter_pred(keep, i);
    }
}

/// Toggling once more takes back a choice of everything.
pub proof fn toggling_twice_chooses_nothing(visible: Seq<Id>, selected: Seq<Id>)
    requires
        !(visible.len() > 0 && all_within(visible, selected)),
    ensures
        toggled(visible, toggled(visible, selected)) == Seq::<Id>::empty(),
{
    assert forall|i: int| 0 <= i < visible.len() implies visible.contains(#[trigger] visible[i]) by {
    }
    if visible.len() == 0 {
        assert(visible =~= Seq::<Id>::empty());
    }
}

/// A host that is not chosen is reached through one that is.
pub open spec fn has_outside_dependent(hosts: Seq<ProfileModel>, selected: Seq<Id>) -> bool {
    exists|i: int|
        0 <= i < hosts.len() && !selected.contains((#[trigger] hosts[i]).id) && hosts[i].jump_host
            is Some && selected.contains(hosts[i].jump_host->0)
}

pub fn batch_has_external_dependents(hosts: &[HostProfile], selected: &Vec<Id>) -> (r: bool)
    ensures
        r == has_outside_dependent(models(hosts@), selected@),
{
    let ghost all = models(hosts@);
    let mut i: usize = 0;
    while i < hosts.len()
        invariant
            i <= hosts@.len(),
            all == models(hosts@),
            forall|j: int|
                0 <= j < i ==> !(!selected@.contains((#[trigger] all[j]).id) && all[j].jump_host
                    is Some && selected@.contains(all[j].jump_host->0)),
        decreases hosts@.len() - i,
    {
        if !holds_id(selected, hosts[i].id) {
            if let Some(jump) = hosts[i].jump_host {
                if holds_id(selected, jump) {
                    assert(all[i as int] == hosts@[i as int]@);
                    return true;
                }
            }
        }
        i = i + 1;
    }
    false
}

/// There are hosts, and all of them are chosen.
pub fn batch_all_selected(hosts: &[HostProfile], selected: &Vec<Id>) -> (r: bool)
    ensures
        r == (hosts@.len() > 0 && forall|i: int|
            0 <= i < hosts@.len() ==> selected@.contains((#[trigger] hosts@[i]).id)),
{
    let mut i: usize = 0;
    while i < hosts.len()
        invariant
            i <= hosts@.len(),
            forall|j: int| 0 <= j < i ==> selected@.contains((#[trigger] hosts@[j]).id),
        decreases hosts@.len() - i,
    {
        if !holds_id(selected, hosts[i].id) {
            assert(!selected@.contains(hosts@[i as int].id));
            return false;
        }
        i = i + 1;
    }
    hosts.len() > 0
}

pub proof fn lemma_kept_ids(selected: Seq<Id>, allowed: Seq<Id>)
    ensures
        forall|i: int|
            0 <= i < kept_ids(selected, allowed).len() ==> selected.contains(
                #[trigger] kept_ids(selected, allowed)[i],
            ) && allowed.contains(kept_ids(selected, allowed)[i]),
        forall|i: int|
            0 <= i < selected.len() && allowed.contains(#[trigger] selected[i]) ==> kept_ids(
                selected,
                allowed,
            ).contains(selected[i]),
    decreases selected.len(),
{
    reveal(Seq::filter);
    if selected.len() > 0 {
        let short = selected.drop_last();
        lemma_kept_ids(short, allowed);
        let before = kept_ids(short, allowed);
        let after = kept_ids(selected, allowed);
        assert forall|i: int| 0 <= i < after.len() implies selected.contains(#[trigger] after[i])
            && allowed.contains(after[i]) by {
            if i < before.len() {
                assert(after[i] == before[i]);
                let k = choose|k: int| 0 <= k < short.len() && short[k] == before[i];
                assert(selected[k] == after[i]);
            } else {
                assert(selected[selected.len() - 1] == after[i]);
            }
        }
        assert forall|i: int|
            0 <= i < selected.len() && allowed.contains(#[trigger] selected[i]) implies after.contains(
        selected[i]) by {
            if i < short.len() {
                assert(short[i] == selected[i]);
                let k = choose|k: int| 0 <= k < before.len() && before[k] == short[i];
                assert(after[k] == selected[i]);
            } else {
                assert(after[before.len() as int] == selected[i]);
            }
        }
    }
}

/// What is chosen and in sight stays chosen when the filter changes; selecting all chooses exactly
/// the hosts in sight, unless they are chosen already.
pub proof fn hosts_in_sight_stay_chosen(
    hosts: Seq<ProfileModel>,
    filter: HostFilter,
    selected: Seq<Id>,
    id: Id,
)
    ensures
        kept_ids(selected, visible_ids(hosts, filter)).contains(id) <==> selected.contains(id) && (
        exists|i: int|
            0 <= i < hosts.len() && (#[trigger] hosts[i]).id == id && filter.shows(hosts[i])),
        toggled(visible_ids(hosts, filter), Seq::empty()).contains(id) <==> exists|i: int|
            0 <= i < hosts.len() && (#[trigger] hosts[i]).id == id && filter.shows(hosts[i]),
        (forall|i: int|
            0 <= i < hosts.len() && filter.shows(#[trigger] hosts[i]) ==> selected.contains(
                hosts[i].id,
            )) ==> toggled(visible_ids(hosts, filter), selected).len() == 0,
{
    let visible = visible_ids(hosts, filter);
    lemma_visible(hosts, filter, id);
    lemma_kept_ids(selected, visible);
    let kept = kept_ids(selected, visible);
    if kept.contains(id) {
        let i = choose|i: int| 0 <= i < kept.len() && kept[i] == id;
        assert(selected.contains(kept[i]));
    }
    if selected.contains(id) && visible.contains(id) {
        let i = choose|i: int| 0 <= i < selected.len() && selected[i] == id;
        assert(allowed_at(selected, visible, i));
    }
    if visible.len() > 0 && all_within(visible, Seq::empty()) {
        assert(Seq::<Id>::empty().contains(visible[0]));
    }
    if forall|i: int|
        0 <= i < hosts.len() && filter.shows(#[trigger] hosts[i]) ==> selected.contains(
            hosts[i].id,
        ) {
        assert forall|k: int| 0 <= k < visible.len() implies selected.contains(
            #[trigger] visible[k],
        ) by {
            lemma_visible(hosts, filter, visible[k]);
            assert(visible.contains(visible[k]));
        }
    }
}

spec fn allowed_at(selected: Seq<Id>, allowed: Seq<Id>, i: int) -> bool {
    allowed.contains(selected[i])
}

/// Hosts cannot be removed while another one is reached through one of them.
pub proof fn dependents_are_noticed(hosts: Seq<ProfileModel>, selected: Seq<Id>, i: int, jump: Id)
    requires
        0 <= i < hosts.len(),
        hosts[i].jump_host == Some(jump),
        selected.contains(jump),
        !selected.contains(hosts[i].id),
    ensures
        has_outside_dependent(hosts, selected),
{
}

} // verus!
