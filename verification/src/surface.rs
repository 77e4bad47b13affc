//! Ownership of events, actions and capabilities among installed extensions.
use vstd::prelude::*;

use crate::error::{
    checked, each_checked, first_error, law_first_failing_item_decides, lemma_each_fails_at,
    lemma_each_next, lemma_each_passes, Checked, ErrorView, SpindleError,
};
use crate::manifest::ExtensionAction;
use crate::name_map::{names, NameMap};
use crate::registered::{owned_events, RegisteredExtension, RegisteredView};
use crate::text::{contains_text, views};
use crate::text_set::{insert_texts, law_text_set, text_set};

verus! {

/// The rule for one name of a candidate: an existing extension does not own it.
pub open spec fn unowned_checker(
    surface: Seq<char>,
    owned: Seq<Seq<char>>,
    existing_extension: Seq<char>,
    new_extension: Seq<char>,
) -> spec_fn(Seq<char>) -> Checked {
    |name: Seq<char>|
        if owned.contains(name) {
            Err(ErrorView::SurfaceConflict { surface, name, existing_extension, new_extension })
        } else {
            Ok(())
        }
}

/// The rule for a candidate beside one existing extension: no action in common,
/// then no event, the first in order being reported, then no capability.
pub open spec fn owner_check(candidate: RegisteredView, existing: RegisteredView) -> Checked {
    first_error(
        each_checked(
            names(candidate.actions),
            unowned_checker("action"@, names(existing.actions), existing.id, candidate.id),
        ),
        first_error(
            each_checked(
                text_set(owned_events(candidate)),
                unowned_checker("event"@, owned_events(existing), existing.id, candidate.id),
            ),
            each_checked(
                candidate.capabilities,
                unowned_checker(
                    "capability"@,
                    existing.capabilities,
                    existing.id,
                    candidate.id,
                ),
            ),
        ),
    )
}

/// The rule for a candidate beside one existing extension, as a check of it.
pub open spec fn owner_checker(candidate: RegisteredView) -> spec_fn(RegisteredView) -> Checked {
    |existing: RegisteredView| owner_check(candidate, existing)
}

/// The rule for a candidate beside the existing extensions.
pub open spec fn ownership_check(
    candidate: RegisteredView,
    existing: Seq<RegisteredView>,
) -> Checked {
    each_checked(existing, owner_checker(candidate))
}

/// Whether two extensions own nothing in common.
pub open spec fn exclusive(left: RegisteredView, right: RegisteredView) -> bool {
    &&& forall|name: Seq<char>| !(names(left.actions).contains(name) && names(
        right.actions,
    ).contains(name))
    &&& forall|name: Seq<char>| !(owned_events(left).contains(name) && owned_events(
        right,
    ).contains(name))
    &&& forall|name: Seq<char>| !(left.capabilities.contains(name)
        && right.capabilities.contains(name))
}

proof fn lemma_unowned(
    surface: Seq<char>,
    candidate: Seq<Seq<char>>,
    owned: Seq<Seq<char>>,
    existing_extension: Seq<char>,
    new_extension: Seq<char>,
)
    ensures
        each_checked(
            candidate,
            unowned_checker(surface, owned, existing_extension, new_extension),
        ) is Ok <==> forall|name: Seq<char>| !(candidate.contains(name) && owned.contains(name)),
{
    let check = unowned_checker(surface, owned, existing_extension, new_extension);
    lemma_each_passes(candidate, check);
    if each_checked(candidate, check) is Ok {
        assert forall|name: Seq<char>| !(candidate.contains(name) && owned.contains(name)) by {
            if candidate.contains(name) {
                let i = choose|i: int| 0 <= i < candidate.len() && candidate[i] == name;
                assert(check(candidate[i]) is Ok);
            }
        }
    }
    if forall|name: Seq<char>| !(candidate.contains(name) && owned.contains(name)) {
        assert forall|i: int| 0 <= i < candidate.len() implies check(
            #[trigger] candidate[i],
        ) is Ok by {
            assert(candidate.contains(candidate[i]));
        }
    }
}

/// A candidate passes beside an existing extension exactly when the two own no
/// event, no action and no capability in common.
pub proof fn law_owner_check_exclusive(candidate: RegisteredView, existing: RegisteredView)
    ensures
        owner_check(candidate, existing) is Ok <==> exclusive(candidate, existing),
{
    lemma_unowned(
        "action"@,
        names(candidate.actions),
        names(existing.actions),
        existing.id,
        candidate.id,
    );
    lemma_unowned(
        "event"@,
        text_set(owned_events(candidate)),
        owned_events(existing),
        existing.id,
        candidate.id,
    );
    lemma_unowned(
        "capability"@,
        candidate.capabilities,
        existing.capabilities,
        existing.id,
        candidate.id,
    );
    law_text_set(owned_events(candidate));
}

/// A candidate passes beside the existing extensions exactly when it owns nothing
/// in common with any of them.
pub proof fn law_ownership_exclusive(candidate: RegisteredView, existing: Seq<RegisteredView>)
    ensures
        ownership_check(candidate, existing) is Ok <==> forall|i: int|
            0 <= i < existing.len() ==> exclusive(candidate, #[trigger] existing[i]),
{
    lemma_each_passes(existing, owner_checker(candidate));
    assert forall|i: int| 0 <= i < existing.len() implies (owner_checker(candidate)(
        #[trigger] existing[i],
    ) is Ok <==> exclusive(candidate, existing[i])) by {
        law_owner_check_exclusive(candidate, existing[i]);
    }
}

/// Owning nothing in common goes both ways.
pub proof fn lemma_exclusive_symmetric(left: RegisteredView, right: RegisteredView)
    ensures
        exclusive(left, right) == exclusive(right, left),
{
}

/// The names of actions, in order.
pub fn action_names(actions: &NameMap<ExtensionAction>) -> (list: Vec<String>)
    ensures
        views(list@) == names(actions@),
{
    let mut list: Vec<String> = Vec::new();
    let mut i: usize = 0;
    while i < actions.entries.len()
        invariant
            i <= actions.entries@.len(),
            list@.len() == i,
            forall|j: int| 0 <= j < i ==> (#[trigger] list@[j])@ == actions@[j].0,
        decreases actions.entries@.len() - i,
    {
        list.push(actions.entries[i].0.clone());
        i = i + 1;
    }
    assert(views(list@) =~= names(actions@));
    list
}

/// The event types that an extension owns.
pub fn event_list(extension: &RegisteredExtension) -> (list: Vec<String>)
    ensures
        views(list@) == owned_events(extension@),
{
    let mut list: Vec<String> = extension.emits.clone();
    let mut more: Vec<String> = extension.produces.clone();
    assert(views(list@) =~= extension@.emits);
    assert(views(more@) =~= extension@.produces);
    let ghost first = list@;
    let ghost second = more@;
    list.append(&mut more);
    assert(list@ == first + second);
    assert(views(list@) =~= views(first) + views(second));
    list
}

/// The event types that an extension owns, in order and each once.
pub fn event_surface(extension: &RegisteredExtension) -> (set: Vec<String>)
    ensures
        views(set@) == text_set(owned_events(extension@)),
{
    let mut set: Vec<String> = Vec::new();
    assert(views(set@) =~= Seq::<Seq<char>>::empty());
    let list: Vec<String> = event_list(extension);
    insert_texts(&mut set, list.as_slice());
    set
}

fn surface_conflict(
    surface: &'static str,
    name: &str,
    existing: &str,
    candidate: &str,
) -> (error: SpindleError)
    ensures
        error@ == (ErrorView::SurfaceConflict {
            surface: surface@,
            name: name@,
            existing_extension: existing@,
            new_extension: candidate@,
        }),
{
    SpindleError::SurfaceConflict {
        surface,
        name: name.to_owned(),
        existing_extension: existing.to_owned(),
        new_extension: candidate.to_owned(),
    }
}

fn ensure_unowned(
    surface: &'static str,
    candidates: &[String],
    owned: &[String],
    existing: &str,
    candidate: &str,
) -> (result: Result<(), SpindleError>)
    ensures
        checked(result) == each_checked(
            views(candidates@),
            unowned_checker(surface@, views(owned@), existing@, candidate@),
        ),
{
    let ghost all = views(candidates@);
    let ghost check = unowned_checker(surface@, views(owned@), existing@, candidate@);
    let mut i: usize = 0;
    assert(all.take(0) =~= Seq::empty());
    while i < candidates.len()
        invariant
            i <= candidates@.len(),
            all == views(candidates@),
            check == unowned_checker(surface@, views(owned@), existing@, candidate@),
            each_checked(all.take(i as int), check) is Ok,
        decreases candidates@.len() - i,
    {
        assert(all[i as int] == candidates@[i as int]@);
        if contains_text(owned, candidates[i].as_str()) {
            proof {
                lemma_each_fails_at(all, check, i as int);
            }
            return Err(surface_conflict(surface, candidates[i].as_str(), existing, candidate));
        }
        proof {
            lemma_each_next(all, check, i as int);
        }
        i = i + 1;
    }
    assert(all.take(all.len() as int) =~= all);
    Ok(())
}

fn ensure_not_owned_by(candidate: &RegisteredExtension, existing: &RegisteredExtension) -> (result:
    Result<(), SpindleError>)
    ensures
        checked(result) == owner_check(candidate@, existing@),
{
    let wanted: Vec<String> = action_names(&candidate.actions);
    let owned: Vec<String> = action_names(&existing.actions);
    match ensure_unowned(
        "action",
        wanted.as_slice(),
        owned.as_slice(),
        existing.id.as_str(),
        candidate.id.as_str(),
    ) {
        Ok(()) => {},
        Err(error) => {
            return Err(error);
        },
    }
    let wanted: Vec<String> = event_surface(candidate);
    let owned: Vec<String> = event_list(existing);
    match ensure_unowned(
        "event",
        wanted.as_slice(),
        owned.as_slice(),
        existing.id.as_str(),
        candidate.id.as_str(),
    ) {
        Ok(()) => {},
        Err(error) => {
            return Err(error);
        },
    }
    ensure_unowned(
        "capability",
        candidate.capabilities.as_slice(),
        existing.capabilities.as_slice(),
        existing.id.as_str(),
        candidate.id.as_str(),
    )
}

/// Check that a candidate owns nothing that an existing extension owns.
pub fn ensure_surface_ownership(
    candidate: &RegisteredExtension,
    existing: &[RegisteredExtension],
) -> (result: Result<(), SpindleError>)
    ensures
        checked(result) == ownership_check(candidate@, views(existing@)),
{
    let ghost all = views(existing@);
    let ghost check = owner_checker(candidate@);
    let mut i: usize = 0;
    assert(all.take(0) =~= Seq::empty());
    while i < existing.len()
        invariant
            i <= existing@.len(),
            all == views(existing@),
            check == owner_checker(candidate@),
            each_checked(all.take(i as int), check) is Ok,
        decreases existing@.len() - i,
    {
        let outcome: Result<(), SpindleError> = ensure_not_owned_by(candidate, &existing[i]);
        assert(check(all[i as int]) == checked(outcome));
        match outcome {
            Ok(()) => {},
            Err(error) => {
                proof {
                    lemma_each_fails_at(all, check, i as int);
                }
                return Err(error);
            },
        }
        proof {
            lemma_each_next(all, check, i as int);
        }
        i = i + 1;
    }
    assert(all.take(all.len() as int) =~= all);
    Ok(())
}

/// An extension that owns what another one owns is refused with that name, and with
/// both extensions.
pub proof fn law_conflict_names_both_owners(
    candidate: RegisteredView,
    existing: Seq<RegisteredView>,
)
    ensures
        ownership_check(candidate, existing) matches Err(error) ==> exists|i: int|
            {
                &&& 0 <= i < existing.len()
                &&& error matches ErrorView::SurfaceConflict {
                    surface,
                    name,
                    existing_extension,
                    new_extension,
                }
                &&& existing_extension == (#[trigger] existing[i]).id
                &&& new_extension == candidate.id
                &&& {
                    ||| surface == "action"@ && names(candidate.actions).contains(name) && names(
                        existing[i].actions,
                    ).contains(name)
                    ||| surface == "event"@ && owned_events(candidate).contains(name)
                        && owned_events(existing[i]).contains(name)
                    ||| surface == "capability"@ && candidate.capabilities.contains(name)
                        && existing[i].capabilities.contains(name)
                }
            },
{
    if let Err(error) = ownership_check(candidate, existing) {
        let check = owner_checker(candidate);
        law_first_failing_item_decides(existing, check);
        let i = choose|i: int|
            {
                &&& 0 <= i < existing.len()
                &&& check(#[trigger] existing[i]) == Err::<(), ErrorView>(error)
                &&& forall|j: int| 0 <= j < i ==> check(#[trigger] existing[j]) is Ok
            };
        let other = existing[i];
        assert(owner_check(candidate, other) == Err::<(), ErrorView>(error));
        lemma_conflict("action"@, names(candidate.actions), names(other.actions), other, candidate);
        law_text_set(owned_events(candidate));
        lemma_conflict(
            "event"@,
            text_set(owned_events(candidate)),
            owned_events(other),
            other,
            candidate,
        );
        lemma_conflict(
            "capability"@,
            candidate.capabilities,
            other.capabilities,
            other,
            candidate,
        );
        if text_set(owned_events(candidate)).contains(error->name) {
            assert(owned_events(candidate).contains(error->name));
        }
    }
}

proof fn lemma_conflict(
    surface: Seq<char>,
    wanted: Seq<Seq<char>>,
    owned: Seq<Seq<char>>,
    existing: RegisteredView,
    candidate: RegisteredView,
)
    ensures
        each_checked(
            wanted,
            unowned_checker(surface, owned, existing.id, candidate.id),
        ) matches Err(error) ==> {
            &&& error matches ErrorView::SurfaceConflict {
                surface: kind,
                name,
                existing_extension,
                new_extension,
            }
            &&& kind == surface
            &&& existing_extension == existing.id
            &&& new_extension == candidate.id
            &&& wanted.contains(name)
            &&& owned.contains(name)
        },
{
    let check = unowned_checker(surface, owned, existing.id, candidate.id);
    law_first_failing_item_decides(wanted, check);
    if let Err(error) = each_checked(wanted, check) {
        let i = choose|i: int|
            {
                &&& 0 <= i < wanted.len()
                &&& check(#[trigger] wanted[i]) == Err::<(), ErrorView>(error)
                &&& forall|j: int| 0 <= j < i ==> check(#[trigger] wanted[j]) is Ok
            };
        assert(wanted.contains(wanted[i]));
    }
}

} // verus!
