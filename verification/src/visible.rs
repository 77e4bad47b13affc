//! The installed surface as extension actions see it.
use vstd::prelude::*;

use crate::context::{
    sees_action, sees_event, ActionDescriptor, ActionDescriptorView, EventDescriptor,
    EventDescriptorView, ExtensionContext, ExtensionContextView,
};
use crate::manifest::{ExtensionAction, ExtensionRuntime};
use crate::name_map::{names, NameMap};
use crate::registered::{RegisteredExtension, RegisteredView};
use crate::registration::ActionsView;
use crate::routes::{event_is_known, exposes, is_routable, owns_event};
use crate::text::{
    lemma_less_text_irreflexive, lemma_less_text_total, lemma_less_text_transitive, less_text,
    text_less, views,
};
use crate::text_set::{insert_texts, law_text_set, set_with_all, text_set};

verus! {

/// Whether a pair of texts comes before another one.
pub open spec fn pair_less(left: EventDescriptorView, right: EventDescriptorView) -> bool {
    less_text(left.0, right.0) || (left.0 == right.0 && less_text(left.1, right.1))
}

/// Whether the pairs ascend.
pub open spec fn pairs_ascend(pairs: Seq<EventDescriptorView>) -> bool {
    forall|i: int, j: int|
        0 <= i < j < pairs.len() ==> pair_less(#[trigger] pairs[i], #[trigger] pairs[j])
}

/// How many pairs at the front come before a pair.
pub open spec fn pair_place(pairs: Seq<EventDescriptorView>, pair: EventDescriptorView) -> int
    decreases pairs.len(),
{
    if pairs.len() == 0 || !pair_less(pairs[0], pair) {
        0
    } else {
        1 + pair_place(pairs.drop_first(), pair)
    }
}

/// A set of pairs with a pair in it.
pub open spec fn pairs_with(pairs: Seq<EventDescriptorView>, pair: EventDescriptorView) -> Seq<
    EventDescriptorView,
> {
    if pairs.contains(pair) {
        pairs
    } else {
        pairs.insert(pair_place(pairs, pair), pair)
    }
}

/// The pairs of a list as a set in ascending order.
pub open spec fn pair_set(pairs: Seq<EventDescriptorView>) -> Seq<EventDescriptorView>
    decreases pairs.len(),
{
    if pairs.len() == 0 {
        Seq::empty()
    } else {
        pairs_with(pair_set(pairs.drop_last()), pairs.last())
    }
}

/// Event types, each with the extension that declares it.
pub open spec fn described_events(events: Seq<Seq<char>>, extension: Seq<char>) -> Seq<
    EventDescriptorView,
> {
    Seq::new(events.len(), |i: int| (events[i], extension))
}

/// The event types that extensions declare, extension by extension.
pub open spec fn declared_events(extensions: Seq<RegisteredView>) -> Seq<EventDescriptorView>
    decreases extensions.len(),
{
    if extensions.len() == 0 {
        Seq::empty()
    } else {
        let last = extensions.last();
        declared_events(extensions.drop_last()) + described_events(last.emits, last.id)
            + described_events(last.produces, last.id)
    }
}

/// The capabilities that extensions provide, extension by extension.
pub open spec fn declared_capabilities(extensions: Seq<RegisteredView>) -> Seq<Seq<char>>
    decreases extensions.len(),
{
    if extensions.len() == 0 {
        Seq::empty()
    } else {
        declared_capabilities(extensions.drop_last()) + extensions.last().capabilities
    }
}

/// Actions, each with the extension that provides it.
pub open spec fn described_actions(actions: ActionsView, extension: Seq<char>) -> Seq<
    ActionDescriptorView,
> {
    Seq::new(
        actions.len(),
        |i: int|
            ActionDescriptorView { name: actions[i].0, extension, capabilities: actions[i].1 },
    )
}

/// The actions of extensions that run, extension by extension.
pub open spec fn declared_actions(extensions: Seq<RegisteredView>) -> Seq<ActionDescriptorView>
    decreases extensions.len(),
{
    if extensions.len() == 0 {
        Seq::empty()
    } else {
        let before = declared_actions(extensions.drop_last());
        let last = extensions.last();
        if last.runtime == ExtensionRuntime::Recipe {
            before
        } else {
            before + described_actions(last.actions, last.id)
        }
    }
}

/// Whether an action comes before another one: by name, then by extension.
pub open spec fn action_less(left: ActionDescriptorView, right: ActionDescriptorView) -> bool {
    pair_less((left.name, left.extension), (right.name, right.extension))
}

/// How many actions at the front do not come after an action.
pub open spec fn action_place(
    actions: Seq<ActionDescriptorView>,
    action: ActionDescriptorView,
) -> int
    decreases actions.len(),
{
    if actions.len() == 0 || action_less(action, actions[0]) {
        0
    } else {
        1 + action_place(actions.drop_first(), action)
    }
}

/// The actions of a list in order; those that neither come first keep their order.
pub open spec fn in_order(actions: Seq<ActionDescriptorView>) -> Seq<ActionDescriptorView>
    decreases actions.len(),
{
    if actions.len() == 0 {
        Seq::empty()
    } else {
        let before = in_order(actions.drop_last());
        before.insert(action_place(before, actions.last()), actions.last())
    }
}

/// The surface that an extension sees: the event types, actions and capabilities
/// of all installed extensions, each in order.
pub open spec fn visible_to(extensions: Seq<RegisteredView>, id: Seq<char>) -> ExtensionContextView {
    ExtensionContextView {
        id,
        events: pair_set(declared_events(extensions)),
        actions: in_order(declared_actions(extensions)),
        capabilities: text_set(declared_capabilities(extensions)),
    }
}

proof fn lemma_pair_total(left: EventDescriptorView, right: EventDescriptorView)
    ensures
        pair_less(left, right) || left == right || pair_less(right, left),
        !(pair_less(left, right) && pair_less(right, left)),
        !pair_less(left, left),
{
    lemma_less_text_total(left.0, right.0);
    lemma_less_text_total(left.1, right.1);
    lemma_less_text_irreflexive(left.0);
    lemma_less_text_irreflexive(left.1);
    if less_text(left.0, right.0) && less_text(right.0, left.0) {
        lemma_less_text_transitive(left.0, right.0, left.0);
    }
    if less_text(left.1, right.1) && less_text(right.1, left.1) {
        lemma_less_text_transitive(left.1, right.1, left.1);
    }
}

proof fn lemma_pair_transitive(
    a: EventDescriptorView,
    b: EventDescriptorView,
    c: EventDescriptorView,
)
    requires
        pair_less(a, b),
        pair_less(b, c),
    ensures
        pair_less(a, c),
{
    if less_text(a.0, b.0) && less_text(b.0, c.0) {
        lemma_less_text_transitive(a.0, b.0, c.0);
    }
    if a.0 == b.0 && b.0 == c.0 {
        lemma_less_text_irreflexive(a.0);
        lemma_less_text_transitive(a.1, b.1, c.1);
    }
}

proof fn lemma_pair_place(pairs: Seq<EventDescriptorView>, pair: EventDescriptorView)
    ensures
        0 <= pair_place(pairs, pair) <= pairs.len(),
        forall|j: int| 0 <= j < pair_place(pairs, pair) ==> pair_less(#[trigger] pairs[j], pair),
        pair_place(pairs, pair) < pairs.len() ==> !pair_less(pairs[pair_place(pairs, pair)], pair),
    decreases pairs.len(),
{
    if pairs.len() > 0 && pair_less(pairs[0], pair) {
        let rest = pairs.drop_first();
        lemma_pair_place(rest, pair);
        assert forall|j: int| 0 <= j < pair_place(pairs, pair) implies pair_less(
            #[trigger] pairs[j],
            pair,
        ) by {
            if j > 0 {
                assert(rest[j - 1] == pairs[j]);
            }
        }
    }
}

proof fn lemma_pair_place_is(pairs: Seq<EventDescriptorView>, pair: EventDescriptorView, at: int)
    requires
        0 <= at <= pairs.len(),
        forall|j: int| 0 <= j < at ==> pair_less(#[trigger] pairs[j], pair),
        at < pairs.len() ==> !pair_less(pairs[at], pair),
    ensures
        pair_place(pairs, pair) == at,
    decreases at,
{
    if at > 0 {
        assert(pair_less(pairs[0], pair));
        let rest = pairs.drop_first();
        assert forall|j: int| 0 <= j < at - 1 implies pair_less(#[trigger] rest[j], pair) by {
            assert(rest[j] == pairs[j + 1]);
        }
        lemma_pair_place_is(rest, pair, at - 1);
    }
}

proof fn lemma_pairs_with(pairs: Seq<EventDescriptorView>, pair: EventDescriptorView)
    requires
        pairs_ascend(pairs),
    ensures
        pairs_ascend(pairs_with(pairs, pair)),
        forall|other: EventDescriptorView|
            #![trigger pairs_with(pairs, pair).contains(other)]
            #![trigger pairs.contains(other)]
            pairs_with(pairs, pair).contains(other) <==> pairs.contains(other) || other == pair,
{
    if !pairs.contains(pair) {
        let spot = pair_place(pairs, pair);
        let after = pairs_with(pairs, pair);
        lemma_pair_place(pairs, pair);
        assert forall|i: int, j: int| 0 <= i < j < after.len() implies pair_less(
            #[trigger] after[i],
            #[trigger] after[j],
        ) by {
            if j == spot {
                assert(after[i] == pairs[i]);
            } else if i == spot {
                assert(after[j] == pairs[j - 1]);
                assert(pairs[spot] != pair);
                lemma_pair_total(pairs[spot], pair);
                if j - 1 > spot {
                    lemma_pair_transitive(pair, pairs[spot], pairs[j - 1]);
                }
            } else {
                let a = if i < spot {
                    i
                } else {
                    i - 1
                };
                let b = if j < spot {
                    j
                } else {
                    j - 1
                };
                assert(after[i] == pairs[a]);
                assert(after[j] == pairs[b]);
            }
        }
        assert forall|other: EventDescriptorView|
            #![trigger after.contains(other)]
            #![trigger pairs.contains(other)]
            after.contains(other) <==> pairs.contains(other) || other == pair by {
            if pairs.contains(other) {
                let k = choose|k: int| 0 <= k < pairs.len() && pairs[k] == other;
                if k < spot {
                    assert(after[k] == other);
                } else {
                    assert(after[k + 1] == other);
                }
            }
            if other == pair {
                assert(after[spot] == pair);
            }
            if after.contains(other) && other != pair {
                let k = choose|k: int| 0 <= k < after.len() && after[k] == other;
                if k < spot {
                    assert(pairs[k] == other);
                } else {
                    assert(pairs[k - 1] == other);
                }
            }
        }
    }
}

/// The pairs of a list as a set ascend, and are the pairs of the list.
pub proof fn law_pair_set(pairs: Seq<EventDescriptorView>)
    ensures
        pairs_ascend(pair_set(pairs)),
        forall|other: EventDescriptorView|
            #![trigger pair_set(pairs).contains(other)]
            #![trigger pairs.contains(other)]
            pair_set(pairs).contains(other) <==> pairs.contains(other),
    decreases pairs.len(),
{
    if pairs.len() > 0 {
        let front = pairs.drop_last();
        law_pair_set(front);
        lemma_pairs_with(pair_set(front), pairs.last());
        assert forall|other: EventDescriptorView|
            #![trigger pair_set(pairs).contains(other)]
            #![trigger pairs.contains(other)]
            pair_set(pairs).contains(other) <==> pairs.contains(other) by {
            if front.contains(other) {
                let k = choose|k: int| 0 <= k < front.len() && front[k] == other;
                assert(pairs[k] == other);
            }
            if other == pairs.last() {
                assert(pairs[pairs.len() - 1] == other);
            }
            if pairs.contains(other) && other != pairs.last() {
                let k = choose|k: int| 0 <= k < pairs.len() && pairs[k] == other;
                assert(front[k] == other);
            }
        }
    }
}

proof fn lemma_action_place(actions: Seq<ActionDescriptorView>, action: ActionDescriptorView)
    ensures
        0 <= action_place(actions, action) <= actions.len(),
        forall|j: int|
            0 <= j < action_place(actions, action) ==> !action_less(action, #[trigger] actions[j]),
        action_place(actions, action) < actions.len() ==> action_less(
            action,
            actions[action_place(actions, action)],
        ),
    decreases actions.len(),
{
    if actions.len() > 0 && !action_less(action, actions[0]) {
        let rest = actions.drop_first();
        lemma_action_place(rest, action);
        assert forall|j: int| 0 <= j < action_place(actions, action) implies !action_less(
            action,
            #[trigger] actions[j],
        ) by {
            if j > 0 {
                assert(rest[j - 1] == actions[j]);
            }
        }
    }
}

proof fn lemma_action_place_is(
    actions: Seq<ActionDescriptorView>,
    action: ActionDescriptorView,
    at: int,
)
    requires
        0 <= at <= actions.len(),
        forall|j: int| 0 <= j < at ==> !action_less(action, #[trigger] actions[j]),
        at < actions.len() ==> action_less(action, actions[at]),
    ensures
        action_place(actions, action) == at,
    decreases at,
{
    if at > 0 {
        assert(!action_less(action, actions[0]));
        let rest = actions.drop_first();
        assert forall|j: int| 0 <= j < at - 1 implies !action_less(
            action,
            #[trigger] rest[j],
        ) by {
            assert(rest[j] == actions[j + 1]);
        }
        lemma_action_place_is(rest, action, at - 1);
    }
}

/// The actions of a list in order are the actions of the list, as often as they
/// occur in it, and no later one comes before an earlier one.
pub proof fn law_in_order(actions: Seq<ActionDescriptorView>)
    ensures
        in_order(actions).to_multiset() =~= actions.to_multiset(),
        in_order(actions).len() == actions.len(),
        forall|i: int, j: int|
            0 <= i < j < in_order(actions).len() ==> !action_less(
                #[trigger] in_order(actions)[j],
                #[trigger] in_order(actions)[i],
            ),
    decreases actions.len(),
{
    broadcast use vstd::seq_lib::group_to_multiset_ensures;

    if actions.len() > 0 {
        let front = actions.drop_last();
        let last = actions.last();
        let before = in_order(front);
        let after = in_order(actions);
        law_in_order(front);
        lemma_action_place(before, last);
        let spot = action_place(before, last);
        assert(front.push(last) =~= actions);
        assert forall|i: int, j: int| 0 <= i < j < after.len() implies !action_less(
            #[trigger] after[j],
            #[trigger] after[i],
        ) by {
            let key = |a: ActionDescriptorView| (a.name, a.extension);
            if j == spot {
                assert(after[i] == before[i]);
            } else if i == spot {
                assert(after[j] == before[j - 1]);
                lemma_pair_total(key(last), key(before[spot]));
                lemma_pair_total(key(last), key(before[j - 1]));
                if j - 1 > spot {
                    assert(!action_less(before[j - 1], before[spot]));
                    lemma_pair_total(key(before[spot]), key(before[j - 1]));
                    if pair_less(key(before[spot]), key(before[j - 1])) {
                        lemma_pair_transitive(
                            key(last),
                            key(before[spot]),
                            key(before[j - 1]),
                        );
                    }
                }
            } else {
                let a = if i < spot {
                    i
                } else {
                    i - 1
                };
                let b = if j < spot {
                    j
                } else {
                    j - 1
                };
                assert(after[i] == before[a]);
                assert(after[j] == before[b]);
            }
        }
    }
}

proof fn lemma_declared_events(extensions: Seq<RegisteredView>, pair: EventDescriptorView)
    ensures
        declared_events(extensions).contains(pair) <==> exists|i: int|
            0 <= i < extensions.len() && (#[trigger] extensions[i]).id == pair.1 && owns_event(
                extensions[i],
                pair.0,
            ),
    decreases extensions.len(),
{
    if extensions.len() > 0 {
        let front = extensions.drop_last();
        let last = extensions.last();
        let before = declared_events(front);
        let emitted = described_events(last.emits, last.id);
        let produced = described_events(last.produces, last.id);
        let after = declared_events(extensions);
        lemma_declared_events(front, pair);
        if after.contains(pair) {
            let k = choose|k: int| 0 <= k < after.len() && after[k] == pair;
            if k < before.len() {
                assert(before[k] == pair);
                let i = choose|i: int|
                    0 <= i < front.len() && (#[trigger] front[i]).id == pair.1 && owns_event(
                        front[i],
                        pair.0,
                    );
                assert(extensions[i] == front[i]);
            } else {
                let at = extensions.len() - 1;
                assert(extensions[at] == last);
                if k < before.len() + emitted.len() {
                    assert(emitted[k - before.len()] == pair);
                    assert(last.emits[k - before.len()] == pair.0);
                } else {
                    assert(produced[k - before.len() - emitted.len()] == pair);
                    assert(last.produces[k - before.len() - emitted.len()] == pair.0);
                }
            }
        }
        if exists|i: int|
            0 <= i < extensions.len() && (#[trigger] extensions[i]).id == pair.1 && owns_event(
                extensions[i],
                pair.0,
            ) {
            let i = choose|i: int|
                0 <= i < extensions.len() && (#[trigger] extensions[i]).id == pair.1
                    && owns_event(extensions[i], pair.0);
            if i < front.len() {
                assert(front[i] == extensions[i]);
                let k = choose|k: int| 0 <= k < before.len() && before[k] == pair;
                assert(after[k] == pair);
            } else if last.emits.contains(pair.0) {
                let k = choose|k: int| 0 <= k < last.emits.len() && last.emits[k] == pair.0;
                assert(emitted[k] == pair);
                assert(after[before.len() + k] == pair);
            } else {
                let k = choose|k: int|
                    0 <= k < last.produces.len() && last.produces[k] == pair.0;
                assert(produced[k] == pair);
                assert(after[before.len() + emitted.len() + k] == pair);
            }
        }
    }
}

/// An extension sees an event type exactly when some extension owns it, and with
/// it the extensions that do. That a route subscribes to it does not matter.
pub proof fn law_visible_events(extensions: Seq<RegisteredView>, id: Seq<char>, kind: Seq<char>)
    ensures
        sees_event(visible_to(extensions, id).events, kind) <==> event_is_known(kind, extensions),
        forall|owner: Seq<char>|
            #[trigger] visible_to(extensions, id).events.contains((kind, owner)) <==> exists|
                i: int,
            |
                0 <= i < extensions.len() && (#[trigger] extensions[i]).id == owner && owns_event(
                    extensions[i],
                    kind,
                ),
{
    let declared = declared_events(extensions);
    let events = visible_to(extensions, id).events;
    law_pair_set(declared);
    assert forall|owner: Seq<char>| #[trigger]
        events.contains((kind, owner)) <==> exists|i: int|
        0 <= i < extensions.len() && (#[trigger] extensions[i]).id == owner && owns_event(
            extensions[i],
            kind,
        ) by {
        lemma_declared_events(extensions, (kind, owner));
        assert(declared.contains((kind, owner)) <==> events.contains((kind, owner)));
    }
    if sees_event(events, kind) {
        let i = choose|i: int| 0 <= i < events.len() && (#[trigger] events[i]).0 == kind;
        assert(events.contains((kind, events[i].1)));
    }
    if event_is_known(kind, extensions) {
        let i = choose|i: int|
            0 <= i < extensions.len() && owns_event(#[trigger] extensions[i], kind);
        assert(events.contains((kind, extensions[i].id)));
        let k = choose|k: int| 0 <= k < events.len() && events[k] == (kind, extensions[i].id);
        assert(events[k].0 == kind);
    }
}

proof fn lemma_declared_actions(extensions: Seq<RegisteredView>, name: Seq<char>)
    ensures
        sees_action(declared_actions(extensions), name) <==> is_routable(name, extensions),
    decreases extensions.len(),
{
    if extensions.len() > 0 {
        let front = extensions.drop_last();
        let last = extensions.last();
        let before = declared_actions(front);
        let described = described_actions(last.actions, last.id);
        let after = declared_actions(extensions);
        lemma_declared_actions(front, name);
        if sees_action(after, name) {
            let k = choose|k: int| 0 <= k < after.len() && (#[trigger] after[k]).name == name;
            if k < before.len() {
                assert(before[k].name == name);
                let i = choose|i: int| 0 <= i < front.len() && exposes(#[trigger] front[i], name);
                assert(exposes(extensions[i], name));
            } else {
                assert(described[k - before.len()].name == name);
                assert(names(last.actions)[k - before.len()] == name);
                assert(exposes(extensions[extensions.len() - 1], name));
            }
        }
        if is_routable(name, extensions) {
            let i = choose|i: int|
                0 <= i < extensions.len() && exposes(#[trigger] extensions[i], name);
            if i < front.len() {
                assert(exposes(front[i], name));
                let k = choose|k: int|
                    0 <= k < before.len() && (#[trigger] before[k]).name == name;
                assert(after[k].name == name);
            } else {
                let k = choose|k: int|
                    0 <= k < names(last.actions).len() && names(last.actions)[k] == name;
                assert(described[k].name == name);
                assert(after[before.len() + k].name == name);
            }
        }
    }
}

/// An extension sees an action exactly when some extension that runs exposes it.
pub proof fn law_visible_actions(extensions: Seq<RegisteredView>, id: Seq<char>, name: Seq<char>)
    ensures
        sees_action(visible_to(extensions, id).actions, name) <==> is_routable(name, extensions),
{
    broadcast use vstd::seq_lib::group_to_multiset_ensures;

    let declared = declared_actions(extensions);
    let ordered = in_order(declared);
    lemma_declared_actions(extensions, name);
    law_in_order(declared);
    assert(forall|action: ActionDescriptorView|
        ordered.contains(action) <==> ordered.to_multiset().count(action) > 0);
    assert(forall|action: ActionDescriptorView|
        declared.contains(action) <==> declared.to_multiset().count(action) > 0);
    if sees_action(ordered, name) {
        let k = choose|k: int| 0 <= k < ordered.len() && (#[trigger] ordered[k]).name == name;
        assert(ordered.contains(ordered[k]));
        assert(declared.contains(ordered[k]));
        let j = choose|j: int| 0 <= j < declared.len() && declared[j] == ordered[k];
        assert(declared[j].name == name);
    }
    if sees_action(declared, name) {
        let k = choose|k: int| 0 <= k < declared.len() && (#[trigger] declared[k]).name == name;
        assert(declared.contains(declared[k]));
        assert(ordered.contains(declared[k]));
        let j = choose|j: int| 0 <= j < ordered.len() && ordered[j] == declared[k];
        assert(ordered[j].name == name);
    }
}

/// An extension sees a capability exactly when some extension provides it.
pub proof fn law_visible_capabilities(
    extensions: Seq<RegisteredView>,
    id: Seq<char>,
    capability: Seq<char>,
)
    ensures
        visible_to(extensions, id).capabilities.contains(capability) <==> exists|i: int|
            0 <= i < extensions.len() && (#[trigger] extensions[i]).capabilities.contains(
                capability,
            ),
    decreases extensions.len(),
{
    law_text_set(declared_capabilities(extensions));
    if extensions.len() > 0 {
        let front = extensions.drop_last();
        let last = extensions.last();
        let before = declared_capabilities(front);
        let after = declared_capabilities(extensions);
        law_visible_capabilities(front, id, capability);
        law_text_set(before);
        assert(text_set(before).contains(capability) <==> before.contains(capability));
        assert(text_set(after).contains(capability) <==> after.contains(capability));
        if after.contains(capability) {
            let k = choose|k: int| 0 <= k < after.len() && after[k] == capability;
            if k < before.len() {
                assert(before[k] == capability);
                let i = choose|i: int|
                    0 <= i < front.len() && (#[trigger] front[i]).capabilities.contains(
                        capability,
                    );
                assert(extensions[i] == front[i]);
            } else {
                assert(last.capabilities[k - before.len()] == capability);
                assert(extensions[extensions.len() - 1].capabilities.contains(capability));
            }
        }
        if exists|i: int|
            0 <= i < extensions.len() && (#[trigger] extensions[i]).capabilities.contains(
                capability,
            ) {
            let i = choose|i: int|
                0 <= i < extensions.len() && (#[trigger] extensions[i]).capabilities.contains(
                    capability,
                );
            if i < front.len() {
                assert(front[i] == extensions[i]);
                let k = choose|k: int| 0 <= k < before.len() && before[k] == capability;
                assert(after[k] == capability);
            } else {
                let k = choose|k: int|
                    0 <= k < last.capabilities.len() && last.capabilities[k] == capability;
                assert(after[before.len() + k] == capability);
            }
        }
    } else {
        assert(!visible_to(extensions, id).capabilities.contains(capability));
    }
}

/// The surface that is the same for all extensions.
#[derive(Debug, PartialEq, Eq)]
pub struct ExtensionVisibleContext {
    /// Visible event types.
    pub events: Vec<EventDescriptor>,
    /// Visible actions.
    pub actions: Vec<ActionDescriptor>,
    /// Visible capabilities.
    pub capabilities: Vec<String>,
}

fn descriptor_less(left: &EventDescriptor, right: &EventDescriptor) -> (less: bool)
    ensures
        less == pair_less(left@, right@),
{
    text_less(left.kind.as_str(), right.kind.as_str()) || (left.kind == right.kind && text_less(
        left.source_extension.as_str(),
        right.source_extension.as_str(),
    ))
}

fn holds_descriptor(events: &Vec<EventDescriptor>, event: &EventDescriptor) -> (held: bool)
    ensures
        held == views(events@).contains(event@),
{
    let ghost all = views(events@);
    let mut i: usize = 0;
    while i < events.len()
        invariant
            i <= events@.len(),
            all == views(events@),
            forall|j: int| 0 <= j < i ==> #[trigger] all[j] != event@,
        decreases events@.len() - i,
    {
        assert(all[i as int] == events@[i as int]@);
        if events[i].kind == event.kind && events[i].source_extension == event.source_extension {
            assert(all.contains(event@));
            return true;
        }
        i = i + 1;
    }
    false
}

fn insert_descriptor(events: &mut Vec<EventDescriptor>, event: EventDescriptor)
    ensures
        views(final(events)@) == pairs_with(views(old(events)@), event@),
{
    let ghost before = views(events@);
    if holds_descriptor(events, &event) {
        return;
    }
    let mut spot: usize = 0;
    while spot < events.len() && descriptor_less(&events[spot], &event)
        invariant
            spot <= events@.len(),
            views(events@) == before,
            forall|j: int| 0 <= j < spot ==> pair_less(#[trigger] before[j], event@),
        decreases events@.len() - spot,
    {
        assert(before[spot as int] == events@[spot as int]@);
        spot = spot + 1;
    }
    proof {
        if spot < before.len() {
            assert(before[spot as int] == events@[spot as int]@);
        }
        lemma_pair_place_is(before, event@, spot as int);
    }
    events.insert(spot, event);
    assert(views(events@) =~= before.insert(spot as int, event@));
}

fn insert_events(
    events: &mut Vec<EventDescriptor>,
    kinds: &[String],
    extension: &str,
    Ghost(listed): Ghost<Seq<EventDescriptorView>>,
)
    requires
        views(old(events)@) == pair_set(listed),
    ensures
        views(final(events)@) == pair_set(
            listed + described_events(views(kinds@), extension@),
        ),
{
    let ghost all = described_events(views(kinds@), extension@);
    let mut i: usize = 0;
    assert(listed + all.take(0) =~= listed);
    while i < kinds.len()
        invariant
            i <= kinds@.len(),
            all == described_events(views(kinds@), extension@),
            views(events@) == pair_set(listed + all.take(i as int)),
        decreases kinds@.len() - i,
    {
        let ghost next = listed + all.take(i + 1);
        assert(next.drop_last() =~= listed + all.take(i as int));
        assert(next.last() == (kinds@[i as int]@, extension@));
        insert_descriptor(
            events,
            EventDescriptor { kind: kinds[i].clone(), source_extension: extension.to_owned() },
        );
        i = i + 1;
    }
    assert(all.take(all.len() as int) =~= all);
}

fn descriptor_action_less(left: &ActionDescriptor, right: &ActionDescriptor) -> (less: bool)
    ensures
        less == action_less(left@, right@),
{
    text_less(left.name.as_str(), right.name.as_str()) || (left.name == right.name && text_less(
        left.extension.as_str(),
        right.extension.as_str(),
    ))
}

fn insert_action(actions: &mut Vec<ActionDescriptor>, action: ActionDescriptor)
    ensures
        views(final(actions)@) == views(old(actions)@).insert(
            action_place(views(old(actions)@), action@),
            action@,
        ),
{
    let ghost before = views(actions@);
    let mut spot: usize = 0;
    while spot < actions.len() && !descriptor_action_less(&action, &actions[spot])
        invariant
            spot <= actions@.len(),
            views(actions@) == before,
            forall|j: int| 0 <= j < spot ==> !action_less(action@, #[trigger] before[j]),
        decreases actions@.len() - spot,
    {
        assert(before[spot as int] == actions@[spot as int]@);
        spot = spot + 1;
    }
    proof {
        if spot < before.len() {
            assert(before[spot as int] == actions@[spot as int]@);
        }
        lemma_action_place_is(before, action@, spot as int);
    }
    actions.insert(spot, action);
    assert(views(actions@) =~= before.insert(spot as int, action@));
}

fn insert_actions(
    actions: &mut Vec<ActionDescriptor>,
    definitions: &NameMap<ExtensionAction>,
    extension: &str,
    Ghost(listed): Ghost<Seq<ActionDescriptorView>>,
)
    requires
        views(old(actions)@) == in_order(listed),
    ensures
        views(final(actions)@) == in_order(
            listed + described_actions(definitions@, extension@),
        ),
{
    let ghost all = described_actions(definitions@, extension@);
    let mut i: usize = 0;
    assert(listed + all.take(0) =~= listed);
    while i < definitions.entries.len()
        invariant
            i <= definitions.entries@.len(),
            all == described_actions(definitions@, extension@),
            views(actions@) == in_order(listed + all.take(i as int)),
        decreases definitions.entries@.len() - i,
    {
        let ghost next = listed + all.take(i + 1);
        let capabilities: Vec<String> = definitions.entries[i].1.capabilities.clone();
        let action: ActionDescriptor = ActionDescriptor {
            name: definitions.entries[i].0.clone(),
            extension: extension.to_owned(),
            capabilities,
        };
        assert(action@.capabilities =~= definitions@[i as int].1);
        assert(next.drop_last() =~= listed + all.take(i as int));
        assert(next.last() == action@);
        insert_action(actions, action);
        i = i + 1;
    }
    assert(all.take(all.len() as int) =~= all);
}

impl ExtensionVisibleContext {
    /// Whether this is the surface of some extensions.
    pub open spec fn shows(self, extensions: Seq<RegisteredView>) -> bool {
        &&& views(self.events@) == pair_set(declared_events(extensions))
        &&& views(self.actions@) == in_order(declared_actions(extensions))
        &&& views(self.capabilities@) == text_set(declared_capabilities(extensions))
    }

    /// Collect the surface of installed extensions.
    pub fn from_extensions(extensions: &[RegisteredExtension]) -> (context: Self)
        ensures
            context.shows(views(extensions@)),
    {
        let ghost all = views(extensions@);
        let mut events: Vec<EventDescriptor> = Vec::new();
        let mut actions: Vec<ActionDescriptor> = Vec::new();
        let mut capabilities: Vec<String> = Vec::new();
        let mut i: usize = 0;
        assert(all.take(0) =~= Seq::empty());
        assert(views(events@) =~= pair_set(declared_events(all.take(0))));
        assert(views(actions@) =~= in_order(declared_actions(all.take(0))));
        assert(views(capabilities@) =~= text_set(declared_capabilities(all.take(0))));
        while i < extensions.len()
            invariant
                i <= extensions@.len(),
                all == views(extensions@),
                views(events@) == pair_set(declared_events(all.take(i as int))),
                views(actions@) == in_order(declared_actions(all.take(i as int))),
                views(capabilities@) == text_set(declared_capabilities(all.take(i as int))),
            decreases extensions@.len() - i,
        {
            let ghost here = all.take(i as int);
            let ghost next = all.take(i + 1);
            assert(next.drop_last() =~= here);
            assert(next.last() == extensions@[i as int]@);
            let extension: &RegisteredExtension = &extensions[i];
            let id: &str = extension.id.as_str();
            insert_events(
                &mut events,
                extension.emits.as_slice(),
                id,
                Ghost(declared_events(here)),
            );
            insert_events(
                &mut events,
                extension.produces.as_slice(),
                id,
                Ghost(declared_events(here) + described_events(extension@.emits, extension@.id)),
            );
            insert_texts(&mut capabilities, extension.capabilities.as_slice());
            proof {
                lemma_set_of_both(declared_capabilities(here), extension@.capabilities);
            }
            if extension.runtime != ExtensionRuntime::Recipe {
                insert_actions(
                    &mut actions,
                    &extension.actions,
                    id,
                    Ghost(declared_actions(here)),
                );
            }
            i = i + 1;
        }
        assert(all.take(all.len() as int) =~= all);
        ExtensionVisibleContext { events, actions, capabilities }
    }

    /// The surface as one extension sees it.
    pub fn context_for(&self, extension_id: &str) -> (context: ExtensionContext)
        ensures
            context@ == (ExtensionContextView {
                id: extension_id@,
                events: views(self.events@),
                actions: views(self.actions@),
                capabilities: views(self.capabilities@),
            }),
            forall|extensions: Seq<RegisteredView>|
                self.shows(extensions) ==> context@ == #[trigger] visible_to(
                    extensions,
                    extension_id@,
                ),
    {
        let context: ExtensionContext = ExtensionContext {
            id: extension_id.to_owned(),
            events: self.events.clone(),
            actions: self.actions.clone(),
            capabilities: self.capabilities.clone(),
        };
        assert(context@.events =~= views(self.events@));
        assert(context@.actions =~= views(self.actions@));
        assert(context@.capabilities =~= views(self.capabilities@));
        context
    }
}

proof fn lemma_set_of_both(first: Seq<Seq<char>>, second: Seq<Seq<char>>)
    ensures
        set_with_all(text_set(first), second) == text_set(first + second),
    decreases second.len(),
{
    if second.len() == 0 {
        assert(first + second =~= first);
    } else {
        lemma_set_of_both(first, second.drop_last());
        assert((first + second).drop_last() =~= first + second.drop_last());
        assert((first + second).last() == second.last());
    }
}

/// An extension sees, under its own identifier, exactly the actions of the extensions
/// that run: each with its name, its extension and the capabilities that it requires.
pub proof fn law_visible_actions_tell_what_they_require(
    extensions: Seq<RegisteredView>,
    id: Seq<char>,
    action: ActionDescriptorView,
)
    ensures
        visible_to(extensions, id).id == id,
        visible_to(extensions, id).actions.contains(action) <==> exists|at: int, place: int|
            {
                &&& 0 <= at < extensions.len()
                &&& 0 <= place < extensions[at].actions.len()
                &&& extensions[at].runtime != ExtensionRuntime::Recipe
                &&& extensions[at].id == action.extension
                &&& (#[trigger] extensions[at].actions[place]).0 == action.name
                &&& extensions[at].actions[place].1 == action.capabilities
            },
{
    broadcast use vstd::seq_lib::group_to_multiset_ensures;

    let declared = declared_actions(extensions);
    let ordered = in_order(declared);
    law_in_order(declared);
    assert(ordered.contains(action) <==> ordered.to_multiset().count(action) > 0);
    assert(declared.contains(action) <==> declared.to_multiset().count(action) > 0);
    lemma_declared_action(extensions, action);
}

proof fn lemma_declared_action(extensions: Seq<RegisteredView>, action: ActionDescriptorView)
    ensures
        declared_actions(extensions).contains(action) <==> exists|at: int, place: int|
            {
                &&& 0 <= at < extensions.len()
                &&& 0 <= place < extensions[at].actions.len()
                &&& extensions[at].runtime != ExtensionRuntime::Recipe
                &&& extensions[at].id == action.extension
                &&& (#[trigger] extensions[at].actions[place]).0 == action.name
                &&& extensions[at].actions[place].1 == action.capabilities
            },
    decreases extensions.len(),
{
    if extensions.len() > 0 {
        let front = extensions.drop_last();
        let last = extensions.last();
        let before = declared_actions(front);
        let after = declared_actions(extensions);
        let described = described_actions(last.actions, last.id);
        lemma_declared_action(front, action);
        if after.contains(action) {
            let k = choose|k: int| 0 <= k < after.len() && after[k] == action;
            if k < before.len() {
                assert(before[k] == action);
                let (at, place) = choose|at: int, place: int|
                    {
                        &&& 0 <= at < front.len()
                        &&& 0 <= place < front[at].actions.len()
                        &&& front[at].runtime != ExtensionRuntime::Recipe
                        &&& front[at].id == action.extension
                        &&& (#[trigger] front[at].actions[place]).0 == action.name
                        &&& front[at].actions[place].1 == action.capabilities
                    };
                assert(extensions[at].actions[place].0 == action.name);
            } else {
                assert(described[k - before.len()] == action);
                assert(extensions[extensions.len() - 1].actions[k - before.len()].0 == action.name);
            }
        }
        if exists|at: int, place: int|
            {
                &&& 0 <= at < extensions.len()
                &&& 0 <= place < extensions[at].actions.len()
                &&& extensions[at].runtime != ExtensionRuntime::Recipe
                &&& extensions[at].id == action.extension
                &&& (#[trigger] extensions[at].actions[place]).0 == action.name
                &&& extensions[at].actions[place].1 == action.capabilities
            } {
            let (at, place) = choose|at: int, place: int|
                {
                    &&& 0 <= at < extensions.len()
                    &&& 0 <= place < extensions[at].actions.len()
                    &&& extensions[at].runtime != ExtensionRuntime::Recipe
                    &&& extensions[at].id == action.extension
                    &&& (#[trigger] extensions[at].actions[place]).0 == action.name
                    &&& extensions[at].actions[place].1 == action.capabilities
                };
            if at < front.len() {
                assert(front[at].actions[place].0 == action.name);
                let k = choose|k: int| 0 <= k < before.len() && before[k] == action;
                assert(after[k] == action);
            } else {
                assert(described[place] == action);
                assert(after[before.len() + place] == action);
            }
        }
    }
}

} // verus!
