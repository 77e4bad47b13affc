//! Whether the routes of installed extensions lead anywhere.
use vstd::prelude::*;

use crate::error::{
    checked, each_checked, error_message, invalid_field, lemma_each_fails_at, lemma_each_next,
    lemma_each_passes, Checked, ErrorView, SpindleError,
};
use crate::manifest::{ExtensionRoute, ExtensionRuntime};
use crate::name_map::{lemma_lookup, lookup, names};
use crate::registered::{RegisteredExtension, RegisteredView};
use crate::registration::RouteView;
use crate::text::{contains_text, same_text, views};

verus! {

/// Whether an extension owns an event type.
pub open spec fn owns_event(extension: RegisteredView, event: Seq<char>) -> bool {
    extension.emits.contains(event) || extension.produces.contains(event)
}

/// Whether some extension owns an event type.
pub open spec fn event_is_known(event: Seq<char>, extensions: Seq<RegisteredView>) -> bool {
    exists|i: int| 0 <= i < extensions.len() && owns_event(#[trigger] extensions[i], event)
}

/// The position of the first extension with an identifier, or their number.
pub open spec fn position_of_id(extensions: Seq<RegisteredView>, id: Seq<char>) -> int
    decreases extensions.len(),
{
    if extensions.len() == 0 || extensions[0].id == id {
        0
    } else {
        1 + position_of_id(extensions.drop_first(), id)
    }
}

/// Whether the first extension with the identifier of a source owns an event
/// type.
pub open spec fn source_is_valid(
    source: Seq<char>,
    event: Seq<char>,
    extensions: Seq<RegisteredView>,
) -> bool {
    let at = position_of_id(extensions, source);
    0 <= at < extensions.len() && owns_event(extensions[at], event)
}

/// Whether an extension that runs exposes an action.
pub open spec fn exposes(extension: RegisteredView, action: Seq<char>) -> bool {
    extension.runtime != ExtensionRuntime::Recipe && names(extension.actions).contains(action)
}

/// Whether some extension that runs exposes an action.
pub open spec fn is_routable(action: Seq<char>, extensions: Seq<RegisteredView>) -> bool {
    exists|i: int| 0 <= i < extensions.len() && exposes(#[trigger] extensions[i], action)
}

/// The rule for one route: what it names is there.
pub open spec fn reference_check(
    extension: Seq<char>,
    route: RouteView,
    extensions: Seq<RegisteredView>,
) -> Checked {
    if route.capabilities.len() > 0 && route.source is None {
        Err(
            ErrorView::InvalidField {
                field: "route.source"@,
                reason: "is required when route grants capabilities"@,
            },
        )
    } else if !event_is_known(route.event, extensions) {
        Err(ErrorView::UnknownRouteEvent { extension, event: route.event })
    } else if route.source is Some && !source_is_valid(route.source->0, route.event, extensions) {
        Err(ErrorView::UnknownRouteSource { extension, route_source: route.source->0 })
    } else if !is_routable(route.action, extensions) {
        Err(ErrorView::UnknownRouteAction { extension, action: route.action })
    } else {
        Ok(())
    }
}

/// The rule for one route, as a check of it.
pub open spec fn reference_checker(
    extension: Seq<char>,
    extensions: Seq<RegisteredView>,
) -> spec_fn(RouteView) -> Checked {
    |route: RouteView| reference_check(extension, route, extensions)
}

/// The rule for the routes of an extension.
pub open spec fn routes_check(
    extension: RegisteredView,
    extensions: Seq<RegisteredView>,
) -> Checked {
    each_checked(extension.routes, reference_checker(extension.id, extensions))
}

/// One message for each extension whose routes fail, in order.
pub open spec fn route_messages(
    checked_extensions: Seq<RegisteredView>,
    extensions: Seq<RegisteredView>,
) -> Seq<Seq<char>>
    decreases checked_extensions.len(),
{
    if checked_extensions.len() == 0 {
        Seq::empty()
    } else {
        let before = route_messages(checked_extensions.drop_last(), extensions);
        let last = checked_extensions.last();
        match routes_check(last, extensions) {
            Ok(_) => before,
            Err(error) => before.push(last.id + ": "@ + error_message(error)),
        }
    }
}

/// The rule for the installed extensions: all routes lead somewhere.
pub open spec fn registry_check(extensions: Seq<RegisteredView>) -> Checked {
    let messages = route_messages(extensions, extensions);
    if messages.len() == 0 {
        Ok(())
    } else {
        Err(ErrorView::RegistryValidationFailed { messages })
    }
}

proof fn lemma_no_messages(
    checked_extensions: Seq<RegisteredView>,
    extensions: Seq<RegisteredView>,
)
    ensures
        route_messages(checked_extensions, extensions).len() == 0 <==> forall|i: int|
            0 <= i < checked_extensions.len() ==> routes_check(
                #[trigger] checked_extensions[i],
                extensions,
            ) is Ok,
    decreases checked_extensions.len(),
{
    if checked_extensions.len() > 0 {
        let front = checked_extensions.drop_last();
        lemma_no_messages(front, extensions);
        if route_messages(checked_extensions, extensions).len() == 0 {
            assert forall|i: int| 0 <= i < checked_extensions.len() implies routes_check(
                #[trigger] checked_extensions[i],
                extensions,
            ) is Ok by {
                if i < front.len() {
                    assert(front[i] == checked_extensions[i]);
                }
            }
        }
        if forall|i: int|
            0 <= i < checked_extensions.len() ==> routes_check(
                #[trigger] checked_extensions[i],
                extensions,
            ) is Ok {
            assert forall|i: int| 0 <= i < front.len() implies routes_check(
                #[trigger] front[i],
                extensions,
            ) is Ok by {
                assert(front[i] == checked_extensions[i]);
            }
            assert(routes_check(
                checked_extensions[checked_extensions.len() - 1],
                extensions,
            ) is Ok);
        }
    }
}

/// A registry passes exactly when every route of every extension does; then every
/// route matches an event that an extension owns and leads to an action that an
/// extension exposes.
pub proof fn law_valid_registry_resolves(extensions: Seq<RegisteredView>)
    ensures
        registry_check(extensions) is Ok <==> forall|i: int, j: int|
            0 <= i < extensions.len() && 0 <= j < extensions[i].routes.len() ==> reference_check(
                extensions[i].id,
                #[trigger] extensions[i].routes[j],
                extensions,
            ) is Ok,
        registry_check(extensions) is Ok ==> forall|i: int, j: int|
            0 <= i < extensions.len() && 0 <= j < extensions[i].routes.len() ==> event_is_known(
                (#[trigger] extensions[i].routes[j]).event,
                extensions,
            ) && is_routable(extensions[i].routes[j].action, extensions),
{
    lemma_no_messages(extensions, extensions);
    assert forall|i: int| 0 <= i < extensions.len() implies (routes_check(
        #[trigger] extensions[i],
        extensions,
    ) is Ok <==> forall|j: int|
        0 <= j < extensions[i].routes.len() ==> reference_check(
            extensions[i].id,
            #[trigger] extensions[i].routes[j],
            extensions,
        ) is Ok) by {
        let check = reference_checker(extensions[i].id, extensions);
        lemma_each_passes(extensions[i].routes, check);
        assert forall|j: int| 0 <= j < extensions[i].routes.len() implies check(
            #[trigger] extensions[i].routes[j],
        ) == reference_check(extensions[i].id, extensions[i].routes[j], extensions) by {}
    }
}

fn extension_owns_event(extension: &RegisteredExtension, event: &str) -> (owns: bool)
    ensures
        owns == owns_event(extension@, event@),
{
    contains_text(extension.emits.as_slice(), event) || contains_text(
        extension.produces.as_slice(),
        event,
    )
}

fn route_event_is_known(event: &str, extensions: &[RegisteredExtension]) -> (known: bool)
    ensures
        known == event_is_known(event@, views(extensions@)),
{
    let ghost all = views(extensions@);
    let mut i: usize = 0;
    while i < extensions.len()
        invariant
            i <= extensions@.len(),
            all == views(extensions@),
            forall|j: int| 0 <= j < i ==> !owns_event(#[trigger] all[j], event@),
        decreases extensions@.len() - i,
    {
        if extension_owns_event(&extensions[i], event) {
            assert(owns_event(all[i as int], event@));
            return true;
        }
        i = i + 1;
    }
    false
}

/// The position of the first extension with an identifier.
pub fn find_extension(extensions: &[RegisteredExtension], id: &str) -> (position: usize)
    ensures
        position == position_of_id(views(extensions@), id@),
        position <= extensions@.len(),
        position < extensions@.len() ==> extensions@[position as int].id@ == id@,
{
    let ghost all = views(extensions@);
    let mut i: usize = 0;
    while i < extensions.len()
        invariant
            i <= extensions@.len(),
            all == views(extensions@),
            forall|j: int| 0 <= j < i ==> (#[trigger] all[j]).id != id@,
        decreases extensions@.len() - i,
    {
        assert(all[i as int].id == extensions@[i as int].id@);
        if same_text(extensions[i].id.as_str(), id) {
            proof {
                lemma_position_of_id(all, id@, i as int);
            }
            return i;
        }
        i = i + 1;
    }
    proof {
        lemma_position_of_id(all, id@, i as int);
    }
    i
}

proof fn lemma_position_of_id(extensions: Seq<RegisteredView>, id: Seq<char>, at: int)
    requires
        0 <= at <= extensions.len(),
        forall|j: int| 0 <= j < at ==> (#[trigger] extensions[j]).id != id,
        at < extensions.len() ==> extensions[at].id == id,
    ensures
        position_of_id(extensions, id) == at,
    decreases at,
{
    if at > 0 {
        assert(extensions[0].id != id);
        let rest = extensions.drop_first();
        assert forall|j: int| 0 <= j < at - 1 implies (#[trigger] rest[j]).id != id by {
            assert(rest[j] == extensions[j + 1]);
        }
        lemma_position_of_id(rest, id, at - 1);
    }
}

fn route_source_is_valid(source: &str, event: &str, extensions: &[RegisteredExtension]) -> (valid:
    bool)
    ensures
        valid == source_is_valid(source@, event@, views(extensions@)),
{
    let at: usize = find_extension(extensions, source);
    if at < extensions.len() {
        assert(views(extensions@)[at as int] == extensions@[at as int]@);
        extension_owns_event(&extensions[at], event)
    } else {
        false
    }
}

fn action_is_routable(action: &str, extensions: &[RegisteredExtension]) -> (routable: bool)
    ensures
        routable == is_routable(action@, views(extensions@)),
{
    let ghost all = views(extensions@);
    let mut i: usize = 0;
    while i < extensions.len()
        invariant
            i <= extensions@.len(),
            all == views(extensions@),
            forall|j: int| 0 <= j < i ==> !exposes(#[trigger] all[j], action@),
        decreases extensions@.len() - i,
    {
        if extensions[i].runtime != ExtensionRuntime::Recipe && extensions[i].actions.contains_key(
            action,
        ) {
            assert(exposes(all[i as int], action@));
            return true;
        }
        i = i + 1;
    }
    false
}

fn validate_reference(
    extension: &str,
    route: &ExtensionRoute,
    extensions: &[RegisteredExtension],
) -> (result: Result<(), SpindleError>)
    ensures
        checked(result) == reference_check(extension@, route@, views(extensions@)),
{
    if route.capabilities.len() > 0 && route.source.is_none() {
        return Err(invalid_field("route.source", "is required when route grants capabilities"));
    }
    if !route_event_is_known(route.event.as_str(), extensions) {
        return Err(
            SpindleError::UnknownRouteEvent {
                extension: extension.to_owned(),
                event: route.event.clone(),
            },
        );
    }
    if let Some(source) = &route.source {
        if !route_source_is_valid(source.as_str(), route.event.as_str(), extensions) {
            return Err(
                SpindleError::UnknownRouteSource {
                    extension: extension.to_owned(),
                    route_source: source.clone(),
                },
            );
        }
    }
    if !action_is_routable(route.action.as_str(), extensions) {
        return Err(
            SpindleError::UnknownRouteAction {
                extension: extension.to_owned(),
                action: route.action.clone(),
            },
        );
    }
    Ok(())
}

/// Validate one extension's routes against installed extension surfaces.
pub fn validate_extension_routes(
    extension: &RegisteredExtension,
    extensions: &[RegisteredExtension],
) -> (result: Result<(), SpindleError>)
    ensures
        checked(result) == routes_check(extension@, views(extensions@)),
{
    let ghost all = extension@.routes;
    let ghost check = reference_checker(extension@.id, views(extensions@));
    let mut i: usize = 0;
    assert(all.take(0) =~= Seq::empty());
    while i < extension.routes.len()
        invariant
            i <= extension.routes@.len(),
            all == views(extension.routes@),
            check == reference_checker(extension@.id, views(extensions@)),
            each_checked(all.take(i as int), check) is Ok,
        decreases extension.routes@.len() - i,
    {
        let outcome: Result<(), SpindleError> = validate_reference(
            extension.id.as_str(),
            &extension.routes[i],
            extensions,
        );
        assert(check(all[i as int]) == checked(outcome));
        match outcome {
            Ok(()) => {},
            Err(error) => {
                proof {
                    lemma_each_fails_at(all, check, i as int);
                }
                return Err(error);
            },
        }
        proof {
            lemma_each_next(all, check, i as int);
        }
        i = i + 1;
    }
    assert(all.take(all.len() as int) =~= all);
    Ok(())
}

/// Validate installed extensions.
pub fn validate_registry(extensions: &[RegisteredExtension]) -> (result: Result<(), SpindleError>)
    ensures
        checked(result) == registry_check(views(extensions@)),
{
    let ghost all = views(extensions@);
    let mut messages: Vec<String> = Vec::new();
    let mut i: usize = 0;
    assert(all.take(0) =~= Seq::empty());
    assert(views(messages@) =~= route_messages(all.take(0), all));
    while i < extensions.len()
        invariant
            i <= extensions@.len(),
            all == views(extensions@),
            views(messages@) == route_messages(all.take(i as int), all),
        decreases extensions@.len() - i,
    {
        let ghost before = views(messages@);
        assert(all.take(i + 1).drop_last() =~= all.take(i as int));
        assert(all.take(i + 1).last() == extensions@[i as int]@);
        match validate_extension_routes(&extensions[i], extensions) {
            Ok(()) => {},
            Err(error) => {
                let mut message: String = extensions[i].id.clone();
                message.append(": ");
                message.append(error.message().as_str());
                messages.push(message);
                assert(views(messages@) =~= before.push(message@));
            },
        }
        i = i + 1;
    }
    assert(all.take(all.len() as int) =~= all);
    if messages.len() == 0 {
        Ok(())
    } else {
        Err(SpindleError::RegistryValidationFailed { messages })
    }
}

/// Validate the extensions that a registry lists, before a server starts.
pub fn validate_installed_registry(listed: Result<Vec<RegisteredExtension>, SpindleError>) -> (
    result: Result<(), SpindleError>)
    ensures
        match listed {
            Ok(extensions) => checked(result) == registry_check(views(extensions@)),
            Err(error) => result == Err::<(), SpindleError>(error),
        },
{
    match listed {
        Ok(extensions) => validate_registry(extensions.as_slice()),
        Err(error) => Err(error),
    }
}

/// Looking for an extension finds the first one with the identifier, or none.
pub proof fn law_position_of_id(extensions: Seq<RegisteredView>, id: Seq<char>)
    ensures
        0 <= position_of_id(extensions, id) <= extensions.len(),
        position_of_id(extensions, id) < extensions.len() ==> extensions[position_of_id(
            extensions,
            id,
        )].id == id,
        forall|j: int|
            0 <= j < position_of_id(extensions, id) ==> (#[trigger] extensions[j]).id != id,
    decreases extensions.len(),
{
    if extensions.len() > 0 && extensions[0].id != id {
        let rest = extensions.drop_first();
        law_position_of_id(rest, id);
        assert forall|j: int| 0 <= j < position_of_id(extensions, id) implies (
        #[trigger] extensions[j]).id != id by {
            if j > 0 {
                assert(rest[j - 1] == extensions[j]);
            }
        }
    }
}

/// An event type is known exactly where some installed extension emits or produces
/// it.
pub proof fn law_known_events_are_declared(event: Seq<char>, extensions: Seq<RegisteredView>)
    ensures
        event_is_known(event, extensions) <==> exists|i: int|
            0 <= i < extensions.len() && ((#[trigger] extensions[i]).emits.contains(event)
                || extensions[i].produces.contains(event)),
{
    if exists|i: int|
        0 <= i < extensions.len() && ((#[trigger] extensions[i]).emits.contains(event)
            || extensions[i].produces.contains(event)) {
        let i = choose|i: int|
            0 <= i < extensions.len() && ((#[trigger] extensions[i]).emits.contains(event)
                || extensions[i].produces.contains(event));
        assert(owns_event(extensions[i], event));
    }
}

/// A source is valid for an event type exactly where the first extension with that
/// identifier emits or produces the event.
pub proof fn law_valid_sources_own_their_events(
    source: Seq<char>,
    event: Seq<char>,
    extensions: Seq<RegisteredView>,
)
    ensures
        source_is_valid(source, event, extensions) ==> exists|i: int|
            0 <= i < extensions.len() && (#[trigger] extensions[i]).id == source && (
            extensions[i].emits.contains(event) || extensions[i].produces.contains(event)),
        forall|i: int|
            {
                &&& 0 <= i < extensions.len()
                &&& (#[trigger] extensions[i]).id == source
                &&& forall|j: int| 0 <= j < i ==> (#[trigger] extensions[j]).id != source
            } ==> (source_is_valid(source, event, extensions) <==> extensions[i].emits.contains(
                event,
            ) || extensions[i].produces.contains(event)),
{
    law_position_of_id(extensions, source);
    let at = position_of_id(extensions, source);
    if at < extensions.len() {
        assert(extensions[at].id == source);
    }
}

/// An action is routable exactly where an installed extension that runs has it.
pub proof fn law_routable_actions_run(action: Seq<char>, extensions: Seq<RegisteredView>)
    ensures
        is_routable(action, extensions) <==> exists|i: int|
            0 <= i < extensions.len() && (#[trigger] extensions[i]).runtime
                != ExtensionRuntime::Recipe && lookup(extensions[i].actions, action) is Some,
{
    assert forall|i: int| 0 <= i < extensions.len() implies exposes(
        #[trigger] extensions[i],
        action,
    ) == (extensions[i].runtime != ExtensionRuntime::Recipe && lookup(
        extensions[i].actions,
        action,
    ) is Some) by {
        lemma_lookup(extensions[i].actions, action);
    }
    if exists|i: int|
        0 <= i < extensions.len() && (#[trigger] extensions[i]).runtime != ExtensionRuntime::Recipe
            && lookup(extensions[i].actions, action) is Some {
        let i = choose|i: int|
            0 <= i < extensions.len() && (#[trigger] extensions[i]).runtime
                != ExtensionRuntime::Recipe && lookup(extensions[i].actions, action) is Some;
        assert(exposes(extensions[i], action));
    }
}

/// A route is accepted exactly where it names a source if it grants anything, its
/// event is known, the source that it names is valid for the event, and its action is
/// routable. What is missing first is named, with the extension of the route.
pub proof fn law_route_refers_to_what_is_installed(
    extension: Seq<char>,
    route: RouteView,
    extensions: Seq<RegisteredView>,
)
    ensures
        reference_check(extension, route, extensions) is Ok <==> {
            &&& route.capabilities.len() > 0 ==> route.source is Some
            &&& event_is_known(route.event, extensions)
            &&& route.source matches Some(source) ==> source_is_valid(
                source,
                route.event,
                extensions,
            )
            &&& is_routable(route.action, extensions)
        },
        reference_check(extension, route, extensions) matches Err(error) ==> {
            ||| error is InvalidField && route.capabilities.len() > 0 && route.source is None
            ||| error == (ErrorView::UnknownRouteEvent { extension, event: route.event })
                && !event_is_known(route.event, extensions)
            ||| route.source is Some && error == (ErrorView::UnknownRouteSource {
                extension,
                route_source: route.source->0,
            }) && !source_is_valid(route.source->0, route.event, extensions)
            ||| error == (ErrorView::UnknownRouteAction { extension, action: route.action })
                && !is_routable(route.action, extensions)
        },
{
}

/// A registry is refused with one message for each extension that has a route which
/// is not accepted, in order: its identifier, and what is wrong with the first such
/// route.
pub proof fn law_messages_tell_each_failing_extension(
    checked_extensions: Seq<RegisteredView>,
    extensions: Seq<RegisteredView>,
    i: int,
)
    requires
        0 <= i < checked_extensions.len(),
        routes_check(checked_extensions[i], extensions) is Err,
    ensures
        route_messages(checked_extensions, extensions).contains(
            checked_extensions[i].id + ": "@ + error_message(
                routes_check(checked_extensions[i], extensions)->Err_0,
            ),
        ),
        route_messages(checked_extensions, extensions).len() <= checked_extensions.len(),
    decreases checked_extensions.len(),
{
    let front = checked_extensions.drop_last();
    let before = route_messages(front, extensions);
    let after = route_messages(checked_extensions, extensions);
    lemma_message_count(front, extensions);
    if i < front.len() {
        assert(front[i] == checked_extensions[i]);
        law_messages_tell_each_failing_extension(front, extensions, i);
        let message = checked_extensions[i].id + ": "@ + error_message(
            routes_check(checked_extensions[i], extensions)->Err_0,
        );
        let k = choose|k: int| 0 <= k < before.len() && before[k] == message;
        assert(after[k] == message);
    } else {
        assert(after[after.len() - 1] == after.last());
    }
}

proof fn lemma_message_count(
    checked_extensions: Seq<RegisteredView>,
    extensions: Seq<RegisteredView>,
)
    ensures
        route_messages(checked_extensions, extensions).len() <= checked_extensions.len(),
    decreases checked_extensions.len(),
{
    if checked_extensions.len() > 0 {
        lemma_message_count(checked_extensions.drop_last(), extensions);
    }
}

/// The messages about some extensions and about others behind them are those about the
/// first and then those about the others.
pub proof fn law_messages_come_in_order(
    first: Seq<RegisteredView>,
    second: Seq<RegisteredView>,
    one: RegisteredView,
    extensions: Seq<RegisteredView>,
)
    ensures
        route_messages(first + second, extensions) == route_messages(first, extensions)
            + route_messages(second, extensions),
        routes_check(one, extensions) is Ok ==> route_messages(seq![one], extensions).len() == 0,
        routes_check(one, extensions) matches Err(error) ==> route_messages(seq![one], extensions)
            == seq![one.id + ": "@ + error_message(error)],
    decreases second.len(),
{
    assert(seq![one].drop_last() =~= Seq::empty());
    assert(route_messages(Seq::empty(), extensions) =~= Seq::empty());
    if let Err(error) = routes_check(one, extensions) {
        assert(route_messages(seq![one], extensions) =~= seq![
            one.id + ": "@ + error_message(error),
        ]);
    }
    if second.len() == 0 {
        assert(first + second =~= first);
        assert(route_messages(first, extensions) + route_messages(second, extensions)
            =~= route_messages(first, extensions));
    } else {
        let front = second.drop_last();
        law_messages_come_in_order(first, front, one, extensions);
        assert((first + second).drop_last() =~= first + front);
        assert((first + second).last() == second.last());
        assert(route_messages(first + second, extensions) =~= route_messages(first, extensions)
            + route_messages(second, extensions));
    }
}

} // verus!
