//! The installed extensions as a dispatch looks things up in them.
use vstd::prelude::*;

use crate::context::ExtensionContext;
use crate::event::{admits, Event};
use crate::manifest::{ExtensionAction, ExtensionRuntime};
use crate::name_map::{
    law_lookup_after_insert, lemma_first_with_means, lemma_lookup, lookup, names, NameMap,
};
use crate::registered::{RegisteredExtension, RegisteredView};
use crate::registration::RouteView;
use crate::routes::{exposes, is_routable};
use crate::text::views;
use crate::visible::{visible_to, ExtensionVisibleContext};

verus! {

/// The position of the extension that handles an action: the last one that runs
/// and exposes it.
pub open spec fn action_owner(extensions: Seq<RegisteredView>, action: Seq<char>) -> Option<usize>
    decreases extensions.len(),
{
    if extensions.len() == 0 {
        None
    } else if exposes(extensions.last(), action) {
        Some((extensions.len() - 1) as usize)
    } else {
        action_owner(extensions.drop_last(), action)
    }
}

/// The routes of one extension that match an event type, by their positions.
pub open spec fn handlers_in(routes: Seq<RouteView>, extension: int, kind: Seq<char>) -> Seq<
    (int, int),
>
    decreases routes.len(),
{
    if routes.len() == 0 {
        Seq::empty()
    } else {
        let before = handlers_in(routes.drop_last(), extension, kind);
        if routes.last().event == kind {
            before.push((extension, routes.len() - 1))
        } else {
            before
        }
    }
}

/// The routes that match an event type, by the positions of their extension and
/// within it.
pub open spec fn handlers_for(extensions: Seq<RegisteredView>, kind: Seq<char>) -> Seq<(int, int)>
    decreases extensions.len(),
{
    if extensions.len() == 0 {
        Seq::empty()
    } else {
        handlers_for(extensions.drop_last(), kind) + handlers_in(
            extensions.last().routes,
            extensions.len() - 1,
            kind,
        )
    }
}

/// The route at a position.
pub open spec fn route_at(extensions: Seq<RegisteredView>, handler: (int, int)) -> RouteView {
    extensions[handler.0].routes[handler.1]
}

/// Those of some routes that an event source may trigger.
pub open spec fn triggered(
    extensions: Seq<RegisteredView>,
    handlers: Seq<(int, int)>,
    source: Seq<char>,
) -> Seq<(int, int)>
    decreases handlers.len(),
{
    if handlers.len() == 0 {
        Seq::empty()
    } else {
        let before = triggered(extensions, handlers.drop_last(), source);
        if admits(route_at(extensions, handlers.last()).source, source) {
            before.push(handlers.last())
        } else {
            before
        }
    }
}

/// The routes that an event triggers, by their positions.
pub open spec fn matched_handlers(
    extensions: Seq<RegisteredView>,
    kind: Seq<char>,
    source: Seq<char>,
) -> Seq<(int, int)> {
    triggered(extensions, handlers_for(extensions, kind), source)
}

/// The routes that an event triggers.
pub open spec fn matched_routes(
    extensions: Seq<RegisteredView>,
    kind: Seq<char>,
    source: Seq<char>,
) -> Seq<RouteView> {
    let handlers = matched_handlers(extensions, kind, source);
    Seq::new(handlers.len(), |i: int| route_at(extensions, handlers[i]))
}

/// Whether a position comes before another one.
pub open spec fn comes_before(left: (int, int), right: (int, int)) -> bool {
    left.0 < right.0 || (left.0 == right.0 && left.1 < right.1)
}

/// Whether a position is that of a route for an event type.
pub open spec fn handles(
    extensions: Seq<RegisteredView>,
    handler: (int, int),
    kind: Seq<char>,
) -> bool {
    &&& 0 <= handler.0 < extensions.len()
    &&& 0 <= handler.1 < extensions[handler.0].routes.len()
    &&& route_at(extensions, handler).event == kind
}

/// The extension that handles an action exposes it, and no later one does; there
/// is one exactly when the action can be routed to.
pub proof fn law_action_owner(extensions: Seq<RegisteredView>, action: Seq<char>)
    requires
        extensions.len() <= usize::MAX,
    ensures
        action_owner(extensions, action) is Some <==> is_routable(action, extensions),
        action_owner(extensions, action) matches Some(at) ==> {
            &&& at < extensions.len()
            &&& exposes(extensions[at as int], action)
            &&& lookup(extensions[at as int].actions, action) is Some
            &&& forall|i: int| at < i < extensions.len() ==> !exposes(#[trigger] extensions[i], action)
        },
    decreases extensions.len(),
{
    if extensions.len() > 0 {
        let front = extensions.drop_last();
        let last = extensions.last();
        law_action_owner(front, action);
        if exposes(last, action) {
            assert(exposes(extensions[extensions.len() - 1], action));
            lemma_lookup(last.actions, action);
            lemma_first_with_means(last.actions, action);
            let k = choose|k: int|
                0 <= k < names(last.actions).len() && names(last.actions)[k] == action;
            assert(last.actions[k].0 == action);
        } else {
            if is_routable(action, extensions) {
                let i = choose|i: int|
                    0 <= i < extensions.len() && exposes(#[trigger] extensions[i], action);
                assert(exposes(front[i], action));
            }
            if is_routable(action, front) {
                let i = choose|i: int|
                    0 <= i < front.len() && exposes(#[trigger] front[i], action);
                assert(exposes(extensions[i], action));
            }
            if action_owner(extensions, action) is Some {
                let at = action_owner(extensions, action)->0;
                assert(extensions[at as int] == front[at as int]);
                assert forall|i: int| at < i < extensions.len() implies !exposes(
                    #[trigger] extensions[i],
                    action,
                ) by {
                    if i < front.len() {
                        assert(extensions[i] == front[i]);
                    }
                }
            }
        }
    }
}

proof fn lemma_handlers_in(routes: Seq<RouteView>, extension: int, kind: Seq<char>)
    ensures
        forall|i: int|
            0 <= i < handlers_in(routes, extension, kind).len() ==> {
                let handler = #[trigger] handlers_in(routes, extension, kind)[i];
                handler.0 == extension && 0 <= handler.1 < routes.len()
                    && routes[handler.1].event == kind
            },
        forall|j: int|
            0 <= j < routes.len() && (#[trigger] routes[j]).event == kind ==> handlers_in(
                routes,
                extension,
                kind,
            ).contains((extension, j)),
        forall|i: int, j: int|
            0 <= i < j < handlers_in(routes, extension, kind).len() ==> comes_before(
                #[trigger] handlers_in(routes, extension, kind)[i],
                #[trigger] handlers_in(routes, extension, kind)[j],
            ),
    decreases routes.len(),
{
    if routes.len() > 0 {
        let front = routes.drop_last();
        let before = handlers_in(front, extension, kind);
        let after = handlers_in(routes, extension, kind);
        lemma_handlers_in(front, extension, kind);
        assert forall|i: int| 0 <= i < after.len() implies {
            let handler = #[trigger] after[i];
            handler.0 == extension && 0 <= handler.1 < routes.len() && routes[handler.1].event
                == kind
        } by {
            if i < before.len() {
                assert(after[i] == before[i]);
                assert(front[before[i].1] == routes[before[i].1]);
            }
        }
        assert forall|j: int|
            0 <= j < routes.len() && (#[trigger] routes[j]).event == kind implies after.contains(
            (extension, j),
        ) by {
            if j < front.len() {
                assert(front[j] == routes[j]);
                let k = choose|k: int| 0 <= k < before.len() && before[k] == (extension, j);
                assert(after[k] == (extension, j));
            } else {
                assert(after[after.len() - 1] == (extension, j));
            }
        }
        assert forall|i: int, j: int| 0 <= i < j < after.len() implies comes_before(
            #[trigger] after[i],
            #[trigger] after[j],
        ) by {
            assert(after[i] == before[i]);
            if j < before.len() {
                assert(after[j] == before[j]);
            }
        }
    }
}

proof fn lemma_handlers_for(extensions: Seq<RegisteredView>, kind: Seq<char>)
    ensures
        forall|i: int|
            0 <= i < handlers_for(extensions, kind).len() ==> handles(
                extensions,
                #[trigger] handlers_for(extensions, kind)[i],
                kind,
            ),
        forall|handler: (int, int)|
            handles(extensions, handler, kind) ==> #[trigger] handlers_for(
                extensions,
                kind,
            ).contains(handler),
        forall|i: int, j: int|
            0 <= i < j < handlers_for(extensions, kind).len() ==> comes_before(
                #[trigger] handlers_for(extensions, kind)[i],
                #[trigger] handlers_for(extensions, kind)[j],
            ),
    decreases extensions.len(),
{
    if extensions.len() > 0 {
        let front = extensions.drop_last();
        let last = extensions.last();
        let at = extensions.len() - 1;
        let before = handlers_for(front, kind);
        let own = handlers_in(last.routes, at, kind);
        let after = handlers_for(extensions, kind);
        lemma_handlers_for(front, kind);
        lemma_handlers_in(last.routes, at, kind);
        assert forall|i: int| 0 <= i < after.len() implies handles(
            extensions,
            #[trigger] after[i],
            kind,
        ) by {
            if i < before.len() {
                assert(after[i] == before[i]);
                assert(front[before[i].0] == extensions[before[i].0]);
            } else {
                assert(after[i] == own[i - before.len()]);
            }
        }
        assert forall|handler: (int, int)| handles(extensions, handler, kind) implies #[trigger]
        after.contains(handler) by {
            if handler.0 < at {
                assert(front[handler.0] == extensions[handler.0]);
                assert(before.contains(handler));
                let k = choose|k: int| 0 <= k < before.len() && before[k] == handler;
                assert(after[k] == handler);
            } else {
                assert(last.routes[handler.1].event == kind);
                assert(own.contains((at, handler.1)));
                let k = choose|k: int| 0 <= k < own.len() && own[k] == handler;
                assert(after[before.len() + k] == handler);
            }
        }
        assert forall|i: int, j: int| 0 <= i < j < after.len() implies comes_before(
            #[trigger] after[i],
            #[trigger] after[j],
        ) by {
            if j < before.len() {
                assert(after[i] == before[i] && after[j] == before[j]);
            } else if i < before.len() {
                assert(after[i] == before[i] && after[j] == own[j - before.len()]);
                assert(handles(front, before[i], kind));
            } else {
                assert(after[i] == own[i - before.len()]);
                assert(after[j] == own[j - before.len()]);
            }
        }
    }
}

proof fn lemma_triggered(
    extensions: Seq<RegisteredView>,
    handlers: Seq<(int, int)>,
    source: Seq<char>,
)
    requires
        forall|i: int, j: int|
            0 <= i < j < handlers.len() ==> comes_before(
                #[trigger] handlers[i],
                #[trigger] handlers[j],
            ),
    ensures
        forall|i: int|
            0 <= i < triggered(extensions, handlers, source).len() ==> handlers.contains(
                #[trigger] triggered(extensions, handlers, source)[i],
            ) && admits(
                route_at(extensions, triggered(extensions, handlers, source)[i]).source,
                source,
            ),
        forall|i: int|
            0 <= i < handlers.len() && admits(
                route_at(extensions, #[trigger] handlers[i]).source,
                source,
            ) ==> triggered(extensions, handlers, source).contains(handlers[i]),
        forall|i: int, j: int|
            0 <= i < j < triggered(extensions, handlers, source).len() ==> comes_before(
                #[trigger] triggered(extensions, handlers, source)[i],
                #[trigger] triggered(extensions, handlers, source)[j],
            ),
    decreases handlers.len(),
{
    if handlers.len() > 0 {
        let front = handlers.drop_last();
        let before = triggered(extensions, front, source);
        let after = triggered(extensions, handlers, source);
        assert forall|i: int, j: int| 0 <= i < j < front.len() implies comes_before(
            #[trigger] front[i],
            #[trigger] front[j],
        ) by {
            assert(front[i] == handlers[i] && front[j] == handlers[j]);
        }
        lemma_triggered(extensions, front, source);
        assert forall|i: int| 0 <= i < after.len() implies handlers.contains(#[trigger] after[i])
            && admits(route_at(extensions, after[i]).source, source) by {
            if i < before.len() {
                assert(after[i] == before[i]);
                let k = choose|k: int| 0 <= k < front.len() && front[k] == before[i];
                assert(handlers[k] == after[i]);
            } else {
                assert(handlers[handlers.len() - 1] == after[i]);
            }
        }
        assert forall|i: int|
            0 <= i < handlers.len() && admits(
                route_at(extensions, #[trigger] handlers[i]).source,
                source,
            ) implies after.contains(handlers[i]) by {
            if i < front.len() {
                assert(front[i] == handlers[i]);
                let k = choose|k: int| 0 <= k < before.len() && before[k] == front[i];
                assert(after[k] == handlers[i]);
            } else {
                assert(after[after.len() - 1] == handlers[i]);
            }
        }
        assert forall|i: int, j: int| 0 <= i < j < after.len() implies comes_before(
            #[trigger] after[i],
            #[trigger] after[j],
        ) by {
            assert(after[i] == before[i]);
            if j < before.len() {
                assert(after[j] == before[j]);
            } else {
                assert(front.contains(before[i]));
                let k = choose|k: int| 0 <= k < front.len() && front[k] == before[i];
                assert(handlers[k] == after[i]);
                assert(handlers[handlers.len() - 1] == after[j]);
            }
        }
    }
}

/// An event triggers exactly the routes for its type whose source, where they
/// name one, is its source; extension by extension in their order, and each once.
pub proof fn law_matched_handlers(
    extensions: Seq<RegisteredView>,
    kind: Seq<char>,
    source: Seq<char>,
)
    ensures
        forall|handler: (int, int)|
            #[trigger] matched_handlers(extensions, kind, source).contains(handler) <==> handles(
                extensions,
                handler,
                kind,
            ) && admits(route_at(extensions, handler).source, source),
        forall|i: int, j: int|
            0 <= i < j < matched_handlers(extensions, kind, source).len() ==> comes_before(
                #[trigger] matched_handlers(extensions, kind, source)[i],
                #[trigger] matched_handlers(extensions, kind, source)[j],
            ),
{
    let all = handlers_for(extensions, kind);
    let matched = matched_handlers(extensions, kind, source);
    lemma_handlers_for(extensions, kind);
    lemma_triggered(extensions, all, source);
    assert forall|handler: (int, int)| #[trigger]
        matched.contains(handler) <==> handles(extensions, handler, kind) && admits(
        route_at(extensions, handler).source,
        source,
    ) by {
        if matched.contains(handler) {
            let k = choose|k: int| 0 <= k < matched.len() && matched[k] == handler;
            assert(all.contains(matched[k]));
            let j = choose|j: int| 0 <= j < all.len() && all[j] == handler;
            assert(handles(extensions, all[j], kind));
        }
        if handles(extensions, handler, kind) && admits(
            route_at(extensions, handler).source,
            source,
        ) {
            assert(all.contains(handler));
            let j = choose|j: int| 0 <= j < all.len() && all[j] == handler;
            assert(admits(route_at(extensions, all[j]).source, source));
        }
    }
}

/// The position of a route: that of its extension, and within it.
#[derive(Debug, Clone, Copy, PartialEq, Eq)]
pub struct RouteHandler {
    /// Position of the extension.
    pub extension: usize,
    /// Position of the route in the extension.
    pub route: usize,
}

/// Routes for one event type.
#[derive(Debug, PartialEq, Eq)]
pub struct RouteHandlers {
    /// The routes.
    pub handlers: Vec<RouteHandler>,
}

impl View for RouteHandler {
    type V = (int, int);

    open spec fn view(&self) -> (int, int) {
        (self.extension as int, self.route as int)
    }
}

impl View for RouteHandlers {
    type V = Seq<(int, int)>;

    open spec fn view(&self) -> Seq<(int, int)> {
        views(self.handlers@)
    }
}

impl Clone for RouteHandlers {
    fn clone(&self) -> (copy: Self)
        ensures
            copy@ == self@,
    {
        let copy: Self = RouteHandlers { handlers: self.handlers.clone() };
        assert(copy@ =~= self@);
        copy
    }
}

/// Whether an index of actions says who handles what.
pub open spec fn indexes_actions(
    owners: Seq<(Seq<char>, usize)>,
    extensions: Seq<RegisteredView>,
) -> bool {
    forall|action: Seq<char>| #[trigger] lookup(owners, action) == action_owner(extensions, action)
}

/// A list of routes as an entry of the index: none where there is no route.
pub open spec fn listed(handlers: Seq<(int, int)>) -> Option<Seq<(int, int)>> {
    if handlers.len() == 0 {
        None
    } else {
        Some(handlers)
    }
}

/// Whether an index of routes says which ones match what.
pub open spec fn indexes_routes(
    routes: Seq<(Seq<char>, Seq<(int, int)>)>,
    extensions: Seq<RegisteredView>,
) -> bool {
    forall|kind: Seq<char>| #[trigger]
        lookup(routes, kind) == listed(handlers_for(extensions, kind))
}

/// Index the actions of installed extensions by the extension that handles them.
pub fn action_owners(extensions: &[RegisteredExtension]) -> (owners: NameMap<usize>)
    ensures
        indexes_actions(owners@, views(extensions@)),
{
    let ghost all = views(extensions@);
    let mut owners: NameMap<usize> = NameMap::new();
    let mut i: usize = 0;
    assert(all.take(0) =~= Seq::empty());
    while i < extensions.len()
        invariant
            i <= extensions@.len(),
            all == views(extensions@),
            indexes_actions(owners@, all.take(i as int)),
        decreases extensions@.len() - i,
    {
        let ghost here = all.take(i as int);
        let ghost next = all.take(i + 1);
        let ghost actions = extensions@[i as int]@.actions;
        assert(next.drop_last() =~= here);
        assert(next.last() == extensions@[i as int]@);
        if extensions[i].runtime != ExtensionRuntime::Recipe {
            let ghost before = owners@;
            let mut j: usize = 0;
            while j < extensions[i].actions.entries.len()
                invariant
                    i < extensions@.len(),
                    j <= extensions@[i as int].actions.entries@.len(),
                    actions == extensions@[i as int].actions@,
                    forall|action: Seq<char>| #[trigger]
                        lookup(owners@, action) == if names(actions.take(j as int)).contains(
                            action,
                        ) {
                            Some(i)
                        } else {
                            lookup(before, action)
                        },
                decreases extensions@[i as int].actions.entries@.len() - j,
            {
                let ghost held = owners@;
                let name: String = extensions[i].actions.entries[j].0.clone();
                let ghost added = name@;
                owners.insert(name, i);
                proof {
                    let ahead = names(actions.take(j + 1));
                    let past = names(actions.take(j as int));
                    assert(ahead =~= past.push(added));
                    assert forall|action: Seq<char>| #[trigger]
                        lookup(owners@, action) == if ahead.contains(action) {
                            Some(i)
                        } else {
                            lookup(before, action)
                        } by {
                        law_lookup_after_insert(held, added, i, action);
                        if past.contains(action) {
                            let k = choose|k: int| 0 <= k < past.len() && past[k] == action;
                            assert(ahead[k] == action);
                        }
                        if action == added {
                            assert(ahead[past.len() as int] == action);
                        }
                        if ahead.contains(action) && action != added {
                            let k = choose|k: int| 0 <= k < ahead.len() && ahead[k] == action;
                            assert(past[k] == action);
                        }
                        assert(lookup(held, action) == if past.contains(action) {
                            Some(i)
                        } else {
                            lookup(before, action)
                        });
                    }
                }
                j = j + 1;
            }
            proof {
                assert(actions.take(actions.len() as int) =~= actions);
                assert forall|action: Seq<char>| #[trigger]
                    lookup(owners@, action) == action_owner(next, action) by {
                    assert(lookup(before, action) == action_owner(here, action));
                }
            }
        } else {
            assert forall|action: Seq<char>| #[trigger]
                lookup(owners@, action) == action_owner(next, action) by {
                assert(lookup(owners@, action) == action_owner(here, action));
            }
        }
        i = i + 1;
    }
    assert(all.take(all.len() as int) =~= all);
    owners
}

fn index_route(routes: &mut NameMap<RouteHandlers>, kind: &str, handler: RouteHandler)
    ensures
        forall|other: Seq<char>| #[trigger]
            lookup(final(routes)@, other) == if other == kind@ {
                Some(
                    match lookup(old(routes)@, kind@) {
                        Some(handlers) => handlers,
                        None => Seq::empty(),
                    }.push(handler@),
                )
            } else {
                lookup(old(routes)@, other)
            },
{
    let ghost before = routes@;
    let mut list: RouteHandlers = match routes.get(kind) {
        Some(handlers) => handlers.clone(),
        None => {
            let empty: RouteHandlers = RouteHandlers { handlers: Vec::new() };
            assert(empty@ =~= Seq::<(int, int)>::empty());
            empty
        },
    };
    let ghost held = list@;
    list.handlers.push(handler);
    assert(list@ =~= held.push(handler@));
    let ghost value = list@;
    routes.insert(kind.to_owned(), list);
    proof {
        assert forall|other: Seq<char>| #[trigger]
            lookup(routes@, other) == if other == kind@ {
                Some(value)
            } else {
                lookup(before, other)
            } by {
            law_lookup_after_insert(before, kind@, value, other);
        }
    }
}

/// Index the routes of installed extensions by the event type they match.
pub fn event_routes(extensions: &[RegisteredExtension]) -> (routes: NameMap<RouteHandlers>)
    ensures
        indexes_routes(routes@, views(extensions@)),
{
    let ghost all = views(extensions@);
    let mut routes: NameMap<RouteHandlers> = NameMap::new();
    let mut i: usize = 0;
    assert(all.take(0) =~= Seq::empty());
    while i < extensions.len()
        invariant
            i <= extensions@.len(),
            all == views(extensions@),
            indexes_routes(routes@, all.take(i as int)),
        decreases extensions@.len() - i,
    {
        let ghost here = all.take(i as int);
        let ghost next = all.take(i + 1);
        let ghost own = extensions@[i as int]@.routes;
        assert(next.drop_last() =~= here);
        assert(next.last() == extensions@[i as int]@);
        let mut j: usize = 0;
        assert(own.take(0) =~= Seq::empty());
        assert forall|kind: Seq<char>| #[trigger]
            lookup(routes@, kind) == listed(
                handlers_for(here, kind) + handlers_in(own.take(0), i as int, kind),
            ) by {
            assert(handlers_for(here, kind) + handlers_in(own.take(0), i as int, kind)
                =~= handlers_for(here, kind));
        }
        while j < extensions[i].routes.len()
            invariant
                i < extensions@.len(),
                j <= extensions@[i as int].routes@.len(),
                own == views(extensions@[i as int].routes@),
                forall|kind: Seq<char>| #[trigger]
                    lookup(routes@, kind) == listed(
                        handlers_for(here, kind) + handlers_in(own.take(j as int), i as int, kind),
                    ),
            decreases extensions@[i as int].routes@.len() - j,
        {
            let ghost before = routes@;
            let route: RouteHandler = RouteHandler { extension: i, route: j };
            index_route(&mut routes, extensions[i].routes[j].event.as_str(), route);
            proof {
                assert(own.take(j + 1).drop_last() =~= own.take(j as int));
                assert(own.take(j + 1).last() == extensions@[i as int].routes@[j as int]@);
                let event = extensions@[i as int].routes@[j as int].event@;
                assert forall|kind: Seq<char>| #[trigger]
                    lookup(routes@, kind) == listed(
                        handlers_for(here, kind) + handlers_in(own.take(j + 1), i as int, kind),
                    ) by {
                    let held = handlers_for(here, kind) + handlers_in(
                        own.take(j as int),
                        i as int,
                        kind,
                    );
                    assert(lookup(before, kind) == listed(held));
                    if kind == event {
                        assert(handlers_for(here, kind) + handlers_in(
                            own.take(j + 1),
                            i as int,
                            kind,
                        ) =~= held.push((i as int, j as int)));
                        if held.len() == 0 {
                            assert(held =~= Seq::empty());
                        }
                    }
                }
            }
            j = j + 1;
        }
        proof {
            assert(own.take(own.len() as int) =~= own);
            assert forall|kind: Seq<char>| #[trigger]
                lookup(routes@, kind) == listed(handlers_for(next, kind)) by {}
        }
        i = i + 1;
    }
    assert(all.take(all.len() as int) =~= all);
    routes
}

/// The installed extensions with their indexes.
#[derive(Debug, PartialEq, Eq)]
pub struct InstalledSurface {
    /// The extensions, in the order of the registry.
    pub extensions: Vec<RegisteredExtension>,
    /// What their actions see.
    pub visible_context: ExtensionVisibleContext,
    /// Who handles an action.
    pub action_owners: NameMap<usize>,
    /// Which routes match an event type.
    pub event_routes: NameMap<RouteHandlers>,
}

impl View for InstalledSurface {
    type V = Seq<RegisteredView>;

    open spec fn view(&self) -> Seq<RegisteredView> {
        views(self.extensions@)
    }
}

impl InstalledSurface {
    /// The indexes are those of the extensions.
    pub open spec fn well_formed(self) -> bool {
        &&& self.visible_context.shows(self@)
        &&& indexes_actions(self.action_owners@, self@)
        &&& indexes_routes(self.event_routes@, self@)
    }

    /// Index installed extensions.
    pub fn load(extensions: Vec<RegisteredExtension>) -> (surface: Self)
        ensures
            surface.well_formed(),
            surface@ == views(extensions@),
    {
        let visible_context: ExtensionVisibleContext = ExtensionVisibleContext::from_extensions(
            extensions.as_slice(),
        );
        let owners: NameMap<usize> = action_owners(extensions.as_slice());
        let routes: NameMap<RouteHandlers> = event_routes(extensions.as_slice());
        InstalledSurface {
            extensions,
            visible_context,
            action_owners: owners,
            event_routes: routes,
        }
    }

    /// The routes that an event triggers.
    pub fn routes_for_event(&self, event: &Event) -> (handlers: Vec<RouteHandler>)
        requires
            self.well_formed(),
        ensures
            views(handlers@) == matched_handlers(self@, event@.kind, event@.source),
            forall|i: int|
                0 <= i < handlers@.len() ==> handles(
                    self@,
                    (#[trigger] handlers@[i])@,
                    event@.kind,
                ),
    {
        let ghost kind = event@.kind;
        let ghost source = event@.source;
        let mut matched: Vec<RouteHandler> = Vec::new();
        proof {
            lemma_handlers_for(self@, kind);
            assert(lookup(self.event_routes@, kind) == listed(handlers_for(self@, kind)));
        }
        match self.event_routes.get(event.kind.as_str()) {
            None => {
                assert(handlers_for(self@, kind) =~= Seq::empty());
                assert(views(matched@) =~= matched_handlers(self@, kind, source));
            },
            Some(list) => {
                let ghost all = list@;
                let mut i: usize = 0;
                assert(all.take(0) =~= Seq::empty());
                assert(views(matched@) =~= triggered(self@, all.take(0), source));
                while i < list.handlers.len()
                    invariant
                        i <= list.handlers@.len(),
                        all == views(list.handlers@),
                        all == handlers_for(self@, kind),
                        source == event.source@,
                        forall|j: int|
                            0 <= j < all.len() ==> handles(self@, #[trigger] all[j], kind),
                        views(matched@) == triggered(self@, all.take(i as int), source),
                        forall|j: int|
                            0 <= j < matched@.len() ==> handles(
                                self@,
                                (#[trigger] matched@[j])@,
                                kind,
                            ),
                    decreases list.handlers@.len() - i,
                {
                    let ghost before = views(matched@);
                    let handler: RouteHandler = list.handlers[i];
                    assert(all.take(i + 1).drop_last() =~= all.take(i as int));
                    assert(all.take(i + 1).last() == all[i as int]);
                    assert(all[i as int] == handler@);
                    assert(handles(self@, all[i as int], kind));
                    let admitted: bool = match &self.extensions[handler.extension].routes[handler.route].source {
                        Some(wanted) => *wanted == event.source,
                        None => true,
                    };
                    if admitted {
                        matched.push(handler);
                        assert(views(matched@) =~= before.push(handler@));
                    }
                    i = i + 1;
                }
                assert(all.take(all.len() as int) =~= all);
            },
        }
        matched
    }

    /// The position of the extension that handles an action, and how the
    /// extension defines it.
    pub fn action_handler(&self, action: &str) -> (handler: Option<(usize, &ExtensionAction)>)
        requires
            self.well_formed(),
        ensures
            match handler {
                None => action_owner(self@, action@) is None,
                Some((at, definition)) => {
                    &&& action_owner(self@, action@) == Some(at)
                    &&& at < self.extensions@.len()
                    &&& lookup(self@[at as int].actions, action@) == Some(definition@)
                },
            },
    {
        proof {
            assert(lookup(self.action_owners@, action@) == action_owner(self@, action@));
            assert(self@.len() == self.extensions.len());
            law_action_owner(self@, action@);
        }
        match self.action_owners.get(action) {
            None => None,
            Some(at) => {
                match self.extensions[*at].actions.get(action) {
                    None => None,
                    Some(definition) => Some((*at, definition)),
                }
            },
        }
    }

    /// The surface as one extension sees it.
    pub fn context_for(&self, extension_id: &str) -> (context: ExtensionContext)
        requires
            self.well_formed(),
        ensures
            context@ == visible_to(self@, extension_id@),
    {
        let context: ExtensionContext = self.visible_context.context_for(extension_id);
        assert(context@ == visible_to(self@, extension_id@));
        context
    }
}

/// An event triggers exactly the installed routes for its type that name no source or
/// the source of the event, and the routes of extensions in front come first.
pub proof fn law_event_triggers_its_routes(
    extensions: Seq<RegisteredView>,
    kind: Seq<char>,
    source: Seq<char>,
)
    ensures
        forall|i: int|
            0 <= i < matched_routes(extensions, kind, source).len() ==> {
                let route = #[trigger] matched_routes(extensions, kind, source)[i];
                &&& route.event == kind
                &&& route.source is None || route.source == Some(source)
                &&& exists|at: int, place: int|
                    0 <= at < extensions.len() && 0 <= place < extensions[at].routes.len()
                        && #[trigger] extensions[at].routes[place] == route
            },
        forall|at: int, place: int|
            {
                &&& 0 <= at < extensions.len()
                &&& 0 <= place < extensions[at].routes.len()
                &&& (#[trigger] extensions[at].routes[place]).event == kind
                &&& extensions[at].routes[place].source is None
                    || extensions[at].routes[place].source == Some(source)
            } ==> matched_routes(extensions, kind, source).contains(extensions[at].routes[place]),
{
    let handlers = matched_handlers(extensions, kind, source);
    let routes = matched_routes(extensions, kind, source);
    law_matched_handlers(extensions, kind, source);
    assert forall|i: int| 0 <= i < routes.len() implies {
        let route = #[trigger] routes[i];
        &&& route.event == kind
        &&& route.source is None || route.source == Some(source)
        &&& exists|at: int, place: int|
            0 <= at < extensions.len() && 0 <= place < extensions[at].routes.len()
                && #[trigger] extensions[at].routes[place] == route
    } by {
        assert(handlers.contains(handlers[i]));
        assert(extensions[handlers[i].0].routes[handlers[i].1] == routes[i]);
    }
    assert forall|at: int, place: int|
        {
            &&& 0 <= at < extensions.len()
            &&& 0 <= place < extensions[at].routes.len()
            &&& (#[trigger] extensions[at].routes[place]).event == kind
            &&& extensions[at].routes[place].source is None
                || extensions[at].routes[place].source == Some(source)
        } implies routes.contains(extensions[at].routes[place]) by {
        assert(handles(extensions, (at, place), kind));
        assert(handlers.contains((at, place)));
        let i = choose|i: int| 0 <= i < handlers.len() && handlers[i] == (at, place);
        assert(routes[i] == extensions[at].routes[place]);
    }
}

} // verus!
