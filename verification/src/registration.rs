//! The surface that an extension host registers: events, actions, capabilities
//! and routes.
use vstd::prelude::*;

use crate::json::{empty_object, Json, JsonView};
use crate::name_map::{inserted, NameMap};
use crate::text::{contains_text, optional_view, views};

verus! {

/// Action registration returned by an extension host.
#[derive(Debug, PartialEq, Eq)]
pub struct RegistrationAction {
    /// Capabilities required to invoke this action.
    pub capabilities: Vec<String>,
}

/// Route registration returned by an extension host.
#[derive(Debug, PartialEq, Eq)]
pub struct RegistrationRoute {
    /// Event type that activates this route.
    pub event: String,
    /// Event source that activates this route.
    pub source: Option<String>,
    /// Action requested when the event is observed.
    pub action: String,
    /// Capabilities granted by this installed route.
    pub capabilities: Vec<String>,
    /// Static action arguments merged with the event payload.
    pub args: Json,
}

/// Extension registration returned by extension hosts during installation.
#[derive(Debug, PartialEq, Eq)]
pub struct ExtensionRegistration {
    /// Event types this extension can emit.
    pub emits: Vec<String>,
    /// Event types this extension's actions can produce.
    pub produces: Vec<String>,
    /// Capabilities declared by this extension.
    pub capabilities: Vec<String>,
    /// Actions exposed by this extension.
    pub actions: NameMap<RegistrationAction>,
    /// Routes contributed by this extension package.
    pub routes: Vec<RegistrationRoute>,
}

/// A route with its texts as characters.
pub struct RouteView {
    /// Event type.
    pub event: Seq<char>,
    /// Event source, if one is required.
    pub source: Option<Seq<char>>,
    /// Action.
    pub action: Seq<char>,
    /// Granted capabilities.
    pub capabilities: Seq<Seq<char>>,
    /// Static arguments.
    pub args: JsonView,
}

/// Actions by name, each with the capabilities it requires.
pub type ActionsView = Seq<(Seq<char>, Seq<Seq<char>>)>;

/// A registration with its texts as characters.
#[verifier::ext_equal]
pub struct RegistrationView {
    /// Emitted event types.
    pub emits: Seq<Seq<char>>,
    /// Produced event types.
    pub produces: Seq<Seq<char>>,
    /// Provided capabilities.
    pub capabilities: Seq<Seq<char>>,
    /// Actions.
    pub actions: ActionsView,
    /// Routes.
    pub routes: Seq<RouteView>,
}

impl View for RegistrationAction {
    type V = Seq<Seq<char>>;

    open spec fn view(&self) -> Seq<Seq<char>> {
        views(self.capabilities@)
    }
}

impl View for RegistrationRoute {
    type V = RouteView;

    open spec fn view(&self) -> RouteView {
        RouteView {
            event: self.event@,
            source: optional_view(self.source),
            action: self.action@,
            capabilities: views(self.capabilities@),
            args: self.args@,
        }
    }
}

impl View for ExtensionRegistration {
    type V = RegistrationView;

    open spec fn view(&self) -> RegistrationView {
        RegistrationView {
            emits: views(self.emits@),
            produces: views(self.produces@),
            capabilities: views(self.capabilities@),
            actions: self.actions@,
            routes: views(self.routes@),
        }
    }
}

/// A list with a value added, unless it is there.
pub open spec fn with_unique(values: Seq<Seq<char>>, value: Seq<char>) -> Seq<Seq<char>> {
    if values.contains(value) {
        values
    } else {
        values.push(value)
    }
}

/// A list with values added in order, each unless it is there.
pub open spec fn with_all_unique(values: Seq<Seq<char>>, additions: Seq<Seq<char>>) -> Seq<
    Seq<char>,
>
    decreases additions.len(),
{
    if additions.len() == 0 {
        values
    } else {
        with_unique(with_all_unique(values, additions.drop_last()), additions.last())
    }
}

/// Adding a value unless it is there keeps a list free of duplicates, keeps what
/// was there in front, and puts the value in.
pub proof fn law_with_unique(values: Seq<Seq<char>>, value: Seq<char>)
    ensures
        values.no_duplicates() ==> with_unique(values, value).no_duplicates(),
        values.is_prefix_of(with_unique(values, value)),
        with_unique(values, value).contains(value),
        with_unique(with_unique(values, value), value) == with_unique(values, value),
{
    if !values.contains(value) {
        let after = values.push(value);
        assert(after[after.len() - 1] == value);
        assert(after.take(values.len() as int) =~= values);
    } else {
        assert(values.take(values.len() as int) =~= values);
    }
}

/// Adding values unless they are there keeps a list free of duplicates, keeps
/// what was there in front, and leaves exactly the values of both lists in it.
pub proof fn law_with_all_unique(values: Seq<Seq<char>>, additions: Seq<Seq<char>>)
    ensures
        values.no_duplicates() ==> with_all_unique(values, additions).no_duplicates(),
        values.is_prefix_of(with_all_unique(values, additions)),
        forall|value: Seq<char>|
            with_all_unique(values, additions).contains(value) <==> values.contains(value)
                || additions.contains(value),
    decreases additions.len(),
{
    if additions.len() > 0 {
        let front = additions.drop_last();
        let last = additions.last();
        let before = with_all_unique(values, front);
        law_with_all_unique(values, front);
        law_with_unique(before, last);
        let after = with_all_unique(values, additions);
        assert(additions =~= front.push(last));
        assert forall|value: Seq<char>|
            after.contains(value) <==> values.contains(value) || additions.contains(value) by {
            assert(additions.contains(value) <==> front.contains(value) || value == last) by {
                if front.contains(value) {
                    let i = choose|i: int| 0 <= i < front.len() && front[i] == value;
                    assert(additions[i] == value);
                }
                if value == last {
                    assert(additions[additions.len() - 1] == value);
                }
            }
            assert(after.contains(value) <==> before.contains(value) || value == last) by {
                if before.contains(value) {
                    let i = choose|i: int| 0 <= i < before.len() && before[i] == value;
                    assert(after[i] == value);
                }
            }
        }
        assert(after.take(values.len() as int) =~= before.take(values.len() as int));
    } else {
        assert(values.take(values.len() as int) =~= values);
    }
}

/// Add a value to a list, unless it is there.
pub fn push_unique(values: &mut Vec<String>, value: String)
    ensures
        views(final(values)@) == with_unique(views(old(values)@), value@),
{
    let ghost before = views(values@);
    if !contains_text(values.as_slice(), value.as_str()) {
        values.push(value);
        assert(views(values@) =~= before.push(value@));
    }
}

/// Add values to a list in order, each unless it is there.
pub fn extend_unique(values: &mut Vec<String>, additions: &[String])
    ensures
        views(final(values)@) == with_all_unique(views(old(values)@), views(additions@)),
{
    let ghost before = views(values@);
    let ghost all = views(additions@);
    let mut i: usize = 0;
    assert(all.take(0) =~= Seq::empty());
    while i < additions.len()
        invariant
            i <= additions@.len(),
            all == views(additions@),
            views(values@) == with_all_unique(before, all.take(i as int)),
        decreases additions@.len() - i,
    {
        assert(all.take(i + 1).drop_last() =~= all.take(i as int));
        assert(all.take(i + 1).last() == additions@[i as int]@);
        push_unique(values, additions[i].clone());
        i = i + 1;
    }
    assert(all.take(additions@.len() as int) =~= all);
}

impl Clone for RegistrationAction {
    fn clone(&self) -> (copy: Self)
        ensures
            copy@ == self@,
    {
        let copy: Self = RegistrationAction { capabilities: self.capabilities.clone() };
        assert(copy@ =~= self@);
        copy
    }
}

impl RegistrationAction {
    /// Create an action registration.
    pub fn new() -> (action: Self)
        ensures
            action@ == Seq::<Seq<char>>::empty(),
    {
        let action: Self = RegistrationAction { capabilities: Vec::new() };
        assert(action@ =~= Seq::<Seq<char>>::empty());
        action
    }

    /// Require a capability for this action.
    pub fn capability(self, capability: &str) -> (action: Self)
        ensures
            action@ == with_unique(self@, capability@),
    {
        let mut action: Self = self;
        push_unique(&mut action.capabilities, capability.to_owned());
        action
    }
}

impl Clone for RegistrationRoute {
    fn clone(&self) -> (copy: Self)
        ensures
            copy@ == self@,
    {
        let copy: Self = RegistrationRoute {
            event: self.event.clone(),
            source: self.source.clone(),
            action: self.action.clone(),
            capabilities: self.capabilities.clone(),
            args: self.args.clone(),
        };
        assert(copy@.capabilities =~= self@.capabilities);
        copy
    }
}

impl RegistrationRoute {
    /// Create a route registration.
    pub fn new(event: &str, action: &str) -> (route: Self)
        ensures
            route@ == (RouteView {
                event: event@,
                source: None,
                action: action@,
                capabilities: Seq::empty(),
                args: JsonView::Object(Seq::empty()),
            }),
    {
        let route: Self = RegistrationRoute {
            event: event.to_owned(),
            source: None,
            action: action.to_owned(),
            capabilities: Vec::new(),
            args: empty_object(),
        };
        assert(route@.capabilities =~= Seq::empty());
        route
    }

    /// Match this route only when the source also matches.
    pub fn source(self, source: &str) -> (route: Self)
        ensures
            route@ == (RouteView { source: Some(source@), ..self@ }),
    {
        let mut route: Self = self;
        route.source = Some(source.to_owned());
        route
    }

    /// Grant a capability when this route invokes its action.
    pub fn capability(self, capability: &str) -> (route: Self)
        ensures
            route@ == (RouteView {
                capabilities: with_unique(self@.capabilities, capability@),
                ..self@
            }),
    {
        let mut route: Self = self;
        push_unique(&mut route.capabilities, capability.to_owned());
        route
    }

    /// Attach static route arguments.
    pub fn with_args(self, args: Json) -> (route: Self)
        ensures
            route@ == (RouteView { args: args@, ..self@ }),
    {
        let mut route: Self = self;
        route.args = args;
        route
    }
}

/// The route with the capabilities of an action granted on top of its own.
pub fn route_with_action_capabilities(
    route: RegistrationRoute,
    action: &RegistrationAction,
) -> (granting: RegistrationRoute)
    ensures
        granting@ == (RouteView {
            capabilities: with_all_unique(route@.capabilities, action@),
            ..route@
        }),
{
    let mut granting: RegistrationRoute = route;
    extend_unique(&mut granting.capabilities, action.capabilities.as_slice());
    granting
}

impl Clone for ExtensionRegistration {
    fn clone(&self) -> (copy: Self)
        ensures
            copy@ == self@,
    {
        let copy: Self = ExtensionRegistration {
            emits: self.emits.clone(),
            produces: self.produces.clone(),
            capabilities: self.capabilities.clone(),
            actions: copy_registration_actions(&self.actions),
            routes: self.routes.clone(),
        };
        assert(copy@ =~= self@) by {
            assert(copy@.emits =~= self@.emits);
            assert(copy@.produces =~= self@.produces);
            assert(copy@.capabilities =~= self@.capabilities);
            assert(copy@.routes =~= self@.routes);
        }
        copy
    }
}

fn copy_registration_actions(actions: &NameMap<RegistrationAction>) -> (copy: NameMap<
    RegistrationAction,
>)
    ensures
        copy@ == actions@,
{
    let mut entries: Vec<(String, RegistrationAction)> = Vec::new();
    let mut i: usize = 0;
    while i < actions.entries.len()
        invariant
            i <= actions.entries@.len(),
            entries@.len() == i,
            forall|j: int|
                0 <= j < i ==> (#[trigger] entries@[j]).0@ == actions@[j].0 && entries@[j].1@
                    == actions@[j].1,
        decreases actions.entries@.len() - i,
    {
        let action: RegistrationAction = actions.entries[i].1.clone();
        entries.push((actions.entries[i].0.clone(), action));
        i = i + 1;
    }
    let copy: NameMap<RegistrationAction> = NameMap { entries };
    assert(copy@ =~= actions@);
    copy
}

impl Default for ExtensionRegistration {
    fn default() -> (registration: Self)
        ensures
            registration@ == (RegistrationView {
                emits: Seq::empty(),
                produces: Seq::empty(),
                capabilities: Seq::empty(),
                actions: Seq::empty(),
                routes: Seq::empty(),
            }),
    {
        ExtensionRegistration::new()
    }
}

impl ExtensionRegistration {
    /// Create an empty registration.
    pub fn new() -> (registration: Self)
        ensures
            registration@ == (RegistrationView {
                emits: Seq::empty(),
                produces: Seq::empty(),
                capabilities: Seq::empty(),
                actions: Seq::empty(),
                routes: Seq::empty(),
            }),
    {
        let registration: Self = ExtensionRegistration {
            emits: Vec::new(),
            produces: Vec::new(),
            capabilities: Vec::new(),
            actions: NameMap::new(),
            routes: Vec::new(),
        };
        assert(registration@.emits =~= Seq::empty());
        assert(registration@.routes =~= Seq::empty());
        registration
    }

    /// Register an emitted event type.
    pub fn emit(self, event: &str) -> (registration: Self)
        ensures
            registration@ == (RegistrationView { emits: self@.emits.push(event@), ..self@ }),
    {
        let mut registration: Self = self;
        registration.emits.push(event.to_owned());
        assert(registration@.emits =~= self@.emits.push(event@));
        registration
    }

    /// Register an action-produced event type.
    pub fn produce(self, event: &str) -> (registration: Self)
        ensures
            registration@ == (RegistrationView {
                produces: self@.produces.push(event@),
                ..self@
            }),
    {
        let mut registration: Self = self;
        registration.produces.push(event.to_owned());
        assert(registration@.produces =~= self@.produces.push(event@));
        registration
    }

    /// Register a capability.
    pub fn capability(self, capability: &str) -> (registration: Self)
        ensures
            registration@ == (RegistrationView {
                capabilities: self@.capabilities.push(capability@),
                ..self@
            }),
    {
        let mut registration: Self = self;
        registration.capabilities.push(capability.to_owned());
        assert(registration@.capabilities =~= self@.capabilities.push(capability@));
        registration
    }

    /// Register an action.
    pub fn action(self, name: &str, action: RegistrationAction) -> (registration: Self)
        ensures
            registration@ == (RegistrationView {
                actions: inserted(self@.actions, name@, action@),
                ..self@
            }),
    {
        let mut registration: Self = self;
        registration.actions.insert(name.to_owned(), action);
        registration
    }

    /// Register a route.
    pub fn route(self, route: RegistrationRoute) -> (registration: Self)
        ensures
            registration@ == (RegistrationView { routes: self@.routes.push(route@), ..self@ }),
    {
        let mut registration: Self = self;
        registration.routes.push(route);
        assert(registration@.routes =~= self@.routes.push(route@));
        registration
    }

    fn on_route(
        self,
        route: RegistrationRoute,
        action_name: &str,
        action: RegistrationAction,
    ) -> (registration: Self)
        ensures
            registration@ == (RegistrationView {
                actions: inserted(self@.actions, action_name@, action@),
                routes: self@.routes.push(route@),
                ..self@
            }),
    {
        self.action(action_name, action).route(route)
    }

    fn on_capability_route(
        self,
        route: RegistrationRoute,
        action_name: &str,
        action: RegistrationAction,
    ) -> (registration: Self)
        ensures
            registration@ == (RegistrationView {
                actions: inserted(self@.actions, action_name@, action@),
                routes: self@.routes.push(
                    RouteView {
                        capabilities: with_all_unique(route@.capabilities, action@),
                        ..route@
                    },
                ),
                ..self@
            }),
    {
        let granting: RegistrationRoute = route_with_action_capabilities(route, &action);
        self.on_route(granting, action_name, action)
    }

    /// Register a capless event handler action and route it from an event.
    ///
    /// Use [`Self::on_from`] when the handler action requires capabilities.
    pub fn on(self, event: &str, action_name: &str, action: RegistrationAction) -> (registration:
        Self)
        ensures
            registration@ == (RegistrationView {
                actions: inserted(self@.actions, action_name@, action@),
                routes: self@.routes.push(
                    RouteView {
                        event: event@,
                        source: None,
                        action: action_name@,
                        capabilities: Seq::empty(),
                        args: JsonView::Object(Seq::empty()),
                    },
                ),
                ..self@
            }),
    {
        self.on_route(RegistrationRoute::new(event, action_name), action_name, action)
    }

    /// Register an event handler action for a specific event source.
    ///
    /// Action capabilities are copied to the generated source-bound route.
    pub fn on_from(
        self,
        source: &str,
        event: &str,
        action_name: &str,
        action: RegistrationAction,
    ) -> (registration: Self)
        ensures
            registration@ == (RegistrationView {
                actions: inserted(self@.actions, action_name@, action@),
                routes: self@.routes.push(
                    RouteView {
                        event: event@,
                        source: Some(source@),
                        action: action_name@,
                        capabilities: with_all_unique(Seq::empty(), action@),
                        args: JsonView::Object(Seq::empty()),
                    },
                ),
                ..self@
            }),
    {
        self.on_capability_route(
            RegistrationRoute::new(event, action_name).source(source),
            action_name,
            action,
        )
    }

    /// Register a capless event handler action with static route arguments.
    ///
    /// Use [`Self::on_with_args_from`] when the handler action requires
    /// capabilities.
    pub fn on_with_args(
        self,
        event: &str,
        action_name: &str,
        action: RegistrationAction,
        args: Json,
    ) -> (registration: Self)
        ensures
            registration@ == (RegistrationView {
                actions: inserted(self@.actions, action_name@, action@),
                routes: self@.routes.push(
                    RouteView {
                        event: event@,
                        source: None,
                        action: action_name@,
                        capabilities: Seq::empty(),
                        args: args@,
                    },
                ),
                ..self@
            }),
    {
        self.on_route(
            RegistrationRoute::new(event, action_name).with_args(args),
            action_name,
            action,
        )
    }

    /// Register an event handler action for a specific source with static route
    /// arguments.
    ///
    /// Action capabilities are copied to the generated source-bound route.
    pub fn on_with_args_from(
        self,
        source_event: (&str, &str),
        action_name: &str,
        action: RegistrationAction,
        args: Json,
    ) -> (registration: Self)
        ensures
            registration@ == (RegistrationView {
                actions: inserted(self@.actions, action_name@, action@),
                routes: self@.routes.push(
                    RouteView {
                        event: source_event.1@,
                        source: Some(source_event.0@),
                        action: action_name@,
                        capabilities: with_all_unique(Seq::empty(), action@),
                        args: args@,
                    },
                ),
                ..self@
            }),
    {
        let (source, event) = source_event;
        self.on_capability_route(
            RegistrationRoute::new(event, action_name).source(source).with_args(args),
            action_name,
            action,
        )
    }
}

/// A registration and its routes show all that they hold.
pub proof fn law_registration_shows_all(
    registration: ExtensionRegistration,
    route: RegistrationRoute,
    action: RegistrationAction,
)
    ensures
        registration@.emits == views(registration.emits@),
        registration@.produces == views(registration.produces@),
        registration@.capabilities == views(registration.capabilities@),
        registration@.actions == registration.actions@,
        registration@.routes == views(registration.routes@),
        route@.event == route.event@,
        route@.source == optional_view(route.source),
        route@.action == route.action@,
        route@.capabilities == views(route.capabilities@),
        route@.args == route.args@,
        action@ == views(action.capabilities@),
{
}

} // verus!
