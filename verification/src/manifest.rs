//! Extension manifests: their rules, and how a runtime registration is merged in.
use vstd::prelude::*;

use crate::error::{
    checked, each_checked, first_error, invalid_field, lemma_each_fails_at, lemma_each_next,
    lemma_each_passes, Checked, ErrorView, SpindleError,
};
use crate::json::{json_value, object_check, same_json, validate_json_object, Json};
use crate::name_map::{
    ascending, inserted, law_ascending_unique, law_lookup_after_insert, lemma_lookup, lookup, names,
    NameMap,
};
use crate::registration::{
    extend_unique, law_with_all_unique, with_all_unique, ActionsView, ExtensionRegistration,
    RegistrationAction, RegistrationRoute, RegistrationView, RouteView,
};
use crate::text::{less_text, optional_view, views};
use crate::validate::{
    disjoint_check, name_check, name_checker, unique_check, validate_disjoint_values,
    validate_name, validate_names, validate_unique_values,
};

verus! {

/// Supported extension execution modes.
#[derive(Debug, Clone, Copy, PartialEq, Eq, Structural)]
pub enum ExtensionRuntime {
    /// Communicate with a child process through JSON lines over stdio.
    StdioJsonl,
    /// Declarative package that contributes routes but runs no process.
    Recipe,
}

impl Default for ExtensionRuntime {
    fn default() -> (runtime: Self)
        ensures
            runtime == ExtensionRuntime::StdioJsonl,
    {
        ExtensionRuntime::StdioJsonl
    }
}

/// Action exposed by an extension.
#[derive(Debug, PartialEq, Eq)]
pub struct ExtensionAction {
    /// Capabilities required to invoke this action.
    pub capabilities: Vec<String>,
}

/// Declarative event-to-action route contributed by an extension or recipe.
#[derive(Debug, PartialEq, Eq)]
pub struct ExtensionRoute {
    /// Event type matched by this route.
    pub event: String,
    /// Optional event source matched by this route.
    pub source: Option<String>,
    /// Action to invoke when the event matches.
    pub action: String,
    /// Capabilities granted by this route.
    pub capabilities: Vec<String>,
    /// Static arguments merged into the event payload before invoking.
    pub args: Json,
}

/// Static extension manifest.
#[derive(Debug, PartialEq, Eq)]
pub struct ExtensionManifest {
    /// Extension identifier.
    pub id: String,
    /// Extension version string.
    pub version: String,
    /// Runtime used to launch the extension.
    pub runtime: ExtensionRuntime,
    /// Event types this extension can emit.
    pub emits: Vec<String>,
    /// Event types this extension's actions can produce.
    pub produces: Vec<String>,
    /// Capabilities declared by this extension.
    pub capabilities: Vec<String>,
    /// Actions exposed by this extension.
    pub actions: NameMap<ExtensionAction>,
    /// Routes contributed by this extension package.
    pub routes: Vec<ExtensionRoute>,
}

/// A manifest with its texts as characters.
#[verifier::ext_equal]
pub struct ManifestView {
    /// Extension identifier.
    pub id: Seq<char>,
    /// Extension version.
    pub version: Seq<char>,
    /// Runtime.
    pub runtime: ExtensionRuntime,
    /// Emitted event types.
    pub emits: Seq<Seq<char>>,
    /// Produced event types.
    pub produces: Seq<Seq<char>>,
    /// Provided capabilities.
    pub capabilities: Seq<Seq<char>>,
    /// Actions.
    pub actions: ActionsView,
    /// Routes.
    pub routes: Seq<RouteView>,
}

impl View for ExtensionAction {
    type V = Seq<Seq<char>>;

    open spec fn view(&self) -> Seq<Seq<char>> {
        views(self.capabilities@)
    }
}

impl View for ExtensionRoute {
    type V = RouteView;

    open spec fn view(&self) -> RouteView {
        RouteView {
            event: self.event@,
            source: optional_view(self.source),
            action: self.action@,
            capabilities: views(self.capabilities@),
            args: self.args@,
        }
    }
}

impl View for ExtensionManifest {
    type V = ManifestView;

    open spec fn view(&self) -> ManifestView {
        ManifestView {
            id: self.id@,
            version: self.version@,
            runtime: self.runtime,
            emits: views(self.emits@),
            produces: views(self.produces@),
            capabilities: views(self.capabilities@),
            actions: self.actions@,
            routes: views(self.routes@),
        }
    }
}

impl Clone for ExtensionAction {
    fn clone(&self) -> (copy: Self)
        ensures
            copy@ == self@,
    {
        let copy: Self = ExtensionAction { capabilities: self.capabilities.clone() };
        assert(copy@ =~= self@);
        copy
    }
}

impl Clone for ExtensionRoute {
    fn clone(&self) -> (copy: Self)
        ensures
            copy@ == self@,
    {
        let copy: Self = ExtensionRoute {
            event: self.event.clone(),
            source: self.source.clone(),
            action: self.action.clone(),
            capabilities: self.capabilities.clone(),
            args: self.args.clone(),
        };
        assert(copy@.capabilities =~= self@.capabilities);
        copy
    }
}

impl Default for ExtensionAction {
    fn default() -> (action: Self)
        ensures
            action@ == Seq::<Seq<char>>::empty(),
    {
        let action: Self = ExtensionAction { capabilities: Vec::new() };
        assert(action@ =~= Seq::<Seq<char>>::empty());
        action
    }
}

impl From<RegistrationAction> for ExtensionAction {
    fn from(action: RegistrationAction) -> (converted: Self) {
        ExtensionAction { capabilities: action.capabilities }
    }
}

impl vstd::std_specs::convert::FromSpecImpl<RegistrationAction> for ExtensionAction {
    open spec fn obeys_from_spec() -> bool {
        true
    }

    open spec fn from_spec(action: RegistrationAction) -> Self {
        ExtensionAction { capabilities: action.capabilities }
    }
}

impl From<RegistrationRoute> for ExtensionRoute {
    fn from(route: RegistrationRoute) -> (converted: Self) {
        ExtensionRoute {
            event: route.event,
            source: route.source,
            action: route.action,
            capabilities: route.capabilities,
            args: route.args,
        }
    }
}

impl vstd::std_specs::convert::FromSpecImpl<RegistrationRoute> for ExtensionRoute {
    open spec fn obeys_from_spec() -> bool {
        true
    }

    open spec fn from_spec(route: RegistrationRoute) -> Self {
        ExtensionRoute {
            event: route.event,
            source: route.source,
            action: route.action,
            capabilities: route.capabilities,
            args: route.args,
        }
    }
}

/// The rule for a runtime: a recipe runs no process, so it has no actions.
pub open spec fn runtime_check(runtime: ExtensionRuntime, actions: ActionsView) -> Checked {
    if runtime == ExtensionRuntime::Recipe && actions.len() > 0 {
        Err(
            ErrorView::InvalidField {
                field: "actions"@,
                reason: "recipe extensions cannot declare actions"@,
            },
        )
    } else {
        Ok(())
    }
}

/// The rule for a list of distinct names.
pub open spec fn names_check(
    item_field: Seq<char>,
    list_field: Seq<char>,
    values: Seq<Seq<char>>,
) -> Checked {
    first_error(
        each_checked(values, name_checker(item_field)),
        unique_check(list_field, values),
    )
}

/// The rule for an action: its name, and the capabilities it requires.
pub open spec fn action_check(action: (Seq<char>, Seq<Seq<char>>)) -> Checked {
    first_error(
        name_check("action"@, action.0),
        first_error(
            unique_check("action.capabilities"@, action.1),
            each_checked(action.1, name_checker("capability"@)),
        ),
    )
}

/// The rule for an action, as a check of one value.
pub open spec fn action_checker() -> spec_fn((Seq<char>, Seq<Seq<char>>)) -> Checked {
    |action: (Seq<char>, Seq<Seq<char>>)| action_check(action)
}

/// The rule for the source of a route.
pub open spec fn route_source_check(source: Option<Seq<char>>) -> Checked {
    match source {
        Some(name) => name_check("route.source"@, name),
        None => Ok(()),
    }
}

/// The rule for the grants of a route: who grants capabilities names a source.
pub open spec fn route_grant_check(source: Option<Seq<char>>, grants: Seq<Seq<char>>) -> Checked {
    if grants.len() > 0 && source is None {
        Err(
            ErrorView::InvalidField {
                field: "route.source"@,
                reason: "is required when route grants capabilities"@,
            },
        )
    } else {
        Ok(())
    }
}

/// The rule for a route.
pub open spec fn route_check(route: RouteView) -> Checked {
    first_error(
        name_check("route.event"@, route.event),
        first_error(
            route_source_check(route.source),
            first_error(
                route_grant_check(route.source, route.capabilities),
                first_error(
                    object_check("route.args"@, route.args),
                    first_error(
                        name_check("route.action"@, route.action),
                        first_error(
                            unique_check("route.capabilities"@, route.capabilities),
                            each_checked(route.capabilities, name_checker("route.capability"@)),
                        ),
                    ),
                ),
            ),
        ),
    )
}

/// The rule for a route, as a check of one value.
pub open spec fn route_checker() -> spec_fn(RouteView) -> Checked {
    |route: RouteView| route_check(route)
}

/// The rule for the events of a manifest.
pub open spec fn events_check(emits: Seq<Seq<char>>, produces: Seq<Seq<char>>) -> Checked {
    first_error(
        names_check("emits"@, "emits"@, emits),
        first_error(
            names_check("produces"@, "produces"@, produces),
            disjoint_check(emits, "produces"@, produces),
        ),
    )
}

/// The rule for a manifest.
pub open spec fn manifest_check(manifest: ManifestView) -> Checked {
    first_error(
        name_check("id"@, manifest.id),
        first_error(
            name_check("version"@, manifest.version),
            first_error(
                runtime_check(manifest.runtime, manifest.actions),
                first_error(
                    events_check(manifest.emits, manifest.produces),
                    first_error(
                        names_check("capability"@, "capabilities"@, manifest.capabilities),
                        first_error(
                            each_checked(manifest.actions, action_checker()),
                            each_checked(manifest.routes, route_checker()),
                        ),
                    ),
                ),
            ),
        ),
    )
}

/// The actions of a manifest with registered ones added in order, up to the first
/// that is there with other capabilities; and whether there was one.
pub open spec fn with_actions(base: ActionsView, additions: ActionsView) -> (ActionsView, bool)
    decreases additions.len(),
{
    if additions.len() == 0 {
        (base, false)
    } else {
        let (before, conflict) = with_actions(base, additions.drop_last());
        let (name, capabilities) = additions.last();
        if conflict {
            (before, true)
        } else {
            match lookup(before, name) {
                Some(existing) => (before, existing != capabilities),
                None => (inserted(before, name, capabilities), false),
            }
        }
    }
}

/// What a route means where routes are compared.
pub open spec fn route_value(route: RouteView) -> RouteView {
    RouteView { args: json_value(route.args), ..route }
}

/// Whether a list holds a route that is equal to the given one.
pub open spec fn holds_route(routes: Seq<RouteView>, route: RouteView) -> bool {
    exists|i: int|
        0 <= i < routes.len() && #[trigger] route_value(routes[i]) == route_value(route)
}

/// The routes of a manifest with registered ones added in order, each unless it
/// is there.
pub open spec fn with_routes(base: Seq<RouteView>, additions: Seq<RouteView>) -> Seq<RouteView>
    decreases additions.len(),
{
    if additions.len() == 0 {
        base
    } else {
        let before = with_routes(base, additions.drop_last());
        if holds_route(before, additions.last()) {
            before
        } else {
            before.push(additions.last())
        }
    }
}

/// A manifest with a registration merged in; where an action conflicts, merging
/// stops there and the routes are left alone.
pub open spec fn with_registration(
    manifest: ManifestView,
    registration: RegistrationView,
) -> ManifestView {
    let (actions, conflict) = with_actions(manifest.actions, registration.actions);
    ManifestView {
        emits: with_all_unique(manifest.emits, registration.emits),
        produces: with_all_unique(manifest.produces, registration.produces),
        capabilities: with_all_unique(manifest.capabilities, registration.capabilities),
        actions,
        routes: if conflict {
            manifest.routes
        } else {
            with_routes(manifest.routes, registration.routes)
        },
        ..manifest
    }
}

/// The manifest of an extension that was asked for its surface at runtime, or why
/// there is none.
pub open spec fn runtime_manifest(
    manifest: ManifestView,
    registration: Option<RegistrationView>,
) -> Result<ManifestView, ErrorView> {
    let whole = match registration {
        Some(surface) => with_registration(manifest, surface),
        None => manifest,
    };
    if registration is Some && with_actions(manifest.actions, registration->0.actions).1 {
        Err(
            ErrorView::InvalidField {
                field: "actions"@,
                reason: "must not conflict with static manifest actions"@,
            },
        )
    } else {
        match manifest_check(whole) {
            Ok(_) => Ok(whole),
            Err(error) => Err(error),
        }
    }
}

proof fn lemma_conflict_stays(base: ActionsView, additions: ActionsView, at: int)
    requires
        0 <= at <= additions.len(),
        with_actions(base, additions.take(at)).1,
    ensures
        with_actions(base, additions) == with_actions(base, additions.take(at)),
    decreases additions.len(),
{
    if at == additions.len() {
        assert(additions.take(at) =~= additions);
    } else {
        assert(additions.drop_last().take(at) =~= additions.take(at));
        lemma_conflict_stays(base, additions.drop_last(), at);
    }
}

/// Whether two routes are equal.
pub fn same_route(left: &ExtensionRoute, right: &ExtensionRoute) -> (same: bool)
    ensures
        same == (route_value(left@) == route_value(right@)),
{
    let same_source: bool = match (&left.source, &right.source) {
        (Some(a), Some(b)) => *a == *b,
        (None, None) => true,
        _ => false,
    };
    left.event == right.event && same_source && left.action == right.action && same_texts(
        left.capabilities.as_slice(),
        right.capabilities.as_slice(),
    ) && same_json(&left.args, &right.args)
}

/// Whether two lists hold the same texts in the same order.
pub fn same_texts(left: &[String], right: &[String]) -> (same: bool)
    ensures
        same == (views(left@) == views(right@)),
{
    if left.len() != right.len() {
        assert(views(left@).len() != views(right@).len());
        return false;
    }
    let mut i: usize = 0;
    while i < left.len()
        invariant
            i <= left@.len(),
            left@.len() == right@.len(),
            forall|j: int| 0 <= j < i ==> views(left@)[j] == views(right@)[j],
        decreases left@.len() - i,
    {
        if left[i] != right[i] {
            assert(views(left@)[i as int] != views(right@)[i as int]);
            return false;
        }
        i = i + 1;
    }
    assert(views(left@) =~= views(right@));
    true
}

/// A copy of actions.
pub fn copy_actions(actions: &NameMap<ExtensionAction>) -> (copy: NameMap<ExtensionAction>)
    ensures
        copy@ == actions@,
{
    let mut entries: Vec<(String, ExtensionAction)> = Vec::new();
    let mut i: usize = 0;
    while i < actions.entries.len()
        invariant
            i <= actions.entries@.len(),
            entries@.len() == i,
            forall|j: int|
                0 <= j < i ==> (#[trigger] entries@[j]).0@ == actions@[j].0 && entries@[j].1@
                    == actions@[j].1,
        decreases actions.entries@.len() - i,
    {
        let action: ExtensionAction = actions.entries[i].1.clone();
        entries.push((actions.entries[i].0.clone(), action));
        i = i + 1;
    }
    let copy: NameMap<ExtensionAction> = NameMap { entries };
    assert(copy@ =~= actions@);
    copy
}

fn validate_action(name: &str, definition: &ExtensionAction) -> (result: Result<(), SpindleError>)
    ensures
        checked(result) == action_check((name@, definition@)),
{
    match validate_name("action", name) {
        Ok(()) => {},
        Err(error) => {
            return Err(error);
        },
    }
    match validate_unique_values("action.capabilities", definition.capabilities.as_slice()) {
        Ok(()) => {},
        Err(error) => {
            return Err(error);
        },
    }
    validate_names("capability", definition.capabilities.as_slice())
}

fn validate_route(route: &ExtensionRoute) -> (result: Result<(), SpindleError>)
    ensures
        checked(result) == route_check(route@),
{
    match validate_name("route.event", route.event.as_str()) {
        Ok(()) => {},
        Err(error) => {
            return Err(error);
        },
    }
    if let Some(source) = &route.source {
        match validate_name("route.source", source.as_str()) {
            Ok(()) => {},
            Err(error) => {
                return Err(error);
            },
        }
    }
    if route.capabilities.len() > 0 && route.source.is_none() {
        return Err(invalid_field("route.source", "is required when route grants capabilities"));
    }
    match validate_json_object("route.args", &route.args) {
        Ok(()) => {},
        Err(error) => {
            return Err(error);
        },
    }
    match validate_name("route.action", route.action.as_str()) {
        Ok(()) => {},
        Err(error) => {
            return Err(error);
        },
    }
    match validate_unique_values("route.capabilities", route.capabilities.as_slice()) {
        Ok(()) => {},
        Err(error) => {
            return Err(error);
        },
    }
    validate_names("route.capability", route.capabilities.as_slice())
}

fn validate_distinct_names(
    item_field: &'static str,
    list_field: &'static str,
    values: &[String],
) -> (result: Result<(), SpindleError>)
    ensures
        checked(result) == names_check(item_field@, list_field@, views(values@)),
{
    match validate_names(item_field, values) {
        Ok(()) => validate_unique_values(list_field, values),
        Err(error) => Err(error),
    }
}

impl ExtensionManifest {
    /// Validate static manifest fields.
    pub fn validate(&self) -> (result: Result<(), SpindleError>)
        ensures
            checked(result) == manifest_check(self@),
    {
        match validate_name("id", self.id.as_str()) {
            Ok(()) => {},
            Err(error) => {
                return Err(error);
            },
        }
        match validate_name("version", self.version.as_str()) {
            Ok(()) => {},
            Err(error) => {
                return Err(error);
            },
        }
        match self.validate_runtime_fields() {
            Ok(()) => {},
            Err(error) => {
                return Err(error);
            },
        }
        match validate_distinct_names("emits", "emits", self.emits.as_slice()) {
            Ok(()) => {},
            Err(error) => {
                return Err(error);
            },
        }
        match validate_distinct_names("produces", "produces", self.produces.as_slice()) {
            Ok(()) => {},
            Err(error) => {
                return Err(error);
            },
        }
        match validate_disjoint_values(
            self.emits.as_slice(),
            "produces",
            self.produces.as_slice(),
        ) {
            Ok(()) => {},
            Err(error) => {
                return Err(error);
            },
        }
        match validate_distinct_names("capability", "capabilities", self.capabilities.as_slice()) {
            Ok(()) => {},
            Err(error) => {
                return Err(error);
            },
        }
        match self.validate_actions() {
            Ok(()) => {},
            Err(error) => {
                return Err(error);
            },
        }
        self.validate_routes()
    }

    fn validate_runtime_fields(&self) -> (result: Result<(), SpindleError>)
        ensures
            checked(result) == runtime_check(self@.runtime, self@.actions),
    {
        if self.runtime == ExtensionRuntime::Recipe && !self.actions.is_empty() {
            return Err(invalid_field("actions", "recipe extensions cannot declare actions"));
        }
        Ok(())
    }

    fn validate_actions(&self) -> (result: Result<(), SpindleError>)
        ensures
            checked(result) == each_checked(self@.actions, action_checker()),
    {
        let ghost all = self@.actions;
        let mut i: usize = 0;
        assert(all.take(0) =~= Seq::empty());
        while i < self.actions.entries.len()
            invariant
                i <= self.actions.entries@.len(),
                all == self.actions@,
                each_checked(all.take(i as int), action_checker()) is Ok,
            decreases self.actions.entries@.len() - i,
        {
            let outcome: Result<(), SpindleError> = validate_action(
                self.actions.entries[i].0.as_str(),
                &self.actions.entries[i].1,
            );
            assert(action_checker()(all[i as int]) == checked(outcome));
            match outcome {
                Ok(()) => {},
                Err(error) => {
                    proof {
                        lemma_each_fails_at(all, action_checker(), i as int);
                    }
                    return Err(error);
                },
            }
            proof {
                lemma_each_next(all, action_checker(), i as int);
            }
            i = i + 1;
        }
        assert(all.take(all.len() as int) =~= all);
        Ok(())
    }

    fn validate_routes(&self) -> (result: Result<(), SpindleError>)
        ensures
            checked(result) == each_checked(self@.routes, route_checker()),
    {
        let ghost all = self@.routes;
        let mut i: usize = 0;
        assert(all.take(0) =~= Seq::empty());
        while i < self.routes.len()
            invariant
                i <= self.routes@.len(),
                all == views(self.routes@),
                each_checked(all.take(i as int), route_checker()) is Ok,
            decreases self.routes@.len() - i,
        {
            let outcome: Result<(), SpindleError> = validate_route(&self.routes[i]);
            assert(route_checker()(all[i as int]) == checked(outcome));
            match outcome {
                Ok(()) => {},
                Err(error) => {
                    proof {
                        lemma_each_fails_at(all, route_checker(), i as int);
                    }
                    return Err(error);
                },
            }
            proof {
                lemma_each_next(all, route_checker(), i as int);
            }
            i = i + 1;
        }
        assert(all.take(all.len() as int) =~= all);
        Ok(())
    }

    fn merge_actions(&mut self, additions: &NameMap<RegistrationAction>) -> (conflict: bool)
        ensures
            final(self)@ == (ManifestView {
                actions: with_actions(old(self)@.actions, additions@).0,
                ..old(self)@
            }),
            conflict == with_actions(old(self)@.actions, additions@).1,
    {
        let ghost before = self@;
        let ghost base = self@.actions;
        let ghost all = additions@;
        let mut i: usize = 0;
        assert(all.take(0) =~= Seq::empty());
        while i < additions.entries.len()
            invariant
                i <= additions.entries@.len(),
                all == additions@,
                before == old(self)@,
                base == before.actions,
                with_actions(base, all.take(i as int)) == (self@.actions, false),
                self@ == (ManifestView { actions: self@.actions, ..before }),
            decreases additions.entries@.len() - i,
        {
            let name: &String = &additions.entries[i].0;
            let action: ExtensionAction = ExtensionAction::from(additions.entries[i].1.clone());
            assert(action@ == all[i as int].1);
            assert(all.take(i + 1).drop_last() =~= all.take(i as int));
            assert(all.take(i + 1).last() == all[i as int]);
            match self.actions.get(name.as_str()) {
                Some(existing) => {
                    if !same_texts(
                        existing.capabilities.as_slice(),
                        action.capabilities.as_slice(),
                    ) {
                        proof {
                            lemma_conflict_stays(base, all, i + 1);
                        }
                        return true;
                    }
                },
                None => {
                    self.actions.insert(name.clone(), action);
                },
            }
            i = i + 1;
        }
        assert(all.take(all.len() as int) =~= all);
        false
    }

    fn merge_routes(&mut self, additions: Vec<RegistrationRoute>)
        ensures
            final(self)@ == (ManifestView {
                routes: with_routes(old(self)@.routes, views(additions@)),
                ..old(self)@
            }),
    {
        let ghost before = self@;
        let ghost all = views(additions@);
        let mut i: usize = 0;
        assert(all.take(0) =~= Seq::empty());
        while i < additions.len()
            invariant
                i <= additions@.len(),
                all == views(additions@),
                self@.routes == with_routes(before.routes, all.take(i as int)),
                self@ == (ManifestView { routes: self@.routes, ..before }),
            decreases additions@.len() - i,
        {
            let ghost kept = self@.routes;
            let route: ExtensionRoute = ExtensionRoute::from(additions[i].clone());
            assert(route@ == all[i as int]);
            assert(all.take(i + 1).drop_last() =~= all.take(i as int));
            assert(all.take(i + 1).last() == all[i as int]);
            if !contains_route(self.routes.as_slice(), &route) {
                self.routes.push(route);
                assert(self@.routes =~= kept.push(all[i as int]));
            }
            i = i + 1;
        }
        assert(all.take(all.len() as int) =~= all);
    }

    /// Merge the surface that the extension registered at runtime, if it was asked
    /// for it, and check the result.
    pub fn apply_runtime_registration(self, registration: Option<ExtensionRegistration>) -> (result:
        Result<Self, SpindleError>)
        ensures
            match result {
                Ok(manifest) => runtime_manifest(self@, optional_view(registration)) == Ok::<
                    ManifestView,
                    ErrorView,
                >(manifest@),
                Err(error) => runtime_manifest(self@, optional_view(registration)) == Err::<
                    ManifestView,
                    ErrorView,
                >(error@),
            },
    {
        let mut manifest: Self = self;
        if let Some(surface) = registration {
            match manifest.merge_registration(surface) {
                Ok(()) => {},
                Err(error) => {
                    return Err(error);
                },
            }
        }
        match manifest.validate() {
            Ok(()) => Ok(manifest),
            Err(error) => Err(error),
        }
    }

    /// Merge the surface that the extension registered at runtime.
    pub fn merge_registration(&mut self, registration: ExtensionRegistration) -> (result: Result<
        (),
        SpindleError,
    >)
        ensures
            final(self)@ == with_registration(old(self)@, registration@),
            checked(result) == if with_actions(old(self)@.actions, registration@.actions).1 {
                Err(
                    ErrorView::InvalidField {
                        field: "actions"@,
                        reason: "must not conflict with static manifest actions"@,
                    },
                )
            } else {
                Ok::<(), ErrorView>(())
            },
    {
        extend_unique(&mut self.emits, registration.emits.as_slice());
        extend_unique(&mut self.produces, registration.produces.as_slice());
        extend_unique(&mut self.capabilities, registration.capabilities.as_slice());
        if self.merge_actions(&registration.actions) {
            return Err(
                invalid_field("actions", "must not conflict with static manifest actions"),
            );
        }
        self.merge_routes(registration.routes);
        Ok(())
    }
}

/// Whether a route is in a list.
pub fn contains_route(routes: &[ExtensionRoute], route: &ExtensionRoute) -> (found: bool)
    ensures
        found == holds_route(views(routes@), route@),
{
    let ghost all = views(routes@);
    let mut i: usize = 0;
    while i < routes.len()
        invariant
            i <= routes@.len(),
            all == views(routes@),
            forall|j: int| 0 <= j < i ==> #[trigger] route_value(all[j]) != route_value(route@),
        decreases routes@.len() - i,
    {
        assert(all[i as int] == routes@[i as int]@);
        if same_route(&routes[i], route) {
            assert(route_value(all[i as int]) == route_value(route@));
            return true;
        }
        i = i + 1;
    }
    false
}

/// Whether two routes are equal in each of their parts.
pub open spec fn routes_agree(left: RouteView, right: RouteView) -> bool {
    &&& left.event == right.event
    &&& left.source == right.source
    &&& left.action == right.action
    &&& left.capabilities == right.capabilities
    &&& json_value(left.args) == json_value(right.args)
}

/// Merging routes keeps those that are there, in front and in order, and adds those
/// that are missing, each with all that it holds: afterwards every route that was to
/// be added has an equal one in the list, every new one is one that was to be added,
/// and no new one is equal to one before it.
pub proof fn law_routes_are_merged_whole(base: Seq<RouteView>, additions: Seq<RouteView>)
    ensures
        base.len() <= with_routes(base, additions).len(),
        with_routes(base, additions).take(base.len() as int) == base,
        forall|i: int|
            0 <= i < additions.len() ==> exists|k: int|
                0 <= k < with_routes(base, additions).len() && routes_agree(
                    #[trigger] with_routes(base, additions)[k],
                    #[trigger] additions[i],
                ),
        forall|k: int|
            base.len() <= k < with_routes(base, additions).len() ==> additions.contains(
                #[trigger] with_routes(base, additions)[k],
            ),
        forall|m: int, k: int|
            0 <= m < k < with_routes(base, additions).len() && k >= base.len() ==> !routes_agree(
                #[trigger] with_routes(base, additions)[m],
                #[trigger] with_routes(base, additions)[k],
            ),
        forall|i: int|
            0 <= i < additions.len() && (forall|k: int|
                0 <= k < base.len() ==> !routes_agree(#[trigger] base[k], additions[i])) && (
            forall|j: int|
                0 <= j < i ==> !routes_agree(#[trigger] additions[j], additions[i]))
                ==> with_routes(base, additions).contains(#[trigger] additions[i]),
{
    lemma_routes_merged(base, additions);
    let after = with_routes(base, additions);
    assert forall|i: int|
        0 <= i < additions.len() && (forall|k: int|
            0 <= k < base.len() ==> !routes_agree(#[trigger] base[k], additions[i])) && (
        forall|j: int|
            0 <= j < i ==> !routes_agree(#[trigger] additions[j], additions[i])) implies
        after.contains(#[trigger] additions[i]) by {
        lemma_new_route_is_added(base, additions, i);
    }
}

proof fn lemma_new_route_is_added(base: Seq<RouteView>, additions: Seq<RouteView>, i: int)
    requires
        0 <= i < additions.len(),
        forall|k: int| 0 <= k < base.len() ==> !routes_agree(#[trigger] base[k], additions[i]),
        forall|j: int| 0 <= j < i ==> !routes_agree(#[trigger] additions[j], additions[i]),
    ensures
        with_routes(base, additions).contains(additions[i]),
    decreases additions.len(),
{
    let front = additions.drop_last();
    let before = with_routes(base, front);
    let after = with_routes(base, additions);
    if i < front.len() {
        assert(front[i] == additions[i]);
        assert forall|j: int| 0 <= j < i implies !routes_agree(#[trigger] front[j], front[i]) by {
            assert(front[j] == additions[j]);
        }
        lemma_new_route_is_added(base, front, i);
        let k = choose|k: int| 0 <= k < before.len() && before[k] == front[i];
        assert(after[k] == additions[i]);
    } else {
        lemma_routes_merged(base, front);
        lemma_holds_route(before, additions[i]);
        if holds_route(before, additions[i]) {
            let k = choose|k: int|
                0 <= k < before.len() && routes_agree(#[trigger] before[k], additions[i]);
            if k < base.len() {
                assert(before.take(base.len() as int)[k] == base[k]);
                assert(routes_agree(base[k], additions[i]));
            } else {
                assert(front.contains(before[k]));
                let j = choose|j: int| 0 <= j < front.len() && front[j] == before[k];
                assert(additions[j] == front[j]);
                assert(routes_agree(additions[j], additions[i]));
            }
        }
        assert(after[before.len() as int] == additions[i]);
    }
}

proof fn lemma_holds_route(routes: Seq<RouteView>, route: RouteView)
    ensures
        holds_route(routes, route) <==> exists|k: int|
            0 <= k < routes.len() && routes_agree(#[trigger] routes[k], route),
{
    assert forall|k: int| 0 <= k < routes.len() implies routes_agree(#[trigger] routes[k], route)
        == (route_value(routes[k]) == route_value(route)) by {}
}

proof fn lemma_routes_merged(base: Seq<RouteView>, additions: Seq<RouteView>)
    ensures
        base.len() <= with_routes(base, additions).len(),
        with_routes(base, additions).take(base.len() as int) == base,
        forall|i: int|
            0 <= i < additions.len() ==> exists|k: int|
                0 <= k < with_routes(base, additions).len() && routes_agree(
                    #[trigger] with_routes(base, additions)[k],
                    #[trigger] additions[i],
                ),
        forall|k: int|
            base.len() <= k < with_routes(base, additions).len() ==> additions.contains(
                #[trigger] with_routes(base, additions)[k],
            ),
        forall|m: int, k: int|
            0 <= m < k < with_routes(base, additions).len() && k >= base.len() ==> !routes_agree(
                #[trigger] with_routes(base, additions)[m],
                #[trigger] with_routes(base, additions)[k],
            ),
    decreases additions.len(),
{
    let after = with_routes(base, additions);
    if additions.len() == 0 {
        assert(after.take(base.len() as int) =~= base);
    } else {
        let front = additions.drop_last();
        let last = additions.last();
        let before = with_routes(base, front);
        lemma_routes_merged(base, front);
        lemma_holds_route(before, last);
        assert(after.take(base.len() as int) =~= before.take(base.len() as int));
        assert forall|k: int| 0 <= k < before.len() implies #[trigger] after[k] == before[k] by {}
        assert forall|i: int| 0 <= i < additions.len() implies exists|k: int|
            0 <= k < after.len() && routes_agree(#[trigger] after[k], #[trigger] additions[i]) by {
            if i < front.len() {
                assert(front[i] == additions[i]);
                let k = choose|k: int|
                    0 <= k < before.len() && routes_agree(#[trigger] before[k], front[i]);
                assert(routes_agree(after[k], additions[i]));
            } else if holds_route(before, last) {
                let k = choose|k: int|
                    0 <= k < before.len() && routes_agree(#[trigger] before[k], last);
                assert(routes_agree(after[k], additions[i]));
            } else {
                assert(routes_agree(after[before.len() as int], additions[i]));
            }
        }
        assert forall|k: int| base.len() <= k < after.len() implies additions.contains(
            #[trigger] after[k],
        ) by {
            if k < before.len() {
                assert(front.contains(before[k]));
                let j = choose|j: int| 0 <= j < front.len() && front[j] == before[k];
                assert(additions[j] == after[k]);
            } else {
                assert(additions[additions.len() - 1] == after[k]);
            }
        }
        assert forall|m: int, k: int|
            0 <= m < k < after.len() && k >= base.len() implies !routes_agree(
            #[trigger] after[m],
            #[trigger] after[k],
        ) by {
            assert(after[m] == before[m]);
            if k < before.len() {
                assert(after[k] == before[k]);
            }
        }
    }
}

/// Merging actions conflicts exactly where an action is there with other
/// capabilities. Without a conflict the actions that are there stay as they are, and
/// the others are added with the capabilities that they require.
pub proof fn law_actions_are_merged_whole(base: ActionsView, additions: ActionsView)
    requires
        ascending(names(additions)),
    ensures
        with_actions(base, additions).1 <==> exists|i: int|
            0 <= i < additions.len() && lookup(base, (#[trigger] additions[i]).0) is Some && lookup(
                base,
                additions[i].0,
            )->0 != additions[i].1,
        !with_actions(base, additions).1 ==> forall|name: Seq<char>| #[trigger]
            lookup(with_actions(base, additions).0, name) == match lookup(base, name) {
                Some(capabilities) => Some(capabilities),
                None => lookup(additions, name),
            },
    decreases additions.len(),
{
    if additions.len() > 0 {
        let front = additions.drop_last();
        let last = additions.last();
        let (before, conflict) = with_actions(base, front);
        assert forall|i: int, j: int| 0 <= i < j < names(front).len() implies less_text(
            #[trigger] names(front)[i],
            #[trigger] names(front)[j],
        ) by {
            assert(names(front)[i] == names(additions)[i]);
            assert(names(front)[j] == names(additions)[j]);
        }
        law_actions_are_merged_whole(base, front);
        law_ascending_unique(additions, additions.len() - 1);
        lemma_lookup(front, last.0);
        assert(lookup(front, last.0) is None) by {
            if names(front).contains(last.0) {
                let k = choose|k: int| 0 <= k < front.len() && names(front)[k] == last.0;
                assert(additions[k].0 == last.0);
            }
        }
        if conflict {
            let i = choose|i: int|
                0 <= i < front.len() && lookup(base, (#[trigger] front[i]).0) is Some && lookup(
                    base,
                    front[i].0,
                )->0 != front[i].1;
            assert(additions[i] == front[i]);
        } else {
            assert(lookup(before, last.0) == lookup(base, last.0));
            assert forall|i: int|
                0 <= i < front.len() && lookup(base, (#[trigger] additions[i]).0) is Some implies
                lookup(base, additions[i].0)->0 == additions[i].1 by {
                assert(front[i] == additions[i]);
            }
            if lookup(base, last.0) is None {
                assert forall|name: Seq<char>| #[trigger]
                    lookup(with_actions(base, additions).0, name) == match lookup(base, name) {
                        Some(capabilities) => Some(capabilities),
                        None => lookup(additions, name),
                    } by {
                    law_lookup_after_insert(before, last.0, last.1, name);
                    assert(lookup(before, name) == match lookup(base, name) {
                        Some(capabilities) => Some(capabilities),
                        None => lookup(front, name),
                    });
                }
            } else {
                assert(additions[additions.len() - 1] == last);
                assert forall|name: Seq<char>| #[trigger]
                    lookup(with_actions(base, additions).0, name) == match lookup(base, name) {
                        Some(capabilities) => Some(capabilities),
                        None => lookup(additions, name),
                    } by {
                    assert(lookup(before, name) == match lookup(base, name) {
                        Some(capabilities) => Some(capabilities),
                        None => lookup(front, name),
                    });
                }
            }
        }
    } else {
        assert forall|name: Seq<char>| #[trigger] lookup(additions, name) is None by {}
    }
}

/// What an extension registers is added to its manifest: its identity stays, and its
/// events, capabilities, actions and routes are those of the manifest, in front, and
/// those that it registered. It is refused exactly where an action conflicts or the
/// whole is no valid manifest; without a registration the manifest stays as it is.
pub proof fn law_registration_is_added(
    manifest: ManifestView,
    registration: Option<RegistrationView>,
)
    ensures
        runtime_manifest(manifest, registration) matches Ok(whole) ==> {
            &&& manifest_check(whole) is Ok
            &&& whole.id == manifest.id
            &&& whole.version == manifest.version
            &&& whole.runtime == manifest.runtime
            &&& registration is None ==> whole == manifest
            &&& registration matches Some(added) ==> {
                &&& !with_actions(manifest.actions, added.actions).1
                &&& whole.actions == with_actions(manifest.actions, added.actions).0
                &&& whole.routes == with_routes(manifest.routes, added.routes)
                &&& manifest.emits.is_prefix_of(whole.emits)
                &&& manifest.produces.is_prefix_of(whole.produces)
                &&& manifest.capabilities.is_prefix_of(whole.capabilities)
                &&& forall|name: Seq<char>| #[trigger]
                    whole.emits.contains(name) <==> manifest.emits.contains(name)
                        || added.emits.contains(name)
                &&& forall|name: Seq<char>| #[trigger]
                    whole.produces.contains(name) <==> manifest.produces.contains(name)
                        || added.produces.contains(name)
                &&& forall|name: Seq<char>| #[trigger]
                    whole.capabilities.contains(name) <==> manifest.capabilities.contains(name)
                        || added.capabilities.contains(name)
            }
        },
        registration is None ==> (runtime_manifest(manifest, registration) is Ok
            <==> manifest_check(manifest) is Ok),
        registration is Some && with_actions(manifest.actions, registration->0.actions).1
            ==> runtime_manifest(manifest, registration) is Err,
        registration is Some && !with_actions(manifest.actions, registration->0.actions).1 ==> (
        runtime_manifest(manifest, registration) is Ok <==> manifest_check(
            with_registration(manifest, registration->0),
        ) is Ok),
{
    if let Some(added) = registration {
        law_with_all_unique(manifest.emits, added.emits);
        law_with_all_unique(manifest.produces, added.produces);
        law_with_all_unique(manifest.capabilities, added.capabilities);
    }
}

/// A manifest is valid exactly where: its identifier and version are names; a recipe
/// has no actions; its events and capabilities are distinct names, and no event is
/// both emitted and produced; its actions are names that require distinct names; and
/// its routes lead from a name to a name, from a source that is a name if there is
/// one, and there is one where they grant distinct names, with an object of
/// arguments.
pub proof fn law_what_a_valid_manifest_is(manifest: ManifestView)
    ensures
        manifest_check(manifest) is Ok <==> {
            &&& name_check("id"@, manifest.id) is Ok
            &&& name_check("version"@, manifest.version) is Ok
            &&& manifest.runtime == ExtensionRuntime::Recipe ==> manifest.actions.len() == 0
            &&& are_names("emits"@, manifest.emits)
            &&& manifest.emits.no_duplicates()
            &&& are_names("produces"@, manifest.produces)
            &&& manifest.produces.no_duplicates()
            &&& disjoint_check(manifest.emits, "produces"@, manifest.produces) is Ok
            &&& are_names("capability"@, manifest.capabilities)
            &&& manifest.capabilities.no_duplicates()
            &&& forall|i: int|
                0 <= i < manifest.actions.len() ==> {
                    &&& name_check("action"@, (#[trigger] manifest.actions[i]).0) is Ok
                    &&& are_names("capability"@, manifest.actions[i].1)
                    &&& manifest.actions[i].1.no_duplicates()
                }
            &&& forall|i: int|
                0 <= i < manifest.routes.len() ==> {
                    let route = #[trigger] manifest.routes[i];
                    &&& name_check("route.event"@, route.event) is Ok
                    &&& route.source matches Some(source) ==> name_check(
                        "route.source"@,
                        source,
                    ) is Ok
                    &&& route.capabilities.len() > 0 ==> route.source is Some
                    &&& route.args is Object
                    &&& name_check("route.action"@, route.action) is Ok
                    &&& are_names("route.capability"@, route.capabilities)
                    &&& route.capabilities.no_duplicates()
                }
        },
{
    lemma_are_names("emits"@, manifest.emits);
    lemma_are_names("produces"@, manifest.produces);
    lemma_are_names("capability"@, manifest.capabilities);
    lemma_each_passes(manifest.actions, action_checker());
    lemma_each_passes(manifest.routes, route_checker());
    assert forall|i: int| 0 <= i < manifest.actions.len() implies (action_checker()(
        #[trigger] manifest.actions[i],
    ) is Ok) == (name_check("action"@, manifest.actions[i].0) is Ok && are_names(
        "capability"@,
        manifest.actions[i].1,
    ) && manifest.actions[i].1.no_duplicates()) by {
        lemma_are_names("capability"@, manifest.actions[i].1);
    }
    assert forall|i: int| 0 <= i < manifest.routes.len() implies (route_checker()(
        #[trigger] manifest.routes[i],
    ) is Ok) == ({
        let route = manifest.routes[i];
        &&& name_check("route.event"@, route.event) is Ok
        &&& route.source matches Some(source) ==> name_check("route.source"@, source) is Ok
        &&& route.capabilities.len() > 0 ==> route.source is Some
        &&& route.args is Object
        &&& name_check("route.action"@, route.action) is Ok
        &&& are_names("route.capability"@, route.capabilities)
        &&& route.capabilities.no_duplicates()
    }) by {
        lemma_are_names("route.capability"@, manifest.routes[i].capabilities);
    }
}

/// Whether each of some values is a name.
pub open spec fn are_names(field: Seq<char>, values: Seq<Seq<char>>) -> bool {
    forall|i: int| 0 <= i < values.len() ==> name_check(field, #[trigger] values[i]) is Ok
}

proof fn lemma_are_names(field: Seq<char>, values: Seq<Seq<char>>)
    ensures
        each_checked(values, name_checker(field)) is Ok <==> are_names(field, values),
{
    lemma_each_passes(values, name_checker(field));
    assert forall|i: int| 0 <= i < values.len() implies name_checker(field)(#[trigger] values[i])
        == name_check(field, values[i]) by {}
}

/// A manifest and its routes show all that they hold.
pub proof fn law_manifest_shows_all(manifest: ExtensionManifest, route: ExtensionRoute)
    ensures
        manifest@.id == manifest.id@,
        manifest@.version == manifest.version@,
        manifest@.runtime == manifest.runtime,
        manifest@.emits == views(manifest.emits@),
        manifest@.produces == views(manifest.produces@),
        manifest@.capabilities == views(manifest.capabilities@),
        manifest@.actions == manifest.actions@,
        manifest@.routes == views(manifest.routes@),
        route@.event == route.event@,
        route@.source == optional_view(route.source),
        route@.action == route.action@,
        route@.capabilities == views(route.capabilities@),
        route@.args == route.args@,
{
}

} // verus!
