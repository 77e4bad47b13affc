//! A local allow policy for capability grants.
use vstd::prelude::*;

use crate::error::{
    checked, each_checked, first_error, invalid_field, lemma_each_fails_at, lemma_each_next,
    law_first_failing_item_decides, lemma_each_passes, Checked, ErrorView, SpindleError,
};
use crate::manifest::ExtensionRoute;
use crate::name_map::{inserted, law_lookup_after_insert, lookup, NameMap};
use crate::registered::{RegisteredExtension, RegisteredView};
use crate::registration::{extend_unique, law_with_all_unique, with_all_unique, RouteView};
use crate::text::{contains_text, views};
use crate::text_set::{insert_texts, law_text_set, text_set};
use crate::validate::{text_check, validate_token};

verus! {

/// The entry that allows every capability.
pub const WILDCARD: &'static str = "*";

/// The file that holds the policy.
pub const POLICY_FILE: &'static str = "capabilities.json";

/// Capabilities that someone may grant.
#[derive(Debug, PartialEq, Eq)]
pub struct CapabilityList {
    /// The capabilities.
    pub names: Vec<String>,
}

impl View for CapabilityList {
    type V = Seq<Seq<char>>;

    open spec fn view(&self) -> Seq<Seq<char>> {
        views(self.names@)
    }
}

impl Clone for CapabilityList {
    fn clone(&self) -> (copy: Self)
        ensures
            copy@ == self@,
    {
        let copy: Self = CapabilityList { names: self.names.clone() };
        assert(copy@ =~= self@);
        copy
    }
}

/// Grants by the name of the grantor.
pub type GrantsView = Seq<(Seq<char>, Seq<Seq<char>>)>;

/// Local allow policy for capability grants.
#[derive(Debug, PartialEq, Eq)]
pub struct CapabilityPolicy {
    /// Capabilities direct clients may grant by request source.
    pub direct: NameMap<CapabilityList>,
    /// Capabilities route-owning extensions may grant.
    pub routes: NameMap<CapabilityList>,
}

/// Whether a grantor may grant a capability: it is listed, or everything is.
pub open spec fn allows(
    allowed: GrantsView,
    grantor: Seq<char>,
    capability: Seq<char>,
) -> bool {
    match lookup(allowed, grantor) {
        Some(list) => list.contains(capability) || list.contains(WILDCARD@),
        None => false,
    }
}

/// The rule for one granted capability.
pub open spec fn grant_checker(
    grant_kind: Seq<char>,
    grantor: Seq<char>,
    allowed: GrantsView,
) -> spec_fn(Seq<char>) -> Checked {
    |capability: Seq<char>|
        if allows(allowed, grantor, capability) {
            Ok(())
        } else {
            Err(ErrorView::CapabilityGrantDenied { grant_kind, grantor, capability })
        }
}

/// The rule for granted capabilities.
pub open spec fn grants_check(
    grant_kind: Seq<char>,
    grantor: Seq<char>,
    capabilities: Seq<Seq<char>>,
    allowed: GrantsView,
) -> Checked {
    each_checked(capabilities, grant_checker(grant_kind, grantor, allowed))
}

/// The rule for the grants of a route of an extension.
pub open spec fn route_grant_checker(
    extension: Seq<char>,
    allowed: GrantsView,
) -> spec_fn(RouteView) -> Checked {
    |route: RouteView| grants_check("route extension"@, extension, route.capabilities, allowed)
}

/// The rule for listed capabilities: text, and no capability twice.
pub open spec fn listed_check(field: Seq<char>, capabilities: Seq<Seq<char>>) -> Checked
    decreases capabilities.len(),
{
    if capabilities.len() == 0 {
        Ok(())
    } else {
        first_error(
            listed_check(field, capabilities.drop_last()),
            first_error(
                text_check(field, capabilities.last()),
                if capabilities.drop_last().contains(capabilities.last()) {
                    Err(
                        ErrorView::InvalidField {
                            field,
                            reason: "must not contain duplicate capabilities"@,
                        },
                    )
                } else {
                    Ok(())
                },
            ),
        )
    }
}

/// The rule for one entry of a policy.
pub open spec fn entry_checker(field: Seq<char>) -> spec_fn(
    (Seq<char>, Seq<Seq<char>>),
) -> Checked {
    |entry: (Seq<char>, Seq<Seq<char>>)|
        first_error(text_check(field, entry.0), listed_check(field, entry.1))
}

/// The rule for the entries of a policy.
pub open spec fn policy_map_check(field: Seq<char>, policy: GrantsView) -> Checked {
    each_checked(policy, entry_checker(field))
}

/// The capabilities that routes grant, route by route.
pub open spec fn route_capabilities(routes: Seq<RouteView>) -> Seq<Seq<char>>
    decreases routes.len(),
{
    if routes.len() == 0 {
        Seq::empty()
    } else {
        route_capabilities(routes.drop_last()) + routes.last().capabilities
    }
}

/// The grants with those added that the routes of an extension need, in order.
pub open spec fn with_route_grants(allowed: GrantsView, extension: RegisteredView) -> GrantsView {
    let required = text_set(route_capabilities(extension.routes));
    if required.len() == 0 {
        allowed
    } else {
        let present = match lookup(allowed, extension.id) {
            Some(list) => list,
            None => Seq::empty(),
        };
        inserted(allowed, extension.id, with_all_unique(present, required))
    }
}

proof fn lemma_route_capabilities(routes: Seq<RouteView>, i: int, capability: Seq<char>)
    requires
        0 <= i < routes.len(),
        routes[i].capabilities.contains(capability),
    ensures
        route_capabilities(routes).contains(capability),
    decreases routes.len(),
{
    let front = routes.drop_last();
    let before = route_capabilities(front);
    let last = routes.last().capabilities;
    if i == routes.len() - 1 {
        let k = choose|k: int| 0 <= k < last.len() && last[k] == capability;
        assert((before + last)[before.len() + k] == capability);
    } else {
        lemma_route_capabilities(front, i, capability);
        let k = choose|k: int| 0 <= k < before.len() && before[k] == capability;
        assert((before + last)[k] == capability);
    }
}

/// Without entries nothing may be granted.
pub proof fn law_empty_policy_denies(
    grant_kind: Seq<char>,
    grantor: Seq<char>,
    capabilities: Seq<Seq<char>>,
)
    requires
        capabilities.len() > 0,
    ensures
        grants_check(grant_kind, grantor, capabilities, Seq::empty()) == Err::<(), ErrorView>(
            ErrorView::CapabilityGrantDenied { grant_kind, grantor, capability: capabilities[0] },
        ),
{
    let check = grant_checker(grant_kind, grantor, Seq::empty());
    assert(capabilities.take(0) =~= Seq::empty());
    assert(check(capabilities[0]) is Err);
    lemma_each_fails_at(capabilities, check, 0);
}

/// Once the grants that the routes of an extension need are added, its routes may
/// grant what they grant.
pub proof fn law_added_grants_suffice(allowed: GrantsView, extension: RegisteredView)
    ensures
        each_checked(
            extension.routes,
            route_grant_checker(extension.id, with_route_grants(allowed, extension)),
        ) is Ok,
{
    let after = with_route_grants(allowed, extension);
    let flat = route_capabilities(extension.routes);
    let required = text_set(flat);
    let check = route_grant_checker(extension.id, after);
    law_text_set(flat);
    let present = match lookup(allowed, extension.id) {
        Some(list) => list,
        None => Seq::empty(),
    };
    law_with_all_unique(present, required);
    if required.len() > 0 {
        law_lookup_after_insert(
            allowed,
            extension.id,
            with_all_unique(present, required),
            extension.id,
        );
    }
    lemma_each_passes(extension.routes, check);
    assert forall|i: int| 0 <= i < extension.routes.len() implies check(
        #[trigger] extension.routes[i],
    ) is Ok by {
        let capabilities = extension.routes[i].capabilities;
        let one = grant_checker("route extension"@, extension.id, after);
        lemma_each_passes(capabilities, one);
        assert forall|j: int| 0 <= j < capabilities.len() implies one(
            #[trigger] capabilities[j],
        ) is Ok by {
            assert(capabilities.contains(capabilities[j]));
            lemma_route_capabilities(extension.routes, i, capabilities[j]);
            assert(required.contains(capabilities[j]));
        }
    }
}

/// Adding grants takes none away.
pub proof fn law_added_grants_keep(
    allowed: GrantsView,
    extension: RegisteredView,
    grantor: Seq<char>,
    capability: Seq<char>,
)
    requires
        allows(allowed, grantor, capability),
    ensures
        allows(with_route_grants(allowed, extension), grantor, capability),
{
    let required = text_set(route_capabilities(extension.routes));
    let present = match lookup(allowed, extension.id) {
        Some(list) => list,
        None => Seq::empty(),
    };
    law_with_all_unique(present, required);
    law_lookup_after_insert(
        allowed,
        extension.id,
        with_all_unique(present, required),
        grantor,
    );
}

/// Whether a grantor may grant a capability.
pub fn is_allowed(allowed: &NameMap<CapabilityList>, grantor: &str, capability: &str) -> (answer:
    bool)
    ensures
        answer == allows(allowed@, grantor@, capability@),
{
    match allowed.get(grantor) {
        Some(list) => contains_text(list.names.as_slice(), capability) || contains_text(
            list.names.as_slice(),
            WILDCARD,
        ),
        None => false,
    }
}

/// Check that a grantor may grant capabilities.
pub fn ensure_grants(
    grant_kind: &'static str,
    grantor: &str,
    capabilities: &[String],
    allowed: &NameMap<CapabilityList>,
) -> (result: Result<(), SpindleError>)
    ensures
        checked(result) == grants_check(grant_kind@, grantor@, views(capabilities@), allowed@),
{
    let ghost all = views(capabilities@);
    let ghost check = grant_checker(grant_kind@, grantor@, allowed@);
    let mut i: usize = 0;
    assert(all.take(0) =~= Seq::empty());
    while i < capabilities.len()
        invariant
            i <= capabilities@.len(),
            all == views(capabilities@),
            check == grant_checker(grant_kind@, grantor@, allowed@),
            each_checked(all.take(i as int), check) is Ok,
        decreases capabilities@.len() - i,
    {
        assert(all[i as int] == capabilities@[i as int]@);
        if !is_allowed(allowed, grantor, capabilities[i].as_str()) {
            proof {
                lemma_each_fails_at(all, check, i as int);
            }
            return Err(
                SpindleError::CapabilityGrantDenied {
                    grant_kind,
                    grantor: grantor.to_owned(),
                    capability: capabilities[i].clone(),
                },
            );
        }
        proof {
            lemma_each_next(all, check, i as int);
        }
        i = i + 1;
    }
    assert(all.take(all.len() as int) =~= all);
    Ok(())
}

fn validate_listed(field: &'static str, capabilities: &[String]) -> (result: Result<
    (),
    SpindleError,
>)
    ensures
        checked(result) == listed_check(field@, views(capabilities@)),
{
    let ghost all = views(capabilities@);
    let mut seen: Vec<String> = Vec::new();
    let mut i: usize = 0;
    assert(all.take(0) =~= Seq::empty());
    assert(views(seen@) =~= all.take(0));
    while i < capabilities.len()
        invariant
            i <= capabilities@.len(),
            all == views(capabilities@),
            views(seen@) == all.take(i as int),
            listed_check(field@, all.take(i as int)) is Ok,
        decreases capabilities@.len() - i,
    {
        assert(all.take(i + 1).drop_last() =~= all.take(i as int));
        assert(all.take(i + 1).last() == capabilities@[i as int]@);
        match validate_token(field, capabilities[i].as_str()) {
            Ok(()) => {},
            Err(error) => {
                proof {
                    lemma_listed_fails(field@, all, i + 1);
                }
                return Err(error);
            },
        }
        if contains_text(seen.as_slice(), capabilities[i].as_str()) {
            proof {
                lemma_listed_fails(field@, all, i + 1);
            }
            return Err(invalid_field(field, "must not contain duplicate capabilities"));
        }
        seen.push(capabilities[i].clone());
        assert(views(seen@) =~= all.take(i + 1));
        i = i + 1;
    }
    assert(all.take(all.len() as int) =~= all);
    Ok(())
}

proof fn lemma_listed_fails(field: Seq<char>, capabilities: Seq<Seq<char>>, at: int)
    requires
        0 <= at <= capabilities.len(),
        listed_check(field, capabilities.take(at)) is Err,
    ensures
        listed_check(field, capabilities) == listed_check(field, capabilities.take(at)),
    decreases capabilities.len(),
{
    if at == capabilities.len() {
        assert(capabilities.take(at) =~= capabilities);
    } else {
        assert(capabilities.drop_last().take(at) =~= capabilities.take(at));
        lemma_listed_fails(field, capabilities.drop_last(), at);
    }
}

/// Check the entries of a policy.
pub fn validate_policy_map(field: &'static str, policy: &NameMap<CapabilityList>) -> (result:
    Result<(), SpindleError>)
    ensures
        checked(result) == policy_map_check(field@, policy@),
{
    let ghost all = policy@;
    let ghost check = entry_checker(field@);
    let mut i: usize = 0;
    assert(all.take(0) =~= Seq::empty());
    while i < policy.entries.len()
        invariant
            i <= policy.entries@.len(),
            all == policy@,
            check == entry_checker(field@),
            each_checked(all.take(i as int), check) is Ok,
        decreases policy.entries@.len() - i,
    {
        let outcome: Result<(), SpindleError> = match validate_token(
            field,
            policy.entries[i].0.as_str(),
        ) {
            Ok(()) => validate_listed(field, policy.entries[i].1.names.as_slice()),
            Err(error) => Err(error),
        };
        assert(check(all[i as int]) == checked(outcome));
        match outcome {
            Ok(()) => {},
            Err(error) => {
                proof {
                    lemma_each_fails_at(all, check, i as int);
                }
                return Err(error);
            },
        }
        proof {
            lemma_each_next(all, check, i as int);
        }
        i = i + 1;
    }
    assert(all.take(all.len() as int) =~= all);
    Ok(())
}

fn collect_route_capabilities(routes: &[ExtensionRoute]) -> (list: Vec<String>)
    ensures
        views(list@) == route_capabilities(views(routes@)),
{
    let ghost all = views(routes@);
    let mut list: Vec<String> = Vec::new();
    let mut i: usize = 0;
    assert(all.take(0) =~= Seq::empty());
    assert(views(list@) =~= route_capabilities(all.take(0)));
    while i < routes.len()
        invariant
            i <= routes@.len(),
            all == views(routes@),
            views(list@) == route_capabilities(all.take(i as int)),
        decreases routes@.len() - i,
    {
        let ghost before = list@;
        assert(all.take(i + 1).drop_last() =~= all.take(i as int));
        assert(all.take(i + 1).last() == routes@[i as int]@);
        let mut more: Vec<String> = routes[i].capabilities.clone();
        let ghost added = more@;
        assert(views(added) =~= all[i as int].capabilities);
        list.append(&mut more);
        assert(views(list@) =~= views(before) + views(added));
        i = i + 1;
    }
    assert(all.take(all.len() as int) =~= all);
    list
}

impl Default for CapabilityPolicy {
    fn default() -> (policy: Self)
        ensures
            policy.direct@ == Seq::<(Seq<char>, Seq<Seq<char>>)>::empty(),
            policy.routes@ == Seq::<(Seq<char>, Seq<Seq<char>>)>::empty(),
    {
        CapabilityPolicy { direct: NameMap::new(), routes: NameMap::new() }
    }
}

impl CapabilityPolicy {
    /// The policy of a state directory, from the one in its policy file: without
    /// a file the empty policy, which grants nothing.
    pub fn load(found: Option<Self>) -> (result: Result<Self, SpindleError>)
        ensures
            match found {
                None => result is Ok && result->Ok_0.direct@.len() == 0
                    && result->Ok_0.routes@.len() == 0,
                Some(policy) => {
                    let outcome = first_error(
                        policy_map_check("direct"@, policy.direct@),
                        policy_map_check("routes"@, policy.routes@),
                    );
                    match result {
                        Ok(loaded) => outcome is Ok && loaded == policy,
                        Err(error) => outcome == Err::<(), ErrorView>(error@),
                    }
                },
            },
    {
        match found {
            None => Ok(CapabilityPolicy::default()),
            Some(policy) => match policy.validate() {
                Ok(()) => Ok(policy),
                Err(error) => Err(error),
            },
        }
    }

    /// Ensure a direct client may grant the supplied capabilities.
    pub fn ensure_direct_grants(&self, source: &str, capabilities: &[String]) -> (result: Result<
        (),
        SpindleError,
    >)
        ensures
            checked(result) == grants_check(
                "direct client"@,
                source@,
                views(capabilities@),
                self.direct@,
            ),
    {
        ensure_grants("direct client", source, capabilities, &self.direct)
    }

    /// Ensure one route-owning extension may grant the supplied capabilities.
    pub fn ensure_route_capabilities(&self, extension_id: &str, capabilities: &[String]) -> (result:
        Result<(), SpindleError>)
        ensures
            checked(result) == grants_check(
                "route extension"@,
                extension_id@,
                views(capabilities@),
                self.routes@,
            ),
    {
        ensure_grants("route extension", extension_id, capabilities, &self.routes)
    }

    /// Ensure a route-owning extension may grant all route capabilities.
    pub fn ensure_route_grants(&self, extension: &RegisteredExtension) -> (result: Result<
        (),
        SpindleError,
    >)
        ensures
            checked(result) == each_checked(
                extension@.routes,
                route_grant_checker(extension@.id, self.routes@),
            ),
    {
        let ghost all = extension@.routes;
        let ghost check = route_grant_checker(extension@.id, self.routes@);
        let mut i: usize = 0;
        assert(all.take(0) =~= Seq::empty());
        while i < extension.routes.len()
            invariant
                i <= extension.routes@.len(),
                all == views(extension.routes@),
                check == route_grant_checker(extension@.id, self.routes@),
                each_checked(all.take(i as int), check) is Ok,
            decreases extension.routes@.len() - i,
        {
            let outcome: Result<(), SpindleError> = self.ensure_route_capabilities(
                extension.id.as_str(),
                extension.routes[i].capabilities.as_slice(),
            );
            assert(check(all[i as int]) == checked(outcome));
            match outcome {
                Ok(()) => {},
                Err(error) => {
                    proof {
                        lemma_each_fails_at(all, check, i as int);
                    }
                    return Err(error);
                },
            }
            proof {
                lemma_each_next(all, check, i as int);
            }
            i = i + 1;
        }
        assert(all.take(all.len() as int) =~= all);
        Ok(())
    }

    /// Add the route grants that an installed extension needs.
    pub fn add_route_grants(&mut self, extension: &RegisteredExtension)
        ensures
            final(self).direct == old(self).direct,
            final(self).routes@ == with_route_grants(old(self).routes@, extension@),
    {
        let flat: Vec<String> = collect_route_capabilities(extension.routes.as_slice());
        let mut required: Vec<String> = Vec::new();
        assert(views(required@) =~= Seq::<Seq<char>>::empty());
        insert_texts(&mut required, flat.as_slice());
        if required.len() == 0 {
            return;
        }
        let mut grants: CapabilityList = match self.routes.get(extension.id.as_str()) {
            Some(list) => list.clone(),
            None => {
                let list: CapabilityList = CapabilityList { names: Vec::new() };
                assert(list@ =~= Seq::<Seq<char>>::empty());
                list
            },
        };
        extend_unique(&mut grants.names, required.as_slice());
        self.routes.insert(extension.id.clone(), grants);
    }

    /// Add the route grants that an installed extension needs, and check the
    /// resulting policy.
    pub fn authorize_route_grants(&mut self, extension: &RegisteredExtension) -> (result: Result<
        (),
        SpindleError,
    >)
        ensures
            final(self).direct == old(self).direct,
            final(self).routes@ == with_route_grants(old(self).routes@, extension@),
            checked(result) == first_error(
                policy_map_check("direct"@, old(self).direct@),
                policy_map_check("routes"@, with_route_grants(old(self).routes@, extension@)),
            ),
    {
        self.add_route_grants(extension);
        self.validate()
    }

    /// Check the policy.
    pub fn validate(&self) -> (result: Result<(), SpindleError>)
        ensures
            checked(result) == first_error(
                policy_map_check("direct"@, self.direct@),
                policy_map_check("routes"@, self.routes@),
            ),
    {
        match validate_policy_map("direct", &self.direct) {
            Ok(()) => validate_policy_map("routes", &self.routes),
            Err(error) => Err(error),
        }
    }
}

/// Someone may grant a capability exactly where their entry lists it, or lists the
/// star.
pub proof fn law_who_may_grant(allowed: GrantsView, grantor: Seq<char>, capability: Seq<char>)
    ensures
        allows(allowed, grantor, capability) <==> lookup(allowed, grantor) is Some && (lookup(
            allowed,
            grantor,
        )->0.contains(capability) || lookup(allowed, grantor)->0.contains(seq!['*'])),
{
    reveal_strlit("*");
    assert(WILDCARD@ =~= seq!['*']);
}

/// Grants are accepted exactly where each of them may be granted; else the first that
/// may not is named, with who wanted to grant it.
pub proof fn law_each_grant_needs_leave(
    grant_kind: Seq<char>,
    grantor: Seq<char>,
    capabilities: Seq<Seq<char>>,
    allowed: GrantsView,
)
    ensures
        grants_check(grant_kind, grantor, capabilities, allowed) is Ok <==> forall|i: int|
            0 <= i < capabilities.len() ==> allows(allowed, grantor, #[trigger] capabilities[i]),
        grants_check(grant_kind, grantor, capabilities, allowed) matches Err(error) ==> exists|
            i: int,
        |
            {
                &&& 0 <= i < capabilities.len()
                &&& !allows(allowed, grantor, #[trigger] capabilities[i])
                &&& error == (ErrorView::CapabilityGrantDenied {
                    grant_kind,
                    grantor,
                    capability: capabilities[i],
                })
                &&& forall|j: int|
                    0 <= j < i ==> allows(allowed, grantor, #[trigger] capabilities[j])
            },
{
    let check = grant_checker(grant_kind, grantor, allowed);
    law_first_failing_item_decides(capabilities, check);
    assert forall|i: int| 0 <= i < capabilities.len() implies (check(#[trigger] capabilities[i])
        is Ok) == allows(allowed, grantor, capabilities[i]) by {}
    if let Err(error) = grants_check(grant_kind, grantor, capabilities, allowed) {
        let i = choose|i: int|
            {
                &&& 0 <= i < capabilities.len()
                &&& check(#[trigger] capabilities[i]) == Err::<(), ErrorView>(error)
                &&& forall|j: int| 0 <= j < i ==> check(#[trigger] capabilities[j]) is Ok
            };
        assert(!allows(allowed, grantor, capabilities[i]));
        assert forall|j: int| 0 <= j < i implies allows(
            allowed,
            grantor,
            #[trigger] capabilities[j],
        ) by {
            assert(check(capabilities[j]) is Ok);
        }
    }
}

/// Adding the grants that the routes of an extension need lists just those, for that
/// extension alone.
pub proof fn law_added_grants_are_those_of_the_routes(
    allowed: GrantsView,
    extension: RegisteredView,
    grantor: Seq<char>,
    capability: Seq<char>,
)
    ensures
        grantor != extension.id ==> lookup(with_route_grants(allowed, extension), grantor)
            == lookup(allowed, grantor),
        lookup(with_route_grants(allowed, extension), extension.id) matches Some(list) ==> (
        list.contains(capability) <==> {
            ||| lookup(allowed, extension.id) is Some && lookup(
                allowed,
                extension.id,
            )->0.contains(capability)
            ||| exists|i: int|
                0 <= i < extension.routes.len() && (
                #[trigger] extension.routes[i]).capabilities.contains(capability)
        }),
{
    let flat = route_capabilities(extension.routes);
    let required = text_set(flat);
    let present = match lookup(allowed, extension.id) {
        Some(list) => list,
        None => Seq::empty(),
    };
    law_text_set(flat);
    law_with_all_unique(present, required);
    lemma_routes_with_capability(extension.routes, capability);
    law_lookup_after_insert(allowed, extension.id, with_all_unique(present, required), grantor);
    law_lookup_after_insert(
        allowed,
        extension.id,
        with_all_unique(present, required),
        extension.id,
    );
    assert(with_all_unique(present, required).contains(capability) <==> present.contains(capability)
        || required.contains(capability));
    assert(required.contains(capability) <==> flat.contains(capability));
}

proof fn lemma_routes_with_capability(routes: Seq<RouteView>, capability: Seq<char>)
    ensures
        route_capabilities(routes).contains(capability) <==> exists|i: int|
            0 <= i < routes.len() && (#[trigger] routes[i]).capabilities.contains(capability),
    decreases routes.len(),
{
    if exists|i: int|
        0 <= i < routes.len() && (#[trigger] routes[i]).capabilities.contains(capability) {
        let i = choose|i: int|
            0 <= i < routes.len() && (#[trigger] routes[i]).capabilities.contains(capability);
        lemma_route_capabilities(routes, i, capability);
    }
    if routes.len() > 0 && route_capabilities(routes).contains(capability) {
        let front = routes.drop_last();
        let before = route_capabilities(front);
        let after = route_capabilities(routes);
        lemma_routes_with_capability(front, capability);
        let k = choose|k: int| 0 <= k < after.len() && after[k] == capability;
        if k < before.len() {
            assert(before[k] == capability);
            let i = choose|i: int|
                0 <= i < front.len() && (#[trigger] front[i]).capabilities.contains(capability);
            assert(routes[i] == front[i]);
        } else {
            assert(routes.last().capabilities[k - before.len()] == capability);
            assert(routes[routes.len() - 1].capabilities.contains(capability));
        }
    }
}

/// The capabilities of an entry are accepted exactly where they are text and differ
/// from one another.
pub proof fn law_listed_capabilities_differ(field: Seq<char>, capabilities: Seq<Seq<char>>)
    ensures
        listed_check(field, capabilities) is Ok <==> {
            &&& forall|i: int|
                0 <= i < capabilities.len() ==> text_check(field, #[trigger] capabilities[i]) is Ok
            &&& forall|i: int, j: int|
                0 <= i < j < capabilities.len() ==> #[trigger] capabilities[i]
                    != #[trigger] capabilities[j]
        },
    decreases capabilities.len(),
{
    if capabilities.len() > 0 {
        let front = capabilities.drop_last();
        let last = capabilities.last();
        law_listed_capabilities_differ(field, front);
        assert forall|i: int| 0 <= i < front.len() implies front[i] == #[trigger] capabilities[i] by {}
        if listed_check(field, capabilities) is Ok {
            assert forall|i: int, j: int| 0 <= i < j < capabilities.len() implies
                #[trigger] capabilities[i] != #[trigger] capabilities[j] by {
                assert(front[i] == capabilities[i]);
                if j < front.len() {
                    assert(front[j] == capabilities[j]);
                } else {
                    assert(!front.contains(capabilities[j]));
                }
            }
            assert forall|i: int| 0 <= i < capabilities.len() implies text_check(
                field,
                #[trigger] capabilities[i],
            ) is Ok by {
                if i < front.len() {
                    assert(text_check(field, front[i]) is Ok);
                }
            }
        }
        if (forall|i: int|
            0 <= i < capabilities.len() ==> text_check(field, #[trigger] capabilities[i]) is Ok)
            && (forall|i: int, j: int|
            0 <= i < j < capabilities.len() ==> #[trigger] capabilities[i]
                != #[trigger] capabilities[j]) {
            assert forall|i: int, j: int| 0 <= i < j < front.len() implies #[trigger] front[i]
                != #[trigger] front[j] by {
                assert(capabilities[i] != capabilities[j]);
            }
            assert forall|i: int| 0 <= i < front.len() implies text_check(
                field,
                #[trigger] front[i],
            ) is Ok by {
                assert(text_check(field, capabilities[i]) is Ok);
            }
            assert(text_check(field, capabilities[capabilities.len() - 1]) is Ok);
            if front.contains(last) {
                let k = choose|k: int| 0 <= k < front.len() && front[k] == last;
                assert(capabilities[k] != capabilities[capabilities.len() - 1]);
            }
        }
    }
}

/// A policy is accepted exactly where each of its entries is: for someone with a name
/// that is text, and with accepted capabilities.
pub proof fn law_each_entry_is_checked(field: Seq<char>, policy: GrantsView)
    ensures
        policy_map_check(field, policy) is Ok <==> forall|i: int|
            0 <= i < policy.len() ==> text_check(field, (#[trigger] policy[i]).0) is Ok
                && listed_check(field, policy[i].1) is Ok,
{
    let check = entry_checker(field);
    lemma_each_passes(policy, check);
    assert forall|i: int| 0 <= i < policy.len() implies (check(#[trigger] policy[i]) is Ok) == (
    text_check(field, policy[i].0) is Ok && listed_check(field, policy[i].1) is Ok) by {}
}

} // verus!
