//! Capability-scoped continuation handles for deferred extension work.
use vstd::prelude::*;

use crate::context::{ContinuationContext, ContinuationView};
use crate::error::{invalid_field, ErrorView, SpindleError};
use crate::identity::{is_uuid_text, law_uuid_is_name, new_id};
use crate::name_map::{
    ascending, inserted, law_ascending_unique, law_insert_keeps_order, law_lookup_after_insert,
    law_lookup_after_remove, lookup, names, removed, NameMap,
};
use crate::text::{less_text, owned_texts, views};
use crate::validate::{name_check, validate_name};

verus! {

/// How long a handle lives unless something else is asked for.
pub const DEFAULT_CONTINUATION_TTL_MS: u64 = 30_000;

/// Capability grant preserved for deferred extension work.
#[derive(Debug, PartialEq, Eq)]
pub struct ContinuationGrant {
    /// Opaque continuation identifier.
    pub id: String,
    /// Extension that received the continuation.
    pub extension: String,
    /// Capabilities granted by the original route or direct invocation.
    pub capabilities: Vec<String>,
    /// Original action that received the continuation.
    pub action: String,
    /// Expiry time as milliseconds since Unix epoch.
    pub expires_unix_ms: u64,
}

/// Registry of the continuation handles that are out.
#[derive(Debug, PartialEq, Eq)]
pub struct ContinuationStore {
    /// The grants by their identifiers.
    pub grants: NameMap<ContinuationGrant>,
}

/// Request data used to create a continuation grant.
#[derive(Debug, PartialEq, Eq)]
pub struct ContinuationGrantRequest {
    /// Extension that receives the continuation.
    pub extension: String,
    /// Action that receives the continuation.
    pub action: String,
    /// Capabilities that come with it.
    pub capabilities: Vec<String>,
    /// Socket that accepts continuation-backed requests.
    pub socket: String,
    /// Lifetime in milliseconds.
    pub ttl_ms: u64,
}

/// What a dispatch needs to hand out continuation handles.
#[derive(Debug, PartialEq, Eq)]
pub struct ContinuationConfig {
    /// The handles that are out.
    pub store: ContinuationStore,
    /// Socket that accepts continuation-backed requests.
    pub socket: String,
}

/// A grant with its texts as characters.
pub struct GrantView {
    /// Identifier.
    pub id: Seq<char>,
    /// Receiving extension.
    pub extension: Seq<char>,
    /// Granted capabilities.
    pub capabilities: Seq<Seq<char>>,
    /// Receiving action.
    pub action: Seq<char>,
    /// Expiry time.
    pub expires_unix_ms: u64,
}

/// A request for a grant with its texts as characters.
pub struct GrantRequestView {
    /// Receiving extension.
    pub extension: Seq<char>,
    /// Receiving action.
    pub action: Seq<char>,
    /// Granted capabilities.
    pub capabilities: Seq<Seq<char>>,
    /// Socket path.
    pub socket: Seq<char>,
    /// Lifetime in milliseconds.
    pub ttl_ms: u64,
}

/// Grants by their identifiers.
pub type StoreView = Seq<(Seq<char>, GrantView)>;

impl View for ContinuationGrant {
    type V = GrantView;

    open spec fn view(&self) -> GrantView {
        GrantView {
            id: self.id@,
            extension: self.extension@,
            capabilities: views(self.capabilities@),
            action: self.action@,
            expires_unix_ms: self.expires_unix_ms,
        }
    }
}

impl View for ContinuationGrantRequest {
    type V = GrantRequestView;

    open spec fn view(&self) -> GrantRequestView {
        GrantRequestView {
            extension: self.extension@,
            action: self.action@,
            capabilities: views(self.capabilities@),
            socket: self.socket@,
            ttl_ms: self.ttl_ms,
        }
    }
}

impl View for ContinuationStore {
    type V = StoreView;

    open spec fn view(&self) -> StoreView {
        self.grants@
    }
}

/// The grants that have not expired yet.
pub open spec fn live(grants: StoreView, now: u64) -> StoreView
    decreases grants.len(),
{
    if grants.len() == 0 {
        Seq::empty()
    } else {
        let before = live(grants.drop_last(), now);
        if grants.last().1.expires_unix_ms > now {
            before.push(grants.last())
        } else {
            before
        }
    }
}

/// The grant that a request asks for.
pub open spec fn requested_grant(
    id: Seq<char>,
    request: GrantRequestView,
    now: u64,
) -> GrantView {
    GrantView {
        id,
        extension: request.extension,
        capabilities: request.capabilities,
        action: request.action,
        expires_unix_ms: (now + request.ttl_ms) as u64,
    }
}

/// The handle that a request is answered with, or why there is none.
pub open spec fn created(
    id: Seq<char>,
    request: GrantRequestView,
    now: u64,
) -> Result<ContinuationView, ErrorView> {
    if now + request.ttl_ms <= u64::MAX {
        Ok(
            ContinuationView {
                id,
                socket: request.socket,
                expires_unix_ms: (now + request.ttl_ms) as u64,
            },
        )
    } else {
        Err(
            ErrorView::InvalidField {
                field: "time_unix_ms"@,
                reason: "system clock exceeds u64 millisecond range"@,
            },
        )
    }
}

/// The grants after a request for one.
pub open spec fn store_after_create(
    grants: StoreView,
    id: Seq<char>,
    request: GrantRequestView,
    now: u64,
) -> StoreView {
    if now + request.ttl_ms <= u64::MAX {
        inserted(grants, id, requested_grant(id, request, now))
    } else {
        grants
    }
}

/// The view of a handle or an error.
pub open spec fn context_outcome(result: Result<ContinuationContext, SpindleError>) -> Result<
    ContinuationView,
    ErrorView,
> {
    match result {
        Ok(context) => Ok(context@),
        Err(error) => Err(error@),
    }
}

/// The grant that a handle stands for, or why it stands for none.
pub open spec fn validated(grants: StoreView, id: Seq<char>, now: u64) -> Result<
    GrantView,
    ErrorView,
> {
    match name_check("continuation"@, id) {
        Err(error) => Err(error),
        Ok(_) => match lookup(grants, id) {
            None => Err(ErrorView::ContinuationInvalid),
            Some(grant) => if grant.expires_unix_ms <= now {
                Err(ErrorView::ContinuationExpired)
            } else {
                Ok(grant)
            },
        },
    }
}

/// The grants after a handle was used: without it and without expired ones. A
/// malformed handle changes nothing.
pub open spec fn store_after_validate(grants: StoreView, id: Seq<char>, now: u64) -> StoreView {
    match name_check("continuation"@, id) {
        Err(_) => grants,
        Ok(_) => live(removed(grants, id), now),
    }
}

/// The view of a grant or an error.
pub open spec fn grant_outcome(result: Result<ContinuationGrant, SpindleError>) -> Result<
    GrantView,
    ErrorView,
> {
    match result {
        Ok(grant) => Ok(grant@),
        Err(error) => Err(error@),
    }
}

proof fn lemma_live(grants: StoreView, now: u64)
    ensures
        live(grants, now).len() <= grants.len(),
        forall|i: int|
            0 <= i < live(grants, now).len() ==> grants.contains(#[trigger] live(grants, now)[i])
                && live(grants, now)[i].1.expires_unix_ms > now,
        forall|i: int|
            0 <= i < grants.len() && (#[trigger] grants[i]).1.expires_unix_ms > now ==> live(
                grants,
                now,
            ).contains(grants[i]),
    decreases grants.len(),
{
    if grants.len() > 0 {
        let front = grants.drop_last();
        let before = live(front, now);
        let after = live(grants, now);
        lemma_live(front, now);
        assert forall|i: int| 0 <= i < after.len() implies grants.contains(#[trigger] after[i])
            && after[i].1.expires_unix_ms > now by {
            if i < before.len() {
                assert(front.contains(before[i]));
                let k = choose|k: int| 0 <= k < front.len() && front[k] == before[i];
                assert(grants[k] == after[i]);
            } else {
                assert(grants[grants.len() - 1] == after[i]);
            }
        }
        assert forall|i: int|
            0 <= i < grants.len() && (#[trigger] grants[i]).1.expires_unix_ms
                > now implies after.contains(grants[i]) by {
            if i < front.len() {
                assert(front[i] == grants[i]);
                assert(before.contains(front[i]));
                let k = choose|k: int| 0 <= k < before.len() && before[k] == front[i];
                assert(after[k] == grants[i]);
            } else {
                assert(after[after.len() - 1] == grants[i]);
            }
        }
    }
}

proof fn lemma_live_ascending(grants: StoreView, now: u64)
    requires
        ascending(names(grants)),
    ensures
        ascending(names(live(grants, now))),
    decreases grants.len(),
{
    if grants.len() > 0 {
        let front = grants.drop_last();
        let before = live(front, now);
        let after = live(grants, now);
        assert forall|i: int, j: int| 0 <= i < j < names(front).len() implies less_text(
            #[trigger] names(front)[i],
            #[trigger] names(front)[j],
        ) by {
            assert(names(front)[i] == names(grants)[i]);
            assert(names(front)[j] == names(grants)[j]);
        }
        lemma_live_ascending(front, now);
        lemma_live(front, now);
        assert forall|i: int, j: int| 0 <= i < j < names(after).len() implies less_text(
            #[trigger] names(after)[i],
            #[trigger] names(after)[j],
        ) by {
            assert(names(after)[i] == names(before)[i]);
            if j < before.len() {
                assert(names(after)[j] == names(before)[j]);
            } else {
                assert(front.contains(before[i]));
                let k = choose|k: int| 0 <= k < front.len() && front[k] == before[i];
                assert(names(grants)[k] == names(after)[i]);
                assert(names(grants)[grants.len() - 1] == names(after)[j]);
            }
        }
    }
}

proof fn lemma_lookup_of_entry(grants: StoreView, entry: (Seq<char>, GrantView))
    requires
        ascending(names(grants)),
        grants.contains(entry),
    ensures
        lookup(grants, entry.0) == Some(entry.1),
{
    let k = choose|k: int| 0 <= k < grants.len() && grants[k] == entry;
    law_ascending_unique(grants, k);
}

proof fn lemma_lookup_live(grants: StoreView, now: u64, id: Seq<char>)
    requires
        ascending(names(grants)),
    ensures
        lookup(live(grants, now), id) == match lookup(grants, id) {
            Some(grant) => if grant.expires_unix_ms > now {
                Some(grant)
            } else {
                None
            },
            None => None,
        },
{
    let kept = live(grants, now);
    lemma_live(grants, now);
    lemma_live_ascending(grants, now);
    crate::name_map::lemma_lookup(grants, id);
    crate::name_map::lemma_lookup(kept, id);
    crate::name_map::lemma_first_with_means(grants, id);
    crate::name_map::lemma_first_with_means(kept, id);
    let at = crate::name_map::first_with(grants, id);
    let spot = crate::name_map::first_with(kept, id);
    if spot < kept.len() {
        assert(grants.contains(kept[spot]));
        lemma_lookup_of_entry(grants, kept[spot]);
    }
    if at < grants.len() && grants[at].1.expires_unix_ms > now {
        assert(kept.contains(grants[at]));
        lemma_lookup_of_entry(kept, grants[at]);
    }
}

/// The grants stay in the order of their identifiers, whatever is asked.
pub proof fn law_store_order(
    grants: StoreView,
    id: Seq<char>,
    request: GrantRequestView,
    now: u64,
)
    requires
        ascending(names(grants)),
    ensures
        ascending(names(store_after_create(grants, id, request, now))),
        ascending(names(store_after_validate(grants, id, now))),
{
    law_insert_keeps_order(grants, id, requested_grant(id, request, now));
    law_lookup_after_remove(grants, id, id);
    lemma_live_ascending(removed(grants, id), now);
}

/// A handle that was handed out stands for what was asked for, until it expires;
/// then it stands for nothing.
pub proof fn law_created_handle_validates(
    grants: StoreView,
    id: Seq<char>,
    request: GrantRequestView,
    now: u64,
    later: u64,
)
    requires
        is_uuid_text(id),
        created(id, request, now) is Ok,
    ensures
        validated(store_after_create(grants, id, request, now), id, later) == if later < now
            + request.ttl_ms {
            Ok(requested_grant(id, request, now))
        } else {
            Err(ErrorView::ContinuationExpired)
        },
{
    law_uuid_is_name("continuation"@, id);
    law_lookup_after_insert(grants, id, requested_grant(id, request, now), id);
}

/// A handle can be used once: whatever the first use was answered, a second one is
/// refused.
pub proof fn law_handle_is_single_use(
    grants: StoreView,
    id: Seq<char>,
    now: u64,
    later: u64,
)
    requires
        ascending(names(grants)),
        name_check("continuation"@, id) is Ok,
    ensures
        validated(store_after_validate(grants, id, now), id, later) == Err::<
            GrantView,
            ErrorView,
        >(ErrorView::ContinuationInvalid),
{
    law_lookup_after_remove(grants, id, id);
    lemma_lookup_live(removed(grants, id), now, id);
}

/// Using one handle, good or bad, takes no other one away that has not expired.
pub proof fn law_other_handles_stay(
    grants: StoreView,
    id: Seq<char>,
    other: Seq<char>,
    now: u64,
    later: u64,
)
    requires
        ascending(names(grants)),
        other != id,
        now <= later,
        validated(grants, other, later) is Ok,
    ensures
        validated(store_after_validate(grants, id, now), other, later) == validated(
            grants,
            other,
            later,
        ),
{
    law_lookup_after_remove(grants, id, other);
    lemma_lookup_live(removed(grants, id), now, other);
}

/// Handing out one handle changes nothing of what any other one stands for.
pub proof fn law_create_keeps_others(
    grants: StoreView,
    id: Seq<char>,
    other: Seq<char>,
    request: GrantRequestView,
    now: u64,
    later: u64,
)
    requires
        other != id,
    ensures
        validated(store_after_create(grants, id, request, now), other, later) == validated(
            grants,
            other,
            later,
        ),
{
    law_lookup_after_insert(grants, id, requested_grant(id, request, now), other);
}

impl Default for ContinuationStore {
    fn default() -> (store: Self)
        ensures
            store@ == Seq::<(Seq<char>, GrantView)>::empty(),
            store.well_formed(),
    {
        ContinuationStore { grants: NameMap::new() }
    }
}

impl ContinuationStore {
    /// The grants are in the order of their identifiers, and none occurs twice.
    pub open spec fn well_formed(self) -> bool {
        ascending(names(self@))
    }

    /// Create and store a continuation grant with the usual lifetime.
    pub fn create(
        &mut self,
        extension: &str,
        action: &str,
        capabilities: &[String],
        socket: &str,
        now: u64,
    ) -> (result: Result<ContinuationContext, SpindleError>)
        ensures
            old(self).well_formed() ==> final(self).well_formed(),
            ({
                let request = GrantRequestView {
                    extension: extension@,
                    action: action@,
                    capabilities: views(capabilities@),
                    socket: socket@,
                    ttl_ms: DEFAULT_CONTINUATION_TTL_MS,
                };
                exists|id: Seq<char>|
                    is_uuid_text(id) && context_outcome(result) == #[trigger] created(
                        id,
                        request,
                        now,
                    ) && final(self)@ == store_after_create(old(self)@, id, request, now)
            }),
    {
        let request: ContinuationGrantRequest = ContinuationGrantRequest {
            extension: extension.to_owned(),
            action: action.to_owned(),
            capabilities: owned_texts(capabilities),
            socket: socket.to_owned(),
            ttl_ms: DEFAULT_CONTINUATION_TTL_MS,
        };
        self.create_with_lifetime(&request, now)
    }

    /// Create and store a continuation grant with an explicit lifetime.
    pub fn create_with_lifetime(&mut self, request: &ContinuationGrantRequest, now: u64) -> (result:
        Result<ContinuationContext, SpindleError>)
        ensures
            old(self).well_formed() ==> final(self).well_formed(),
            exists|id: Seq<char>|
                is_uuid_text(id) && context_outcome(result) == #[trigger] created(
                    id,
                    request@,
                    now,
                ) && final(self)@ == store_after_create(old(self)@, id, request@, now),
    {
        let id: String = new_id();
        let ghost fresh = id@;
        let result: Result<ContinuationContext, SpindleError> = self.create_at(id, request, now);
        assert(is_uuid_text(fresh) && context_outcome(result) == created(fresh, request@, now));
        result
    }

    /// Create and store a continuation grant under a given identifier.
    pub fn create_at(&mut self, id: String, request: &ContinuationGrantRequest, now: u64) -> (result:
        Result<ContinuationContext, SpindleError>)
        ensures
            old(self).well_formed() ==> final(self).well_formed(),
            context_outcome(result) == created(id@, request@, now),
            final(self)@ == store_after_create(old(self)@, id@, request@, now),
    {
        if request.ttl_ms > u64::MAX - now {
            return Err(invalid_field("time_unix_ms", "system clock exceeds u64 millisecond range"));
        }
        let expires_unix_ms: u64 = now + request.ttl_ms;
        let capabilities: Vec<String> = owned_texts(request.capabilities.as_slice());
        let grant: ContinuationGrant = ContinuationGrant {
            id: id.clone(),
            extension: request.extension.clone(),
            capabilities,
            action: request.action.clone(),
            expires_unix_ms,
        };
        let context: ContinuationContext = ContinuationContext::new(
            id.as_str(),
            request.socket.as_str(),
            expires_unix_ms,
        );
        self.grants.insert(id, grant);
        Ok(context)
    }

    /// Take the grant that a handle stands for out of the store. Expired grants
    /// go too.
    pub fn validate(&mut self, id: &str, now: u64) -> (result: Result<
        ContinuationGrant,
        SpindleError,
    >)
        ensures
            old(self).well_formed() ==> final(self).well_formed(),
            grant_outcome(result) == validated(old(self)@, id@, now),
            final(self)@ == store_after_validate(old(self)@, id@, now),
    {
        match validate_name("continuation", id) {
            Ok(()) => {},
            Err(error) => {
                return Err(error);
            },
        }
        let removed_grant: Option<ContinuationGrant> = self.grants.remove(id);
        self.drop_expired(now);
        match removed_grant {
            None => Err(SpindleError::ContinuationInvalid),
            Some(grant) => if grant.expires_unix_ms <= now {
                Err(SpindleError::ContinuationExpired)
            } else {
                Ok(grant)
            },
        }
    }

    fn drop_expired(&mut self, now: u64)
        ensures
            old(self).well_formed() ==> final(self).well_formed(),
            final(self)@ == live(old(self)@, now),
    {
        let ghost all = self@;
        let ghost mut seen: int = 0;
        let mut i: usize = 0;
        assert(all.take(0) =~= Seq::empty());
        assert(self@ =~= live(all.take(0), now) + all.skip(0));
        while i < self.grants.entries.len()
            invariant
                0 <= seen <= all.len(),
                i == live(all.take(seen), now).len(),
                self@ == live(all.take(seen), now) + all.skip(seen),
            decreases self.grants.entries@.len() - i,
        {
            let ghost before = self@;
            assert(seen < all.len());
            assert(all.take(seen + 1).drop_last() =~= all.take(seen));
            assert(all.take(seen + 1).last() == all[seen]);
            assert(before[i as int] == all[seen]);
            assert(before[i as int].1 == self.grants.entries@[i as int].1@);
            if self.grants.entries[i].1.expires_unix_ms > now {
                i = i + 1;
                assert(self@ =~= live(all.take(seen + 1), now) + all.skip(seen + 1));
            } else {
                let _ = self.grants.entries.remove(i);
                assert(self@ =~= before.remove(i as int));
                assert(self@ =~= live(all.take(seen + 1), now) + all.skip(seen + 1));
            }
            proof {
                seen = seen + 1;
            }
        }
        assert(self@ =~= live(all.take(seen), now));
        assert(all.take(seen) =~= all);
        proof {
            if ascending(names(all)) {
                lemma_live_ascending(all, now);
            }
        }
    }
}

/// A handle tells its identifier, the socket to use it at, and when it expires: the
/// lifetime that was asked for from now on. There is one unless that time cannot be
/// told.
pub proof fn law_handle_tells_its_use(
    id: Seq<char>,
    request: GrantRequestView,
    now: u64,
    result: Result<ContinuationContext, SpindleError>,
)
    requires
        context_outcome(result) == created(id, request, now),
    ensures
        result is Ok <==> now + request.ttl_ms <= u64::MAX,
        result matches Ok(handle) ==> {
            &&& handle.id@ == id
            &&& handle.socket@ == request.socket
            &&& handle.expires_unix_ms == now + request.ttl_ms
        },
{
}

/// What a handle stands for is what it was asked for: the extension, the action and
/// the capabilities of the request, under the identifier of the handle and up to the
/// same time.
pub proof fn law_grant_is_what_was_asked(
    grants: StoreView,
    id: Seq<char>,
    request: GrantRequestView,
    now: u64,
    later: u64,
    grant: ContinuationGrant,
)
    requires
        grant_outcome(Ok(grant)) == validated(
            store_after_create(grants, id, request, now),
            id,
            later,
        ),
        now + request.ttl_ms <= u64::MAX,
    ensures
        grant.id@ == id,
        grant.extension@ == request.extension,
        grant.action@ == request.action,
        grant.capabilities@.len() == request.capabilities.len(),
        forall|i: int|
            0 <= i < request.capabilities.len() ==> (#[trigger] grant.capabilities@[i])@
                == request.capabilities[i],
        grant.expires_unix_ms == now + request.ttl_ms,
        later < grant.expires_unix_ms,
{
    law_lookup_after_insert(grants, id, requested_grant(id, request, now), id);
    assert forall|i: int| 0 <= i < request.capabilities.len() implies (
    #[trigger] grant.capabilities@[i])@ == request.capabilities[i] by {
        assert(grant@.capabilities[i] == grant.capabilities@[i]@);
    }
}

/// A handle is good exactly where it is a name, a grant is kept under it, and that
/// grant has not expired; then it stands for that grant. A handle under which nothing
/// is kept is invalid, and one kept for too long is expired.
pub proof fn law_handle_is_good_until_it_expires(grants: StoreView, id: Seq<char>, now: u64)
    ensures
        validated(grants, id, now) is Ok <==> name_check("continuation"@, id) is Ok && lookup(
            grants,
            id,
        ) is Some && now < lookup(grants, id)->0.expires_unix_ms,
        validated(grants, id, now) matches Ok(grant) ==> lookup(grants, id) == Some(grant),
        name_check("continuation"@, id) is Ok && lookup(grants, id) is None ==> validated(
            grants,
            id,
            now,
        ) == Err::<GrantView, ErrorView>(ErrorView::ContinuationInvalid),
        name_check("continuation"@, id) is Ok && lookup(grants, id) is Some && now >= lookup(
            grants,
            id,
        )->0.expires_unix_ms ==> validated(grants, id, now) == Err::<GrantView, ErrorView>(
            ErrorView::ContinuationExpired,
        ),
{
}

/// Using a handle leaves the other grants that have not expired, each as it was, and
/// nothing else. A malformed handle changes nothing.
pub proof fn law_use_leaves_live_grants(
    grants: StoreView,
    id: Seq<char>,
    other: Seq<char>,
    now: u64,
)
    requires
        ascending(names(grants)),
    ensures
        name_check("continuation"@, id) is Ok ==> (lookup(
            store_after_validate(grants, id, now),
            other,
        ) is Some <==> other != id && lookup(grants, other) is Some && now < lookup(
            grants,
            other,
        )->0.expires_unix_ms),
        lookup(store_after_validate(grants, id, now), other) matches Some(grant) ==> lookup(
            grants,
            other,
        ) == Some(grant),
        name_check("continuation"@, id) is Err ==> store_after_validate(grants, id, now) == grants,
{
    law_lookup_after_remove(grants, id, other);
    lemma_lookup_live(removed(grants, id), now, other);
}

/// A grant and a request for one show all that they hold.
pub proof fn law_grant_shows_all(grant: ContinuationGrant, request: ContinuationGrantRequest)
    ensures
        grant@.id == grant.id@,
        grant@.extension == grant.extension@,
        grant@.action == grant.action@,
        grant@.capabilities == views(grant.capabilities@),
        grant@.expires_unix_ms == grant.expires_unix_ms,
        request@.extension == request.extension@,
        request@.action == request.action@,
        request@.capabilities == views(request.capabilities@),
        request@.socket == request.socket@,
        request@.ttl_ms == request.ttl_ms,
{
}

} // verus!
