//! The event log: where it is, who may read it, and which events a query gets.
use std::collections::VecDeque;
use vstd::prelude::*;

use crate::error::{checked, invalid_field, Checked, ErrorView, SpindleError};
use crate::event::{Event, EventFilter, EventView};
use crate::paths::{join_path, joined};
use crate::registry::{owning_dir, state_dir_of, ExtensionRegistry};
use crate::text::views;

verus! {

/// Append-only JSONL event log.
#[derive(Debug, PartialEq, Eq)]
pub struct EventLog {
    /// The file that holds the log.
    pub path: String,
}

impl Clone for EventLog {
    fn clone(&self) -> (copy: Self)
        ensures
            copy == *self,
    {
        EventLog { path: self.path.clone() }
    }
}

impl EventLog {
    /// Create a log located under a spindle state directory.
    pub fn in_dir(state_dir: &str) -> (log: Self)
        ensures
            log.path@ == joined(state_dir@, "events.jsonl"@),
    {
        EventLog { path: join_path(state_dir, "events.jsonl") }
    }

    /// Return the backing JSONL path.
    pub fn path(&self) -> (path: &str)
        ensures
            path@ == self.path@,
    {
        self.path.as_str()
    }

    /// Return the state directory that owns this log.
    pub fn state_dir(&self) -> (directory: String)
        ensures
            directory@ == owning_dir(self.path@),
    {
        state_dir_of(self.path.as_str())
    }
}

/// Return the state directory of a log.
pub fn state_dir_for_log(log: &EventLog) -> (directory: String)
    ensures
        directory@ == owning_dir(log.path@),
{
    log.state_dir()
}

/// Return the registry that lies beside a log.
pub fn registry_for_log(log: &EventLog) -> (registry: ExtensionRegistry)
    ensures
        registry.path@ == joined(owning_dir(log.path@), "extensions.json"@),
{
    ExtensionRegistry::in_dir(log.state_dir().as_str())
}

/// The state directory of a log is the one that it was located under.
pub proof fn law_log_state_dir(state_dir: Seq<char>)
    ensures
        owning_dir(joined(state_dir, "events.jsonl"@)) == crate::paths::trimmed(state_dir),
{
    reveal_strlit("events.jsonl");
    let name = "events.jsonl"@;
    assert(name[0] == 'e');
    assert(crate::paths::is_name(name)) by {
        assert(name != seq!['.']);
        assert(name != seq!['.', '.']);
    }
    crate::paths::law_parent_of_joined(state_dir, name);
}

/// The rule for a directory that holds private state: a directory, with no
/// permission for group or others.
pub open spec fn private_dir_check(
    field: Seq<char>,
    reason: Seq<char>,
    is_dir: bool,
    mode: u32,
) -> Checked {
    if !is_dir {
        Err(ErrorView::InvalidField { field, reason: "parent path must be a directory"@ })
    } else if (mode & 0o777) & 0o077 != 0 {
        Err(ErrorView::InvalidField { field, reason })
    } else {
        Ok(())
    }
}

/// Check a directory that holds private state.
pub fn ensure_private_existing_dir(
    is_dir: bool,
    mode: u32,
    field: &'static str,
    reason: &'static str,
) -> (result: Result<(), SpindleError>)
    ensures
        checked(result) == private_dir_check(field@, reason@, is_dir, mode),
{
    if !is_dir {
        return Err(invalid_field(field, "parent path must be a directory"));
    }
    let permissions: u32 = mode & 0o777;
    if permissions & 0o077 != 0 {
        return Err(invalid_field(field, reason));
    }
    Ok(())
}

/// A directory made for the owner alone is private.
pub proof fn law_owner_only_is_private(field: Seq<char>, reason: Seq<char>)
    ensures
        private_dir_check(field, reason, true, 0o700) is Ok,
{
    assert((0o700u32 & 0o777) & 0o077 == 0) by (bit_vector);
}

/// What there is to do about the directory above a state file.
#[derive(Debug, PartialEq, Eq)]
pub enum ParentStep {
    /// There is no directory above it.
    Nothing,
    /// Make the directory, for the owner alone, and then check it.
    Create {
        /// The directory.
        directory: String,
    },
    /// Check the directory that is there.
    Inspect {
        /// The directory.
        directory: String,
    },
}

/// Decide what to do about the directory above a state file.
pub fn ensure_private_parent(path: &str, parent_exists: bool) -> (step: ParentStep)
    ensures
        match crate::paths::parent_of(path@) {
            None => step is Nothing,
            Some(parent) => if parent_exists {
                step is Inspect && step->Inspect_directory@ == parent
            } else {
                step is Create && step->Create_directory@ == parent
            },
        },
{
    match crate::paths::parent_path(path) {
        None => ParentStep::Nothing,
        Some(directory) => if parent_exists {
            ParentStep::Inspect { directory }
        } else {
            ParentStep::Create { directory }
        },
    }
}

/// Check the directory above a state file that is there.
pub fn ensure_private_state_parent(is_dir: bool, mode: u32) -> (result: Result<(), SpindleError>)
    ensures
        checked(result) == private_dir_check(
            "state_dir"@,
            "state directory must be private"@,
            is_dir,
            mode,
        ),
{
    ensure_private_existing_dir(is_dir, mode, "state_dir", "state directory must be private")
}

/// The last items of a sequence, as many as a limit allows.
pub open spec fn tail<T>(items: Seq<T>, limit: Option<nat>) -> Seq<T> {
    match limit {
        Some(count) => if items.len() <= count {
            items
        } else {
            items.skip(items.len() - count)
        },
        None => items,
    }
}

/// The events that a filter selects, in order.
pub open spec fn matching(events: Seq<EventView>, filter: EventFilter) -> Seq<EventView>
    decreases events.len(),
{
    if events.len() == 0 {
        Seq::empty()
    } else if filter.selects(events.last()) {
        matching(events.drop_last(), filter).push(events.last())
    } else {
        matching(events.drop_last(), filter)
    }
}

/// The limit of a filter.
pub open spec fn limit_of(limit: Option<usize>) -> Option<nat> {
    match limit {
        Some(count) => Some(count as nat),
        None => None,
    }
}

/// The answer to a query: the last matching events.
pub open spec fn query_answer(events: Seq<EventView>, filter: EventFilter) -> Seq<EventView> {
    tail(matching(events, filter), limit_of(filter.limit))
}

/// Holding on to the last items one by one gives the last items of all.
pub proof fn lemma_tail_push<T>(items: Seq<T>, item: T, limit: Option<nat>)
    ensures
        tail(tail(items, limit).push(item), limit) == tail(items.push(item), limit),
{
    match limit {
        Some(count) => {
            assert(tail(tail(items, limit).push(item), limit) =~= tail(
                items.push(item),
                limit,
            ));
        },
        None => {},
    }
}

/// A query gets only events that match, no more than its limit, and a query
/// without a limit gets each that does.
pub proof fn law_query_answer(events: Seq<EventView>, filter: EventFilter)
    ensures
        forall|i: int|
            0 <= i < query_answer(events, filter).len() ==> filter.selects(
                #[trigger] query_answer(events, filter)[i],
            ),
        filter.limit is Some ==> query_answer(events, filter).len() <= filter.limit->0,
        filter.limit is None ==> forall|i: int|
            0 <= i < events.len() && filter.selects(#[trigger] events[i]) ==> query_answer(
                events,
                filter,
            ).contains(events[i]),
    decreases events.len(),
{
    lemma_matching_selects(events, filter);
}

proof fn lemma_matching_selects(events: Seq<EventView>, filter: EventFilter)
    ensures
        forall|i: int|
            0 <= i < matching(events, filter).len() ==> filter.selects(
                #[trigger] matching(events, filter)[i],
            ),
        forall|i: int|
            0 <= i < events.len() && filter.selects(#[trigger] events[i]) ==> matching(
                events,
                filter,
            ).contains(events[i]),
    decreases events.len(),
{
    if events.len() > 0 {
        let front = events.drop_last();
        let before = matching(front, filter);
        let after = matching(events, filter);
        lemma_matching_selects(front, filter);
        assert forall|i: int| 0 <= i < after.len() implies filter.selects(#[trigger] after[i]) by {
            if i < before.len() {
                assert(after[i] == before[i]);
            }
        }
        assert forall|i: int|
            0 <= i < events.len() && filter.selects(#[trigger] events[i]) implies after.contains(
            events[i],
        ) by {
            if i < front.len() {
                assert(front[i] == events[i]);
                let k = choose|k: int| 0 <= k < before.len() && before[k] == events[i];
                assert(after[k] == events[i]);
            } else {
                assert(after[after.len() - 1] == events[i]);
            }
        }
    }
}

/// Holds on to all events, or to the last ones.
#[derive(Debug)]
pub enum TailEvents {
    /// All events.
    All(Vec<Event>),
    /// The last events, as many as the limit allows.
    Limited {
        /// The limit.
        limit: usize,
        /// The events.
        events: VecDeque<Event>,
    },
}

impl TailEvents {
    /// The events that are held.
    pub open spec fn held(self) -> Seq<EventView> {
        match self {
            TailEvents::All(events) => views(events@),
            TailEvents::Limited { events, .. } => views(events@),
        }
    }

    /// The limit.
    pub open spec fn limit(self) -> Option<nat> {
        match self {
            TailEvents::All(_) => None,
            TailEvents::Limited { limit, .. } => Some(limit as nat),
        }
    }

    /// No more events are held than the limit allows.
    pub open spec fn wf(self) -> bool {
        match self.limit() {
            Some(count) => self.held().len() <= count,
            None => true,
        }
    }

    /// Hold on to no events yet.
    pub fn new(limit: Option<usize>) -> (tail: Self)
        ensures
            tail.wf(),
            tail.held() == Seq::<EventView>::empty(),
            tail.limit() == limit_of(limit),
    {
        let tail: Self = match limit {
            None => TailEvents::All(Vec::new()),
            Some(limit) => TailEvents::Limited { limit, events: VecDeque::new() },
        };
        assert(tail.held() =~= Seq::<EventView>::empty());
        tail
    }

    /// Take one more event, and let the oldest one go where the limit is reached.
    pub fn push(&mut self, event: Event)
        requires
            old(self).wf(),
        ensures
            final(self).wf(),
            final(self).limit() == old(self).limit(),
            final(self).held() == crate::store::tail(
                old(self).held().push(event@),
                old(self).limit(),
            ),
    {
        let ghost before = self.held();
        let ghost expected = crate::store::tail(before.push(event@), self.limit());
        match self {
            TailEvents::All(events) => {
                events.push(event);
                assert(views(events@) =~= before.push(event@));
            },
            TailEvents::Limited { limit, events } => {
                if *limit == 0 {
                    assert(before =~= expected);
                    return;
                }
                if events.len() == *limit {
                    let _ = events.pop_front();
                    assert(views(events@) =~= before.skip(1));
                }
                events.push_back(event);
                assert(views(events@) =~= expected);
            },
        }
    }

    /// Take one more event of a log if a filter asks for it.
    pub fn offer(&mut self, filter: &EventFilter, event: Event)
        requires
            old(self).wf(),
        ensures
            final(self).wf(),
            final(self).limit() == old(self).limit(),
            final(self).held() == if filter.selects(event@) {
                crate::store::tail(old(self).held().push(event@), old(self).limit())
            } else {
                old(self).held()
            },
    {
        if filter.matches(&event) {
            self.push(event);
        }
    }

    /// Hand out the events.
    pub fn into_vec(self) -> (list: Vec<Event>)
        ensures
            views(list@) == self.held(),
    {
        match self {
            TailEvents::All(events) => events,
            TailEvents::Limited { events, .. } => {
                let mut list: Vec<Event> = Vec::new();
                let mut i: usize = 0;
                while i < events.len()
                    invariant
                        i <= events@.len(),
                        views(list@) =~= views(events@).take(i as int),
                    decreases events@.len() - i,
                {
                    let ghost before = views(list@);
                    list.push(events[i].clone());
                    assert(views(list@) =~= before.push(views(events@)[i as int]));
                    i = i + 1;
                }
                assert(views(list@) =~= views(events@));
                list
            },
        }
    }
}

/// The events of a log that a query gets.
pub fn select_events(events: &[Event], filter: &EventFilter) -> (list: Vec<Event>)
    ensures
        views(list@) == query_answer(views(events@), *filter),
{
    let ghost all = views(events@);
    let mut kept: TailEvents = TailEvents::new(filter.limit);
    let mut i: usize = 0;
    assert(all.take(0) =~= Seq::empty());
    assert(kept.held() =~= query_answer(all.take(0), *filter));
    while i < events.len()
        invariant
            i <= events@.len(),
            all == views(events@),
            kept.wf(),
            kept.limit() == limit_of(filter.limit),
            kept.held() == query_answer(all.take(i as int), *filter),
        decreases events@.len() - i,
    {
        assert(all.take(i + 1).drop_last() =~= all.take(i as int));
        assert(all.take(i + 1).last() == events@[i as int]@);
        proof {
            lemma_tail_push(
                matching(all.take(i as int), *filter),
                all[i as int],
                limit_of(filter.limit),
            );
        }
        kept.offer(filter, events[i].clone());
        i = i + 1;
    }
    assert(all.take(all.len() as int) =~= all);
    kept.into_vec()
}

/// Whether places in a log are those of the last events that a filter asks for: in
/// order, each matching, and with no matching event left out, but for older ones
/// where there are as many as the limit allows.
pub open spec fn are_last_matches(
    events: Seq<EventView>,
    filter: EventFilter,
    places: Seq<int>,
) -> bool {
    &&& forall|i: int| 0 <= i < places.len() ==> 0 <= #[trigger] places[i] < events.len()
    &&& forall|i: int, j: int|
        0 <= i < j < places.len() ==> #[trigger] places[i] < #[trigger] places[j]
    &&& forall|i: int| 0 <= i < places.len() ==> filter.selects(events[#[trigger] places[i]])
    &&& forall|k: int|
        0 <= k < events.len() && filter.selects(#[trigger] events[k]) ==> {
            ||| places.contains(k)
            ||| filter.limit == Some(0usize)
            ||| filter.limit is Some && places.len() == filter.limit->0 && places.len() > 0 && k
                < places[0]
        }
    &&& filter.limit is Some ==> places.len() <= filter.limit->0
}

/// A query gets the last events that match, in the order of the log, as many as its
/// limit allows.
pub proof fn law_query_gets_the_last_matches(events: Seq<EventView>, filter: EventFilter)
    ensures
        exists|places: Seq<int>|
            {
                &&& #[trigger] are_last_matches(events, filter, places)
                &&& query_answer(events, filter).len() == places.len()
                &&& forall|i: int|
                    0 <= i < places.len() ==> #[trigger] query_answer(events, filter)[i]
                        == events[places[i]]
            },
{
    let all = match_places(events, filter);
    lemma_match_places(events, filter);
    let places = tail(all, limit_of(filter.limit));
    let skipped = all.len() - places.len();
    assert forall|i: int| 0 <= i < places.len() implies #[trigger] places[i] == all[i
        + skipped] by {}
    assert forall|k: int| 0 <= k < events.len() && filter.selects(#[trigger] events[k]) implies {
        ||| places.contains(k)
        ||| filter.limit == Some(0usize)
        ||| filter.limit is Some && places.len() == filter.limit->0 && places.len() > 0 && k
            < places[0]
    } by {
        assert(all.contains(k));
        let j = choose|j: int| 0 <= j < all.len() && all[j] == k;
        if j >= skipped {
            assert(places[j - skipped] == k);
        } else if places.len() > 0 {
            assert(all[j] < all[skipped]);
            assert(places[0] == all[skipped]);
        }
    }
    assert(are_last_matches(events, filter, places));
    assert forall|i: int| 0 <= i < places.len() implies #[trigger] query_answer(events, filter)[i]
        == events[places[i]] by {
        assert(matching(events, filter)[i + skipped] == events[all[i + skipped]]);
    }
}

spec fn match_places(events: Seq<EventView>, filter: EventFilter) -> Seq<int>
    decreases events.len(),
{
    if events.len() == 0 {
        Seq::empty()
    } else {
        let before = match_places(events.drop_last(), filter);
        if filter.selects(events.last()) {
            before.push(events.len() - 1)
        } else {
            before
        }
    }
}

proof fn lemma_match_places(events: Seq<EventView>, filter: EventFilter)
    ensures
        match_places(events, filter).len() == matching(events, filter).len(),
        forall|i: int|
            0 <= i < match_places(events, filter).len() ==> {
                &&& 0 <= #[trigger] match_places(events, filter)[i] < events.len()
                &&& filter.selects(events[match_places(events, filter)[i]])
                &&& matching(events, filter)[i] == events[match_places(events, filter)[i]]
            },
        forall|i: int, j: int|
            0 <= i < j < match_places(events, filter).len() ==> #[trigger] match_places(
                events,
                filter,
            )[i] < #[trigger] match_places(events, filter)[j],
        forall|k: int|
            0 <= k < events.len() && filter.selects(#[trigger] events[k]) ==> match_places(
                events,
                filter,
            ).contains(k),
    decreases events.len(),
{
    if events.len() > 0 {
        let front = events.drop_last();
        let before = match_places(front, filter);
        let after = match_places(events, filter);
        lemma_match_places(front, filter);
        assert forall|i: int| 0 <= i < after.len() implies {
            &&& 0 <= #[trigger] after[i] < events.len()
            &&& filter.selects(events[after[i]])
            &&& matching(events, filter)[i] == events[after[i]]
        } by {
            if i < before.len() {
                assert(after[i] == before[i]);
                assert(front[before[i]] == events[before[i]]);
            }
        }
        assert forall|k: int|
            0 <= k < events.len() && filter.selects(#[trigger] events[k]) implies after.contains(
            k,
        ) by {
            if k < front.len() {
                assert(front[k] == events[k]);
                let j = choose|j: int| 0 <= j < before.len() && before[j] == k;
                assert(after[j] == k);
            } else {
                assert(after[after.len() - 1] == k);
            }
        }
    }
}

/// A directory is private exactly where neither its group nor others may do anything
/// with it.
pub proof fn law_private_is_for_the_owner_alone(
    field: Seq<char>,
    reason: Seq<char>,
    is_dir: bool,
    mode: u32,
)
    ensures
        private_dir_check(field, reason, is_dir, mode) is Ok <==> is_dir && mode & 0o070 == 0
            && mode & 0o007 == 0,
        private_dir_check(field, reason, is_dir, mode) matches Err(error) ==> error is InvalidField
            && error->field == field && (is_dir ==> error->reason == reason),
{
    assert((mode & 0o777) & 0o077 == 0 <==> mode & 0o070 == 0 && mode & 0o007 == 0)
        by (bit_vector);
}

} // verus!
