//! The registry of installed extensions.
use vstd::prelude::*;

use crate::error::{checked, Checked, ErrorView, SpindleError};
use crate::manifest::{ExtensionManifest, ExtensionRuntime, ManifestView};
use crate::name_map::ascending;
use crate::stage::StagedPackage;
use crate::paths::{
    join_path, joined, law_file_name_has_no_slash, law_renamed_file_stays_in_its_directory,
    parent_of, parent_path, path_with_name, with_name,
};
use crate::registered::{
    registered_from, RegisteredExtension, RegisteredRuntimeTrust, RegisteredView, TrustView,
};
use crate::surface::{
    ensure_surface_ownership, exclusive, law_ownership_exclusive, lemma_exclusive_symmetric,
    ownership_check,
};
use crate::text::{
    lemma_less_text_irreflexive, lemma_less_text_total, lemma_less_text_transitive, less_text,
    optional_view, text_less, views,
};

verus! {

/// State-backed extension registry.
#[derive(Debug, PartialEq, Eq)]
pub struct ExtensionRegistry {
    /// The file that holds the registry.
    pub path: String,
}

impl Clone for ExtensionRegistry {
    fn clone(&self) -> (copy: Self)
        ensures
            copy == *self,
    {
        ExtensionRegistry { path: self.path.clone() }
    }
}

/// The directory that owns a state file.
pub open spec fn owning_dir(path: Seq<char>) -> Seq<char> {
    match parent_of(path) {
        Some(parent) => parent,
        None => "."@,
    }
}

/// The directory that owns a state file.
pub fn state_dir_of(path: &str) -> (directory: String)
    ensures
        directory@ == owning_dir(path@),
{
    match parent_path(path) {
        Some(parent) => parent,
        None => ".".to_owned(),
    }
}

impl ExtensionRegistry {
    /// Create a registry located under a spindle state directory.
    pub fn in_dir(state_dir: &str) -> (registry: Self)
        ensures
            registry.path@ == joined(state_dir@, "extensions.json"@),
    {
        ExtensionRegistry { path: join_path(state_dir, "extensions.json") }
    }

    /// Return the registry path.
    pub fn path(&self) -> (path: &str)
        ensures
            path@ == self.path@,
    {
        self.path.as_str()
    }

    /// Return the state directory that owns this registry.
    pub fn state_dir(&self) -> (directory: String)
        ensures
            directory@ == owning_dir(self.path@),
    {
        state_dir_of(self.path.as_str())
    }
}

/// The state directory of a registry is the one that it was located under.
pub proof fn law_registry_state_dir(state_dir: Seq<char>)
    ensures
        owning_dir(joined(state_dir, "extensions.json"@)) == crate::paths::trimmed(state_dir),
{
    reveal_strlit("extensions.json");
    let name = "extensions.json"@;
    assert(name[0] == 'e');
    assert(crate::paths::is_name(name)) by {
        assert(name != seq!['.']);
        assert(name != seq!['.', '.']);
    }
    crate::paths::law_parent_of_joined(state_dir, name);
}

/// The rule for an installation that does not run the extension: there is some
/// surface in the manifest, or nothing to run.
pub open spec fn static_surface_check(manifest: ManifestView) -> Checked {
    if manifest.runtime == ExtensionRuntime::Recipe || manifest.emits.len() > 0
        || manifest.produces.len() > 0 || manifest.capabilities.len() > 0 || manifest.actions.len()
        > 0 || manifest.routes.len() > 0 {
        Ok(())
    } else {
        Err(ErrorView::RuntimeTrustRequired { extension: manifest.id })
    }
}

/// Check that a manifest can be installed without running the extension.
pub fn ensure_static_surface(manifest: &ExtensionManifest) -> (result: Result<(), SpindleError>)
    ensures
        checked(result) == static_surface_check(manifest@),
{
    if manifest.runtime == ExtensionRuntime::Recipe || manifest.emits.len() > 0
        || manifest.produces.len() > 0 || manifest.capabilities.len() > 0
        || !manifest.actions.is_empty() || manifest.routes.len() > 0 {
        return Ok(());
    }
    Err(SpindleError::RuntimeTrustRequired { extension: manifest.id.clone() })
}

/// The identifiers of extensions.
pub open spec fn ids(entries: Seq<RegisteredView>) -> Seq<Seq<char>> {
    Seq::new(entries.len(), |i: int| entries[i].id)
}

/// The entries with another identifier.
pub open spec fn without_id(entries: Seq<RegisteredView>, id: Seq<char>) -> Seq<RegisteredView>
    decreases entries.len(),
{
    if entries.len() == 0 {
        Seq::empty()
    } else if entries.last().id == id {
        without_id(entries.drop_last(), id)
    } else {
        without_id(entries.drop_last(), id).push(entries.last())
    }
}

/// How many entries at the front do not come after an identifier.
pub open spec fn id_place(entries: Seq<RegisteredView>, id: Seq<char>) -> int
    decreases entries.len(),
{
    if entries.len() == 0 || less_text(id, entries[0].id) {
        0
    } else {
        1 + id_place(entries.drop_first(), id)
    }
}

/// The entries in the order of their identifiers; equal ones keep their order.
pub open spec fn by_id(entries: Seq<RegisteredView>) -> Seq<RegisteredView>
    decreases entries.len(),
{
    if entries.len() == 0 {
        Seq::empty()
    } else {
        let before = by_id(entries.drop_last());
        before.insert(id_place(before, entries.last().id), entries.last())
    }
}

/// The registry after an extension is recorded: it replaces the one with its
/// identifier, if it owns nothing that another one owns.
pub open spec fn recorded(
    entries: Seq<RegisteredView>,
    registered: RegisteredView,
) -> Result<Seq<RegisteredView>, ErrorView> {
    let others = without_id(entries, registered.id);
    match ownership_check(registered, others) {
        Ok(_) => Ok(by_id(others.push(registered))),
        Err(error) => Err(error),
    }
}

/// What installing a staged manifest gives: the record and the new registry.
pub open spec fn staged_outcome(
    entries: Seq<RegisteredView>,
    manifest: ManifestView,
    package_root: Seq<char>,
    trust: Option<TrustView>,
) -> Result<(RegisteredView, Seq<RegisteredView>), ErrorView> {
    let registered = registered_from(manifest, package_root, trust);
    match static_surface_check(manifest) {
        Err(error) => Err(error),
        Ok(_) => match recorded(entries, registered) {
            Err(error) => Err(error),
            Ok(after) => Ok((registered, after)),
        },
    }
}

/// A registry in order: identifiers ascend, so no identifier occurs twice, and no
/// two extensions own anything in common.
pub open spec fn registry_valid(entries: Seq<RegisteredView>) -> bool {
    &&& ascending(ids(entries))
    &&& forall|i: int, j: int|
        0 <= i < j < entries.len() ==> exclusive(#[trigger] entries[i], #[trigger] entries[j])
}

proof fn lemma_id_place(entries: Seq<RegisteredView>, id: Seq<char>)
    ensures
        0 <= id_place(entries, id) <= entries.len(),
        forall|j: int|
            0 <= j < id_place(entries, id) ==> !less_text(id, (#[trigger] entries[j]).id),
        id_place(entries, id) < entries.len() ==> less_text(
            id,
            entries[id_place(entries, id)].id,
        ),
    decreases entries.len(),
{
    if entries.len() > 0 && !less_text(id, entries[0].id) {
        let rest = entries.drop_first();
        lemma_id_place(rest, id);
        assert forall|j: int| 0 <= j < id_place(entries, id) implies !less_text(
            id,
            (#[trigger] entries[j]).id,
        ) by {
            if j > 0 {
                assert(rest[j - 1] == entries[j]);
            }
        }
    }
}

proof fn lemma_id_place_is(entries: Seq<RegisteredView>, id: Seq<char>, at: int)
    requires
        0 <= at <= entries.len(),
        forall|j: int| 0 <= j < at ==> !less_text(id, (#[trigger] entries[j]).id),
        at < entries.len() ==> less_text(id, entries[at].id),
    ensures
        id_place(entries, id) == at,
    decreases at,
{
    if at > 0 {
        assert(!less_text(id, entries[0].id));
        let rest = entries.drop_first();
        assert forall|j: int| 0 <= j < at - 1 implies !less_text(id, (#[trigger] rest[j]).id) by {
            assert(rest[j] == entries[j + 1]);
        }
        lemma_id_place_is(rest, id, at - 1);
    }
}

proof fn lemma_without_id(entries: Seq<RegisteredView>, id: Seq<char>)
    ensures
        forall|entry: RegisteredView|
            #![trigger without_id(entries, id).contains(entry)]
            #![trigger entries.contains(entry)]
            without_id(entries, id).contains(entry) <==> entries.contains(entry) && entry.id != id,
        registry_valid(entries) ==> registry_valid(without_id(entries, id)),
    decreases entries.len(),
{
    let after = without_id(entries, id);
    if entries.len() > 0 {
        let front = entries.drop_last();
        let last = entries.last();
        let before = without_id(front, id);
        lemma_without_id(front, id);
        assert forall|entry: RegisteredView|
            #![trigger after.contains(entry)]
            #![trigger entries.contains(entry)]
            after.contains(entry) <==> entries.contains(entry) && entry.id != id by {
            if front.contains(entry) {
                let k = choose|k: int| 0 <= k < front.len() && front[k] == entry;
                assert(entries[k] == entry);
            }
            if entry == last {
                assert(entries[entries.len() - 1] == entry);
            }
            if entries.contains(entry) && entry != last {
                let k = choose|k: int| 0 <= k < entries.len() && entries[k] == entry;
                assert(front[k] == entry);
            }
            if last.id != id {
                if before.contains(entry) {
                    let k = choose|k: int| 0 <= k < before.len() && before[k] == entry;
                    assert(after[k] == entry);
                }
                if entry == last {
                    assert(after[after.len() - 1] == entry);
                }
            }
        }
        if registry_valid(entries) {
            assert(registry_valid(front)) by {
                assert forall|i: int, j: int| 0 <= i < j < ids(front).len() implies less_text(
                    #[trigger] ids(front)[i],
                    #[trigger] ids(front)[j],
                ) by {
                    assert(ids(front)[i] == ids(entries)[i]);
                    assert(ids(front)[j] == ids(entries)[j]);
                }
                assert forall|i: int, j: int| 0 <= i < j < front.len() implies exclusive(
                    #[trigger] front[i],
                    #[trigger] front[j],
                ) by {
                    assert(front[i] == entries[i]);
                    assert(front[j] == entries[j]);
                }
            }
            if last.id != id {
                assert forall|i: int, j: int| 0 <= i < j < ids(after).len() implies less_text(
                    #[trigger] ids(after)[i],
                    #[trigger] ids(after)[j],
                ) by {
                    assert(ids(after)[i] == ids(before)[i]);
                    if j < before.len() {
                        assert(ids(after)[j] == ids(before)[j]);
                    } else {
                        assert(before.contains(before[i]));
                        let k = choose|k: int| 0 <= k < front.len() && front[k] == before[i];
                        assert(ids(entries)[k] == before[i].id);
                        assert(ids(entries)[entries.len() - 1] == last.id);
                    }
                }
                assert forall|i: int, j: int| 0 <= i < j < after.len() implies exclusive(
                    #[trigger] after[i],
                    #[trigger] after[j],
                ) by {
                    assert(after[i] == before[i]);
                    if j < before.len() {
                        assert(after[j] == before[j]);
                    } else {
                        assert(before.contains(before[i]));
                        let k = choose|k: int| 0 <= k < front.len() && front[k] == before[i];
                        assert(entries[k] == before[i]);
                        assert(entries[entries.len() - 1] == last);
                    }
                }
            }
        }
    }
}

/// Whether no identifier comes before one that precedes it.
pub open spec fn id_ordered(entries: Seq<RegisteredView>) -> bool {
    forall|i: int, j: int|
        0 <= i < j < entries.len() ==> !less_text(
            (#[trigger] entries[j]).id,
            (#[trigger] entries[i]).id,
        )
}

/// Ordering the entries puts their identifiers in order, keeps the entries, and
/// keeps distinct identifiers distinct.
pub proof fn law_by_id(entries: Seq<RegisteredView>)
    ensures
        by_id(entries).len() == entries.len(),
        forall|entry: RegisteredView|
            #![trigger by_id(entries).contains(entry)]
            #![trigger entries.contains(entry)]
            by_id(entries).contains(entry) <==> entries.contains(entry),
        id_ordered(by_id(entries)),
        ids(entries).no_duplicates() ==> ids(by_id(entries)).no_duplicates(),
    decreases entries.len(),
{
    let after = by_id(entries);
    if entries.len() > 0 {
        let front = entries.drop_last();
        let last = entries.last();
        let before = by_id(front);
        law_by_id(front);
        let spot = id_place(before, last.id);
        lemma_id_place(before, last.id);
        assert forall|entry: RegisteredView|
            #![trigger after.contains(entry)]
            #![trigger entries.contains(entry)]
            after.contains(entry) <==> entries.contains(entry) by {
            if after.contains(entry) {
                let k = choose|k: int| 0 <= k < after.len() && after[k] == entry;
                if k == spot {
                    assert(entries[entries.len() - 1] == entry);
                } else {
                    let m = if k < spot {
                        k
                    } else {
                        k - 1
                    };
                    assert(before[m] == entry);
                    assert(before.contains(entry));
                    let n = choose|n: int| 0 <= n < front.len() && front[n] == entry;
                    assert(entries[n] == entry);
                }
            }
            if entries.contains(entry) {
                let n = choose|n: int| 0 <= n < entries.len() && entries[n] == entry;
                if n == entries.len() - 1 {
                    assert(after[spot] == entry);
                } else {
                    assert(front[n] == entry);
                    assert(before.contains(entry));
                    let m = choose|m: int| 0 <= m < before.len() && before[m] == entry;
                    if m < spot {
                        assert(after[m] == entry);
                    } else {
                        assert(after[m + 1] == entry);
                    }
                }
            }
        }
        assert forall|i: int, j: int| 0 <= i < j < after.len() implies !less_text(
            (#[trigger] after[j]).id,
            (#[trigger] after[i]).id,
        ) by {
            if j == spot {
                assert(after[i] == before[i]);
            } else if i == spot {
                assert(after[j] == before[j - 1]);
                assert(less_text(last.id, before[spot].id));
                if less_text(before[j - 1].id, last.id) {
                    lemma_less_text_transitive(before[j - 1].id, last.id, before[spot].id);
                    if j - 1 > spot {
                        assert(!less_text(before[j - 1].id, before[spot].id));
                    } else {
                        lemma_less_text_irreflexive(before[spot].id);
                    }
                }
            } else {
                let a = if i < spot {
                    i
                } else {
                    i - 1
                };
                let b = if j < spot {
                    j
                } else {
                    j - 1
                };
                assert(after[i] == before[a]);
                assert(after[j] == before[b]);
            }
        }
        if ids(entries).no_duplicates() {
            assert(ids(front).no_duplicates()) by {
                assert forall|i: int, j: int|
                    0 <= i < ids(front).len() && 0 <= j < ids(front).len() && i != j implies ids(
                    front,
                )[i] != ids(front)[j] by {
                    assert(ids(front)[i] == ids(entries)[i]);
                    assert(ids(front)[j] == ids(entries)[j]);
                }
            }
            assert forall|m: int| 0 <= m < before.len() implies (#[trigger] before[m]).id
                != last.id by {
                assert(before.contains(before[m]));
                let n = choose|n: int| 0 <= n < front.len() && front[n] == before[m];
                assert(ids(entries)[n] == before[m].id);
                assert(ids(entries)[entries.len() - 1] == last.id);
            }
            assert forall|i: int, j: int|
                0 <= i < ids(after).len() && 0 <= j < ids(after).len() && i != j implies ids(
                after,
            )[i] != ids(after)[j] by {
                let a = if i < spot {
                    i
                } else {
                    i - 1
                };
                let b = if j < spot {
                    j
                } else {
                    j - 1
                };
                if i != spot && j != spot {
                    assert(ids(after)[i] == ids(before)[a]);
                    assert(ids(after)[j] == ids(before)[b]);
                } else if i == spot {
                    assert(ids(after)[j] == before[b].id);
                } else {
                    assert(ids(after)[i] == before[a].id);
                }
            }
        }
    }
}

/// Recording an extension keeps a registry in order, and the registry then holds
/// the extension and the others, and nothing else under the extension's
/// identifier.
pub proof fn law_recorded_valid(
    entries: Seq<RegisteredView>,
    registered: RegisteredView,
    after: Seq<RegisteredView>,
)
    requires
        registry_valid(entries),
        recorded(entries, registered) == Ok::<Seq<RegisteredView>, ErrorView>(after),
    ensures
        registry_valid(after),
        forall|entry: RegisteredView|
            #![trigger after.contains(entry)]
            #![trigger entries.contains(entry)]
            after.contains(entry) <==> entry == registered || (entries.contains(entry) && entry.id
                != registered.id),
{
    let others = without_id(entries, registered.id);
    let all = others.push(registered);
    lemma_without_id(entries, registered.id);
    law_ownership_exclusive(registered, others);
    law_by_id(all);
    crate::text_set::lemma_ascending_distinct(ids(others));
    assert forall|m: int| 0 <= m < others.len() implies (#[trigger] others[m]).id
        != registered.id by {
        assert(others.contains(others[m]));
    }
    assert(ids(all).no_duplicates()) by {
        assert forall|i: int, j: int|
            0 <= i < ids(all).len() && 0 <= j < ids(all).len() && i != j implies ids(all)[i]
            != ids(all)[j] by {
            if i < others.len() {
                assert(ids(all)[i] == ids(others)[i]);
                assert(ids(others)[i] == others[i].id);
            }
            if j < others.len() {
                assert(ids(all)[j] == ids(others)[j]);
                assert(ids(others)[j] == others[j].id);
            }
        }
    }
    assert forall|i: int, j: int| 0 <= i < j < ids(after).len() implies less_text(
        #[trigger] ids(after)[i],
        #[trigger] ids(after)[j],
    ) by {
        assert(ids(after)[i] != ids(after)[j]);
        lemma_less_text_total(after[i].id, after[j].id);
        assert(!less_text(after[j].id, after[i].id));
    }
    assert forall|entry: RegisteredView|
        #![trigger after.contains(entry)]
        #![trigger entries.contains(entry)]
        after.contains(entry) <==> entry == registered || (entries.contains(entry) && entry.id
            != registered.id) by {
        if all.contains(entry) && entry != registered {
            let k = choose|k: int| 0 <= k < all.len() && all[k] == entry;
            assert(others[k] == entry);
        }
        if others.contains(entry) {
            let k = choose|k: int| 0 <= k < others.len() && others[k] == entry;
            assert(all[k] == entry);
        }
        assert(all[others.len() as int] == registered);
    }
    assert forall|i: int, j: int| 0 <= i < j < after.len() implies exclusive(
        #[trigger] after[i],
        #[trigger] after[j],
    ) by {
        assert(ids(after)[i] != ids(after)[j]);
        assert(after.contains(after[i]));
        assert(after.contains(after[j]));
        let a = choose|a: int| 0 <= a < all.len() && all[a] == after[i];
        let b = choose|b: int| 0 <= b < all.len() && all[b] == after[j];
        assert(a != b);
        if a < others.len() && b < others.len() {
            if a < b {
                assert(exclusive(others[a], others[b]));
            } else {
                assert(exclusive(others[b], others[a]));
                lemma_exclusive_symmetric(others[b], others[a]);
            }
        } else if a < others.len() {
            assert(exclusive(registered, others[a]));
            lemma_exclusive_symmetric(registered, others[a]);
        } else {
            assert(exclusive(registered, others[b]));
        }
    }
}

/// An extension is recorded exactly when it owns nothing in common with the
/// extensions that have another identifier; a version of the same extension is
/// no obstacle.
pub proof fn law_recorded_iff_exclusive(entries: Seq<RegisteredView>, registered: RegisteredView)
    ensures
        recorded(entries, registered) is Ok <==> forall|entry: RegisteredView| #[trigger]
            entries.contains(entry) && entry.id != registered.id ==> exclusive(registered, entry),
{
    let others = without_id(entries, registered.id);
    lemma_without_id(entries, registered.id);
    law_ownership_exclusive(registered, others);
    if recorded(entries, registered) is Ok {
        assert forall|entry: RegisteredView| #[trigger]
            entries.contains(entry) && entry.id != registered.id implies exclusive(
            registered,
            entry,
        ) by {
            assert(others.contains(entry));
            let k = choose|k: int| 0 <= k < others.len() && others[k] == entry;
            assert(exclusive(registered, others[k]));
        }
    }
    if forall|entry: RegisteredView| #[trigger]
        entries.contains(entry) && entry.id != registered.id ==> exclusive(registered, entry) {
        assert forall|i: int| 0 <= i < others.len() implies exclusive(
            registered,
            #[trigger] others[i],
        ) by {
            assert(others.contains(others[i]));
        }
    }
}

fn other_entries(entries: Vec<RegisteredExtension>, id: &String) -> (others: Vec<
    RegisteredExtension,
>)
    ensures
        views(others@) == without_id(views(entries@), id@),
{
    let ghost all = views(entries@);
    let mut others: Vec<RegisteredExtension> = Vec::new();
    let mut i: usize = 0;
    assert(all.take(0) =~= Seq::empty());
    assert(views(others@) =~= without_id(all.take(0), id@));
    while i < entries.len()
        invariant
            i <= entries@.len(),
            all == views(entries@),
            views(others@) == without_id(all.take(i as int), id@),
        decreases entries@.len() - i,
    {
        let ghost before = views(others@);
        assert(all.take(i + 1).drop_last() =~= all.take(i as int));
        assert(all.take(i + 1).last() == entries@[i as int]@);
        if entries[i].id != *id {
            others.push(entries[i].clone());
            assert(views(others@) =~= before.push(all[i as int]));
        }
        i = i + 1;
    }
    assert(all.take(all.len() as int) =~= all);
    others
}

/// Put the entries in the order of their identifiers.
pub fn sort_by_id(entries: Vec<RegisteredExtension>) -> (sorted: Vec<RegisteredExtension>)
    ensures
        views(sorted@) == by_id(views(entries@)),
{
    let ghost all = views(entries@);
    let mut sorted: Vec<RegisteredExtension> = Vec::new();
    let mut i: usize = 0;
    assert(all.take(0) =~= Seq::empty());
    assert(views(sorted@) =~= by_id(all.take(0)));
    while i < entries.len()
        invariant
            i <= entries@.len(),
            all == views(entries@),
            views(sorted@) == by_id(all.take(i as int)),
        decreases entries@.len() - i,
    {
        let ghost before = views(sorted@);
        assert(all.take(i + 1).drop_last() =~= all.take(i as int));
        assert(all.take(i + 1).last() == entries@[i as int]@);
        let mut spot: usize = 0;
        while spot < sorted.len() && !text_less(
            entries[i].id.as_str(),
            sorted[spot].id.as_str(),
        )
            invariant
                i < entries@.len(),
                spot <= sorted@.len(),
                views(sorted@) == before,
                forall|j: int|
                    0 <= j < spot ==> !less_text(
                        entries@[i as int].id@,
                        (#[trigger] before[j]).id,
                    ),
            decreases sorted@.len() - spot,
        {
            assert(before[spot as int].id == sorted@[spot as int].id@);
            spot = spot + 1;
        }
        proof {
            if spot < before.len() {
                assert(before[spot as int].id == sorted@[spot as int].id@);
            }
            lemma_id_place_is(before, entries@[i as int].id@, spot as int);
        }
        sorted.insert(spot, entries[i].clone());
        assert(views(sorted@) =~= before.insert(spot as int, all[i as int]));
        i = i + 1;
    }
    assert(all.take(all.len() as int) =~= all);
    sorted
}

/// Record an extension in the registry.
pub fn record_extension(entries: Vec<RegisteredExtension>, registered: RegisteredExtension) -> (
    result: Result<Vec<RegisteredExtension>, SpindleError>)
    ensures
        match result {
            Ok(after) => recorded(views(entries@), registered@) == Ok::<
                Seq<RegisteredView>,
                ErrorView,
            >(views(after@)),
            Err(error) => recorded(views(entries@), registered@) == Err::<
                Seq<RegisteredView>,
                ErrorView,
            >(error@),
        },
{
    let mut others: Vec<RegisteredExtension> = other_entries(entries, &registered.id);
    match ensure_surface_ownership(&registered, others.as_slice()) {
        Ok(()) => {},
        Err(error) => {
            return Err(error);
        },
    }
    let ghost before = views(others@);
    others.push(registered);
    assert(views(others@) =~= before.push(registered@));
    Ok(sort_by_id(others))
}

/// Record a staged manifest in the registry: the record, and the registry to
/// write.
pub fn record_staged_extension(
    entries: Vec<RegisteredExtension>,
    staged: &StagedPackage,
    manifest: &ExtensionManifest,
    runtime_trust: Option<RegisteredRuntimeTrust>,
) -> (result: Result<(RegisteredExtension, Vec<RegisteredExtension>), SpindleError>)
    ensures
        match result {
            Ok((registered, after)) => staged_outcome(
                views(entries@),
                manifest@,
                staged.package_root@,
                optional_view(runtime_trust),
            ) == Ok::<(RegisteredView, Seq<RegisteredView>), ErrorView>(
                (registered@, views(after@)),
            ),
            Err(error) => staged_outcome(
                views(entries@),
                manifest@,
                staged.package_root@,
                optional_view(runtime_trust),
            ) == Err::<(RegisteredView, Seq<RegisteredView>), ErrorView>(error@),
        },
{
    match ensure_static_surface(manifest) {
        Ok(()) => {},
        Err(error) => {
            return Err(error);
        },
    }
    let registered: RegisteredExtension = RegisteredExtension::from_manifest(
        manifest,
        staged.package_root.clone(),
        runtime_trust,
    );
    match record_extension(entries, registered.clone()) {
        Ok(after) => Ok((registered, after)),
        Err(error) => Err(error),
    }
}

/// The path of the file that a registry is written to before it replaces the old
/// one: its name followed by `.{process}.{counter}.tmp`.
pub open spec fn temporary_path(path: Seq<char>, process: nat, counter: nat) -> Seq<char> {
    let name = match crate::paths::file_name_of(path) {
        Some(name) => name,
        None => "extensions.json"@,
    };
    with_name(
        path,
        name + "."@ + crate::error::decimal(process) + "."@ + crate::error::decimal(counter)
            + ".tmp"@,
    )
}

/// The path of the file that a registry is written to before it replaces the old
/// one.
pub fn temporary_registry_path(path: &str, process: u32, counter: u64) -> (temporary: String)
    ensures
        temporary@ == temporary_path(path@, process as nat, counter as nat),
{
    let mut name: String = match crate::paths::path_file_name(path) {
        Some(name) => name,
        None => "extensions.json".to_owned(),
    };
    name.append(".");
    name.append(crate::error::decimal_text(process as u64).as_str());
    name.append(".");
    name.append(crate::error::decimal_text(counter).as_str());
    name.append(".tmp");
    path_with_name(path, name.as_str())
}

/// Without running it, an extension is installed where it is a recipe or declares
/// something; else it is named as one that must be trusted first.
pub proof fn law_static_installation_needs_surface(manifest: ManifestView)
    ensures
        static_surface_check(manifest) is Ok <==> {
            ||| manifest.runtime == ExtensionRuntime::Recipe
            ||| manifest.emits.len() > 0
            ||| manifest.produces.len() > 0
            ||| manifest.capabilities.len() > 0
            ||| manifest.actions.len() > 0
            ||| manifest.routes.len() > 0
        },
        static_surface_check(manifest) matches Err(error) ==> error == (
        ErrorView::RuntimeTrustRequired { extension: manifest.id }),
{
}

/// Recording a staged manifest records what it declares, or fails as its static
/// installation or its ownership does.
pub proof fn law_staged_manifest_is_recorded(
    entries: Seq<RegisteredView>,
    manifest: ManifestView,
    package_root: Seq<char>,
    trust: Option<TrustView>,
)
    ensures
        staged_outcome(entries, manifest, package_root, trust) matches Ok((record, after)) ==> {
            &&& record.id == manifest.id
            &&& record.version == manifest.version
            &&& record.package_root == package_root
            &&& record.runtime == manifest.runtime
            &&& record.capabilities == manifest.capabilities
            &&& record.emits == manifest.emits
            &&& record.produces == manifest.produces
            &&& record.actions == manifest.actions
            &&& record.routes == manifest.routes
            &&& record.runtime_trust == trust
            &&& after.contains(record)
            &&& recorded(entries, record) == Ok::<Seq<RegisteredView>, ErrorView>(after)
        },
        static_surface_check(manifest) matches Err(error) ==> staged_outcome(
            entries,
            manifest,
            package_root,
            trust,
        ) == Err::<(RegisteredView, Seq<RegisteredView>), ErrorView>(error),
{
    let record = registered_from(manifest, package_root, trust);
    let others = without_id(entries, record.id);
    law_by_id(others.push(record));
    assert(others.push(record)[others.len() as int] == record);
    assert(others.push(record).contains(record));
}

/// The file that a registry is written to first stands beside it, under its name with
/// the process, the counter and `.tmp` behind.
pub proof fn law_temporary_file_is_beside_the_registry(
    path: Seq<char>,
    name: Seq<char>,
    process: nat,
    counter: nat,
)
    requires
        crate::paths::file_name_of(path) == Some(name),
    ensures
        parent_of(temporary_path(path, process, counter)) == parent_of(path),
        crate::paths::file_name_of(temporary_path(path, process, counter)) == Some(
            name + "."@ + crate::error::decimal(process) + "."@ + crate::error::decimal(counter)
                + ".tmp"@,
        ),
{
    reveal_strlit(".");
    reveal_strlit(".tmp");
    law_file_name_has_no_slash(path);
    crate::error::lemma_decimal_digits(process);
    crate::error::lemma_decimal_digits(counter);
    let first = crate::error::decimal(process);
    let second = crate::error::decimal(counter);
    let front = name + "."@ + first + "."@ + second;
    let whole = front + ".tmp"@;
    assert forall|i: int| 0 <= i < front.len() implies front[i] != '/' by {
        let a = name.len() as int;
        let b = a + 1 + first.len();
        if i < a {
            assert(front[i] == name[i]);
        } else if a < i < b {
            assert(front[i] == first[i - a - 1]);
        } else if i > b {
            assert(front[i] == second[i - b - 1]);
        }
    }
    assert forall|i: int| 0 <= i < whole.len() implies whole[i] != '/' by {
        if i < front.len() {
            assert(whole[i] == front[i]);
        } else {
            assert(whole[i] == ".tmp"@[i - front.len()]);
        }
    }
    law_renamed_file_stays_in_its_directory(path, whole);
}

} // verus!
