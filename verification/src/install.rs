//! Installing an extension package: what is recorded once it is staged.
use vstd::prelude::*;

use crate::error::{ErrorView, SpindleError};
use crate::manifest::{
    manifest_check, runtime_manifest, ExtensionManifest, ExtensionRuntime, ManifestView,
};
use crate::registered::{
    registered_from, trust_check, verified_trust, RegisteredExtension, RegisteredRuntimeTrust,
    RegisteredView, RuntimeTrustSnapshot, TrustView,
};
use crate::registration::{ExtensionRegistration, RegistrationView};
use crate::registry::{
    law_recorded_iff_exclusive, law_recorded_valid, record_staged_extension, registry_valid,
    staged_outcome,
};
use crate::stage::StagedPackage;
use crate::surface::exclusive;
use crate::text::{optional_view, views};

verus! {

/// What an installation comes to.
#[derive(Debug, PartialEq, Eq)]
pub struct Installation {
    /// The manifest to keep in the staged package.
    pub manifest: ExtensionManifest,
    /// The record of the extension.
    pub registered: RegisteredExtension,
    /// The registry to write.
    pub entries: Vec<RegisteredExtension>,
}

/// An installation with its texts as characters.
pub struct InstallationView {
    /// The manifest to keep in the staged package.
    pub manifest: ManifestView,
    /// The record of the extension.
    pub registered: RegisteredView,
    /// The registry to write.
    pub entries: Seq<RegisteredView>,
}

impl View for Installation {
    type V = InstallationView;

    open spec fn view(&self) -> InstallationView {
        InstallationView {
            manifest: self.manifest@,
            registered: self.registered@,
            entries: views(self.entries@),
        }
    }
}

/// The view of an installation or an error.
pub open spec fn install_outcome(result: Result<Installation, SpindleError>) -> Result<
    InstallationView,
    ErrorView,
> {
    match result {
        Ok(installation) => Ok(installation@),
        Err(error) => Err(error@),
    }
}

/// The trust in an executable that did not run since it was staged.
pub open spec fn trust_in(snapshot: Option<RuntimeTrustSnapshot>, now: u64) -> Option<TrustView> {
    match snapshot {
        Some(taken) => Some(
            TrustView {
                entrypoint_path: taken.entrypoint_path@,
                entrypoint_sha256: taken.entrypoint_sha256@,
                registered_at_unix_ms: now,
            },
        ),
        None => None,
    }
}

/// The installation of a manifest with some trust in its executable.
pub open spec fn installed_with(
    entries: Seq<RegisteredView>,
    package_root: Seq<char>,
    manifest: ManifestView,
    trust: Option<TrustView>,
) -> Result<InstallationView, ErrorView> {
    match staged_outcome(entries, manifest, package_root, trust) {
        Err(error) => Err(error),
        Ok((registered, after)) => Ok(
            InstallationView { manifest, registered, entries: after },
        ),
    }
}

/// The installation of a package whose executable was run for its surface.
pub open spec fn installed_trusting(
    entries: Seq<RegisteredView>,
    package_root: Seq<char>,
    manifest: ManifestView,
    registration: Option<RegistrationView>,
    snapshot: Option<RuntimeTrustSnapshot>,
    current: Seq<char>,
    now: u64,
) -> Result<InstallationView, ErrorView> {
    match runtime_manifest(manifest, registration) {
        Err(error) => Err(error),
        Ok(whole) => match verified_trust(snapshot, whole.id, current, now) {
            Err(error) => Err(error),
            Ok(trust) => installed_with(entries, package_root, whole, trust),
        },
    }
}

fn install_staged(
    entries: Vec<RegisteredExtension>,
    staged: &StagedPackage,
    manifest: ExtensionManifest,
    trust: Option<RegisteredRuntimeTrust>,
) -> (result: Result<Installation, SpindleError>)
    ensures
        install_outcome(result) == installed_with(
            views(entries@),
            staged.package_root@,
            manifest@,
            optional_view(trust),
        ),
{
    match record_staged_extension(entries, staged, &manifest, trust) {
        Ok((registered, after)) => Ok(Installation { manifest, registered, entries: after }),
        Err(error) => Err(error),
    }
}

/// Install a staged package with the surface that its manifest declares.
pub fn install_manifest(
    entries: Vec<RegisteredExtension>,
    staged: &StagedPackage,
    manifest: ExtensionManifest,
    snapshot: Option<RuntimeTrustSnapshot>,
    now: u64,
) -> (result: Result<Installation, SpindleError>)
    ensures
        install_outcome(result) == installed_with(
            views(entries@),
            staged.package_root@,
            manifest@,
            trust_in(snapshot, now),
        ),
{
    let trust: Option<RegisteredRuntimeTrust> = RuntimeTrustSnapshot::for_staged(snapshot, now);
    install_staged(entries, staged, manifest, trust)
}

/// Install a staged package with the surface that its executable registered: the
/// executable must still be the one that was staged.
pub fn install_manifest_with_runtime(
    entries: Vec<RegisteredExtension>,
    staged: &StagedPackage,
    manifest: ExtensionManifest,
    registration: Option<ExtensionRegistration>,
    snapshot: Option<RuntimeTrustSnapshot>,
    current_sha256: &str,
    now: u64,
) -> (result: Result<Installation, SpindleError>)
    ensures
        install_outcome(result) == installed_trusting(
            views(entries@),
            staged.package_root@,
            manifest@,
            optional_view(registration),
            snapshot,
            current_sha256@,
            now,
        ),
{
    let whole: ExtensionManifest = match manifest.apply_runtime_registration(registration) {
        Ok(whole) => whole,
        Err(error) => {
            return Err(error);
        },
    };
    let trust: Option<RegisteredRuntimeTrust> = match RuntimeTrustSnapshot::verify(
        snapshot,
        whole.id.as_str(),
        current_sha256,
        now,
    ) {
        Ok(trust) => trust,
        Err(error) => {
            return Err(error);
        },
    };
    install_staged(entries, staged, whole, trust)
}

/// Installing keeps a registry valid: no two extensions own the same event,
/// action or capability.
pub proof fn law_install_keeps_registry_valid(
    entries: Seq<RegisteredView>,
    package_root: Seq<char>,
    manifest: ManifestView,
    trust: Option<TrustView>,
)
    requires
        registry_valid(entries),
    ensures
        installed_with(entries, package_root, manifest, trust) matches Ok(installation)
            ==> registry_valid(installation.entries) && installation.entries.contains(
            installation.registered,
        ),
{
    if installed_with(entries, package_root, manifest, trust) is Ok {
        let registered = registered_from(manifest, package_root, trust);
        let after = installed_with(entries, package_root, manifest, trust)->Ok_0.entries;
        law_recorded_valid(entries, registered, after);
        assert(after.contains(registered));
    }
}

/// What is installed with runtime surface is a valid manifest, and its executable
/// may run as long as it is the one that was there at the end of the installation.
pub proof fn law_trusted_install_may_run(
    entries: Seq<RegisteredView>,
    package_root: Seq<char>,
    manifest: ManifestView,
    registration: Option<RegistrationView>,
    snapshot: Option<RuntimeTrustSnapshot>,
    current: Seq<char>,
    now: u64,
)
    ensures
        installed_trusting(
            entries,
            package_root,
            manifest,
            registration,
            snapshot,
            current,
            now,
        ) matches Ok(installation) ==> manifest_check(installation.manifest) is Ok && trust_check(
            installation.registered,
            current,
        ) is Ok,
{
}

/// Installing a manifest records what it declares, for the package that was staged,
/// with the trust that there is, and keeps all other extensions. It fails exactly
/// where the manifest declares nothing although it has something to run, or owns
/// something that another extension owns.
pub proof fn law_installation_records_the_manifest(
    entries: Seq<RegisteredView>,
    package_root: Seq<char>,
    manifest: ManifestView,
    trust: Option<TrustView>,
)
    requires
        registry_valid(entries),
    ensures
        installed_with(entries, package_root, manifest, trust) is Ok <==> {
            &&& {
                ||| manifest.runtime == ExtensionRuntime::Recipe
                ||| manifest.emits.len() > 0
                ||| manifest.produces.len() > 0
                ||| manifest.capabilities.len() > 0
                ||| manifest.actions.len() > 0
                ||| manifest.routes.len() > 0
            }
            &&& forall|entry: RegisteredView| #[trigger]
                entries.contains(entry) && entry.id != manifest.id ==> exclusive(
                    registered_from(manifest, package_root, trust),
                    entry,
                )
        },
        installed_with(entries, package_root, manifest, trust) matches Ok(installation) ==> {
            let record = installation.registered;
            &&& installation.manifest == manifest
            &&& record.id == manifest.id
            &&& record.version == manifest.version
            &&& record.package_root == package_root
            &&& record.runtime == manifest.runtime
            &&& record.capabilities == manifest.capabilities
            &&& record.emits == manifest.emits
            &&& record.produces == manifest.produces
            &&& record.actions == manifest.actions
            &&& record.routes == manifest.routes
            &&& record.runtime_trust == trust
            &&& forall|entry: RegisteredView| #[trigger]
                installation.entries.contains(entry) <==> entry == record || (entries.contains(
                    entry,
                ) && entry.id != manifest.id)
        },
{
    let registered = registered_from(manifest, package_root, trust);
    law_recorded_iff_exclusive(entries, registered);
    if installed_with(entries, package_root, manifest, trust) is Ok {
        let after = installed_with(entries, package_root, manifest, trust)->Ok_0.entries;
        law_recorded_valid(entries, registered, after);
    }
}

/// Installing with runtime surface installs the manifest with what the extension
/// registered, for the executable that was staged. It fails where the registration
/// cannot be merged, where the executable changed, and where the whole cannot be
/// installed.
pub proof fn law_trusted_installation_records_the_whole(
    entries: Seq<RegisteredView>,
    package_root: Seq<char>,
    manifest: ManifestView,
    registration: Option<RegistrationView>,
    snapshot: Option<RuntimeTrustSnapshot>,
    current: Seq<char>,
    now: u64,
)
    ensures
        installed_trusting(
            entries,
            package_root,
            manifest,
            registration,
            snapshot,
            current,
            now,
        ) matches Ok(installation) ==> {
            &&& runtime_manifest(manifest, registration) == Ok::<ManifestView, ErrorView>(
                installation.manifest,
            )
            &&& installation.registered.routes == installation.manifest.routes
            &&& installation.registered.actions == installation.manifest.actions
            &&& snapshot matches Some(taken) ==> {
                &&& taken.entrypoint_sha256@ == current
                &&& installation.registered.runtime_trust is Some
                &&& installation.registered.runtime_trust->0.entrypoint_path
                    == taken.entrypoint_path@
                &&& installation.registered.runtime_trust->0.entrypoint_sha256
                    == taken.entrypoint_sha256@
                &&& installation.registered.runtime_trust->0.registered_at_unix_ms == now
            }
            &&& snapshot is None ==> installation.registered.runtime_trust is None
            &&& installed_with(
                entries,
                package_root,
                installation.manifest,
                installation.registered.runtime_trust,
            ) is Ok
        },
        runtime_manifest(manifest, registration) is Err ==> installed_trusting(
            entries,
            package_root,
            manifest,
            registration,
            snapshot,
            current,
            now,
        ) is Err,
        snapshot is Some && snapshot->0.entrypoint_sha256@ != current ==> installed_trusting(
            entries,
            package_root,
            manifest,
            registration,
            snapshot,
            current,
            now,
        ) is Err,
{
}

/// Without running anything, the trust is in the executable that was staged, at its
/// path and with its hash.
pub proof fn law_static_trust_is_in_what_was_staged(
    snapshot: Option<RuntimeTrustSnapshot>,
    now: u64,
)
    ensures
        trust_in(snapshot, now) is Some <==> snapshot is Some,
        snapshot matches Some(taken) ==> trust_in(snapshot, now)->0.entrypoint_path
            == taken.entrypoint_path@ && trust_in(snapshot, now)->0.entrypoint_sha256
            == taken.entrypoint_sha256@ && trust_in(snapshot, now)->0.registered_at_unix_ms == now,
{
}

} // verus!
