//! Installed extensions as the kernel records them, and the trust in their
//! executables.
use vstd::prelude::*;

use crate::error::{checked, Checked, ErrorView, SpindleError};
use crate::identity::is_hex_digit;
use crate::manifest::{
    copy_actions, ExtensionAction, ExtensionManifest, ExtensionRoute, ExtensionRuntime,
    ManifestView,
};
use crate::name_map::NameMap;
use crate::paths::{join_path, joined};
use crate::registration::{ActionsView, RouteView};
use crate::text::{optional_view, same_text, views};

verus! {

/// Trusted runtime metadata captured at installation time.
#[derive(Debug, PartialEq, Eq)]
pub struct RegisteredRuntimeTrust {
    /// Canonical entrypoint path.
    pub entrypoint_path: String,
    /// SHA-256 hash of the entrypoint at registration time.
    pub entrypoint_sha256: String,
    /// Registration time in milliseconds since Unix epoch.
    pub registered_at_unix_ms: u64,
}

/// Registered extension metadata stored by the spindle kernel.
#[derive(Debug, PartialEq, Eq)]
pub struct RegisteredExtension {
    /// Extension identifier.
    pub id: String,
    /// Extension version string.
    pub version: String,
    /// Staged extension package root directory.
    pub package_root: String,
    /// Runtime used to execute this extension.
    pub runtime: ExtensionRuntime,
    /// Declared capabilities.
    pub capabilities: Vec<String>,
    /// Event types this extension can emit.
    pub emits: Vec<String>,
    /// Event types this extension's actions can produce.
    pub produces: Vec<String>,
    /// Exposed actions.
    pub actions: NameMap<ExtensionAction>,
    /// Routes contributed by this extension package.
    pub routes: Vec<ExtensionRoute>,
    /// Trusted runtime snapshot captured during installation.
    pub runtime_trust: Option<RegisteredRuntimeTrust>,
}

/// Trust metadata with its texts as characters.
pub struct TrustView {
    /// Entrypoint path.
    pub entrypoint_path: Seq<char>,
    /// Hash of the entrypoint.
    pub entrypoint_sha256: Seq<char>,
    /// Registration time.
    pub registered_at_unix_ms: u64,
}

/// An installed extension with its texts as characters.
pub struct RegisteredView {
    /// Extension identifier.
    pub id: Seq<char>,
    /// Extension version.
    pub version: Seq<char>,
    /// Package root directory.
    pub package_root: Seq<char>,
    /// Runtime.
    pub runtime: ExtensionRuntime,
    /// Provided capabilities.
    pub capabilities: Seq<Seq<char>>,
    /// Emitted event types.
    pub emits: Seq<Seq<char>>,
    /// Produced event types.
    pub produces: Seq<Seq<char>>,
    /// Actions.
    pub actions: ActionsView,
    /// Routes.
    pub routes: Seq<RouteView>,
    /// Trust metadata.
    pub runtime_trust: Option<TrustView>,
}

impl View for RegisteredRuntimeTrust {
    type V = TrustView;

    open spec fn view(&self) -> TrustView {
        TrustView {
            entrypoint_path: self.entrypoint_path@,
            entrypoint_sha256: self.entrypoint_sha256@,
            registered_at_unix_ms: self.registered_at_unix_ms,
        }
    }
}

impl View for RegisteredExtension {
    type V = RegisteredView;

    open spec fn view(&self) -> RegisteredView {
        RegisteredView {
            id: self.id@,
            version: self.version@,
            package_root: self.package_root@,
            runtime: self.runtime,
            capabilities: views(self.capabilities@),
            emits: views(self.emits@),
            produces: views(self.produces@),
            actions: self.actions@,
            routes: views(self.routes@),
            runtime_trust: optional_view(self.runtime_trust),
        }
    }
}

impl Clone for RegisteredRuntimeTrust {
    fn clone(&self) -> (copy: Self)
        ensures
            copy@ == self@,
    {
        RegisteredRuntimeTrust {
            entrypoint_path: self.entrypoint_path.clone(),
            entrypoint_sha256: self.entrypoint_sha256.clone(),
            registered_at_unix_ms: self.registered_at_unix_ms,
        }
    }
}

impl Clone for RegisteredExtension {
    fn clone(&self) -> (copy: Self)
        ensures
            copy@ == self@,
    {
        let copy: Self = RegisteredExtension {
            id: self.id.clone(),
            version: self.version.clone(),
            package_root: self.package_root.clone(),
            runtime: self.runtime,
            capabilities: self.capabilities.clone(),
            emits: self.emits.clone(),
            produces: self.produces.clone(),
            actions: copy_actions(&self.actions),
            routes: self.routes.clone(),
            runtime_trust: self.runtime_trust.clone(),
        };
        assert(copy@.capabilities =~= self@.capabilities);
        assert(copy@.emits =~= self@.emits);
        assert(copy@.produces =~= self@.produces);
        assert(copy@.routes =~= self@.routes);
        copy
    }
}

/// The record of a manifest that is installed at a package root.
pub open spec fn registered_from(
    manifest: ManifestView,
    package_root: Seq<char>,
    runtime_trust: Option<TrustView>,
) -> RegisteredView {
    RegisteredView {
        id: manifest.id,
        version: manifest.version,
        package_root,
        runtime: manifest.runtime,
        capabilities: manifest.capabilities,
        emits: manifest.emits,
        produces: manifest.produces,
        actions: manifest.actions,
        routes: manifest.routes,
        runtime_trust,
    }
}

/// The event types that an extension owns.
pub open spec fn owned_events(extension: RegisteredView) -> Seq<Seq<char>> {
    extension.emits + extension.produces
}

impl RegisteredExtension {
    /// The record of a manifest that is installed at a package root.
    pub fn from_manifest(
        manifest: &ExtensionManifest,
        package_root: String,
        runtime_trust: Option<RegisteredRuntimeTrust>,
    ) -> (registered: Self)
        ensures
            registered@ == registered_from(
                manifest@,
                package_root@,
                optional_view(runtime_trust),
            ),
    {
        let registered: Self = RegisteredExtension {
            id: manifest.id.clone(),
            version: manifest.version.clone(),
            package_root,
            runtime: manifest.runtime,
            capabilities: manifest.capabilities.clone(),
            emits: manifest.emits.clone(),
            produces: manifest.produces.clone(),
            actions: copy_actions(&manifest.actions),
            routes: manifest.routes.clone(),
            runtime_trust,
        };
        assert(registered@.capabilities =~= manifest@.capabilities);
        assert(registered@.emits =~= manifest@.emits);
        assert(registered@.produces =~= manifest@.produces);
        assert(registered@.routes =~= manifest@.routes);
        registered
    }
}

/// The conventional executable of a package: `bin/{id}` below its root.
pub open spec fn package_binary(package_root: Seq<char>, extension_id: Seq<char>) -> Seq<char> {
    joined(joined(package_root, "bin"@), extension_id)
}

/// Resolve the conventional stdio binary path inside an extension package.
pub fn resolve_package_binary(package_root: &str, extension_id: &str) -> (path: String)
    ensures
        path@ == package_binary(package_root@, extension_id@),
{
    join_path(join_path(package_root, "bin").as_str(), extension_id)
}

/// The text of the SHA-256 digest of some bytes.
pub uninterp spec fn sha256_hex_of(bytes: Seq<u8>) -> Seq<char>;

/// `sha2::Sha256::digest` with the lower-case hexadecimal form of its result: a
/// function of the bytes, which `sha256_hex_of` names, always 64 digits long.
#[verifier::external_body]
fn sha256_digest(bytes: &[u8]) -> (digest: String)
    ensures
        digest@ == sha256_hex_of(bytes@),
        digest@.len() == 64,
        forall|i: int| 0 <= i < 64 ==> is_hex_digit(#[trigger] digest@[i]),
{
    format!("{:x}", <sha2::Sha256 as sha2::Digest>::digest(bytes))
}

/// The SHA-256 hash of the contents of a file, in hexadecimal digits.
pub fn sha256_file(contents: &[u8]) -> (digest: String)
    ensures
        digest@ == sha256_hex_of(contents@),
        digest@.len() == 64,
        forall|i: int| 0 <= i < 64 ==> is_hex_digit(#[trigger] digest@[i]),
{
    sha256_digest(contents)
}

/// What the entrypoint of an extension was when it was staged.
#[derive(Debug, PartialEq, Eq)]
pub struct RuntimeTrustSnapshot {
    /// Canonical entrypoint path.
    pub entrypoint_path: String,
    /// SHA-256 hash of the entrypoint.
    pub entrypoint_sha256: String,
}

/// The trust that a snapshot gives, when the entrypoint hashes to `current` now.
pub open spec fn verified_trust(
    snapshot: Option<RuntimeTrustSnapshot>,
    extension: Seq<char>,
    current: Seq<char>,
    now: u64,
) -> Result<Option<TrustView>, ErrorView> {
    match snapshot {
        None => Ok(None),
        Some(taken) => if taken.entrypoint_sha256@ == current {
            Ok(
                Some(
                    TrustView {
                        entrypoint_path: taken.entrypoint_path@,
                        entrypoint_sha256: taken.entrypoint_sha256@,
                        registered_at_unix_ms: now,
                    },
                ),
            )
        } else {
            Err(
                ErrorView::ExtensionTrustChanged {
                    extension,
                    entrypoint: taken.entrypoint_path@,
                },
            )
        },
    }
}

impl RuntimeTrustSnapshot {
    /// The executable whose contents a snapshot is taken of; a recipe has none.
    pub fn entrypoint(package_root: &str, manifest: &ExtensionManifest) -> (path: Option<String>)
        ensures
            match path {
                Some(text) => manifest.runtime != ExtensionRuntime::Recipe && text@
                    == package_binary(package_root@, manifest.id@),
                None => manifest.runtime == ExtensionRuntime::Recipe,
            },
    {
        if manifest.runtime == ExtensionRuntime::Recipe {
            None
        } else {
            Some(resolve_package_binary(package_root, manifest.id.as_str()))
        }
    }

    /// Take a snapshot of an executable.
    pub fn capture(entrypoint_path: String, contents: &[u8]) -> (snapshot: Self)
        ensures
            snapshot.entrypoint_path == entrypoint_path,
            snapshot.entrypoint_sha256@ == sha256_hex_of(contents@),
    {
        RuntimeTrustSnapshot { entrypoint_path, entrypoint_sha256: sha256_file(contents) }
    }

    /// The trust in a package that was just staged.
    pub fn for_staged(snapshot: Option<Self>, now: u64) -> (trust: Option<RegisteredRuntimeTrust>)
        ensures
            match trust {
                Some(given) => snapshot is Some && given == (RegisteredRuntimeTrust {
                    entrypoint_path: snapshot->0.entrypoint_path,
                    entrypoint_sha256: snapshot->0.entrypoint_sha256,
                    registered_at_unix_ms: now,
                }),
                None => snapshot is None,
            },
    {
        match snapshot {
            Some(taken) => Some(
                RegisteredRuntimeTrust {
                    entrypoint_path: taken.entrypoint_path,
                    entrypoint_sha256: taken.entrypoint_sha256,
                    registered_at_unix_ms: now,
                },
            ),
            None => None,
        }
    }

    /// The trust in a package whose executable ran since the snapshot: the hash
    /// of the executable must not have changed.
    pub fn verify(
        snapshot: Option<Self>,
        extension: &str,
        current_sha256: &str,
        now: u64,
    ) -> (result: Result<Option<RegisteredRuntimeTrust>, SpindleError>)
        ensures
            match result {
                Ok(trust) => verified_trust(snapshot, extension@, current_sha256@, now) == Ok::<
                    Option<TrustView>,
                    ErrorView,
                >(optional_view(trust)),
                Err(error) => verified_trust(snapshot, extension@, current_sha256@, now) == Err::<
                    Option<TrustView>,
                    ErrorView,
                >(error@),
            },
    {
        match snapshot {
            None => Ok(None),
            Some(taken) => if same_text(taken.entrypoint_sha256.as_str(), current_sha256) {
                Ok(RuntimeTrustSnapshot::for_staged(Some(taken), now))
            } else {
                Err(
                    SpindleError::ExtensionTrustChanged {
                        extension: extension.to_owned(),
                        entrypoint: taken.entrypoint_path,
                    },
                )
            },
        }
    }
}

/// The rule before an extension runs: a trusted entrypoint hashes to what it did
/// when it was registered.
pub open spec fn trust_check(extension: RegisteredView, current: Seq<char>) -> Checked {
    match extension.runtime_trust {
        Some(trust) => if trust.entrypoint_sha256 == current {
            Ok(())
        } else {
            Err(
                ErrorView::ExtensionTrustChanged {
                    extension: extension.id,
                    entrypoint: trust.entrypoint_path,
                },
            )
        },
        None => Ok(()),
    }
}

/// Check that the entrypoint of an extension is the trusted one.
pub fn verify_runtime_trust(extension: &RegisteredExtension, current_sha256: &str) -> (result:
    Result<(), SpindleError>)
    ensures
        checked(result) == trust_check(extension@, current_sha256@),
{
    match &extension.runtime_trust {
        None => Ok(()),
        Some(trust) => if same_text(trust.entrypoint_sha256.as_str(), current_sha256) {
            Ok(())
        } else {
            Err(
                SpindleError::ExtensionTrustChanged {
                    extension: extension.id.clone(),
                    entrypoint: trust.entrypoint_path.clone(),
                },
            )
        },
    }
}

/// The executable that runs for an extension: the trusted one, else the
/// conventional one of its package.
pub open spec fn execution_path(extension: RegisteredView) -> Seq<char> {
    match extension.runtime_trust {
        Some(trust) => trust.entrypoint_path,
        None => package_binary(extension.package_root, extension.id),
    }
}

/// The executable that runs for an extension.
pub fn extension_execution_path(extension: &RegisteredExtension) -> (path: String)
    ensures
        path@ == execution_path(extension@),
{
    match &extension.runtime_trust {
        Some(trust) => trust.entrypoint_path.clone(),
        None => resolve_package_binary(extension.package_root.as_str(), extension.id.as_str()),
    }
}

/// A snapshot of an unchanged executable gives trust in which the extension may
/// run; where the hashes differ, neither does.
pub proof fn law_snapshot_then_trust(
    snapshot: RuntimeTrustSnapshot,
    extension: RegisteredView,
    current: Seq<char>,
    now: u64,
)
    requires
        verified_trust(Some(snapshot), extension.id, snapshot.entrypoint_sha256@, now) == Ok::<
            Option<TrustView>,
            ErrorView,
        >(extension.runtime_trust),
    ensures
        trust_check(extension, current) == match verified_trust(
            Some(snapshot),
            extension.id,
            current,
            now,
        ) {
            Ok(_) => Ok::<(), ErrorView>(()),
            Err(error) => Err(error),
        },
{
}

/// The record of an extension tells all that its manifest declares, where its package
/// is, and the trust in its executable.
pub proof fn law_record_tells_the_manifest(
    manifest: ExtensionManifest,
    package_root: Seq<char>,
    runtime_trust: Option<RegisteredRuntimeTrust>,
    registered: RegisteredExtension,
)
    requires
        registered@ == registered_from(manifest@, package_root, optional_view(runtime_trust)),
    ensures
        registered.id@ == manifest.id@,
        registered.version@ == manifest.version@,
        registered.runtime == manifest.runtime,
        registered.package_root@ == package_root,
        views(registered.capabilities@) == views(manifest.capabilities@),
        views(registered.emits@) == views(manifest.emits@),
        views(registered.produces@) == views(manifest.produces@),
        registered.actions@ == manifest.actions@,
        views(registered.routes@) == views(manifest.routes@),
        registered.runtime_trust is Some <==> runtime_trust is Some,
        runtime_trust matches Some(trust) ==> {
            &&& registered.runtime_trust->0.entrypoint_path@ == trust.entrypoint_path@
            &&& registered.runtime_trust->0.entrypoint_sha256@ == trust.entrypoint_sha256@
            &&& registered.runtime_trust->0.registered_at_unix_ms == trust.registered_at_unix_ms
        },
{
    if let Some(trust) = runtime_trust {
        assert(registered.runtime_trust->0@ == trust@);
    }
}

/// The trust that an installation ends with is in the executable that was staged, at
/// its path and with its hash, from then on; it is refused where the executable has
/// another hash by then.
pub proof fn law_trust_is_in_what_was_staged(
    taken: RuntimeTrustSnapshot,
    extension: Seq<char>,
    current: Seq<char>,
    now: u64,
)
    ensures
        verified_trust(Some(taken), extension, current, now) is Ok <==> taken.entrypoint_sha256@
            == current,
        verified_trust(Some(taken), extension, current, now) matches Ok(trust) ==> trust is Some
            && trust->0.entrypoint_path == taken.entrypoint_path@ && trust->0.entrypoint_sha256
            == taken.entrypoint_sha256@ && trust->0.registered_at_unix_ms == now,
        verified_trust(Some(taken), extension, current, now) matches Err(error) ==> error == (
        ErrorView::ExtensionTrustChanged { extension, entrypoint: taken.entrypoint_path@ }),
        verified_trust(None, extension, current, now) == Ok::<Option<TrustView>, ErrorView>(None),
{
}

/// An extension may run where no trust was recorded, or the executable has the hash
/// that was recorded; what runs is the executable that was recorded, or the one in
/// its package under its identifier.
pub proof fn law_only_the_trusted_executable_runs(
    extension: RegisteredExtension,
    current: Seq<char>,
)
    ensures
        trust_check(extension@, current) is Ok <==> (extension.runtime_trust is Some
            ==> extension.runtime_trust->0.entrypoint_sha256@ == current),
        trust_check(extension@, current) matches Err(error) ==> error == (
        ErrorView::ExtensionTrustChanged {
            extension: extension.id@,
            entrypoint: extension.runtime_trust->0.entrypoint_path@,
        }),
        extension.runtime_trust matches Some(trust) ==> execution_path(extension@)
            == trust.entrypoint_path@,
        extension.runtime_trust is None ==> execution_path(extension@) == joined(
            joined(extension.package_root@, "bin"@),
            extension.id@,
        ),
{
}

/// The record of an extension shows all that it holds.
pub proof fn law_record_shows_all(registered: RegisteredExtension)
    ensures
        registered@.id == registered.id@,
        registered@.version == registered.version@,
        registered@.package_root == registered.package_root@,
        registered@.runtime == registered.runtime,
        registered@.capabilities == views(registered.capabilities@),
        registered@.emits == views(registered.emits@),
        registered@.produces == views(registered.produces@),
        registered@.actions == registered.actions@,
        registered@.routes == views(registered.routes@),
        registered@.runtime_trust == optional_view(registered.runtime_trust),
{
}

} // verus!
