//! Staging of extension packages below the state directory.
use vstd::prelude::*;

use crate::error::{checked, invalid_field, Checked, ErrorView, SpindleError};
use crate::manifest::{ExtensionManifest, ExtensionRuntime, ManifestView};
use crate::paths::{join_path, joined, path_with_extension, with_suffix};
use crate::registered::{package_binary, resolve_package_binary};

verus! {

/// Installed extension package filename.
pub const MANIFEST_FILE: &'static str = "extension.json";

/// Materialized extension package under a spindle state directory.
#[derive(Debug, PartialEq, Eq)]
pub struct StagedPackage {
    /// Root directory of the staged package.
    pub package_root: String,
}

/// The manifest of a package.
pub open spec fn manifest_of(package_root: Seq<char>) -> Seq<char> {
    joined(package_root, MANIFEST_FILE@)
}

/// Return the manifest path of a package.
pub fn manifest_path(package_root: &str) -> (path: String)
    ensures
        path@ == manifest_of(package_root@),
{
    join_path(package_root, MANIFEST_FILE)
}

/// What is found at an install input.
#[derive(Debug, Clone, Copy, PartialEq, Eq)]
pub struct SourceFacts {
    /// Something is there.
    pub exists: bool,
    /// It is a directory.
    pub is_dir: bool,
    /// It holds a manifest file.
    pub has_manifest: bool,
}

/// The rule for an install input: a directory that holds a manifest.
pub open spec fn source_check(facts: SourceFacts) -> Checked {
    if !facts.exists {
        Err(ErrorView::InvalidField { field: "package"@, reason: "path does not exist"@ })
    } else if !facts.is_dir {
        Err(ErrorView::InvalidField { field: "package"@, reason: "input must be a directory"@ })
    } else if !facts.has_manifest {
        Err(
            ErrorView::InvalidField {
                field: "package"@,
                reason: "extension package must contain extension.json"@,
            },
        )
    } else {
        Ok(())
    }
}

/// Resolve a source package directory and manifest path from install input.
pub fn resolve_source_package(input: &str, facts: SourceFacts) -> (result: Result<
    (String, String),
    SpindleError,
>)
    ensures
        match result {
            Ok((package_root, manifest)) => {
                &&& source_check(facts) is Ok
                &&& package_root@ == input@
                &&& manifest@ == manifest_of(input@)
            },
            Err(error) => source_check(facts) == Err::<(), ErrorView>(error@),
        },
{
    if !facts.exists {
        return Err(invalid_field("package", "path does not exist"));
    }
    if !facts.is_dir {
        return Err(invalid_field("package", "input must be a directory"));
    }
    if !facts.has_manifest {
        return Err(invalid_field("package", "extension package must contain extension.json"));
    }
    Ok((input.to_owned(), manifest_path(input)))
}

/// The staged package directory for one extension id.
pub open spec fn staged_root(state_dir: Seq<char>, extension_id: Seq<char>) -> Seq<char> {
    joined(joined(state_dir, "extensions"@), extension_id)
}

/// Return the staged package directory for one extension id.
pub fn staged_package_root(state_dir: &str, extension_id: &str) -> (path: String)
    ensures
        path@ == staged_root(state_dir@, extension_id@),
{
    join_path(join_path(state_dir, "extensions").as_str(), extension_id)
}

/// The rule for an entrypoint: a file that someone may execute.
pub open spec fn entrypoint_check(
    extension: Seq<char>,
    path: Seq<char>,
    is_file: bool,
    mode: u32,
) -> Checked {
    if !is_file {
        Err(ErrorView::EntrypointNotFound { extension, path })
    } else if mode & 0o111 == 0 {
        Err(ErrorView::EntrypointNotExecutable { extension, path })
    } else {
        Ok(())
    }
}

/// Check that an entrypoint is a file that someone may execute.
pub fn ensure_entrypoint_ready(
    extension_id: &str,
    path: &str,
    is_file: bool,
    mode: u32,
) -> (result: Result<(), SpindleError>)
    ensures
        checked(result) == entrypoint_check(extension_id@, path@, is_file, mode),
{
    if !is_file {
        return Err(
            SpindleError::EntrypointNotFound {
                extension: extension_id.to_owned(),
                path: path.to_owned(),
            },
        );
    }
    if mode & 0o111 == 0 {
        return Err(
            SpindleError::EntrypointNotExecutable {
                extension: extension_id.to_owned(),
                path: path.to_owned(),
            },
        );
    }
    Ok(())
}

/// One file to copy.
#[derive(Debug, PartialEq, Eq)]
pub struct FileCopy {
    /// Where the file is.
    pub from: String,
    /// Where it goes.
    pub to: String,
}

/// What staging a package takes: the directory to make, the manifest to write,
/// the executable to copy, and its configuration, which is copied if there is
/// one.
#[derive(Debug, PartialEq, Eq)]
pub struct StagingPlan {
    /// Root directory of the staged package.
    pub package_root: String,
    /// The manifest file to write.
    pub manifest: String,
    /// The executable; a recipe has none.
    pub executable: Option<FileCopy>,
    /// The configuration beside the executable.
    pub configuration: Option<FileCopy>,
}

impl StagingPlan {
    /// Whether the plan stages the manifest of a source package below a state
    /// directory.
    pub open spec fn stages(
        self,
        state_dir: Seq<char>,
        source_package: Seq<char>,
        manifest: ManifestView,
    ) -> bool {
        let root = staged_root(state_dir, manifest.id);
        let source = package_binary(source_package, manifest.id);
        let staged = package_binary(root, manifest.id);
        &&& self.package_root@ == root
        &&& self.manifest@ == manifest_of(root)
        &&& if manifest.runtime == ExtensionRuntime::Recipe {
            self.executable is None && self.configuration is None
        } else {
            &&& self.executable is Some
            &&& self.executable->0.from@ == source
            &&& self.executable->0.to@ == staged
            &&& self.configuration is Some
            &&& self.configuration->0.from@ == with_suffix(source, "json"@)
            &&& self.configuration->0.to@ == with_suffix(staged, "json"@)
        }
    }
}

/// Plan the staging of a source package below a state directory.
pub fn plan_staging(state_dir: &str, source_package: &str, manifest: &ExtensionManifest) -> (plan:
    StagingPlan)
    ensures
        plan.stages(state_dir@, source_package@, manifest@),
{
    let package_root: String = staged_package_root(state_dir, manifest.id.as_str());
    let manifest_file: String = manifest_path(package_root.as_str());
    if manifest.runtime == ExtensionRuntime::Recipe {
        return StagingPlan {
            package_root,
            manifest: manifest_file,
            executable: None,
            configuration: None,
        };
    }
    let source: String = resolve_package_binary(source_package, manifest.id.as_str());
    let staged: String = resolve_package_binary(package_root.as_str(), manifest.id.as_str());
    let configuration: FileCopy = FileCopy {
        from: path_with_extension(source.as_str(), "json"),
        to: path_with_extension(staged.as_str(), "json"),
    };
    StagingPlan {
        package_root,
        manifest: manifest_file,
        executable: Some(FileCopy { from: source, to: staged }),
        configuration: Some(configuration),
    }
}

/// A package is accepted exactly where its directory is there and holds a manifest.
pub proof fn law_package_is_a_directory_with_a_manifest(facts: SourceFacts)
    ensures
        source_check(facts) is Ok <==> facts.exists && facts.is_dir && facts.has_manifest,
{
}

/// An executable is ready exactly where it is a file that someone may execute; else the
/// extension and the path are named.
pub proof fn law_executable_is_ready(
    extension: Seq<char>,
    path: Seq<char>,
    is_file: bool,
    mode: u32,
)
    ensures
        entrypoint_check(extension, path, is_file, mode) is Ok <==> is_file && (mode & 0o100 != 0
            || mode & 0o010 != 0 || mode & 0o001 != 0),
        !is_file ==> entrypoint_check(extension, path, is_file, mode) == Err::<(), ErrorView>(
            ErrorView::EntrypointNotFound { extension, path },
        ),
        entrypoint_check(extension, path, is_file, mode) matches Err(error) ==> is_file ==> error
            == (ErrorView::EntrypointNotExecutable { extension, path }),
{
    assert(mode & 0o111 == 0 <==> mode & 0o100 == 0 && mode & 0o010 == 0 && mode & 0o001 == 0)
        by (bit_vector);
}

/// A package is staged in a directory of its own in the state directory, under the
/// identifier of the extension; the executable keeps its name and its place in the
/// package, and nothing of a recipe is copied but its manifest.
pub proof fn law_package_is_staged_under_its_identifier(
    plan: StagingPlan,
    state_dir: Seq<char>,
    source_package: Seq<char>,
    manifest: ManifestView,
)
    requires
        plan.stages(state_dir, source_package, manifest),
    ensures
        plan.package_root@ == joined(joined(state_dir, "extensions"@), manifest.id),
        plan.manifest@ == joined(plan.package_root@, "extension.json"@),
        plan.executable is None <==> manifest.runtime == ExtensionRuntime::Recipe,
        plan.configuration is None <==> manifest.runtime == ExtensionRuntime::Recipe,
        plan.executable matches Some(copied) ==> copied.from@ == joined(
            joined(source_package, "bin"@),
            manifest.id,
        ) && copied.to@ == joined(joined(plan.package_root@, "bin"@), manifest.id),
        plan.configuration matches Some(copied) ==> copied.from@ == with_suffix(
            plan.executable->0.from@,
            "json"@,
        ) && copied.to@ == with_suffix(plan.executable->0.to@, "json"@),
{
}

} // verus!
