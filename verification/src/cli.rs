//! What a command line asks for.
use vstd::prelude::*;

use crate::error::{invalid_field, ErrorView, SpindleError};
use crate::event::{EventFilter, EventView};
use crate::json::{
    law_only_objects_are_read, object_outcome, parse_json_object, parsed_json, Json, JsonView,
};
use crate::paths::{join_path, joined};
use crate::policy::POLICY_FILE;
use crate::protocol::HubRequest;
use crate::stage::{manifest_of, manifest_path};
use crate::text::{less_text, optional_view, views};
use crate::text_set::{in_text_order, law_in_text_order, sort_texts};

verus! {

/// The state directory: the one that is asked for, else the one that the
/// environment names, else the usual one below the home directory.
pub open spec fn state_dir_choice(
    explicit: Option<Seq<char>>,
    configured: Option<Seq<char>>,
    home: Option<Seq<char>>,
) -> Result<Seq<char>, ErrorView> {
    match explicit {
        Some(path) => Ok(path),
        None => match configured {
            Some(path) => Ok(path),
            None => match home {
                Some(path) => Ok(
                    joined(joined(joined(path, ".local"@), "state"@), "spindle"@),
                ),
                None => Err(ErrorView::MissingHome),
            },
        },
    }
}

/// The socket: the one that is asked for, else the usual one in the state
/// directory.
pub open spec fn socket_choice(state_dir: Seq<char>, explicit: Option<Seq<char>>) -> Seq<char> {
    match explicit {
        Some(path) => path,
        None => joined(state_dir, "spindle.sock"@),
    }
}

/// Resolve the state directory.
pub fn resolve_state_dir(
    explicit: Option<String>,
    configured: Option<String>,
    home: Option<String>,
) -> (result: Result<String, SpindleError>)
    ensures
        match result {
            Ok(path) => state_dir_choice(
                optional_view(explicit),
                optional_view(configured),
                optional_view(home),
            ) == Ok::<Seq<char>, ErrorView>(path@),
            Err(error) => state_dir_choice(
                optional_view(explicit),
                optional_view(configured),
                optional_view(home),
            ) == Err::<Seq<char>, ErrorView>(error@),
        },
{
    if let Some(path) = explicit {
        return Ok(path);
    }
    if let Some(path) = configured {
        return Ok(path);
    }
    match home {
        Some(path) => {
            let local: String = join_path(path.as_str(), ".local");
            let state: String = join_path(local.as_str(), "state");
            Ok(join_path(state.as_str(), "spindle"))
        },
        None => Err(SpindleError::MissingHome),
    }
}

/// Resolve the socket path.
pub fn resolve_socket_path(state_dir: &str, explicit: Option<String>) -> (path: String)
    ensures
        path@ == socket_choice(state_dir@, optional_view(explicit)),
{
    match explicit {
        Some(path) => path,
        None => join_path(state_dir, "spindle.sock"),
    }
}

/// The manifest that an install input stands for: that in a directory, a file
/// itself, else that of a bundled extension of this name.
pub fn resolve_install_manifest(extension: &str, is_dir: bool, present: bool) -> (path: String)
    ensures
        path@ == if is_dir {
            manifest_of(extension@)
        } else if present {
            extension@
        } else {
            manifest_of(joined("extensions"@, extension@))
        },
{
    if is_dir {
        manifest_path(extension)
    } else if present {
        extension.to_owned()
    } else {
        manifest_path(join_path("extensions", extension).as_str())
    }
}

/// What is found at a place where extension packages are looked for.
#[derive(Debug, PartialEq, Eq)]
pub struct PackagePlace {
    /// The place.
    pub path: String,
    /// Whether it holds a manifest file.
    pub is_package: bool,
    /// Whether it is a directory.
    pub is_dir: bool,
    /// The entries of the directory that hold a manifest file.
    pub packages: Vec<String>,
}

/// A place with its texts as characters.
pub struct PlaceView {
    /// The place.
    pub path: Seq<char>,
    /// Whether it holds a manifest file.
    pub is_package: bool,
    /// Whether it is a directory.
    pub is_dir: bool,
    /// The entries that hold a manifest file.
    pub packages: Seq<Seq<char>>,
}

impl View for PackagePlace {
    type V = PlaceView;

    open spec fn view(&self) -> PlaceView {
        PlaceView {
            path: self.path@,
            is_package: self.is_package,
            is_dir: self.is_dir,
            packages: views(self.packages@),
        }
    }
}

/// The packages at a place: itself, or those in it in order.
pub open spec fn packages_at(place: PlaceView) -> Seq<Seq<char>> {
    if place.is_package {
        seq![place.path]
    } else {
        in_text_order(place.packages)
    }
}

/// The packages at places, place by place, or why there are none.
pub open spec fn packages_in(places: Seq<PlaceView>) -> Result<Seq<Seq<char>>, ErrorView>
    decreases places.len(),
{
    if places.len() == 0 {
        Ok(Seq::empty())
    } else {
        match packages_in(places.drop_last()) {
            Err(error) => Err(error),
            Ok(before) => {
                let last = places.last();
                if !last.is_package && !last.is_dir {
                    Err(
                        ErrorView::InvalidField {
                            field: "extension-dir"@,
                            reason:
                                "path must be a package directory or directory containing packages"@,
                        },
                    )
                } else {
                    Ok(before + packages_at(last))
                }
            },
        }
    }
}

/// The manifest file by which a directory is told to be a package.
pub fn is_extension_package(path: &str) -> (manifest: String)
    ensures
        manifest@ == manifest_of(path@),
{
    manifest_path(path)
}

proof fn lemma_packages_fail(places: Seq<PlaceView>, at: int, error: ErrorView)
    requires
        0 <= at <= places.len(),
        packages_in(places.take(at)) == Err::<Seq<Seq<char>>, ErrorView>(error),
    ensures
        packages_in(places) == Err::<Seq<Seq<char>>, ErrorView>(error),
    decreases places.len(),
{
    if at == places.len() {
        assert(places.take(at) =~= places);
    } else {
        assert(places.drop_last().take(at) =~= places.take(at));
        lemma_packages_fail(places.drop_last(), at, error);
    }
}

/// Collect the packages at places.
pub fn extension_packages(places: &[PackagePlace]) -> (result: Result<Vec<String>, SpindleError>)
    ensures
        match result {
            Ok(packages) => packages_in(views(places@)) == Ok::<Seq<Seq<char>>, ErrorView>(
                views(packages@),
            ),
            Err(error) => packages_in(views(places@)) == Err::<Seq<Seq<char>>, ErrorView>(error@),
        },
{
    let ghost all = views(places@);
    let mut packages: Vec<String> = Vec::new();
    let mut i: usize = 0;
    assert(all.take(0) =~= Seq::empty());
    assert(views(packages@) =~= Seq::<Seq<char>>::empty());
    while i < places.len()
        invariant
            i <= places@.len(),
            all == views(places@),
            packages_in(all.take(i as int)) == Ok::<Seq<Seq<char>>, ErrorView>(
                views(packages@),
            ),
        decreases places@.len() - i,
    {
        let ghost before = views(packages@);
        assert(all.take(i + 1).drop_last() =~= all.take(i as int));
        assert(all.take(i + 1).last() == places@[i as int]@);
        if places[i].is_package {
            packages.push(places[i].path.clone());
            assert(views(packages@) =~= before + packages_at(places@[i as int]@));
        } else if !places[i].is_dir {
            let error: SpindleError = invalid_field(
                "extension-dir",
                "path must be a package directory or directory containing packages",
            );
            proof {
                lemma_packages_fail(all, i + 1, error@);
            }
            return Err(error);
        } else {
            let mut children: Vec<String> = sort_texts(places[i].packages.as_slice());
            let ghost added = views(children@);
            let ghost held = packages@;
            let ghost more = children@;
            packages.append(&mut children);
            assert(packages@ =~= held + more);
            assert(views(packages@) =~= before + added);
        }
        i = i + 1;
    }
    assert(all.take(all.len() as int) =~= all);
    Ok(packages)
}

/// A command.
#[allow(inconsistent_fields)]
#[derive(Debug, PartialEq, Eq)]
pub enum CliCommand {
    /// Prepare state before running the local spindle daemon.
    Bootstrap {
        /// Whether entrypoints are run to discover surface.
        trust_runtime: bool,
        /// Where extension packages are looked for.
        extension_dir: Vec<String>,
        /// Socket path.
        socket: Option<String>,
    },
    /// Serve requests over a Unix domain socket.
    Serve {
        /// Socket path.
        socket: Option<String>,
    },
    /// Install an extension package.
    Install {
        /// Package directory.
        package: String,
        /// Whether the entrypoint is run to discover surface.
        trust_runtime: bool,
    },
    /// Send one request to a running server.
    Send {
        /// Socket path.
        socket: Option<String>,
        /// The request as JSON.
        request: String,
    },
    /// Append an event to the local log.
    Emit {
        /// Event type.
        kind: String,
        /// Event source.
        source: String,
        /// Event subject.
        subject: Option<String>,
        /// Event payload as JSON.
        data: String,
    },
    /// Read events from the local log.
    QueryEvents {
        /// Event type to match.
        kind: Option<String>,
        /// Event source to match.
        source: Option<String>,
        /// How many of the last events are wanted.
        limit: Option<usize>,
    },
    /// Dispatch an installed action.
    Invoke {
        /// Action name.
        action: String,
        /// Logical requester.
        source: String,
        /// Action arguments as JSON.
        args: String,
    },
    /// Validate an extension manifest.
    ValidateExtension {
        /// Manifest path.
        manifest: String,
    },
    /// Show runtime-discovered extension surface without registering it.
    SurfaceExtension {
        /// Whether the entrypoint may be run.
        trust_runtime: bool,
        /// Manifest path.
        manifest: String,
    },
    /// List installed extensions.
    ListExtensions,
}

/// What is to be done for a command.
#[allow(inconsistent_fields)]
#[derive(Debug, PartialEq, Eq)]
pub enum CliPlan {
    /// Make sure that the state directory is private, remove a stale policy file,
    /// install the packages, prepare the socket, and check the routes.
    Bootstrap {
        /// A file whose directory must be private.
        probe: String,
        /// The stale policy file.
        legacy_policy: String,
        /// Where extension packages are looked for.
        extension_dir: Vec<String>,
        /// Whether entrypoints are run to discover surface.
        trust_runtime: bool,
        /// The socket.
        socket: String,
    },
    /// Serve on a socket.
    Serve {
        /// The socket.
        socket: String,
    },
    /// Install a package.
    Install {
        /// Package directory.
        package: String,
        /// Whether the entrypoint is run to discover surface.
        trust_runtime: bool,
    },
    /// Send a request.
    Send {
        /// The socket.
        socket: String,
        /// The request as JSON.
        request: String,
    },
    /// Execute a request against the local state.
    Execute {
        /// The request.
        request: HubRequest,
    },
    /// Read the log.
    Query {
        /// What to look for.
        filter: EventFilter,
    },
    /// Read and check a manifest.
    Validate {
        /// Manifest path.
        manifest: String,
    },
    /// Run the entrypoint of a manifest, and show its surface.
    Surface {
        /// Manifest path.
        manifest: String,
    },
    /// List the installed extensions.
    List,
}

/// Whether a plan is to execute the request to emit an event.
pub open spec fn emits(
    plan: CliPlan,
    kind: Seq<char>,
    source: Seq<char>,
    subject: Option<Seq<char>>,
    data: JsonView,
) -> bool {
    &&& plan matches CliPlan::Execute { request }
    &&& request matches HubRequest::Emit { kind: k, source: s, subject: t, data: d }
    &&& k@ == kind
    &&& s@ == source
    &&& optional_view(t) == subject
    &&& d@ == data
}

/// Whether a plan is to execute the request to invoke an action.
pub open spec fn invokes(
    plan: CliPlan,
    action: Seq<char>,
    source: Seq<char>,
    args: JsonView,
) -> bool {
    &&& plan matches CliPlan::Execute { request }
    &&& request matches HubRequest::Invoke { action: a, source: s, args: r }
    &&& a@ == action
    &&& s@ == source
    &&& r@ == args
}

/// The plan to emit an event, given its payload or why there is none.
pub fn emit_command(
    kind: String,
    source: String,
    subject: Option<String>,
    data: Result<Json, SpindleError>,
) -> (result: Result<CliPlan, SpindleError>)
    ensures
        match data {
            Ok(payload) => result is Ok && emits(
                result->Ok_0,
                kind@,
                source@,
                optional_view(subject),
                payload@,
            ),
            Err(error) => result == Err::<CliPlan, SpindleError>(error),
        },
{
    match data {
        Ok(payload) => Ok(
            CliPlan::Execute {
                request: HubRequest::Emit { kind, source, subject, data: payload },
            },
        ),
        Err(error) => Err(error),
    }
}

/// The plan to invoke an action, given its arguments or why there are none.
pub fn invoke_command(action: String, source: String, args: Result<Json, SpindleError>) -> (result:
    Result<CliPlan, SpindleError>)
    ensures
        match args {
            Ok(values) => result is Ok && invokes(result->Ok_0, action@, source@, values@),
            Err(error) => result == Err::<CliPlan, SpindleError>(error),
        },
{
    match args {
        Ok(values) => Ok(
            CliPlan::Execute { request: HubRequest::Invoke { action, source, args: values } },
        ),
        Err(error) => Err(error),
    }
}

/// Whether a result is what a command comes to in a state directory.
pub open spec fn comes_to(
    state_dir: Seq<char>,
    command: CliCommand,
    result: Result<CliPlan, SpindleError>,
) -> bool {
    match command {
        CliCommand::Bootstrap { trust_runtime, extension_dir, socket } => {
            &&& result matches Ok(CliPlan::Bootstrap {
                probe,
                legacy_policy,
                extension_dir: dirs,
                trust_runtime: trusted,
                socket: path,
            })
            &&& probe@ == joined(state_dir, ".bootstrap"@)
            &&& legacy_policy@ == joined(state_dir, POLICY_FILE@)
            &&& dirs == extension_dir
            &&& trusted == trust_runtime
            &&& path@ == socket_choice(state_dir, optional_view(socket))
        },
        CliCommand::Serve { socket } => {
            &&& result matches Ok(CliPlan::Serve { socket: path })
            &&& path@ == socket_choice(state_dir, optional_view(socket))
        },
        CliCommand::Install { package, trust_runtime } => result == Ok::<CliPlan, SpindleError>(
            CliPlan::Install { package, trust_runtime },
        ),
        CliCommand::Send { socket, request } => {
            &&& result matches Ok(CliPlan::Send { socket: path, request: text })
            &&& path@ == socket_choice(state_dir, optional_view(socket))
            &&& text == request
        },
        CliCommand::Emit { kind, source, subject, data } => match object_outcome(
            "data"@,
            parsed_json(data@),
        ) {
            Ok(payload) => result is Ok && emits(
                result->Ok_0,
                kind@,
                source@,
                optional_view(subject),
                payload,
            ),
            Err(error) => result is Err && result->Err_0@ == error,
        },
        CliCommand::QueryEvents { kind, source, limit } => result == Ok::<CliPlan, SpindleError>(
            CliPlan::Query { filter: EventFilter { kind, source, limit } },
        ),
        CliCommand::Invoke { action, source, args } => match object_outcome(
            "args"@,
            parsed_json(args@),
        ) {
            Ok(values) => result is Ok && invokes(result->Ok_0, action@, source@, values),
            Err(error) => result is Err && result->Err_0@ == error,
        },
        CliCommand::ValidateExtension { manifest } => result == Ok::<CliPlan, SpindleError>(
            CliPlan::Validate { manifest },
        ),
        CliCommand::SurfaceExtension { trust_runtime, manifest } => if trust_runtime {
            result == Ok::<CliPlan, SpindleError>(CliPlan::Surface { manifest })
        } else {
            result is Err && result->Err_0@ == (ErrorView::RuntimeTrustRequired {
                extension: manifest@,
            })
        },
        CliCommand::ListExtensions => result == Ok::<CliPlan, SpindleError>(CliPlan::List),
    }
}

/// What a command comes to in a state directory.
pub fn run_cli(state_dir: &str, command: CliCommand) -> (result: Result<CliPlan, SpindleError>)
    ensures
        comes_to(state_dir@, command, result),
{
    match command {
        CliCommand::Bootstrap { trust_runtime, extension_dir, socket } => Ok(
            CliPlan::Bootstrap {
                probe: join_path(state_dir, ".bootstrap"),
                legacy_policy: join_path(state_dir, POLICY_FILE),
                extension_dir,
                trust_runtime,
                socket: resolve_socket_path(state_dir, socket),
            },
        ),
        CliCommand::Serve { socket } => Ok(
            CliPlan::Serve { socket: resolve_socket_path(state_dir, socket) },
        ),
        CliCommand::Install { package, trust_runtime } => Ok(
            CliPlan::Install { package, trust_runtime },
        ),
        CliCommand::Send { socket, request } => Ok(
            CliPlan::Send { socket: resolve_socket_path(state_dir, socket), request },
        ),
        CliCommand::Emit { kind, source, subject, data } => {
            let payload: Result<Json, SpindleError> = parse_json_object("data", data.as_str());
            emit_command(kind, source, subject, payload)
        },
        CliCommand::QueryEvents { kind, source, limit } => Ok(
            CliPlan::Query { filter: EventFilter { kind, source, limit } },
        ),
        CliCommand::Invoke { action, source, args } => {
            let values: Result<Json, SpindleError> = parse_json_object("args", args.as_str());
            invoke_command(action, source, values)
        },
        CliCommand::ValidateExtension { manifest } => Ok(CliPlan::Validate { manifest }),
        CliCommand::SurfaceExtension { trust_runtime, manifest } => if trust_runtime {
            Ok(CliPlan::Surface { manifest })
        } else {
            Err(SpindleError::RuntimeTrustRequired { extension: manifest })
        },
        CliCommand::ListExtensions => Ok(CliPlan::List),
    }
}

/// A command to emit comes to the request to emit just that event, with the object
/// that its data holds.
pub proof fn law_emit_command_requests_the_event(
    state_dir: Seq<char>,
    kind: String,
    source: String,
    subject: Option<String>,
    data: String,
    result: Result<CliPlan, SpindleError>,
)
    requires
        comes_to(state_dir, CliCommand::Emit { kind, source, subject, data }, result),
    ensures
        result is Ok <==> parsed_json(data@) is Ok && parsed_json(data@)->Ok_0 is Object,
        result matches Ok(plan) ==> {
            &&& plan matches CliPlan::Execute {
                request: HubRequest::Emit { kind: k, source: s, subject: t, data: d },
            }
            &&& k@ == kind@
            &&& s@ == source@
            &&& subject matches Some(text) ==> t is Some && t->0@ == text@
            &&& subject is None ==> t is None
            &&& d@ == parsed_json(data@)->Ok_0
        },
{
    law_only_objects_are_read("data"@, parsed_json(data@));
}

/// A command to invoke comes to the request to invoke just that action, with the
/// object that its arguments hold.
pub proof fn law_invoke_command_requests_the_action(
    state_dir: Seq<char>,
    action: String,
    source: String,
    args: String,
    result: Result<CliPlan, SpindleError>,
)
    requires
        comes_to(state_dir, CliCommand::Invoke { action, source, args }, result),
    ensures
        result is Ok <==> parsed_json(args@) is Ok && parsed_json(args@)->Ok_0 is Object,
        result matches Ok(plan) ==> {
            &&& plan matches CliPlan::Execute {
                request: HubRequest::Invoke { action: a, source: s, args: r },
            }
            &&& a@ == action@
            &&& s@ == source@
            &&& r@ == parsed_json(args@)->Ok_0
        },
{
    law_only_objects_are_read("args"@, parsed_json(args@));
}

/// A query command reads the log with the type, the source and the limit that it
/// names.
pub proof fn law_query_command_asks_for_what_it_names(
    state_dir: Seq<char>,
    kind: Option<String>,
    source: Option<String>,
    limit: Option<usize>,
    result: Result<CliPlan, SpindleError>,
    event: EventView,
)
    requires
        comes_to(state_dir, CliCommand::QueryEvents { kind, source, limit }, result),
    ensures
        result matches Ok(CliPlan::Query { filter }) && filter.limit == limit && (filter.selects(
            event,
        ) <==> {
            &&& kind matches Some(wanted) ==> event.kind == wanted@
            &&& source matches Some(wanted) ==> event.source == wanted@
        }),
{
}

/// Commands about packages and manifests name them to what carries them out, and no
/// entrypoint is run that the command does not trust.
pub proof fn law_extension_commands_name_their_subject(
    state_dir: Seq<char>,
    command: CliCommand,
    result: Result<CliPlan, SpindleError>,
)
    requires
        comes_to(state_dir, command, result),
    ensures
        command matches CliCommand::Install { package, trust_runtime } ==> result matches Ok(
            CliPlan::Install { package: path, trust_runtime: trusted },
        ) && path@ == package@ && trusted == trust_runtime,
        command matches CliCommand::ValidateExtension { manifest } ==> result matches Ok(
            CliPlan::Validate { manifest: path },
        ) && path@ == manifest@,
        command matches CliCommand::SurfaceExtension { trust_runtime, manifest } ==> (if trust_runtime {
            result matches Ok(CliPlan::Surface { manifest: path }) && path@ == manifest@
        } else {
            result matches Err(error) && error@ == (ErrorView::RuntimeTrustRequired {
                extension: manifest@,
            })
        }),
        command is ListExtensions ==> result matches Ok(CliPlan::List),
        command matches CliCommand::Bootstrap { trust_runtime, extension_dir, socket } ==> result
            matches Ok(
            CliPlan::Bootstrap {
                probe,
                legacy_policy,
                extension_dir: dirs,
                trust_runtime: trusted,
                socket: path,
            },
        ) && dirs == extension_dir && trusted == trust_runtime && probe@ == joined(
            state_dir,
            ".bootstrap"@,
        ) && legacy_policy@ == joined(state_dir, "capabilities.json"@) && (socket is Some
            ==> path@ == socket->0@) && (socket is None ==> path@ == joined(
            state_dir,
            "spindle.sock"@,
        )),
{
}

/// The commands that talk over a socket use the one that they name, or the one in the
/// state directory; a request is sent as it was given.
pub proof fn law_socket_commands_use_their_socket(
    state_dir: Seq<char>,
    socket: Option<String>,
    request: String,
    served: Result<CliPlan, SpindleError>,
    sent: Result<CliPlan, SpindleError>,
)
    requires
        comes_to(state_dir, CliCommand::Serve { socket }, served),
        comes_to(state_dir, CliCommand::Send { socket, request }, sent),
    ensures
        served matches Ok(CliPlan::Serve { socket: path }) && (socket is Some ==> path@
            == socket->0@) && (socket is None ==> path@ == joined(state_dir, "spindle.sock"@)),
        sent matches Ok(CliPlan::Send { socket: path, request: text }) && text@ == request@ && (
        socket is Some ==> path@ == socket->0@) && (socket is None ==> path@ == joined(
            state_dir,
            "spindle.sock"@,
        )),
{
}

/// The state directory is the one that is asked for; else the one that is configured;
/// else the usual one below the home directory; without any of them there is none.
pub proof fn law_state_directory_is_chosen_in_order(
    explicit: Option<Seq<char>>,
    configured: Option<Seq<char>>,
    home: Option<Seq<char>>,
)
    ensures
        explicit matches Some(path) ==> state_dir_choice(explicit, configured, home) == Ok::<
            Seq<char>,
            ErrorView,
        >(path),
        explicit is None && configured is Some ==> state_dir_choice(explicit, configured, home)
            == Ok::<Seq<char>, ErrorView>(configured->0),
        explicit is None && configured is None && home is Some ==> state_dir_choice(
            explicit,
            configured,
            home,
        ) == Ok::<Seq<char>, ErrorView>(
            joined(joined(joined(home->0, ".local"@), "state"@), "spindle"@),
        ),
        explicit is None && configured is None && home is None ==> state_dir_choice(
            explicit,
            configured,
            home,
        ) == Err::<Seq<char>, ErrorView>(ErrorView::MissingHome),
{
}

/// Packages are looked for in each place in turn: the packages of some places and of
/// others behind them are those of the first and then those of the others.
pub proof fn law_packages_come_place_by_place(first: Seq<PlaceView>, second: Seq<PlaceView>)
    ensures
        packages_in(first + second) == match packages_in(first) {
            Err(error) => Err(error),
            Ok(before) => match packages_in(second) {
                Err(error) => Err(error),
                Ok(behind) => Ok(before + behind),
            },
        },
    decreases second.len(),
{
    if second.len() == 0 {
        assert(first + second =~= first);
        if let Ok(before) = packages_in(first) {
            assert(before + Seq::empty() =~= before);
        }
    } else {
        let front = second.drop_last();
        law_packages_come_place_by_place(first, front);
        assert((first + second).drop_last() =~= first + front);
        assert((first + second).last() == second.last());
        if packages_in(first) is Ok && packages_in(front) is Ok {
            let before = packages_in(first)->Ok_0;
            let behind = packages_in(front)->Ok_0;
            let at = packages_at(second.last());
            assert((before + behind) + at =~= before + (behind + at));
        }
    }
}

/// A place that is a package gives just itself; another directory gives the packages
/// in it, each of them, in text order; anything else is refused.
pub proof fn law_place_gives_its_packages(place: PlaceView)
    ensures
        place.is_package ==> packages_in(seq![place]) == Ok::<Seq<Seq<char>>, ErrorView>(
            seq![place.path],
        ),
        !place.is_package && place.is_dir ==> (packages_in(seq![place]) matches Ok(packages)
            && packages.to_multiset() =~= place.packages.to_multiset() && forall|i: int, j: int|
            0 <= i < j < packages.len() ==> !less_text(
                #[trigger] packages[j],
                #[trigger] packages[i],
            )),
        !place.is_package && !place.is_dir ==> packages_in(seq![place]) is Err,
{
    assert(seq![place].drop_last() =~= Seq::empty());
    assert(packages_in(Seq::<PlaceView>::empty()) == Ok::<Seq<Seq<char>>, ErrorView>(
        Seq::empty(),
    ));
    assert(Seq::empty() + packages_at(place) =~= packages_at(place));
    law_in_text_order(place.packages);
}

} // verus!
