//! Spindle: the rules of a small local automation kernel.
//!
//! Events are stored, routed to actions that extensions expose, and the events
//! those actions produce are routed again. This crate holds the decisions:
//! which names are valid, which extension owns what, which action may run with
//! which capabilities, and what a request asks for. Reading files, starting
//! processes and listening on sockets is left to the program around it.
pub mod authority;
pub mod causes;
pub mod cli;
pub mod context;
pub mod contention;
pub mod continuation;
pub mod depth_first;
pub mod dispatch;
pub mod error;
pub mod event;
pub mod handler;
pub mod host;
pub mod identity;
pub mod install;
pub mod installed;
pub mod json;
pub mod lock;
pub mod manifest;
pub mod name_map;
pub mod paths;
pub mod policy;
pub mod protocol;
pub mod registered;
pub mod registration;
pub mod registry;
pub mod routes;
pub mod runtime;
pub mod server;
pub mod stage;
pub mod store;
pub mod surface;
pub mod test_host;
pub mod text;
pub mod text_set;
pub mod validate;
pub mod visible;

pub use text::{
    chars_of, contains_text, owned_texts, position_of_text, same_text, text_is_blank, text_less,
};
pub use paths::{
    join_path, normalize_path, parent_path, path_components, path_file_name, path_with_extension,
    path_with_name, render_path, resolve_manifest_path, should_preserve_parent_dir, PathPart,
};
pub use name_map::NameMap;
pub use error::{decimal_text, invalid_field, join_lines, IoKind, SpindleError};
pub use validate::{
    has_duplicates, validate_disjoint_values, validate_name, validate_names,
    validate_non_empty_text, validate_path_string, validate_subject, validate_token,
    validate_unique_values,
};
pub use json::{
    empty_object, merge_args, object_from, parse_json_object, same_json, same_number,
    validate_json_object, Json, JsonNumber,
};
pub use registration::{
    extend_unique, push_unique, route_with_action_capabilities, ExtensionRegistration,
    RegistrationAction, RegistrationRoute,
};
pub use context::{
    ActionContext, ActionDescriptor, ActionInvocation, ActionOutput, ActionOutputEvent,
    ContinuationContext, EventContext, EventDescriptor, ExtensionContext,
};
pub use event::{
    json_of_texts, ActionRequest, ContinuationAudit, Event, EventBuilder, EventFilter,
};
pub use identity::{now_unix_ms, timeout_millis};
pub use manifest::{
    contains_route, copy_actions, same_route, same_texts, ExtensionAction, ExtensionManifest,
    ExtensionRoute, ExtensionRuntime,
};
pub use text_set::{insert_text, insert_texts, sort_texts};
pub use registered::{
    extension_execution_path, resolve_package_binary, sha256_file, verify_runtime_trust,
    RegisteredExtension, RegisteredRuntimeTrust, RuntimeTrustSnapshot,
};
pub use surface::{action_names, ensure_surface_ownership, event_list, event_surface};
pub use registry::{
    ensure_static_surface, record_extension, record_staged_extension, sort_by_id, state_dir_of,
    temporary_registry_path, ExtensionRegistry,
};
pub use stage::{
    ensure_entrypoint_ready, manifest_path, plan_staging, resolve_source_package,
    staged_package_root, FileCopy, SourceFacts, StagedPackage, StagingPlan, MANIFEST_FILE,
};
pub use store::{
    ensure_private_existing_dir, ensure_private_parent, ensure_private_state_parent,
    registry_for_log, select_events, state_dir_for_log, EventLog, ParentStep, TailEvents,
};
pub use lock::{
    lock_timeout_error, lock_token, lock_token_matches, malformed_lock_is_stale, may_remove_lock,
    parse_lock, parse_u32, read_lock, read_lock_owner, remove_recoverable_lock,
    sidecar_lock_path, text_starts_with, LockFileIdentity, LockOwner, LockRead, LockRecovery,
    SidecarLock, DEFAULT_TIMEOUT_MS, MALFORMED_STALE_AFTER_MS, POLL_INTERVAL_MS,
};
pub use contention::{after_contention, LockStep};
pub use protocol::{
    decode_jsonl_line, line_read_cap, read_limited_jsonl_line, stream_step, HubRequest,
    HubResponse, StreamStep, DEFAULT_JSONL_MESSAGE_LIMIT,
};
pub use server::{
    prepare_socket, socket_directory, SocketFacts, DEFAULT_STREAM_READ_IDLE_TIMEOUT_MS,
};
pub use policy::{
    ensure_grants, is_allowed, validate_policy_map, CapabilityList, CapabilityPolicy, POLICY_FILE,
    WILDCARD,
};
pub use routes::{
    find_extension, validate_extension_routes, validate_installed_registry, validate_registry,
};
pub use continuation::{
    ContinuationConfig, ContinuationGrant, ContinuationGrantRequest, ContinuationStore,
    DEFAULT_CONTINUATION_TTL_MS,
};
pub use visible::ExtensionVisibleContext;
pub use installed::{
    action_owners, event_routes, InstalledSurface, RouteHandler, RouteHandlers,
};
pub use dispatch::{
    action_output_event_to_event, ensure_capabilities, ensure_produced_event, DispatchReport,
    DispatchRun, DispatchStep, DispatchTask, Dispatcher, PlannedAction, MAX_DISPATCH_DEPTH,
};
pub use handler::{
    continuation_emit, continuation_emit_with, continuation_invoke, dispatch_answer,
    ensure_continuation_emit_allowed, execute_request, execute_request_with_continuations,
    plan_request, plan_request_with_continuations, request_needs_time, RequestPlan,
};
pub use host::{
    is_blank_line, route_action, serve_stdio_jsonl, ActionRouterError, ExtensionSdkError, HostInput,
    HostRequest, HostResponse, HostStep,
};
pub use runtime::{
    action_response, host_result, invoke_response_breaks_session, registration_response,
    response_breaks_session, shutdown_response, trusted_entrypoint, unexpected_host_response,
    wait_for_child_exit_or_kill, ExitStep, ExtensionRuntimeHost, HostReply, InvokeOutcome,
    InvokeStep, StdioSessionKey, DEFAULT_HOST_REQUEST_TIMEOUT_MS, EXIT_POLL_INTERVAL_MS,
};
pub use test_host::{
    apply_failure, config_candidates, config_path_for_executable, counting_output,
    handle_register_request, invalid_config_message, line_kind, marker_output,
    missing_config_message, oversized_bytes, rule_matches, select_effect, text_holds,
    unexpected_request, CountEventTemplate, EffectAnswer, EffectPlan, FailResponse, FailStep,
    HostState, InvokeEffect, InvokeRule, LineKind, RegisterResponse, RegisterStep,
    ResponseTemplate, ShutdownResponse, StartupAction, TestHostConfig, DEFAULT_OVERSIZED_BYTES,
};
pub use cli::{
    emit_command, extension_packages, invoke_command, is_extension_package,
    resolve_install_manifest, resolve_socket_path, resolve_state_dir, run_cli, CliCommand, CliPlan,
    PackagePlace,
};
pub use install::{install_manifest, install_manifest_with_runtime, Installation};
