//! The wire methods of the backend's protocol.

use vstd::prelude::*;

verus! {

pub const INITIALIZE: &'static str = "initialize";

pub const INITIALIZED: &'static str = "initialized";

pub const SHUTDOWN: &'static str = "shutdown";

pub const EXIT: &'static str = "exit";

pub const CONFIGURATION: &'static str = "workspace/configuration";

pub const DID_CHANGE_WATCHED_FILES: &'static str = "workspace/didChangeWatchedFiles";

pub const REGISTER_CAPABILITY: &'static str = "client/registerCapability";

pub const UNREGISTER_CAPABILITY: &'static str = "client/unregisterCapability";

pub const PROTOCOL_VERSION: &'static str = "typeServer/getSupportedProtocolVersion";

pub const SNAPSHOT: &'static str = "typeServer/getSnapshot";

pub const SNAPSHOT_CHANGED: &'static str = "typeServer/snapshotChanged";

pub const RESOLVE_IMPORT: &'static str = "typeServer/resolveImport";

pub const SEARCH_PATHS: &'static str = "typeServer/getPythonSearchPaths";

pub const DECLARED_TYPE: &'static str = "typeServer/getDeclaredType";

pub const COMPUTED_TYPE: &'static str = "typeServer/getComputedType";

pub const EXPECTED_TYPE: &'static str = "typeServer/getExpectedType";

pub const DEFINITION: &'static str = "textDocument/definition";

pub const DECLARATION: &'static str = "textDocument/declaration";

pub const TYPE_DEFINITION: &'static str = "textDocument/typeDefinition";

pub const REFERENCES: &'static str = "textDocument/references";

pub const PREPARE_CALL_HIERARCHY: &'static str = "textDocument/prepareCallHierarchy";

pub const INCOMING_CALLS: &'static str = "callHierarchy/incomingCalls";

/// Never sent. Named so that "filesystem truth, no editor overlay" can be
/// checked rather than only documented.
pub const DID_OPEN: &'static str = "textDocument/didOpen";

/// Never sent. See [`DID_OPEN`].
pub const DID_CHANGE: &'static str = "textDocument/didChange";

} // verus!
