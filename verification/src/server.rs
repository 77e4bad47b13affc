//! Preparing the socket of the server.
use vstd::prelude::*;

use crate::error::{invalid_field, ErrorView, SpindleError};
use crate::paths::{parent_of, parent_path};

verus! {

/// How long a connection may stay silent.
pub const DEFAULT_STREAM_READ_IDLE_TIMEOUT_MS: u64 = 5000;

/// The directory of a socket, or why the socket has none.
pub open spec fn socket_dir_outcome(path: Seq<char>) -> Result<Seq<char>, ErrorView> {
    match parent_of(path) {
        Some(parent) => if parent.len() > 0 {
            Ok(parent)
        } else {
            Err(
                ErrorView::InvalidField {
                    field: "socket"@,
                    reason: "socket path must have a parent directory"@,
                },
            )
        },
        None => Err(
            ErrorView::InvalidField {
                field: "socket"@,
                reason: "socket path must have a parent directory"@,
            },
        ),
    }
}

/// The directory of a socket.
pub fn socket_directory(socket_path: &str) -> (result: Result<String, SpindleError>)
    ensures
        match result {
            Ok(directory) => socket_dir_outcome(socket_path@) == Ok::<Seq<char>, ErrorView>(
                directory@,
            ),
            Err(error) => socket_dir_outcome(socket_path@) == Err::<Seq<char>, ErrorView>(error@),
        },
{
    match parent_path(socket_path) {
        Some(parent) => if parent.as_str().unicode_len() > 0 {
            Ok(parent)
        } else {
            Err(invalid_field("socket", "socket path must have a parent directory"))
        },
        None => Err(invalid_field("socket", "socket path must have a parent directory")),
    }
}

/// What is found at the path of a socket.
#[derive(Debug, Clone, Copy, PartialEq, Eq)]
pub struct SocketFacts {
    /// Something is there.
    pub exists: bool,
    /// It is a socket.
    pub is_socket: bool,
    /// A server answers on it.
    pub is_live: bool,
}

/// Whether the socket file of a server that is gone must be removed, or why the
/// path cannot be used.
pub open spec fn socket_outcome(path: Seq<char>, facts: SocketFacts) -> Result<bool, ErrorView> {
    if !facts.exists {
        Ok(false)
    } else if !facts.is_socket {
        Err(
            ErrorView::InvalidField {
                field: "socket"@,
                reason: "path already exists and is not a socket"@,
            },
        )
    } else if facts.is_live {
        Err(ErrorView::SocketInUse { path })
    } else {
        Ok(true)
    }
}

/// Decide whether a socket file must be removed before a server binds its path.
pub fn prepare_socket(socket_path: &str, facts: SocketFacts) -> (result: Result<
    bool,
    SpindleError,
>)
    ensures
        match result {
            Ok(remove) => socket_outcome(socket_path@, facts) == Ok::<bool, ErrorView>(remove),
            Err(error) => socket_outcome(socket_path@, facts) == Err::<bool, ErrorView>(error@),
        },
{
    if !facts.exists {
        return Ok(false);
    }
    if !facts.is_socket {
        return Err(invalid_field("socket", "path already exists and is not a socket"));
    }
    if facts.is_live {
        return Err(SpindleError::SocketInUse { path: socket_path.to_owned() });
    }
    Ok(true)
}

/// A socket path is free exactly where nothing is there, or a socket that nobody
/// serves, which is removed; a socket that is served is named as in use.
pub proof fn law_socket_path_is_free(path: Seq<char>, facts: SocketFacts)
    ensures
        socket_outcome(path, facts) is Ok <==> !facts.exists || (facts.is_socket
            && !facts.is_live),
        socket_outcome(path, facts) matches Ok(remove) ==> remove == facts.exists,
        facts.exists && facts.is_socket && facts.is_live ==> socket_outcome(path, facts) == Err::<
            bool,
            ErrorView,
        >(ErrorView::SocketInUse { path }),
{
}

/// A socket needs a directory above it that has a name.
pub proof fn law_socket_has_a_directory(path: Seq<char>)
    ensures
        socket_dir_outcome(path) is Ok <==> parent_of(path) is Some && parent_of(path)->0.len() > 0,
        socket_dir_outcome(path) matches Ok(directory) ==> parent_of(path) == Some(directory),
{
}

} // verus!
