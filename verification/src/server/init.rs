//! Starting up: where the workspace is, and why a start can fail.

use crate::server::mod_api::ModApi;
use crate::server::{schema_uri_of, Server};
use crate::text::{concat2, strip_prefix_of, without_prefix};
use vstd::prelude::*;
use vstd::string::StringExecFns;

verus! {

/// Why the server could not start.
#[derive(Debug)]
pub enum ServerInitError {
    NoRootPath,
    RootPathParseError,
    NoModApi,
    InitParseError(String),
    ModApiIOError(String),
    ModApiParseError(String),
}

/// What became of reading the schema file.
#[derive(Debug)]
pub enum SchemaSource {
    /// The file was read and gave a schema.
    Loaded(ModApi),
    /// The file was read and gave no schema.
    Unparsable,
    /// The file could not be read; the reason is given.
    Unreadable(String),
}

/// The root of the workspace: the name of the first workspace folder, or
/// else the path of the root URI, which must be a `file://` URI.
pub open spec fn root_path_of(first_folder: Option<Seq<char>>, root_uri: Option<Seq<char>>) -> Option<
    Seq<char>,
> {
    match first_folder {
        Some(name) => Some(name),
        None => match root_uri {
            Some(uri) => without_prefix(uri, "file://"@),
            None => None,
        },
    }
}

/// Finds the root of the workspace.
pub fn root_path(first_folder: Option<String>, root_uri: Option<String>) -> (r: Result<
    String,
    ServerInitError,
>)
    ensures
        match r {
            Ok(path) => root_path_of(
                crate::syntax::opt_text(first_folder),
                crate::syntax::opt_text(root_uri),
            ) == Some(path@),
            Err(ServerInitError::NoRootPath) => first_folder is None && root_uri is None,
            Err(ServerInitError::RootPathParseError) => first_folder is None && root_uri is Some
                && without_prefix(root_uri->0@, "file://"@) is None,
            Err(_) => false,
        },
{
    match first_folder {
        Some(name) => Ok(name),
        None => match root_uri {
            Some(uri) => match strip_prefix_of(uri.as_str(), "file://") {
                Some(path) => Ok(path),
                None => Err(ServerInitError::RootPathParseError),
            },
            None => Err(ServerInitError::NoRootPath),
        },
    }
}

impl Server {
    /// Starts a server on the schema read from the workspace. A schema file
    /// that could not be read or gave no schema stops the start.
    pub fn from_request(root_path: String, schema: SchemaSource) -> (r: Result<
        Server,
        ServerInitError,
    >)
        requires
            schema matches SchemaSource::Loaded(api) ==> api.wf(),
        ensures
            match schema {
                SchemaSource::Loaded(api) => r matches Ok(server) && server.wf()
                    && !server.should_exit && server.mod_api == api && server.root_path
                    == root_path && server.schema_uri@ == schema_uri_of(root_path@)
                    && server.document_map@ == Map::<Seq<char>, crate::server::document::Document>::empty(),
                SchemaSource::Unparsable => r matches Err(ServerInitError::ModApiParseError(m))
                    && m@ == "At "@ + root_path@ + ": no schema in mod_api.json"@,
                SchemaSource::Unreadable(reason) => r matches Err(ServerInitError::ModApiIOError(m))
                    && m@ == "At "@ + root_path@ + ": "@ + reason@,
            },
    {
        match schema {
            SchemaSource::Loaded(api) => Ok(Server::new(root_path, api)),
            SchemaSource::Unparsable => {
                let mut message = concat2("At ", root_path.as_str());
                message.append(": no schema in mod_api.json");
                Err(ServerInitError::ModApiParseError(message))
            },
            SchemaSource::Unreadable(reason) => {
                let mut message = concat2("At ", root_path.as_str());
                message.append(": ");
                message.append(reason.as_str());
                Err(ServerInitError::ModApiIOError(message))
            },
        }
    }
}

/// Where a server stands in its life: not started yet, running, or shut
/// down.
pub enum ServerState {
    Inactive,
    Active(Server),
    Shutdown,
}

/// Why a step in the life of a server was refused.
#[derive(Clone, Copy, Debug, PartialEq, Eq, Structural)]
pub enum TransitionError {
    /// The server is running already.
    AlreadyActive,
    /// The server is not running.
    NotActive,
    /// The server was shut down.
    AlreadyShutdown,
}

impl ServerState {
    /// A server that was not started yet.
    pub fn new() -> (s: ServerState)
        ensures
            s is Inactive,
    {
        ServerState::Inactive
    }

    /// Starts a server that was not started yet. A server that runs or was
    /// shut down refuses, and stays as it is.
    pub fn activate(&mut self, server: Server) -> (r: Result<(), TransitionError>)
        ensures
            match *old(self) {
                ServerState::Inactive => r is Ok && *final(self) == ServerState::Active(server),
                ServerState::Active(_) => r == Err::<(), TransitionError>(
                    TransitionError::AlreadyActive,
                ) && *final(self) == *old(self),
                ServerState::Shutdown => r == Err::<(), TransitionError>(
                    TransitionError::AlreadyShutdown,
                ) && *final(self) == *old(self),
            },
    {
        match self {
            ServerState::Inactive => {
                *self = ServerState::Active(server);
                Ok(())
            },
            ServerState::Active(_) => Err(TransitionError::AlreadyActive),
            ServerState::Shutdown => Err(TransitionError::AlreadyShutdown),
        }
    }

    /// Shuts a running server down. A server that does not run refuses, and
    /// stays as it is.
    pub fn shutdown(&mut self) -> (r: Result<(), TransitionError>)
        ensures
            match *old(self) {
                ServerState::Active(_) => r is Ok && *final(self) is Shutdown,
                ServerState::Inactive => r == Err::<(), TransitionError>(
                    TransitionError::NotActive,
                ) && *final(self) == *old(self),
                ServerState::Shutdown => r == Err::<(), TransitionError>(
                    TransitionError::AlreadyShutdown,
                ) && *final(self) == *old(self),
            },
    {
        match self {
            ServerState::Active(_) => {
                *self = ServerState::Shutdown;
                Ok(())
            },
            ServerState::Inactive => Err(TransitionError::NotActive),
            ServerState::Shutdown => Err(TransitionError::AlreadyShutdown),
        }
    }
}

} // verus!
