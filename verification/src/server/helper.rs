//! The watcher of the schema file: what it does on an event, and what it
//! sends to the server.

use crate::server::mod_api::ModApi;
use vstd::prelude::*;

verus! {

/// What the watcher sends to the server.
#[derive(Debug)]
pub enum ServerUpdate {
    ModApiChange(ModApi),
}

/// What the file system reports of the schema file.
#[derive(Clone, Copy, Debug, PartialEq, Eq, Structural)]
pub enum WatchEvent {
    /// The file was read; nothing changed.
    Access,
    /// The file was created, changed or removed.
    Change,
    /// The watch itself failed.
    Failure,
}

/// What the watcher does next.
#[derive(Clone, Copy, Debug, PartialEq, Eq, Structural)]
pub enum WorkerAction {
    /// Nothing.
    Ignore,
    /// Report the failure and go on.
    Warn,
    /// Read the schema file again.
    Reload,
}

/// The watcher's rule: a change makes it read the file again, and a mere
/// access does not.
pub open spec fn action_on(event: Option<WatchEvent>) -> WorkerAction {
    match event {
        Some(WatchEvent::Change) => WorkerAction::Reload,
        Some(WatchEvent::Failure) => WorkerAction::Warn,
        Some(WatchEvent::Access) => WorkerAction::Ignore,
        None => WorkerAction::Ignore,
    }
}

/// The state of the watcher: the path of the file it watches.
#[derive(Debug)]
pub struct ServerWorker {
    pub mod_api_path: String,
}

impl ServerWorker {
    /// A watcher of the file at the path.
    pub fn new(mod_api_path: String) -> (w: ServerWorker)
        ensures
            w.mod_api_path == mod_api_path,
    {
        ServerWorker { mod_api_path }
    }

    /// Decides what to do on an event, if there is one.
    pub fn update(&self, event: Option<WatchEvent>) -> (a: WorkerAction)
        ensures
            a == action_on(event),
    {
        match event {
            Some(WatchEvent::Change) => WorkerAction::Reload,
            Some(WatchEvent::Failure) => WorkerAction::Warn,
            Some(WatchEvent::Access) => WorkerAction::Ignore,
            None => WorkerAction::Ignore,
        }
    }

    /// What to send to the server after the file was read again: the new
    /// schema, if the file gave one. A file that gave none changes nothing.
    pub fn reloaded(&self, schema: Option<ModApi>) -> (u: Option<ServerUpdate>)
        ensures
            u == match schema {
                Some(api) => Some(ServerUpdate::ModApiChange(api)),
                None => None,
            },
    {
        match schema {
            Some(api) => Some(ServerUpdate::ModApiChange(api)),
            None => None,
        }
    }
}

} // verus!
