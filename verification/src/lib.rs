//! Language intelligence for grug scripts: a document model over a concrete
//! syntax tree, scope resolution, position lookup, the mod API schema, and the
//! hover, completion, definition and rename queries built on them.

pub mod navigate;
pub mod parsing;
pub mod rpc;
pub mod server;
pub mod syntax;
pub mod text;
