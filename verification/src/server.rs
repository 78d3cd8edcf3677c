//! The queries an editor asks, and the documents and schema they run on.

pub mod completion;
pub mod document;
pub mod edit_laws;
pub mod formatting;
pub mod goto_definition;
pub mod helper;
pub mod hover;
pub mod hover_laws;
pub mod init;
pub mod locate_laws;
pub mod mod_api;
pub mod name_map;
pub mod rename;
pub mod rename_laws;
pub mod rename_order_laws;
pub mod scope_laws;
pub mod utils;

use crate::parsing::parsed_nodes;
use crate::server::completion::{
    completion_at, completion_of, completion_views, general_completion, get_completion,
    opt_completion, CompletionItem, CompletionView,
};
use crate::server::document::{entity_type_of, holds_document, Document};
use crate::server::formatting::{
    answer_of, formatting_answer, formatting_at, FormatError, FormattingAnswer,
};
use crate::server::goto_definition::{
    defined_node, definition_at, definition_of, opt_link, LinkView, LocationLink,
};
use crate::server::helper::ServerUpdate;
use crate::server::hover::{hover_answer, hover_at, opt_answer, Hover, HoverAnswer};
use crate::server::mod_api::ModApi;
use crate::server::rename::{
    opt_workspace_edit, rename_answer, rename_at, TextEdit, WorkspaceEdit, WorkspaceEditView,
};
use crate::server::utils::{point_of, Position};
use crate::syntax::RawNodeView;
use crate::text::{last_segment, last_segment_of, strip_prefix_of, without_prefix};
use vstd::hash_map::StringHashMap;
use vstd::prelude::*;
use vstd::slice::slice_to_vec;
use vstd::utf8::encode_utf8;

verus! {

/// A file or a directory of the workspace.
#[derive(Debug)]
pub enum ServerFileElement {
    File(String),
    Directory(String, Vec<ServerFileElement>),
}

/// The state of a running server: the schema and the open documents, each
/// under its path.
pub struct Server {
    pub should_exit: bool,
    pub root_path: String,
    /// Where the schema file is, as a URI.
    pub schema_uri: String,
    pub mod_api: ModApi,
    pub document_map: StringHashMap<Document>,
}

/// The path that a document's URI names. Only `file://` URIs name one.
pub open spec fn uri_path(uri: Seq<char>) -> Option<Seq<char>> {
    without_prefix(uri, "file://"@)
}

/// The name of the file at a path: what follows the last `/`.
pub open spec fn file_name(path: Seq<char>) -> Seq<char> {
    last_segment(path, '/')
}

/// The path of the schema file of a workspace: `mod_api.json` under the
/// root, set off by a `/` unless the root is empty or ends in one.
pub open spec fn schema_path(root: Seq<char>) -> Seq<char> {
    if root.len() == 0 || root[root.len() - 1] == '/' {
        root + "mod_api.json"@
    } else {
        root + "/"@ + "mod_api.json"@
    }
}

/// The URI of the schema file of a workspace.
pub open spec fn schema_uri_of(root: Seq<char>) -> Seq<char> {
    "file://"@ + schema_path(root)
}

/// Makes the URI of the schema file of the workspace at `root_path`.
pub fn schema_uri(root_path: &str) -> (uri: String)
    ensures
        uri@ == schema_uri_of(root_path@),
{
    let n = root_path.unicode_len();
    let mut uri = crate::text::concat2("file://", root_path);
    if n > 0 && root_path.get_char(n - 1) != '/' {
        uri.append("/");
    }
    uri.append("mod_api.json");
    assert(uri@ =~= schema_uri_of(root_path@));
    uri
}

/// Every open document is well formed.
pub open spec fn documents_wf(documents: Map<Seq<char>, Document>) -> bool {
    forall|path: Seq<char>| #[trigger] documents.contains_key(path) ==> documents[path].wf()
}

/// What became of a document that the editor sent.
#[derive(Clone, Copy, Debug, PartialEq, Eq, Structural)]
pub enum SyncOutcome {
    /// The document was parsed and stored.
    Stored,
    /// The document is open already; it was left as it is.
    AlreadyOpen,
    /// No document is open under the path.
    NotOpen,
    /// The text gave no document: the parser gave no tree, or the name of
    /// the file does not end in `.grug`.
    NoDocument,
    /// The URI is no `file://` URI.
    BadUri,
}

/// The document of a text, as it is stored: it is well formed, its content
/// is the text, its entity type is the one that the name of its file gives,
/// and its tree is the tree of the nodes parsed from the text.
pub open spec fn is_document_of(
    document: Document,
    nodes: Seq<RawNodeView>,
    text: Seq<char>,
    path: Seq<char>,
) -> bool {
    &&& document.wf()
    &&& document.content@ == encode_utf8(text)
    &&& Some(document.entity_type@) == entity_type_of(file_name(path))
    &&& document.tree.mirrors(nodes)
}

/// Whether a text under a path gives a document, where `parsed` is what the
/// parser makes of the text.
pub open spec fn gives_document(parsed: Option<Seq<RawNodeView>>, text: Seq<char>, path: Seq<char>) -> bool {
    match parsed {
        Some(nodes) => holds_document(nodes, encode_utf8(text), file_name(path)),
        None => false,
    }
}

/// What becomes of a document that the editor opens under a URI, where
/// `parsed` is what the parser makes of its text.
pub open spec fn open_outcome(
    before: Map<Seq<char>, Document>,
    uri: Seq<char>,
    text: Seq<char>,
    parsed: Option<Seq<RawNodeView>>,
) -> SyncOutcome {
    match uri_path(uri) {
        None => SyncOutcome::BadUri,
        Some(path) => if before.contains_key(path) {
            SyncOutcome::AlreadyOpen
        } else if gives_document(parsed, text, path) {
            SyncOutcome::Stored
        } else {
            SyncOutcome::NoDocument
        },
    }
}

/// What becomes of the new text of the document under a URI, where `parsed`
/// is what the parser makes of the text.
pub open spec fn change_outcome(
    before: Map<Seq<char>, Document>,
    uri: Seq<char>,
    text: Seq<char>,
    parsed: Option<Seq<RawNodeView>>,
) -> SyncOutcome {
    match uri_path(uri) {
        None => SyncOutcome::BadUri,
        Some(path) => if !before.contains_key(path) {
            SyncOutcome::NotOpen
        } else if gives_document(parsed, text, path) {
            SyncOutcome::Stored
        } else {
            SyncOutcome::NoDocument
        },
    }
}

/// The open documents after the document of a text was stored under a path:
/// the documents before, with the document of the text under the path.
pub open spec fn stored(
    before: Map<Seq<char>, Document>,
    after: Map<Seq<char>, Document>,
    path: Seq<char>,
    text: Seq<char>,
    nodes: Seq<RawNodeView>,
) -> bool {
    &&& after.contains_key(path)
    &&& after == before.insert(path, after[path])
    &&& is_document_of(after[path], nodes, text, path)
}

/// What opening a document under a URI does to the open documents, where
/// `parsed` is what the parser makes of its text. A URI that is no `file://`
/// URI, and a document that is open already, change nothing. Otherwise the
/// document of the text is stored under its path, unless the text gives no
/// document: then nothing changes either.
pub open spec fn opened(
    before: Map<Seq<char>, Document>,
    after: Map<Seq<char>, Document>,
    uri: Seq<char>,
    text: Seq<char>,
    parsed: Option<Seq<RawNodeView>>,
    r: SyncOutcome,
) -> bool {
    &&& r == open_outcome(before, uri, text, parsed)
    &&& if r == SyncOutcome::Stored {
        stored(before, after, uri_path(uri)->0, text, parsed->0)
    } else {
        after == before
    }
}

/// What a change of the document under a URI does to the open documents,
/// where `parsed` is what the parser makes of the new text. A URI that is no
/// `file://` URI, and a document that is not open, change nothing. Otherwise
/// the document is replaced as a whole by the document of the new text,
/// unless the text gives no document: then the old one stays.
pub open spec fn changed(
    before: Map<Seq<char>, Document>,
    after: Map<Seq<char>, Document>,
    uri: Seq<char>,
    text: Seq<char>,
    parsed: Option<Seq<RawNodeView>>,
    r: SyncOutcome,
) -> bool {
    &&& r == change_outcome(before, uri, text, parsed)
    &&& if r == SyncOutcome::Stored {
        stored(before, after, uri_path(uri)->0, text, parsed->0)
    } else {
        after == before
    }
}

/// What a message from the editor asks for.
#[derive(Debug)]
pub enum Request {
    DidOpen { uri: String, text: String },
    DidChange { uri: String, text: String },
    DidSave,
    Shutdown,
    Hover { uri: String, position: Position },
    Completion { uri: String, position: Position },
    Definition { uri: String, position: Position },
    Rename { uri: String, position: Position, new_name: String },
    Formatting { uri: String },
    Exit,
    Unknown { method: String },
}

/// What to answer to a message.
#[derive(Debug)]
pub enum Reply {
    /// Nothing is sent back.
    Nothing,
    /// A document was sent; what became of it.
    Synced(SyncOutcome),
    Hover(Option<Hover>),
    Completion(Option<Vec<CompletionItem>>),
    Definition(Option<LocationLink>),
    Rename(Option<WorkspaceEdit>),
    Formatting(Option<Result<TextEdit, FormatError>>),
    /// The method is not known; it is given back to be reported.
    UnknownMethod(String),
}

/// The methods of the protocol that the server knows.
#[derive(Clone, Copy, Debug, PartialEq, Eq, Structural)]
pub enum Method {
    DidOpen,
    DidChange,
    DidSave,
    Shutdown,
    Hover,
    Completion,
    Definition,
    Rename,
    Formatting,
    Exit,
    Unknown,
}

/// The method that a name of the protocol stands for.
pub open spec fn method_of(name: Seq<char>) -> Method {
    if name == "textDocument/didOpen"@ {
        Method::DidOpen
    } else if name == "textDocument/didChange"@ {
        Method::DidChange
    } else if name == "textDocument/didSave"@ {
        Method::DidSave
    } else if name == "shutdown"@ {
        Method::Shutdown
    } else if name == "textDocument/hover"@ {
        Method::Hover
    } else if name == "textDocument/completion"@ {
        Method::Completion
    } else if name == "textDocument/definition"@ {
        Method::Definition
    } else if name == "textDocument/rename"@ {
        Method::Rename
    } else if name == "textDocument/formatting"@ {
        Method::Formatting
    } else if name == "exit"@ {
        Method::Exit
    } else {
        Method::Unknown
    }
}

impl Method {
    /// The method that a name of the protocol stands for.
    pub fn from_name(name: &str) -> (m: Method)
        ensures
            m == method_of(name@),
    {
        if crate::text::str_is(name, "textDocument/didOpen") {
            Method::DidOpen
        } else if crate::text::str_is(name, "textDocument/didChange") {
            Method::DidChange
        } else if crate::text::str_is(name, "textDocument/didSave") {
            Method::DidSave
        } else if crate::text::str_is(name, "shutdown") {
            Method::Shutdown
        } else if crate::text::str_is(name, "textDocument/hover") {
            Method::Hover
        } else if crate::text::str_is(name, "textDocument/completion") {
            Method::Completion
        } else if crate::text::str_is(name, "textDocument/definition") {
            Method::Definition
        } else if crate::text::str_is(name, "textDocument/rename") {
            Method::Rename
        } else if crate::text::str_is(name, "textDocument/formatting") {
            Method::Formatting
        } else if crate::text::str_is(name, "exit") {
            Method::Exit
        } else {
            Method::Unknown
        }
    }
}

/// The view of an optional result of formatting.
pub open spec fn opt_formatting(r: Option<Result<TextEdit, FormatError>>) -> Option<FormattingAnswer> {
    match r {
        Some(r) => Some(answer_of(r)),
        None => None,
    }
}

impl Server {
    /// Every open document is well formed, and so is the schema.
    pub open spec fn wf(&self) -> bool {
        &&& documents_wf(self.document_map@)
        &&& self.mod_api.wf()
    }

    /// The document that is open under the URI, if there is one.
    pub open spec fn spec_document(&self, uri: Seq<char>) -> Option<Document> {
        match uri_path(uri) {
            Some(path) => if self.document_map@.contains_key(path) {
                Some(self.document_map@[path])
            } else {
                None
            },
            None => None,
        }
    }

    /// A server for the workspace at `root_path`, with the schema and no
    /// document. The schema file is the one under the root.
    pub fn new(root_path: String, mod_api: ModApi) -> (s: Server)
        requires
            mod_api.wf(),
        ensures
            s.wf(),
            !s.should_exit,
            s.root_path == root_path,
            s.schema_uri@ == schema_uri_of(root_path@),
            s.mod_api == mod_api,
            s.document_map@ == Map::<Seq<char>, Document>::empty(),
    {
        let schema_uri = schema_uri(root_path.as_str());
        Server {
            should_exit: false,
            root_path,
            schema_uri,
            mod_api,
            document_map: StringHashMap::new(),
        }
    }

    /// The document that is open under the URI, if there is one.
    pub fn get_document_by_uri<'a>(&'a self, uri: &str) -> (r: Option<&'a Document>)
        requires
            self.wf(),
        ensures
            match r {
                Some(d) => self.spec_document(uri@) == Some(*d) && d.wf(),
                None => self.spec_document(uri@) is None,
            },
    {
        let path = match strip_prefix_of(uri, "file://") {
            Some(p) => p,
            None => {
                return None;
            },
        };
        self.document_map.get(path.as_str())
    }

    /// Takes in a document that the editor opened.
    pub fn handle_did_open(&mut self, uri: &str, text: &str, parser: &mut tree_sitter::Parser) -> (r:
        SyncOutcome)
        requires
            old(self).wf(),
        ensures
            final(self).wf(),
            final(self).should_exit == old(self).should_exit,
            final(self).mod_api == old(self).mod_api,
            final(self).root_path == old(self).root_path,
            final(self).schema_uri == old(self).schema_uri,
            opened(
                old(self).document_map@,
                final(self).document_map@,
                uri@,
                text@,
                parsed_nodes(*old(parser), encode_utf8(text@)),
                r,
            ),
    {
        let path = match strip_prefix_of(uri, "file://") {
            Some(p) => p,
            None => {
                return SyncOutcome::BadUri;
            },
        };
        if self.document_map.contains_key(path.as_str()) {
            return SyncOutcome::AlreadyOpen;
        }
        let name = last_segment_of(path.as_str(), '/');
        let content = slice_to_vec(text.as_bytes());
        match Document::new(parser, content, name) {
            Some(document) => {
                self.document_map.insert(path, document);
                SyncOutcome::Stored
            },
            None => SyncOutcome::NoDocument,
        }
    }

    /// Takes in the new text of a document that is open. The document is
    /// replaced as a whole.
    pub fn handle_did_change(&mut self, uri: &str, text: &str, parser: &mut tree_sitter::Parser) -> (r:
        SyncOutcome)
        requires
            old(self).wf(),
        ensures
            final(self).wf(),
            final(self).should_exit == old(self).should_exit,
            final(self).mod_api == old(self).mod_api,
            final(self).root_path == old(self).root_path,
            final(self).schema_uri == old(self).schema_uri,
            changed(
                old(self).document_map@,
                final(self).document_map@,
                uri@,
                text@,
                parsed_nodes(*old(parser), encode_utf8(text@)),
                r,
            ),
    {
        let path = match strip_prefix_of(uri, "file://") {
            Some(p) => p,
            None => {
                return SyncOutcome::BadUri;
            },
        };
        if !self.document_map.contains_key(path.as_str()) {
            return SyncOutcome::NotOpen;
        }
        let name = last_segment_of(path.as_str(), '/');
        let content = slice_to_vec(text.as_bytes());
        match Document::new(parser, content, name) {
            Some(document) => {
                self.document_map.insert(path, document);
                SyncOutcome::Stored
            },
            None => SyncOutcome::NoDocument,
        }
    }

    /// What a hover request is answered with: the hover in the document
    /// under the URI; nothing where no such document is open.
    pub open spec fn spec_hover(&self, uri: Seq<char>, position: Position) -> Option<HoverAnswer> {
        match self.spec_document(uri) {
            Some(d) => hover_answer(&self.mod_api, &d, position),
            None => None,
        }
    }

    /// Answers a hover request for the document under the URI.
    pub fn handle_hover(&self, uri: &str, position: Position) -> (r: Option<Hover>)
        requires
            self.wf(),
        ensures
            opt_answer(r) == self.spec_hover(uri@, position),
    {
        match self.get_document_by_uri(uri) {
            Some(document) => hover_at(&self.mod_api, document, position),
            None => None,
        }
    }

    /// What a completion request is answered with.
    pub open spec fn spec_completion(&self, uri: Seq<char>, position: Position) -> Option<
        Seq<CompletionView>,
    > {
        match self.spec_document(uri) {
            Some(d) => completion_of(&self.mod_api, &d, position),
            None => None,
        }
    }

    /// Lists what can be written at `node` of the document.
    pub fn get_completion(&self, document: &Document, node: usize) -> (r: Vec<CompletionItem>)
        requires
            document.wf(),
            node < document.tree.nodes@.len(),
        ensures
            completion_views(r@) == general_completion(&self.mod_api, document, node as int),
    {
        get_completion(&self.mod_api, document, node)
    }

    /// Answers a completion request for the document under the URI.
    pub fn handle_completion(&self, uri: &str, position: Position) -> (r: Option<Vec<CompletionItem>>)
        requires
            self.wf(),
        ensures
            opt_completion(r) == self.spec_completion(uri@, position),
    {
        match self.get_document_by_uri(uri) {
            Some(document) => completion_at(&self.mod_api, document, position),
            None => None,
        }
    }

    /// What a definition request is answered with.
    pub open spec fn spec_definition(&self, uri: Seq<char>, position: Position) -> Option<LinkView> {
        match self.spec_document(uri) {
            Some(d) => definition_of(
                &self.mod_api,
                self.schema_uri@,
                uri,
                &d,
                defined_node(&d, point_of(position)) as int,
            ),
            None => None,
        }
    }

    /// Answers a definition request for the document under the URI.
    pub fn handle_goto_definition(&self, uri: &str, position: Position) -> (r: Option<LocationLink>)
        requires
            self.wf(),
        ensures
            opt_link(r) == self.spec_definition(uri@, position),
    {
        match self.get_document_by_uri(uri) {
            Some(document) => definition_at(
                &self.mod_api,
                self.schema_uri.as_str(),
                uri,
                document,
                position,
            ),
            None => None,
        }
    }

    /// What a rename request is answered with.
    pub open spec fn spec_rename(&self, uri: Seq<char>, position: Position, new_name: Seq<char>) -> Option<
        WorkspaceEditView,
    > {
        match self.spec_document(uri) {
            Some(d) => rename_answer(&d, uri, position, new_name),
            None => None,
        }
    }

    /// Answers a rename request for the document under the URI.
    pub fn rename(&self, uri: &str, position: Position, new_name: &str) -> (r: Option<WorkspaceEdit>)
        requires
            self.wf(),
        ensures
            opt_workspace_edit(r) == self.spec_rename(uri@, position, new_name@),
            r is Some <==> self.spec_rename(uri@, position, new_name@) is Some,
    {
        match self.get_document_by_uri(uri) {
            Some(document) => rename_at(document, uri.to_owned(), position, new_name),
            None => None,
        }
    }

    /// What a formatting request is answered with.
    pub open spec fn spec_formatting(&self, uri: Seq<char>) -> Option<FormattingAnswer> {
        match self.spec_document(uri) {
            Some(d) => Some(formatting_answer(&d)),
            None => None,
        }
    }

    /// Answers a formatting request for the document under the URI.
    pub fn formatting(&self, uri: &str) -> (r: Option<Result<TextEdit, FormatError>>)
        requires
            self.wf(),
        ensures
            opt_formatting(r) == self.spec_formatting(uri@),
    {
        match self.get_document_by_uri(uri) {
            Some(document) => Some(formatting_at(document)),
            None => None,
        }
    }

    /// Takes in what the watcher of the schema file sent, if it sent
    /// anything: a new schema replaces the old one as a whole.
    pub fn handle_worker_messages(&mut self, update: Option<ServerUpdate>)
        requires
            old(self).wf(),
            update matches Some(ServerUpdate::ModApiChange(api)) ==> api.wf(),
        ensures
            final(self).wf(),
            final(self).mod_api == match update {
                Some(ServerUpdate::ModApiChange(api)) => api,
                None => old(self).mod_api,
            },
            final(self).should_exit == old(self).should_exit,
            final(self).document_map@ == old(self).document_map@,
            final(self).root_path == old(self).root_path,
            final(self).schema_uri == old(self).schema_uri,
    {
        match update {
            Some(ServerUpdate::ModApiChange(mod_api)) => {
                self.mod_api = mod_api;
            },
            None => {},
        }
    }

    /// Handles one message: first takes in a new schema, if the watcher sent
    /// one, then does what the message asks for, and says what to answer.
    pub fn handle_message(
        &mut self,
        update: Option<ServerUpdate>,
        request: Request,
        parser: &mut tree_sitter::Parser,
    ) -> (r: Reply)
        requires
            old(self).wf(),
            update matches Some(ServerUpdate::ModApiChange(api)) ==> api.wf(),
        ensures
            final(self).wf(),
            final(self).mod_api == match update {
                Some(ServerUpdate::ModApiChange(api)) => api,
                None => old(self).mod_api,
            },
            final(self).should_exit == (old(self).should_exit || request is Shutdown || request
                is Exit),
            !(request is DidOpen || request is DidChange) ==> final(self).document_map@ == old(
                self,
            ).document_map@,
            match request {
                Request::DidOpen { uri, text } => r matches Reply::Synced(outcome) && opened(
                    old(self).document_map@,
                    final(self).document_map@,
                    uri@,
                    text@,
                    parsed_nodes(*old(parser), encode_utf8(text@)),
                    outcome,
                ),
                Request::DidChange { uri, text } => r matches Reply::Synced(outcome) && changed(
                    old(self).document_map@,
                    final(self).document_map@,
                    uri@,
                    text@,
                    parsed_nodes(*old(parser), encode_utf8(text@)),
                    outcome,
                ),
                Request::DidSave => r is Nothing,
                Request::Shutdown => r is Nothing,
                Request::Exit => r is Nothing,
                Request::Hover { uri, position } => r matches Reply::Hover(h) && opt_answer(h)
                    == final(self).spec_hover(uri@, position),
                Request::Completion { uri, position } => r matches Reply::Completion(c)
                    && opt_completion(c) == final(self).spec_completion(uri@, position),
                Request::Definition { uri, position } => r matches Reply::Definition(d) && opt_link(
                    d,
                ) == final(self).spec_definition(uri@, position),
                Request::Rename { uri, position, new_name } => r matches Reply::Rename(e)
                    && opt_workspace_edit(e) == final(self).spec_rename(uri@, position, new_name@),
                Request::Formatting { uri } => r matches Reply::Formatting(f) && opt_formatting(f)
                    == final(self).spec_formatting(uri@),
                Request::Unknown { method } => r matches Reply::UnknownMethod(m) && m == method,
            },
    {
        self.handle_worker_messages(update);
        match request {
            Request::DidOpen { uri, text } => Reply::Synced(
                self.handle_did_open(uri.as_str(), text.as_str(), parser),
            ),
            Request::DidChange { uri, text } => Reply::Synced(
                self.handle_did_change(uri.as_str(), text.as_str(), parser),
            ),
            Request::DidSave => Reply::Nothing,
            Request::Shutdown => {
                self.should_exit = true;
                Reply::Nothing
            },
            Request::Exit => {
                self.should_exit = true;
                Reply::Nothing
            },
            Request::Hover { uri, position } => Reply::Hover(
                self.handle_hover(uri.as_str(), position),
            ),
            Request::Completion { uri, position } => Reply::Completion(
                self.handle_completion(uri.as_str(), position),
            ),
            Request::Definition { uri, position } => Reply::Definition(
                self.handle_goto_definition(uri.as_str(), position),
            ),
            Request::Rename { uri, position, new_name } => Reply::Rename(
                self.rename(uri.as_str(), position, new_name.as_str()),
            ),
            Request::Formatting { uri } => Reply::Formatting(self.formatting(uri.as_str())),
            Request::Unknown { method } => Reply::UnknownMethod(method),
        }
    }
}

} // verus!
