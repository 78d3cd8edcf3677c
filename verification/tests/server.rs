use grug_ls::server::document::Document;
use grug_ls::server::helper::{ServerUpdate, ServerWorker, WatchEvent, WorkerAction};
use grug_ls::server::init::{root_path, SchemaSource, ServerInitError};
use grug_ls::server::mod_api::{default_range, GrugGameFunction, ModApi};
use grug_ls::server::utils::Position;
use grug_ls::syntax::SyntaxTree;
use grug_ls::server::{
    schema_uri, Method, Reply, Request, Server, ServerFileElement, SyncOutcome,
};

fn grug_parser() -> tree_sitter::Parser {
    let mut parser = tree_sitter::Parser::new();
    parser
        .set_language(&tree_sitter_grug::LANGUAGE.into())
        .unwrap();
    parser
}

fn server() -> Server {
    Server::new("/mods".to_string(), ModApi::default())
}

fn schema_with(name: &str) -> ModApi {
    let mut api = ModApi::default();
    api.game_functions.insert(
        name.to_string(),
        GrugGameFunction {
            description: "d".to_string(),
            arguments: Vec::new(),
            return_type: None,
            range: default_range(),
        },
    );
    api
}

const URI: &str = "file:///mods/tired-box.grug";
const TEXT: &str = "a: i32 = 2\n\non_spawn() {\n    print(a)\n}\n";

#[test]
fn a_document_is_opened_once() {
    let mut parser = grug_parser();
    let mut server = server();
    assert!(server.get_document_by_uri(URI).is_none());
    assert_eq!(
        server.handle_did_open(URI, TEXT, &mut parser),
        SyncOutcome::Stored
    );
    let document = server.get_document_by_uri(URI).unwrap();
    assert_eq!(document.entity_type, "box");
    assert_eq!(document.content, TEXT.as_bytes());
    assert_eq!(
        server.handle_did_open(URI, "b: i32 = 1\n", &mut parser),
        SyncOutcome::AlreadyOpen
    );
    assert_eq!(server.get_document_by_uri(URI).unwrap().content, TEXT.as_bytes());
    assert_eq!(server.document_map.len(), 1);
}

#[test]
fn a_change_replaces_the_document() {
    let mut parser = grug_parser();
    let mut server = server();
    assert_eq!(
        server.handle_did_change(URI, TEXT, &mut parser),
        SyncOutcome::NotOpen
    );
    server.handle_did_open(URI, TEXT, &mut parser);
    assert_eq!(
        server.handle_did_change(URI, "b: f32 = 1.\n", &mut parser),
        SyncOutcome::Stored
    );
    let document = server.get_document_by_uri(URI).unwrap();
    assert_eq!(document.content, b"b: f32 = 1.\n");
    assert_eq!(document.global_vars.len(), 1);
    assert_eq!(document.global_vars[0].name, "b");
    assert!(document.on_functions.is_empty());
    assert_eq!(server.document_map.len(), 1);
}

#[test]
fn only_file_uris_name_documents() {
    let mut parser = grug_parser();
    let mut server = server();
    assert_eq!(
        server.handle_did_open("http://mods/tired-box.grug", TEXT, &mut parser),
        SyncOutcome::BadUri
    );
    assert_eq!(
        server.handle_did_change("tired-box.grug", TEXT, &mut parser),
        SyncOutcome::BadUri
    );
    assert_eq!(
        server.handle_did_open("file:///mods/notes.txt", TEXT, &mut parser),
        SyncOutcome::NoDocument
    );
    assert!(server.get_document_by_uri("http://mods/tired-box.grug").is_none());
    assert_eq!(server.document_map.len(), 0);
}

#[test]
fn requests_for_a_document_that_is_not_open_get_no_answer() {
    let server = server();
    let position = Position {
        line: 0,
        character: 0,
    };
    assert!(server.handle_hover(URI, position).is_none());
    assert!(server.handle_completion(URI, position).is_none());
    assert!(server.handle_goto_definition(URI, position).is_none());
    assert!(server.rename(URI, position, "x").is_none());
    assert!(server.formatting(URI).is_none());
}

#[test]
fn messages_are_handled_one_after_the_other() {
    let mut parser = grug_parser();
    let mut server = server();
    let opened = server.handle_message(
        None,
        Request::DidOpen {
            uri: URI.to_string(),
            text: TEXT.to_string(),
        },
        &mut parser,
    );
    assert!(matches!(opened, Reply::Synced(SyncOutcome::Stored)));
    let hover = server.handle_message(
        None,
        Request::Hover {
            uri: URI.to_string(),
            position: Position {
                line: 3,
                character: 10,
            },
        },
        &mut parser,
    );
    match hover {
        Reply::Hover(Some(h)) => assert_eq!(h.contents, "```rust\na: i32\n```"),
        other => panic!("{:?}", other),
    }
    let definition = server.handle_message(
        None,
        Request::Definition {
            uri: URI.to_string(),
            position: Position {
                line: 3,
                character: 10,
            },
        },
        &mut parser,
    );
    match definition {
        Reply::Definition(Some(link)) => {
            assert_eq!(link.target_uri, URI);
            assert_eq!(link.target_range.start.line, 0);
        }
        other => panic!("{:?}", other),
    }
    let rename = server.handle_message(
        None,
        Request::Rename {
            uri: URI.to_string(),
            position: Position {
                line: 3,
                character: 10,
            },
            new_name: "b".to_string(),
        },
        &mut parser,
    );
    match rename {
        Reply::Rename(Some(edit)) => assert_eq!(edit.changes.get(URI).unwrap().len(), 2),
        other => panic!("{:?}", other),
    }
    let formatting = server.handle_message(
        None,
        Request::Formatting {
            uri: URI.to_string(),
        },
        &mut parser,
    );
    match formatting {
        Reply::Formatting(Some(Ok(edit))) => assert_eq!(
            edit.new_text,
            "a: i32 = 2\n\non_spawn() {\n    print(a)\n}"
        ),
        other => panic!("{:?}", other),
    }
    let completion = server.handle_message(
        None,
        Request::Completion {
            uri: URI.to_string(),
            position: Position {
                line: 3,
                character: 4,
            },
        },
        &mut parser,
    );
    match completion {
        Reply::Completion(Some(items)) => assert_eq!(items[0].label, "a"),
        other => panic!("{:?}", other),
    }
    assert!(matches!(
        server.handle_message(None, Request::DidSave, &mut parser),
        Reply::Nothing
    ));
    assert!(!server.should_exit);
    let unknown = server.handle_message(
        None,
        Request::Unknown {
            method: "workspace/symbol".to_string(),
        },
        &mut parser,
    );
    assert!(matches!(unknown, Reply::UnknownMethod(m) if m == "workspace/symbol"));
    assert!(!server.should_exit);
    server.handle_message(None, Request::Shutdown, &mut parser);
    assert!(server.should_exit);
}

#[test]
fn exit_ends_the_session() {
    let mut parser = grug_parser();
    let mut server = server();
    server.handle_message(None, Request::Exit, &mut parser);
    assert!(server.should_exit);
}

#[test]
fn a_new_schema_replaces_the_old_one_before_the_message_is_handled() {
    let mut parser = grug_parser();
    let mut server = server();
    server.handle_did_open(URI, "on_a() {\n    rand()\n}\n", &mut parser);
    let position = Position {
        line: 1,
        character: 5,
    };
    assert!(server.handle_hover(URI, position).is_none());
    let reply = server.handle_message(
        Some(ServerUpdate::ModApiChange(schema_with("rand"))),
        Request::Hover {
            uri: URI.to_string(),
            position,
        },
        &mut parser,
    );
    match reply {
        Reply::Hover(Some(h)) => assert_eq!(h.contents, "```rust\nrand()\n```\nd"),
        other => panic!("{:?}", other),
    }
    assert!(server.mod_api.game_functions.get("rand").is_some());
    server.handle_worker_messages(None);
    assert!(server.mod_api.game_functions.get("rand").is_some());
    server.handle_worker_messages(Some(ServerUpdate::ModApiChange(schema_with("other"))));
    assert!(server.mod_api.game_functions.get("rand").is_none());
    assert!(server.mod_api.game_functions.get("other").is_some());
    assert_eq!(server.document_map.len(), 1);
}

#[test]
fn methods_are_known_by_name() {
    assert_eq!(Method::from_name("textDocument/didOpen"), Method::DidOpen);
    assert_eq!(Method::from_name("textDocument/didChange"), Method::DidChange);
    assert_eq!(Method::from_name("textDocument/didSave"), Method::DidSave);
    assert_eq!(Method::from_name("shutdown"), Method::Shutdown);
    assert_eq!(Method::from_name("textDocument/hover"), Method::Hover);
    assert_eq!(Method::from_name("textDocument/completion"), Method::Completion);
    assert_eq!(Method::from_name("textDocument/definition"), Method::Definition);
    assert_eq!(Method::from_name("textDocument/rename"), Method::Rename);
    assert_eq!(Method::from_name("textDocument/formatting"), Method::Formatting);
    assert_eq!(Method::from_name("exit"), Method::Exit);
    assert_eq!(Method::from_name("initialize"), Method::Unknown);
    assert_eq!(Method::from_name(""), Method::Unknown);
}

#[test]
fn the_root_is_the_first_folder_or_else_the_root_uri() {
    assert_eq!(
        root_path(Some("mods".to_string()), Some("file:///other".to_string())).unwrap(),
        "mods"
    );
    assert_eq!(
        root_path(None, Some("file:///home/me/mods".to_string())).unwrap(),
        "/home/me/mods"
    );
    assert!(matches!(
        root_path(None, None),
        Err(ServerInitError::NoRootPath)
    ));
    assert!(matches!(
        root_path(None, Some("http://mods".to_string())),
        Err(ServerInitError::RootPathParseError)
    ));
}

#[test]
fn a_start_needs_the_schema() {
    let started = Server::from_request(
        "/mods".to_string(),
        SchemaSource::Loaded(schema_with("rand")),
    )
    .unwrap();
    assert!(!started.should_exit);
    assert_eq!(started.root_path, "/mods");
    assert_eq!(started.schema_uri, "file:///mods/mod_api.json");
    assert!(started.mod_api.game_functions.get("rand").is_some());
    assert_eq!(started.document_map.len(), 0);
    match Server::from_request(
        "/mods".to_string(),
        SchemaSource::Unreadable("No such file".to_string()),
    ) {
        Err(ServerInitError::ModApiIOError(m)) => assert_eq!(m, "At /mods: No such file"),
        other => panic!("{:?}", other.map(|_| ())),
    }
    match Server::from_request("/mods".to_string(), SchemaSource::Unparsable) {
        Err(ServerInitError::ModApiParseError(m)) => {
            assert_eq!(m, "At /mods: no schema in mod_api.json")
        }
        other => panic!("{:?}", other.map(|_| ())),
    }
}

#[test]
fn the_watcher_reloads_on_a_change_only() {
    let worker = ServerWorker::new("/mods/mod_api.json".to_string());
    assert_eq!(worker.mod_api_path, "/mods/mod_api.json");
    assert_eq!(worker.update(Some(WatchEvent::Change)), WorkerAction::Reload);
    assert_eq!(worker.update(Some(WatchEvent::Access)), WorkerAction::Ignore);
    assert_eq!(worker.update(Some(WatchEvent::Failure)), WorkerAction::Warn);
    assert_eq!(worker.update(None), WorkerAction::Ignore);
    assert!(worker.reloaded(None).is_none());
    match worker.reloaded(Some(schema_with("rand"))) {
        Some(ServerUpdate::ModApiChange(api)) => assert_eq!(api.game_functions.len(), 1),
        None => panic!("no update"),
    }
}

#[test]
fn a_workspace_is_a_tree_of_files() {
    let tree = ServerFileElement::Directory(
        "mods".to_string(),
        vec![ServerFileElement::File("tired-box.grug".to_string())],
    );
    match tree {
        ServerFileElement::Directory(name, files) => {
            assert_eq!(name, "mods");
            assert!(matches!(&files[0], ServerFileElement::File(f) if f == "tired-box.grug"));
        }
        ServerFileElement::File(_) => panic!("a file"),
    }
}

#[test]
fn the_schema_file_lies_under_the_root() {
    assert_eq!(schema_uri("/mods"), "file:///mods/mod_api.json");
    assert_eq!(schema_uri("/mods/"), "file:///mods/mod_api.json");
    assert_eq!(schema_uri("/"), "file:///mod_api.json");
    assert_eq!(schema_uri(""), "file://mod_api.json");
    assert_eq!(schema_uri("mods/a"), "file://mods/a/mod_api.json");
    assert_eq!(server().schema_uri, "file:///mods/mod_api.json");
}

#[test]
fn a_parser_without_a_language_stores_nothing() {
    let mut bare = tree_sitter::Parser::new();
    assert!(SyntaxTree::parse(&mut bare, TEXT.as_bytes()).is_none());
    assert!(Document::new(&mut bare, TEXT.as_bytes().to_vec(), "tired-box.grug".to_string()).is_none());
    let mut server = server();
    assert_eq!(
        server.handle_did_open(URI, TEXT, &mut bare),
        SyncOutcome::NoDocument
    );
    assert_eq!(server.document_map.len(), 0);
}

#[test]
fn a_change_that_gives_no_document_leaves_the_old_one() {
    let mut parser = grug_parser();
    let mut bare = tree_sitter::Parser::new();
    let mut server = server();
    assert_eq!(
        server.handle_did_open(URI, TEXT, &mut parser),
        SyncOutcome::Stored
    );
    assert_eq!(
        server.handle_did_change(URI, "b: f32 = 1.\n", &mut bare),
        SyncOutcome::NoDocument
    );
    assert_eq!(server.get_document_by_uri(URI).unwrap().content, TEXT.as_bytes());
    assert_eq!(server.document_map.len(), 1);
}

#[test]
fn every_text_that_parses_under_a_grug_name_is_stored() {
    let mut parser = grug_parser();
    let mut server = server();
    for (k, text) in ["", "a: i32 = 2\n", "on_spawn() {\n}\n", "((((", "helper_x() i32 {\n    return 1\n}\n"]
        .iter()
        .enumerate()
    {
        let uri = format!("file:///mods/n{}-box.grug", k);
        assert_eq!(
            server.handle_did_open(&uri, text, &mut parser),
            SyncOutcome::Stored
        );
        assert_eq!(server.get_document_by_uri(&uri).unwrap().content, text.as_bytes());
    }
    assert_eq!(server.document_map.len(), 5);
}
