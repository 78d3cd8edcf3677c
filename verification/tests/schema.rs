use grug_ls::server::mod_api::parse::{EntryFrame, SchemaFrames};
use grug_ls::server::mod_api::{
    default_description, default_range, GrugArgument, GrugDetailedType, GrugEntity,
    GrugGameFunction, GrugOnFunction, ModApi,
};
use grug_ls::server::document::Type;
use grug_ls::syntax::{Point, SyntaxTree};

fn text_of(value: &serde_json::Value, key: &str) -> Option<String> {
    match value.get(key) {
        Some(v) => v.as_str().map(|s| s.to_string()),
        None => None,
    }
}

// What a decoder of typed records makes of the value of a lifecycle function.
fn decode_on_function(bytes: &[u8]) -> Option<GrugOnFunction> {
    let value: serde_json::Value = serde_json::from_slice(bytes).ok()?;
    let object = value.as_object()?;
    let description = match object.get("description") {
        Some(d) => d.as_str()?.to_string(),
        None => default_description(),
    };
    Some(GrugOnFunction {
        description,
        range: default_range(),
    })
}

fn decode_argument(value: &serde_json::Value) -> Option<GrugArgument> {
    let name = text_of(value, "name")?;
    let ty = text_of(value, "type")?;
    let argument = match ty.as_str() {
        "string" => GrugArgument::String { name },
        "i32" => GrugArgument::I32 { name },
        "f32" => GrugArgument::F32 { name },
        "id" => GrugArgument::ID { name },
        "bool" => GrugArgument::Bool { name },
        "resource" => match text_of(value, "resource_extension") {
            Some(resource_extension) => GrugArgument::Resource {
                name,
                resource_extension,
            },
            None => GrugArgument::Unknown { name, ty },
        },
        "entity" => match text_of(value, "entity_type") {
            Some(entity_type) => GrugArgument::Entity { name, entity_type },
            None => GrugArgument::Unknown { name, ty },
        },
        _ => GrugArgument::Unknown { name, ty },
    };
    Some(argument)
}

// What a decoder of typed records makes of the value of a game function.
fn decode_game_function(bytes: &[u8]) -> Option<GrugGameFunction> {
    let value: serde_json::Value = serde_json::from_slice(bytes).ok()?;
    let object = value.as_object()?;
    let description = match object.get("description") {
        Some(d) => d.as_str()?.to_string(),
        None => default_description(),
    };
    let mut arguments = Vec::new();
    if let Some(list) = object.get("arguments") {
        for argument in list.as_array()? {
            arguments.push(decode_argument(argument)?);
        }
    }
    let return_type = match object.get("return_type") {
        None | Some(serde_json::Value::Null) => None,
        Some(t) => Some(match t.as_str()? {
            "string" => GrugDetailedType::String,
            "f32" => GrugDetailedType::F32,
            "i32" => GrugDetailedType::I32,
            "id" => GrugDetailedType::ID,
            "bool" => GrugDetailedType::Bool,
            other => GrugDetailedType::Entity(other.to_string()),
        }),
    };
    Some(GrugGameFunction {
        description,
        arguments,
        return_type,
        range: default_range(),
    })
}

fn value_of<'a>(json: &'a str, frame: &EntryFrame) -> &'a [u8] {
    &json.as_bytes()[frame.value_start..frame.value_end]
}

// Whether a decoder of typed records takes the value of an entity: an object
// whose description, if it has one, is a text, and whose lifecycle
// functions, if it has any, are an object.
fn decodes_as_entity(bytes: &[u8]) -> bool {
    let Ok(value) = serde_json::from_slice::<serde_json::Value>(bytes) else {
        return false;
    };
    let Some(object) = value.as_object() else {
        return false;
    };
    object.get("description").map(|d| d.is_string()).unwrap_or(true)
        && object.get("on_functions").map(|f| f.is_object()).unwrap_or(true)
}

fn assemble(json: &str, frames: &SchemaFrames) -> ModApi {
    let entities = frames
        .entities
        .iter()
        .map(|e| decodes_as_entity(&json.as_bytes()[e.value_start..e.value_end]))
        .collect();
    let on_functions = frames
        .entities
        .iter()
        .map(|e| {
            e.on_functions
                .iter()
                .map(|f| decode_on_function(value_of(json, f)))
                .collect()
        })
        .collect();
    let game_functions = frames
        .game_functions
        .iter()
        .map(|f| decode_game_function(value_of(json, f)))
        .collect();
    ModApi::from_frames(frames, entities, on_functions, game_functions)
}

fn from_json(json: &str) -> Option<ModApi> {
    let frames = ModApi::frames_from_json(json)?;
    Some(assemble(json, &frames))
}

fn same_entity(a: &GrugEntity, b: &GrugEntity) -> bool {
    a.description == b.description
        && a.on_functions.len() == b.on_functions.len()
        && a.on_functions.entries.iter().all(|e| {
            b.on_functions
                .get(&e.name)
                .map(|f| f.description == e.value.description)
                .unwrap_or(false)
        })
}

fn entity(description: &str, on_functions: &[(&str, &str)]) -> GrugEntity {
    let mut map = grug_ls::server::name_map::NameMap::new();
    for (name, text) in on_functions {
        map.insert(
            name.to_string(),
            GrugOnFunction {
                description: text.to_string(),
                range: default_range(),
            },
        );
    }
    GrugEntity {
        description: description.to_string(),
        on_functions: map,
        range: default_range(),
    }
}

#[test]
fn mod_api_test() {
    let source = r#" {
    "entities": {
        "gun": {
            "description": "The gun in the center of the screen that the player fires by holding the left mouse button.",
            "on_functions": {
                "on_spawn": {
                    "description": "Called when the entity is spawned."
                },
                "on_despawn": {
                    "description": "Called when the entity is despawned."
                },
                "on_fire": {
                    "description": "Called when the player's gun fires, which happens when the left mouse button is pressed or held."
                }
            }
        },
        "bullet": {
            "description": "The bullet fired by the player's gun.",
            "on_functions": {
                "on_spawn": {
                    "description": "Called when the entity is spawned."
                },
                "on_despawn": {
                    "description": "Called when the entity is despawned."
                },
                "on_tick": {
                    "description": "Called every tick."
                }
            }
        },
        "box": {
            "description": "A static or dynamic box.",
            "on_functions": {
                "on_spawn": {
                    "description": "Called when the entity is spawned."
                },
                "on_despawn": {
                    "description": "Called when the entity is despawned."
                }
            }
        },
        "counter": {
            "description": "A counter that prints information to the console every tick.",
            "on_functions": {
                "on_spawn": {
                    "description": "Called when the entity is spawned."
                },
                "on_despawn": {
                    "description": "Called when the entity is despawned."
                },
                "on_tick": {
                    "description": "Called every tick."
                }
            }
        }
    },
    "game_functions": {
        "set_gun_name": {
            "description": "Sets the name of the spawned gun.",
            "arguments": [
                {
                    "name": "name",
                    "type": "string"
                }
            ]
        },
        "set_gun_sprite_path": {
            "description": "Sets the sprite path of the spawned gun.",
            "arguments": [
                {
                    "name": "sprite_path",
                    "type": "resource",
                    "resource_extension": ".png"
                }
            ]
        },
        "set_gun_rounds_per_minute": {
            "description": "Sets the rounds per minute of the spawned gun.",
            "arguments": [
                {
                    "name": "rounds_per_minute",
                    "type": "i32"
                }
            ]
        },
        "set_gun_companion": {
            "description": "Sets the companion of the spawned gun. This is a box that gets spawned alongside the gun, to show off being able to spawn other entitities during on_spawn().",
            "arguments": [
                {
                    "name": "companion",
                    "type": "entity",
                    "entity_type": "box"
                }
            ]
        },
        "set_bullet_name": {
            "description": "Sets the name of the spawned bullet.",
            "arguments": [
                {
                    "name": "name",
                    "type": "string"
                }
            ]
        },
        "set_bullet_sprite_path": {
            "description": "Sets the sprite path of the spawned bullet.",
            "arguments": [
                {
                    "name": "sprite_path",
                    "type": "resource",
                    "resource_extension": ".png"
                }
            ]
        },
        "set_bullet_density": {
            "description": "Sets the density of the spawned bullet.",
            "arguments": [
                {
                    "name": "density",
                    "type": "f32"
                }
            ]
        },
        "set_box_name": {
            "description": "Sets the name of the spawned box.",
            "arguments": [
                {
                    "name": "name",
                    "type": "string"
                }
            ]
        },
        "set_box_sprite_path": {
            "description": "Sets the sprite path of the spawned box.",
            "arguments": [
                {
                    "name": "sprite_path",
                    "type": "resource",
                    "resource_extension": ".png"
                }
            ]
        },
        "set_counter_name": {
            "description": "Sets the name of the spawned counter.",
            "arguments": [
                {
                    "name": "name",
                    "type": "string"
                }
            ]
        },
        "spawn_bullet": {
            "description": "Spawns a bullet.",
            "arguments": [
                {
                    "name": "name",
                    "type": "entity",
                    "entity_type": "bullet"
                },
                {
                    "name": "x",
                    "type": "f32"
                },
                {
                    "name": "y",
                    "type": "f32"
                },
                {
                    "name": "angle_in_degrees",
                    "type": "f32"
                },
                {
                    "name": "velocity_in_meters_per_second",
                    "type": "f32"
                }
            ]
        },
        "spawn_counter": {
            "description": "Spawns a counter, and returns its ID.",
            "return_type": "id",
            "arguments": [
                {
                    "name": "path",
                    "type": "entity",
                    "entity_type": "counter"
                }
            ]
        },
        "despawn_entity": {
            "description": "Despawns an entity, given its ID.",
            "arguments": [
                {
                    "name": "entity_id",
                    "type": "id"
                }
            ]
        },
        "rand": {
            "description": "Gets a random f32 between min and max.",
            "return_type": "f32",
            "arguments": [
                {
                    "name": "min",
                    "type": "f32"
                },
                {
                    "name": "max",
                    "type": "f32"
                }
            ]
        },
        "print_i32": {
            "description": "Prints an i32.",
            "arguments": [
                {
                    "name": "i",
                    "type": "i32"
                }
            ]
        },
        "print_f32": {
            "description": "Prints an f32.",
            "arguments": [
                {
                    "name": "f",
                    "type": "f32"
                }
            ]
        },
        "print_string": {
            "description": "Prints a string.",
            "arguments": [
                {
                    "name": "s",
                    "type": "string"
                }
            ]
        },
        "print_bool": {
            "description": "Prints a bool.",
            "arguments": [
                {
                    "name": "b",
                    "type": "bool"
                }
            ]
        },
        "play_sound": {
            "description": "Plays a sound.",
            "arguments": [
                {
                    "name": "path",
                    "type": "resource",
                    "resource_extension": ".wav"
                }
            ]
        },
        "map_has_i32": {
            "description": "Returns whether an entity's i32 map contains a key.",
            "return_type": "bool",
            "arguments": [
                {
                    "name": "entity_id",
                    "type": "id"
                },
                {
                    "name": "key",
                    "type": "string"
                }
            ]
        },
        "map_get_i32": {
            "description": "Returns the value of a key in an entity's i32 map. Note that if the map doesn't contain the key, the game will throw an error, so make sure to call map_has_i32() first!",
            "return_type": "i32",
            "arguments": [
                {
                    "name": "entity_id",
                    "type": "id"
                },
                {
                    "name": "key",
                    "type": "string"
                }
            ]
        },
        "map_set_i32": {
            "description": "Sets the value of a key in an entity's i32 map. Note that if the map doesn't contain the key, the game will throw an error, so make sure to call map_has_i32() first!",
            "arguments": [
                {
                    "name": "entity_id",
                    "type": "id"
                },
                {
                    "name": "key",
                    "type": "string"
                },
                {
                    "name": "value",
                    "type": "i32"
                }
            ]
        }
    }
}"#;

    let expected = vec![
        (
            "gun",
            entity(
                "The gun in the center of the screen that the player fires by holding the left mouse button.",
                &[
                    ("on_spawn", "Called when the entity is spawned."),
                    ("on_despawn", "Called when the entity is despawned."),
                    (
                        "on_fire",
                        "Called when the player's gun fires, which happens when the left mouse button is pressed or held.",
                    ),
                ],
            ),
        ),
        (
            "bullet",
            entity(
                "The bullet fired by the player's gun.",
                &[
                    ("on_spawn", "Called when the entity is spawned."),
                    ("on_despawn", "Called when the entity is despawned."),
                    ("on_tick", "Called every tick."),
                ],
            ),
        ),
        (
            "box",
            entity(
                "A static or dynamic box.",
                &[
                    ("on_spawn", "Called when the entity is spawned."),
                    ("on_despawn", "Called when the entity is despawned."),
                ],
            ),
        ),
        (
            "counter",
            entity(
                "A counter that prints information to the console every tick.",
                &[
                    ("on_spawn", "Called when the entity is spawned."),
                    ("on_despawn", "Called when the entity is despawned."),
                    ("on_tick", "Called every tick."),
                ],
            ),
        ),
    ];

    let result: ModApi = from_json(source).unwrap();

    for (name, entity) in expected {
        let Some(other) = result.entities.get(name) else {
            panic!("No {}", name);
        };

        assert!(same_entity(&entity, other));
    }

    assert_eq!(result.entities.len(), 4);
    assert_eq!(result.game_functions.len(), 22);
    let spawn = result.game_functions.get("spawn_counter").unwrap();
    assert_eq!(spawn.return_type, Some(GrugDetailedType::ID));
    assert_eq!(
        spawn.arguments,
        vec![GrugArgument::Entity {
            name: "path".to_string(),
            entity_type: "counter".to_string()
        }]
    );
    assert_eq!(spawn.format("spawn_counter"), "spawn_counter(path: string) id");
}

#[test]
fn a_schema_with_one_entity_loads_it_with_its_range() {
    let json = r#"{"entities":{"box":{"description":"d","on_functions":{}}},"game_functions":{}}"#;
    let api = from_json(json).unwrap();
    assert_eq!(api.entities.len(), 1);
    assert_eq!(api.game_functions.len(), 0);
    let entity = api.entities.get("box").unwrap();
    assert_eq!(entity.description, "d");
    assert_eq!(entity.on_functions.len(), 0);
    // The range is that of the whole pair, key and value.
    assert_eq!(entity.range.start_byte, 13);
    assert_eq!(entity.range.end_byte, 56);
    assert_eq!(&json[13..56], r#""box":{"description":"d","on_functions":{}}"#);
    assert_eq!(entity.range.start_point, Point { row: 0, column: 13 });
    assert_eq!(entity.range.end_point, Point { row: 0, column: 56 });
}

#[test]
fn an_entry_of_the_wrong_shape_is_left_out_and_the_others_load() {
    let json = r#"{
  "entities": {
    "gun": {"description": "g"},
    "mistyped": {"description": 5},
    "also_mistyped": {"on_functions": "none"},
    "broken": 5,
    "also_broken": ["x"],
    "box": {}
  },
  "game_functions": {
    "good": {"description": "fine"},
    "bad": {"description": 7},
    "worse": "text",
    "last": {}
  },
  "other": {"x": {}}
}"#;
    let api = from_json(json).unwrap();
    let names: Vec<&str> = api.entities.entries.iter().map(|e| e.name.as_str()).collect();
    assert_eq!(names, vec!["gun", "box"]);
    assert_eq!(api.entities.get("gun").unwrap().description, "g");
    assert_eq!(api.entities.get("box").unwrap().description, "<NO DESCRIPTION>");
    let games: Vec<&str> = api
        .game_functions
        .entries
        .iter()
        .map(|e| e.name.as_str())
        .collect();
    assert_eq!(games, vec!["good", "last"]);
    assert_eq!(
        api.game_functions.get("last").unwrap().description,
        "<NO DESCRIPTION>"
    );
}

#[test]
fn every_entry_is_stamped_with_the_range_of_its_pair() {
    let json = "{\n  \"entities\": {\n    \"box\": {\n      \"on_functions\": {\n        \"on_spawn\": {\"description\": \"s\"}\n      }\n    }\n  },\n  \"game_functions\": {\n    \"rand\": {\"return_type\": \"f32\"}\n  }\n}";
    let api = from_json(json).unwrap();
    let entity = api.entities.get("box").unwrap();
    assert_eq!(entity.range.start_point, Point { row: 2, column: 4 });
    assert_eq!(entity.range.end_point, Point { row: 6, column: 5 });
    let on_spawn = entity.on_functions.get("on_spawn").unwrap();
    assert_eq!(on_spawn.description, "s");
    assert_eq!(on_spawn.range.start_point, Point { row: 4, column: 8 });
    assert_eq!(on_spawn.range.end_point, Point { row: 4, column: 40 });
    let rand = api.game_functions.get("rand").unwrap();
    assert_eq!(rand.range.start_point, Point { row: 9, column: 4 });
    assert_eq!(
        &json[rand.range.start_byte..rand.range.end_byte],
        "\"rand\": {\"return_type\": \"f32\"}"
    );
    assert_eq!(rand.return_type, Some(GrugDetailedType::F32));
}

#[test]
fn the_frames_give_the_bytes_of_each_value() {
    let json = r#"{"game_functions":{"f":{"description":"x"}}}"#;
    let frames = ModApi::frames_from_json(json).unwrap();
    assert!(frames.entities.is_empty());
    assert_eq!(frames.game_functions.len(), 1);
    let frame = &frames.game_functions[0];
    assert_eq!(frame.name, "f");
    assert_eq!(
        &json[frame.value_start..frame.value_end],
        r#"{"description":"x"}"#
    );
    assert_eq!(&json[frame.range.start_byte..frame.range.end_byte], r#""f":{"description":"x"}"#);
}

#[test]
fn a_record_that_was_not_decoded_is_left_out() {
    let json = r#"{"game_functions":{"f":{},"g":{},"h":{}}}"#;
    let frames = ModApi::frames_from_json(json).unwrap();
    let record = |d: &str| GrugGameFunction {
        description: d.to_string(),
        arguments: Vec::new(),
        return_type: None,
        range: default_range(),
    };
    // The last record is missing: it counts as not decoded.
    let api = ModApi::from_frames(
        &frames,
        Vec::new(),
        Vec::new(),
        vec![Some(record("first")), None],
    );
    let names: Vec<&str> = api
        .game_functions
        .entries
        .iter()
        .map(|e| e.name.as_str())
        .collect();
    assert_eq!(names, vec!["f"]);
    let f = api.game_functions.get("f").unwrap();
    assert_eq!(f.description, "first");
    assert_eq!(f.range, frames.game_functions[0].range);
}

#[test]
fn a_later_entry_of_the_same_name_takes_the_place_of_the_earlier() {
    let json = r#"{"entities":{"box":{"description":"one"},"gun":{},"box":{"description":"two"}}}"#;
    let api = from_json(json).unwrap();
    let names: Vec<&str> = api.entities.entries.iter().map(|e| e.name.as_str()).collect();
    assert_eq!(names, vec!["box", "gun"]);
    assert_eq!(api.entities.get("box").unwrap().description, "two");
}

#[test]
fn a_file_without_a_top_object_gives_no_schema() {
    assert!(ModApi::frames_from_json("").is_none());
    assert!(ModApi::frames_from_json("[1, 2]").is_none());
    assert!(ModApi::frames_from_json("7").is_none());
    assert!(ModApi::frames_from_json("{}").is_some());
    let tree = SyntaxTree::parse_json(b"{}").unwrap();
    assert!(ModApi::frames(&tree, b"{}").is_some());
}

#[test]
fn arguments_and_results_have_the_types_of_the_language() {
    assert_eq!(GrugDetailedType::ID.as_type(), Type::ID);
    assert_eq!(GrugDetailedType::F32.as_type(), Type::F32);
    assert_eq!(GrugDetailedType::I32.as_type(), Type::I32);
    assert_eq!(GrugDetailedType::Bool.as_type(), Type::Bool);
    assert_eq!(GrugDetailedType::String.as_type(), Type::String);
    assert_eq!(
        GrugDetailedType::Resource {
            resource_extension: ".png".to_string()
        }
        .as_type(),
        Type::Resource
    );
    assert_eq!(
        GrugDetailedType::Entity("gun".to_string()).as_type(),
        Type::Entity("gun".to_string())
    );
    let resource = GrugArgument::Resource {
        name: "path".to_string(),
        resource_extension: ".wav".to_string(),
    };
    assert_eq!(resource.get_name(), "path");
    assert_eq!(resource.get_type(), Type::String);
    let entity = GrugArgument::Entity {
        name: "who".to_string(),
        entity_type: "box".to_string(),
    };
    assert_eq!(entity.get_type(), Type::String);
    let unknown = GrugArgument::Unknown {
        name: "v".to_string(),
        ty: "vec2".to_string(),
    };
    assert_eq!(unknown.get_name(), "v");
    assert_eq!(unknown.get_type(), Type::Entity("vec2".to_string()));
    assert_eq!(
        GrugArgument::Bool {
            name: "b".to_string()
        }
        .get_type(),
        Type::Bool
    );
    assert_eq!(default_description(), "<NO DESCRIPTION>");
}

#[test]
fn a_game_function_is_shown_with_its_signature() {
    let function = GrugGameFunction {
        description: String::new(),
        arguments: vec![
            GrugArgument::ID {
                name: "entity_id".to_string(),
            },
            GrugArgument::String {
                name: "key".to_string(),
            },
            GrugArgument::I32 {
                name: "value".to_string(),
            },
        ],
        return_type: None,
        range: default_range(),
    };
    assert_eq!(
        function.format("map_set_i32"),
        "map_set_i32(entity_id: id, key: string, value: i32)"
    );
    let none = GrugGameFunction {
        description: String::new(),
        arguments: Vec::new(),
        return_type: Some(GrugDetailedType::Bool),
        range: default_range(),
    };
    assert_eq!(none.format("ready"), "ready() bool");
}

#[test]
fn an_entity_whose_value_did_not_decode_is_left_out() {
    let json = r#"{"entities":{"a":{"description":5},"b":{"description":"fine"},"c":{}}}"#;
    let frames = ModApi::frames_from_json(json).unwrap();
    let names: Vec<&str> = frames.entities.iter().map(|e| e.name.as_str()).collect();
    assert_eq!(names, vec!["a", "b", "c"]);
    assert_eq!(
        &json[frames.entities[0].value_start..frames.entities[0].value_end],
        r#"{"description":5}"#
    );
    let api = from_json(json).unwrap();
    let kept: Vec<&str> = api.entities.entries.iter().map(|e| e.name.as_str()).collect();
    assert_eq!(kept, vec!["b", "c"]);
    assert!(api.entities.get("a").is_none());
    // What is said of each entity decides, in order; what is missing at the
    // end counts as not decoded.
    let only_first = ModApi::from_frames(&frames, vec![true], Vec::new(), Vec::new());
    let kept: Vec<&str> = only_first.entities.entries.iter().map(|e| e.name.as_str()).collect();
    assert_eq!(kept, vec!["a"]);
    let none = ModApi::from_frames(&frames, Vec::new(), Vec::new(), Vec::new());
    assert_eq!(none.entities.len(), 0);
}
