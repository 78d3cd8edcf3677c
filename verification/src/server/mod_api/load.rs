//! Assembling the schema from the frames of its entries and the records
//! decoded from their values.

use crate::server::mod_api::parse::{
    entity_frames, entity_frames_upto, entity_views, entry_of, EntityFrame, EntryFrame,
    SchemaFrames,
};
use crate::server::mod_api::{GrugEntity, GrugGameFunction, GrugOnFunction, ModApi};
use crate::server::name_map::{
    inserted, lemma_inserted, lemma_position_of, position_of, Entry, NameMap,
};
use crate::syntax::SyntaxTree;
use vstd::prelude::*;

verus! {

/// The record decoded for the entry at position `k`, if one was decoded.
pub open spec fn decoded_at<T>(decoded: Seq<Option<T>>, k: int) -> Option<T> {
    if 0 <= k < decoded.len() {
        decoded[k]
    } else {
        None
    }
}

/// The lifecycle function of an entry: the decoded record, stamped with the
/// range of the pair that defines it.
pub open spec fn stamped_on_function(f: GrugOnFunction, frame: EntryFrame) -> GrugOnFunction {
    GrugOnFunction { description: f.description, range: frame.range }
}

/// The game function of an entry: the decoded record, stamped with the range
/// of the pair that defines it.
pub open spec fn stamped_game_function(f: GrugGameFunction, frame: EntryFrame) -> GrugGameFunction {
    GrugGameFunction {
        description: f.description,
        arguments: f.arguments,
        return_type: f.return_type,
        range: frame.range,
    }
}

/// The map of the lifecycle functions among the first `upto` entries. An
/// entry whose value was not decoded is left out.
pub open spec fn on_function_map_upto(
    frames: Seq<EntryFrame>,
    decoded: Seq<Option<GrugOnFunction>>,
    upto: int,
) -> Seq<Entry<GrugOnFunction>>
    decreases upto,
{
    if upto <= 0 || upto > frames.len() {
        Seq::empty()
    } else {
        let before = on_function_map_upto(frames, decoded, upto - 1);
        match decoded_at(decoded, upto - 1) {
            Some(f) => inserted(
                before,
                frames[upto - 1].name,
                stamped_on_function(f, frames[upto - 1]),
            ),
            None => before,
        }
    }
}

/// The map of the game functions among the first `upto` entries. An entry
/// whose value was not decoded is left out.
pub open spec fn game_function_map_upto(
    frames: Seq<EntryFrame>,
    decoded: Seq<Option<GrugGameFunction>>,
    upto: int,
) -> Seq<Entry<GrugGameFunction>>
    decreases upto,
{
    if upto <= 0 || upto > frames.len() {
        Seq::empty()
    } else {
        let before = game_function_map_upto(frames, decoded, upto - 1);
        match decoded_at(decoded, upto - 1) {
            Some(f) => inserted(
                before,
                frames[upto - 1].name,
                stamped_game_function(f, frames[upto - 1]),
            ),
            None => before,
        }
    }
}

/// The records decoded for the lifecycle functions of the entity at
/// position `k`.
pub open spec fn decoded_for(decoded: Seq<Vec<Option<GrugOnFunction>>>, k: int) -> Seq<
    Option<GrugOnFunction>,
> {
    if 0 <= k < decoded.len() {
        decoded[k]@
    } else {
        Seq::empty()
    }
}

/// Whether the value of the entity at position `k` decoded into an entity
/// record. A flag that is missing at the end of the list counts as no.
pub open spec fn decoded_entity(entities: Seq<bool>, k: int) -> bool {
    0 <= k < entities.len() && entities[k]
}

/// The entity of a frame: its description, its range, and the map of its
/// lifecycle functions.
pub open spec fn is_entity_of(e: GrugEntity, frame: EntityFrame, decoded: Seq<Option<GrugOnFunction>>) -> bool {
    &&& e.description == frame.description
    &&& e.range == frame.range
    &&& e.on_functions.entries@ == on_function_map_upto(
        frame.on_functions@,
        decoded,
        frame.on_functions@.len() as int,
    )
}

/// The entries are those of the entity frames among the first `upto` whose
/// value decoded, entered in order: each under the name of its frame, a
/// later one in place of an earlier one of the same name. A frame whose
/// value did not decode is left out.
pub open spec fn is_entity_map_upto(
    entries: Seq<Entry<GrugEntity>>,
    frames: Seq<EntityFrame>,
    entities: Seq<bool>,
    decoded: Seq<Vec<Option<GrugOnFunction>>>,
    upto: int,
) -> bool
    decreases upto,
{
    if upto <= 0 || upto > frames.len() {
        entries.len() == 0
    } else if !decoded_entity(entities, upto - 1) {
        is_entity_map_upto(entries, frames, entities, decoded, upto - 1)
    } else {
        exists|before: Seq<Entry<GrugEntity>>, e: GrugEntity|
            #![trigger inserted(before, frames[upto - 1].name, e)]
            {
                &&& is_entity_map_upto(before, frames, entities, decoded, upto - 1)
                &&& is_entity_of(e, frames[upto - 1], decoded_for(decoded, upto - 1))
                &&& entries == inserted(before, frames[upto - 1].name, e)
            }
    }
}

fn assemble_on_functions(frames: &Vec<EntryFrame>, decoded: &mut Vec<Option<GrugOnFunction>>) -> (r:
    NameMap<GrugOnFunction>)
    ensures
        r.wf(),
        r.entries@ == on_function_map_upto(frames@, old(decoded)@, frames@.len() as int),
{
    let mut map: NameMap<GrugOnFunction> = NameMap::new();
    let ghost given = decoded@;
    let mut k: usize = 0;
    while k < frames.len()
        invariant
            k <= frames@.len(),
            decoded@.len() == given.len(),
            forall|j: int| k <= j < given.len() ==> decoded@[j] == given[j],
            map.wf(),
            map.entries@ == on_function_map_upto(frames@, given, k as int),
        decreases frames@.len() - k,
    {
        if k < decoded.len() {
            match decoded[k].take() {
                Some(f) => {
                    let frame = &frames[k];
                    let value = GrugOnFunction { description: f.description, range: frame.range };
                    proof {
                        lemma_inserted(map.entries@, frame.name, value);
                    }
                    map.insert(frame.name.clone(), value);
                },
                None => {},
            }
        }
        k += 1;
    }
    map
}

fn assemble_game_functions(frames: &Vec<EntryFrame>, decoded: &mut Vec<Option<GrugGameFunction>>) -> (r:
    NameMap<GrugGameFunction>)
    ensures
        r.wf(),
        r.entries@ == game_function_map_upto(frames@, old(decoded)@, frames@.len() as int),
{
    let mut map: NameMap<GrugGameFunction> = NameMap::new();
    let ghost given = decoded@;
    let mut k: usize = 0;
    while k < frames.len()
        invariant
            k <= frames@.len(),
            decoded@.len() == given.len(),
            forall|j: int| k <= j < given.len() ==> decoded@[j] == given[j],
            map.wf(),
            map.entries@ == game_function_map_upto(frames@, given, k as int),
        decreases frames@.len() - k,
    {
        if k < decoded.len() {
            match decoded[k].take() {
                Some(f) => {
                    let frame = &frames[k];
                    let value = GrugGameFunction {
                        description: f.description,
                        arguments: f.arguments,
                        return_type: f.return_type,
                        range: frame.range,
                    };
                    proof {
                        lemma_inserted(map.entries@, frame.name, value);
                    }
                    map.insert(frame.name.clone(), value);
                },
                None => {},
            }
        }
        k += 1;
    }
    map
}

/// Every entity of the map has a well-formed map of lifecycle functions.
pub open spec fn entities_wf(entries: Seq<Entry<GrugEntity>>) -> bool {
    forall|i: int| 0 <= i < entries.len() ==> (#[trigger] entries[i]).value.on_functions.wf()
}

proof fn lemma_inserted_entity(entries: Seq<Entry<GrugEntity>>, name: String, e: GrugEntity)
    requires
        entities_wf(entries),
        e.on_functions.wf(),
    ensures
        entities_wf(inserted(entries, name, e)),
{
    lemma_position_of(entries, name@, 0);
    let after = inserted(entries, name, e);
    assert forall|i: int| 0 <= i < after.len() implies (#[trigger] after[i]).value.on_functions.wf() by {
        match position_of(entries, name@, 0) {
            Some(p) => {
                if i != p {
                    assert(after[i] == entries[i]);
                }
            },
            None => {
                if i < entries.len() {
                    assert(after[i] == entries[i]);
                }
            },
        }
    }
}

proof fn lemma_entity_map_step(
    before: Seq<Entry<GrugEntity>>,
    e: GrugEntity,
    frames: Seq<EntityFrame>,
    entities: Seq<bool>,
    decoded: Seq<Vec<Option<GrugOnFunction>>>,
    upto: int,
)
    requires
        1 <= upto <= frames.len(),
        decoded_entity(entities, upto - 1),
        is_entity_map_upto(before, frames, entities, decoded, upto - 1),
        is_entity_of(e, frames[upto - 1], decoded_for(decoded, upto - 1)),
    ensures
        is_entity_map_upto(
            inserted(before, frames[upto - 1].name, e),
            frames,
            entities,
            decoded,
            upto,
        ),
{
    let entries = inserted(before, frames[upto - 1].name, e);
    assert(entries == inserted(before, frames[upto - 1].name, e));
}

impl ModApi {
    /// Assembles the schema from its frames and what the decoder made of
    /// their values.
    ///
    /// `entities` says, for each entity frame in order, whether its value
    /// decoded into an entity record. `on_functions` holds, for each entity
    /// frame in order, the records decoded for its lifecycle functions in
    /// order, and `game_functions` the records decoded for the game
    /// functions; `None` stands for a value that could not be decoded. What
    /// is missing at the end of a list counts as not decoded. An entry that
    /// did not decode is left out, and the others still load. Every record is
    /// stamped with the range of the pair that defines it.
    pub fn from_frames(
        frames: &SchemaFrames,
        entities: Vec<bool>,
        on_functions: Vec<Vec<Option<GrugOnFunction>>>,
        game_functions: Vec<Option<GrugGameFunction>>,
    ) -> (api: ModApi)
        ensures
            api.wf(),
            is_entity_map_upto(
                api.entities.entries@,
                frames.entities@,
                entities@,
                on_functions@,
                frames.entities@.len() as int,
            ),
            api.game_functions.entries@ == game_function_map_upto(
                frames.game_functions@,
                game_functions@,
                frames.game_functions@.len() as int,
            ),
    {
        let mut game_functions = game_functions;
        let mut on_functions = on_functions;
        let ghost given = on_functions@;
        let games = assemble_game_functions(&frames.game_functions, &mut game_functions);
        let mut map: NameMap<GrugEntity> = NameMap::new();
        let mut k: usize = 0;
        while k < frames.entities.len()
            invariant
                k <= frames.entities@.len(),
                on_functions@.len() == given.len(),
                forall|j: int| k <= j < given.len() ==> on_functions@[j] == given[j],
                map.wf(),
                entities_wf(map.entries@),
                is_entity_map_upto(map.entries@, frames.entities@, entities@, given, k as int),
            decreases frames.entities@.len() - k,
        {
            if k < entities.len() && entities[k] {
                let frame = &frames.entities[k];
                let functions = if k < on_functions.len() {
                    assemble_on_functions(&frame.on_functions, &mut on_functions[k])
                } else {
                    let mut none: Vec<Option<GrugOnFunction>> = Vec::new();
                    assemble_on_functions(&frame.on_functions, &mut none)
                };
                let entity = GrugEntity {
                    description: frame.description.clone(),
                    on_functions: functions,
                    range: frame.range,
                };
                let ghost before = map.entries@;
                proof {
                    lemma_inserted(before, frame.name, entity);
                    lemma_inserted_entity(before, frame.name, entity);
                    assert(is_entity_of(entity, *frame, decoded_for(given, k as int)));
                }
                map.insert(frame.name.clone(), entity);
                proof {
                    lemma_entity_map_step(
                        before,
                        entity,
                        frames.entities@,
                        entities@,
                        given,
                        k + 1,
                    );
                }
            }
            k += 1;
        }
        ModApi { entities: map, game_functions: games }
    }
}

/// No two of the first `upto` frames whose value decoded bear the same name.
pub open spec fn distinct_frames(frames: Seq<EntityFrame>, entities: Seq<bool>, upto: int) -> bool {
    forall|i: int, j: int|
        0 <= i < j < upto && j < frames.len() && decoded_entity(entities, i) && decoded_entity(
            entities,
            j,
        ) ==> (#[trigger] frames[i]).name@ != (#[trigger] frames[j]).name@
}

/// The number of frames among the first `upto` whose value decoded.
pub open spec fn decoded_count(entities: Seq<bool>, upto: int) -> nat
    decreases upto,
{
    if upto <= 0 {
        0
    } else if decoded_entity(entities, upto - 1) {
        decoded_count(entities, upto - 1) + 1
    } else {
        decoded_count(entities, upto - 1)
    }
}

/// The name is that of one of the first `upto` frames whose value decoded.
pub open spec fn names_decoded_frame(
    name: Seq<char>,
    frames: Seq<EntityFrame>,
    entities: Seq<bool>,
    upto: int,
) -> bool {
    exists|k: int|
        0 <= k < upto && k < frames.len() && decoded_entity(entities, k) && (#[trigger] frames[k]).name@
            == name
}

/// Where no two entity frames whose value decoded bear the same name, the
/// schema holds one entity for each of them, and every entity of the schema
/// bears the name of one of them.
pub proof fn lemma_one_entity_per_frame(
    entries: Seq<Entry<GrugEntity>>,
    frames: Seq<EntityFrame>,
    entities: Seq<bool>,
    decoded: Seq<Vec<Option<GrugOnFunction>>>,
    upto: int,
)
    requires
        0 <= upto <= frames.len(),
        is_entity_map_upto(entries, frames, entities, decoded, upto),
        distinct_frames(frames, entities, upto),
    ensures
        entries.len() == decoded_count(entities, upto),
        forall|j: int|
            0 <= j < entries.len() ==> names_decoded_frame(
                (#[trigger] entries[j]).name@,
                frames,
                entities,
                upto,
            ),
    decreases upto,
{
    if upto > 0 {
        if !decoded_entity(entities, upto - 1) {
            lemma_one_entity_per_frame(entries, frames, entities, decoded, upto - 1);
            assert forall|j: int| 0 <= j < entries.len() implies names_decoded_frame(
                (#[trigger] entries[j]).name@,
                frames,
                entities,
                upto,
            ) by {
                assert(names_decoded_frame(entries[j].name@, frames, entities, upto - 1));
                let k = choose|k: int|
                    0 <= k < upto - 1 && k < frames.len() && decoded_entity(entities, k) && (
                    #[trigger] frames[k]).name@ == entries[j].name@;
                assert(frames[k].name@ == entries[j].name@);
            }
        } else {
            let (before, e) = choose|before: Seq<Entry<GrugEntity>>, e: GrugEntity|
                #![trigger inserted(before, frames[upto - 1].name, e)]
                {
                    &&& is_entity_map_upto(before, frames, entities, decoded, upto - 1)
                    &&& is_entity_of(e, frames[upto - 1], decoded_for(decoded, upto - 1))
                    &&& entries == inserted(before, frames[upto - 1].name, e)
                };
            lemma_one_entity_per_frame(before, frames, entities, decoded, upto - 1);
            lemma_position_of(before, frames[upto - 1].name@, 0);
            assert(position_of(before, frames[upto - 1].name@, 0) is None) by {
                if position_of(before, frames[upto - 1].name@, 0) is Some {
                    let p = position_of(before, frames[upto - 1].name@, 0)->0;
                    assert(names_decoded_frame(before[p].name@, frames, entities, upto - 1));
                    let k = choose|k: int|
                        0 <= k < upto - 1 && k < frames.len() && decoded_entity(entities, k) && (
                        #[trigger] frames[k]).name@ == before[p].name@;
                    assert(frames[k].name@ != frames[upto - 1].name@);
                }
            }
            assert forall|j: int| 0 <= j < entries.len() implies names_decoded_frame(
                (#[trigger] entries[j]).name@,
                frames,
                entities,
                upto,
            ) by {
                if j < before.len() {
                    assert(entries[j] == before[j]);
                    assert(names_decoded_frame(before[j].name@, frames, entities, upto - 1));
                    let k = choose|k: int|
                        0 <= k < upto - 1 && k < frames.len() && decoded_entity(entities, k) && (
                        #[trigger] frames[k]).name@ == before[j].name@;
                    assert(frames[k].name@ == entries[j].name@);
                } else {
                    assert(frames[upto - 1].name@ == entries[j].name@);
                }
            }
        }
    }
}

/// The number of entries among the first `upto` children of the object
/// `obj`.
pub open spec fn entry_count(tree: &SyntaxTree, json: Seq<u8>, obj: int, upto: int) -> nat
    decreases upto,
{
    let kids = tree.nodes@[obj].children@;
    if upto <= 0 || upto > kids.len() {
        0
    } else if entry_of(tree, json, kids[upto - 1] as int) is Some {
        entry_count(tree, json, obj, upto - 1) + 1
    } else {
        entry_count(tree, json, obj, upto - 1)
    }
}

/// An object of entities yields one entity frame for each of its entries,
/// and none for a child that is not an entry: a child that is no pair, or
/// whose key is no string that reads as UTF-8, or whose value is no object.
pub proof fn lemma_one_frame_per_entry(tree: &SyntaxTree, json: Seq<u8>, obj: int, upto: int)
    ensures
        entity_frames_upto(tree, json, obj, upto).len() == entry_count(tree, json, obj, upto),
    decreases upto,
{
    let kids = tree.nodes@[obj].children@;
    if upto <= 0 || upto > kids.len() {
    } else {
        lemma_one_frame_per_entry(tree, json, obj, upto - 1);
    }
}

/// A schema loaded from an object of entities holds exactly one entity for
/// each entry of the object whose value decoded, where no two of these bear
/// the same name. An entry of the wrong shape is missing from it, and nothing
/// else is: neither a child that is no pair, or whose key is no string, or
/// whose value is no object, all of which get no frame, nor a pair whose
/// value did not decode into an entity record.
pub proof fn lemma_schema_holds_the_valid_entities(
    tree: &SyntaxTree,
    json: Seq<u8>,
    obj: int,
    frames: Seq<EntityFrame>,
    entities: Seq<bool>,
    decoded: Seq<Vec<Option<GrugOnFunction>>>,
    entries: Seq<Entry<GrugEntity>>,
)
    requires
        entity_views(frames) == entity_frames(tree, json, obj),
        is_entity_map_upto(entries, frames, entities, decoded, frames.len() as int),
        distinct_frames(frames, entities, frames.len() as int),
    ensures
        frames.len() == entry_count(tree, json, obj, tree.nodes@[obj].children@.len() as int),
        entries.len() == decoded_count(entities, frames.len() as int),
        entries.len() <= frames.len(),
{
    lemma_one_entity_per_frame(entries, frames, entities, decoded, frames.len() as int);
    lemma_one_frame_per_entry(tree, json, obj, tree.nodes@[obj].children@.len() as int);
    assert(entity_views(frames).len() == frames.len());
    lemma_decoded_count_bound(entities, frames.len() as int);
}

/// Of the first `upto` frames, at most `upto` decoded.
proof fn lemma_decoded_count_bound(entities: Seq<bool>, upto: int)
    requires
        0 <= upto,
    ensures
        decoded_count(entities, upto) <= upto,
    decreases upto,
{
    if upto > 0 {
        lemma_decoded_count_bound(entities, upto - 1);
    }
}

} // verus!
