//! The mod API: the entity types and the game functions that the host offers
//! to scripts.

use crate::server::document::{signature_text, type_label, Type, TypeView, VariableView};
use crate::server::name_map::NameMap;
use crate::syntax::{Point, Range};
use vstd::prelude::*;
use vstd::string::StringExecFns;

pub mod load;
pub mod parse;

verus! {

/// A lifecycle function that an entity type offers.
#[derive(Debug)]
pub struct GrugOnFunction {
    pub description: String,
    /// Where the schema defines it.
    pub range: Range,
}

/// An entity type of the schema.
#[derive(Debug)]
pub struct GrugEntity {
    pub description: String,
    pub on_functions: NameMap<GrugOnFunction>,
    /// Where the schema defines it.
    pub range: Range,
}

/// The range that stands for "nowhere".
pub open spec fn spec_default_range() -> Range {
    Range {
        start_byte: 0,
        end_byte: 0,
        start_point: Point { row: 0, column: 0 },
        end_point: Point { row: 0, column: 0 },
    }
}

/// The range of an entry that has none.
pub fn default_range() -> (r: Range)
    ensures
        r == spec_default_range(),
{
    Range {
        start_byte: 0,
        end_byte: 0,
        start_point: Point { row: 0, column: 0 },
        end_point: Point { row: 0, column: 0 },
    }
}

/// The description of an entry that gives none.
pub fn default_description() -> (s: String)
    ensures
        s@ == "<NO DESCRIPTION>"@,
{
    "<NO DESCRIPTION>".to_owned()
}

/// The type of a game function's result as the schema writes it.
#[derive(Debug, PartialEq, Eq)]
pub enum GrugDetailedType {
    String,
    F32,
    I32,
    ID,
    Bool,
    Resource { resource_extension: String },
    /// Any other name: an entity type.
    Entity(String),
}

/// The type that a detailed type stands for.
pub open spec fn detailed_type(t: GrugDetailedType) -> TypeView {
    match t {
        GrugDetailedType::ID => TypeView::ID,
        GrugDetailedType::F32 => TypeView::F32,
        GrugDetailedType::Bool => TypeView::Bool,
        GrugDetailedType::Entity(entity_type) => TypeView::Entity(entity_type@),
        GrugDetailedType::I32 => TypeView::I32,
        GrugDetailedType::String => TypeView::String,
        GrugDetailedType::Resource { .. } => TypeView::Resource,
    }
}

impl GrugDetailedType {
    /// The type that the detailed type stands for.
    pub fn as_type(&self) -> (t: Type)
        ensures
            t@ == detailed_type(*self),
    {
        match self {
            GrugDetailedType::ID => Type::ID,
            GrugDetailedType::F32 => Type::F32,
            GrugDetailedType::Bool => Type::Bool,
            GrugDetailedType::Entity(entity_type) => Type::Entity(entity_type.clone()),
            GrugDetailedType::I32 => Type::I32,
            GrugDetailedType::String => Type::String,
            GrugDetailedType::Resource { .. } => Type::Resource,
        }
    }
}

/// An argument of a game function. `Unknown` keeps an argument whose type
/// tag is none of the known ones, with the tag as it was written.
#[derive(Debug, PartialEq, Eq)]
pub enum GrugArgument {
    String { name: String },
    I32 { name: String },
    F32 { name: String },
    ID { name: String },
    Bool { name: String },
    Resource { name: String, resource_extension: String },
    Entity { name: String, entity_type: String },
    Unknown { name: String, ty: String },
}

/// The name of an argument.
pub open spec fn argument_name(a: GrugArgument) -> Seq<char> {
    match a {
        GrugArgument::String { name } => name@,
        GrugArgument::I32 { name } => name@,
        GrugArgument::F32 { name } => name@,
        GrugArgument::ID { name } => name@,
        GrugArgument::Bool { name } => name@,
        GrugArgument::Resource { name, .. } => name@,
        GrugArgument::Entity { name, .. } => name@,
        GrugArgument::Unknown { name, .. } => name@,
    }
}

/// The type under which an argument is shown. Resources and entities are
/// passed as strings; an unknown tag is read as the name of an entity type.
pub open spec fn argument_type(a: GrugArgument) -> TypeView {
    match a {
        GrugArgument::String { .. } => TypeView::String,
        GrugArgument::I32 { .. } => TypeView::I32,
        GrugArgument::F32 { .. } => TypeView::F32,
        GrugArgument::ID { .. } => TypeView::ID,
        GrugArgument::Bool { .. } => TypeView::Bool,
        GrugArgument::Resource { .. } => TypeView::String,
        GrugArgument::Entity { .. } => TypeView::String,
        GrugArgument::Unknown { ty, .. } => TypeView::Entity(ty@),
    }
}

impl GrugArgument {
    /// The name of the argument.
    pub fn get_name(&self) -> (s: &str)
        ensures
            s@ == argument_name(*self),
    {
        match self {
            GrugArgument::String { name } => name.as_str(),
            GrugArgument::I32 { name } => name.as_str(),
            GrugArgument::F32 { name } => name.as_str(),
            GrugArgument::ID { name } => name.as_str(),
            GrugArgument::Bool { name } => name.as_str(),
            GrugArgument::Resource { name, .. } => name.as_str(),
            GrugArgument::Entity { name, .. } => name.as_str(),
            GrugArgument::Unknown { name, .. } => name.as_str(),
        }
    }

    /// The type under which the argument is shown.
    pub fn get_type(&self) -> (t: Type)
        ensures
            t@ == argument_type(*self),
    {
        match self {
            GrugArgument::String { .. } => Type::String,
            GrugArgument::I32 { .. } => Type::I32,
            GrugArgument::F32 { .. } => Type::F32,
            GrugArgument::ID { .. } => Type::ID,
            GrugArgument::Bool { .. } => Type::Bool,
            GrugArgument::Resource { .. } => Type::String,
            GrugArgument::Entity { .. } => Type::String,
            GrugArgument::Unknown { ty, .. } => Type::Entity(ty.clone()),
        }
    }
}

/// A function that the host offers to scripts.
#[derive(Debug)]
pub struct GrugGameFunction {
    pub description: String,
    pub arguments: Vec<GrugArgument>,
    pub return_type: Option<GrugDetailedType>,
    /// Where the schema defines it.
    pub range: Range,
}

/// An argument as a parameter of a signature.
pub open spec fn argument_view(a: GrugArgument) -> VariableView {
    VariableView { name: argument_name(a), ty: argument_type(a), range: spec_default_range() }
}

/// The arguments as the parameters of a signature.
pub open spec fn argument_views(args: Seq<GrugArgument>) -> Seq<VariableView> {
    args.map_values(|a: GrugArgument| argument_view(a))
}

/// The type of the result, if the function has one.
pub open spec fn result_type(t: Option<GrugDetailedType>) -> Option<TypeView> {
    match t {
        Some(t) => Some(detailed_type(t)),
        None => None,
    }
}

impl GrugGameFunction {
    /// The signature of the function under the given name.
    pub open spec fn signature(&self, name: Seq<char>) -> Seq<char> {
        signature_text(name, argument_views(self.arguments@), result_type(self.return_type))
    }

    /// The signature of the function under the given name.
    pub fn format(&self, name: &str) -> (s: String)
        ensures
            s@ == self.signature(name@),
    {
        let mut text = name.to_owned();
        text.append("(");
        let ghost head = text@;
        let ghost views = argument_views(self.arguments@);
        let mut idx: usize = 0;
        while idx < self.arguments.len()
            invariant
                idx <= self.arguments@.len(),
                views == argument_views(self.arguments@),
                text@ == head + crate::server::document::params_text(views, idx as int),
            decreases self.arguments@.len() - idx,
        {
            let arg = &self.arguments[idx];
            let ghost before = text@;
            if idx > 0 {
                text.append(", ");
            }
            text.append(arg.get_name());
            text.append(": ");
            let ty = arg.get_type();
            text.append(ty.as_str());
            proof {
                let shown = crate::server::document::variable_text(views[idx as int]);
                assert(views[idx as int] == argument_view(*arg));
                assert(shown == argument_name(*arg) + ": "@ + type_label(argument_type(*arg)));
                if idx > 0 {
                    assert(text@ =~= head + (crate::server::document::params_text(
                        views,
                        idx as int,
                    ) + ", "@ + shown));
                } else {
                    assert(crate::server::document::params_text(views, 0)
                        =~= Seq::<char>::empty());
                    assert(text@ =~= head + shown);
                }
            }
            idx += 1;
        }
        text.append(")");
        match &self.return_type {
            Some(ret_type) => {
                text.append(" ");
                let ty = ret_type.as_type();
                text.append(ty.as_str());
            },
            None => {},
        }
        text
    }
}

/// The schema: entity types and game functions, each by name. A value of it
/// is never changed once made; a reload makes a new one.
#[derive(Debug)]
pub struct ModApi {
    pub entities: NameMap<GrugEntity>,
    pub game_functions: NameMap<GrugGameFunction>,
}

impl ModApi {
    /// In both maps, and in the map of each entity, no name occurs twice.
    pub open spec fn wf(&self) -> bool {
        &&& self.entities.wf()
        &&& self.game_functions.wf()
        &&& forall|i: int|
            0 <= i < self.entities.entries@.len() ==> (#[trigger] self.entities.entries@[i]).value.on_functions.wf()
    }

    /// The schema without entries.
    pub fn empty() -> (api: ModApi)
        ensures
            api.wf(),
            api.entities.entries@.len() == 0,
            api.game_functions.entries@.len() == 0,
    {
        ModApi { entities: NameMap::new(), game_functions: NameMap::new() }
    }
}

impl Default for ModApi {
    fn default() -> (api: ModApi)
        ensures
            api.wf(),
            api.entities.entries@.len() == 0,
            api.game_functions.entries@.len() == 0,
    {
        ModApi::empty()
    }
}

} // verus!
