//! A document: its bytes, its syntax tree, and the declarations read off the
//! top level of the tree.

use crate::parsing::parsed_nodes;
use crate::syntax::{raw_valid, Range, RawNodeView, SyntaxTree};
use crate::text::{slice_span, span, str_is, string_from_utf8};
use vstd::prelude::*;
use vstd::string::StringExecFns;
use vstd::utf8::{decode_utf8, valid_utf8};

verus! {

/// The type of a variable, a parameter or a result. A name outside the fixed
/// set stands for an entity type of the schema.
#[derive(Debug, Clone, PartialEq, Eq, PartialOrd, Ord)]
pub enum Type {
    I32,
    F32,
    ID,
    Bool,
    String,
    Resource,
    Entity(String),
}

/// A [`Type`] as a plain value.
pub enum TypeView {
    I32,
    F32,
    ID,
    Bool,
    String,
    Resource,
    Entity(Seq<char>),
}

impl View for Type {
    type V = TypeView;

    open spec fn view(&self) -> TypeView {
        match self {
            Type::I32 => TypeView::I32,
            Type::F32 => TypeView::F32,
            Type::ID => TypeView::ID,
            Type::Bool => TypeView::Bool,
            Type::String => TypeView::String,
            Type::Resource => TypeView::Resource,
            Type::Entity(s) => TypeView::Entity(s@),
        }
    }
}

/// The type that a type name denotes.
pub open spec fn type_of(s: Seq<char>) -> TypeView {
    if s == "f32"@ {
        TypeView::F32
    } else if s == "i32"@ {
        TypeView::I32
    } else if s == "string"@ {
        TypeView::String
    } else if s == "bool"@ {
        TypeView::Bool
    } else if s == "id"@ {
        TypeView::ID
    } else if s == "resource"@ {
        TypeView::Resource
    } else {
        TypeView::Entity(s)
    }
}

/// The name a type is written with.
pub open spec fn type_label(t: TypeView) -> Seq<char> {
    match t {
        TypeView::ID => "id"@,
        TypeView::Bool => "bool"@,
        TypeView::String => "string"@,
        TypeView::I32 => "i32"@,
        TypeView::F32 => "f32"@,
        TypeView::Resource => "resource"@,
        TypeView::Entity(s) => s,
    }
}

impl Type {
    /// The type that the name `s` denotes.
    pub fn from_str(s: &str) -> (t: Type)
        ensures
            t@ == type_of(s@),
    {
        if str_is(s, "f32") {
            Type::F32
        } else if str_is(s, "i32") {
            Type::I32
        } else if str_is(s, "string") {
            Type::String
        } else if str_is(s, "bool") {
            Type::Bool
        } else if str_is(s, "id") {
            Type::ID
        } else if str_is(s, "resource") {
            Type::Resource
        } else {
            Type::Entity(s.to_owned())
        }
    }

    /// The name that the type is written with.
    pub fn as_str<'a>(&'a self) -> (s: &'a str)
        ensures
            s@ == type_label(self@),
    {
        match self {
            Type::ID => "id",
            Type::Bool => "bool",
            Type::String => "string",
            Type::I32 => "i32",
            Type::F32 => "f32",
            Type::Resource => "resource",
            Type::Entity(s) => s.as_str(),
        }
    }

    /// A copy of the type.
    pub fn duplicate(&self) -> (t: Type)
        ensures
            t@ == self@,
    {
        match self {
            Type::ID => Type::ID,
            Type::Bool => Type::Bool,
            Type::String => Type::String,
            Type::I32 => Type::I32,
            Type::F32 => Type::F32,
            Type::Resource => Type::Resource,
            Type::Entity(s) => Type::Entity(s.clone()),
        }
    }
}

/// A declared name with its type and the range of its declaration. Globals,
/// locals and function parameters are all of this shape.
#[derive(Clone, Debug, PartialEq, Eq)]
pub struct Variable {
    pub name: String,
    pub ty: Type,
    pub range: Range,
}

/// A [`Variable`] as a plain value.
pub struct VariableView {
    pub name: Seq<char>,
    pub ty: TypeView,
    pub range: Range,
}

impl View for Variable {
    type V = VariableView;

    open spec fn view(&self) -> VariableView {
        VariableView { name: self.name@, ty: self.ty@, range: self.range }
    }
}

/// The views of a list of variables.
pub open spec fn variable_views(vars: Seq<Variable>) -> Seq<VariableView> {
    vars.map_values(|v: Variable| v@)
}

/// `name: type`, the way a variable is shown.
pub open spec fn variable_text(v: VariableView) -> Seq<char> {
    v.name + ": "@ + type_label(v.ty)
}

impl Variable {
    /// The variable as `name: type`.
    pub fn format(&self) -> (s: String)
        ensures
            s@ == variable_text(self@),
    {
        let mut out = self.name.clone();
        out.append(": ");
        out.append(self.ty.as_str());
        out
    }

    /// A copy of the variable.
    pub fn duplicate(&self) -> (v: Variable)
        ensures
            v@ == self@,
    {
        Variable { name: self.name.clone(), ty: self.ty.duplicate(), range: self.range }
    }
}

/// A parameter of a function: a name with its type.
pub type Parameter = Variable;

/// A function declared in a document: a helper or a lifecycle function.
#[derive(Debug)]
pub struct Function {
    pub name: String,
    pub params: Vec<Parameter>,
    pub ret_type: Option<Type>,
    pub range: Range,
}

/// A [`Function`] as a plain value.
pub struct FunctionView {
    pub name: Seq<char>,
    pub params: Seq<VariableView>,
    pub ret_type: Option<TypeView>,
    pub range: Range,
}

/// The view of an optional type.
pub open spec fn opt_type(t: Option<Type>) -> Option<TypeView> {
    match t {
        Some(t) => Some(t@),
        None => None,
    }
}

impl View for Function {
    type V = FunctionView;

    open spec fn view(&self) -> FunctionView {
        FunctionView {
            name: self.name@,
            params: variable_views(self.params@),
            ret_type: opt_type(self.ret_type),
            range: self.range,
        }
    }
}

/// The views of a list of functions.
pub open spec fn function_views(funcs: Seq<Function>) -> Seq<FunctionView> {
    funcs.map_values(|f: Function| f@)
}

/// The first `upto` parameters as they stand between the brackets of a
/// signature: `a: i32, b: f32`.
pub open spec fn params_text(params: Seq<VariableView>, upto: int) -> Seq<char>
    decreases upto,
{
    if upto <= 0 || upto > params.len() {
        Seq::empty()
    } else if upto == 1 {
        variable_text(params[0])
    } else {
        params_text(params, upto - 1) + ", "@ + variable_text(params[upto - 1])
    }
}

/// `name(params)`, followed by a blank and the result type where there is
/// one.
pub open spec fn signature_text(
    name: Seq<char>,
    params: Seq<VariableView>,
    ret_type: Option<TypeView>,
) -> Seq<char> {
    let head = name + "("@ + params_text(params, params.len() as int) + ")"@;
    match ret_type {
        Some(t) => head + " "@ + type_label(t),
        None => head,
    }
}

impl Function {
    /// The signature of the function.
    pub fn format(&self) -> (s: String)
        ensures
            s@ == signature_text(self@.name, self@.params, self@.ret_type),
    {
        let mut out = self.name.clone();
        out.append("(");
        let ghost head = out@;
        let mut idx: usize = 0;
        while idx < self.params.len()
            invariant
                idx <= self.params@.len(),
                out@ == head + params_text(variable_views(self.params@), idx as int),
            decreases self.params@.len() - idx,
        {
            let param = &self.params[idx];
            let ghost before = out@;
            if idx > 0 {
                out.append(", ");
            }
            out.append(param.name.as_str());
            out.append(": ");
            out.append(param.ty.as_str());
            proof {
                let views = variable_views(self.params@);
                assert(views[idx as int] == param@);
                assert(variable_text(param@) == param.name@ + ": "@ + type_label(param.ty@));
                if idx > 0 {
                    assert(out@ == before + ", "@ + param.name@ + ": "@ + type_label(param.ty@));
                    assert(out@ =~= head + (params_text(views, idx as int) + ", "@ + variable_text(
                        param@,
                    )));
                } else {
                    assert(params_text(views, 0) =~= Seq::<char>::empty());
                    assert(out@ =~= head + variable_text(param@));
                }
            }
            idx += 1;
        }
        out.append(")");
        match &self.ret_type {
            Some(ret_type) => {
                out.append(" ");
                out.append(ret_type.as_str());
            },
            None => {},
        }
        out
    }
}

/// The bytes of the document that node `i` covers.
pub open spec fn node_text(tree: &SyntaxTree, content: Seq<u8>, i: int) -> Seq<u8> {
    span(
        content,
        tree.nodes@[i].range.start_byte as int,
        tree.nodes@[i].range.end_byte as int,
    )
}

/// The bytes of the document that node `node` covers.
pub fn node_get_content<'a>(content: &'a [u8], tree: &SyntaxTree, node: usize) -> (r: &'a [u8])
    requires
        node < tree.nodes@.len(),
    ensures
        r@ == node_text(tree, content@, node as int),
{
    let range = tree.range(node);
    slice_span(content, range.start_byte, range.end_byte)
}

/// Why a node could not be read as a declaration.
#[derive(Debug)]
pub enum ParseVariableDeclarationErr {
    /// The name or the type is not UTF-8.
    StringParseError(std::string::FromUtf8Error),
    /// The node is neither a variable declaration nor a function parameter;
    /// its kind is given.
    UnsupportedNodeType(String),
    /// The node has no name or no type.
    MissingField,
}

/// What reading a node as a declaration gives.
pub enum DeclarationOutcome {
    Decoded(VariableView),
    Unsupported,
    MissingField,
    BadText,
}

/// Reads the name and the type of node `i` from its `name` and `type`
/// children.
pub open spec fn decode_fields(tree: &SyntaxTree, content: Seq<u8>, i: int) -> DeclarationOutcome {
    match (tree.spec_child_by_field(i, "name"@), tree.spec_child_by_field(i, "type"@)) {
        (Some(n), Some(t)) => {
            let name = node_text(tree, content, n as int);
            let ty = node_text(tree, content, t as int);
            if valid_utf8(name) && valid_utf8(ty) {
                DeclarationOutcome::Decoded(
                    VariableView {
                        name: decode_utf8(name),
                        ty: type_of(decode_utf8(ty)),
                        range: tree.nodes@[i].range,
                    },
                )
            } else {
                DeclarationOutcome::BadText
            }
        },
        _ => DeclarationOutcome::MissingField,
    }
}

/// Node `i` is a variable declaration or a function parameter.
pub open spec fn is_declaration(tree: &SyntaxTree, i: int) -> bool {
    tree.is_kind(i, "variable_declaration"@) || tree.is_kind(i, "function_parameter"@)
}

/// Reads node `i` as a declaration.
pub open spec fn declaration_outcome(tree: &SyntaxTree, content: Seq<u8>, i: int) -> DeclarationOutcome {
    if is_declaration(tree, i) {
        decode_fields(tree, content, i)
    } else {
        DeclarationOutcome::Unsupported
    }
}

/// The declaration that node `i` holds, if it can be read.
pub open spec fn declared(tree: &SyntaxTree, content: Seq<u8>, i: int) -> Option<VariableView> {
    match declaration_outcome(tree, content, i) {
        DeclarationOutcome::Decoded(v) => Some(v),
        _ => None,
    }
}

/// The result agrees with the outcome, error for error.
pub open spec fn outcome_matches(
    r: Result<Variable, ParseVariableDeclarationErr>,
    outcome: DeclarationOutcome,
) -> bool {
    match r {
        Ok(v) => outcome == DeclarationOutcome::Decoded(v@),
        Err(ParseVariableDeclarationErr::StringParseError(_)) => outcome is BadText,
        Err(ParseVariableDeclarationErr::UnsupportedNodeType(_)) => outcome is Unsupported,
        Err(ParseVariableDeclarationErr::MissingField) => outcome is MissingField,
    }
}

/// Reads name and type of a node from its `name` and `type` children,
/// whatever the node's kind.
pub fn read_name_and_type(content: &[u8], tree: &SyntaxTree, node: usize) -> (r: Result<
    Variable,
    ParseVariableDeclarationErr,
>)
    requires
        tree.wf(),
        node < tree.nodes@.len(),
    ensures
        outcome_matches(r, decode_fields(tree, content@, node as int)),
{
    let name = match tree.child_by_field_name(node, "name") {
        Some(n) => n,
        None => {
            return Err(ParseVariableDeclarationErr::MissingField);
        },
    };
    let kind = match tree.child_by_field_name(node, "type") {
        Some(t) => t,
        None => {
            return Err(ParseVariableDeclarationErr::MissingField);
        },
    };
    let name_bytes = node_get_content(content, tree, name);
    let kind_bytes = node_get_content(content, tree, kind);
    let name = match string_from_utf8(name_bytes) {
        Ok(s) => s,
        Err(err) => {
            return Err(ParseVariableDeclarationErr::StringParseError(err));
        },
    };
    let kind = match string_from_utf8(kind_bytes) {
        Ok(s) => s,
        Err(err) => {
            return Err(ParseVariableDeclarationErr::StringParseError(err));
        },
    };
    let ty = Type::from_str(kind.as_str());
    Ok(Variable { name, ty, range: tree.range(node) })
}

/// Reads a variable declaration or a function parameter.
pub fn parse_variable_declaration(content: &[u8], tree: &SyntaxTree, node: usize) -> (r: Result<
    Variable,
    ParseVariableDeclarationErr,
>)
    requires
        tree.wf(),
        node < tree.nodes@.len(),
    ensures
        outcome_matches(r, declaration_outcome(tree, content@, node as int)),
        r matches Err(ParseVariableDeclarationErr::UnsupportedNodeType(k)) ==> k@
            == tree.nodes@[node as int].kind@,
{
    if !tree.kind_is(node, "variable_declaration") && !tree.kind_is(node, "function_parameter") {
        return Err(ParseVariableDeclarationErr::UnsupportedNodeType(tree.kind(node).to_owned()));
    }
    read_name_and_type(content, tree, node)
}

/// The index just after the last `-` among the first `upto` characters, or 0
/// where there is none.
pub open spec fn after_last_dash(s: Seq<char>, upto: int) -> int
    decreases upto,
{
    if upto <= 0 || upto > s.len() {
        0
    } else if s[upto - 1] == '-' {
        upto
    } else {
        after_last_dash(s, upto - 1)
    }
}

/// The entity type that a document's name gives: what follows the last `-`,
/// without the extension `.grug`. A name that does not end in the extension
/// gives none.
pub open spec fn entity_type_of(name: Seq<char>) -> Option<Seq<char>> {
    let start = after_last_dash(name, name.len() as int);
    let ext = ".grug"@;
    if name.len() - start >= ext.len() && name.subrange(name.len() - ext.len(), name.len() as int)
        == ext {
        Some(name.subrange(start, name.len() - ext.len()))
    } else {
        None
    }
}

/// The entity type that a document's name gives, if it ends in `.grug`.
pub fn entity_type_from_name(name: &str) -> (r: Option<String>)
    ensures
        crate::syntax::opt_text(r) == entity_type_of(name@),
{
    let n = name.unicode_len();
    let mut start: usize = 0;
    let mut k: usize = 0;
    while k < n
        invariant
            n == name@.len(),
            k <= n,
            start <= k,
            start == after_last_dash(name@, k as int),
        decreases n - k,
    {
        if name.get_char(k) == '-' {
            start = k + 1;
        }
        k += 1;
    }
    proof {
        reveal_strlit(".grug");
    }
    if n - start < 5 {
        return None;
    }
    if !str_is(name.substring_char(n - 5, n), ".grug") {
        return None;
    }
    Some(name.substring_char(start, n - 5).to_owned())
}

/// The result type of the function declaration `i`, if it has one that can
/// be read: the type that the text after the signature denotes, as for a
/// variable. A name outside the fixed set stands for an entity type.
pub open spec fn declared_return(tree: &SyntaxTree, content: Seq<u8>, i: int) -> Option<TypeView> {
    match tree.spec_child_by_field(i, "ret_type"@) {
        Some(r) => {
            let text = node_text(tree, content, r as int);
            if valid_utf8(text) {
                Some(type_of(decode_utf8(text)))
            } else {
                None
            }
        },
        None => None,
    }
}

/// The first of `params`, from position `from` on, that can be read, as a
/// list of one; the empty list where none can.
pub open spec fn first_param(tree: &SyntaxTree, content: Seq<u8>, params: Seq<usize>, from: int) -> Seq<
    VariableView,
>
    decreases params.len() - from,
{
    if from < 0 || from >= params.len() {
        Seq::empty()
    } else {
        match decode_fields(tree, content, params[from] as int) {
            DeclarationOutcome::Decoded(v) => seq![v],
            _ => first_param(tree, content, params, from + 1),
        }
    }
}

/// The function that node `i` declares, if it is a function declaration
/// whose name is of the kind `name_kind` and can be read.
pub open spec fn declared_function(
    tree: &SyntaxTree,
    content: Seq<u8>,
    i: int,
    name_kind: Seq<char>,
) -> Option<FunctionView> {
    if !tree.is_kind(i, "function_declaration"@) {
        None
    } else {
        match tree.spec_child_by_field(i, "name"@) {
            None => None,
            Some(n) => {
                let text = node_text(tree, content, n as int);
                if !tree.is_kind(n as int, name_kind) || !valid_utf8(text) {
                    None
                } else {
                    Some(
                        FunctionView {
                            name: decode_utf8(text),
                            params: first_param(
                                tree,
                                content,
                                tree.spec_children_by_field(i, "param"@),
                                0,
                            ),
                            ret_type: declared_return(tree, content, i),
                            range: tree.nodes@[i].range,
                        },
                    )
                }
            },
        }
    }
}

/// The variables declared by the first `upto` children of the root, in
/// order. A declaration that cannot be read is left out.
pub open spec fn globals_upto(tree: &SyntaxTree, content: Seq<u8>, upto: int) -> Seq<VariableView>
    decreases upto,
{
    let kids = tree.nodes@[0].children@;
    if upto <= 0 || upto > kids.len() {
        Seq::empty()
    } else {
        let c = kids[upto - 1] as int;
        let before = globals_upto(tree, content, upto - 1);
        if tree.is_kind(c, "variable_declaration"@) {
            match declared(tree, content, c) {
                Some(v) => before.push(v),
                None => before,
            }
        } else {
            before
        }
    }
}

/// The variables declared at the top level of the document, in order.
pub open spec fn spec_global_vars(tree: &SyntaxTree, content: Seq<u8>) -> Seq<VariableView> {
    globals_upto(tree, content, tree.nodes@[0].children@.len() as int)
}

/// The functions declared by the first `upto` children of the root whose
/// name is of the kind `name_kind`, in order.
pub open spec fn functions_upto(
    tree: &SyntaxTree,
    content: Seq<u8>,
    name_kind: Seq<char>,
    upto: int,
) -> Seq<FunctionView>
    decreases upto,
{
    let kids = tree.nodes@[0].children@;
    if upto <= 0 || upto > kids.len() {
        Seq::empty()
    } else {
        let before = functions_upto(tree, content, name_kind, upto - 1);
        match declared_function(tree, content, kids[upto - 1] as int, name_kind) {
            Some(f) => before.push(f),
            None => before,
        }
    }
}

/// The functions declared at the top level whose name is of the kind
/// `name_kind`, in order.
pub open spec fn spec_functions(tree: &SyntaxTree, content: Seq<u8>, name_kind: Seq<char>) -> Seq<
    FunctionView,
> {
    functions_upto(tree, content, name_kind, tree.nodes@[0].children@.len() as int)
}

/// The view of an optional function.
pub open spec fn opt_function(f: Option<Function>) -> Option<FunctionView> {
    match f {
        Some(f) => Some(f@),
        None => None,
    }
}

fn read_return_type(content: &[u8], tree: &SyntaxTree, node: usize) -> (r: Option<Type>)
    requires
        tree.wf(),
        node < tree.nodes@.len(),
    ensures
        opt_type(r) == declared_return(tree, content@, node as int),
{
    let ret = match tree.child_by_field_name(node, "ret_type") {
        Some(r) => r,
        None => {
            return None;
        },
    };
    let text = match string_from_utf8(node_get_content(content, tree, ret)) {
        Ok(s) => s,
        Err(_) => {
            return None;
        },
    };
    Some(Type::from_str(text.as_str()))
}

fn read_first_param(content: &[u8], tree: &SyntaxTree, node: usize) -> (r: Vec<Parameter>)
    requires
        tree.wf(),
        node < tree.nodes@.len(),
    ensures
        variable_views(r@) == first_param(
            tree,
            content@,
            tree.spec_children_by_field(node as int, "param"@),
            0,
        ),
{
    let params = tree.children_by_field_name(node, "param");
    let mut out: Vec<Parameter> = Vec::new();
    let mut k: usize = 0;
    while k < params.len()
        invariant
            tree.wf(),
            k <= params@.len(),
            out@.len() == 0,
            params@ == tree.spec_children_by_field(node as int, "param"@),
            forall|m: int| 0 <= m < params@.len() ==> (#[trigger] params@[m]) < tree.nodes@.len(),
            first_param(tree, content@, params@, k as int) == first_param(
                tree,
                content@,
                params@,
                0,
            ),
        decreases params@.len() - k,
    {
        match read_name_and_type(content, tree, params[k]) {
            Ok(v) => {
                out.push(v);
                assert(variable_views(out@) =~= seq![v@]);
                return out;
            },
            Err(_) => {},
        }
        k += 1;
    }
    assert(variable_views(out@) =~= Seq::<VariableView>::empty());
    out
}

/// Reads the function that `node` declares, if it declares one whose name is
/// of the kind `name_kind`.
pub fn read_function(content: &[u8], tree: &SyntaxTree, node: usize, name_kind: &str) -> (r: Option<
    Function,
>)
    requires
        tree.wf(),
        node < tree.nodes@.len(),
    ensures
        opt_function(r) == declared_function(tree, content@, node as int, name_kind@),
{
    if !tree.kind_is(node, "function_declaration") {
        return None;
    }
    let name = match tree.child_by_field_name(node, "name") {
        Some(n) => n,
        None => {
            return None;
        },
    };
    if !tree.kind_is(name, name_kind) {
        return None;
    }
    let ret_type = read_return_type(content, tree, node);
    let name = match string_from_utf8(node_get_content(content, tree, name)) {
        Ok(s) => s,
        Err(_) => {
            return None;
        },
    };
    let params = read_first_param(content, tree, node);
    Some(Function { name, params, ret_type, range: tree.range(node) })
}

/// A document: the bytes, the tree parsed from them, and what the top level
/// declares. Bytes and tree belong together and are only ever replaced
/// together.
#[derive(Debug)]
pub struct Document {
    pub entity_type: String,
    pub content: Vec<u8>,
    pub tree: SyntaxTree,
    pub global_vars: Vec<Variable>,
    pub helpers: Vec<Function>,
    pub on_functions: Vec<Function>,
}
/// A document can be made of the content, of the nodes parsed from it and
/// of its name: the nodes are a valid list that lies within the content, and
/// the name ends in `.grug`.
pub open spec fn holds_document(nodes: Seq<RawNodeView>, content: Seq<u8>, name: Seq<char>) -> bool {
    &&& raw_valid(nodes)
    &&& entity_type_of(name) is Some
    &&& nodes[0].range.end_byte <= content.len()
}

impl Document {
    /// The tree is well formed and lies within the bytes, and the three
    /// tables hold what the tree and the bytes declare.
    pub open spec fn wf(&self) -> bool {
        &&& self.tree.wf()
        &&& self.tree.nodes@[0].range.end_byte <= self.content@.len()
        &&& variable_views(self.global_vars@) == spec_global_vars(&self.tree, self.content@)
        &&& function_views(self.helpers@) == spec_functions(
            &self.tree,
            self.content@,
            "helper_identifier"@,
        )
        &&& function_views(self.on_functions@) == spec_functions(
            &self.tree,
            self.content@,
            "on_identifier"@,
        )
    }

    fn read_globals(content: &[u8], tree: &SyntaxTree) -> (r: Vec<Variable>)
        requires
            tree.wf(),
        ensures
            variable_views(r@) == spec_global_vars(tree, content@),
    {
        let mut out: Vec<Variable> = Vec::new();
        let count = tree.child_count(0);
        let mut k: usize = 0;
        assert(variable_views(out@) =~= Seq::<VariableView>::empty());
        while k < count
            invariant
                tree.wf(),
                count == tree.nodes@[0].children@.len(),
                k <= count,
                variable_views(out@) == globals_upto(tree, content@, k as int),
            decreases count - k,
        {
            let child = match tree.child(0, k) {
                Some(c) => c,
                None => {
                    return out;
                },
            };
            if tree.kind_is(child, "variable_declaration") {
                match parse_variable_declaration(content, tree, child) {
                    Ok(v) => {
                        let ghost before = out@;
                        out.push(v);
                        assert(variable_views(out@) =~= variable_views(before).push(v@));
                    },
                    Err(_) => {},
                }
            }
            k += 1;
        }
        out
    }

    fn read_functions(content: &[u8], tree: &SyntaxTree, name_kind: &str) -> (r: Vec<Function>)
        requires
            tree.wf(),
        ensures
            function_views(r@) == spec_functions(tree, content@, name_kind@),
    {
        let mut out: Vec<Function> = Vec::new();
        let count = tree.child_count(0);
        let mut k: usize = 0;
        assert(function_views(out@) =~= Seq::<FunctionView>::empty());
        while k < count
            invariant
                tree.wf(),
                count == tree.nodes@[0].children@.len(),
                k <= count,
                function_views(out@) == functions_upto(tree, content@, name_kind@, k as int),
            decreases count - k,
        {
            let child = match tree.child(0, k) {
                Some(c) => c,
                None => {
                    return out;
                },
            };
            match read_function(content, tree, child, name_kind) {
                Some(f) => {
                    let ghost before = out@;
                    out.push(f);
                    assert(function_views(out@) =~= function_views(before).push(f@));
                },
                None => {},
            }
            k += 1;
        }
        out
    }

    /// Parses `content` and makes its document: the document of the content
    /// and of the tree of the nodes that the parser makes of it. There is
    /// none where the parser gives no tree, and none where `holds_document`
    /// fails of the nodes it gives.
    pub fn new(parser: &mut tree_sitter::Parser, content: Vec<u8>, name: String) -> (r: Option<
        Document,
    >)
        ensures
            match parsed_nodes(*old(parser), content@) {
                Some(nodes) => {
                    &&& r is Some <==> holds_document(nodes, content@, name@)
                    &&& r matches Some(d) ==> d.tree.mirrors(nodes)
                },
                None => r is None,
            },
            r matches Some(d) ==> {
                &&& d.wf()
                &&& d.content == content
                &&& Some(d.entity_type@) == entity_type_of(name@)
            },
    {
        match SyntaxTree::parse(parser, content.as_slice()) {
            Some(tree) => Self::from_tree(tree, content, name.as_str()),
            None => None,
        }
    }

    /// Makes the document of `content` and the tree parsed from it. The
    /// document's name must end in `.grug`, and the tree must lie within the
    /// content; otherwise there is no document.
    pub fn from_tree(tree: SyntaxTree, content: Vec<u8>, name: &str) -> (r: Option<Document>)
        requires
            tree.wf(),
        ensures
            r is Some <==> entity_type_of(name@) is Some && tree.nodes@[0].range.end_byte
                <= content@.len(),
            r matches Some(d) ==> {
                &&& d.wf()
                &&& d.tree == tree
                &&& d.content == content
                &&& Some(d.entity_type@) == entity_type_of(name@)
            },
    {
        let entity_type = match entity_type_from_name(name) {
            Some(t) => t,
            None => {
                return None;
            },
        };
        if tree.range(0).end_byte > content.len() {
            return None;
        }
        let global_vars = Self::read_globals(content.as_slice(), &tree);
        let helpers = Self::read_functions(content.as_slice(), &tree, "helper_identifier");
        let on_functions = Self::read_functions(content.as_slice(), &tree, "on_identifier");
        Some(Document { entity_type, content, tree, global_vars, helpers, on_functions })
    }
}


/// Every node of a document lies within its content: what the node reads
/// are the bytes of the content from its start up to its end.
pub proof fn lemma_nodes_lie_in_content(document: &Document, n: int)
    requires
        document.wf(),
        0 <= n < document.tree.nodes@.len(),
    ensures
        document.tree.nodes@[n].range.start_byte <= document.tree.nodes@[n].range.end_byte
            <= document.content@.len(),
        node_text(&document.tree, document.content@, n) == document.content@.subrange(
            document.tree.nodes@[n].range.start_byte as int,
            document.tree.nodes@[n].range.end_byte as int,
        ),
{
    crate::server::locate_laws::lemma_root_encloses(&document.tree, n);
    assert(crate::syntax::node_ok(document.tree.nodes@, n));
}

} // verus!
