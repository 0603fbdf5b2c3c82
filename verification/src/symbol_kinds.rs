use vstd::prelude::*;

use crate::semantic_tokens::SymbolKind;

verus! {

/// Kinds of symbol declared at the top level of a package.
pub open spec fn is_root_item_kind(kind: SymbolKind) -> bool {
    ||| kind is Function
    ||| kind is Const
    ||| kind is Static
    ||| kind is Struct
    ||| kind is Enum
    ||| kind is Trait
    ||| kind is TypeAlias
}

/// Kinds of symbol that live inside a type: variants, fields and methods.
pub open spec fn is_member_kind(kind: SymbolKind) -> bool {
    ||| kind is Variant
    ||| kind is Field
    ||| kind is Method
}

/// Kinds of symbol that name a type.
pub open spec fn is_type_kind(kind: SymbolKind) -> bool {
    ||| kind is Struct
    ||| kind is Enum
    ||| kind is Trait
    ||| kind is TypeAlias
}

/// Imports can be followed to their definition for top-level items and enum
/// variants.
pub fn supports_workspace_import_definition(kind: SymbolKind) -> (supported: bool)
    ensures
        supported == (is_root_item_kind(kind) || kind is Variant),
{
    matches!(
        kind,
        SymbolKind::Function | SymbolKind::Const | SymbolKind::Static | SymbolKind::Struct
            | SymbolKind::Enum | SymbolKind::Variant | SymbolKind::Trait | SymbolKind::TypeAlias
    )
}

/// References across the workspace are found for top-level items and for
/// members.
pub fn supports_workspace_source_root_definition_references(kind: SymbolKind) -> (supported: bool)
    ensures
        supported == (is_root_item_kind(kind) || is_member_kind(kind)),
{
    matches!(
        kind,
        SymbolKind::Function | SymbolKind::Const | SymbolKind::Static | SymbolKind::Struct
            | SymbolKind::Enum | SymbolKind::Variant | SymbolKind::Trait | SymbolKind::TypeAlias
            | SymbolKind::Field | SymbolKind::Method
    )
}

/// Top-level items can be renamed across the workspace.
pub fn supports_workspace_source_root_definition_rename(kind: SymbolKind) -> (supported: bool)
    ensures
        supported == is_root_item_kind(kind),
{
    matches!(
        kind,
        SymbolKind::Function | SymbolKind::Const | SymbolKind::Static | SymbolKind::Struct
            | SymbolKind::Enum | SymbolKind::Trait | SymbolKind::TypeAlias
    )
}

/// Members can be renamed across the workspace.
pub fn supports_workspace_source_root_member_rename(kind: SymbolKind) -> (supported: bool)
    ensures
        supported == is_member_kind(kind),
{
    matches!(kind, SymbolKind::Variant | SymbolKind::Field | SymbolKind::Method)
}

/// Imports of types can be followed to the type's definition.
pub fn supports_workspace_import_type_definition(kind: SymbolKind) -> (supported: bool)
    ensures
        supported == is_type_kind(kind),
{
    matches!(kind, SymbolKind::Struct | SymbolKind::Enum | SymbolKind::Trait | SymbolKind::TypeAlias)
}

/// Definitions in dependencies are found for top-level items and members.
pub fn supports_workspace_dependency_definition(kind: SymbolKind) -> (supported: bool)
    ensures
        supported == (is_root_item_kind(kind) || is_member_kind(kind)),
{
    matches!(
        kind,
        SymbolKind::Function | SymbolKind::Const | SymbolKind::Static | SymbolKind::Struct
            | SymbolKind::Enum | SymbolKind::Variant | SymbolKind::Trait | SymbolKind::TypeAlias
            | SymbolKind::Field | SymbolKind::Method
    )
}

/// Members of dependencies can be renamed from a source that uses them.
pub fn supports_workspace_source_dependency_rename(kind: SymbolKind) -> (supported: bool)
    ensures
        supported == is_member_kind(kind),
{
    matches!(kind, SymbolKind::Variant | SymbolKind::Field | SymbolKind::Method)
}

// ---------------------------------------------------------------------------
// Symbol kinds as editors name and number them.
// ---------------------------------------------------------------------------

/// The editor's numbers for the kinds of completion item used here.
pub const COMPLETION_KIND_METHOD: i32 = 2;
pub const COMPLETION_KIND_FUNCTION: i32 = 3;
pub const COMPLETION_KIND_FIELD: i32 = 5;
pub const COMPLETION_KIND_VARIABLE: i32 = 6;
pub const COMPLETION_KIND_CLASS: i32 = 7;
pub const COMPLETION_KIND_INTERFACE: i32 = 8;
pub const COMPLETION_KIND_MODULE: i32 = 9;
pub const COMPLETION_KIND_ENUM: i32 = 13;
pub const COMPLETION_KIND_ENUM_MEMBER: i32 = 20;
pub const COMPLETION_KIND_CONSTANT: i32 = 21;
pub const COMPLETION_KIND_STRUCT: i32 = 22;
pub const COMPLETION_KIND_TYPE_PARAMETER: i32 = 25;

/// The editor's numbers for the kinds of document symbol used here.
pub const SYMBOL_KIND_NAMESPACE: i32 = 3;
pub const SYMBOL_KIND_CLASS: i32 = 5;
pub const SYMBOL_KIND_METHOD: i32 = 6;
pub const SYMBOL_KIND_FIELD: i32 = 8;
pub const SYMBOL_KIND_ENUM: i32 = 10;
pub const SYMBOL_KIND_INTERFACE: i32 = 11;
pub const SYMBOL_KIND_FUNCTION: i32 = 12;
pub const SYMBOL_KIND_VARIABLE: i32 = 13;
pub const SYMBOL_KIND_CONSTANT: i32 = 14;
pub const SYMBOL_KIND_ENUM_MEMBER: i32 = 22;
pub const SYMBOL_KIND_STRUCT: i32 = 23;
pub const SYMBOL_KIND_TYPE_PARAMETER: i32 = 26;

pub open spec fn kind_name(kind: SymbolKind) -> Seq<char> {
    match kind {
        SymbolKind::Function => "function"@,
        SymbolKind::Const => "const"@,
        SymbolKind::Static => "static"@,
        SymbolKind::Struct => "struct"@,
        SymbolKind::Enum => "enum"@,
        SymbolKind::Variant => "variant"@,
        SymbolKind::Trait => "trait"@,
        SymbolKind::TypeAlias => "type alias"@,
        SymbolKind::Field => "field"@,
        SymbolKind::Method => "method"@,
        SymbolKind::Local => "local"@,
        SymbolKind::Parameter => "parameter"@,
        SymbolKind::Generic => "generic"@,
        SymbolKind::SelfParameter => "receiver"@,
        SymbolKind::BuiltinType => "builtin type"@,
        SymbolKind::Import => "import"@,
    }
}

/// How a symbol kind is named to the user.
pub fn symbol_kind_name(kind: SymbolKind) -> (name: &'static str)
    ensures
        name@ == kind_name(kind),
{
    match kind {
        SymbolKind::Function => "function",
        SymbolKind::Const => "const",
        SymbolKind::Static => "static",
        SymbolKind::Struct => "struct",
        SymbolKind::Enum => "enum",
        SymbolKind::Variant => "variant",
        SymbolKind::Trait => "trait",
        SymbolKind::TypeAlias => "type alias",
        SymbolKind::Field => "field",
        SymbolKind::Method => "method",
        SymbolKind::Local => "local",
        SymbolKind::Parameter => "parameter",
        SymbolKind::Generic => "generic",
        SymbolKind::SelfParameter => "receiver",
        SymbolKind::BuiltinType => "builtin type",
        SymbolKind::Import => "import",
    }
}

pub open spec fn completion_kind_of(kind: SymbolKind) -> i32 {
    match kind {
        SymbolKind::Function => COMPLETION_KIND_FUNCTION,
        SymbolKind::Method => COMPLETION_KIND_METHOD,
        SymbolKind::Const | SymbolKind::Static => COMPLETION_KIND_CONSTANT,
        SymbolKind::Struct => COMPLETION_KIND_STRUCT,
        SymbolKind::Enum => COMPLETION_KIND_ENUM,
        SymbolKind::Variant => COMPLETION_KIND_ENUM_MEMBER,
        SymbolKind::Trait => COMPLETION_KIND_INTERFACE,
        SymbolKind::TypeAlias | SymbolKind::BuiltinType => COMPLETION_KIND_CLASS,
        SymbolKind::Field => COMPLETION_KIND_FIELD,
        SymbolKind::Local | SymbolKind::Parameter | SymbolKind::SelfParameter => COMPLETION_KIND_VARIABLE,
        SymbolKind::Generic => COMPLETION_KIND_TYPE_PARAMETER,
        SymbolKind::Import => COMPLETION_KIND_MODULE,
    }
}

/// The completion item kind shown for a symbol kind.
pub fn completion_item_kind(kind: SymbolKind) -> (item_kind: i32)
    ensures
        item_kind == completion_kind_of(kind),
{
    match kind {
        SymbolKind::Function => COMPLETION_KIND_FUNCTION,
        SymbolKind::Method => COMPLETION_KIND_METHOD,
        SymbolKind::Const | SymbolKind::Static => COMPLETION_KIND_CONSTANT,
        SymbolKind::Struct => COMPLETION_KIND_STRUCT,
        SymbolKind::Enum => COMPLETION_KIND_ENUM,
        SymbolKind::Variant => COMPLETION_KIND_ENUM_MEMBER,
        SymbolKind::Trait => COMPLETION_KIND_INTERFACE,
        SymbolKind::TypeAlias | SymbolKind::BuiltinType => COMPLETION_KIND_CLASS,
        SymbolKind::Field => COMPLETION_KIND_FIELD,
        SymbolKind::Local | SymbolKind::Parameter | SymbolKind::SelfParameter => COMPLETION_KIND_VARIABLE,
        SymbolKind::Generic => COMPLETION_KIND_TYPE_PARAMETER,
        SymbolKind::Import => COMPLETION_KIND_MODULE,
    }
}

pub open spec fn document_kind_of(kind: SymbolKind) -> i32 {
    match kind {
        SymbolKind::Function => SYMBOL_KIND_FUNCTION,
        SymbolKind::Const | SymbolKind::Static => SYMBOL_KIND_CONSTANT,
        SymbolKind::Struct => SYMBOL_KIND_STRUCT,
        SymbolKind::Enum => SYMBOL_KIND_ENUM,
        SymbolKind::Variant => SYMBOL_KIND_ENUM_MEMBER,
        SymbolKind::Trait => SYMBOL_KIND_INTERFACE,
        SymbolKind::TypeAlias | SymbolKind::BuiltinType => SYMBOL_KIND_CLASS,
        SymbolKind::Field => SYMBOL_KIND_FIELD,
        SymbolKind::Method => SYMBOL_KIND_METHOD,
        SymbolKind::Local | SymbolKind::Parameter | SymbolKind::SelfParameter => SYMBOL_KIND_VARIABLE,
        SymbolKind::Generic => SYMBOL_KIND_TYPE_PARAMETER,
        SymbolKind::Import => SYMBOL_KIND_NAMESPACE,
    }
}

/// The document symbol kind shown for a symbol kind.
pub fn document_symbol_kind(kind: SymbolKind) -> (symbol_kind: i32)
    ensures
        symbol_kind == document_kind_of(kind),
{
    match kind {
        SymbolKind::Function => SYMBOL_KIND_FUNCTION,
        SymbolKind::Const | SymbolKind::Static => SYMBOL_KIND_CONSTANT,
        SymbolKind::Struct => SYMBOL_KIND_STRUCT,
        SymbolKind::Enum => SYMBOL_KIND_ENUM,
        SymbolKind::Variant => SYMBOL_KIND_ENUM_MEMBER,
        SymbolKind::Trait => SYMBOL_KIND_INTERFACE,
        SymbolKind::TypeAlias | SymbolKind::BuiltinType => SYMBOL_KIND_CLASS,
        SymbolKind::Field => SYMBOL_KIND_FIELD,
        SymbolKind::Method => SYMBOL_KIND_METHOD,
        SymbolKind::Local | SymbolKind::Parameter | SymbolKind::SelfParameter => SYMBOL_KIND_VARIABLE,
        SymbolKind::Generic => SYMBOL_KIND_TYPE_PARAMETER,
        SymbolKind::Import => SYMBOL_KIND_NAMESPACE,
    }
}

// ---------------------------------------------------------------------------
// What the editor numbers mean.
// ---------------------------------------------------------------------------

/// The name the Language Server Protocol gives each document symbol kind number.
pub open spec fn lsp_symbol_kind_name(number: i32) -> Seq<char> {
    match number {
        1 => "File"@,
        2 => "Module"@,
        3 => "Namespace"@,
        4 => "Package"@,
        5 => "Class"@,
        6 => "Method"@,
        7 => "Property"@,
        8 => "Field"@,
        9 => "Constructor"@,
        10 => "Enum"@,
        11 => "Interface"@,
        12 => "Function"@,
        13 => "Variable"@,
        14 => "Constant"@,
        15 => "String"@,
        16 => "Number"@,
        17 => "Boolean"@,
        18 => "Array"@,
        19 => "Object"@,
        20 => "Key"@,
        21 => "Null"@,
        22 => "EnumMember"@,
        23 => "Struct"@,
        24 => "Event"@,
        25 => "Operator"@,
        26 => "TypeParameter"@,
        _ => ""@,
    }
}

/// The name the Language Server Protocol gives each completion item kind number.
pub open spec fn lsp_completion_kind_name(number: i32) -> Seq<char> {
    match number {
        1 => "Text"@,
        2 => "Method"@,
        3 => "Function"@,
        4 => "Constructor"@,
        5 => "Field"@,
        6 => "Variable"@,
        7 => "Class"@,
        8 => "Interface"@,
        9 => "Module"@,
        10 => "Property"@,
        11 => "Unit"@,
        12 => "Value"@,
        13 => "Enum"@,
        14 => "Keyword"@,
        15 => "Snippet"@,
        16 => "Color"@,
        17 => "File"@,
        18 => "Reference"@,
        19 => "Folder"@,
        20 => "EnumMember"@,
        21 => "Constant"@,
        22 => "Struct"@,
        23 => "Event"@,
        24 => "Operator"@,
        25 => "TypeParameter"@,
        _ => ""@,
    }
}

/// The editor kind that shows each symbol kind best: the kind of the same name, an
/// enum variant as an enum member, a trait as an interface, an alias or a builtin
/// type as a class, a generic as a type parameter, a local, parameter or receiver
/// as a variable, and an import as a namespace.
pub open spec fn editor_kind_for(kind: SymbolKind) -> Seq<char> {
    match kind {
        SymbolKind::Function => "Function"@,
        SymbolKind::Const => "Constant"@,
        SymbolKind::Static => "Constant"@,
        SymbolKind::Struct => "Struct"@,
        SymbolKind::Enum => "Enum"@,
        SymbolKind::Variant => "EnumMember"@,
        SymbolKind::Trait => "Interface"@,
        SymbolKind::TypeAlias => "Class"@,
        SymbolKind::BuiltinType => "Class"@,
        SymbolKind::Field => "Field"@,
        SymbolKind::Method => "Method"@,
        SymbolKind::Local => "Variable"@,
        SymbolKind::Parameter => "Variable"@,
        SymbolKind::SelfParameter => "Variable"@,
        SymbolKind::Generic => "TypeParameter"@,
        SymbolKind::Import => "Namespace"@,
    }
}

/// The completion item kind that shows each symbol kind best; as for document
/// symbols, except that an import is shown as a module.
pub open spec fn completion_kind_for(kind: SymbolKind) -> Seq<char> {
    match kind {
        SymbolKind::Function => "Function"@,
        SymbolKind::Const => "Constant"@,
        SymbolKind::Static => "Constant"@,
        SymbolKind::Struct => "Struct"@,
        SymbolKind::Enum => "Enum"@,
        SymbolKind::Variant => "EnumMember"@,
        SymbolKind::Trait => "Interface"@,
        SymbolKind::TypeAlias => "Class"@,
        SymbolKind::BuiltinType => "Class"@,
        SymbolKind::Field => "Field"@,
        SymbolKind::Method => "Method"@,
        SymbolKind::Local => "Variable"@,
        SymbolKind::Parameter => "Variable"@,
        SymbolKind::SelfParameter => "Variable"@,
        SymbolKind::Generic => "TypeParameter"@,
        SymbolKind::Import => "Module"@,
    }
}

/// Kinds that the outline tells apart.
pub open spec fn has_own_document_kind(kind: SymbolKind) -> bool {
    kind is Function || kind is Const || kind is Struct || kind is Enum || kind is Variant || kind is Trait || kind is Field || kind is Method || kind is Generic || kind is Import
}

/// Every symbol kind is shown in the outline as the editor kind named for
/// it, and the kinds that have a kind of their own are told apart.
pub proof fn lemma_document_symbol_kinds(kind: SymbolKind)
    ensures
        lsp_symbol_kind_name(document_kind_of(kind)) == editor_kind_for(kind),
        forall|a: SymbolKind, b: SymbolKind|
            has_own_document_kind(a) && has_own_document_kind(b) && #[trigger] document_kind_of(a) == #[trigger] document_kind_of(b)
                ==> a == b,
{
}

/// Every symbol kind is offered in completion as the item kind named for
/// it, and the kinds that have a kind of their own are told apart.
pub proof fn lemma_completion_item_kinds(kind: SymbolKind)
    ensures
        lsp_completion_kind_name(completion_kind_of(kind)) == completion_kind_for(kind),
        forall|a: SymbolKind, b: SymbolKind|
            has_own_document_kind(a) && has_own_document_kind(b) && #[trigger] completion_kind_of(a) == #[trigger] completion_kind_of(b)
                ==> a == b,
{
}

/// What an unresolved name, offered for an automatic import, was used as.
#[derive(Clone, Copy, Debug, PartialEq, Eq, Structural, Hash)]
pub enum AutoImportKind {
    Value,
    Type,
}

/// A workspace symbol of editor kind `kind` can be imported for an
/// unresolved value when it is a function, constant or variable, and for an
/// unresolved type when it is a struct, enum, interface or class.
pub fn supports_auto_import_symbol_kind(kind: i32, unresolved_kind: AutoImportKind) -> (supported: bool)
    ensures
        supported == match unresolved_kind {
            AutoImportKind::Value => kind == SYMBOL_KIND_FUNCTION || kind == SYMBOL_KIND_CONSTANT || kind
                == SYMBOL_KIND_VARIABLE,
            AutoImportKind::Type => kind == SYMBOL_KIND_STRUCT || kind == SYMBOL_KIND_ENUM || kind
                == SYMBOL_KIND_INTERFACE || kind == SYMBOL_KIND_CLASS,
        },
{
    match unresolved_kind {
        AutoImportKind::Value => kind == SYMBOL_KIND_FUNCTION || kind == SYMBOL_KIND_CONSTANT || kind
            == SYMBOL_KIND_VARIABLE,
        AutoImportKind::Type => kind == SYMBOL_KIND_STRUCT || kind == SYMBOL_KIND_ENUM || kind
            == SYMBOL_KIND_INTERFACE || kind == SYMBOL_KIND_CLASS,
    }
}

} // verus!
