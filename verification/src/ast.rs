use vstd::prelude::*;

verus! {

/// Whether a declaration is visible outside its module.
#[derive(Clone, Copy, Debug, PartialEq, Eq, Structural, Hash)]
pub enum Visibility {
    Private,
    Public,
}

/// How a method receives `self`: `self`, `var self` or `move self`.
#[derive(Clone, Copy, Debug, PartialEq, Eq, Structural, Hash)]
pub enum ReceiverKind {
    ReadOnly,
    Mutable,
    Move,
}

/// Binary operators, assignment included.
#[derive(Clone, Copy, Debug, PartialEq, Eq, Structural, Hash)]
pub enum BinaryOp {
    Assign,
    OrOr,
    AndAnd,
    Add,
    Sub,
    Mul,
    Div,
    Rem,
    EqEq,
    BangEq,
    Gt,
    GtEq,
    Lt,
    LtEq,
}

/// Prefix operators.
#[derive(Clone, Copy, Debug, PartialEq, Eq, Structural, Hash)]
pub enum UnaryOp {
    Not,
    Neg,
    Await,
    Spawn,
}

/// A dotted path such as `std.io.print`.
#[derive(Clone, Debug, PartialEq, Eq, Hash)]
pub struct Path {
    pub segments: Vec<String>,
}

/// The `package` declaration of a module.
#[derive(Clone, Debug, PartialEq, Eq, Hash)]
pub struct PackageDecl {
    pub path: Path,
}

/// One name of a `use prefix.{...}` group, with its alias.
#[derive(Clone, Debug, PartialEq, Eq, Hash)]
pub struct UseItem {
    pub name: String,
    pub alias: Option<String>,
}

/// A `use` declaration: a path, or a path and a group of names, with an
/// optional alias.
#[derive(Clone, Debug, PartialEq, Eq, Hash)]
pub struct UseDecl {
    pub prefix: Path,
    pub group: Option<Vec<UseItem>>,
    pub alias: Option<String>,
}

/// A generic parameter with its bounds: `T: io.Flush + Clone`.
#[derive(Debug, PartialEq, Eq, Hash)]
pub struct GenericParam {
    pub name: String,
    pub bounds: Vec<Path>,
}

/// One predicate of a `where` clause.
#[derive(Debug, PartialEq, Eq, Hash)]
pub struct WherePredicate {
    pub target: TypeExpr,
    pub bounds: Vec<Path>,
}

/// A type as written in source.
#[derive(Debug, PartialEq, Eq, Hash)]
pub enum TypeExpr {
    /// `*T` or `*const T`.
    Pointer { is_const: bool, inner: Box<TypeExpr> },
    /// `[T; len]`, the length kept as written.
    Array { element: Box<TypeExpr>, len: String },
    /// A path with optional type arguments: `Map[K, V]`.
    Named { path: Path, args: Vec<TypeExpr> },
    /// `(A, B)`; a single element is written `(A,)`.
    Tuple(Vec<TypeExpr>),
    /// `(A, B) -> R`.
    Callable { params: Vec<TypeExpr>, ret: Box<TypeExpr> },
}

/// A field of a pattern `Path { name: pattern, .. }`; without a pattern the
/// field binds its own name.
#[derive(Debug, PartialEq, Eq, Hash)]
pub struct PatternField {
    pub name: String,
    pub pattern: Option<Pattern>,
}

/// A pattern of `let`, `for` or a `match` arm.
#[derive(Debug, PartialEq, Eq, Hash)]
pub enum Pattern {
    Name(String),
    Tuple(Vec<Pattern>),
    Array(Vec<Pattern>),
    Path(Path),
    TupleStruct { path: Path, items: Vec<Pattern> },
    Struct { path: Path, fields: Vec<PatternField>, has_rest: bool },
    Integer(String),
    String(String),
    Bool(bool),
    NoneLiteral,
    Wildcard,
}

/// A parameter of a closure.
#[derive(Debug, PartialEq, Eq, Hash)]
pub struct ClosureParam {
    pub name: String,
}

/// An argument of a call: positional or `name: value`.
#[derive(Debug, PartialEq, Eq, Hash)]
pub enum CallArg {
    Positional(Expr),
    Named { name: String, value: Expr },
}

/// A field of a struct literal; without a value it is shorthand for the
/// variable of the same name.
#[derive(Debug, PartialEq, Eq, Hash)]
pub struct StructLiteralField {
    pub name: String,
    pub value: Option<Expr>,
}

/// An arm of a `match` expression.
#[derive(Debug, PartialEq, Eq, Hash)]
pub struct MatchArm {
    pub pattern: Pattern,
    pub guard: Option<Expr>,
    pub body: Expr,
}

/// An expression.
#[derive(Debug, PartialEq, Eq, Hash)]
pub enum Expr {
    Name(String),
    Integer(String),
    String { value: String, is_format: bool },
    Bool(bool),
    NoneLiteral,
    Tuple(Vec<Expr>),
    Array(Vec<Expr>),
    Block(Block),
    Unsafe(Block),
    If { condition: Box<Expr>, then_branch: Block, else_branch: Option<Box<Expr>> },
    Match { value: Box<Expr>, arms: Vec<MatchArm> },
    Closure { is_move: bool, params: Vec<ClosureParam>, body: Box<Expr> },
    Call { callee: Box<Expr>, args: Vec<CallArg> },
    Member { object: Box<Expr>, field: String },
    Bracket { target: Box<Expr>, items: Vec<Expr> },
    StructLiteral { path: Path, fields: Vec<StructLiteralField> },
    Binary { left: Box<Expr>, op: BinaryOp, right: Box<Expr> },
    Unary { op: UnaryOp, expr: Box<Expr> },
    Question(Box<Expr>),
}

/// A statement.
#[derive(Debug, PartialEq, Eq, Hash)]
pub enum Stmt {
    /// `let` or, when `mutable`, `var`.
    Let { mutable: bool, pattern: Pattern, ty: Option<TypeExpr>, value: Expr },
    Return(Option<Expr>),
    Defer(Expr),
    Break,
    Continue,
    While { condition: Expr, body: Block },
    Loop { body: Block },
    For { is_await: bool, pattern: Pattern, iterable: Expr, body: Block },
    /// An expression statement, with or without its `;`.
    Expr { expr: Expr, terminated: bool },
}

/// A block: statements and an optional tail expression.
#[derive(Debug, PartialEq, Eq, Hash)]
pub struct Block {
    pub statements: Vec<Stmt>,
    pub tail: Option<Box<Expr>>,
}

/// A parameter of a function: `name: Type` or a receiver.
#[derive(Debug, PartialEq, Eq, Hash)]
pub enum Param {
    Regular { name: String, ty: TypeExpr },
    Receiver { kind: ReceiverKind },
}

/// A function declaration; `body` is absent in traits and extern blocks.
#[derive(Debug, PartialEq, Eq, Hash)]
pub struct FunctionDecl {
    pub abi: Option<String>,
    pub visibility: Visibility,
    pub is_unsafe: bool,
    pub is_async: bool,
    pub name: String,
    pub generics: Vec<GenericParam>,
    pub params: Vec<Param>,
    pub return_type: Option<TypeExpr>,
    pub where_clause: Vec<WherePredicate>,
    pub body: Option<Block>,
}

/// A `const` or `static` declaration.
#[derive(Debug, PartialEq, Eq, Hash)]
pub struct GlobalDecl {
    pub visibility: Visibility,
    pub name: String,
    pub ty: TypeExpr,
    pub value: Expr,
}

/// A field of a struct declaration, with an optional default value.
#[derive(Debug, PartialEq, Eq, Hash)]
pub struct StructField {
    pub name: String,
    pub ty: TypeExpr,
    pub default: Option<Expr>,
}

/// A `struct` (or `data struct`) declaration.
#[derive(Debug, PartialEq, Eq, Hash)]
pub struct StructDecl {
    pub visibility: Visibility,
    pub is_data: bool,
    pub name: String,
    pub generics: Vec<GenericParam>,
    pub fields: Vec<StructField>,
}

/// A named field of an enum variant.
#[derive(Debug, PartialEq, Eq, Hash)]
pub struct VariantField {
    pub name: String,
    pub ty: TypeExpr,
}

/// The fields of an enum variant.
#[derive(Debug, PartialEq, Eq, Hash)]
pub enum VariantFields {
    Unit,
    Tuple(Vec<TypeExpr>),
    Struct(Vec<VariantField>),
}

/// A variant of an enum declaration.
#[derive(Debug, PartialEq, Eq, Hash)]
pub struct EnumVariant {
    pub name: String,
    pub fields: VariantFields,
}

/// An `enum` declaration.
#[derive(Debug, PartialEq, Eq, Hash)]
pub struct EnumDecl {
    pub visibility: Visibility,
    pub name: String,
    pub generics: Vec<GenericParam>,
    pub variants: Vec<EnumVariant>,
}

/// A `trait` declaration.
#[derive(Debug, PartialEq, Eq, Hash)]
pub struct TraitDecl {
    pub visibility: Visibility,
    pub name: String,
    pub generics: Vec<GenericParam>,
    pub methods: Vec<FunctionDecl>,
}

/// An `impl` block, inherent or for a trait.
#[derive(Debug, PartialEq, Eq, Hash)]
pub struct ImplBlock {
    pub generics: Vec<GenericParam>,
    pub trait_ty: Option<TypeExpr>,
    pub target: TypeExpr,
    pub where_clause: Vec<WherePredicate>,
    pub methods: Vec<FunctionDecl>,
}

/// An `extend` block adding methods to a type.
#[derive(Debug, PartialEq, Eq, Hash)]
pub struct ExtendBlock {
    pub target: TypeExpr,
    pub methods: Vec<FunctionDecl>,
}

/// A `type` alias, opaque or not.
#[derive(Debug, PartialEq, Eq, Hash)]
pub struct TypeAliasDecl {
    pub visibility: Visibility,
    pub is_opaque: bool,
    pub name: String,
    pub generics: Vec<GenericParam>,
    pub ty: TypeExpr,
}

/// An `extern "abi" { ... }` block of foreign functions.
#[derive(Debug, PartialEq, Eq, Hash)]
pub struct ExternBlock {
    pub visibility: Visibility,
    pub abi: String,
    pub functions: Vec<FunctionDecl>,
}

/// A top-level item.
#[derive(Debug, PartialEq, Eq, Hash)]
pub enum Item {
    Function(FunctionDecl),
    Const(GlobalDecl),
    Static(GlobalDecl),
    Struct(StructDecl),
    Enum(EnumDecl),
    Trait(TraitDecl),
    Impl(ImplBlock),
    Extend(ExtendBlock),
    TypeAlias(TypeAliasDecl),
    ExternBlock(ExternBlock),
}

/// A parsed source file.
#[derive(Debug, PartialEq, Eq, Hash)]
pub struct Module {
    pub package: Option<PackageDecl>,
    pub uses: Vec<UseDecl>,
    pub items: Vec<Item>,
}

/// The last segment of a named type's path: `Map` for `std.Map[K, V]`;
/// none for other types or an empty path.
pub fn named_type_expr_last_segment(ty: &TypeExpr) -> (segment: Option<&str>)
    ensures
        match segment {
            Some(text) => ty matches TypeExpr::Named { path, .. } && path.segments@.len() > 0
                && text@ == path.segments@.last()@,
            None => !(ty matches TypeExpr::Named { path, .. } && path.segments@.len() > 0),
        },
{
    match ty {
        TypeExpr::Named { path, .. } => {
            let n = path.segments.len();
            if n == 0 {
                None
            } else {
                Some(path.segments[n - 1].as_str())
            }
        },
        _ => None,
    }
}

} // verus!
