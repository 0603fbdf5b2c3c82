use vstd::prelude::*;

use crate::ast::{BinaryOp, PackageDecl, Path, ReceiverKind, UnaryOp, UseDecl, Visibility};
use crate::span::Span;

verus! {

// ---------------------------------------------------------------------------
// Arena ids.
// ---------------------------------------------------------------------------

/// Index of an entry in one of the module's arenas.
#[derive(Clone, Copy, Debug, PartialEq, Eq, Structural, Hash)]
pub struct ItemId(u32);

impl View for ItemId {
    type V = nat;

    closed spec fn view(&self) -> nat {
        self.0 as nat
    }
}

impl ItemId {
    pub(crate) fn from_index(index: usize) -> (id: Self)
        requires
            index <= u32::MAX,
        ensures
            id@ == index,
    {
        ItemId(index as u32)
    }

    pub fn index(self) -> (index: usize)
        ensures
            index == self@,
    {
        self.0 as usize
    }
}

/// Index of an entry in one of the module's arenas.
#[derive(Clone, Copy, Debug, PartialEq, Eq, Structural, Hash)]
pub struct TypeId(u32);

impl View for TypeId {
    type V = nat;

    closed spec fn view(&self) -> nat {
        self.0 as nat
    }
}

impl TypeId {
    pub(crate) fn from_index(index: usize) -> (id: Self)
        requires
            index <= u32::MAX,
        ensures
            id@ == index,
    {
        TypeId(index as u32)
    }

    pub fn index(self) -> (index: usize)
        ensures
            index == self@,
    {
        self.0 as usize
    }
}

/// Index of an entry in one of the module's arenas.
#[derive(Clone, Copy, Debug, PartialEq, Eq, Structural, Hash)]
pub struct BlockId(u32);

impl View for BlockId {
    type V = nat;

    closed spec fn view(&self) -> nat {
        self.0 as nat
    }
}

impl BlockId {
    pub(crate) fn from_index(index: usize) -> (id: Self)
        requires
            index <= u32::MAX,
        ensures
            id@ == index,
    {
        BlockId(index as u32)
    }

    pub fn index(self) -> (index: usize)
        ensures
            index == self@,
    {
        self.0 as usize
    }
}

/// Index of an entry in one of the module's arenas.
#[derive(Clone, Copy, Debug, PartialEq, Eq, Structural, Hash)]
pub struct StmtId(u32);

impl View for StmtId {
    type V = nat;

    closed spec fn view(&self) -> nat {
        self.0 as nat
    }
}

impl StmtId {
    pub(crate) fn from_index(index: usize) -> (id: Self)
        requires
            index <= u32::MAX,
        ensures
            id@ == index,
    {
        StmtId(index as u32)
    }

    pub fn index(self) -> (index: usize)
        ensures
            index == self@,
    {
        self.0 as usize
    }
}

/// Index of an entry in one of the module's arenas.
#[derive(Clone, Copy, Debug, PartialEq, Eq, Structural, Hash)]
pub struct PatternId(u32);

impl View for PatternId {
    type V = nat;

    closed spec fn view(&self) -> nat {
        self.0 as nat
    }
}

impl PatternId {
    pub(crate) fn from_index(index: usize) -> (id: Self)
        requires
            index <= u32::MAX,
        ensures
            id@ == index,
    {
        PatternId(index as u32)
    }

    pub fn index(self) -> (index: usize)
        ensures
            index == self@,
    {
        self.0 as usize
    }
}

/// Index of an entry in one of the module's arenas.
#[derive(Clone, Copy, Debug, PartialEq, Eq, Structural, Hash)]
pub struct ExprId(u32);

impl View for ExprId {
    type V = nat;

    closed spec fn view(&self) -> nat {
        self.0 as nat
    }
}

impl ExprId {
    pub(crate) fn from_index(index: usize) -> (id: Self)
        requires
            index <= u32::MAX,
        ensures
            id@ == index,
    {
        ExprId(index as u32)
    }

    pub fn index(self) -> (index: usize)
        ensures
            index == self@,
    {
        self.0 as usize
    }
}

/// Index of an entry in one of the module's arenas.
#[derive(Clone, Copy, Debug, PartialEq, Eq, Structural, Hash)]
pub struct LocalId(u32);

impl View for LocalId {
    type V = nat;

    closed spec fn view(&self) -> nat {
        self.0 as nat
    }
}

impl LocalId {
    pub(crate) fn from_index(index: usize) -> (id: Self)
        requires
            index <= u32::MAX,
        ensures
            id@ == index,
    {
        LocalId(index as u32)
    }

    pub fn index(self) -> (index: usize)
        ensures
            index == self@,
    {
        self.0 as usize
    }
}

/// A function of the module: a top-level function item, or the `index`-th
/// function of an `extern` block item.
#[derive(Clone, Copy, Debug, PartialEq, Eq, Structural, Hash)]
pub enum FunctionRef {
    Item(ItemId),
    ExternBlockMember { block: ItemId, index: usize },
}

// ---------------------------------------------------------------------------
// The module and its arenas.
// ---------------------------------------------------------------------------

/// A module lowered out of the surface syntax: its header, its top-level
/// items, and arenas that hold every item, type, block, statement, pattern,
/// expression and local, which refer to one another by id.
#[derive(Clone, Debug, PartialEq)]
pub struct Module {
    pub package: Option<PackageDecl>,
    pub uses: Vec<UseDecl>,
    pub items: Vec<ItemId>,
    item_data: Vec<Item>,
    type_data: Vec<Type>,
    block_data: Vec<Block>,
    stmt_data: Vec<Stmt>,
    pattern_data: Vec<Pattern>,
    expr_data: Vec<Expr>,
    local_data: Vec<Local>,
}

impl Default for Module {
    fn default() -> (module: Module)
        ensures
            module.package_decl() is None,
            module.use_decls().len() == 0,
            module.top_level_items().len() == 0,
            module.items_arena().len() == 0,
            module.types_arena().len() == 0,
            module.blocks_arena().len() == 0,
            module.stmts_arena().len() == 0,
            module.patterns_arena().len() == 0,
            module.exprs_arena().len() == 0,
            module.locals_arena().len() == 0,
    {
        Module {
            package: None,
            uses: Vec::new(),
            items: Vec::new(),
            item_data: Vec::new(),
            type_data: Vec::new(),
            block_data: Vec::new(),
            stmt_data: Vec::new(),
            pattern_data: Vec::new(),
            expr_data: Vec::new(),
            local_data: Vec::new(),
        }
    }
}

/// The function that a reference resolves to, when it resolves to one.
pub open spec fn resolve_function(items: Seq<Item>, function_ref: FunctionRef) -> Option<Function> {
    match function_ref {
        FunctionRef::Item(id) => if id@ < items.len() {
            match items[id@ as int].kind {
                ItemKind::Function(function) => Some(function),
                _ => None,
            }
        } else {
            None
        },
        FunctionRef::ExternBlockMember { block, index } => if block@ < items.len() {
            match items[block@ as int].kind {
                ItemKind::ExternBlock(extern_block) => if index < extern_block.functions@.len() {
                    Some(extern_block.functions@[index as int])
                } else {
                    None
                },
                _ => None,
            }
        } else {
            None
        },
    }
}

/// The item that owns the referenced function.
pub open spec fn owner_item(function_ref: FunctionRef) -> ItemId {
    match function_ref {
        FunctionRef::Item(id) => id,
        FunctionRef::ExternBlockMember { block, .. } => block,
    }
}

impl Module {
    /// The module's `package` declaration.
    pub closed spec fn package_decl(&self) -> Option<PackageDecl> {
        self.package
    }

    /// The module's `use` declarations.
    pub closed spec fn use_decls(&self) -> Seq<UseDecl> {
        self.uses@
    }

    /// The ids of the module's top-level items, in source order.
    pub closed spec fn top_level_items(&self) -> Seq<ItemId> {
        self.items@
    }

    /// The entries of the `Item` arena, in allocation order.
    pub closed spec fn items_arena(&self) -> Seq<Item> {
        self.item_data@
    }

    /// The entries of the `Type` arena, in allocation order.
    pub closed spec fn types_arena(&self) -> Seq<Type> {
        self.type_data@
    }

    /// The entries of the `Block` arena, in allocation order.
    pub closed spec fn blocks_arena(&self) -> Seq<Block> {
        self.block_data@
    }

    /// The entries of the `Stmt` arena, in allocation order.
    pub closed spec fn stmts_arena(&self) -> Seq<Stmt> {
        self.stmt_data@
    }

    /// The entries of the `Pattern` arena, in allocation order.
    pub closed spec fn patterns_arena(&self) -> Seq<Pattern> {
        self.pattern_data@
    }

    /// The entries of the `Expr` arena, in allocation order.
    pub closed spec fn exprs_arena(&self) -> Seq<Expr> {
        self.expr_data@
    }

    /// The entries of the `Local` arena, in allocation order.
    pub closed spec fn locals_arena(&self) -> Seq<Local> {
        self.local_data@
    }

    /// The entry that `id` names.
    pub fn item(&self, id: ItemId) -> (entry: &Item)
        requires
            id@ < self.items_arena().len(),
        ensures
            *entry == self.items_arena()[id@ as int],
    {
        &self.item_data[id.index()]
    }

    /// The entry that `id` names.
    pub fn ty(&self, id: TypeId) -> (entry: &Type)
        requires
            id@ < self.types_arena().len(),
        ensures
            *entry == self.types_arena()[id@ as int],
    {
        &self.type_data[id.index()]
    }

    /// The entry that `id` names.
    pub fn block(&self, id: BlockId) -> (entry: &Block)
        requires
            id@ < self.blocks_arena().len(),
        ensures
            *entry == self.blocks_arena()[id@ as int],
    {
        &self.block_data[id.index()]
    }

    /// The entry that `id` names.
    pub fn stmt(&self, id: StmtId) -> (entry: &Stmt)
        requires
            id@ < self.stmts_arena().len(),
        ensures
            *entry == self.stmts_arena()[id@ as int],
    {
        &self.stmt_data[id.index()]
    }

    /// The entry that `id` names.
    pub fn pattern(&self, id: PatternId) -> (entry: &Pattern)
        requires
            id@ < self.patterns_arena().len(),
        ensures
            *entry == self.patterns_arena()[id@ as int],
    {
        &self.pattern_data[id.index()]
    }

    /// The entry that `id` names.
    pub fn expr(&self, id: ExprId) -> (entry: &Expr)
        requires
            id@ < self.exprs_arena().len(),
        ensures
            *entry == self.exprs_arena()[id@ as int],
    {
        &self.expr_data[id.index()]
    }

    /// The entry that `id` names.
    pub fn local(&self, id: LocalId) -> (entry: &Local)
        requires
            id@ < self.locals_arena().len(),
        ensures
            *entry == self.locals_arena()[id@ as int],
    {
        &self.local_data[id.index()]
    }

    /// The function a reference names; it must name a function item, or a
    /// function of an `extern` block item.
    pub fn function(&self, function_ref: FunctionRef) -> (function: &Function)
        requires
            resolve_function(self.items_arena(), function_ref) is Some,
        ensures
            resolve_function(self.items_arena(), function_ref) == Some(*function),
    {
        match function_ref {
            FunctionRef::Item(item_id) => match &self.item(item_id).kind {
                ItemKind::Function(function) => function,
                _ => vstd::pervasive::unreached(),
            },
            FunctionRef::ExternBlockMember { block, index } => match &self.item(block).kind {
                ItemKind::ExternBlock(extern_block) => &extern_block.functions[index],
                _ => vstd::pervasive::unreached(),
            },
        }
    }

    /// The item that owns the referenced function.
    pub fn function_owner_item(&self, function_ref: FunctionRef) -> (item: ItemId)
        ensures
            item == owner_item(function_ref),
    {
        match function_ref {
            FunctionRef::Item(item_id) => item_id,
            FunctionRef::ExternBlockMember { block, .. } => block,
        }
    }

    /// All locals, in allocation order.
    pub fn locals(&self) -> (locals: &[Local])
        ensures
            locals@ == self.locals_arena(),
    {
        self.local_data.as_slice()
    }

    /// Appends an entry to the `Item` arena and returns its id, which is the
    /// arena's length before the call.
    pub fn alloc_item(&mut self, item: Item) -> (id: ItemId)
        requires
            old(self).items_arena().len() <= u32::MAX,
        ensures
            id@ == old(self).items_arena().len(),
            final(self).items_arena() == old(self).items_arena().push(item),
            final(self).types_arena() == old(self).types_arena(),
            final(self).blocks_arena() == old(self).blocks_arena(),
            final(self).stmts_arena() == old(self).stmts_arena(),
            final(self).patterns_arena() == old(self).patterns_arena(),
            final(self).exprs_arena() == old(self).exprs_arena(),
            final(self).locals_arena() == old(self).locals_arena(),
            final(self).package_decl() == old(self).package_decl(),
            final(self).use_decls() == old(self).use_decls(),
            final(self).top_level_items() == old(self).top_level_items(),
    {
        let id = ItemId::from_index(self.item_data.len());
        self.item_data.push(item);
        id
    }

    /// Appends an entry to the `Type` arena and returns its id, which is the
    /// arena's length before the call.
    pub fn alloc_type(&mut self, ty: Type) -> (id: TypeId)
        requires
            old(self).types_arena().len() <= u32::MAX,
        ensures
            id@ == old(self).types_arena().len(),
            final(self).types_arena() == old(self).types_arena().push(ty),
            final(self).items_arena() == old(self).items_arena(),
            final(self).blocks_arena() == old(self).blocks_arena(),
            final(self).stmts_arena() == old(self).stmts_arena(),
            final(self).patterns_arena() == old(self).patterns_arena(),
            final(self).exprs_arena() == old(self).exprs_arena(),
            final(self).locals_arena() == old(self).locals_arena(),
            final(self).package_decl() == old(self).package_decl(),
            final(self).use_decls() == old(self).use_decls(),
            final(self).top_level_items() == old(self).top_level_items(),
    {
        let id = TypeId::from_index(self.type_data.len());
        self.type_data.push(ty);
        id
    }

    /// Appends an entry to the `Block` arena and returns its id, which is the
    /// arena's length before the call.
    pub fn alloc_block(&mut self, block: Block) -> (id: BlockId)
        requires
            old(self).blocks_arena().len() <= u32::MAX,
        ensures
            id@ == old(self).blocks_arena().len(),
            final(self).blocks_arena() == old(self).blocks_arena().push(block),
            final(self).items_arena() == old(self).items_arena(),
            final(self).types_arena() == old(self).types_arena(),
            final(self).stmts_arena() == old(self).stmts_arena(),
            final(self).patterns_arena() == old(self).patterns_arena(),
            final(self).exprs_arena() == old(self).exprs_arena(),
            final(self).locals_arena() == old(self).locals_arena(),
            final(self).package_decl() == old(self).package_decl(),
            final(self).use_decls() == old(self).use_decls(),
            final(self).top_level_items() == old(self).top_level_items(),
    {
        let id = BlockId::from_index(self.block_data.len());
        self.block_data.push(block);
        id
    }

    /// Appends an entry to the `Stmt` arena and returns its id, which is the
    /// arena's length before the call.
    pub fn alloc_stmt(&mut self, stmt: Stmt) -> (id: StmtId)
        requires
            old(self).stmts_arena().len() <= u32::MAX,
        ensures
            id@ == old(self).stmts_arena().len(),
            final(self).stmts_arena() == old(self).stmts_arena().push(stmt),
            final(self).items_arena() == old(self).items_arena(),
            final(self).types_arena() == old(self).types_arena(),
            final(self).blocks_arena() == old(self).blocks_arena(),
            final(self).patterns_arena() == old(self).patterns_arena(),
            final(self).exprs_arena() == old(self).exprs_arena(),
            final(self).locals_arena() == old(self).locals_arena(),
            final(self).package_decl() == old(self).package_decl(),
            final(self).use_decls() == old(self).use_decls(),
            final(self).top_level_items() == old(self).top_level_items(),
    {
        let id = StmtId::from_index(self.stmt_data.len());
        self.stmt_data.push(stmt);
        id
    }

    /// Appends an entry to the `Pattern` arena and returns its id, which is the
    /// arena's length before the call.
    pub fn alloc_pattern(&mut self, pattern: Pattern) -> (id: PatternId)
        requires
            old(self).patterns_arena().len() <= u32::MAX,
        ensures
            id@ == old(self).patterns_arena().len(),
            final(self).patterns_arena() == old(self).patterns_arena().push(pattern),
            final(self).items_arena() == old(self).items_arena(),
            final(self).types_arena() == old(self).types_arena(),
            final(self).blocks_arena() == old(self).blocks_arena(),
            final(self).stmts_arena() == old(self).stmts_arena(),
            final(self).exprs_arena() == old(self).exprs_arena(),
            final(self).locals_arena() == old(self).locals_arena(),
            final(self).package_decl() == old(self).package_decl(),
            final(self).use_decls() == old(self).use_decls(),
            final(self).top_level_items() == old(self).top_level_items(),
    {
        let id = PatternId::from_index(self.pattern_data.len());
        self.pattern_data.push(pattern);
        id
    }

    /// Appends an entry to the `Expr` arena and returns its id, which is the
    /// arena's length before the call.
    pub fn alloc_expr(&mut self, expr: Expr) -> (id: ExprId)
        requires
            old(self).exprs_arena().len() <= u32::MAX,
        ensures
            id@ == old(self).exprs_arena().len(),
            final(self).exprs_arena() == old(self).exprs_arena().push(expr),
            final(self).items_arena() == old(self).items_arena(),
            final(self).types_arena() == old(self).types_arena(),
            final(self).blocks_arena() == old(self).blocks_arena(),
            final(self).stmts_arena() == old(self).stmts_arena(),
            final(self).patterns_arena() == old(self).patterns_arena(),
            final(self).locals_arena() == old(self).locals_arena(),
            final(self).package_decl() == old(self).package_decl(),
            final(self).use_decls() == old(self).use_decls(),
            final(self).top_level_items() == old(self).top_level_items(),
    {
        let id = ExprId::from_index(self.expr_data.len());
        self.expr_data.push(expr);
        id
    }

    /// Appends an entry to the `Local` arena and returns its id, which is the
    /// arena's length before the call.
    pub fn alloc_local(&mut self, local: Local) -> (id: LocalId)
        requires
            old(self).locals_arena().len() <= u32::MAX,
        ensures
            id@ == old(self).locals_arena().len(),
            final(self).locals_arena() == old(self).locals_arena().push(local),
            final(self).items_arena() == old(self).items_arena(),
            final(self).types_arena() == old(self).types_arena(),
            final(self).blocks_arena() == old(self).blocks_arena(),
            final(self).stmts_arena() == old(self).stmts_arena(),
            final(self).patterns_arena() == old(self).patterns_arena(),
            final(self).exprs_arena() == old(self).exprs_arena(),
            final(self).package_decl() == old(self).package_decl(),
            final(self).use_decls() == old(self).use_decls(),
            final(self).top_level_items() == old(self).top_level_items(),
    {
        let id = LocalId::from_index(self.local_data.len());
        self.local_data.push(local);
        id
    }

}

// ---------------------------------------------------------------------------
// Items.
// ---------------------------------------------------------------------------

/// A top-level definition stored in the item arena.
#[derive(Clone, Debug, PartialEq)]
pub struct Item {
    pub span: Span,
    pub kind: ItemKind,
}

#[derive(Clone, Debug, PartialEq)]
pub enum ItemKind {
    Function(Function),
    Const(Global),
    Static(Global),
    Struct(Struct),
    Enum(Enum),
    Trait(Trait),
    Impl(Impl),
    Extend(Extend),
    TypeAlias(TypeAlias),
    ExternBlock(ExternBlock),
}

#[derive(Clone, Debug, PartialEq)]
pub struct Function {
    pub span: Span,
    pub visibility: Visibility,
    pub is_async: bool,
    pub is_unsafe: bool,
    pub abi: Option<String>,
    pub generics: Vec<GenericParam>,
    pub name: String,
    pub name_span: Span,
    pub params: Vec<Param>,
    pub return_type: Option<TypeId>,
    pub where_clause: Vec<WherePredicate>,
    pub body: Option<BlockId>,
}

#[derive(Clone, Debug, PartialEq)]
pub enum Param {
    Regular(RegularParam),
    Receiver(ReceiverParam),
}

#[derive(Clone, Debug, PartialEq)]
pub struct RegularParam {
    pub name: String,
    pub name_span: Span,
    pub ty: TypeId,
}

#[derive(Clone, Debug, PartialEq)]
pub struct ReceiverParam {
    pub kind: ReceiverKind,
    pub span: Span,
}

#[derive(Clone, Debug, PartialEq, Eq)]
pub struct GenericParam {
    pub name: String,
    pub name_span: Span,
    pub bounds: Vec<Path>,
}

#[derive(Clone, Debug, PartialEq)]
pub struct WherePredicate {
    pub target: TypeId,
    pub bounds: Vec<Path>,
}

#[derive(Clone, Debug, PartialEq)]
pub struct Global {
    pub span: Span,
    pub visibility: Visibility,
    pub name: String,
    pub name_span: Span,
    pub ty: TypeId,
    pub value: ExprId,
}

#[derive(Clone, Debug, PartialEq)]
pub struct Struct {
    pub span: Span,
    pub visibility: Visibility,
    pub is_data: bool,
    pub name: String,
    pub name_span: Span,
    pub generics: Vec<GenericParam>,
    pub fields: Vec<Field>,
}

#[derive(Clone, Debug, PartialEq)]
pub struct Field {
    pub name: String,
    pub name_span: Span,
    pub ty: TypeId,
    pub default: Option<ExprId>,
}

#[derive(Clone, Debug, PartialEq)]
pub struct Enum {
    pub span: Span,
    pub visibility: Visibility,
    pub name: String,
    pub name_span: Span,
    pub generics: Vec<GenericParam>,
    pub variants: Vec<EnumVariant>,
}

#[derive(Clone, Debug, PartialEq)]
pub struct EnumVariant {
    pub name: String,
    pub name_span: Span,
    pub fields: VariantFields,
}

#[derive(Clone, Debug, PartialEq)]
pub enum VariantFields {
    Unit,
    Tuple(Vec<TypeId>),
    Struct(Vec<Field>),
}

#[derive(Clone, Debug, PartialEq)]
pub struct Trait {
    pub span: Span,
    pub visibility: Visibility,
    pub name: String,
    pub name_span: Span,
    pub generics: Vec<GenericParam>,
    pub methods: Vec<Function>,
}

#[derive(Clone, Debug, PartialEq)]
pub struct Impl {
    pub span: Span,
    pub generics: Vec<GenericParam>,
    pub trait_ty: Option<TypeId>,
    pub target: TypeId,
    pub where_clause: Vec<WherePredicate>,
    pub methods: Vec<Function>,
}

#[derive(Clone, Debug, PartialEq)]
pub struct Extend {
    pub span: Span,
    pub target: TypeId,
    pub methods: Vec<Function>,
}

#[derive(Clone, Debug, PartialEq)]
pub struct TypeAlias {
    pub span: Span,
    pub visibility: Visibility,
    pub is_opaque: bool,
    pub name: String,
    pub name_span: Span,
    pub generics: Vec<GenericParam>,
    pub ty: TypeId,
}

#[derive(Clone, Debug, PartialEq)]
pub struct ExternBlock {
    pub span: Span,
    pub visibility: Visibility,
    pub abi: String,
    pub functions: Vec<Function>,
}

// ---------------------------------------------------------------------------
// Types, blocks, statements, patterns and expressions.
// ---------------------------------------------------------------------------

#[derive(Clone, Debug, PartialEq)]
pub struct Type {
    pub span: Span,
    pub kind: TypeKind,
}

#[derive(Clone, Debug, PartialEq)]
pub enum TypeKind {
    Pointer { is_const: bool, inner: TypeId },
    Named { path: Path, args: Vec<TypeId> },
    Tuple(Vec<TypeId>),
    Callable { params: Vec<TypeId>, ret: TypeId },
}

#[derive(Clone, Debug, PartialEq)]
pub struct Block {
    pub span: Span,
    pub statements: Vec<StmtId>,
    pub tail: Option<ExprId>,
}

#[derive(Clone, Debug, PartialEq)]
pub struct Stmt {
    pub span: Span,
    pub kind: StmtKind,
}

#[derive(Clone, Debug, PartialEq)]
pub enum StmtKind {
    Let { mutable: bool, pattern: PatternId, value: ExprId },
    Return(Option<ExprId>),
    Defer(ExprId),
    Break,
    Continue,
    While { condition: ExprId, body: BlockId },
    Loop { body: BlockId },
    For { is_await: bool, pattern: PatternId, iterable: ExprId, body: BlockId },
    Expr { expr: ExprId, terminated: bool },
}

#[derive(Clone, Debug, PartialEq, Eq)]
pub struct Pattern {
    pub span: Span,
    pub kind: PatternKind,
}

#[derive(Clone, Debug, PartialEq, Eq)]
pub enum PatternKind {
    Binding(LocalId),
    Tuple(Vec<PatternId>),
    Path(Path),
    TupleStruct { path: Path, items: Vec<PatternId> },
    Struct { path: Path, fields: Vec<PatternField>, has_rest: bool },
    Integer(String),
    String(String),
    Bool(bool),
    NoneLiteral,
    Wildcard,
}

#[derive(Clone, Debug, PartialEq, Eq)]
pub struct PatternField {
    pub name: String,
    pub name_span: Span,
    pub pattern: PatternId,
}

#[derive(Clone, Debug, PartialEq)]
pub struct Expr {
    pub span: Span,
    pub kind: ExprKind,
}

#[derive(Clone, Debug, PartialEq)]
pub enum ExprKind {
    Name(String),
    Integer(String),
    String { value: String, is_format: bool },
    Bool(bool),
    NoneLiteral,
    Tuple(Vec<ExprId>),
    Array(Vec<ExprId>),
    Block(BlockId),
    Unsafe(BlockId),
    If { condition: ExprId, then_branch: BlockId, else_branch: Option<ExprId> },
    Match { value: ExprId, arms: Vec<MatchArm> },
    Closure { is_move: bool, params: Vec<LocalId>, body: ExprId },
    Call { callee: ExprId, args: Vec<CallArg> },
    Member { object: ExprId, field: String },
    Bracket { target: ExprId, items: Vec<ExprId> },
    StructLiteral { path: Path, fields: Vec<StructLiteralField> },
    Binary { left: ExprId, op: BinaryOp, right: ExprId },
    Unary { op: UnaryOp, expr: ExprId },
    Question(ExprId),
}

#[derive(Clone, Debug, PartialEq)]
pub struct MatchArm {
    pub pattern: PatternId,
    pub guard: Option<ExprId>,
    pub body: ExprId,
}

#[derive(Clone, Debug, PartialEq)]
pub enum CallArg {
    Positional(ExprId),
    Named { name: String, name_span: Span, value: ExprId },
}

#[derive(Clone, Debug, PartialEq)]
pub struct StructLiteralField {
    pub name: String,
    pub name_span: Span,
    pub value: ExprId,
}

#[derive(Clone, Debug, PartialEq, Eq)]
pub struct Local {
    pub name: String,
    pub span: Span,
}

} // verus!
