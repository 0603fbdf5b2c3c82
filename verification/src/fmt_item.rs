use vstd::prelude::*;

use crate::ast::{
    EnumDecl, EnumVariant, ExtendBlock, ExternBlock, FunctionDecl, GlobalDecl, ImplBlock, Item,
    Module, Param, ReceiverKind, StructDecl, StructField, TraitDecl, TypeAliasDecl, UseDecl, UseItem,
    TypeExpr, VariantField, VariantFields,
};
use crate::fmt::{
    format_generic_params, format_ident, format_path, format_type, format_type_list,
    format_visibility, format_where_clause, formatted_ident, generic_params_text, indent_text,
    path_text, type_text, types_text, visibility_text, where_clause_text, write_indent,
};
use crate::fmt_expr::{block_depth, block_text, expr_depth, expr_text, format_block, format_expr};
use crate::strings::{ends_with, join_spec, lemma_join_take_step};
use crate::text::string_push;
use vstd::seq_lib::lemma_concat_associative;

verus! {

// ---------------------------------------------------------------------------
// What declarations and a whole module look like once formatted.
// ---------------------------------------------------------------------------

/// `name: Type`, or the receiver: `self`, `var self` or `move self`.
pub open spec fn param_text(param: Param) -> Seq<char> {
    match param {
        Param::Regular { name, ty } => formatted_ident(name@) + ": "@ + type_text(ty),
        Param::Receiver { kind } => match kind {
            ReceiverKind::ReadOnly => "self"@,
            ReceiverKind::Mutable => "var self"@,
            ReceiverKind::Move => "move self"@,
        },
    }
}

pub open spec fn params_text(params: Seq<Param>) -> Seq<char> {
    join_spec(params.map_values(|param: Param| param_text(param)), ", "@)
}

/// `extern "abi" ` in front of a function that has an ABI, where asked for.
pub open spec fn abi_prefix_text(abi: Option<String>, show_abi: bool) -> Seq<char> {
    match abi {
        Some(abi) => if show_abi {
            "extern "@ + seq!['"'] + abi@ + seq!['"'] + seq![' ']
        } else {
            Seq::empty()
        },
        None => Seq::empty(),
    }
}

/// `unsafe ` and `async ` where the function has them.
pub open spec fn function_modifiers_text(function: FunctionDecl) -> Seq<char> {
    (if function.is_unsafe {
        "unsafe "@
    } else {
        Seq::empty()
    }) + if function.is_async {
        "async "@
    } else {
        Seq::empty()
    }
}

pub open spec fn return_type_text(return_type: Option<TypeExpr>) -> Seq<char> {
    match return_type {
        Some(ty) => " -> "@ + type_text(ty),
        None => Seq::empty(),
    }
}

/// The header of a function, from its indentation to its return type.
pub open spec fn function_head_text(function: FunctionDecl, indent: nat, show_abi: bool) -> Seq<
    char,
> {
    indent_text(indent) + abi_prefix_text(function.abi, show_abi) + visibility_text(
        function.visibility,
    ) + function_modifiers_text(function) + "fn "@ + formatted_ident(function.name@)
        + generic_params_text(function.generics@) + seq!['('] + params_text(function.params@)
        + seq![')'] + return_type_text(function.return_type)
}

/// The body of a function (when it has one), after a space, or on its own
/// line after a `where` clause.
pub open spec fn function_body_text(function: FunctionDecl, indent: nat) -> Seq<char> {
    match function.body {
        Some(body) => (if function.where_clause.len() == 0 {
            seq![' ']
        } else {
            indent_text(indent)
        }) + block_text(body, indent),
        None => Seq::empty(),
    }
}

/// A function: its header on the line indented `indent` levels, its `where`
/// clause, then its body.
pub open spec fn function_text(function: FunctionDecl, indent: nat, show_abi: bool) -> Seq<char> {
    function_head_text(function, indent, show_abi) + where_clause_text(function.where_clause@, indent)
        + function_body_text(function, indent)
}

/// A method inside a trait, impl, extend or extern block, one level deeper,
/// followed by a line break.
pub open spec fn member_text(function: FunctionDecl, indent: nat) -> Seq<char> {
    function_text(function, indent + 1, false) + seq!['\n']
}

/// `keyword name: Type = value` for `const` and `static`.
pub open spec fn global_text(keyword: Seq<char>, global: GlobalDecl, indent: nat) -> Seq<char> {
    indent_text(indent) + visibility_text(global.visibility) + keyword + seq![' '] + formatted_ident(
        global.name@,
    ) + ": "@ + type_text(global.ty) + " = "@ + expr_text(global.value, indent)
}

pub open spec fn struct_field_text(field: StructField, indent: nat) -> Seq<char> {
    indent_text(indent + 1) + formatted_ident(field.name@) + ": "@ + type_text(field.ty)
        + match field.default {
        Some(value) => " = "@ + expr_text(value, indent + 1),
        None => Seq::empty(),
    } + ",\n"@
}

/// A struct's first line, up to its opening brace and line break.
pub open spec fn struct_head_text(decl: StructDecl, indent: nat) -> Seq<char> {
    indent_text(indent) + visibility_text(decl.visibility) + (if decl.is_data {
        "data "@
    } else {
        Seq::empty()
    }) + "struct "@ + formatted_ident(decl.name@) + generic_params_text(decl.generics@) + " {\n"@
}

pub open spec fn struct_text(decl: StructDecl, indent: nat) -> Seq<char> {
    struct_head_text(decl, indent) + join_spec(
        decl.fields@.map_values(|field: StructField| struct_field_text(field, indent)),
        Seq::empty(),
    ) + indent_text(indent) + seq!['}']
}

pub open spec fn variant_field_text(field: VariantField, indent: nat) -> Seq<char> {
    indent_text(indent + 2) + formatted_ident(field.name@) + ": "@ + type_text(field.ty) + ",\n"@
}

pub open spec fn variant_text(variant: EnumVariant, indent: nat) -> Seq<char> {
    indent_text(indent + 1) + formatted_ident(variant.name@) + match variant.fields {
        VariantFields::Unit => Seq::empty(),
        VariantFields::Tuple(types) => seq!['('] + types_text(types@) + seq![')'],
        VariantFields::Struct(fields) => " {\n"@ + join_spec(
            fields@.map_values(|field: VariantField| variant_field_text(field, indent)),
            Seq::empty(),
        ) + indent_text(indent + 1) + seq!['}'],
    } + ",\n"@
}

pub open spec fn enum_head_text(decl: EnumDecl, indent: nat) -> Seq<char> {
    indent_text(indent) + visibility_text(decl.visibility) + "enum "@ + formatted_ident(decl.name@)
        + generic_params_text(decl.generics@) + " {\n"@
}

pub open spec fn enum_text(decl: EnumDecl, indent: nat) -> Seq<char> {
    enum_head_text(decl, indent) + join_spec(
        decl.variants@.map_values(|variant: EnumVariant| variant_text(variant, indent)),
        Seq::empty(),
    ) + indent_text(indent) + seq!['}']
}

pub open spec fn trait_head_text(decl: TraitDecl, indent: nat) -> Seq<char> {
    indent_text(indent) + visibility_text(decl.visibility) + "trait "@ + formatted_ident(decl.name@)
        + generic_params_text(decl.generics@) + " {\n"@
}

pub open spec fn trait_text(decl: TraitDecl, indent: nat) -> Seq<char> {
    trait_head_text(decl, indent) + join_spec(
        decl.methods@.map_values(|method: FunctionDecl| member_text(method, indent)),
        Seq::empty(),
    ) + indent_text(indent) + seq!['}']
}

/// `impl[...] Trait for Target`, without the `where` clause.
pub open spec fn impl_head_text(block: ImplBlock, indent: nat) -> Seq<char> {
    indent_text(indent) + "impl"@ + generic_params_text(block.generics@) + seq![' '] + match block.trait_ty {
        Some(ty) => type_text(ty) + " for "@,
        None => Seq::empty(),
    } + type_text(block.target)
}

/// The opening brace: on the header line, or on its own line after a
/// `where` clause.
pub open spec fn impl_open_text(block: ImplBlock, indent: nat) -> Seq<char> {
    if block.where_clause.len() == 0 {
        " {\n"@
    } else {
        indent_text(indent) + "{\n"@
    }
}

pub open spec fn impl_text(block: ImplBlock, indent: nat) -> Seq<char> {
    impl_head_text(block, indent) + where_clause_text(block.where_clause@, indent) + impl_open_text(
        block,
        indent,
    ) + join_spec(
        block.methods@.map_values(|method: FunctionDecl| member_text(method, indent)),
        seq!['\n'],
    ) + indent_text(indent) + seq!['}']
}

pub open spec fn extend_text(block: ExtendBlock, indent: nat) -> Seq<char> {
    indent_text(indent) + "extend "@ + type_text(block.target) + " {\n"@ + join_spec(
        block.methods@.map_values(|method: FunctionDecl| member_text(method, indent)),
        seq!['\n'],
    ) + indent_text(indent) + seq!['}']
}

pub open spec fn type_alias_text(decl: TypeAliasDecl, indent: nat) -> Seq<char> {
    indent_text(indent) + visibility_text(decl.visibility) + (if decl.is_opaque {
        "opaque "@
    } else {
        Seq::empty()
    }) + "type "@ + formatted_ident(decl.name@) + generic_params_text(decl.generics@) + " = "@
        + type_text(decl.ty)
}

pub open spec fn extern_block_head_text(block: ExternBlock, indent: nat) -> Seq<char> {
    indent_text(indent) + visibility_text(block.visibility) + "extern "@ + seq!['"'] + block.abi@
        + seq!['"'] + " {\n"@
}

pub open spec fn extern_block_text(block: ExternBlock, indent: nat) -> Seq<char> {
    extern_block_head_text(block, indent) + join_spec(
        block.functions@.map_values(|function: FunctionDecl| member_text(function, indent)),
        Seq::empty(),
    ) + indent_text(indent) + seq!['}']
}

/// How an item is written, starting on a line indented `indent` levels.
pub open spec fn item_text(item: Item, indent: nat) -> Seq<char> {
    match item {
        Item::Function(function) => function_text(function, indent, true),
        Item::Const(global) => global_text("const"@, global, indent),
        Item::Static(global) => global_text("static"@, global, indent),
        Item::Struct(decl) => struct_text(decl, indent),
        Item::Enum(decl) => enum_text(decl, indent),
        Item::Trait(decl) => trait_text(decl, indent),
        Item::Impl(block) => impl_text(block, indent),
        Item::Extend(block) => extend_text(block, indent),
        Item::TypeAlias(decl) => type_alias_text(decl, indent),
        Item::ExternBlock(block) => extern_block_text(block, indent),
    }
}

pub open spec fn alias_text(alias: Option<String>) -> Seq<char> {
    match alias {
        Some(alias) => " as "@ + formatted_ident(alias@),
        None => Seq::empty(),
    }
}

pub open spec fn use_item_text(item: UseItem) -> Seq<char> {
    formatted_ident(item.name@) + alias_text(item.alias)
}

/// A `use` line: the prefix, its `.{...}` group, its alias, a line break.
pub open spec fn use_text(decl: UseDecl) -> Seq<char> {
    "use "@ + path_text(decl.prefix) + match decl.group {
        Some(items) => ".{"@ + join_spec(
            items@.map_values(|item: UseItem| use_item_text(item)),
            ", "@,
        ) + seq!['}'],
        None => Seq::empty(),
    } + alias_text(decl.alias) + seq!['\n']
}

/// The `package` line, if any.
pub open spec fn package_section_text(module: Module) -> Seq<char> {
    match module.package {
        Some(package) => "package "@ + path_text(package.path) + seq!['\n'],
        None => Seq::empty(),
    }
}

/// The `use` lines, after a blank line when a package line precedes them.
pub open spec fn uses_section_text(module: Module) -> Seq<char> {
    if module.uses.len() == 0 {
        Seq::empty()
    } else {
        (if module.package is Some {
            seq!['\n']
        } else {
            Seq::empty()
        }) + join_spec(module.uses@.map_values(|decl: UseDecl| use_text(decl)), Seq::empty())
    }
}

/// The items separated by blank lines, after a blank line when something
/// precedes them.
pub open spec fn items_section_text(module: Module) -> Seq<char> {
    if module.items.len() == 0 {
        Seq::empty()
    } else {
        (if module.package is Some || module.uses.len() > 0 {
            seq!['\n']
        } else {
            Seq::empty()
        }) + join_spec(module.items@.map_values(|item: Item| item_text(item, 0)), "\n\n"@)
    }
}

/// The module before its final line break is ensured.
pub open spec fn module_body_text(module: Module) -> Seq<char> {
    package_section_text(module) + uses_section_text(module) + items_section_text(module)
}

/// The formatted module: its body, ending with exactly the line break it
/// has, or with one added.
pub open spec fn module_text(module: Module) -> Seq<char> {
    let body = module_body_text(module);
    if body.len() > 0 && body.last() == '\n' {
        body
    } else {
        body + seq!['\n']
    }
}

// ---------------------------------------------------------------------------
// Where the indentation fits in a `usize`.
// ---------------------------------------------------------------------------

pub open spec fn function_fits(function: FunctionDecl, indent: nat) -> bool {
    &&& indent + 1 <= usize::MAX
    &&& match function.body {
        Some(body) => indent + block_depth(body) <= usize::MAX,
        None => true,
    }
}

pub open spec fn members_fit(functions: Seq<FunctionDecl>, indent: nat) -> bool {
    &&& indent + 2 <= usize::MAX
    &&& forall|i: int| 0 <= i < functions.len() ==> function_fits(#[trigger] functions[i], indent + 1)
}

/// The nesting of `item`, started at `indent` levels, stays within `usize`.
pub open spec fn item_fits(item: Item, indent: nat) -> bool {
    match item {
        Item::Function(function) => function_fits(function, indent),
        Item::Const(global) => indent + expr_depth(global.value) <= usize::MAX,
        Item::Static(global) => indent + expr_depth(global.value) <= usize::MAX,
        Item::Struct(decl) => {
            &&& indent + 1 <= usize::MAX
            &&& forall|i: int|
                0 <= i < decl.fields.len() ==> match (#[trigger] decl.fields@[i]).default {
                    Some(value) => indent + 1 + expr_depth(value) <= usize::MAX,
                    None => true,
                }
        },
        Item::Enum(_) => indent + 2 <= usize::MAX,
        Item::Trait(decl) => members_fit(decl.methods@, indent),
        Item::Impl(block) => members_fit(block.methods@, indent),
        Item::Extend(block) => members_fit(block.methods@, indent),
        Item::TypeAlias(_) => true,
        Item::ExternBlock(block) => members_fit(block.functions@, indent),
    }
}

/// Every item of the module fits.
pub open spec fn module_fits(module: Module) -> bool {
    forall|i: int| 0 <= i < module.items.len() ==> item_fits(#[trigger] module.items@[i], 0)
}

// ---------------------------------------------------------------------------
// The formatter.
// ---------------------------------------------------------------------------

fn format_param(param: &Param, out: &mut String)
    ensures
        final(out)@ == old(out)@ + param_text(*param),
{
    match param {
        Param::Regular { name, ty } => {
            format_ident(name.as_str(), out);
            out.append(": ");
            format_type(ty, out);
        },
        Param::Receiver { kind } => match kind {
            ReceiverKind::ReadOnly => out.append("self"),
            ReceiverKind::Mutable => out.append("var self"),
            ReceiverKind::Move => out.append("move self"),
        },
    }
    assert(out@ =~= old(out)@ + param_text(*param));
}

fn format_params(params: &Vec<Param>, out: &mut String)
    ensures
        final(out)@ == old(out)@ + params_text(params@),
{
    let ghost parts = params@.map_values(|param: Param| param_text(param));
    let mut idx: usize = 0;
    assert(old(out)@ + join_spec(parts.take(0), ", "@) =~= old(out)@);
    while idx < params.len()
        invariant
            idx <= params@.len(),
            parts == params@.map_values(|param: Param| param_text(param)),
            out@ == old(out)@ + join_spec(parts.take(idx as int), ", "@),
        decreases params@.len() - idx,
    {
        proof {
            lemma_join_take_step(parts, ", "@, idx as int);
        }
        if idx > 0 {
            out.append(", ");
        }
        format_param(&params[idx], out);
        assert(out@ =~= old(out)@ + join_spec(parts.take(idx + 1), ", "@));
        idx = idx + 1;
    }
    assert(parts.take(params@.len() as int) =~= parts);
}

fn format_abi_prefix(abi: &Option<String>, show_abi: bool, out: &mut String)
    ensures
        final(out)@ == old(out)@ + abi_prefix_text(*abi, show_abi),
{
    if show_abi {
        match abi {
            Some(abi) => {
                out.append("extern ");
                string_push(out, '"');
                out.append(abi.as_str());
                string_push(out, '"');
                string_push(out, ' ');
            },
            None => {},
        }
    }
    assert(out@ =~= old(out)@ + abi_prefix_text(*abi, show_abi));
}

fn format_function_modifiers(function: &FunctionDecl, out: &mut String)
    ensures
        final(out)@ == old(out)@ + function_modifiers_text(*function),
{
    if function.is_unsafe {
        out.append("unsafe ");
    }
    if function.is_async {
        out.append("async ");
    }
    assert(out@ =~= old(out)@ + function_modifiers_text(*function));
}

fn format_return_type(return_type: &Option<TypeExpr>, out: &mut String)
    ensures
        final(out)@ == old(out)@ + return_type_text(*return_type),
{
    match return_type {
        Some(ty) => {
            out.append(" -> ");
            format_type(ty, out);
        },
        None => {},
    }
    assert(out@ =~= old(out)@ + return_type_text(*return_type));
}

fn format_function_head(function: &FunctionDecl, indent: usize, show_abi: bool, out: &mut String)
    ensures
        final(out)@ == old(out)@ + function_head_text(*function, indent as nat, show_abi),
{
    let ghost f = *function;
    let ghost o = old(out)@;
    write_indent(indent, out);
    let ghost q0 = indent_text(indent as nat);
    format_abi_prefix(&function.abi, show_abi, out);
    let ghost q1 = q0 + abi_prefix_text(f.abi, show_abi);
    proof {
        lemma_concat_associative(o, q0, abi_prefix_text(f.abi, show_abi));
    }
    format_visibility(&function.visibility, out);
    let ghost q2 = q1 + visibility_text(f.visibility);
    proof {
        lemma_concat_associative(o, q1, visibility_text(f.visibility));
    }
    format_function_modifiers(function, out);
    let ghost q3 = q2 + function_modifiers_text(f);
    proof {
        lemma_concat_associative(o, q2, function_modifiers_text(f));
    }
    out.append("fn ");
    let ghost q4 = q3 + "fn "@;
    proof {
        lemma_concat_associative(o, q3, "fn "@);
    }
    format_ident(function.name.as_str(), out);
    let ghost q5 = q4 + formatted_ident(f.name@);
    proof {
        lemma_concat_associative(o, q4, formatted_ident(f.name@));
    }
    format_generic_params(&function.generics, out);
    let ghost q6 = q5 + generic_params_text(f.generics@);
    proof {
        lemma_concat_associative(o, q5, generic_params_text(f.generics@));
    }
    string_push(out, '(');
    let ghost q7 = q6 + seq!['('];
    proof {
        lemma_concat_associative(o, q6, seq!['(']);
        assert((o + q6).push('(') =~= (o + q6) + seq!['(']);
    }
    format_params(&function.params, out);
    let ghost q8 = q7 + params_text(f.params@);
    proof {
        lemma_concat_associative(o, q7, params_text(f.params@));
    }
    string_push(out, ')');
    let ghost q9 = q8 + seq![')'];
    proof {
        lemma_concat_associative(o, q8, seq![')']);
        assert((o + q8).push(')') =~= (o + q8) + seq![')']);
    }
    format_return_type(&function.return_type, out);
    proof {
        lemma_concat_associative(o, q9, return_type_text(f.return_type));
    }
}

fn format_function_body(function: &FunctionDecl, indent: usize, out: &mut String)
    requires
        function_fits(*function, indent as nat),
    ensures
        final(out)@ == old(out)@ + function_body_text(*function, indent as nat),
{
    match &function.body {
        Some(body) => {
            if function.where_clause.len() == 0 {
                string_push(out, ' ');
            } else {
                write_indent(indent, out);
            }
            format_block(body, indent, out);
        },
        None => {},
    }
    assert(out@ =~= old(out)@ + function_body_text(*function, indent as nat));
}

/// Appends a function; `show_abi` writes its `extern "abi"` prefix.
fn format_function(function: &FunctionDecl, indent: usize, show_abi: bool, out: &mut String)
    requires
        function_fits(*function, indent as nat),
    ensures
        final(out)@ == old(out)@ + function_text(*function, indent as nat, show_abi),
{
    format_function_head(function, indent, show_abi, out);
    format_where_clause(&function.where_clause, indent, out);
    format_function_body(function, indent, out);
    assert(out@ =~= old(out)@ + function_text(*function, indent as nat, show_abi));
}

fn format_member(function: &FunctionDecl, indent: usize, out: &mut String)
    requires
        indent + 1 <= usize::MAX,
        function_fits(*function, indent as nat + 1),
    ensures
        final(out)@ == old(out)@ + member_text(*function, indent as nat),
{
    format_function(function, indent + 1, false, out);
    string_push(out, '\n');
    assert(out@ =~= old(out)@ + member_text(*function, indent as nat));
}

/// Appends the methods of a block one level deeper, each followed by a line
/// break; `separated` puts a blank line between them.
#[verifier::spinoff_prover]
fn format_members(functions: &Vec<FunctionDecl>, indent: usize, separated: bool, out: &mut String)
    requires
        members_fit(functions@, indent as nat),
    ensures
        final(out)@ == old(out)@ + join_spec(
            functions@.map_values(|function: FunctionDecl| member_text(function, indent as nat)),
            if separated {
                seq!['\n']
            } else {
                Seq::empty()
            },
        ),
{
    let ghost sep = if separated {
        seq!['\n']
    } else {
        Seq::<char>::empty()
    };
    let ghost parts = functions@.map_values(
        |function: FunctionDecl| member_text(function, indent as nat),
    );
    let mut idx: usize = 0;
    assert(old(out)@ + join_spec(parts.take(0), sep) =~= old(out)@);
    while idx < functions.len()
        invariant
            idx <= functions@.len(),
            members_fit(functions@, indent as nat),
            sep == (if separated {
                seq!['\n']
            } else {
                Seq::<char>::empty()
            }),
            parts == functions@.map_values(
                |function: FunctionDecl| member_text(function, indent as nat),
            ),
            out@ == old(out)@ + join_spec(parts.take(idx as int), sep),
        decreases functions@.len() - idx,
    {
        proof {
            lemma_join_take_step(parts, sep, idx as int);
            assert(function_fits(functions@[idx as int], indent as nat + 1));
        }
        if separated && idx > 0 {
            string_push(out, '\n');
        }
        format_member(&functions[idx], indent, out);
        assert(out@ =~= old(out)@ + join_spec(parts.take(idx + 1), sep));
        idx = idx + 1;
    }
    assert(parts.take(functions@.len() as int) =~= parts);
}

fn format_global(keyword: &str, global: &GlobalDecl, indent: usize, out: &mut String)
    requires
        indent + expr_depth(global.value) <= usize::MAX,
    ensures
        final(out)@ == old(out)@ + global_text(keyword@, *global, indent as nat),
{
    write_indent(indent, out);
    format_visibility(&global.visibility, out);
    out.append(keyword);
    string_push(out, ' ');
    format_ident(global.name.as_str(), out);
    out.append(": ");
    format_type(&global.ty, out);
    out.append(" = ");
    format_expr(&global.value, indent, out);
    assert(out@ =~= old(out)@ + global_text(keyword@, *global, indent as nat));
}

fn format_struct_head(decl: &StructDecl, indent: usize, out: &mut String)
    ensures
        final(out)@ == old(out)@ + struct_head_text(*decl, indent as nat),
{
    write_indent(indent, out);
    format_visibility(&decl.visibility, out);
    if decl.is_data {
        out.append("data ");
    }
    out.append("struct ");
    format_ident(decl.name.as_str(), out);
    format_generic_params(&decl.generics, out);
    out.append(" {\n");
    assert(out@ =~= old(out)@ + struct_head_text(*decl, indent as nat));
}

fn format_struct_field(field: &StructField, indent: usize, out: &mut String)
    requires
        match field.default {
            Some(value) => indent + 1 + expr_depth(value) <= usize::MAX,
            None => indent + 1 <= usize::MAX,
        },
    ensures
        final(out)@ == old(out)@ + struct_field_text(*field, indent as nat),
{
    write_indent(indent + 1, out);
    format_ident(field.name.as_str(), out);
    out.append(": ");
    format_type(&field.ty, out);
    match &field.default {
        Some(value) => {
            out.append(" = ");
            format_expr(value, indent + 1, out);
        },
        None => {},
    }
    out.append(",\n");
    assert(out@ =~= old(out)@ + struct_field_text(*field, indent as nat));
}

#[verifier::spinoff_prover]
fn format_struct(decl: &StructDecl, indent: usize, out: &mut String)
    requires
        item_fits(Item::Struct(*decl), indent as nat),
    ensures
        final(out)@ == old(out)@ + struct_text(*decl, indent as nat),
{
    format_struct_head(decl, indent, out);
    let ghost start = out@;
    let ghost parts = decl.fields@.map_values(
        |field: StructField| struct_field_text(field, indent as nat),
    );
    let mut idx: usize = 0;
    assert(start + join_spec(parts.take(0), Seq::empty()) =~= start);
    while idx < decl.fields.len()
        invariant
            idx <= decl.fields@.len(),
            item_fits(Item::Struct(*decl), indent as nat),
            parts == decl.fields@.map_values(
                |field: StructField| struct_field_text(field, indent as nat),
            ),
            out@ == start + join_spec(parts.take(idx as int), Seq::empty()),
        decreases decl.fields@.len() - idx,
    {
        proof {
            lemma_join_take_step(parts, Seq::empty(), idx as int);
            assert(match decl.fields@[idx as int].default {
                Some(value) => indent + 1 + expr_depth(value) <= usize::MAX,
                None => true,
            });
        }
        format_struct_field(&decl.fields[idx], indent, out);
        assert(out@ =~= start + join_spec(parts.take(idx + 1), Seq::empty()));
        idx = idx + 1;
    }
    assert(parts.take(decl.fields@.len() as int) =~= parts);
    write_indent(indent, out);
    string_push(out, '}');
    assert(out@ =~= old(out)@ + struct_text(*decl, indent as nat));
}

fn format_variant(variant: &EnumVariant, indent: usize, out: &mut String)
    requires
        indent + 2 <= usize::MAX,
    ensures
        final(out)@ == old(out)@ + variant_text(*variant, indent as nat),
{
    write_indent(indent + 1, out);
    format_ident(variant.name.as_str(), out);
    match &variant.fields {
        VariantFields::Unit => {},
        VariantFields::Tuple(types) => {
            string_push(out, '(');
            format_type_list(types, out);
            string_push(out, ')');
        },
        VariantFields::Struct(fields) => {
            out.append(" {\n");
            let ghost start = out@;
            let ghost parts = fields@.map_values(
                |field: VariantField| variant_field_text(field, indent as nat),
            );
            let mut idx: usize = 0;
            assert(start + join_spec(parts.take(0), Seq::empty()) =~= start);
            while idx < fields.len()
                invariant
                    idx <= fields@.len(),
                    indent + 2 <= usize::MAX,
                    parts == fields@.map_values(
                        |field: VariantField| variant_field_text(field, indent as nat),
                    ),
                    out@ == start + join_spec(parts.take(idx as int), Seq::empty()),
                decreases fields@.len() - idx,
            {
                proof {
                    lemma_join_take_step(parts, Seq::empty(), idx as int);
                }
                write_indent(indent + 2, out);
                format_ident(fields[idx].name.as_str(), out);
                out.append(": ");
                format_type(&fields[idx].ty, out);
                out.append(",\n");
                assert(out@ =~= start + join_spec(parts.take(idx + 1), Seq::empty()));
                idx = idx + 1;
            }
            assert(parts.take(fields@.len() as int) =~= parts);
            write_indent(indent + 1, out);
            string_push(out, '}');
        },
    }
    out.append(",\n");
    assert(out@ =~= old(out)@ + variant_text(*variant, indent as nat));
}

fn format_enum_head(decl: &EnumDecl, indent: usize, out: &mut String)
    ensures
        final(out)@ == old(out)@ + enum_head_text(*decl, indent as nat),
{
    write_indent(indent, out);
    format_visibility(&decl.visibility, out);
    out.append("enum ");
    format_ident(decl.name.as_str(), out);
    format_generic_params(&decl.generics, out);
    out.append(" {\n");
    assert(out@ =~= old(out)@ + enum_head_text(*decl, indent as nat));
}

#[verifier::spinoff_prover]
fn format_enum(decl: &EnumDecl, indent: usize, out: &mut String)
    requires
        indent + 2 <= usize::MAX,
    ensures
        final(out)@ == old(out)@ + enum_text(*decl, indent as nat),
{
    format_enum_head(decl, indent, out);
    let ghost start = out@;
    let ghost parts = decl.variants@.map_values(
        |variant: EnumVariant| variant_text(variant, indent as nat),
    );
    let mut idx: usize = 0;
    assert(start + join_spec(parts.take(0), Seq::empty()) =~= start);
    while idx < decl.variants.len()
        invariant
            idx <= decl.variants@.len(),
            indent + 2 <= usize::MAX,
            parts == decl.variants@.map_values(
                |variant: EnumVariant| variant_text(variant, indent as nat),
            ),
            out@ == start + join_spec(parts.take(idx as int), Seq::empty()),
        decreases decl.variants@.len() - idx,
    {
        proof {
            lemma_join_take_step(parts, Seq::empty(), idx as int);
        }
        format_variant(&decl.variants[idx], indent, out);
        assert(out@ =~= start + join_spec(parts.take(idx + 1), Seq::empty()));
        idx = idx + 1;
    }
    assert(parts.take(decl.variants@.len() as int) =~= parts);
    write_indent(indent, out);
    string_push(out, '}');
    assert(out@ =~= old(out)@ + enum_text(*decl, indent as nat));
}

fn format_trait_head(decl: &TraitDecl, indent: usize, out: &mut String)
    ensures
        final(out)@ == old(out)@ + trait_head_text(*decl, indent as nat),
{
    write_indent(indent, out);
    format_visibility(&decl.visibility, out);
    out.append("trait ");
    format_ident(decl.name.as_str(), out);
    format_generic_params(&decl.generics, out);
    out.append(" {\n");
    assert(out@ =~= old(out)@ + trait_head_text(*decl, indent as nat));
}

#[verifier::spinoff_prover]
fn format_trait(decl: &TraitDecl, indent: usize, out: &mut String)
    requires
        members_fit(decl.methods@, indent as nat),
    ensures
        final(out)@ == old(out)@ + trait_text(*decl, indent as nat),
{
    format_trait_head(decl, indent, out);
    format_members(&decl.methods, indent, false, out);
    write_indent(indent, out);
    string_push(out, '}');
    assert(out@ =~= old(out)@ + trait_text(*decl, indent as nat));
}

fn format_impl_head(block: &ImplBlock, indent: usize, out: &mut String)
    ensures
        final(out)@ == old(out)@ + impl_head_text(*block, indent as nat),
{
    write_indent(indent, out);
    out.append("impl");
    format_generic_params(&block.generics, out);
    string_push(out, ' ');
    match &block.trait_ty {
        Some(trait_ty) => {
            format_type(trait_ty, out);
            out.append(" for ");
        },
        None => {},
    }
    format_type(&block.target, out);
    assert(out@ =~= old(out)@ + impl_head_text(*block, indent as nat));
}

fn format_impl_open(block: &ImplBlock, indent: usize, out: &mut String)
    ensures
        final(out)@ == old(out)@ + impl_open_text(*block, indent as nat),
{
    if block.where_clause.len() == 0 {
        out.append(" {\n");
    } else {
        write_indent(indent, out);
        out.append("{\n");
    }
    assert(out@ =~= old(out)@ + impl_open_text(*block, indent as nat));
}

#[verifier::spinoff_prover]
fn format_impl(block: &ImplBlock, indent: usize, out: &mut String)
    requires
        members_fit(block.methods@, indent as nat),
    ensures
        final(out)@ == old(out)@ + impl_text(*block, indent as nat),
{
    format_impl_head(block, indent, out);
    format_where_clause(&block.where_clause, indent, out);
    format_impl_open(block, indent, out);
    format_members(&block.methods, indent, true, out);
    write_indent(indent, out);
    string_push(out, '}');
    assert(out@ =~= old(out)@ + impl_text(*block, indent as nat));
}

fn format_extend(block: &ExtendBlock, indent: usize, out: &mut String)
    requires
        members_fit(block.methods@, indent as nat),
    ensures
        final(out)@ == old(out)@ + extend_text(*block, indent as nat),
{
    write_indent(indent, out);
    out.append("extend ");
    format_type(&block.target, out);
    out.append(" {\n");
    format_members(&block.methods, indent, true, out);
    write_indent(indent, out);
    string_push(out, '}');
    assert(out@ =~= old(out)@ + extend_text(*block, indent as nat));
}

fn format_type_alias(decl: &TypeAliasDecl, indent: usize, out: &mut String)
    ensures
        final(out)@ == old(out)@ + type_alias_text(*decl, indent as nat),
{
    write_indent(indent, out);
    format_visibility(&decl.visibility, out);
    if decl.is_opaque {
        out.append("opaque ");
    }
    out.append("type ");
    format_ident(decl.name.as_str(), out);
    format_generic_params(&decl.generics, out);
    out.append(" = ");
    format_type(&decl.ty, out);
    assert(out@ =~= old(out)@ + type_alias_text(*decl, indent as nat));
}

fn format_extern_block_head(block: &ExternBlock, indent: usize, out: &mut String)
    ensures
        final(out)@ == old(out)@ + extern_block_head_text(*block, indent as nat),
{
    write_indent(indent, out);
    format_visibility(&block.visibility, out);
    out.append("extern ");
    string_push(out, '"');
    out.append(block.abi.as_str());
    string_push(out, '"');
    out.append(" {\n");
    assert(out@ =~= old(out)@ + extern_block_head_text(*block, indent as nat));
}

#[verifier::spinoff_prover]
fn format_extern_block(block: &ExternBlock, indent: usize, out: &mut String)
    requires
        members_fit(block.functions@, indent as nat),
    ensures
        final(out)@ == old(out)@ + extern_block_text(*block, indent as nat),
{
    format_extern_block_head(block, indent, out);
    format_members(&block.functions, indent, false, out);
    write_indent(indent, out);
    string_push(out, '}');
    assert(out@ =~= old(out)@ + extern_block_text(*block, indent as nat));
}

/// Appends an item whose first line is indented `indent` levels.
pub fn format_item(item: &Item, indent: usize, out: &mut String)
    requires
        item_fits(*item, indent as nat),
    ensures
        final(out)@ == old(out)@ + item_text(*item, indent as nat),
{
    match item {
        Item::Function(function) => format_function(function, indent, true, out),
        Item::Const(global) => format_global("const", global, indent, out),
        Item::Static(global) => format_global("static", global, indent, out),
        Item::Struct(decl) => format_struct(decl, indent, out),
        Item::Enum(decl) => format_enum(decl, indent, out),
        Item::Trait(decl) => format_trait(decl, indent, out),
        Item::Impl(block) => format_impl(block, indent, out),
        Item::Extend(block) => format_extend(block, indent, out),
        Item::TypeAlias(decl) => format_type_alias(decl, indent, out),
        Item::ExternBlock(block) => format_extern_block(block, indent, out),
    }
}

fn format_alias(alias: &Option<String>, out: &mut String)
    ensures
        final(out)@ == old(out)@ + alias_text(*alias),
{
    match alias {
        Some(alias) => {
            out.append(" as ");
            format_ident(alias.as_str(), out);
        },
        None => {},
    }
    assert(out@ =~= old(out)@ + alias_text(*alias));
}

fn format_use(decl: &UseDecl, out: &mut String)
    ensures
        final(out)@ == old(out)@ + use_text(*decl),
{
    out.append("use ");
    format_path(&decl.prefix, out);
    match &decl.group {
        Some(items) => {
            out.append(".{");
            let ghost start = out@;
            let ghost parts = items@.map_values(|item: UseItem| use_item_text(item));
            let mut idx: usize = 0;
            assert(start + join_spec(parts.take(0), ", "@) =~= start);
            while idx < items.len()
                invariant
                    idx <= items@.len(),
                    parts == items@.map_values(|item: UseItem| use_item_text(item)),
                    out@ == start + join_spec(parts.take(idx as int), ", "@),
                decreases items@.len() - idx,
            {
                proof {
                    lemma_join_take_step(parts, ", "@, idx as int);
                }
                if idx > 0 {
                    out.append(", ");
                }
                format_ident(items[idx].name.as_str(), out);
                format_alias(&items[idx].alias, out);
                assert(out@ =~= start + join_spec(parts.take(idx + 1), ", "@));
                idx = idx + 1;
            }
            assert(parts.take(items@.len() as int) =~= parts);
            string_push(out, '}');
        },
        None => {},
    }
    format_alias(&decl.alias, out);
    string_push(out, '\n');
    assert(out@ =~= old(out)@ + use_text(*decl));
}

fn format_package_section(module: &Module, out: &mut String)
    ensures
        final(out)@ == old(out)@ + package_section_text(*module),
{
    match &module.package {
        Some(package) => {
            out.append("package ");
            format_path(&package.path, out);
            string_push(out, '\n');
        },
        None => {},
    }
    assert(out@ =~= old(out)@ + package_section_text(*module));
}

fn format_uses_section(module: &Module, out: &mut String)
    ensures
        final(out)@ == old(out)@ + uses_section_text(*module),
{
    if module.uses.len() == 0 {
        assert(out@ =~= old(out)@ + uses_section_text(*module));
        return;
    }
    if module.package.is_some() {
        string_push(out, '\n');
    }
    let ghost start = out@;
    let ghost parts = module.uses@.map_values(|decl: UseDecl| use_text(decl));
    let mut idx: usize = 0;
    assert(start + join_spec(parts.take(0), Seq::empty()) =~= start);
    while idx < module.uses.len()
        invariant
            idx <= module.uses@.len(),
            parts == module.uses@.map_values(|decl: UseDecl| use_text(decl)),
            out@ == start + join_spec(parts.take(idx as int), Seq::empty()),
        decreases module.uses@.len() - idx,
    {
        proof {
            lemma_join_take_step(parts, Seq::empty(), idx as int);
        }
        format_use(&module.uses[idx], out);
        assert(out@ =~= start + join_spec(parts.take(idx + 1), Seq::empty()));
        idx = idx + 1;
    }
    assert(parts.take(module.uses@.len() as int) =~= parts);
    assert(out@ =~= old(out)@ + uses_section_text(*module));
}

fn format_items_section(module: &Module, out: &mut String)
    requires
        module_fits(*module),
    ensures
        final(out)@ == old(out)@ + items_section_text(*module),
{
    if module.items.len() == 0 {
        assert(out@ =~= old(out)@ + items_section_text(*module));
        return;
    }
    if module.package.is_some() || module.uses.len() > 0 {
        string_push(out, '\n');
    }
    let ghost start = out@;
    let ghost parts = module.items@.map_values(|item: Item| item_text(item, 0));
    let mut idx: usize = 0;
    assert(start + join_spec(parts.take(0), "\n\n"@) =~= start);
    while idx < module.items.len()
        invariant
            idx <= module.items@.len(),
            module_fits(*module),
            parts == module.items@.map_values(|item: Item| item_text(item, 0)),
            out@ == start + join_spec(parts.take(idx as int), "\n\n"@),
        decreases module.items@.len() - idx,
    {
        proof {
            lemma_join_take_step(parts, "\n\n"@, idx as int);
            assert(item_fits(module.items@[idx as int], 0));
        }
        if idx > 0 {
            out.append("\n\n");
        }
        format_item(&module.items[idx], 0, out);
        assert(out@ =~= start + join_spec(parts.take(idx + 1), "\n\n"@));
        idx = idx + 1;
    }
    assert(parts.take(module.items@.len() as int) =~= parts);
    assert(out@ =~= old(out)@ + items_section_text(*module));
}

/// Formats a module: the package line, the `use` lines and the items, the
/// sections and the items separated by blank lines, ending with a line
/// break.
pub fn format_module(module: &Module) -> (text: String)
    requires
        module_fits(*module),
    ensures
        text@ == module_text(*module),
        text@.len() > 0 && text@.last() == '\n',
{
    let mut out = String::new();
    format_package_section(module, &mut out);
    format_uses_section(module, &mut out);
    format_items_section(module, &mut out);
    assert(out@ =~= module_body_text(*module));
    let ghost body = out@;
    let ends_with_line_break = ends_with(out.as_str(), "\n");
    proof {
        reveal_strlit("\n");
        assert("\n"@ =~= seq!['\n']);
        if body.len() > 0 {
            let last = body.last();
            assert(body.skip(body.len() - 1) =~= seq![last]);
            if seq![last] == seq!['\n'] {
                assert(seq![last][0] == seq!['\n'][0]);
            }
        }
        assert(ends_with_line_break == (body.len() > 0 && body.last() == '\n'));
    }
    if !ends_with_line_break {
        string_push(&mut out, '\n');
        assert(out@ =~= body + seq!['\n']);
    }
    out
}

} // verus!
