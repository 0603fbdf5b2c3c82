use vstd::prelude::*;

use crate::ast::{BinaryOp, Block, CallArg, ClosureParam, Expr, MatchArm, Stmt, StructLiteralField, UnaryOp};
use crate::fmt::{
    format_ident, format_path, format_pattern, format_type, formatted_ident, indent_text,
    path_text, pattern_text, type_text, write_indent,
};
use crate::lexer::{char_span, eof_token, ident_end, keyword_kind, lex_from, lex_spec, step, TokenKind};
use crate::span::Span;
use crate::strings::{join_spec, lemma_join_take_step};
use crate::text::{str_equal, string_push};

verus! {

// ---------------------------------------------------------------------------
// What an expression, a statement and a block look like once formatted.
// ---------------------------------------------------------------------------

pub open spec fn binary_op_text(op: BinaryOp) -> Seq<char> {
    match op {
        BinaryOp::Assign => "="@,
        BinaryOp::OrOr => "||"@,
        BinaryOp::AndAnd => "&&"@,
        BinaryOp::Add => "+"@,
        BinaryOp::Sub => "-"@,
        BinaryOp::Mul => "*"@,
        BinaryOp::Div => "/"@,
        BinaryOp::Rem => "%"@,
        BinaryOp::EqEq => "=="@,
        BinaryOp::BangEq => "!="@,
        BinaryOp::Gt => ">"@,
        BinaryOp::GtEq => ">="@,
        BinaryOp::Lt => "<"@,
        BinaryOp::LtEq => "<="@,
    }
}

/// A prefix operator; `await` and `spawn` are followed by a space.
pub open spec fn unary_op_text(op: UnaryOp) -> Seq<char> {
    match op {
        UnaryOp::Not => "!"@,
        UnaryOp::Neg => "-"@,
        UnaryOp::Await => "await "@,
        UnaryOp::Spawn => "spawn "@,
    }
}

/// Closure parameters, written as they are (not escaped), joined by `, `.
pub open spec fn closure_params_text(params: Seq<ClosureParam>) -> Seq<char> {
    join_spec(params.map_values(|param: ClosureParam| param.name@), ", "@)
}

/// How an expression is written when its enclosing line is indented
/// `indent` levels (nested blocks and `match` arms go deeper).
pub open spec fn expr_text(e: Expr, indent: nat) -> Seq<char>
    decreases e,
{
    match e {
        Expr::Name(name) => if name@ == "self"@ {
            "self"@
        } else {
            formatted_ident(name@)
        },
        Expr::Integer(value) => value@,
        Expr::String { value, is_format } => (if is_format {
            seq!['f']
        } else {
            Seq::empty()
        }) + seq!['"'] + value@ + seq!['"'],
        Expr::Bool(value) => if value {
            "true"@
        } else {
            "false"@
        },
        Expr::NoneLiteral => "none"@,
        Expr::Tuple(items) => seq!['('] + exprs_text(items@, indent) + (if items.len() == 1 {
            seq![',']
        } else {
            Seq::empty()
        }) + seq![')'],
        Expr::Array(items) => seq!['['] + exprs_text(items@, indent) + seq![']'],
        Expr::Block(block) => block_text(block, indent),
        Expr::Unsafe(block) => "unsafe "@ + block_text(block, indent),
        Expr::If { condition, then_branch, else_branch } => "if "@ + expr_text(*condition, indent)
            + seq![' '] + block_text(then_branch, indent) + match else_branch {
            Some(other) => " else "@ + expr_text(*other, indent),
            None => Seq::empty(),
        },
        Expr::Match { value, arms } => "match "@ + expr_text(*value, indent) + " {\n"@ + match_arms_text(
            arms@,
            indent,
        ) + indent_text(indent) + seq!['}'],
        Expr::Closure { is_move, params, body } => (if is_move {
            "move "@
        } else {
            Seq::empty()
        }) + seq!['('] + closure_params_text(params@) + ") => "@ + expr_text(*body, indent),
        Expr::Call { callee, args } => expr_text(*callee, indent) + seq!['('] + call_args_text(
            args@,
            indent,
        ) + seq![')'],
        Expr::Member { object, field } => expr_text(*object, indent) + seq!['.'] + formatted_ident(
            field@,
        ),
        Expr::Bracket { target, items } => expr_text(*target, indent) + seq!['['] + exprs_text(
            items@,
            indent,
        ) + seq![']'],
        Expr::StructLiteral { path, fields } => path_text(path) + " { "@
            + struct_literal_fields_text(fields@, indent) + " }"@,
        Expr::Binary { left, op, right } => expr_text(*left, indent) + seq![' '] + binary_op_text(op)
            + seq![' '] + expr_text(*right, indent),
        Expr::Unary { op, expr } => unary_op_text(op) + expr_text(*expr, indent),
        Expr::Question(inner) => expr_text(*inner, indent) + seq!['?'],
    }
}

/// Expressions joined by `, `.
pub open spec fn exprs_text(items: Seq<Expr>, indent: nat) -> Seq<char>
    decreases items,
{
    if items.len() == 0 {
        Seq::empty()
    } else {
        exprs_text(items.drop_last(), indent) + (if items.len() > 1 {
            ", "@
        } else {
            Seq::empty()
        }) + expr_text(items.last(), indent)
    }
}

/// Call arguments joined by `, `; a named one is written `name: value`.
pub open spec fn call_args_text(args: Seq<CallArg>, indent: nat) -> Seq<char>
    decreases args,
{
    if args.len() == 0 {
        Seq::empty()
    } else {
        call_args_text(args.drop_last(), indent) + (if args.len() > 1 {
            ", "@
        } else {
            Seq::empty()
        }) + match args.last() {
            CallArg::Positional(value) => expr_text(value, indent),
            CallArg::Named { name, value } => formatted_ident(name@) + ": "@ + expr_text(value, indent),
        }
    }
}

/// A field of a struct literal: its name, then `: value` when it has one.
pub open spec fn struct_literal_field_text(field: StructLiteralField, indent: nat) -> Seq<char>
    decreases field,
{
    formatted_ident(field.name@) + match field.value {
        Some(value) => ": "@ + expr_text(value, indent),
        None => Seq::empty(),
    }
}

/// Struct literal fields joined by `, `.
pub open spec fn struct_literal_fields_text(fields: Seq<StructLiteralField>, indent: nat) -> Seq<
    char,
>
    decreases fields,
{
    if fields.len() == 0 {
        Seq::empty()
    } else {
        struct_literal_fields_text(fields.drop_last(), indent) + (if fields.len() > 1 {
            ", "@
        } else {
            Seq::empty()
        }) + struct_literal_field_text(fields.last(), indent)
    }
}

/// A `match` arm on a line of its own, one level deeper than the `match`.
pub open spec fn match_arm_text(arm: MatchArm, indent: nat) -> Seq<char>
    decreases arm,
{
    indent_text(indent + 1) + pattern_text(arm.pattern) + match arm.guard {
        Some(guard) => " if "@ + expr_text(guard, indent + 1),
        None => Seq::empty(),
    } + " => "@ + expr_text(arm.body, indent + 1) + ",\n"@
}

pub open spec fn match_arms_text(arms: Seq<MatchArm>, indent: nat) -> Seq<char>
    decreases arms,
{
    if arms.len() == 0 {
        Seq::empty()
    } else {
        match_arms_text(arms.drop_last(), indent) + match_arm_text(arms.last(), indent)
    }
}

/// A block: `{`, each statement and the tail on lines of their own one level
/// deeper, then `}` at the block's own level.
pub open spec fn block_text(block: Block, indent: nat) -> Seq<char>
    decreases block,
{
    "{\n"@ + stmts_text(block.statements@, indent + 1) + match block.tail {
        Some(tail) => indent_text(indent + 1) + expr_text(*tail, indent + 1) + seq!['\n'],
        None => Seq::empty(),
    } + indent_text(indent) + seq!['}']
}

/// Statements, each followed by a line break.
pub open spec fn stmts_text(stmts: Seq<Stmt>, indent: nat) -> Seq<char>
    decreases stmts,
{
    if stmts.len() == 0 {
        Seq::empty()
    } else {
        stmts_text(stmts.drop_last(), indent) + stmt_text(stmts.last(), indent) + seq!['\n']
    }
}

/// A statement, starting with its indentation.
pub open spec fn stmt_text(stmt: Stmt, indent: nat) -> Seq<char>
    decreases stmt,
{
    indent_text(indent) + match stmt {
        Stmt::Let { mutable, pattern, ty, value } => (if mutable {
            "var "@
        } else {
            "let "@
        }) + pattern_text(pattern) + match ty {
            Some(ty) => ": "@ + type_text(ty),
            None => Seq::empty(),
        } + " = "@ + expr_text(value, indent),
        Stmt::Return(value) => "return"@ + match value {
            Some(value) => seq![' '] + expr_text(value, indent),
            None => Seq::empty(),
        },
        Stmt::Defer(value) => "defer "@ + expr_text(value, indent),
        Stmt::Break => "break"@,
        Stmt::Continue => "continue"@,
        Stmt::While { condition, body } => "while "@ + expr_text(condition, indent) + seq![' ']
            + block_text(body, indent),
        Stmt::Loop { body } => "loop "@ + block_text(body, indent),
        Stmt::For { is_await, pattern, iterable, body } => "for "@ + (if is_await {
            "await "@
        } else {
            Seq::empty()
        }) + pattern_text(pattern) + " in "@ + expr_text(iterable, indent) + seq![' '] + block_text(
            body,
            indent,
        ),
        Stmt::Expr { expr, terminated } => expr_text(expr, indent) + if terminated {
            seq![';']
        } else {
            Seq::empty()
        },
    }
}

// ---------------------------------------------------------------------------
// How many levels deeper than its own line an expression indents.
// ---------------------------------------------------------------------------

pub open spec fn max_nat(a: nat, b: nat) -> nat {
    if a < b {
        b
    } else {
        a
    }
}

/// The number of indentation levels that formatting `e` adds to its line:
/// one per nested block and per `match`.
pub open spec fn expr_depth(e: Expr) -> nat
    decreases e,
{
    match e {
        Expr::Tuple(items) => exprs_depth(items@),
        Expr::Array(items) => exprs_depth(items@),
        Expr::Block(block) => block_depth(block),
        Expr::Unsafe(block) => block_depth(block),
        Expr::If { condition, then_branch, else_branch } => max_nat(
            max_nat(expr_depth(*condition), block_depth(then_branch)),
            match else_branch {
                Some(other) => expr_depth(*other),
                None => 0,
            },
        ),
        Expr::Match { value, arms } => max_nat(expr_depth(*value), 1 + match_arms_depth(arms@)),
        Expr::Closure { body, .. } => expr_depth(*body),
        Expr::Call { callee, args } => max_nat(expr_depth(*callee), call_args_depth(args@)),
        Expr::Member { object, .. } => expr_depth(*object),
        Expr::Bracket { target, items } => max_nat(expr_depth(*target), exprs_depth(items@)),
        Expr::StructLiteral { fields, .. } => struct_literal_fields_depth(fields@),
        Expr::Binary { left, right, .. } => max_nat(expr_depth(*left), expr_depth(*right)),
        Expr::Unary { expr, .. } => expr_depth(*expr),
        Expr::Question(inner) => expr_depth(*inner),
        _ => 0,
    }
}

pub open spec fn exprs_depth(items: Seq<Expr>) -> nat
    decreases items,
{
    if items.len() == 0 {
        0
    } else {
        max_nat(exprs_depth(items.drop_last()), expr_depth(items.last()))
    }
}

pub open spec fn call_args_depth(args: Seq<CallArg>) -> nat
    decreases args,
{
    if args.len() == 0 {
        0
    } else {
        max_nat(
            call_args_depth(args.drop_last()),
            match args.last() {
                CallArg::Positional(value) => expr_depth(value),
                CallArg::Named { value, .. } => expr_depth(value),
            },
        )
    }
}

pub open spec fn struct_literal_field_depth(field: StructLiteralField) -> nat
    decreases field,
{
    match field.value {
        Some(value) => expr_depth(value),
        None => 0,
    }
}

pub open spec fn struct_literal_fields_depth(fields: Seq<StructLiteralField>) -> nat
    decreases fields,
{
    if fields.len() == 0 {
        0
    } else {
        max_nat(
            struct_literal_fields_depth(fields.drop_last()),
            struct_literal_field_depth(fields.last()),
        )
    }
}

pub open spec fn match_arm_depth(arm: MatchArm) -> nat
    decreases arm,
{
    max_nat(
        match arm.guard {
            Some(guard) => expr_depth(guard),
            None => 0,
        },
        expr_depth(arm.body),
    )
}

pub open spec fn match_arms_depth(arms: Seq<MatchArm>) -> nat
    decreases arms,
{
    if arms.len() == 0 {
        0
    } else {
        max_nat(match_arms_depth(arms.drop_last()), match_arm_depth(arms.last()))
    }
}

pub open spec fn block_depth(block: Block) -> nat
    decreases block,
{
    1 + max_nat(
        stmts_depth(block.statements@),
        match block.tail {
            Some(tail) => expr_depth(*tail),
            None => 0,
        },
    )
}

pub open spec fn stmts_depth(stmts: Seq<Stmt>) -> nat
    decreases stmts,
{
    if stmts.len() == 0 {
        0
    } else {
        max_nat(stmts_depth(stmts.drop_last()), stmt_depth(stmts.last()))
    }
}

pub open spec fn stmt_depth(stmt: Stmt) -> nat
    decreases stmt,
{
    match stmt {
        Stmt::Let { value, .. } => expr_depth(value),
        Stmt::Return(value) => match value {
            Some(value) => expr_depth(value),
            None => 0,
        },
        Stmt::Defer(value) => expr_depth(value),
        Stmt::While { condition, body } => max_nat(expr_depth(condition), block_depth(body)),
        Stmt::Loop { body } => block_depth(body),
        Stmt::For { iterable, body, .. } => max_nat(expr_depth(iterable), block_depth(body)),
        Stmt::Expr { expr, .. } => expr_depth(expr),
        _ => 0,
    }
}

proof fn lemma_exprs_depth(items: Seq<Expr>, i: int)
    requires
        0 <= i < items.len(),
    ensures
        expr_depth(items[i]) <= exprs_depth(items),
    decreases items.len(),
{
    if i < items.len() - 1 {
        lemma_exprs_depth(items.drop_last(), i);
    }
}

proof fn lemma_call_args_depth(args: Seq<CallArg>, i: int)
    requires
        0 <= i < args.len(),
    ensures
        match args[i] {
            CallArg::Positional(value) => expr_depth(value),
            CallArg::Named { value, .. } => expr_depth(value),
        } <= call_args_depth(args),
    decreases args.len(),
{
    if i < args.len() - 1 {
        lemma_call_args_depth(args.drop_last(), i);
    }
}

proof fn lemma_struct_literal_fields_depth(fields: Seq<StructLiteralField>, i: int)
    requires
        0 <= i < fields.len(),
    ensures
        struct_literal_field_depth(fields[i]) <= struct_literal_fields_depth(fields),
    decreases fields.len(),
{
    if i < fields.len() - 1 {
        lemma_struct_literal_fields_depth(fields.drop_last(), i);
    }
}

proof fn lemma_match_arms_depth(arms: Seq<MatchArm>, i: int)
    requires
        0 <= i < arms.len(),
    ensures
        match_arm_depth(arms[i]) <= match_arms_depth(arms),
    decreases arms.len(),
{
    if i < arms.len() - 1 {
        lemma_match_arms_depth(arms.drop_last(), i);
    }
}

proof fn lemma_stmts_depth(stmts: Seq<Stmt>, i: int)
    requires
        0 <= i < stmts.len(),
    ensures
        stmt_depth(stmts[i]) <= stmts_depth(stmts),
    decreases stmts.len(),
{
    if i < stmts.len() - 1 {
        lemma_stmts_depth(stmts.drop_last(), i);
    }
}

// ---------------------------------------------------------------------------
// The formatter.
// ---------------------------------------------------------------------------

fn binary_op_str(op: BinaryOp) -> (text: &'static str)
    ensures
        text@ == binary_op_text(op),
{
    match op {
        BinaryOp::Assign => "=",
        BinaryOp::OrOr => "||",
        BinaryOp::AndAnd => "&&",
        BinaryOp::Add => "+",
        BinaryOp::Sub => "-",
        BinaryOp::Mul => "*",
        BinaryOp::Div => "/",
        BinaryOp::Rem => "%",
        BinaryOp::EqEq => "==",
        BinaryOp::BangEq => "!=",
        BinaryOp::Gt => ">",
        BinaryOp::GtEq => ">=",
        BinaryOp::Lt => "<",
        BinaryOp::LtEq => "<=",
    }
}

fn unary_op_str(op: UnaryOp) -> (text: &'static str)
    ensures
        text@ == unary_op_text(op),
{
    match op {
        UnaryOp::Not => "!",
        UnaryOp::Neg => "-",
        UnaryOp::Await => "await ",
        UnaryOp::Spawn => "spawn ",
    }
}

fn format_closure_params(params: &Vec<ClosureParam>, out: &mut String)
    ensures
        final(out)@ == old(out)@ + closure_params_text(params@),
{
    let ghost parts = params@.map_values(|param: ClosureParam| param.name@);
    let mut idx: usize = 0;
    assert(old(out)@ + join_spec(parts.take(0), ", "@) =~= old(out)@);
    while idx < params.len()
        invariant
            idx <= params@.len(),
            parts == params@.map_values(|param: ClosureParam| param.name@),
            out@ == old(out)@ + join_spec(parts.take(idx as int), ", "@),
        decreases params@.len() - idx,
    {
        proof {
            lemma_join_take_step(parts, ", "@, idx as int);
        }
        if idx > 0 {
            out.append(", ");
        }
        out.append(params[idx].name.as_str());
        assert(out@ =~= old(out)@ + join_spec(parts.take(idx + 1), ", "@));
        idx = idx + 1;
    }
    assert(parts.take(params@.len() as int) =~= parts);
}

/// Appends an expression whose line is indented `indent` levels.
#[verifier::spinoff_prover]
#[verifier::rlimit(40)]
pub fn format_expr(e: &Expr, indent: usize, out: &mut String)
    requires
        indent + expr_depth(*e) <= usize::MAX,
    ensures
        final(out)@ == old(out)@ + expr_text(*e, indent as nat),
    decreases e,
{
    match e {
        Expr::Name(name) => {
            if str_equal(name.as_str(), "self") {
                out.append("self");
            } else {
                format_ident(name.as_str(), out);
            }
        },
        Expr::Integer(value) => out.append(value.as_str()),
        Expr::String { value, is_format } => {
            if *is_format {
                string_push(out, 'f');
            }
            string_push(out, '"');
            out.append(value.as_str());
            string_push(out, '"');
        },
        Expr::Bool(value) => {
            if *value {
                out.append("true");
            } else {
                out.append("false");
            }
        },
        Expr::NoneLiteral => out.append("none"),
        Expr::Tuple(items) => {
            string_push(out, '(');
            format_expr_list(items, indent, out);
            if items.len() == 1 {
                string_push(out, ',');
            }
            string_push(out, ')');
        },
        Expr::Array(items) => {
            string_push(out, '[');
            format_expr_list(items, indent, out);
            string_push(out, ']');
        },
        Expr::Block(block) => format_block(block, indent, out),
        Expr::Unsafe(block) => {
            out.append("unsafe ");
            format_block(block, indent, out);
        },
        Expr::If { condition, then_branch, else_branch } => {
            out.append("if ");
            format_expr(condition, indent, out);
            string_push(out, ' ');
            format_block(then_branch, indent, out);
            match else_branch {
                Some(other) => {
                    out.append(" else ");
                    format_expr(other, indent, out);
                },
                None => {},
            }
        },
        Expr::Match { value, arms } => {
            out.append("match ");
            format_expr(value, indent, out);
            out.append(" {\n");
            format_match_arms(arms, indent, out);
            write_indent(indent, out);
            string_push(out, '}');
        },
        Expr::Closure { is_move, params, body } => {
            if *is_move {
                out.append("move ");
            }
            string_push(out, '(');
            format_closure_params(params, out);
            out.append(") => ");
            format_expr(body, indent, out);
        },
        Expr::Call { callee, args } => {
            format_expr(callee, indent, out);
            string_push(out, '(');
            format_call_args(args, indent, out);
            string_push(out, ')');
        },
        Expr::Member { object, field } => {
            format_expr(object, indent, out);
            string_push(out, '.');
            format_ident(field.as_str(), out);
        },
        Expr::Bracket { target, items } => {
            format_expr(target, indent, out);
            string_push(out, '[');
            format_expr_list(items, indent, out);
            string_push(out, ']');
        },
        Expr::StructLiteral { path, fields } => {
            format_path(path, out);
            out.append(" { ");
            format_struct_literal_fields(fields, indent, out);
            out.append(" }");
        },
        Expr::Binary { left, op, right } => {
            format_expr(left, indent, out);
            string_push(out, ' ');
            out.append(binary_op_str(*op));
            string_push(out, ' ');
            format_expr(right, indent, out);
        },
        Expr::Unary { op, expr } => {
            out.append(unary_op_str(*op));
            format_expr(expr, indent, out);
        },
        Expr::Question(inner) => {
            format_expr(inner, indent, out);
            string_push(out, '?');
        },
    }
    assert(out@ =~= old(out)@ + expr_text(*e, indent as nat));
}

/// Appends expressions joined by `, `.
fn format_expr_list(items: &Vec<Expr>, indent: usize, out: &mut String)
    requires
        indent + exprs_depth(items@) <= usize::MAX,
    ensures
        final(out)@ == old(out)@ + exprs_text(items@, indent as nat),
    decreases items,
{
    let mut idx: usize = 0;
    assert(items@.take(0) =~= Seq::<Expr>::empty());
    assert(old(out)@ + exprs_text(items@.take(0), indent as nat) =~= old(out)@);
    while idx < items.len()
        invariant
            idx <= items@.len(),
            indent + exprs_depth(items@) <= usize::MAX,
            out@ == old(out)@ + exprs_text(items@.take(idx as int), indent as nat),
        decreases items@.len() - idx,
    {
        proof {
            lemma_exprs_depth(items@, idx as int);
        }
        assert(items@.take(idx + 1).drop_last() =~= items@.take(idx as int));
        if idx > 0 {
            out.append(", ");
        }
        format_expr(&items[idx], indent, out);
        assert(out@ =~= old(out)@ + exprs_text(items@.take(idx + 1), indent as nat));
        idx = idx + 1;
    }
    assert(items@.take(items@.len() as int) =~= items@);
}

/// Appends call arguments joined by `, `.
fn format_call_args(args: &Vec<CallArg>, indent: usize, out: &mut String)
    requires
        indent + call_args_depth(args@) <= usize::MAX,
    ensures
        final(out)@ == old(out)@ + call_args_text(args@, indent as nat),
    decreases args,
{
    let mut idx: usize = 0;
    assert(args@.take(0) =~= Seq::<CallArg>::empty());
    assert(old(out)@ + call_args_text(args@.take(0), indent as nat) =~= old(out)@);
    while idx < args.len()
        invariant
            idx <= args@.len(),
            indent + call_args_depth(args@) <= usize::MAX,
            out@ == old(out)@ + call_args_text(args@.take(idx as int), indent as nat),
        decreases args@.len() - idx,
    {
        proof {
            lemma_call_args_depth(args@, idx as int);
        }
        assert(args@.take(idx + 1).drop_last() =~= args@.take(idx as int));
        if idx > 0 {
            out.append(", ");
        }
        match &args[idx] {
            CallArg::Positional(value) => format_expr(value, indent, out),
            CallArg::Named { name, value } => {
                format_ident(name.as_str(), out);
                out.append(": ");
                format_expr(value, indent, out);
            },
        }
        assert(out@ =~= old(out)@ + call_args_text(args@.take(idx + 1), indent as nat));
        idx = idx + 1;
    }
    assert(args@.take(args@.len() as int) =~= args@);
}

fn format_struct_literal_field(field: &StructLiteralField, indent: usize, out: &mut String)
    requires
        indent + struct_literal_field_depth(*field) <= usize::MAX,
    ensures
        final(out)@ == old(out)@ + struct_literal_field_text(*field, indent as nat),
    decreases field,
{
    format_ident(field.name.as_str(), out);
    match &field.value {
        Some(value) => {
            out.append(": ");
            format_expr(value, indent, out);
        },
        None => {},
    }
    assert(out@ =~= old(out)@ + struct_literal_field_text(*field, indent as nat));
}

/// Appends the fields of a struct literal joined by `, `.
fn format_struct_literal_fields(fields: &Vec<StructLiteralField>, indent: usize, out: &mut String)
    requires
        indent + struct_literal_fields_depth(fields@) <= usize::MAX,
    ensures
        final(out)@ == old(out)@ + struct_literal_fields_text(fields@, indent as nat),
    decreases fields,
{
    let mut idx: usize = 0;
    assert(fields@.take(0) =~= Seq::<StructLiteralField>::empty());
    assert(old(out)@ + struct_literal_fields_text(fields@.take(0), indent as nat) =~= old(out)@);
    while idx < fields.len()
        invariant
            idx <= fields@.len(),
            indent + struct_literal_fields_depth(fields@) <= usize::MAX,
            out@ == old(out)@ + struct_literal_fields_text(fields@.take(idx as int), indent as nat),
        decreases fields@.len() - idx,
    {
        proof {
            lemma_struct_literal_fields_depth(fields@, idx as int);
        }
        assert(fields@.take(idx + 1).drop_last() =~= fields@.take(idx as int));
        if idx > 0 {
            out.append(", ");
        }
        format_struct_literal_field(&fields[idx], indent, out);
        assert(out@ =~= old(out)@ + struct_literal_fields_text(fields@.take(idx + 1), indent as nat));
        idx = idx + 1;
    }
    assert(fields@.take(fields@.len() as int) =~= fields@);
}

fn format_match_arm(arm: &MatchArm, indent: usize, out: &mut String)
    requires
        indent + 1 + match_arm_depth(*arm) <= usize::MAX,
    ensures
        final(out)@ == old(out)@ + match_arm_text(*arm, indent as nat),
    decreases arm,
{
    write_indent(indent + 1, out);
    format_pattern(&arm.pattern, out);
    match &arm.guard {
        Some(guard) => {
            out.append(" if ");
            format_expr(guard, indent + 1, out);
        },
        None => {},
    }
    out.append(" => ");
    format_expr(&arm.body, indent + 1, out);
    out.append(",\n");
    assert(out@ =~= old(out)@ + match_arm_text(*arm, indent as nat));
}

/// Appends the arms of a `match`, one per line.
fn format_match_arms(arms: &Vec<MatchArm>, indent: usize, out: &mut String)
    requires
        indent + 1 + match_arms_depth(arms@) <= usize::MAX,
    ensures
        final(out)@ == old(out)@ + match_arms_text(arms@, indent as nat),
    decreases arms,
{
    let mut idx: usize = 0;
    assert(arms@.take(0) =~= Seq::<MatchArm>::empty());
    assert(old(out)@ + match_arms_text(arms@.take(0), indent as nat) =~= old(out)@);
    while idx < arms.len()
        invariant
            idx <= arms@.len(),
            indent + 1 + match_arms_depth(arms@) <= usize::MAX,
            out@ == old(out)@ + match_arms_text(arms@.take(idx as int), indent as nat),
        decreases arms@.len() - idx,
    {
        proof {
            lemma_match_arms_depth(arms@, idx as int);
        }
        assert(arms@.take(idx + 1).drop_last() =~= arms@.take(idx as int));
        format_match_arm(&arms[idx], indent, out);
        assert(out@ =~= old(out)@ + match_arms_text(arms@.take(idx + 1), indent as nat));
        idx = idx + 1;
    }
    assert(arms@.take(arms@.len() as int) =~= arms@);
}

/// Appends a block whose braces sit at `indent` levels.
pub fn format_block(block: &Block, indent: usize, out: &mut String)
    requires
        indent + block_depth(*block) <= usize::MAX,
    ensures
        final(out)@ == old(out)@ + block_text(*block, indent as nat),
    decreases block,
{
    out.append("{\n");
    let ghost start = out@;
    let mut idx: usize = 0;
    assert(block.statements@.take(0) =~= Seq::<Stmt>::empty());
    assert(start + stmts_text(block.statements@.take(0), indent as nat + 1) =~= start);
    while idx < block.statements.len()
        invariant
            idx <= block.statements@.len(),
            indent + block_depth(*block) <= usize::MAX,
            out@ == start + stmts_text(block.statements@.take(idx as int), indent as nat + 1),
        decreases block.statements@.len() - idx,
    {
        proof {
            lemma_stmts_depth(block.statements@, idx as int);
        }
        assert(block.statements@.take(idx + 1).drop_last() =~= block.statements@.take(idx as int));
        format_stmt(&block.statements[idx], indent + 1, out);
        string_push(out, '\n');
        assert(out@ =~= start + stmts_text(block.statements@.take(idx + 1), indent as nat + 1));
        idx = idx + 1;
    }
    assert(block.statements@.take(block.statements@.len() as int) =~= block.statements@);
    match &block.tail {
        Some(tail) => {
            write_indent(indent + 1, out);
            format_expr(tail, indent + 1, out);
            string_push(out, '\n');
        },
        None => {},
    }
    write_indent(indent, out);
    string_push(out, '}');
    assert(out@ =~= old(out)@ + block_text(*block, indent as nat));
}

/// Appends a statement, starting with its indentation.
#[verifier::spinoff_prover]
#[verifier::rlimit(40)]
pub fn format_stmt(stmt: &Stmt, indent: usize, out: &mut String)
    requires
        indent + stmt_depth(*stmt) <= usize::MAX,
    ensures
        final(out)@ == old(out)@ + stmt_text(*stmt, indent as nat),
    decreases stmt,
{
    write_indent(indent, out);
    match stmt {
        Stmt::Let { mutable, pattern, ty, value } => {
            if *mutable {
                out.append("var ");
            } else {
                out.append("let ");
            }
            format_pattern(pattern, out);
            match ty {
                Some(ty) => {
                    out.append(": ");
                    format_type(ty, out);
                },
                None => {},
            }
            out.append(" = ");
            format_expr(value, indent, out);
        },
        Stmt::Return(value) => {
            out.append("return");
            match value {
                Some(value) => {
                    string_push(out, ' ');
                    format_expr(value, indent, out);
                },
                None => {},
            }
        },
        Stmt::Defer(value) => {
            out.append("defer ");
            format_expr(value, indent, out);
        },
        Stmt::Break => out.append("break"),
        Stmt::Continue => out.append("continue"),
        Stmt::While { condition, body } => {
            out.append("while ");
            format_expr(condition, indent, out);
            string_push(out, ' ');
            format_block(body, indent, out);
        },
        Stmt::Loop { body } => {
            out.append("loop ");
            format_block(body, indent, out);
        },
        Stmt::For { is_await, pattern, iterable, body } => {
            out.append("for ");
            if *is_await {
                out.append("await ");
            }
            format_pattern(pattern, out);
            out.append(" in ");
            format_expr(iterable, indent, out);
            string_push(out, ' ');
            format_block(body, indent, out);
        },
        Stmt::Expr { expr, terminated } => {
            format_expr(expr, indent, out);
            if *terminated {
                string_push(out, ';');
            }
        },
    }
    assert(out@ =~= old(out)@ + stmt_text(*stmt, indent as nat));
}

// ---------------------------------------------------------------------------
// Operators keep their meaning when written out.
// ---------------------------------------------------------------------------

/// The token that a binary operator is read back as; the logical operators
/// have no token of their own in the lexer.
pub open spec fn binary_op_token(op: BinaryOp) -> Option<TokenKind> {
    match op {
        BinaryOp::Assign => Some(TokenKind::Eq),
        BinaryOp::OrOr => None,
        BinaryOp::AndAnd => None,
        BinaryOp::Add => Some(TokenKind::Plus),
        BinaryOp::Sub => Some(TokenKind::Minus),
        BinaryOp::Mul => Some(TokenKind::Star),
        BinaryOp::Div => Some(TokenKind::Slash),
        BinaryOp::Rem => Some(TokenKind::Percent),
        BinaryOp::EqEq => Some(TokenKind::EqEq),
        BinaryOp::BangEq => Some(TokenKind::BangEq),
        BinaryOp::Gt => Some(TokenKind::Gt),
        BinaryOp::GtEq => Some(TokenKind::GtEq),
        BinaryOp::Lt => Some(TokenKind::Lt),
        BinaryOp::LtEq => Some(TokenKind::LtEq),
    }
}

/// A text on which the first lexing step reads the whole text as one token
/// lexes to that token, then `Eof`, with no error.
proof fn lemma_lex_single_token(s: Seq<char>, kind: TokenKind)
    requires
        s.len() > 0,
        step(s, 0) == (s.len() as int, Some((kind, s, char_span(s, 0, s.len() as int))), Seq::<(Seq<char>, Span)>::empty()),
    ensures
        lex_spec(s) == (seq![(kind, s, char_span(s, 0, s.len() as int)), eof_token(s)], Seq::<(Seq<char>, Span)>::empty()),
{
    let n = s.len() as int;
    let tok = (kind, s, char_span(s, 0, n));
    assert(lex_from(s, n) == (seq![eof_token(s)], Seq::<(Seq<char>, Span)>::empty()));
    assert(seq![tok] + seq![eof_token(s)] =~= seq![tok, eof_token(s)]);
    assert(Seq::<(Seq<char>, Span)>::empty() + Seq::<(Seq<char>, Span)>::empty() =~= Seq::<(Seq<char>, Span)>::empty());
}

/// The text written for a binary operator reads back, on its own, as the
/// one token of that operator and nothing else; and different operators are
/// written differently.
pub proof fn lemma_binary_operator_text_relexes(op: BinaryOp)
    ensures
        binary_op_token(op) matches Some(kind) ==> lex_spec(binary_op_text(op)) == (
            seq![(kind, binary_op_text(op), char_span(binary_op_text(op), 0, binary_op_text(op).len() as int)), eof_token(binary_op_text(op))],
            Seq::<(Seq<char>, Span)>::empty(),
        ),
        forall|a: BinaryOp, b: BinaryOp| #[trigger] binary_op_text(a) == #[trigger] binary_op_text(b) ==> a == b,
{
    match op {
        BinaryOp::Assign => {
            reveal_strlit("=");
            let text = binary_op_text(op);
            assert(text.subrange(0, 1) =~= text);
            lemma_lex_single_token(text, TokenKind::Eq);
        },
        BinaryOp::OrOr => {
            reveal_strlit("||");
        },
        BinaryOp::AndAnd => {
            reveal_strlit("&&");
        },
        BinaryOp::Add => {
            reveal_strlit("+");
            let text = binary_op_text(op);
            assert(text.subrange(0, 1) =~= text);
            lemma_lex_single_token(text, TokenKind::Plus);
        },
        BinaryOp::Sub => {
            reveal_strlit("-");
            let text = binary_op_text(op);
            assert(text.subrange(0, 1) =~= text);
            lemma_lex_single_token(text, TokenKind::Minus);
        },
        BinaryOp::Mul => {
            reveal_strlit("*");
            let text = binary_op_text(op);
            assert(text.subrange(0, 1) =~= text);
            lemma_lex_single_token(text, TokenKind::Star);
        },
        BinaryOp::Div => {
            reveal_strlit("/");
            let text = binary_op_text(op);
            assert(text.subrange(0, 1) =~= text);
            lemma_lex_single_token(text, TokenKind::Slash);
        },
        BinaryOp::Rem => {
            reveal_strlit("%");
            let text = binary_op_text(op);
            assert(text.subrange(0, 1) =~= text);
            lemma_lex_single_token(text, TokenKind::Percent);
        },
        BinaryOp::EqEq => {
            reveal_strlit("==");
            let text = binary_op_text(op);
            assert(text.subrange(0, 2) =~= text);
            lemma_lex_single_token(text, TokenKind::EqEq);
        },
        BinaryOp::BangEq => {
            reveal_strlit("!=");
            let text = binary_op_text(op);
            assert(text.subrange(0, 2) =~= text);
            lemma_lex_single_token(text, TokenKind::BangEq);
        },
        BinaryOp::Gt => {
            reveal_strlit(">");
            let text = binary_op_text(op);
            assert(text.subrange(0, 1) =~= text);
            lemma_lex_single_token(text, TokenKind::Gt);
        },
        BinaryOp::GtEq => {
            reveal_strlit(">=");
            let text = binary_op_text(op);
            assert(text.subrange(0, 2) =~= text);
            lemma_lex_single_token(text, TokenKind::GtEq);
        },
        BinaryOp::Lt => {
            reveal_strlit("<");
            let text = binary_op_text(op);
            assert(text.subrange(0, 1) =~= text);
            lemma_lex_single_token(text, TokenKind::Lt);
        },
        BinaryOp::LtEq => {
            reveal_strlit("<=");
            let text = binary_op_text(op);
            assert(text.subrange(0, 2) =~= text);
            lemma_lex_single_token(text, TokenKind::LtEq);
        },
    }
    assert forall|a: BinaryOp, b: BinaryOp| #[trigger] binary_op_text(a) == #[trigger] binary_op_text(b) implies a == b by {
        reveal_strlit("=");
        reveal_strlit("||");
        reveal_strlit("&&");
        reveal_strlit("+");
        reveal_strlit("-");
        reveal_strlit("*");
        reveal_strlit("/");
        reveal_strlit("%");
        reveal_strlit("==");
        reveal_strlit("!=");
        reveal_strlit(">");
        reveal_strlit(">=");
        reveal_strlit("<");
        reveal_strlit("<=");
        let p = binary_op_text(a);
        let q = binary_op_text(b);
        assert(p.len() == q.len());
        assert(p[0] == q[0]);
        if p.len() > 1 {
            assert(p[1] == q[1]);
        }
    }
}

/// The token that a prefix operator is read back as; `!` alone is not a
/// token of the lexer.
pub open spec fn unary_op_token(op: UnaryOp) -> Option<TokenKind> {
    match op {
        UnaryOp::Not => None,
        UnaryOp::Neg => Some(TokenKind::Minus),
        UnaryOp::Await => Some(TokenKind::Await),
        UnaryOp::Spawn => Some(TokenKind::Spawn),
    }
}

/// A keyword followed by one space lexes to the keyword's token, then `Eof`.
proof fn lemma_lex_keyword_then_space(s: Seq<char>, n: int, kind: TokenKind)
    requires
        1 <= n,
        s.len() == n + 1,
        s[n] == ' ',
        step(s, 0) == (n, Some((kind, s.subrange(0, n), char_span(s, 0, n))), Seq::<(Seq<char>, Span)>::empty()),
    ensures
        lex_spec(s).0 == seq![(kind, s.subrange(0, n), char_span(s, 0, n)), eof_token(s)],
        lex_spec(s).1.len() == 0,
{
    let tok = (kind, s.subrange(0, n), char_span(s, 0, n));
    assert(step(s, n) == (n + 1, None::<(TokenKind, Seq<char>, Span)>, Seq::<(Seq<char>, Span)>::empty()));
    assert(lex_from(s, n + 1) == (seq![eof_token(s)], Seq::<(Seq<char>, Span)>::empty()));
    assert(lex_from(s, n).0 == seq![eof_token(s)]);
    assert(seq![tok] + seq![eof_token(s)] =~= seq![tok, eof_token(s)]);
}

/// The text written for a prefix operator reads back as that operator's
/// token followed by nothing else, and different operators are written
/// differently.
pub proof fn lemma_unary_operator_text_relexes(op: UnaryOp)
    ensures
        unary_op_token(op) matches Some(kind) ==> {
            let text = unary_op_text(op);
            &&& lex_spec(text).1.len() == 0
            &&& lex_spec(text).0.len() == 2
            &&& lex_spec(text).0[0].0 == kind
        },
        forall|a: UnaryOp, b: UnaryOp| #[trigger] unary_op_text(a) == #[trigger] unary_op_text(b) ==> a == b,
{
    reveal_with_fuel(ident_end, 7);
    match op {
        UnaryOp::Not => {},
        UnaryOp::Neg => {
            reveal_strlit("-");
            let text = unary_op_text(op);
            assert(text.subrange(0, 1) =~= text);
            lemma_lex_single_token(text, TokenKind::Minus);
        },
        UnaryOp::Await => {
            reveal_strlit("await ");
            reveal_strlit("await");
            let text = unary_op_text(op);
            assert(text.subrange(0, 5) =~= "await"@);
            reveal_strlit("package");
            assert("await"@.len() != "package"@.len());
            reveal_strlit("use");
            assert("await"@.len() != "use"@.len());
            reveal_strlit("pub");
            assert("await"@.len() != "pub"@.len());
            reveal_strlit("const");
            assert("await"@[0] != "const"@[0]);
            reveal_strlit("static");
            assert("await"@.len() != "static"@.len());
            reveal_strlit("let");
            assert("await"@.len() != "let"@.len());
            reveal_strlit("var");
            assert("await"@.len() != "var"@.len());
            reveal_strlit("fn");
            assert("await"@.len() != "fn"@.len());
            reveal_strlit("async");
            assert("await"@[1] != "async"@[1]);
            assert(keyword_kind("await"@) == Some(TokenKind::Await));
            lemma_lex_keyword_then_space(text, 5, TokenKind::Await);
        },
        UnaryOp::Spawn => {
            reveal_strlit("spawn ");
            reveal_strlit("spawn");
            let text = unary_op_text(op);
            assert(text.subrange(0, 5) =~= "spawn"@);
            reveal_strlit("package");
            assert("spawn"@.len() != "package"@.len());
            reveal_strlit("use");
            assert("spawn"@.len() != "use"@.len());
            reveal_strlit("pub");
            assert("spawn"@.len() != "pub"@.len());
            reveal_strlit("const");
            assert("spawn"@[0] != "const"@[0]);
            reveal_strlit("static");
            assert("spawn"@.len() != "static"@.len());
            reveal_strlit("let");
            assert("spawn"@.len() != "let"@.len());
            reveal_strlit("var");
            assert("spawn"@.len() != "var"@.len());
            reveal_strlit("fn");
            assert("spawn"@.len() != "fn"@.len());
            reveal_strlit("async");
            assert("spawn"@[0] != "async"@[0]);
            reveal_strlit("await");
            assert("spawn"@[0] != "await"@[0]);
            assert(keyword_kind("spawn"@) == Some(TokenKind::Spawn));
            lemma_lex_keyword_then_space(text, 5, TokenKind::Spawn);
        },
    }
    assert forall|a: UnaryOp, b: UnaryOp| #[trigger] unary_op_text(a) == #[trigger] unary_op_text(b) implies a == b by {
        reveal_strlit("!");
        reveal_strlit("-");
        reveal_strlit("await ");
        reveal_strlit("spawn ");
        let p = unary_op_text(a);
        let q = unary_op_text(b);
        assert(p.len() == q.len());
        assert(p[0] == q[0]);
    }
}

} // verus!
