use vstd::prelude::*;

use crate::lexer::{
    ident_continue_char, ident_start_char, is_ident_continue, is_ident_start, keyword_kind,
    keyword_kind_for_label,
};
use crate::ast::{GenericParam, Path, Pattern, PatternField, TypeExpr, Visibility, WherePredicate};
use crate::strings::{join_spec, lemma_join_take_step};
use crate::text::{source_chars, string_push};

verus! {

/// A name must be written between backticks when it is a keyword, is empty,
/// or is not made of identifier chars.
pub open spec fn needs_escape(name: Seq<char>) -> bool {
    ||| keyword_kind(name) is Some
    ||| name.len() == 0
    ||| !ident_start_char(name[0])
    ||| exists|k: int| 0 <= k < name.len() && !ident_continue_char(#[trigger] name[k])
}

/// How a name is written in formatted source.
#[verifier::opaque]
pub open spec fn formatted_ident(name: Seq<char>) -> Seq<char> {
    if needs_escape(name) {
        seq!['`'] + name + seq!['`']
    } else {
        name
    }
}

/// `indent` levels of four spaces.
pub open spec fn indent_text(indent: nat) -> Seq<char>
    decreases indent,
{
    if indent == 0 {
        Seq::empty()
    } else {
        indent_text((indent - 1) as nat) + "    "@
    }
}

pub fn needs_identifier_escape(name: &str) -> (escape: bool)
    ensures
        escape == needs_escape(name@),
{
    if keyword_kind_for_label(name).is_some() {
        return true;
    }
    let cs = source_chars(name);
    if cs.len() == 0 {
        return true;
    }
    if !is_ident_start(cs[0]) {
        return true;
    }
    let mut k: usize = 0;
    while k < cs.len()
        invariant
            cs@ == name@,
            k <= cs@.len(),
            forall|j: int| 0 <= j < k ==> ident_continue_char(#[trigger] cs@[j]),
        decreases cs@.len() - k,
    {
        if !is_ident_continue(cs[k]) {
            return true;
        }
        k = k + 1;
    }
    false
}

/// Appends `name` to `out`, between backticks when it needs escaping.
pub fn format_ident(name: &str, out: &mut String)
    ensures
        final(out)@ == old(out)@ + formatted_ident(name@),
{
    reveal(formatted_ident);
    if needs_identifier_escape(name) {
        string_push(out, '`');
        out.append(name);
        string_push(out, '`');
        assert(final(out)@ =~= old(out)@ + formatted_ident(name@));
    } else {
        out.append(name);
    }
}

/// Appends `indent` levels of indentation to `out`.
pub fn write_indent(indent: usize, out: &mut String)
    ensures
        final(out)@ == old(out)@ + indent_text(indent as nat),
{
    let mut k: usize = 0;
    assert(old(out)@ + indent_text(0) =~= old(out)@);
    while k < indent
        invariant
            k <= indent,
            out@ == old(out)@ + indent_text(k as nat),
        decreases indent - k,
    {
        out.append("    ");
        assert(old(out)@ + indent_text((k + 1) as nat) =~= old(out)@ + indent_text(k as nat) + "    "@);
        k = k + 1;
    }
}

// ---------------------------------------------------------------------------
// Paths, generics, types and patterns.
// ---------------------------------------------------------------------------

/// `pub ` for public declarations, nothing otherwise.
pub open spec fn visibility_text(visibility: Visibility) -> Seq<char> {
    match visibility {
        Visibility::Public => "pub "@,
        Visibility::Private => Seq::empty(),
    }
}

/// The segments of a path, each written as an identifier, joined by `.`.
pub open spec fn path_text(path: Path) -> Seq<char> {
    join_spec(path.segments@.map_values(|segment: String| formatted_ident(segment@)), seq!['.'])
}

/// Trait bounds joined by ` + `.
pub open spec fn bounds_text(bounds: Seq<Path>) -> Seq<char> {
    join_spec(bounds.map_values(|bound: Path| path_text(bound)), " + "@)
}

/// `T` or `T: A + B`.
pub open spec fn generic_param_text(param: GenericParam) -> Seq<char> {
    formatted_ident(param.name@) + if param.bounds.len() == 0 {
        Seq::empty()
    } else {
        ": "@ + bounds_text(param.bounds@)
    }
}

/// Nothing for no parameters, else `[P1, P2]`.
pub open spec fn generic_params_text(params: Seq<GenericParam>) -> Seq<char> {
    if params.len() == 0 {
        Seq::empty()
    } else {
        seq!['['] + join_spec(params.map_values(|param: GenericParam| generic_param_text(param)), ", "@)
            + seq![']']
    }
}

/// How a type is written.
pub open spec fn type_text(ty: TypeExpr) -> Seq<char>
    decreases ty,
{
    match ty {
        TypeExpr::Pointer { is_const, inner } => seq!['*'] + (if is_const {
            "const "@
        } else {
            Seq::empty()
        }) + type_text(*inner),
        TypeExpr::Array { element, len } => seq!['['] + type_text(*element) + "; "@ + len@ + seq![']'],
        TypeExpr::Named { path, args } => path_text(path) + if args.len() == 0 {
            Seq::empty()
        } else {
            seq!['['] + types_text(args@) + seq![']']
        },
        TypeExpr::Tuple(items) => seq!['('] + types_text(items@) + (if items.len() == 1 {
            seq![',']
        } else {
            Seq::empty()
        }) + seq![')'],
        TypeExpr::Callable { params, ret } => seq!['('] + types_text(params@) + ") -> "@ + type_text(
            *ret,
        ),
    }
}

/// Types joined by `, `.
pub open spec fn types_text(types: Seq<TypeExpr>) -> Seq<char>
    decreases types,
{
    if types.len() == 0 {
        Seq::empty()
    } else {
        types_text(types.drop_last()) + (if types.len() > 1 {
            ", "@
        } else {
            Seq::empty()
        }) + type_text(types.last())
    }
}

/// One line of a `where` clause; every line but the last ends with a comma.
pub open spec fn where_line_text(predicate: WherePredicate, indent: nat, last: bool) -> Seq<char> {
    indent_text(indent + 1) + type_text(predicate.target) + ": "@ + bounds_text(predicate.bounds@)
        + if last {
        seq!['\n']
    } else {
        ",\n"@
    }
}

/// The first `n` lines of a `where` clause.
pub open spec fn where_lines_text(predicates: Seq<WherePredicate>, indent: nat, n: nat) -> Seq<char>
    decreases n,
{
    if n == 0 {
        Seq::empty()
    } else {
        where_lines_text(predicates, indent, (n - 1) as nat) + where_line_text(
            predicates[n - 1],
            indent,
            n == predicates.len(),
        )
    }
}

/// Nothing without predicates, else a line break, `where` on its own line
/// and one line per predicate, one level deeper.
pub open spec fn where_clause_text(predicates: Seq<WherePredicate>, indent: nat) -> Seq<char> {
    if predicates.len() == 0 {
        Seq::empty()
    } else {
        seq!['\n'] + indent_text(indent) + "where\n"@ + where_lines_text(
            predicates,
            indent,
            predicates.len(),
        )
    }
}

/// How a pattern is written.
pub open spec fn pattern_text(pattern: Pattern) -> Seq<char>
    decreases pattern,
{
    match pattern {
        Pattern::Name(name) => formatted_ident(name@),
        Pattern::Tuple(items) => seq!['('] + patterns_text(items@) + seq![')'],
        Pattern::Array(items) => seq!['['] + patterns_text(items@) + seq![']'],
        Pattern::Path(path) => path_text(path),
        Pattern::TupleStruct { path, items } => path_text(path) + seq!['('] + patterns_text(items@)
            + seq![')'],
        Pattern::Struct { path, fields, has_rest } => path_text(path) + " { "@ + pattern_fields_text(
            fields@,
        ) + (if has_rest {
            (if fields.len() > 0 {
                ", "@
            } else {
                Seq::empty()
            }) + ".."@
        } else {
            Seq::empty()
        }) + " }"@,
        Pattern::Integer(value) => value@,
        Pattern::String(value) => seq!['"'] + value@ + seq!['"'],
        Pattern::Bool(value) => if value {
            "true"@
        } else {
            "false"@
        },
        Pattern::NoneLiteral => "none"@,
        Pattern::Wildcard => seq!['_'],
    }
}

/// Patterns joined by `, `.
pub open spec fn patterns_text(patterns: Seq<Pattern>) -> Seq<char>
    decreases patterns,
{
    if patterns.len() == 0 {
        Seq::empty()
    } else {
        patterns_text(patterns.drop_last()) + (if patterns.len() > 1 {
            ", "@
        } else {
            Seq::empty()
        }) + pattern_text(patterns.last())
    }
}

/// Fields of a struct pattern joined by `, `; each is its name, followed by
/// `: pattern` when it has one.
pub open spec fn pattern_fields_text(fields: Seq<PatternField>) -> Seq<char>
    decreases fields,
{
    if fields.len() == 0 {
        Seq::empty()
    } else {
        pattern_fields_text(fields.drop_last()) + (if fields.len() > 1 {
            ", "@
        } else {
            Seq::empty()
        }) + formatted_ident(fields.last().name@) + match fields.last().pattern {
            Some(p) => ": "@ + pattern_text(p),
            None => Seq::empty(),
        }
    }
}

/// Appends `pub ` for a public declaration.
pub fn format_visibility(visibility: &Visibility, out: &mut String)
    ensures
        final(out)@ == old(out)@ + visibility_text(*visibility),
{
    match visibility {
        Visibility::Public => out.append("pub "),
        Visibility::Private => {
            assert(old(out)@ + Seq::<char>::empty() =~= old(out)@);
        },
    }
}

/// Appends a path.
pub fn format_path(path: &Path, out: &mut String)
    ensures
        final(out)@ == old(out)@ + path_text(*path),
{
    let ghost parts = path.segments@.map_values(|segment: String| formatted_ident(segment@));
    let mut idx: usize = 0;
    assert(old(out)@ + join_spec(parts.take(0), seq!['.']) =~= old(out)@);
    while idx < path.segments.len()
        invariant
            idx <= path.segments@.len(),
            parts == path.segments@.map_values(|segment: String| formatted_ident(segment@)),
            out@ == old(out)@ + join_spec(parts.take(idx as int), seq!['.']),
        decreases path.segments@.len() - idx,
    {
        proof {
            lemma_join_take_step(parts, seq!['.'], idx as int);
        }
        if idx > 0 {
            string_push(out, '.');
        }
        format_ident(path.segments[idx].as_str(), out);
        assert(out@ =~= old(out)@ + join_spec(parts.take(idx + 1), seq!['.']));
        idx = idx + 1;
    }
    assert(parts.take(path.segments@.len() as int) =~= parts);
}

/// Appends trait bounds joined by ` + `.
fn format_bounds(bounds: &Vec<Path>, out: &mut String)
    ensures
        final(out)@ == old(out)@ + bounds_text(bounds@),
{
    let ghost parts = bounds@.map_values(|bound: Path| path_text(bound));
    let mut idx: usize = 0;
    assert(old(out)@ + join_spec(parts.take(0), " + "@) =~= old(out)@);
    while idx < bounds.len()
        invariant
            idx <= bounds@.len(),
            parts == bounds@.map_values(|bound: Path| path_text(bound)),
            out@ == old(out)@ + join_spec(parts.take(idx as int), " + "@),
        decreases bounds@.len() - idx,
    {
        proof {
            lemma_join_take_step(parts, " + "@, idx as int);
        }
        if idx > 0 {
            out.append(" + ");
        }
        format_path(&bounds[idx], out);
        assert(out@ =~= old(out)@ + join_spec(parts.take(idx + 1), " + "@));
        idx = idx + 1;
    }
    assert(parts.take(bounds@.len() as int) =~= parts);
}

fn format_generic_param(param: &GenericParam, out: &mut String)
    ensures
        final(out)@ == old(out)@ + generic_param_text(*param),
{
    format_ident(param.name.as_str(), out);
    if param.bounds.len() > 0 {
        out.append(": ");
        format_bounds(&param.bounds, out);
    }
    assert(out@ =~= old(out)@ + generic_param_text(*param));
}

/// Appends generic parameters: nothing when there are none, else `[...]`.
pub fn format_generic_params(params: &Vec<GenericParam>, out: &mut String)
    ensures
        final(out)@ == old(out)@ + generic_params_text(params@),
{
    if params.len() == 0 {
        assert(old(out)@ + generic_params_text(params@) =~= old(out)@);
        return;
    }
    string_push(out, '[');
    let ghost start = out@;
    let ghost parts = params@.map_values(|param: GenericParam| generic_param_text(param));
    let mut idx: usize = 0;
    assert(start + join_spec(parts.take(0), ", "@) =~= start);
    while idx < params.len()
        invariant
            idx <= params@.len(),
            parts == params@.map_values(|param: GenericParam| generic_param_text(param)),
            out@ == start + join_spec(parts.take(idx as int), ", "@),
        decreases params@.len() - idx,
    {
        proof {
            lemma_join_take_step(parts, ", "@, idx as int);
        }
        if idx > 0 {
            out.append(", ");
        }
        format_generic_param(&params[idx], out);
        assert(out@ =~= start + join_spec(parts.take(idx + 1), ", "@));
        idx = idx + 1;
    }
    assert(parts.take(params@.len() as int) =~= parts);
    string_push(out, ']');
    assert(out@ =~= old(out)@ + generic_params_text(params@));
}

/// Appends a type.
pub fn format_type(ty: &TypeExpr, out: &mut String)
    ensures
        final(out)@ == old(out)@ + type_text(*ty),
    decreases ty,
{
    match ty {
        TypeExpr::Pointer { is_const, inner } => {
            string_push(out, '*');
            if *is_const {
                out.append("const ");
            }
            format_type(inner, out);
        },
        TypeExpr::Array { element, len } => {
            string_push(out, '[');
            format_type(element, out);
            out.append("; ");
            out.append(len.as_str());
            string_push(out, ']');
        },
        TypeExpr::Named { path, args } => {
            format_path(path, out);
            if args.len() > 0 {
                string_push(out, '[');
                format_type_list(args, out);
                string_push(out, ']');
            }
        },
        TypeExpr::Tuple(items) => {
            string_push(out, '(');
            format_type_list(items, out);
            if items.len() == 1 {
                string_push(out, ',');
            }
            string_push(out, ')');
        },
        TypeExpr::Callable { params, ret } => {
            string_push(out, '(');
            format_type_list(params, out);
            out.append(") -> ");
            format_type(ret, out);
        },
    }
    assert(out@ =~= old(out)@ + type_text(*ty));
}

/// Appends types joined by `, `.
pub fn format_type_list(types: &Vec<TypeExpr>, out: &mut String)
    ensures
        final(out)@ == old(out)@ + types_text(types@),
    decreases types,
{
    let mut idx: usize = 0;
    assert(types@.take(0) =~= Seq::<TypeExpr>::empty());
    assert(old(out)@ + types_text(types@.take(0)) =~= old(out)@);
    while idx < types.len()
        invariant
            idx <= types@.len(),
            out@ == old(out)@ + types_text(types@.take(idx as int)),
        decreases types@.len() - idx,
    {
        assert(types@.take(idx + 1).drop_last() =~= types@.take(idx as int));
        if idx > 0 {
            out.append(", ");
        }
        format_type(&types[idx], out);
        assert(out@ =~= old(out)@ + types_text(types@.take(idx + 1)));
        idx = idx + 1;
    }
    assert(types@.take(types@.len() as int) =~= types@);
}

/// Appends a `where` clause (nothing when it has no predicates).
pub fn format_where_clause(predicates: &Vec<WherePredicate>, indent: usize, out: &mut String)
    requires
        indent < usize::MAX,
    ensures
        final(out)@ == old(out)@ + where_clause_text(predicates@, indent as nat),
{
    if predicates.len() == 0 {
        assert(old(out)@ + where_clause_text(predicates@, indent as nat) =~= old(out)@);
        return;
    }
    string_push(out, '\n');
    write_indent(indent, out);
    out.append("where\n");
    let ghost start = out@;
    let mut idx: usize = 0;
    assert(start + where_lines_text(predicates@, indent as nat, 0) =~= start);
    while idx < predicates.len()
        invariant
            idx <= predicates@.len(),
            indent < usize::MAX,
            out@ == start + where_lines_text(predicates@, indent as nat, idx as nat),
        decreases predicates@.len() - idx,
    {
        let predicate = &predicates[idx];
        write_indent(indent + 1, out);
        format_type(&predicate.target, out);
        out.append(": ");
        format_bounds(&predicate.bounds, out);
        if idx + 1 != predicates.len() {
            out.append(",\n");
        } else {
            string_push(out, '\n');
        }
        assert(out@ =~= start + where_lines_text(predicates@, indent as nat, (idx + 1) as nat));
        idx = idx + 1;
    }
    assert(out@ =~= old(out)@ + where_clause_text(predicates@, indent as nat));
}

/// Appends a pattern.
pub fn format_pattern(pattern: &Pattern, out: &mut String)
    ensures
        final(out)@ == old(out)@ + pattern_text(*pattern),
    decreases pattern,
{
    match pattern {
        Pattern::Name(name) => format_ident(name.as_str(), out),
        Pattern::Tuple(items) => {
            string_push(out, '(');
            format_pattern_list(items, out);
            string_push(out, ')');
        },
        Pattern::Array(items) => {
            string_push(out, '[');
            format_pattern_list(items, out);
            string_push(out, ']');
        },
        Pattern::Path(path) => format_path(path, out),
        Pattern::TupleStruct { path, items } => {
            format_path(path, out);
            string_push(out, '(');
            format_pattern_list(items, out);
            string_push(out, ')');
        },
        Pattern::Struct { path, fields, has_rest } => format_struct_pattern(
            path,
            fields,
            *has_rest,
            out,
        ),
        Pattern::Integer(value) => out.append(value.as_str()),
        Pattern::String(value) => {
            string_push(out, '"');
            out.append(value.as_str());
            string_push(out, '"');
        },
        Pattern::Bool(value) => {
            if *value {
                out.append("true");
            } else {
                out.append("false");
            }
        },
        Pattern::NoneLiteral => out.append("none"),
        Pattern::Wildcard => string_push(out, '_'),
    }
    assert(out@ =~= old(out)@ + pattern_text(*pattern));
}

/// Appends patterns joined by `, `.
fn format_pattern_list(patterns: &Vec<Pattern>, out: &mut String)
    ensures
        final(out)@ == old(out)@ + patterns_text(patterns@),
    decreases patterns,
{
    let mut idx: usize = 0;
    assert(patterns@.take(0) =~= Seq::<Pattern>::empty());
    assert(old(out)@ + patterns_text(patterns@.take(0)) =~= old(out)@);
    while idx < patterns.len()
        invariant
            idx <= patterns@.len(),
            out@ == old(out)@ + patterns_text(patterns@.take(idx as int)),
        decreases patterns@.len() - idx,
    {
        assert(patterns@.take(idx + 1).drop_last() =~= patterns@.take(idx as int));
        if idx > 0 {
            out.append(", ");
        }
        format_pattern(&patterns[idx], out);
        assert(out@ =~= old(out)@ + patterns_text(patterns@.take(idx + 1)));
        idx = idx + 1;
    }
    assert(patterns@.take(patterns@.len() as int) =~= patterns@);
}

/// Appends `Path { a, b: pattern, .. }`.
fn format_struct_pattern(path: &Path, fields: &Vec<PatternField>, has_rest: bool, out: &mut String)
    ensures
        final(out)@ == old(out)@ + pattern_text(
            Pattern::Struct { path: *path, fields: *fields, has_rest },
        ),
    decreases fields,
{
    format_path(path, out);
    out.append(" { ");
    let ghost start = out@;
    let mut idx: usize = 0;
    assert(fields@.take(0) =~= Seq::<PatternField>::empty());
    assert(start + pattern_fields_text(fields@.take(0)) =~= start);
    while idx < fields.len()
        invariant
            idx <= fields@.len(),
            out@ == start + pattern_fields_text(fields@.take(idx as int)),
        decreases fields@.len() - idx,
    {
        assert(fields@.take(idx + 1).drop_last() =~= fields@.take(idx as int));
        let field = &fields[idx];
        if idx > 0 {
            out.append(", ");
        }
        format_ident(field.name.as_str(), out);
        match &field.pattern {
            Some(pattern) => {
                out.append(": ");
                format_pattern(pattern, out);
            },
            None => {},
        }
        assert(out@ =~= start + pattern_fields_text(fields@.take(idx + 1)));
        idx = idx + 1;
    }
    assert(fields@.take(fields@.len() as int) =~= fields@);
    if has_rest {
        if fields.len() > 0 {
            out.append(", ");
        }
        out.append("..");
    }
    out.append(" }");
    assert(out@ =~= old(out)@ + pattern_text(
        Pattern::Struct { path: *path, fields: *fields, has_rest },
    ));
}

} // verus!
