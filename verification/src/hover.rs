use vstd::prelude::*;
use vstd::string::StringExecFns;

use crate::semantic_tokens::SymbolKind;
use crate::symbol_kinds::{kind_name, symbol_kind_name};

verus! {

/// What is known of a symbol under the cursor: its kind, its name, its
/// declaration and, where known, its type.
#[derive(Clone, Debug, PartialEq, Eq)]
pub struct HoverInfo {
    pub kind: SymbolKind,
    pub name: String,
    pub detail: String,
    pub ty: Option<String>,
}

/// The hover text: the kind in bold and the name in code, the declaration
/// in a code block, then the type when it is known.
pub open spec fn hover_markdown(kind: SymbolKind, name: Seq<char>, detail: Seq<char>, ty: Option<Seq<char>>) -> Seq<char> {
    "**"@ + kind_name(kind) + "** `"@ + name + "`\n\n```ql\n"@ + detail + "\n```"@ + match ty {
        Some(ty) => "\n\nType: `"@ + ty + "`"@,
        None => Seq::empty(),
    }
}

pub fn render_hover_markdown(info: &HoverInfo) -> (text: String)
    ensures
        text@ == hover_markdown(
            info.kind,
            info.name@,
            info.detail@,
            match info.ty {
                Some(ty) => Some(ty@),
                None => None,
            },
        ),
{
    let mut text = String::from_str("**");
    text.append(symbol_kind_name(info.kind));
    text.append("** `");
    text.append(info.name.as_str());
    text.append("`\n\n```ql\n");
    text.append(info.detail.as_str());
    text.append("\n```");
    match &info.ty {
        Some(ty) => {
            text.append("\n\nType: `");
            text.append(ty.as_str());
            text.append("`");
        },
        None => {},
    }
    assert(text@ =~= hover_markdown(
        info.kind,
        info.name@,
        info.detail@,
        match info.ty {
            Some(ty) => Some(ty@),
            None => None,
        },
    ));
    text
}

} // verus!
