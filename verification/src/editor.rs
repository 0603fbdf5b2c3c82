use vstd::prelude::*;

use crate::lexer::{keyword_kind, TokenKind};
use crate::strings::{find_char, find_char_from, lemma_find_char, trim_bounds, trim_spec};
use crate::text::{are_char_indices, byte_offset, char_indices, source_chars, string_from_chars};

verus! {

/// Hover and completion documentation of a keyword.
#[derive(Clone, Copy, Debug)]
pub struct KeywordInfo {
    pub category: &'static str,
    pub summary: &'static str,
    pub example: &'static str,
}

/// Category, summary and example of each keyword.
pub open spec fn keyword_info_spec(kind: TokenKind) -> Option<(Seq<char>, Seq<char>, Seq<char>)> {
    match kind {
        TokenKind::Package => Some(("declaration"@, "Declares the current package identity."@, "package app.core"@)),
        TokenKind::Use => Some(("declaration"@, "Imports a visible symbol or module path into the current scope."@, "use core.math.add as add"@)),
        TokenKind::Pub => Some(("modifier"@, "Exports an item from the package interface."@, "pub fn run() -> Int { return 0 }"@)),
        TokenKind::Const => Some(("declaration"@, "Declares an immutable compile-time value."@, "const LIMIT = 8"@)),
        TokenKind::Static => Some(("declaration"@, "Declares a package-level immutable runtime value."@, "static DEFAULT = 1"@)),
        TokenKind::Let => Some(("declaration"@, "Creates an immutable local binding."@, "let value = compute()"@)),
        TokenKind::Var => Some(("declaration"@, "Creates a mutable local binding."@, "var total = 0"@)),
        TokenKind::Fn => Some(("declaration"@, "Declares a function or method."@, "fn add(left: Int, right: Int) -> Int { return left + right }"@)),
        TokenKind::Async => Some(("modifier"@, "Marks a function body as asynchronous."@, "async fn load() -> Int { return await fetch() }"@)),
        TokenKind::Await => Some(("control"@, "Waits for an async operation inside an async context."@, "let value = await load()"@)),
        TokenKind::Spawn => Some(("control"@, "Starts an async task."@, "let task = spawn load()"@)),
        TokenKind::Defer => Some(("control"@, "Runs cleanup at scope exit."@, "defer close(handle)"@)),
        TokenKind::Return => Some(("control"@, "Returns a value from the current function."@, "return value"@)),
        TokenKind::Break => Some(("control"@, "Exits the nearest loop."@, "break"@)),
        TokenKind::Continue => Some(("control"@, "Skips to the next loop iteration."@, "continue"@)),
        TokenKind::If => Some(("control"@, "Starts a conditional expression."@, "if ready { run() } else { wait() }"@)),
        TokenKind::Else => Some(("control"@, "Starts the fallback branch of an `if` expression."@, "if ok { value } else { fallback }"@)),
        TokenKind::Match => Some(("control"@, "Branches by pattern matching."@, "match state { _ => 0 }"@)),
        TokenKind::For => Some(("control"@, "Iterates over an iterable value."@, "for item in items { consume(item) }"@)),
        TokenKind::While => Some(("control"@, "Repeats while a condition stays true."@, "while running { tick() }"@)),
        TokenKind::Loop => Some(("control"@, "Starts an unconditional loop."@, "loop { break }"@)),
        TokenKind::In => Some(("operator"@, "Separates a loop binding from its iterable expression."@, "for item in items { item }"@)),
        TokenKind::Where => Some(("constraint"@, "Introduces generic or trait constraints."@, "fn id[T](value: T) -> T where T satisfies Copy { return value }"@)),
        TokenKind::Struct => Some(("type"@, "Declares a named product type."@, "struct Point { x: Int, y: Int }"@)),
        TokenKind::Data => Some(("type"@, "Marks a struct declaration as data-oriented."@, "data struct Point { x: Int }"@)),
        TokenKind::Enum => Some(("type"@, "Declares a tagged union type."@, "enum State { Ready, Failed(String) }"@)),
        TokenKind::Trait => Some(("type"@, "Declares a behavior interface."@, "trait Show { fn show(self) -> String }"@)),
        TokenKind::Impl => Some(("type"@, "Implements methods or traits for a type."@, "impl Counter { fn get(self) -> Int { return self.value } }"@)),
        TokenKind::Extend => Some(("type"@, "Adds extension methods to a type."@, "extend Counter { fn reset(self) -> Counter { return self } }"@)),
        TokenKind::Type => Some(("type"@, "Declares a type alias."@, "type Count = Int"@)),
        TokenKind::Opaque => Some(("type"@, "Declares an alias that hides its representation outside the defining package."@, "opaque type UserId = Int"@)),
        TokenKind::Extern => Some(("interop"@, "Declares foreign ABI functions or exported ABI items."@, "extern \"c\" fn puts(value: String) -> Int"@)),
        TokenKind::Unsafe => Some(("modifier"@, "Marks an operation or block as requiring explicit unsafe intent."@, "unsafe { call_raw() }"@)),
        TokenKind::Is => Some(("operator"@, "Tests a value against a type or pattern."@, "value is Some"@)),
        TokenKind::As => Some(("operator"@, "Introduces an alias or cast-like projection depending on context."@, "use core.math.add as add"@)),
        TokenKind::Satisfies => Some(("constraint"@, "Checks that a type satisfies a trait constraint."@, "where T satisfies Show"@)),
        TokenKind::NoneKw => Some(("literal"@, "Represents the empty option value."@, "return none"@)),
        TokenKind::TrueKw => Some(("literal"@, "Boolean true literal."@, "let ok = true"@)),
        TokenKind::FalseKw => Some(("literal"@, "Boolean false literal."@, "let ok = false"@)),
        TokenKind::SelfKw => Some(("receiver"@, "References the current method receiver."@, "return self.value"@)),
        TokenKind::MoveKw => Some(("modifier"@, "Forces a closure or value use to move captured state."@, "let f = move || value"@)),
        _ => None,
    }
}

/// Documentation of the keyword token kinds; `None` for other kinds.
pub fn keyword_info(kind: TokenKind) -> (info: Option<KeywordInfo>)
    ensures
        match info {
            Some(i) => keyword_info_spec(kind) == Some((i.category@, i.summary@, i.example@)),
            None => keyword_info_spec(kind) is None,
        },
{
    match kind {
        TokenKind::Package => Some(
            KeywordInfo {
                category: "declaration",
                summary: "Declares the current package identity.",
                example: "package app.core",
            },
        ),
        TokenKind::Use => Some(
            KeywordInfo {
                category: "declaration",
                summary: "Imports a visible symbol or module path into the current scope.",
                example: "use core.math.add as add",
            },
        ),
        TokenKind::Pub => Some(
            KeywordInfo {
                category: "modifier",
                summary: "Exports an item from the package interface.",
                example: "pub fn run() -> Int { return 0 }",
            },
        ),
        TokenKind::Const => Some(
            KeywordInfo {
                category: "declaration",
                summary: "Declares an immutable compile-time value.",
                example: "const LIMIT = 8",
            },
        ),
        TokenKind::Static => Some(
            KeywordInfo {
                category: "declaration",
                summary: "Declares a package-level immutable runtime value.",
                example: "static DEFAULT = 1",
            },
        ),
        TokenKind::Let => Some(
            KeywordInfo {
                category: "declaration",
                summary: "Creates an immutable local binding.",
                example: "let value = compute()",
            },
        ),
        TokenKind::Var => Some(
            KeywordInfo {
                category: "declaration",
                summary: "Creates a mutable local binding.",
                example: "var total = 0",
            },
        ),
        TokenKind::Fn => Some(
            KeywordInfo {
                category: "declaration",
                summary: "Declares a function or method.",
                example: "fn add(left: Int, right: Int) -> Int { return left + right }",
            },
        ),
        TokenKind::Async => Some(
            KeywordInfo {
                category: "modifier",
                summary: "Marks a function body as asynchronous.",
                example: "async fn load() -> Int { return await fetch() }",
            },
        ),
        TokenKind::Await => Some(
            KeywordInfo {
                category: "control",
                summary: "Waits for an async operation inside an async context.",
                example: "let value = await load()",
            },
        ),
        TokenKind::Spawn => Some(
            KeywordInfo {
                category: "control",
                summary: "Starts an async task.",
                example: "let task = spawn load()",
            },
        ),
        TokenKind::Defer => Some(
            KeywordInfo {
                category: "control",
                summary: "Runs cleanup at scope exit.",
                example: "defer close(handle)",
            },
        ),
        TokenKind::Return => Some(
            KeywordInfo {
                category: "control",
                summary: "Returns a value from the current function.",
                example: "return value",
            },
        ),
        TokenKind::Break => Some(
            KeywordInfo {
                category: "control",
                summary: "Exits the nearest loop.",
                example: "break",
            },
        ),
        TokenKind::Continue => Some(
            KeywordInfo {
                category: "control",
                summary: "Skips to the next loop iteration.",
                example: "continue",
            },
        ),
        TokenKind::If => Some(
            KeywordInfo {
                category: "control",
                summary: "Starts a conditional expression.",
                example: "if ready { run() } else { wait() }",
            },
        ),
        TokenKind::Else => Some(
            KeywordInfo {
                category: "control",
                summary: "Starts the fallback branch of an `if` expression.",
                example: "if ok { value } else { fallback }",
            },
        ),
        TokenKind::Match => Some(
            KeywordInfo {
                category: "control",
                summary: "Branches by pattern matching.",
                example: "match state { _ => 0 }",
            },
        ),
        TokenKind::For => Some(
            KeywordInfo {
                category: "control",
                summary: "Iterates over an iterable value.",
                example: "for item in items { consume(item) }",
            },
        ),
        TokenKind::While => Some(
            KeywordInfo {
                category: "control",
                summary: "Repeats while a condition stays true.",
                example: "while running { tick() }",
            },
        ),
        TokenKind::Loop => Some(
            KeywordInfo {
                category: "control",
                summary: "Starts an unconditional loop.",
                example: "loop { break }",
            },
        ),
        TokenKind::In => Some(
            KeywordInfo {
                category: "operator",
                summary: "Separates a loop binding from its iterable expression.",
                example: "for item in items { item }",
            },
        ),
        TokenKind::Where => Some(
            KeywordInfo {
                category: "constraint",
                summary: "Introduces generic or trait constraints.",
                example: "fn id[T](value: T) -> T where T satisfies Copy { return value }",
            },
        ),
        TokenKind::Struct => Some(
            KeywordInfo {
                category: "type",
                summary: "Declares a named product type.",
                example: "struct Point { x: Int, y: Int }",
            },
        ),
        TokenKind::Data => Some(
            KeywordInfo {
                category: "type",
                summary: "Marks a struct declaration as data-oriented.",
                example: "data struct Point { x: Int }",
            },
        ),
        TokenKind::Enum => Some(
            KeywordInfo {
                category: "type",
                summary: "Declares a tagged union type.",
                example: "enum State { Ready, Failed(String) }",
            },
        ),
        TokenKind::Trait => Some(
            KeywordInfo {
                category: "type",
                summary: "Declares a behavior interface.",
                example: "trait Show { fn show(self) -> String }",
            },
        ),
        TokenKind::Impl => Some(
            KeywordInfo {
                category: "type",
                summary: "Implements methods or traits for a type.",
                example: "impl Counter { fn get(self) -> Int { return self.value } }",
            },
        ),
        TokenKind::Extend => Some(
            KeywordInfo {
                category: "type",
                summary: "Adds extension methods to a type.",
                example: "extend Counter { fn reset(self) -> Counter { return self } }",
            },
        ),
        TokenKind::Type => Some(
            KeywordInfo {
                category: "type",
                summary: "Declares a type alias.",
                example: "type Count = Int",
            },
        ),
        TokenKind::Opaque => Some(
            KeywordInfo {
                category: "type",
                summary: "Declares an alias that hides its representation outside the defining package.",
                example: "opaque type UserId = Int",
            },
        ),
        TokenKind::Extern => Some(
            KeywordInfo {
                category: "interop",
                summary: "Declares foreign ABI functions or exported ABI items.",
                example: "extern \"c\" fn puts(value: String) -> Int",
            },
        ),
        TokenKind::Unsafe => Some(
            KeywordInfo {
                category: "modifier",
                summary: "Marks an operation or block as requiring explicit unsafe intent.",
                example: "unsafe { call_raw() }",
            },
        ),
        TokenKind::Is => Some(
            KeywordInfo {
                category: "operator",
                summary: "Tests a value against a type or pattern.",
                example: "value is Some",
            },
        ),
        TokenKind::As => Some(
            KeywordInfo {
                category: "operator",
                summary: "Introduces an alias or cast-like projection depending on context.",
                example: "use core.math.add as add",
            },
        ),
        TokenKind::Satisfies => Some(
            KeywordInfo {
                category: "constraint",
                summary: "Checks that a type satisfies a trait constraint.",
                example: "where T satisfies Show",
            },
        ),
        TokenKind::NoneKw => Some(
            KeywordInfo {
                category: "literal",
                summary: "Represents the empty option value.",
                example: "return none",
            },
        ),
        TokenKind::TrueKw => Some(
            KeywordInfo {
                category: "literal",
                summary: "Boolean true literal.",
                example: "let ok = true",
            },
        ),
        TokenKind::FalseKw => Some(
            KeywordInfo {
                category: "literal",
                summary: "Boolean false literal.",
                example: "let ok = false",
            },
        ),
        TokenKind::SelfKw => Some(
            KeywordInfo {
                category: "receiver",
                summary: "References the current method receiver.",
                example: "return self.value",
            },
        ),
        TokenKind::MoveKw => Some(
            KeywordInfo {
                category: "modifier",
                summary: "Forces a closure or value use to move captured state.",
                example: "let f = move || value",
            },
        ),
        _ => None,
    }
}

/// The keywords offered as completions, in order.
pub open spec fn keyword_labels_spec() -> Seq<Seq<char>> {
    seq![
        "package"@,
        "use"@,
        "pub"@,
        "const"@,
        "static"@,
        "let"@,
        "var"@,
        "fn"@,
        "async"@,
        "await"@,
        "spawn"@,
        "defer"@,
        "return"@,
        "break"@,
        "continue"@,
        "if"@,
        "else"@,
        "match"@,
        "for"@,
        "while"@,
        "loop"@,
        "in"@,
        "where"@,
        "struct"@,
        "data"@,
        "enum"@,
        "trait"@,
        "impl"@,
        "extend"@,
        "type"@,
        "opaque"@,
        "extern"@,
        "unsafe"@,
        "is"@,
        "as"@,
        "satisfies"@,
        "none"@,
        "true"@,
        "false"@,
        "self"@,
        "move"@,
    ]
}

/// The completion labels are exactly the keywords: there are forty-one of
/// them, none twice, each spells a keyword whose documentation exists, and
/// every keyword is among them.
pub proof fn lemma_keyword_labels_are_the_keywords()
    ensures
        keyword_labels_spec().len() == 41,
        keyword_labels_spec().no_duplicates(),
        forall|i: int|
            0 <= i < keyword_labels_spec().len() ==> {
                &&& keyword_kind(#[trigger] keyword_labels_spec()[i]) is Some
                &&& keyword_info_spec(keyword_kind(keyword_labels_spec()[i])->0) is Some
            },
        forall|s: Seq<char>| #[trigger] keyword_kind(s) is Some ==> keyword_labels_spec().contains(s),
{
    let labels = keyword_labels_spec();
    assert(keyword_kind("package"@) == Some(TokenKind::Package)) by {
        reveal_strlit("package");
    }
    assert(labels[0] == "package"@);
    assert(keyword_kind("use"@) == Some(TokenKind::Use)) by {
        reveal_strlit("use");
        reveal_strlit("package");
        assert("use"@.len() != "package"@.len());
    }
    assert(labels[1] == "use"@);
    assert(keyword_kind("pub"@) == Some(TokenKind::Pub)) by {
        reveal_strlit("pub");
        reveal_strlit("package");
        assert("pub"@.len() != "package"@.len());
        reveal_strlit("use");
        assert("pub"@[0] != "use"@[0]);
    }
    assert(labels[2] == "pub"@);
    assert(keyword_kind("const"@) == Some(TokenKind::Const)) by {
        reveal_strlit("const");
        reveal_strlit("package");
        assert("const"@.len() != "package"@.len());
        reveal_strlit("use");
        assert("const"@.len() != "use"@.len());
        reveal_strlit("pub");
        assert("const"@.len() != "pub"@.len());
    }
    assert(labels[3] == "const"@);
    assert(keyword_kind("static"@) == Some(TokenKind::Static)) by {
        reveal_strlit("static");
        reveal_strlit("package");
        assert("static"@.len() != "package"@.len());
        reveal_strlit("use");
        assert("static"@.len() != "use"@.len());
        reveal_strlit("pub");
        assert("static"@.len() != "pub"@.len());
        reveal_strlit("const");
        assert("static"@.len() != "const"@.len());
    }
    assert(labels[4] == "static"@);
    assert(keyword_kind("let"@) == Some(TokenKind::Let)) by {
        reveal_strlit("let");
        reveal_strlit("package");
        assert("let"@.len() != "package"@.len());
        reveal_strlit("use");
        assert("let"@[0] != "use"@[0]);
        reveal_strlit("pub");
        assert("let"@[0] != "pub"@[0]);
        reveal_strlit("const");
        assert("let"@.len() != "const"@.len());
        reveal_strlit("static");
        assert("let"@.len() != "static"@.len());
    }
    assert(labels[5] == "let"@);
    assert(keyword_kind("var"@) == Some(TokenKind::Var)) by {
        reveal_strlit("var");
        reveal_strlit("package");
        assert("var"@.len() != "package"@.len());
        reveal_strlit("use");
        assert("var"@[0] != "use"@[0]);
        reveal_strlit("pub");
        assert("var"@[0] != "pub"@[0]);
        reveal_strlit("const");
        assert("var"@.len() != "const"@.len());
        reveal_strlit("static");
        assert("var"@.len() != "static"@.len());
        reveal_strlit("let");
        assert("var"@[0] != "let"@[0]);
    }
    assert(labels[6] == "var"@);
    assert(keyword_kind("fn"@) == Some(TokenKind::Fn)) by {
        reveal_strlit("fn");
        reveal_strlit("package");
        assert("fn"@.len() != "package"@.len());
        reveal_strlit("use");
        assert("fn"@.len() != "use"@.len());
        reveal_strlit("pub");
        assert("fn"@.len() != "pub"@.len());
        reveal_strlit("const");
        assert("fn"@.len() != "const"@.len());
        reveal_strlit("static");
        assert("fn"@.len() != "static"@.len());
        reveal_strlit("let");
        assert("fn"@.len() != "let"@.len());
        reveal_strlit("var");
        assert("fn"@.len() != "var"@.len());
    }
    assert(labels[7] == "fn"@);
    assert(keyword_kind("async"@) == Some(TokenKind::Async)) by {
        reveal_strlit("async");
        reveal_strlit("package");
        assert("async"@.len() != "package"@.len());
        reveal_strlit("use");
        assert("async"@.len() != "use"@.len());
        reveal_strlit("pub");
        assert("async"@.len() != "pub"@.len());
        reveal_strlit("const");
        assert("async"@[0] != "const"@[0]);
        reveal_strlit("static");
        assert("async"@.len() != "static"@.len());
        reveal_strlit("let");
        assert("async"@.len() != "let"@.len());
        reveal_strlit("var");
        assert("async"@.len() != "var"@.len());
        reveal_strlit("fn");
        assert("async"@.len() != "fn"@.len());
    }
    assert(labels[8] == "async"@);
    assert(keyword_kind("await"@) == Some(TokenKind::Await)) by {
        reveal_strlit("await");
        reveal_strlit("package");
        assert("await"@.len() != "package"@.len());
        reveal_strlit("use");
        assert("await"@.len() != "use"@.len());
        reveal_strlit("pub");
        assert("await"@.len() != "pub"@.len());
        reveal_strlit("const");
        assert("await"@[0] != "const"@[0]);
        reveal_strlit("static");
        assert("await"@.len() != "static"@.len());
        reveal_strlit("let");
        assert("await"@.len() != "let"@.len());
        reveal_strlit("var");
        assert("await"@.len() != "var"@.len());
        reveal_strlit("fn");
        assert("await"@.len() != "fn"@.len());
        reveal_strlit("async");
        assert("await"@[1] != "async"@[1]);
    }
    assert(labels[9] == "await"@);
    assert(keyword_kind("spawn"@) == Some(TokenKind::Spawn)) by {
        reveal_strlit("spawn");
        reveal_strlit("package");
        assert("spawn"@.len() != "package"@.len());
        reveal_strlit("use");
        assert("spawn"@.len() != "use"@.len());
        reveal_strlit("pub");
        assert("spawn"@.len() != "pub"@.len());
        reveal_strlit("const");
        assert("spawn"@[0] != "const"@[0]);
        reveal_strlit("static");
        assert("spawn"@.len() != "static"@.len());
        reveal_strlit("let");
        assert("spawn"@.len() != "let"@.len());
        reveal_strlit("var");
        assert("spawn"@.len() != "var"@.len());
        reveal_strlit("fn");
        assert("spawn"@.len() != "fn"@.len());
        reveal_strlit("async");
        assert("spawn"@[0] != "async"@[0]);
        reveal_strlit("await");
        assert("spawn"@[0] != "await"@[0]);
    }
    assert(labels[10] == "spawn"@);
    assert(keyword_kind("defer"@) == Some(TokenKind::Defer)) by {
        reveal_strlit("defer");
        reveal_strlit("package");
        assert("defer"@.len() != "package"@.len());
        reveal_strlit("use");
        assert("defer"@.len() != "use"@.len());
        reveal_strlit("pub");
        assert("defer"@.len() != "pub"@.len());
        reveal_strlit("const");
        assert("defer"@[0] != "const"@[0]);
        reveal_strlit("static");
        assert("defer"@.len() != "static"@.len());
        reveal_strlit("let");
        assert("defer"@.len() != "let"@.len());
        reveal_strlit("var");
        assert("defer"@.len() != "var"@.len());
        reveal_strlit("fn");
        assert("defer"@.len() != "fn"@.len());
        reveal_strlit("async");
        assert("defer"@[0] != "async"@[0]);
        reveal_strlit("await");
        assert("defer"@[0] != "await"@[0]);
        reveal_strlit("spawn");
        assert("defer"@[0] != "spawn"@[0]);
    }
    assert(labels[11] == "defer"@);
    assert(keyword_kind("return"@) == Some(TokenKind::Return)) by {
        reveal_strlit("return");
        reveal_strlit("package");
        assert("return"@.len() != "package"@.len());
        reveal_strlit("use");
        assert("return"@.len() != "use"@.len());
        reveal_strlit("pub");
        assert("return"@.len() != "pub"@.len());
        reveal_strlit("const");
        assert("return"@.len() != "const"@.len());
        reveal_strlit("static");
        assert("return"@[0] != "static"@[0]);
        reveal_strlit("let");
        assert("return"@.len() != "let"@.len());
        reveal_strlit("var");
        assert("return"@.len() != "var"@.len());
        reveal_strlit("fn");
        assert("return"@.len() != "fn"@.len());
        reveal_strlit("async");
        assert("return"@.len() != "async"@.len());
        reveal_strlit("await");
        assert("return"@.len() != "await"@.len());
        reveal_strlit("spawn");
        assert("return"@.len() != "spawn"@.len());
        reveal_strlit("defer");
        assert("return"@.len() != "defer"@.len());
    }
    assert(labels[12] == "return"@);
    assert(keyword_kind("break"@) == Some(TokenKind::Break)) by {
        reveal_strlit("break");
        reveal_strlit("package");
        assert("break"@.len() != "package"@.len());
        reveal_strlit("use");
        assert("break"@.len() != "use"@.len());
        reveal_strlit("pub");
        assert("break"@.len() != "pub"@.len());
        reveal_strlit("const");
        assert("break"@[0] != "const"@[0]);
        reveal_strlit("static");
        assert("break"@.len() != "static"@.len());
        reveal_strlit("let");
        assert("break"@.len() != "let"@.len());
        reveal_strlit("var");
        assert("break"@.len() != "var"@.len());
        reveal_strlit("fn");
        assert("break"@.len() != "fn"@.len());
        reveal_strlit("async");
        assert("break"@[0] != "async"@[0]);
        reveal_strlit("await");
        assert("break"@[0] != "await"@[0]);
        reveal_strlit("spawn");
        assert("break"@[0] != "spawn"@[0]);
        reveal_strlit("defer");
        assert("break"@[0] != "defer"@[0]);
        reveal_strlit("return");
        assert("break"@.len() != "return"@.len());
    }
    assert(labels[13] == "break"@);
    assert(keyword_kind("continue"@) == Some(TokenKind::Continue)) by {
        reveal_strlit("continue");
        reveal_strlit("package");
        assert("continue"@.len() != "package"@.len());
        reveal_strlit("use");
        assert("continue"@.len() != "use"@.len());
        reveal_strlit("pub");
        assert("continue"@.len() != "pub"@.len());
        reveal_strlit("const");
        assert("continue"@.len() != "const"@.len());
        reveal_strlit("static");
        assert("continue"@.len() != "static"@.len());
        reveal_strlit("let");
        assert("continue"@.len() != "let"@.len());
        reveal_strlit("var");
        assert("continue"@.len() != "var"@.len());
        reveal_strlit("fn");
        assert("continue"@.len() != "fn"@.len());
        reveal_strlit("async");
        assert("continue"@.len() != "async"@.len());
        reveal_strlit("await");
        assert("continue"@.len() != "await"@.len());
        reveal_strlit("spawn");
        assert("continue"@.len() != "spawn"@.len());
        reveal_strlit("defer");
        assert("continue"@.len() != "defer"@.len());
        reveal_strlit("return");
        assert("continue"@.len() != "return"@.len());
        reveal_strlit("break");
        assert("continue"@.len() != "break"@.len());
    }
    assert(labels[14] == "continue"@);
    assert(keyword_kind("if"@) == Some(TokenKind::If)) by {
        reveal_strlit("if");
        reveal_strlit("package");
        assert("if"@.len() != "package"@.len());
        reveal_strlit("use");
        assert("if"@.len() != "use"@.len());
        reveal_strlit("pub");
        assert("if"@.len() != "pub"@.len());
        reveal_strlit("const");
        assert("if"@.len() != "const"@.len());
        reveal_strlit("static");
        assert("if"@.len() != "static"@.len());
        reveal_strlit("let");
        assert("if"@.len() != "let"@.len());
        reveal_strlit("var");
        assert("if"@.len() != "var"@.len());
        reveal_strlit("fn");
        assert("if"@[0] != "fn"@[0]);
        reveal_strlit("async");
        assert("if"@.len() != "async"@.len());
        reveal_strlit("await");
        assert("if"@.len() != "await"@.len());
        reveal_strlit("spawn");
        assert("if"@.len() != "spawn"@.len());
        reveal_strlit("defer");
        assert("if"@.len() != "defer"@.len());
        reveal_strlit("return");
        assert("if"@.len() != "return"@.len());
        reveal_strlit("break");
        assert("if"@.len() != "break"@.len());
        reveal_strlit("continue");
        assert("if"@.len() != "continue"@.len());
    }
    assert(labels[15] == "if"@);
    assert(keyword_kind("else"@) == Some(TokenKind::Else)) by {
        reveal_strlit("else");
        reveal_strlit("package");
        assert("else"@.len() != "package"@.len());
        reveal_strlit("use");
        assert("else"@.len() != "use"@.len());
        reveal_strlit("pub");
        assert("else"@.len() != "pub"@.len());
        reveal_strlit("const");
        assert("else"@.len() != "const"@.len());
        reveal_strlit("static");
        assert("else"@.len() != "static"@.len());
        reveal_strlit("let");
        assert("else"@.len() != "let"@.len());
        reveal_strlit("var");
        assert("else"@.len() != "var"@.len());
        reveal_strlit("fn");
        assert("else"@.len() != "fn"@.len());
        reveal_strlit("async");
        assert("else"@.len() != "async"@.len());
        reveal_strlit("await");
        assert("else"@.len() != "await"@.len());
        reveal_strlit("spawn");
        assert("else"@.len() != "spawn"@.len());
        reveal_strlit("defer");
        assert("else"@.len() != "defer"@.len());
        reveal_strlit("return");
        assert("else"@.len() != "return"@.len());
        reveal_strlit("break");
        assert("else"@.len() != "break"@.len());
        reveal_strlit("continue");
        assert("else"@.len() != "continue"@.len());
        reveal_strlit("if");
        assert("else"@.len() != "if"@.len());
    }
    assert(labels[16] == "else"@);
    assert(keyword_kind("match"@) == Some(TokenKind::Match)) by {
        reveal_strlit("match");
        reveal_strlit("package");
        assert("match"@.len() != "package"@.len());
        reveal_strlit("use");
        assert("match"@.len() != "use"@.len());
        reveal_strlit("pub");
        assert("match"@.len() != "pub"@.len());
        reveal_strlit("const");
        assert("match"@[0] != "const"@[0]);
        reveal_strlit("static");
        assert("match"@.len() != "static"@.len());
        reveal_strlit("let");
        assert("match"@.len() != "let"@.len());
        reveal_strlit("var");
        assert("match"@.len() != "var"@.len());
        reveal_strlit("fn");
        assert("match"@.len() != "fn"@.len());
        reveal_strlit("async");
        assert("match"@[0] != "async"@[0]);
        reveal_strlit("await");
        assert("match"@[0] != "await"@[0]);
        reveal_strlit("spawn");
        assert("match"@[0] != "spawn"@[0]);
        reveal_strlit("defer");
        assert("match"@[0] != "defer"@[0]);
        reveal_strlit("return");
        assert("match"@.len() != "return"@.len());
        reveal_strlit("break");
        assert("match"@[0] != "break"@[0]);
        reveal_strlit("continue");
        assert("match"@.len() != "continue"@.len());
        reveal_strlit("if");
        assert("match"@.len() != "if"@.len());
        reveal_strlit("else");
        assert("match"@.len() != "else"@.len());
    }
    assert(labels[17] == "match"@);
    assert(keyword_kind("for"@) == Some(TokenKind::For)) by {
        reveal_strlit("for");
        reveal_strlit("package");
        assert("for"@.len() != "package"@.len());
        reveal_strlit("use");
        assert("for"@[0] != "use"@[0]);
        reveal_strlit("pub");
        assert("for"@[0] != "pub"@[0]);
        reveal_strlit("const");
        assert("for"@.len() != "const"@.len());
        reveal_strlit("static");
        assert("for"@.len() != "static"@.len());
        reveal_strlit("let");
        assert("for"@[0] != "let"@[0]);
        reveal_strlit("var");
        assert("for"@[0] != "var"@[0]);
        reveal_strlit("fn");
        assert("for"@.len() != "fn"@.len());
        reveal_strlit("async");
        assert("for"@.len() != "async"@.len());
        reveal_strlit("await");
        assert("for"@.len() != "await"@.len());
        reveal_strlit("spawn");
        assert("for"@.len() != "spawn"@.len());
        reveal_strlit("defer");
        assert("for"@.len() != "defer"@.len());
        reveal_strlit("return");
        assert("for"@.len() != "return"@.len());
        reveal_strlit("break");
        assert("for"@.len() != "break"@.len());
        reveal_strlit("continue");
        assert("for"@.len() != "continue"@.len());
        reveal_strlit("if");
        assert("for"@.len() != "if"@.len());
        reveal_strlit("else");
        assert("for"@.len() != "else"@.len());
        reveal_strlit("match");
        assert("for"@.len() != "match"@.len());
    }
    assert(labels[18] == "for"@);
    assert(keyword_kind("while"@) == Some(TokenKind::While)) by {
        reveal_strlit("while");
        reveal_strlit("package");
        assert("while"@.len() != "package"@.len());
        reveal_strlit("use");
        assert("while"@.len() != "use"@.len());
        reveal_strlit("pub");
        assert("while"@.len() != "pub"@.len());
        reveal_strlit("const");
        assert("while"@[0] != "const"@[0]);
        reveal_strlit("static");
        assert("while"@.len() != "static"@.len());
        reveal_strlit("let");
        assert("while"@.len() != "let"@.len());
        reveal_strlit("var");
        assert("while"@.len() != "var"@.len());
        reveal_strlit("fn");
        assert("while"@.len() != "fn"@.len());
        reveal_strlit("async");
        assert("while"@[0] != "async"@[0]);
        reveal_strlit("await");
        assert("while"@[0] != "await"@[0]);
        reveal_strlit("spawn");
        assert("while"@[0] != "spawn"@[0]);
        reveal_strlit("defer");
        assert("while"@[0] != "defer"@[0]);
        reveal_strlit("return");
        assert("while"@.len() != "return"@.len());
        reveal_strlit("break");
        assert("while"@[0] != "break"@[0]);
        reveal_strlit("continue");
        assert("while"@.len() != "continue"@.len());
        reveal_strlit("if");
        assert("while"@.len() != "if"@.len());
        reveal_strlit("else");
        assert("while"@.len() != "else"@.len());
        reveal_strlit("match");
        assert("while"@[0] != "match"@[0]);
        reveal_strlit("for");
        assert("while"@.len() != "for"@.len());
    }
    assert(labels[19] == "while"@);
    assert(keyword_kind("loop"@) == Some(TokenKind::Loop)) by {
        reveal_strlit("loop");
        reveal_strlit("package");
        assert("loop"@.len() != "package"@.len());
        reveal_strlit("use");
        assert("loop"@.len() != "use"@.len());
        reveal_strlit("pub");
        assert("loop"@.len() != "pub"@.len());
        reveal_strlit("const");
        assert("loop"@.len() != "const"@.len());
        reveal_strlit("static");
        assert("loop"@.len() != "static"@.len());
        reveal_strlit("let");
        assert("loop"@.len() != "let"@.len());
        reveal_strlit("var");
        assert("loop"@.len() != "var"@.len());
        reveal_strlit("fn");
        assert("loop"@.len() != "fn"@.len());
        reveal_strlit("async");
        assert("loop"@.len() != "async"@.len());
        reveal_strlit("await");
        assert("loop"@.len() != "await"@.len());
        reveal_strlit("spawn");
        assert("loop"@.len() != "spawn"@.len());
        reveal_strlit("defer");
        assert("loop"@.len() != "defer"@.len());
        reveal_strlit("return");
        assert("loop"@.len() != "return"@.len());
        reveal_strlit("break");
        assert("loop"@.len() != "break"@.len());
        reveal_strlit("continue");
        assert("loop"@.len() != "continue"@.len());
        reveal_strlit("if");
        assert("loop"@.len() != "if"@.len());
        reveal_strlit("else");
        assert("loop"@[0] != "else"@[0]);
        reveal_strlit("match");
        assert("loop"@.len() != "match"@.len());
        reveal_strlit("for");
        assert("loop"@.len() != "for"@.len());
        reveal_strlit("while");
        assert("loop"@.len() != "while"@.len());
    }
    assert(labels[20] == "loop"@);
    assert(keyword_kind("in"@) == Some(TokenKind::In)) by {
        reveal_strlit("in");
        reveal_strlit("package");
        assert("in"@.len() != "package"@.len());
        reveal_strlit("use");
        assert("in"@.len() != "use"@.len());
        reveal_strlit("pub");
        assert("in"@.len() != "pub"@.len());
        reveal_strlit("const");
        assert("in"@.len() != "const"@.len());
        reveal_strlit("static");
        assert("in"@.len() != "static"@.len());
        reveal_strlit("let");
        assert("in"@.len() != "let"@.len());
        reveal_strlit("var");
        assert("in"@.len() != "var"@.len());
        reveal_strlit("fn");
        assert("in"@[0] != "fn"@[0]);
        reveal_strlit("async");
        assert("in"@.len() != "async"@.len());
        reveal_strlit("await");
        assert("in"@.len() != "await"@.len());
        reveal_strlit("spawn");
        assert("in"@.len() != "spawn"@.len());
        reveal_strlit("defer");
        assert("in"@.len() != "defer"@.len());
        reveal_strlit("return");
        assert("in"@.len() != "return"@.len());
        reveal_strlit("break");
        assert("in"@.len() != "break"@.len());
        reveal_strlit("continue");
        assert("in"@.len() != "continue"@.len());
        reveal_strlit("if");
        assert("in"@[1] != "if"@[1]);
        reveal_strlit("else");
        assert("in"@.len() != "else"@.len());
        reveal_strlit("match");
        assert("in"@.len() != "match"@.len());
        reveal_strlit("for");
        assert("in"@.len() != "for"@.len());
        reveal_strlit("while");
        assert("in"@.len() != "while"@.len());
        reveal_strlit("loop");
        assert("in"@.len() != "loop"@.len());
    }
    assert(labels[21] == "in"@);
    assert(keyword_kind("where"@) == Some(TokenKind::Where)) by {
        reveal_strlit("where");
        reveal_strlit("package");
        assert("where"@.len() != "package"@.len());
        reveal_strlit("use");
        assert("where"@.len() != "use"@.len());
        reveal_strlit("pub");
        assert("where"@.len() != "pub"@.len());
        reveal_strlit("const");
        assert("where"@[0] != "const"@[0]);
        reveal_strlit("static");
        assert("where"@.len() != "static"@.len());
        reveal_strlit("let");
        assert("where"@.len() != "let"@.len());
        reveal_strlit("var");
        assert("where"@.len() != "var"@.len());
        reveal_strlit("fn");
        assert("where"@.len() != "fn"@.len());
        reveal_strlit("async");
        assert("where"@[0] != "async"@[0]);
        reveal_strlit("await");
        assert("where"@[0] != "await"@[0]);
        reveal_strlit("spawn");
        assert("where"@[0] != "spawn"@[0]);
        reveal_strlit("defer");
        assert("where"@[0] != "defer"@[0]);
        reveal_strlit("return");
        assert("where"@.len() != "return"@.len());
        reveal_strlit("break");
        assert("where"@[0] != "break"@[0]);
        reveal_strlit("continue");
        assert("where"@.len() != "continue"@.len());
        reveal_strlit("if");
        assert("where"@.len() != "if"@.len());
        reveal_strlit("else");
        assert("where"@.len() != "else"@.len());
        reveal_strlit("match");
        assert("where"@[0] != "match"@[0]);
        reveal_strlit("for");
        assert("where"@.len() != "for"@.len());
        reveal_strlit("while");
        assert("where"@[2] != "while"@[2]);
        reveal_strlit("loop");
        assert("where"@.len() != "loop"@.len());
        reveal_strlit("in");
        assert("where"@.len() != "in"@.len());
    }
    assert(labels[22] == "where"@);
    assert(keyword_kind("struct"@) == Some(TokenKind::Struct)) by {
        reveal_strlit("struct");
        reveal_strlit("package");
        assert("struct"@.len() != "package"@.len());
        reveal_strlit("use");
        assert("struct"@.len() != "use"@.len());
        reveal_strlit("pub");
        assert("struct"@.len() != "pub"@.len());
        reveal_strlit("const");
        assert("struct"@.len() != "const"@.len());
        reveal_strlit("static");
        assert("struct"@[2] != "static"@[2]);
        reveal_strlit("let");
        assert("struct"@.len() != "let"@.len());
        reveal_strlit("var");
        assert("struct"@.len() != "var"@.len());
        reveal_strlit("fn");
        assert("struct"@.len() != "fn"@.len());
        reveal_strlit("async");
        assert("struct"@.len() != "async"@.len());
        reveal_strlit("await");
        assert("struct"@.len() != "await"@.len());
        reveal_strlit("spawn");
        assert("struct"@.len() != "spawn"@.len());
        reveal_strlit("defer");
        assert("struct"@.len() != "defer"@.len());
        reveal_strlit("return");
        assert("struct"@[0] != "return"@[0]);
        reveal_strlit("break");
        assert("struct"@.len() != "break"@.len());
        reveal_strlit("continue");
        assert("struct"@.len() != "continue"@.len());
        reveal_strlit("if");
        assert("struct"@.len() != "if"@.len());
        reveal_strlit("else");
        assert("struct"@.len() != "else"@.len());
        reveal_strlit("match");
        assert("struct"@.len() != "match"@.len());
        reveal_strlit("for");
        assert("struct"@.len() != "for"@.len());
        reveal_strlit("while");
        assert("struct"@.len() != "while"@.len());
        reveal_strlit("loop");
        assert("struct"@.len() != "loop"@.len());
        reveal_strlit("in");
        assert("struct"@.len() != "in"@.len());
        reveal_strlit("where");
        assert("struct"@.len() != "where"@.len());
    }
    assert(labels[23] == "struct"@);
    assert(keyword_kind("data"@) == Some(TokenKind::Data)) by {
        reveal_strlit("data");
        reveal_strlit("package");
        assert("data"@.len() != "package"@.len());
        reveal_strlit("use");
        assert("data"@.len() != "use"@.len());
        reveal_strlit("pub");
        assert("data"@.len() != "pub"@.len());
        reveal_strlit("const");
        assert("data"@.len() != "const"@.len());
        reveal_strlit("static");
        assert("data"@.len() != "static"@.len());
        reveal_strlit("let");
        assert("data"@.len() != "let"@.len());
        reveal_strlit("var");
        assert("data"@.len() != "var"@.len());
        reveal_strlit("fn");
        assert("data"@.len() != "fn"@.len());
        reveal_strlit("async");
        assert("data"@.len() != "async"@.len());
        reveal_strlit("await");
        assert("data"@.len() != "await"@.len());
        reveal_strlit("spawn");
        assert("data"@.len() != "spawn"@.len());
        reveal_strlit("defer");
        assert("data"@.len() != "defer"@.len());
        reveal_strlit("return");
        assert("data"@.len() != "return"@.len());
        reveal_strlit("break");
        assert("data"@.len() != "break"@.len());
        reveal_strlit("continue");
        assert("data"@.len() != "continue"@.len());
        reveal_strlit("if");
        assert("data"@.len() != "if"@.len());
        reveal_strlit("else");
        assert("data"@[0] != "else"@[0]);
        reveal_strlit("match");
        assert("data"@.len() != "match"@.len());
        reveal_strlit("for");
        assert("data"@.len() != "for"@.len());
        reveal_strlit("while");
        assert("data"@.len() != "while"@.len());
        reveal_strlit("loop");
        assert("data"@[0] != "loop"@[0]);
        reveal_strlit("in");
        assert("data"@.len() != "in"@.len());
        reveal_strlit("where");
        assert("data"@.len() != "where"@.len());
        reveal_strlit("struct");
        assert("data"@.len() != "struct"@.len());
    }
    assert(labels[24] == "data"@);
    assert(keyword_kind("enum"@) == Some(TokenKind::Enum)) by {
        reveal_strlit("enum");
        reveal_strlit("package");
        assert("enum"@.len() != "package"@.len());
        reveal_strlit("use");
        assert("enum"@.len() != "use"@.len());
        reveal_strlit("pub");
        assert("enum"@.len() != "pub"@.len());
        reveal_strlit("const");
        assert("enum"@.len() != "const"@.len());
        reveal_strlit("static");
        assert("enum"@.len() != "static"@.len());
        reveal_strlit("let");
        assert("enum"@.len() != "let"@.len());
        reveal_strlit("var");
        assert("enum"@.len() != "var"@.len());
        reveal_strlit("fn");
        assert("enum"@.len() != "fn"@.len());
        reveal_strlit("async");
        assert("enum"@.len() != "async"@.len());
        reveal_strlit("await");
        assert("enum"@.len() != "await"@.len());
        reveal_strlit("spawn");
        assert("enum"@.len() != "spawn"@.len());
        reveal_strlit("defer");
        assert("enum"@.len() != "defer"@.len());
        reveal_strlit("return");
        assert("enum"@.len() != "return"@.len());
        reveal_strlit("break");
        assert("enum"@.len() != "break"@.len());
        reveal_strlit("continue");
        assert("enum"@.len() != "continue"@.len());
        reveal_strlit("if");
        assert("enum"@.len() != "if"@.len());
        reveal_strlit("else");
        assert("enum"@[1] != "else"@[1]);
        reveal_strlit("match");
        assert("enum"@.len() != "match"@.len());
        reveal_strlit("for");
        assert("enum"@.len() != "for"@.len());
        reveal_strlit("while");
        assert("enum"@.len() != "while"@.len());
        reveal_strlit("loop");
        assert("enum"@[0] != "loop"@[0]);
        reveal_strlit("in");
        assert("enum"@.len() != "in"@.len());
        reveal_strlit("where");
        assert("enum"@.len() != "where"@.len());
        reveal_strlit("struct");
        assert("enum"@.len() != "struct"@.len());
        reveal_strlit("data");
        assert("enum"@[0] != "data"@[0]);
    }
    assert(labels[25] == "enum"@);
    assert(keyword_kind("trait"@) == Some(TokenKind::Trait)) by {
        reveal_strlit("trait");
        reveal_strlit("package");
        assert("trait"@.len() != "package"@.len());
        reveal_strlit("use");
        assert("trait"@.len() != "use"@.len());
        reveal_strlit("pub");
        assert("trait"@.len() != "pub"@.len());
        reveal_strlit("const");
        assert("trait"@[0] != "const"@[0]);
        reveal_strlit("static");
        assert("trait"@.len() != "static"@.len());
        reveal_strlit("let");
        assert("trait"@.len() != "let"@.len());
        reveal_strlit("var");
        assert("trait"@.len() != "var"@.len());
        reveal_strlit("fn");
        assert("trait"@.len() != "fn"@.len());
        reveal_strlit("async");
        assert("trait"@[0] != "async"@[0]);
        reveal_strlit("await");
        assert("trait"@[0] != "await"@[0]);
        reveal_strlit("spawn");
        assert("trait"@[0] != "spawn"@[0]);
        reveal_strlit("defer");
        assert("trait"@[0] != "defer"@[0]);
        reveal_strlit("return");
        assert("trait"@.len() != "return"@.len());
        reveal_strlit("break");
        assert("trait"@[0] != "break"@[0]);
        reveal_strlit("continue");
        assert("trait"@.len() != "continue"@.len());
        reveal_strlit("if");
        assert("trait"@.len() != "if"@.len());
        reveal_strlit("else");
        assert("trait"@.len() != "else"@.len());
        reveal_strlit("match");
        assert("trait"@[0] != "match"@[0]);
        reveal_strlit("for");
        assert("trait"@.len() != "for"@.len());
        reveal_strlit("while");
        assert("trait"@[0] != "while"@[0]);
        reveal_strlit("loop");
        assert("trait"@.len() != "loop"@.len());
        reveal_strlit("in");
        assert("trait"@.len() != "in"@.len());
        reveal_strlit("where");
        assert("trait"@[0] != "where"@[0]);
        reveal_strlit("struct");
        assert("trait"@.len() != "struct"@.len());
        reveal_strlit("data");
        assert("trait"@.len() != "data"@.len());
        reveal_strlit("enum");
        assert("trait"@.len() != "enum"@.len());
    }
    assert(labels[26] == "trait"@);
    assert(keyword_kind("impl"@) == Some(TokenKind::Impl)) by {
        reveal_strlit("impl");
        reveal_strlit("package");
        assert("impl"@.len() != "package"@.len());
        reveal_strlit("use");
        assert("impl"@.len() != "use"@.len());
        reveal_strlit("pub");
        assert("impl"@.len() != "pub"@.len());
        reveal_strlit("const");
        assert("impl"@.len() != "const"@.len());
        reveal_strlit("static");
        assert("impl"@.len() != "static"@.len());
        reveal_strlit("let");
        assert("impl"@.len() != "let"@.len());
        reveal_strlit("var");
        assert("impl"@.len() != "var"@.len());
        reveal_strlit("fn");
        assert("impl"@.len() != "fn"@.len());
        reveal_strlit("async");
        assert("impl"@.len() != "async"@.len());
        reveal_strlit("await");
        assert("impl"@.len() != "await"@.len());
        reveal_strlit("spawn");
        assert("impl"@.len() != "spawn"@.len());
        reveal_strlit("defer");
        assert("impl"@.len() != "defer"@.len());
        reveal_strlit("return");
        assert("impl"@.len() != "return"@.len());
        reveal_strlit("break");
        assert("impl"@.len() != "break"@.len());
        reveal_strlit("continue");
        assert("impl"@.len() != "continue"@.len());
        reveal_strlit("if");
        assert("impl"@.len() != "if"@.len());
        reveal_strlit("else");
        assert("impl"@[0] != "else"@[0]);
        reveal_strlit("match");
        assert("impl"@.len() != "match"@.len());
        reveal_strlit("for");
        assert("impl"@.len() != "for"@.len());
        reveal_strlit("while");
        assert("impl"@.len() != "while"@.len());
        reveal_strlit("loop");
        assert("impl"@[0] != "loop"@[0]);
        reveal_strlit("in");
        assert("impl"@.len() != "in"@.len());
        reveal_strlit("where");
        assert("impl"@.len() != "where"@.len());
        reveal_strlit("struct");
        assert("impl"@.len() != "struct"@.len());
        reveal_strlit("data");
        assert("impl"@[0] != "data"@[0]);
        reveal_strlit("enum");
        assert("impl"@[0] != "enum"@[0]);
        reveal_strlit("trait");
        assert("impl"@.len() != "trait"@.len());
    }
    assert(labels[27] == "impl"@);
    assert(keyword_kind("extend"@) == Some(TokenKind::Extend)) by {
        reveal_strlit("extend");
        reveal_strlit("package");
        assert("extend"@.len() != "package"@.len());
        reveal_strlit("use");
        assert("extend"@.len() != "use"@.len());
        reveal_strlit("pub");
        assert("extend"@.len() != "pub"@.len());
        reveal_strlit("const");
        assert("extend"@.len() != "const"@.len());
        reveal_strlit("static");
        assert("extend"@[0] != "static"@[0]);
        reveal_strlit("let");
        assert("extend"@.len() != "let"@.len());
        reveal_strlit("var");
        assert("extend"@.len() != "var"@.len());
        reveal_strlit("fn");
        assert("extend"@.len() != "fn"@.len());
        reveal_strlit("async");
        assert("extend"@.len() != "async"@.len());
        reveal_strlit("await");
        assert("extend"@.len() != "await"@.len());
        reveal_strlit("spawn");
        assert("extend"@.len() != "spawn"@.len());
        reveal_strlit("defer");
        assert("extend"@.len() != "defer"@.len());
        reveal_strlit("return");
        assert("extend"@[0] != "return"@[0]);
        reveal_strlit("break");
        assert("extend"@.len() != "break"@.len());
        reveal_strlit("continue");
        assert("extend"@.len() != "continue"@.len());
        reveal_strlit("if");
        assert("extend"@.len() != "if"@.len());
        reveal_strlit("else");
        assert("extend"@.len() != "else"@.len());
        reveal_strlit("match");
        assert("extend"@.len() != "match"@.len());
        reveal_strlit("for");
        assert("extend"@.len() != "for"@.len());
        reveal_strlit("while");
        assert("extend"@.len() != "while"@.len());
        reveal_strlit("loop");
        assert("extend"@.len() != "loop"@.len());
        reveal_strlit("in");
        assert("extend"@.len() != "in"@.len());
        reveal_strlit("where");
        assert("extend"@.len() != "where"@.len());
        reveal_strlit("struct");
        assert("extend"@[0] != "struct"@[0]);
        reveal_strlit("data");
        assert("extend"@.len() != "data"@.len());
        reveal_strlit("enum");
        assert("extend"@.len() != "enum"@.len());
        reveal_strlit("trait");
        assert("extend"@.len() != "trait"@.len());
        reveal_strlit("impl");
        assert("extend"@.len() != "impl"@.len());
    }
    assert(labels[28] == "extend"@);
    assert(keyword_kind("type"@) == Some(TokenKind::Type)) by {
        reveal_strlit("type");
        reveal_strlit("package");
        assert("type"@.len() != "package"@.len());
        reveal_strlit("use");
        assert("type"@.len() != "use"@.len());
        reveal_strlit("pub");
        assert("type"@.len() != "pub"@.len());
        reveal_strlit("const");
        assert("type"@.len() != "const"@.len());
        reveal_strlit("static");
        assert("type"@.len() != "static"@.len());
        reveal_strlit("let");
        assert("type"@.len() != "let"@.len());
        reveal_strlit("var");
        assert("type"@.len() != "var"@.len());
        reveal_strlit("fn");
        assert("type"@.len() != "fn"@.len());
        reveal_strlit("async");
        assert("type"@.len() != "async"@.len());
        reveal_strlit("await");
        assert("type"@.len() != "await"@.len());
        reveal_strlit("spawn");
        assert("type"@.len() != "spawn"@.len());
        reveal_strlit("defer");
        assert("type"@.len() != "defer"@.len());
        reveal_strlit("return");
        assert("type"@.len() != "return"@.len());
        reveal_strlit("break");
        assert("type"@.len() != "break"@.len());
        reveal_strlit("continue");
        assert("type"@.len() != "continue"@.len());
        reveal_strlit("if");
        assert("type"@.len() != "if"@.len());
        reveal_strlit("else");
        assert("type"@[0] != "else"@[0]);
        reveal_strlit("match");
        assert("type"@.len() != "match"@.len());
        reveal_strlit("for");
        assert("type"@.len() != "for"@.len());
        reveal_strlit("while");
        assert("type"@.len() != "while"@.len());
        reveal_strlit("loop");
        assert("type"@[0] != "loop"@[0]);
        reveal_strlit("in");
        assert("type"@.len() != "in"@.len());
        reveal_strlit("where");
        assert("type"@.len() != "where"@.len());
        reveal_strlit("struct");
        assert("type"@.len() != "struct"@.len());
        reveal_strlit("data");
        assert("type"@[0] != "data"@[0]);
        reveal_strlit("enum");
        assert("type"@[0] != "enum"@[0]);
        reveal_strlit("trait");
        assert("type"@.len() != "trait"@.len());
        reveal_strlit("impl");
        assert("type"@[0] != "impl"@[0]);
        reveal_strlit("extend");
        assert("type"@.len() != "extend"@.len());
    }
    assert(labels[29] == "type"@);
    assert(keyword_kind("opaque"@) == Some(TokenKind::Opaque)) by {
        reveal_strlit("opaque");
        reveal_strlit("package");
        assert("opaque"@.len() != "package"@.len());
        reveal_strlit("use");
        assert("opaque"@.len() != "use"@.len());
        reveal_strlit("pub");
        assert("opaque"@.len() != "pub"@.len());
        reveal_strlit("const");
        assert("opaque"@.len() != "const"@.len());
        reveal_strlit("static");
        assert("opaque"@[0] != "static"@[0]);
        reveal_strlit("let");
        assert("opaque"@.len() != "let"@.len());
        reveal_strlit("var");
        assert("opaque"@.len() != "var"@.len());
        reveal_strlit("fn");
        assert("opaque"@.len() != "fn"@.len());
        reveal_strlit("async");
        assert("opaque"@.len() != "async"@.len());
        reveal_strlit("await");
        assert("opaque"@.len() != "await"@.len());
        reveal_strlit("spawn");
        assert("opaque"@.len() != "spawn"@.len());
        reveal_strlit("defer");
        assert("opaque"@.len() != "defer"@.len());
        reveal_strlit("return");
        assert("opaque"@[0] != "return"@[0]);
        reveal_strlit("break");
        assert("opaque"@.len() != "break"@.len());
        reveal_strlit("continue");
        assert("opaque"@.len() != "continue"@.len());
        reveal_strlit("if");
        assert("opaque"@.len() != "if"@.len());
        reveal_strlit("else");
        assert("opaque"@.len() != "else"@.len());
        reveal_strlit("match");
        assert("opaque"@.len() != "match"@.len());
        reveal_strlit("for");
        assert("opaque"@.len() != "for"@.len());
        reveal_strlit("while");
        assert("opaque"@.len() != "while"@.len());
        reveal_strlit("loop");
        assert("opaque"@.len() != "loop"@.len());
        reveal_strlit("in");
        assert("opaque"@.len() != "in"@.len());
        reveal_strlit("where");
        assert("opaque"@.len() != "where"@.len());
        reveal_strlit("struct");
        assert("opaque"@[0] != "struct"@[0]);
        reveal_strlit("data");
        assert("opaque"@.len() != "data"@.len());
        reveal_strlit("enum");
        assert("opaque"@.len() != "enum"@.len());
        reveal_strlit("trait");
        assert("opaque"@.len() != "trait"@.len());
        reveal_strlit("impl");
        assert("opaque"@.len() != "impl"@.len());
        reveal_strlit("extend");
        assert("opaque"@[0] != "extend"@[0]);
        reveal_strlit("type");
        assert("opaque"@.len() != "type"@.len());
    }
    assert(labels[30] == "opaque"@);
    assert(keyword_kind("extern"@) == Some(TokenKind::Extern)) by {
        reveal_strlit("extern");
        reveal_strlit("package");
        assert("extern"@.len() != "package"@.len());
        reveal_strlit("use");
        assert("extern"@.len() != "use"@.len());
        reveal_strlit("pub");
        assert("extern"@.len() != "pub"@.len());
        reveal_strlit("const");
        assert("extern"@.len() != "const"@.len());
        reveal_strlit("static");
        assert("extern"@[0] != "static"@[0]);
        reveal_strlit("let");
        assert("extern"@.len() != "let"@.len());
        reveal_strlit("var");
        assert("extern"@.len() != "var"@.len());
        reveal_strlit("fn");
        assert("extern"@.len() != "fn"@.len());
        reveal_strlit("async");
        assert("extern"@.len() != "async"@.len());
        reveal_strlit("await");
        assert("extern"@.len() != "await"@.len());
        reveal_strlit("spawn");
        assert("extern"@.len() != "spawn"@.len());
        reveal_strlit("defer");
        assert("extern"@.len() != "defer"@.len());
        reveal_strlit("return");
        assert("extern"@[0] != "return"@[0]);
        reveal_strlit("break");
        assert("extern"@.len() != "break"@.len());
        reveal_strlit("continue");
        assert("extern"@.len() != "continue"@.len());
        reveal_strlit("if");
        assert("extern"@.len() != "if"@.len());
        reveal_strlit("else");
        assert("extern"@.len() != "else"@.len());
        reveal_strlit("match");
        assert("extern"@.len() != "match"@.len());
        reveal_strlit("for");
        assert("extern"@.len() != "for"@.len());
        reveal_strlit("while");
        assert("extern"@.len() != "while"@.len());
        reveal_strlit("loop");
        assert("extern"@.len() != "loop"@.len());
        reveal_strlit("in");
        assert("extern"@.len() != "in"@.len());
        reveal_strlit("where");
        assert("extern"@.len() != "where"@.len());
        reveal_strlit("struct");
        assert("extern"@[0] != "struct"@[0]);
        reveal_strlit("data");
        assert("extern"@.len() != "data"@.len());
        reveal_strlit("enum");
        assert("extern"@.len() != "enum"@.len());
        reveal_strlit("trait");
        assert("extern"@.len() != "trait"@.len());
        reveal_strlit("impl");
        assert("extern"@.len() != "impl"@.len());
        reveal_strlit("extend");
        assert("extern"@[4] != "extend"@[4]);
        reveal_strlit("type");
        assert("extern"@.len() != "type"@.len());
        reveal_strlit("opaque");
        assert("extern"@[0] != "opaque"@[0]);
    }
    assert(labels[31] == "extern"@);
    assert(keyword_kind("unsafe"@) == Some(TokenKind::Unsafe)) by {
        reveal_strlit("unsafe");
        reveal_strlit("package");
        assert("unsafe"@.len() != "package"@.len());
        reveal_strlit("use");
        assert("unsafe"@.len() != "use"@.len());
        reveal_strlit("pub");
        assert("unsafe"@.len() != "pub"@.len());
        reveal_strlit("const");
        assert("unsafe"@.len() != "const"@.len());
        reveal_strlit("static");
        assert("unsafe"@[0] != "static"@[0]);
        reveal_strlit("let");
        assert("unsafe"@.len() != "let"@.len());
        reveal_strlit("var");
        assert("unsafe"@.len() != "var"@.len());
        reveal_strlit("fn");
        assert("unsafe"@.len() != "fn"@.len());
        reveal_strlit("async");
        assert("unsafe"@.len() != "async"@.len());
        reveal_strlit("await");
        assert("unsafe"@.len() != "await"@.len());
        reveal_strlit("spawn");
        assert("unsafe"@.len() != "spawn"@.len());
        reveal_strlit("defer");
        assert("unsafe"@.len() != "defer"@.len());
        reveal_strlit("return");
        assert("unsafe"@[0] != "return"@[0]);
        reveal_strlit("break");
        assert("unsafe"@.len() != "break"@.len());
        reveal_strlit("continue");
        assert("unsafe"@.len() != "continue"@.len());
        reveal_strlit("if");
        assert("unsafe"@.len() != "if"@.len());
        reveal_strlit("else");
        assert("unsafe"@.len() != "else"@.len());
        reveal_strlit("match");
        assert("unsafe"@.len() != "match"@.len());
        reveal_strlit("for");
        assert("unsafe"@.len() != "for"@.len());
        reveal_strlit("while");
        assert("unsafe"@.len() != "while"@.len());
        reveal_strlit("loop");
        assert("unsafe"@.len() != "loop"@.len());
        reveal_strlit("in");
        assert("unsafe"@.len() != "in"@.len());
        reveal_strlit("where");
        assert("unsafe"@.len() != "where"@.len());
        reveal_strlit("struct");
        assert("unsafe"@[0] != "struct"@[0]);
        reveal_strlit("data");
        assert("unsafe"@.len() != "data"@.len());
        reveal_strlit("enum");
        assert("unsafe"@.len() != "enum"@.len());
        reveal_strlit("trait");
        assert("unsafe"@.len() != "trait"@.len());
        reveal_strlit("impl");
        assert("unsafe"@.len() != "impl"@.len());
        reveal_strlit("extend");
        assert("unsafe"@[0] != "extend"@[0]);
        reveal_strlit("type");
        assert("unsafe"@.len() != "type"@.len());
        reveal_strlit("opaque");
        assert("unsafe"@[0] != "opaque"@[0]);
        reveal_strlit("extern");
        assert("unsafe"@[0] != "extern"@[0]);
    }
    assert(labels[32] == "unsafe"@);
    assert(keyword_kind("is"@) == Some(TokenKind::Is)) by {
        reveal_strlit("is");
        reveal_strlit("package");
        assert("is"@.len() != "package"@.len());
        reveal_strlit("use");
        assert("is"@.len() != "use"@.len());
        reveal_strlit("pub");
        assert("is"@.len() != "pub"@.len());
        reveal_strlit("const");
        assert("is"@.len() != "const"@.len());
        reveal_strlit("static");
        assert("is"@.len() != "static"@.len());
        reveal_strlit("let");
        assert("is"@.len() != "let"@.len());
        reveal_strlit("var");
        assert("is"@.len() != "var"@.len());
        reveal_strlit("fn");
        assert("is"@[0] != "fn"@[0]);
        reveal_strlit("async");
        assert("is"@.len() != "async"@.len());
        reveal_strlit("await");
        assert("is"@.len() != "await"@.len());
        reveal_strlit("spawn");
        assert("is"@.len() != "spawn"@.len());
        reveal_strlit("defer");
        assert("is"@.len() != "defer"@.len());
        reveal_strlit("return");
        assert("is"@.len() != "return"@.len());
        reveal_strlit("break");
        assert("is"@.len() != "break"@.len());
        reveal_strlit("continue");
        assert("is"@.len() != "continue"@.len());
        reveal_strlit("if");
        assert("is"@[1] != "if"@[1]);
        reveal_strlit("else");
        assert("is"@.len() != "else"@.len());
        reveal_strlit("match");
        assert("is"@.len() != "match"@.len());
        reveal_strlit("for");
        assert("is"@.len() != "for"@.len());
        reveal_strlit("while");
        assert("is"@.len() != "while"@.len());
        reveal_strlit("loop");
        assert("is"@.len() != "loop"@.len());
        reveal_strlit("in");
        assert("is"@[1] != "in"@[1]);
        reveal_strlit("where");
        assert("is"@.len() != "where"@.len());
        reveal_strlit("struct");
        assert("is"@.len() != "struct"@.len());
        reveal_strlit("data");
        assert("is"@.len() != "data"@.len());
        reveal_strlit("enum");
        assert("is"@.len() != "enum"@.len());
        reveal_strlit("trait");
        assert("is"@.len() != "trait"@.len());
        reveal_strlit("impl");
        assert("is"@.len() != "impl"@.len());
        reveal_strlit("extend");
        assert("is"@.len() != "extend"@.len());
        reveal_strlit("type");
        assert("is"@.len() != "type"@.len());
        reveal_strlit("opaque");
        assert("is"@.len() != "opaque"@.len());
        reveal_strlit("extern");
        assert("is"@.len() != "extern"@.len());
        reveal_strlit("unsafe");
        assert("is"@.len() != "unsafe"@.len());
    }
    assert(labels[33] == "is"@);
    assert(keyword_kind("as"@) == Some(TokenKind::As)) by {
        reveal_strlit("as");
        reveal_strlit("package");
        assert("as"@.len() != "package"@.len());
        reveal_strlit("use");
        assert("as"@.len() != "use"@.len());
        reveal_strlit("pub");
        assert("as"@.len() != "pub"@.len());
        reveal_strlit("const");
        assert("as"@.len() != "const"@.len());
        reveal_strlit("static");
        assert("as"@.len() != "static"@.len());
        reveal_strlit("let");
        assert("as"@.len() != "let"@.len());
        reveal_strlit("var");
        assert("as"@.len() != "var"@.len());
        reveal_strlit("fn");
        assert("as"@[0] != "fn"@[0]);
        reveal_strlit("async");
        assert("as"@.len() != "async"@.len());
        reveal_strlit("await");
        assert("as"@.len() != "await"@.len());
        reveal_strlit("spawn");
        assert("as"@.len() != "spawn"@.len());
        reveal_strlit("defer");
        assert("as"@.len() != "defer"@.len());
        reveal_strlit("return");
        assert("as"@.len() != "return"@.len());
        reveal_strlit("break");
        assert("as"@.len() != "break"@.len());
        reveal_strlit("continue");
        assert("as"@.len() != "continue"@.len());
        reveal_strlit("if");
        assert("as"@[0] != "if"@[0]);
        reveal_strlit("else");
        assert("as"@.len() != "else"@.len());
        reveal_strlit("match");
        assert("as"@.len() != "match"@.len());
        reveal_strlit("for");
        assert("as"@.len() != "for"@.len());
        reveal_strlit("while");
        assert("as"@.len() != "while"@.len());
        reveal_strlit("loop");
        assert("as"@.len() != "loop"@.len());
        reveal_strlit("in");
        assert("as"@[0] != "in"@[0]);
        reveal_strlit("where");
        assert("as"@.len() != "where"@.len());
        reveal_strlit("struct");
        assert("as"@.len() != "struct"@.len());
        reveal_strlit("data");
        assert("as"@.len() != "data"@.len());
        reveal_strlit("enum");
        assert("as"@.len() != "enum"@.len());
        reveal_strlit("trait");
        assert("as"@.len() != "trait"@.len());
        reveal_strlit("impl");
        assert("as"@.len() != "impl"@.len());
        reveal_strlit("extend");
        assert("as"@.len() != "extend"@.len());
        reveal_strlit("type");
        assert("as"@.len() != "type"@.len());
        reveal_strlit("opaque");
        assert("as"@.len() != "opaque"@.len());
        reveal_strlit("extern");
        assert("as"@.len() != "extern"@.len());
        reveal_strlit("unsafe");
        assert("as"@.len() != "unsafe"@.len());
        reveal_strlit("is");
        assert("as"@[0] != "is"@[0]);
    }
    assert(labels[34] == "as"@);
    assert(keyword_kind("satisfies"@) == Some(TokenKind::Satisfies)) by {
        reveal_strlit("satisfies");
        reveal_strlit("package");
        assert("satisfies"@.len() != "package"@.len());
        reveal_strlit("use");
        assert("satisfies"@.len() != "use"@.len());
        reveal_strlit("pub");
        assert("satisfies"@.len() != "pub"@.len());
        reveal_strlit("const");
        assert("satisfies"@.len() != "const"@.len());
        reveal_strlit("static");
        assert("satisfies"@.len() != "static"@.len());
        reveal_strlit("let");
        assert("satisfies"@.len() != "let"@.len());
        reveal_strlit("var");
        assert("satisfies"@.len() != "var"@.len());
        reveal_strlit("fn");
        assert("satisfies"@.len() != "fn"@.len());
        reveal_strlit("async");
        assert("satisfies"@.len() != "async"@.len());
        reveal_strlit("await");
        assert("satisfies"@.len() != "await"@.len());
        reveal_strlit("spawn");
        assert("satisfies"@.len() != "spawn"@.len());
        reveal_strlit("defer");
        assert("satisfies"@.len() != "defer"@.len());
        reveal_strlit("return");
        assert("satisfies"@.len() != "return"@.len());
        reveal_strlit("break");
        assert("satisfies"@.len() != "break"@.len());
        reveal_strlit("continue");
        assert("satisfies"@.len() != "continue"@.len());
        reveal_strlit("if");
        assert("satisfies"@.len() != "if"@.len());
        reveal_strlit("else");
        assert("satisfies"@.len() != "else"@.len());
        reveal_strlit("match");
        assert("satisfies"@.len() != "match"@.len());
        reveal_strlit("for");
        assert("satisfies"@.len() != "for"@.len());
        reveal_strlit("while");
        assert("satisfies"@.len() != "while"@.len());
        reveal_strlit("loop");
        assert("satisfies"@.len() != "loop"@.len());
        reveal_strlit("in");
        assert("satisfies"@.len() != "in"@.len());
        reveal_strlit("where");
        assert("satisfies"@.len() != "where"@.len());
        reveal_strlit("struct");
        assert("satisfies"@.len() != "struct"@.len());
        reveal_strlit("data");
        assert("satisfies"@.len() != "data"@.len());
        reveal_strlit("enum");
        assert("satisfies"@.len() != "enum"@.len());
        reveal_strlit("trait");
        assert("satisfies"@.len() != "trait"@.len());
        reveal_strlit("impl");
        assert("satisfies"@.len() != "impl"@.len());
        reveal_strlit("extend");
        assert("satisfies"@.len() != "extend"@.len());
        reveal_strlit("type");
        assert("satisfies"@.len() != "type"@.len());
        reveal_strlit("opaque");
        assert("satisfies"@.len() != "opaque"@.len());
        reveal_strlit("extern");
        assert("satisfies"@.len() != "extern"@.len());
        reveal_strlit("unsafe");
        assert("satisfies"@.len() != "unsafe"@.len());
        reveal_strlit("is");
        assert("satisfies"@.len() != "is"@.len());
        reveal_strlit("as");
        assert("satisfies"@.len() != "as"@.len());
    }
    assert(labels[35] == "satisfies"@);
    assert(keyword_kind("none"@) == Some(TokenKind::NoneKw)) by {
        reveal_strlit("none");
        reveal_strlit("package");
        assert("none"@.len() != "package"@.len());
        reveal_strlit("use");
        assert("none"@.len() != "use"@.len());
        reveal_strlit("pub");
        assert("none"@.len() != "pub"@.len());
        reveal_strlit("const");
        assert("none"@.len() != "const"@.len());
        reveal_strlit("static");
        assert("none"@.len() != "static"@.len());
        reveal_strlit("let");
        assert("none"@.len() != "let"@.len());
        reveal_strlit("var");
        assert("none"@.len() != "var"@.len());
        reveal_strlit("fn");
        assert("none"@.len() != "fn"@.len());
        reveal_strlit("async");
        assert("none"@.len() != "async"@.len());
        reveal_strlit("await");
        assert("none"@.len() != "await"@.len());
        reveal_strlit("spawn");
        assert("none"@.len() != "spawn"@.len());
        reveal_strlit("defer");
        assert("none"@.len() != "defer"@.len());
        reveal_strlit("return");
        assert("none"@.len() != "return"@.len());
        reveal_strlit("break");
        assert("none"@.len() != "break"@.len());
        reveal_strlit("continue");
        assert("none"@.len() != "continue"@.len());
        reveal_strlit("if");
        assert("none"@.len() != "if"@.len());
        reveal_strlit("else");
        assert("none"@[0] != "else"@[0]);
        reveal_strlit("match");
        assert("none"@.len() != "match"@.len());
        reveal_strlit("for");
        assert("none"@.len() != "for"@.len());
        reveal_strlit("while");
        assert("none"@.len() != "while"@.len());
        reveal_strlit("loop");
        assert("none"@[0] != "loop"@[0]);
        reveal_strlit("in");
        assert("none"@.len() != "in"@.len());
        reveal_strlit("where");
        assert("none"@.len() != "where"@.len());
        reveal_strlit("struct");
        assert("none"@.len() != "struct"@.len());
        reveal_strlit("data");
        assert("none"@[0] != "data"@[0]);
        reveal_strlit("enum");
        assert("none"@[0] != "enum"@[0]);
        reveal_strlit("trait");
        assert("none"@.len() != "trait"@.len());
        reveal_strlit("impl");
        assert("none"@[0] != "impl"@[0]);
        reveal_strlit("extend");
        assert("none"@.len() != "extend"@.len());
        reveal_strlit("type");
        assert("none"@[0] != "type"@[0]);
        reveal_strlit("opaque");
        assert("none"@.len() != "opaque"@.len());
        reveal_strlit("extern");
        assert("none"@.len() != "extern"@.len());
        reveal_strlit("unsafe");
        assert("none"@.len() != "unsafe"@.len());
        reveal_strlit("is");
        assert("none"@.len() != "is"@.len());
        reveal_strlit("as");
        assert("none"@.len() != "as"@.len());
        reveal_strlit("satisfies");
        assert("none"@.len() != "satisfies"@.len());
    }
    assert(labels[36] == "none"@);
    assert(keyword_kind("true"@) == Some(TokenKind::TrueKw)) by {
        reveal_strlit("true");
        reveal_strlit("package");
        assert("true"@.len() != "package"@.len());
        reveal_strlit("use");
        assert("true"@.len() != "use"@.len());
        reveal_strlit("pub");
        assert("true"@.len() != "pub"@.len());
        reveal_strlit("const");
        assert("true"@.len() != "const"@.len());
        reveal_strlit("static");
        assert("true"@.len() != "static"@.len());
        reveal_strlit("let");
        assert("true"@.len() != "let"@.len());
        reveal_strlit("var");
        assert("true"@.len() != "var"@.len());
        reveal_strlit("fn");
        assert("true"@.len() != "fn"@.len());
        reveal_strlit("async");
        assert("true"@.len() != "async"@.len());
        reveal_strlit("await");
        assert("true"@.len() != "await"@.len());
        reveal_strlit("spawn");
        assert("true"@.len() != "spawn"@.len());
        reveal_strlit("defer");
        assert("true"@.len() != "defer"@.len());
        reveal_strlit("return");
        assert("true"@.len() != "return"@.len());
        reveal_strlit("break");
        assert("true"@.len() != "break"@.len());
        reveal_strlit("continue");
        assert("true"@.len() != "continue"@.len());
        reveal_strlit("if");
        assert("true"@.len() != "if"@.len());
        reveal_strlit("else");
        assert("true"@[0] != "else"@[0]);
        reveal_strlit("match");
        assert("true"@.len() != "match"@.len());
        reveal_strlit("for");
        assert("true"@.len() != "for"@.len());
        reveal_strlit("while");
        assert("true"@.len() != "while"@.len());
        reveal_strlit("loop");
        assert("true"@[0] != "loop"@[0]);
        reveal_strlit("in");
        assert("true"@.len() != "in"@.len());
        reveal_strlit("where");
        assert("true"@.len() != "where"@.len());
        reveal_strlit("struct");
        assert("true"@.len() != "struct"@.len());
        reveal_strlit("data");
        assert("true"@[0] != "data"@[0]);
        reveal_strlit("enum");
        assert("true"@[0] != "enum"@[0]);
        reveal_strlit("trait");
        assert("true"@.len() != "trait"@.len());
        reveal_strlit("impl");
        assert("true"@[0] != "impl"@[0]);
        reveal_strlit("extend");
        assert("true"@.len() != "extend"@.len());
        reveal_strlit("type");
        assert("true"@[1] != "type"@[1]);
        reveal_strlit("opaque");
        assert("true"@.len() != "opaque"@.len());
        reveal_strlit("extern");
        assert("true"@.len() != "extern"@.len());
        reveal_strlit("unsafe");
        assert("true"@.len() != "unsafe"@.len());
        reveal_strlit("is");
        assert("true"@.len() != "is"@.len());
        reveal_strlit("as");
        assert("true"@.len() != "as"@.len());
        reveal_strlit("satisfies");
        assert("true"@.len() != "satisfies"@.len());
        reveal_strlit("none");
        assert("true"@[0] != "none"@[0]);
    }
    assert(labels[37] == "true"@);
    assert(keyword_kind("false"@) == Some(TokenKind::FalseKw)) by {
        reveal_strlit("false");
        reveal_strlit("package");
        assert("false"@.len() != "package"@.len());
        reveal_strlit("use");
        assert("false"@.len() != "use"@.len());
        reveal_strlit("pub");
        assert("false"@.len() != "pub"@.len());
        reveal_strlit("const");
        assert("false"@[0] != "const"@[0]);
        reveal_strlit("static");
        assert("false"@.len() != "static"@.len());
        reveal_strlit("let");
        assert("false"@.len() != "let"@.len());
        reveal_strlit("var");
        assert("false"@.len() != "var"@.len());
        reveal_strlit("fn");
        assert("false"@.len() != "fn"@.len());
        reveal_strlit("async");
        assert("false"@[0] != "async"@[0]);
        reveal_strlit("await");
        assert("false"@[0] != "await"@[0]);
        reveal_strlit("spawn");
        assert("false"@[0] != "spawn"@[0]);
        reveal_strlit("defer");
        assert("false"@[0] != "defer"@[0]);
        reveal_strlit("return");
        assert("false"@.len() != "return"@.len());
        reveal_strlit("break");
        assert("false"@[0] != "break"@[0]);
        reveal_strlit("continue");
        assert("false"@.len() != "continue"@.len());
        reveal_strlit("if");
        assert("false"@.len() != "if"@.len());
        reveal_strlit("else");
        assert("false"@.len() != "else"@.len());
        reveal_strlit("match");
        assert("false"@[0] != "match"@[0]);
        reveal_strlit("for");
        assert("false"@.len() != "for"@.len());
        reveal_strlit("while");
        assert("false"@[0] != "while"@[0]);
        reveal_strlit("loop");
        assert("false"@.len() != "loop"@.len());
        reveal_strlit("in");
        assert("false"@.len() != "in"@.len());
        reveal_strlit("where");
        assert("false"@[0] != "where"@[0]);
        reveal_strlit("struct");
        assert("false"@.len() != "struct"@.len());
        reveal_strlit("data");
        assert("false"@.len() != "data"@.len());
        reveal_strlit("enum");
        assert("false"@.len() != "enum"@.len());
        reveal_strlit("trait");
        assert("false"@[0] != "trait"@[0]);
        reveal_strlit("impl");
        assert("false"@.len() != "impl"@.len());
        reveal_strlit("extend");
        assert("false"@.len() != "extend"@.len());
        reveal_strlit("type");
        assert("false"@.len() != "type"@.len());
        reveal_strlit("opaque");
        assert("false"@.len() != "opaque"@.len());
        reveal_strlit("extern");
        assert("false"@.len() != "extern"@.len());
        reveal_strlit("unsafe");
        assert("false"@.len() != "unsafe"@.len());
        reveal_strlit("is");
        assert("false"@.len() != "is"@.len());
        reveal_strlit("as");
        assert("false"@.len() != "as"@.len());
        reveal_strlit("satisfies");
        assert("false"@.len() != "satisfies"@.len());
        reveal_strlit("none");
        assert("false"@.len() != "none"@.len());
        reveal_strlit("true");
        assert("false"@.len() != "true"@.len());
    }
    assert(labels[38] == "false"@);
    assert(keyword_kind("self"@) == Some(TokenKind::SelfKw)) by {
        reveal_strlit("self");
        reveal_strlit("package");
        assert("self"@.len() != "package"@.len());
        reveal_strlit("use");
        assert("self"@.len() != "use"@.len());
        reveal_strlit("pub");
        assert("self"@.len() != "pub"@.len());
        reveal_strlit("const");
        assert("self"@.len() != "const"@.len());
        reveal_strlit("static");
        assert("self"@.len() != "static"@.len());
        reveal_strlit("let");
        assert("self"@.len() != "let"@.len());
        reveal_strlit("var");
        assert("self"@.len() != "var"@.len());
        reveal_strlit("fn");
        assert("self"@.len() != "fn"@.len());
        reveal_strlit("async");
        assert("self"@.len() != "async"@.len());
        reveal_strlit("await");
        assert("self"@.len() != "await"@.len());
        reveal_strlit("spawn");
        assert("self"@.len() != "spawn"@.len());
        reveal_strlit("defer");
        assert("self"@.len() != "defer"@.len());
        reveal_strlit("return");
        assert("self"@.len() != "return"@.len());
        reveal_strlit("break");
        assert("self"@.len() != "break"@.len());
        reveal_strlit("continue");
        assert("self"@.len() != "continue"@.len());
        reveal_strlit("if");
        assert("self"@.len() != "if"@.len());
        reveal_strlit("else");
        assert("self"@[0] != "else"@[0]);
        reveal_strlit("match");
        assert("self"@.len() != "match"@.len());
        reveal_strlit("for");
        assert("self"@.len() != "for"@.len());
        reveal_strlit("while");
        assert("self"@.len() != "while"@.len());
        reveal_strlit("loop");
        assert("self"@[0] != "loop"@[0]);
        reveal_strlit("in");
        assert("self"@.len() != "in"@.len());
        reveal_strlit("where");
        assert("self"@.len() != "where"@.len());
        reveal_strlit("struct");
        assert("self"@.len() != "struct"@.len());
        reveal_strlit("data");
        assert("self"@[0] != "data"@[0]);
        reveal_strlit("enum");
        assert("self"@[0] != "enum"@[0]);
        reveal_strlit("trait");
        assert("self"@.len() != "trait"@.len());
        reveal_strlit("impl");
        assert("self"@[0] != "impl"@[0]);
        reveal_strlit("extend");
        assert("self"@.len() != "extend"@.len());
        reveal_strlit("type");
        assert("self"@[0] != "type"@[0]);
        reveal_strlit("opaque");
        assert("self"@.len() != "opaque"@.len());
        reveal_strlit("extern");
        assert("self"@.len() != "extern"@.len());
        reveal_strlit("unsafe");
        assert("self"@.len() != "unsafe"@.len());
        reveal_strlit("is");
        assert("self"@.len() != "is"@.len());
        reveal_strlit("as");
        assert("self"@.len() != "as"@.len());
        reveal_strlit("satisfies");
        assert("self"@.len() != "satisfies"@.len());
        reveal_strlit("none");
        assert("self"@[0] != "none"@[0]);
        reveal_strlit("true");
        assert("self"@[0] != "true"@[0]);
        reveal_strlit("false");
        assert("self"@.len() != "false"@.len());
    }
    assert(labels[39] == "self"@);
    assert(keyword_kind("move"@) == Some(TokenKind::MoveKw)) by {
        reveal_strlit("move");
        reveal_strlit("package");
        assert("move"@.len() != "package"@.len());
        reveal_strlit("use");
        assert("move"@.len() != "use"@.len());
        reveal_strlit("pub");
        assert("move"@.len() != "pub"@.len());
        reveal_strlit("const");
        assert("move"@.len() != "const"@.len());
        reveal_strlit("static");
        assert("move"@.len() != "static"@.len());
        reveal_strlit("let");
        assert("move"@.len() != "let"@.len());
        reveal_strlit("var");
        assert("move"@.len() != "var"@.len());
        reveal_strlit("fn");
        assert("move"@.len() != "fn"@.len());
        reveal_strlit("async");
        assert("move"@.len() != "async"@.len());
        reveal_strlit("await");
        assert("move"@.len() != "await"@.len());
        reveal_strlit("spawn");
        assert("move"@.len() != "spawn"@.len());
        reveal_strlit("defer");
        assert("move"@.len() != "defer"@.len());
        reveal_strlit("return");
        assert("move"@.len() != "return"@.len());
        reveal_strlit("break");
        assert("move"@.len() != "break"@.len());
        reveal_strlit("continue");
        assert("move"@.len() != "continue"@.len());
        reveal_strlit("if");
        assert("move"@.len() != "if"@.len());
        reveal_strlit("else");
        assert("move"@[0] != "else"@[0]);
        reveal_strlit("match");
        assert("move"@.len() != "match"@.len());
        reveal_strlit("for");
        assert("move"@.len() != "for"@.len());
        reveal_strlit("while");
        assert("move"@.len() != "while"@.len());
        reveal_strlit("loop");
        assert("move"@[0] != "loop"@[0]);
        reveal_strlit("in");
        assert("move"@.len() != "in"@.len());
        reveal_strlit("where");
        assert("move"@.len() != "where"@.len());
        reveal_strlit("struct");
        assert("move"@.len() != "struct"@.len());
        reveal_strlit("data");
        assert("move"@[0] != "data"@[0]);
        reveal_strlit("enum");
        assert("move"@[0] != "enum"@[0]);
        reveal_strlit("trait");
        assert("move"@.len() != "trait"@.len());
        reveal_strlit("impl");
        assert("move"@[0] != "impl"@[0]);
        reveal_strlit("extend");
        assert("move"@.len() != "extend"@.len());
        reveal_strlit("type");
        assert("move"@[0] != "type"@[0]);
        reveal_strlit("opaque");
        assert("move"@.len() != "opaque"@.len());
        reveal_strlit("extern");
        assert("move"@.len() != "extern"@.len());
        reveal_strlit("unsafe");
        assert("move"@.len() != "unsafe"@.len());
        reveal_strlit("is");
        assert("move"@.len() != "is"@.len());
        reveal_strlit("as");
        assert("move"@.len() != "as"@.len());
        reveal_strlit("satisfies");
        assert("move"@.len() != "satisfies"@.len());
        reveal_strlit("none");
        assert("move"@[0] != "none"@[0]);
        reveal_strlit("true");
        assert("move"@[0] != "true"@[0]);
        reveal_strlit("false");
        assert("move"@.len() != "false"@.len());
        reveal_strlit("self");
        assert("move"@[0] != "self"@[0]);
    }
    assert(labels[40] == "move"@);
    assert forall|i: int, j: int| 0 <= i < labels.len() && 0 <= j < labels.len() && i != j implies labels[i] != labels[j] by {
        if labels[i] == labels[j] {
            assert(keyword_kind(labels[i]) == keyword_kind(labels[j]));
        }
    }
    assert forall|s: Seq<char>| #[trigger] keyword_kind(s) is Some implies labels.contains(s) by {
        if s == "package"@ {
            assert(labels[0] == s);
        } else if s == "use"@ {
            assert(labels[1] == s);
        } else if s == "pub"@ {
            assert(labels[2] == s);
        } else if s == "const"@ {
            assert(labels[3] == s);
        } else if s == "static"@ {
            assert(labels[4] == s);
        } else if s == "let"@ {
            assert(labels[5] == s);
        } else if s == "var"@ {
            assert(labels[6] == s);
        } else if s == "fn"@ {
            assert(labels[7] == s);
        } else if s == "async"@ {
            assert(labels[8] == s);
        } else if s == "await"@ {
            assert(labels[9] == s);
        } else if s == "spawn"@ {
            assert(labels[10] == s);
        } else if s == "defer"@ {
            assert(labels[11] == s);
        } else if s == "return"@ {
            assert(labels[12] == s);
        } else if s == "break"@ {
            assert(labels[13] == s);
        } else if s == "continue"@ {
            assert(labels[14] == s);
        } else if s == "if"@ {
            assert(labels[15] == s);
        } else if s == "else"@ {
            assert(labels[16] == s);
        } else if s == "match"@ {
            assert(labels[17] == s);
        } else if s == "for"@ {
            assert(labels[18] == s);
        } else if s == "while"@ {
            assert(labels[19] == s);
        } else if s == "loop"@ {
            assert(labels[20] == s);
        } else if s == "in"@ {
            assert(labels[21] == s);
        } else if s == "where"@ {
            assert(labels[22] == s);
        } else if s == "struct"@ {
            assert(labels[23] == s);
        } else if s == "data"@ {
            assert(labels[24] == s);
        } else if s == "enum"@ {
            assert(labels[25] == s);
        } else if s == "trait"@ {
            assert(labels[26] == s);
        } else if s == "impl"@ {
            assert(labels[27] == s);
        } else if s == "extend"@ {
            assert(labels[28] == s);
        } else if s == "type"@ {
            assert(labels[29] == s);
        } else if s == "opaque"@ {
            assert(labels[30] == s);
        } else if s == "extern"@ {
            assert(labels[31] == s);
        } else if s == "unsafe"@ {
            assert(labels[32] == s);
        } else if s == "is"@ {
            assert(labels[33] == s);
        } else if s == "as"@ {
            assert(labels[34] == s);
        } else if s == "satisfies"@ {
            assert(labels[35] == s);
        } else if s == "none"@ {
            assert(labels[36] == s);
        } else if s == "true"@ {
            assert(labels[37] == s);
        } else if s == "false"@ {
            assert(labels[38] == s);
        } else if s == "self"@ {
            assert(labels[39] == s);
        } else if s == "move"@ {
            assert(labels[40] == s);
        }
    }
}

/// The keywords offered as completions, in order.
pub fn keyword_completion_labels() -> (labels: Vec<&'static str>)
    ensures
        labels@.map_values(|s: &str| s@) == keyword_labels_spec(),
{
    let mut labels: Vec<&'static str> = Vec::new();
    labels.push("package");
    labels.push("use");
    labels.push("pub");
    labels.push("const");
    labels.push("static");
    labels.push("let");
    labels.push("var");
    labels.push("fn");
    labels.push("async");
    labels.push("await");
    labels.push("spawn");
    labels.push("defer");
    labels.push("return");
    labels.push("break");
    labels.push("continue");
    labels.push("if");
    labels.push("else");
    labels.push("match");
    labels.push("for");
    labels.push("while");
    labels.push("loop");
    labels.push("in");
    labels.push("where");
    labels.push("struct");
    labels.push("data");
    labels.push("enum");
    labels.push("trait");
    labels.push("impl");
    labels.push("extend");
    labels.push("type");
    labels.push("opaque");
    labels.push("extern");
    labels.push("unsafe");
    labels.push("is");
    labels.push("as");
    labels.push("satisfies");
    labels.push("none");
    labels.push("true");
    labels.push("false");
    labels.push("self");
    labels.push("move");
    assert(labels@.map_values(|s: &str| s@) =~= keyword_labels_spec());
    labels
}

/// Snippet completions: a keyword label with its snippet text.
pub open spec fn keyword_snippets_spec() -> Seq<(Seq<char>, Seq<char>)> {
    seq![
        ("fn"@, "fn ${1:name}(${2}) -> ${3:Void} {\n    $0\n}"@),
        ("if"@, "if ${1:condition} {\n    $0\n}"@),
        ("match"@, "match ${1:value} {\n    ${2:_} => $0\n}"@),
        ("for"@, "for ${1:item} in ${2:items} {\n    $0\n}"@),
        ("struct"@, "struct ${1:Name} {\n    ${2:field}: ${3:Int},\n}"@),
        ("enum"@, "enum ${1:Name} {\n    ${2:Variant},\n}"@),
        ("impl"@, "impl ${1:Type} {\n    $0\n}"@),
    ]
}

/// Snippet completions: a keyword label with its snippet text.
pub fn keyword_snippets() -> (snippets: Vec<(&'static str, &'static str)>)
    ensures
        snippets@.map_values(|p: (&str, &str)| (p.0@, p.1@)) == keyword_snippets_spec(),
{
    let mut snippets: Vec<(&'static str, &'static str)> = Vec::new();
    snippets.push(("fn", "fn ${1:name}(${2}) -> ${3:Void} {\n    $0\n}"));
    snippets.push(("if", "if ${1:condition} {\n    $0\n}"));
    snippets.push(("match", "match ${1:value} {\n    ${2:_} => $0\n}"));
    snippets.push(("for", "for ${1:item} in ${2:items} {\n    $0\n}"));
    snippets.push(("struct", "struct ${1:Name} {\n    ${2:field}: ${3:Int},\n}"));
    snippets.push(("enum", "enum ${1:Name} {\n    ${2:Variant},\n}"));
    snippets.push(("impl", "impl ${1:Type} {\n    $0\n}"));
    assert(snippets@.map_values(|p: (&str, &str)| (p.0@, p.1@)) =~= keyword_snippets_spec());
    snippets
}

/// Delimiter pairs that fold: braces and brackets.
pub fn matching_delimiters(open: TokenKind, close: TokenKind) -> (matching: bool)
    ensures
        matching == ((open == TokenKind::LBrace && close == TokenKind::RBrace) || (open
            == TokenKind::LBracket && close == TokenKind::RBracket)),
{
    (open == TokenKind::LBrace && close == TokenKind::RBrace) || (open == TokenKind::LBracket
        && close == TokenKind::RBracket)
}

/// Char index of the `)` that brings the parenthesis depth, counted from
/// char index `k` at depth `depth`, back to zero.
pub open spec fn close_paren_scan(cs: Seq<char>, k: int, depth: int) -> Option<int>
    decreases cs.len() - k,
{
    if k < 0 || k >= cs.len() {
        None
    } else if cs[k] == '(' {
        close_paren_scan(cs, k + 1, depth + 1)
    } else if cs[k] == ')' {
        if depth - 1 == 0 {
            Some(k)
        } else {
            close_paren_scan(cs, k + 1, depth - 1)
        }
    } else {
        close_paren_scan(cs, k + 1, depth)
    }
}

/// `k` is the first char index whose byte offset is at least `offset`.
pub open spec fn is_first_at_or_after(cs: Seq<char>, offset: int, k: int) -> bool {
    &&& 0 <= k <= cs.len()
    &&& (k == cs.len() || byte_offset(cs, k) >= offset)
    &&& forall|j: int| 0 <= j < k ==> #[trigger] byte_offset(cs, j) < offset
}

/// First char index whose byte offset is at least `offset`.
pub open spec fn first_index_at_or_after(cs: Seq<char>, offset: int) -> int {
    choose|k: int| is_first_at_or_after(cs, offset, k)
}

/// The byte offset of the `)` matching the parenthesis structure that starts
/// at (or after) byte offset `open`.
pub open spec fn matching_close_paren_spec(cs: Seq<char>, open: int) -> Option<int> {
    match close_paren_scan(cs, first_index_at_or_after(cs, open), 0) {
        Some(k) => Some(byte_offset(cs, k) as int),
        None => None,
    }
}

/// Char index of the `)` closing the parenthesis structure scanned from `from`.
fn close_paren_index(cs: &Vec<char>, from: usize) -> (close: Option<usize>)
    requires
        from <= cs@.len(),
    ensures
        match close {
            Some(c) => close_paren_scan(cs@, from as int, 0) == Some(c as int) && from < c < cs@.len(),
            None => close_paren_scan(cs@, from as int, 0) is None,
        },
{
    let mut k = from;
    // The depth is `opens - closes`; each count stays below the char index.
    let mut opens: usize = 0;
    let mut closes: usize = 0;
    while k < cs.len()
        invariant
            from <= k <= cs@.len(),
            opens + closes <= k - from,
            close_paren_scan(cs@, from as int, 0) == close_paren_scan(cs@, k as int, opens - closes),
        decreases cs@.len() - k,
    {
        let ch = cs[k];
        if ch == '(' {
            opens = opens + 1;
        } else if ch == ')' {
            closes = closes + 1;
            if opens == closes {
                return Some(k);
            }
        }
        k = k + 1;
    }
    None
}

pub fn matching_close_paren(text: &str, open: usize) -> (close: Option<usize>)
    ensures
        match close {
            Some(c) => matching_close_paren_spec(text@, open as int) == Some(c as int),
            None => matching_close_paren_spec(text@, open as int) is None,
        },
{
    let ghost cs = text@;
    let cis = char_indices(text);
    let mut k: usize = 0;
    while k < cis.len() && cis[k].0 < open
        invariant
            are_char_indices(cis@, cs),
            k <= cs.len(),
            forall|j: int| 0 <= j < k ==> #[trigger] byte_offset(cs, j) < open,
        decreases cs.len() - k,
    {
        k = k + 1;
    }
    proof {
        assert(is_first_at_or_after(cs, open as int, k as int));
        let k0 = first_index_at_or_after(cs, open as int);
        assert(is_first_at_or_after(cs, open as int, k0));
        if k0 < k {
            assert(byte_offset(cs, k0) < open);
        } else if k < k0 {
            assert(byte_offset(cs, k as int) < open);
        }
    }
    let chars = source_chars(text);
    match close_paren_index(&chars, k) {
        Some(c) => {
            proof {
                crate::text::lemma_byte_offset_bound(cs, c as int);
            }
            Some(cis[c].0)
        },
        None => None,
    }
}

/// Pieces of `cs` between commas at parenthesis/bracket/brace depth zero,
/// scanning from char index `k` with the current piece starting at `start`.
pub open spec fn top_level_split(cs: Seq<char>, start: int, k: int, depth: int) -> Seq<Seq<char>>
    decreases cs.len() - k,
{
    if k < 0 || k >= cs.len() {
        seq![cs.subrange(start, cs.len() as int)]
    } else {
        let c = cs[k];
        if c == '(' || c == '[' || c == '{' {
            top_level_split(cs, start, k + 1, depth + 1)
        } else if c == ')' || c == ']' || c == '}' {
            top_level_split(cs, start, k + 1, depth - 1)
        } else if c == ',' && depth == 0 {
            seq![cs.subrange(start, k)] + top_level_split(cs, k + 1, k + 1, depth)
        } else {
            top_level_split(cs, start, k + 1, depth)
        }
    }
}

/// Splits `text` at the commas that are not nested in brackets.
pub fn split_top_level_commas(text: &str) -> (parts: Vec<String>)
    ensures
        parts@.map_values(|p: String| p@) == top_level_split(text@, 0, 0, 0),
{
    let cs = source_chars(text);
    let mut parts: Vec<String> = Vec::new();
    let mut start: usize = 0;
    // The depth is `opens - closes`; each count stays below the char index.
    let mut opens: usize = 0;
    let mut closes: usize = 0;
    let mut k: usize = 0;
    let ghost goal = top_level_split(text@, 0, 0, 0);
    while k < cs.len()
        invariant
            cs@ == text@,
            start <= k <= cs@.len(),
            opens + closes <= k,
            parts@.map_values(|p: String| p@) + top_level_split(text@, start as int, k as int, opens - closes)
                == goal,
        decreases cs@.len() - k,
    {
        let c = cs[k];
        let ghost depth = opens - closes;
        if c == '(' || c == '[' || c == '{' {
            opens = opens + 1;
        } else if c == ')' || c == ']' || c == '}' {
            closes = closes + 1;
        } else if c == ',' && opens == closes {
            let piece = string_from_chars(&cs, start, k);
            proof {
                assert(parts@.push(piece).map_values(|p: String| p@) =~= parts@.map_values(
                    |p: String| p@,
                ).push(piece@));
                assert(parts@.map_values(|p: String| p@).push(piece@) + top_level_split(text@, k + 1, k + 1, depth)
                    =~= parts@.map_values(|p: String| p@) + (seq![piece@] + top_level_split(text@, k + 1, k + 1, depth)));
            }
            parts.push(piece);
            start = k + 1;
        }
        k = k + 1;
    }
    let piece = string_from_chars(&cs, start, cs.len());
    proof {
        assert(parts@.push(piece).map_values(|p: String| p@) =~= parts@.map_values(|p: String| p@).push(
            piece@,
        ));
    }
    parts.push(piece);
    parts
}

/// Parameter texts of a signature: the top-level comma-separated pieces
/// between the first `(` and its matching `)`, trimmed, empty ones dropped.
pub open spec fn signature_parameters_spec(cs: Seq<char>) -> Seq<Seq<char>> {
    match find_char(cs, '(') {
        None => seq![],
        Some(i) => match close_paren_scan(cs, i, 0) {
            None => seq![],
            Some(j) => top_level_split(cs.subrange(i + 1, j), 0, 0, 0).filter(
                |p: Seq<char>| trim_spec(p).len() > 0,
            ).map_values(|p: Seq<char>| trim_spec(p)),
        },
    }
}

pub fn signature_parameters(detail: &str) -> (params: Vec<String>)
    ensures
        params@.map_values(|p: String| p@) == signature_parameters_spec(detail@),
{
    let cs = source_chars(detail);
    let start = match find_char_from(&cs, 0, '(') {
        Some(i) => i,
        None => {
            proof {
                assert(cs@.skip(0) =~= cs@);
            }
            return Vec::new();
        },
    };
    proof {
        assert(cs@.skip(0) =~= cs@);
        lemma_find_char(cs@, '(');
    }
    let end = match close_paren_index(&cs, start) {
        Some(e) => e,
        None => {
            return Vec::new();
        },
    };
    assert(close_paren_scan(cs@, start as int, 0) == Some(end as int));
    assert(start < end);
    let inner = string_from_chars(&cs, start + 1, end);
    let parts = split_top_level_commas(inner.as_str());
    let ghost pieces = top_level_split(cs@.subrange(start + 1, end as int), 0, 0, 0);
    let mut params: Vec<String> = Vec::new();
    let mut i: usize = 0;
    assert(pieces.take(0).filter(|p: Seq<char>| trim_spec(p).len() > 0) =~= Seq::<Seq<char>>::empty());
    while i < parts.len()
        invariant
            parts@.map_values(|p: String| p@) == pieces,
            i <= parts@.len(),
            params@.map_values(|p: String| p@) == pieces.take(i as int).filter(
                |p: Seq<char>| trim_spec(p).len() > 0,
            ).map_values(|p: Seq<char>| trim_spec(p)),
        decreases parts@.len() - i,
    {
        let pc = source_chars(parts[i].as_str());
        assert(pc@.subrange(0, pc@.len() as int) =~= pc@);
        let (a, b) = trim_bounds(&pc, 0, pc.len());
        proof {
            assert(pieces[i as int] == parts@[i as int]@);
            assert(pieces.take(i + 1).drop_last() =~= pieces.take(i as int));
            pieces.take(i as int).lemma_filter_push(pieces[i as int], |p: Seq<char>| trim_spec(p).len() > 0);
            assert(pieces.take(i + 1) =~= pieces.take(i as int).push(pieces[i as int]));
        }
        if a < b {
            let t = string_from_chars(&pc, a, b);
            proof {
                assert(params@.push(t).map_values(|p: String| p@) =~= params@.map_values(
                    |p: String| p@,
                ).push(t@));
            }
            params.push(t);
        }
        i = i + 1;
    }
    proof {
        assert(pieces.take(parts@.len() as int) =~= pieces);
    }
    params
}

} // verus!
