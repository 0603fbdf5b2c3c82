use qlang::ast::{
    BinaryOp, Block, CallArg, ClosureParam, EnumDecl, EnumVariant, Expr, ExtendBlock, ExternBlock,
    FunctionDecl, GenericParam, GlobalDecl, ImplBlock, Item, MatchArm, Module, PackageDecl, Param,
    Path, Pattern, PatternField, ReceiverKind, Stmt, StructDecl, StructField, StructLiteralField,
    TraitDecl, TypeAliasDecl, TypeExpr, UnaryOp, UseDecl, UseItem, VariantField, VariantFields,
    Visibility, WherePredicate,
};
use qlang::fmt_expr::{format_block, format_expr};
use qlang::fmt_item::{format_item, format_module};

fn path(segments: &[&str]) -> Path {
    Path { segments: segments.iter().map(|s| s.to_string()).collect() }
}

fn named(name: &str) -> TypeExpr {
    TypeExpr::Named { path: path(&[name]), args: vec![] }
}

fn name(text: &str) -> Expr {
    Expr::Name(text.to_string())
}

fn boxed(expr: Expr) -> Box<Expr> {
    Box::new(expr)
}

fn regular(param: &str, ty: TypeExpr) -> Param {
    Param::Regular { name: param.to_string(), ty }
}

fn function(name: &str, params: Vec<Param>, return_type: Option<TypeExpr>, body: Option<Block>) -> FunctionDecl {
    FunctionDecl {
        abi: None,
        visibility: Visibility::Private,
        is_unsafe: false,
        is_async: false,
        name: name.to_string(),
        generics: vec![],
        params,
        return_type,
        where_clause: vec![],
        body,
    }
}

fn block(statements: Vec<Stmt>, tail: Option<Expr>) -> Block {
    Block { statements, tail: tail.map(Box::new) }
}

fn module_of(items: Vec<Item>) -> Module {
    Module { package: None, uses: vec![], items }
}

fn expr_text(expr: &Expr) -> String {
    let mut out = String::new();
    format_expr(expr, 0, &mut out);
    out
}

#[test]
fn formatted_extern_function_definition_keeps_abi_and_body() {
    let mut decl = function(
        "q_add",
        vec![regular("left", named("Int")), regular("right", named("Int"))],
        Some(named("Int")),
        Some(block(
            vec![Stmt::Return(Some(Expr::Binary {
                left: boxed(name("left")),
                op: BinaryOp::Add,
                right: boxed(name("right")),
            }))],
            None,
        )),
    );
    decl.abi = Some("c".to_string());
    decl.visibility = Visibility::Public;
    let formatted = format_module(&module_of(vec![Item::Function(decl)]));
    assert_eq!(formatted, "extern \"c\" pub fn q_add(left: Int, right: Int) -> Int {\n    return left + right\n}\n");
}

#[test]
fn keyword_identifiers_are_written_between_backticks() {
    let decl = function(
        "keyword_passthrough",
        vec![regular("type", named("String"))],
        Some(named("String")),
        Some(block(
            vec![
                Stmt::Let {
                    mutable: false,
                    pattern: Pattern::Name("_value".to_string()),
                    ty: None,
                    value: name("type"),
                },
                Stmt::Return(Some(name("_value"))),
            ],
            None,
        )),
    );
    let formatted = format_module(&module_of(vec![Item::Function(decl)]));
    assert!(formatted.contains("fn keyword_passthrough(`type`: String) -> String"));
    assert!(formatted.contains("let _value = `type`"));
    assert_eq!(
        formatted,
        "fn keyword_passthrough(`type`: String) -> String {\n    let _value = `type`\n    return _value\n}\n"
    );
}

#[test]
fn single_element_tuples_keep_their_comma() {
    let int_tuple = || TypeExpr::Tuple(vec![named("Int")]);
    let decl = function(
        "tupled",
        vec![regular("value", int_tuple())],
        Some(int_tuple()),
        Some(block(
            vec![
                Stmt::Let {
                    mutable: false,
                    pattern: Pattern::Name("single".to_string()),
                    ty: None,
                    value: Expr::Tuple(vec![name("value")]),
                },
                Stmt::Return(Some(name("single"))),
            ],
            None,
        )),
    );
    let formatted = format_module(&module_of(vec![Item::Function(decl)]));
    assert!(formatted.contains("fn tupled(value: (Int,)) -> (Int,)"));
    assert!(formatted.contains("let single = (value,)"));
    assert_eq!(expr_text(&Expr::Tuple(vec![name("a"), name("b")])), "(a, b)");
}

#[test]
fn array_types_keep_their_length_as_written() {
    let array = || TypeExpr::Array { element: Box::new(named("Int")), len: "0x3".to_string() };
    let decl = function(
        "takes",
        vec![regular("values", array())],
        Some(array()),
        Some(block(vec![Stmt::Return(Some(name("values")))], None)),
    );
    let formatted = format_module(&module_of(vec![Item::Function(decl)]));
    assert!(formatted.contains("fn takes(values: [Int; 0x3]) -> [Int; 0x3]"));
}

#[test]
fn module_sections_are_separated_by_blank_lines() {
    let module = Module {
        package: Some(PackageDecl { path: path(&["demo", "app"]) }),
        uses: vec![
            UseDecl {
                prefix: path(&["std", "io"]),
                group: Some(vec![
                    UseItem { name: "print".to_string(), alias: Some("p".to_string()) },
                    UseItem { name: "read".to_string(), alias: None },
                ]),
                alias: None,
            },
            UseDecl { prefix: path(&["std", "fs"]), group: None, alias: Some("files".to_string()) },
        ],
        items: vec![
            Item::Function(function("main", vec![], None, Some(block(vec![], None)))),
            Item::Const(GlobalDecl {
                visibility: Visibility::Public,
                name: "LIMIT".to_string(),
                ty: named("Int"),
                value: Expr::Integer("10".to_string()),
            }),
        ],
    };
    assert_eq!(
        format_module(&module),
        "package demo.app\n\nuse std.io.{print as p, read}\nuse std.fs as files\n\nfn main() {\n}\n\npub const LIMIT: Int = 10\n"
    );
}

#[test]
fn empty_module_is_a_single_line_break() {
    assert_eq!(format_module(&module_of(vec![])), "\n");
}

#[test]
fn module_ending_in_a_line_break_gets_no_second_one() {
    let module = Module {
        package: Some(PackageDecl { path: path(&["demo"]) }),
        uses: vec![UseDecl { prefix: path(&["a", "b"]), group: None, alias: None }],
        items: vec![],
    };
    assert_eq!(format_module(&module), "package demo\n\nuse a.b\n");
}

#[test]
fn match_arms_are_indented_one_level() {
    let matched = Expr::Match {
        value: boxed(name("x")),
        arms: vec![
            MatchArm {
                pattern: Pattern::TupleStruct { path: path(&["Some"]), items: vec![Pattern::Name("v".to_string())] },
                guard: Some(Expr::Binary { left: boxed(name("v")), op: BinaryOp::Gt, right: boxed(Expr::Integer("0".to_string())) }),
                body: name("v"),
            },
            MatchArm { pattern: Pattern::Wildcard, guard: None, body: Expr::Integer("0".to_string()) },
        ],
    };
    assert_eq!(expr_text(&matched), "match x {\n    Some(v) if v > 0 => v,\n    _ => 0,\n}");
    let mut out = String::new();
    format_block(&block(vec![], Some(matched)), 0, &mut out);
    assert_eq!(out, "{\n    match x {\n        Some(v) if v > 0 => v,\n        _ => 0,\n    }\n}");
}

#[test]
fn expressions_of_every_shape() {
    assert_eq!(expr_text(&name("self")), "self");
    assert_eq!(expr_text(&name("match")), "`match`");
    assert_eq!(expr_text(&name("")), "``");
    assert_eq!(expr_text(&name("9lives")), "`9lives`");
    assert_eq!(expr_text(&Expr::String { value: "hi {x}".to_string(), is_format: true }), "f\"hi {x}\"");
    assert_eq!(expr_text(&Expr::Bool(false)), "false");
    assert_eq!(expr_text(&Expr::NoneLiteral), "none");
    assert_eq!(expr_text(&Expr::Array(vec![Expr::Integer("1".to_string()), Expr::Integer("2".to_string())])), "[1, 2]");
    assert_eq!(
        expr_text(&Expr::Closure {
            is_move: true,
            params: vec![ClosureParam { name: "a".to_string() }, ClosureParam { name: "b".to_string() }],
            body: boxed(Expr::Binary { left: boxed(name("a")), op: BinaryOp::Mul, right: boxed(name("b")) }),
        }),
        "move (a, b) => a * b"
    );
    assert_eq!(
        expr_text(&Expr::Call {
            callee: boxed(Expr::Member { object: boxed(name("self")), field: "send".to_string() }),
            args: vec![
                CallArg::Positional(name("msg")),
                CallArg::Named { name: "timeout".to_string(), value: Expr::Integer("5".to_string()) },
            ],
        }),
        "self.send(msg, timeout: 5)"
    );
    assert_eq!(
        expr_text(&Expr::Bracket { target: boxed(name("items")), items: vec![name("i")] }),
        "items[i]"
    );
    assert_eq!(
        expr_text(&Expr::StructLiteral {
            path: path(&["geo", "Point"]),
            fields: vec![
                StructLiteralField { name: "x".to_string(), value: Some(Expr::Integer("1".to_string())) },
                StructLiteralField { name: "y".to_string(), value: None },
            ],
        }),
        "geo.Point { x: 1, y }"
    );
    assert_eq!(
        expr_text(&Expr::Question(boxed(Expr::Unary { op: UnaryOp::Await, expr: boxed(name("job")) }))),
        "await job?"
    );
    assert_eq!(expr_text(&Expr::Unary { op: UnaryOp::Not, expr: boxed(name("ok")) }), "!ok");
    assert_eq!(
        expr_text(&Expr::Binary {
            left: Box::new(Expr::Member { object: boxed(name("self")), field: "value".to_string() }),
            op: BinaryOp::Assign,
            right: boxed(name("value")),
        }),
        "self.value = value"
    );
    assert_eq!(
        expr_text(&Expr::If {
            condition: boxed(name("ready")),
            then_branch: block(vec![], Some(Expr::Integer("1".to_string()))),
            else_branch: Some(boxed(Expr::Block(block(vec![], Some(Expr::Integer("2".to_string())))))),
        }),
        "if ready {\n    1\n} else {\n    2\n}"
    );
    assert_eq!(
        expr_text(&Expr::Unsafe(block(vec![Stmt::Expr { expr: name("poke"), terminated: true }], None))),
        "unsafe {\n    poke;\n}"
    );
}

#[test]
fn statements_of_every_shape() {
    let body = block(
        vec![
            Stmt::Let {
                mutable: true,
                pattern: Pattern::Tuple(vec![Pattern::Name("a".to_string()), Pattern::Wildcard]),
                ty: Some(TypeExpr::Tuple(vec![named("Int"), named("Bool")])),
                value: name("pair"),
            },
            Stmt::Defer(Expr::Call { callee: boxed(name("close")), args: vec![] }),
            Stmt::While { condition: name("running"), body: block(vec![Stmt::Break], None) },
            Stmt::Loop { body: block(vec![Stmt::Continue], None) },
            Stmt::For {
                is_await: true,
                pattern: Pattern::Struct {
                    path: path(&["Entry"]),
                    fields: vec![
                        PatternField { name: "key".to_string(), pattern: None },
                        PatternField { name: "value".to_string(), pattern: Some(Pattern::Name("v".to_string())) },
                    ],
                    has_rest: true,
                },
                iterable: name("entries"),
                body: block(vec![], None),
            },
            Stmt::Return(None),
        ],
        None,
    );
    let mut out = String::new();
    format_block(&body, 0, &mut out);
    assert_eq!(
        out,
        "{\n    var (a, _): (Int, Bool) = pair\n    defer close()\n    while running {\n        break\n    }\n    loop {\n        continue\n    }\n    for await Entry { key, value: v, .. } in entries {\n    }\n    return\n}"
    );
}

#[test]
fn patterns_of_every_shape() {
    let arm = |pattern: Pattern| MatchArm { pattern, guard: None, body: Expr::NoneLiteral };
    let matched = Expr::Match {
        value: boxed(name("v")),
        arms: vec![
            arm(Pattern::Array(vec![Pattern::Integer("1".to_string()), Pattern::Name("rest".to_string())])),
            arm(Pattern::Path(path(&["Color", "Red"]))),
            arm(Pattern::String("x".to_string())),
            arm(Pattern::Bool(true)),
            arm(Pattern::NoneLiteral),
            arm(Pattern::Struct { path: path(&["Unit"]), fields: vec![], has_rest: true }),
        ],
    };
    assert_eq!(
        expr_text(&matched),
        "match v {\n    [1, rest] => none,\n    Color.Red => none,\n    \"x\" => none,\n    true => none,\n    none => none,\n    Unit { .. } => none,\n}"
    );
}

fn item_text(item: &Item) -> String {
    let mut out = String::new();
    format_item(item, 0, &mut out);
    out
}

#[test]
fn declarations_of_every_kind() {
    let writer = TraitDecl {
        visibility: Visibility::Public,
        name: "Writer".to_string(),
        generics: vec![GenericParam { name: "T".to_string(), bounds: vec![path(&["io", "Flush"])] }],
        methods: vec![function(
            "write",
            vec![Param::Receiver { kind: ReceiverKind::Mutable }, regular("value", named("T"))],
            None,
            None,
        )],
    };
    assert_eq!(item_text(&Item::Trait(writer)), "pub trait Writer[T: io.Flush] {\n    fn write(var self, value: T)\n}");

    let tagged = StructDecl {
        visibility: Visibility::Public,
        is_data: false,
        name: "Tagged".to_string(),
        generics: vec![],
        fields: vec![StructField { name: "type".to_string(), ty: named("String"), default: None }],
    };
    assert_eq!(item_text(&Item::Struct(tagged)), "pub struct Tagged {\n    `type`: String,\n}");

    let point = StructDecl {
        visibility: Visibility::Private,
        is_data: true,
        name: "Point".to_string(),
        generics: vec![],
        fields: vec![StructField { name: "x".to_string(), ty: named("Int"), default: Some(Expr::Integer("0".to_string())) }],
    };
    assert_eq!(item_text(&Item::Struct(point)), "data struct Point {\n    x: Int = 0,\n}");

    let shape = EnumDecl {
        visibility: Visibility::Private,
        name: "Shape".to_string(),
        generics: vec![GenericParam { name: "T".to_string(), bounds: vec![] }],
        variants: vec![
            EnumVariant { name: "Empty".to_string(), fields: VariantFields::Unit },
            EnumVariant { name: "Circle".to_string(), fields: VariantFields::Tuple(vec![named("T"), named("T")]) },
            EnumVariant {
                name: "Rect".to_string(),
                fields: VariantFields::Struct(vec![VariantField { name: "w".to_string(), ty: named("T") }]),
            },
        ],
    };
    assert_eq!(
        item_text(&Item::Enum(shape)),
        "enum Shape[T] {\n    Empty,\n    Circle(T, T),\n    Rect {\n        w: T,\n    },\n}"
    );

    let user_id = TypeAliasDecl {
        visibility: Visibility::Private,
        is_opaque: true,
        name: "UserId".to_string(),
        generics: vec![],
        ty: named("U64"),
    };
    assert_eq!(item_text(&Item::TypeAlias(user_id)), "opaque type UserId = U64");

    let strlen = function(
        "strlen",
        vec![regular("ptr", TypeExpr::Pointer { is_const: true, inner: Box::new(named("U8")) })],
        Some(named("USize")),
        None,
    );
    let ffi = ExternBlock { visibility: Visibility::Public, abi: "c".to_string(), functions: vec![strlen] };
    assert_eq!(item_text(&Item::ExternBlock(ffi)), "pub extern \"c\" {\n    fn strlen(ptr: *const U8) -> USize\n}");

    let mut q_add = function("q_add", vec![], None, None);
    q_add.abi = Some("c".to_string());
    q_add.visibility = Visibility::Public;
    q_add.is_unsafe = true;
    assert_eq!(item_text(&Item::Function(q_add)), "extern \"c\" pub unsafe fn q_add()");

    let counter = Item::Static(GlobalDecl {
        visibility: Visibility::Private,
        name: "COUNT".to_string(),
        ty: named("Int"),
        value: Expr::Integer("0".to_string()),
    });
    assert_eq!(item_text(&counter), "static COUNT: Int = 0");
}

#[test]
fn impl_and_extend_blocks_separate_methods_by_blank_lines() {
    let mut get = function("get", vec![Param::Receiver { kind: ReceiverKind::ReadOnly }], Some(named("T")), Some(block(vec![], Some(name("value")))));
    get.is_async = true;
    let set = function("take", vec![Param::Receiver { kind: ReceiverKind::Move }], None, Some(block(vec![], None)));
    let imp = ImplBlock {
        generics: vec![GenericParam { name: "T".to_string(), bounds: vec![] }],
        trait_ty: Some(TypeExpr::Named { path: path(&["Source"]), args: vec![named("T")] }),
        target: TypeExpr::Named { path: path(&["Box"]), args: vec![named("T")] },
        where_clause: vec![
            WherePredicate { target: named("T"), bounds: vec![path(&["Clone"]), path(&["io", "Flush"])] },
            WherePredicate { target: named("U"), bounds: vec![path(&["Eq"])] },
        ],
        methods: vec![get, set],
    };
    assert_eq!(
        item_text(&Item::Impl(imp)),
        "impl[T] Source[T] for Box[T]\nwhere\n    T: Clone + io.Flush,\n    U: Eq\n{\n    async fn get(self) -> T {\n        value\n    }\n\n    fn take(move self) {\n    }\n}"
    );

    let callback = TypeExpr::Callable { params: vec![named("Int")], ret: Box::new(named("Bool")) };
    let ext = ExtendBlock {
        target: named("Int"),
        methods: vec![function("check", vec![regular("f", callback)], None, Some(block(vec![], None)))],
    };
    assert_eq!(item_text(&Item::Extend(ext)), "extend Int {\n    fn check(f: (Int) -> Bool) {\n    }\n}");
}

#[test]
fn where_clause_puts_the_body_on_its_own_line() {
    let mut decl = function("show", vec![regular("x", named("T"))], None, Some(block(vec![], None)));
    decl.generics = vec![GenericParam { name: "T".to_string(), bounds: vec![] }];
    decl.where_clause = vec![WherePredicate { target: named("T"), bounds: vec![path(&["Display"])] }];
    assert_eq!(item_text(&Item::Function(decl)), "fn show[T](x: T)\nwhere\n    T: Display\n{\n}");
}
