use qlang::ast::{Path, ReceiverKind, Visibility};
use qlang::hir::{
    Block, Expr, ExprKind, ExternBlock, Function, FunctionRef, Item, ItemKind, Local, MatchArm,
    Module, Param, Pattern, PatternKind, ReceiverParam, Stmt, StmtKind, Type, TypeKind,
};
use qlang::span::Span;

fn function(name: &str, body: Option<qlang::hir::BlockId>) -> Function {
    Function {
        span: Span::new(0, 10),
        visibility: Visibility::Public,
        is_async: false,
        is_unsafe: false,
        abi: None,
        generics: Vec::new(),
        name: name.to_string(),
        name_span: Span::new(3, 3 + name.len()),
        params: vec![Param::Receiver(ReceiverParam { kind: ReceiverKind::Mutable, span: Span::new(4, 12) })],
        return_type: None,
        where_clause: Vec::new(),
        body,
    }
}

#[test]
fn arena_ids_count_up_and_read_back() {
    let mut module = Module::default();
    let left = module.alloc_local(Local { name: "left".to_string(), span: Span::new(9, 13) });
    let right = module.alloc_local(Local { name: "right".to_string(), span: Span::new(15, 20) });
    assert_eq!(left.index(), 0);
    assert_eq!(right.index(), 1);
    assert_eq!(module.local(left).name, "left");
    assert_eq!(module.local(right).name, "right");
    assert_eq!(module.locals().len(), 2);

    let left_pattern = module.alloc_pattern(Pattern { span: Span::new(9, 13), kind: PatternKind::Binding(left) });
    let right_pattern = module.alloc_pattern(Pattern { span: Span::new(15, 20), kind: PatternKind::Binding(right) });
    let tuple = module.alloc_pattern(Pattern {
        span: Span::new(8, 21),
        kind: PatternKind::Tuple(vec![left_pattern, right_pattern]),
    });
    let value = module.alloc_expr(Expr { span: Span::new(24, 28), kind: ExprKind::Name("pair".to_string()) });
    let stmt = module.alloc_stmt(Stmt {
        span: Span::new(4, 28),
        kind: StmtKind::Let { mutable: false, pattern: tuple, value },
    });
    let block = module.alloc_block(Block { span: Span::new(0, 30), statements: vec![stmt], tail: None });
    let item = module.alloc_item(Item { span: Span::new(0, 30), kind: ItemKind::Function(function("main", Some(block))) });
    module.items.push(item);

    let ItemKind::Function(main) = &module.item(module.items[0]).kind else {
        panic!("expected function item");
    };
    let body = module.block(main.body.expect("function should have body"));
    let StmtKind::Let { pattern, .. } = &module.stmt(body.statements[0]).kind else {
        panic!("expected let statement");
    };
    let PatternKind::Tuple(items) = &module.pattern(*pattern).kind else {
        panic!("expected tuple pattern");
    };
    let PatternKind::Binding(first) = module.pattern(items[0]).kind else {
        panic!("expected binding");
    };
    assert_eq!(module.local(first).name, "left");
    assert_eq!(module.expr(value).kind, ExprKind::Name("pair".to_string()));
}

#[test]
fn function_references_resolve_items_and_extern_members() {
    let mut module = Module::default();
    let int = module.alloc_type(Type {
        span: Span::new(0, 3),
        kind: TypeKind::Named { path: Path { segments: vec!["Int".to_string()] }, args: Vec::new() },
    });
    assert_eq!(module.ty(int).span, Span::new(0, 3));
    let plain = module.alloc_item(Item { span: Span::new(0, 10), kind: ItemKind::Function(function("run", None)) });
    let externs = module.alloc_item(Item {
        span: Span::new(11, 40),
        kind: ItemKind::ExternBlock(ExternBlock {
            span: Span::new(11, 40),
            visibility: Visibility::Private,
            abi: "c".to_string(),
            functions: vec![function("strlen", None), function("puts", None)],
        }),
    });
    assert_eq!(module.function(FunctionRef::Item(plain)).name, "run");
    let member = FunctionRef::ExternBlockMember { block: externs, index: 1 };
    assert_eq!(module.function(member).name, "puts");
    assert_eq!(module.function_owner_item(member), externs);
    assert_eq!(module.function_owner_item(FunctionRef::Item(plain)), plain);
}

#[test]
fn statement_and_match_arm_shapes() {
    let mut module = Module::default();
    let guard = module.alloc_expr(Expr { span: Span::new(0, 4), kind: ExprKind::Bool(true) });
    let body = module.alloc_expr(Expr { span: Span::new(8, 9), kind: ExprKind::Integer("1".to_string()) });
    let pattern = module.alloc_pattern(Pattern { span: Span::new(0, 1), kind: PatternKind::Wildcard });
    let arm = MatchArm { pattern, guard: Some(guard), body };
    assert_eq!(arm.guard.map(|g| g.index()), Some(0));
    assert_eq!(arm.body.index(), 1);
    let ret = StmtKind::Return(Some(body));
    assert_eq!(ret, StmtKind::Return(Some(body)));
    assert_ne!(ret, StmtKind::Break);
}
