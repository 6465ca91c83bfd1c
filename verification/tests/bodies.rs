use rust_glimpser::body::{
    BindingKind, BodyData, BodyIrBuildPolicy, BodyTy, ExprKind, LiteralKind, StmtKind, TargetBodiesStatus,
};
use rust_glimpser::body_ids::{BindingId, BodyId, BodyItemId, BodyItemRef, BodyRef, ExprId, ScopeId};
use rust_glimpser::body_resolve::{
    local_field_for_type, resolve_local_impls, resolve_local_name,
};
use rust_glimpser::ids::{ModuleId, ModuleRef, PackageSlot, TargetRef};
use rust_glimpser::item_tree::{
    FieldItem, FieldKey, FieldList, FunctionId, FunctionItem, FunctionRef, ParamItem, ParamKind, TypePath,
    TypePathSegment, TypeRef,
};
use rust_glimpser::lower::PatSyntax;
use rust_glimpser::lower_body::{
    build_package, AssocItemSyntax, BlockExprSyntax, BlockSyntax, ExprSyntax, FunctionSource, TargetFunctions, ExprSyntaxKind, FunctionBodyLowering, MatchArmSyntax, NameSyntax,
    ParamListSyntax, ParamSyntax, SelfParamSyntax, StmtSyntax, StmtSyntaxKind,
};
use rust_glimpser::path::{Path, PathSegment};
use rust_glimpser::body::BodySource;
use rust_glimpser::body::PatKind;
use rust_glimpser::body_infer::{rebuild_bodies, BodyRebuildError};
use rust_glimpser::text::{FileId, Span, TargetId, TextSpan};

fn span(start: u32, end: u32) -> Span {
    Span { text: TextSpan { start, end } }
}

fn src(start: u32, end: u32) -> BodySource {
    BodySource { file_id: FileId(0), span: span(start, end) }
}

fn target() -> TargetRef {
    TargetRef { package: PackageSlot(0), target: TargetId(0) }
}

fn lowering() -> FunctionBodyLowering {
    FunctionBodyLowering::new(
        FunctionRef { target: target(), id: FunctionId(0) },
        ModuleRef { target: target(), module: ModuleId(0) },
        src(0, 100),
    )
}

fn ident(start: u32, name: &str) -> PatSyntax {
    PatSyntax::Ident {
        source: src(start, start + name.len() as u32),
        text: name.to_string(),
        name: Some(name.to_string()),
        by_ref: false,
        mutable: false,
        pat: None,
    }
}

fn name_path(name: &str) -> Path {
    Path { absolute: false, segments: vec![PathSegment::Name(name.to_string())] }
}

fn path_expr(start: u32, name: &str) -> ExprSyntax {
    ExprSyntax {
        source: src(start, start + name.len() as u32),
        text: name.to_string(),
        kind: ExprSyntaxKind::Path { path: Some(name_path(name)) },
    }
}

fn literal(start: u32, text: &str) -> ExprSyntax {
    ExprSyntax { source: src(start, start + text.len() as u32), text: text.to_string(), kind: ExprSyntaxKind::Literal }
}

fn type_named(name: &str) -> TypeRef {
    TypeRef::Path(TypePath {
        absolute: false,
        segments: vec![TypePathSegment { name: name.to_string(), span: span(0, 0), args: Vec::new() }],
    })
}

fn let_stmt(start: u32, pat: PatSyntax, initializer: Option<ExprSyntax>) -> StmtSyntax {
    StmtSyntax {
        source: src(start, start + 10),
        kind: StmtSyntaxKind::Let { pat: Some(pat), ty: None, initializer: initializer.map(Box::new) },
    }
}

fn binding_name(body: &BodyData, binding: BindingId) -> String {
    body.bindings[binding.0].name.clone().unwrap_or_default()
}

/// `fn f(x: u8) { let x = x; x }`
fn shadowing_body() -> BodyData {
    let params = ParamListSyntax {
        self_param: None,
        params: vec![ParamSyntax { source: src(5, 10), pat: Some(ident(5, "x")), ty: Some(type_named("u8")) }],
    };
    let block = BlockSyntax {
        statements: vec![let_stmt(14, ident(18, "x"), Some(path_expr(22, "x")))],
        tail: Some(Box::new(path_expr(25, "x"))),
    };
    lowering().lower(Some(params), src(12, 27), block)
}

#[test]
fn parameters_bind_in_an_outer_scope_and_the_body_block_nests_in_it() {
    let body = shadowing_body();
    assert_eq!(body.param_scope, ScopeId(0));
    assert_eq!(body.scopes.len(), 2);
    assert_eq!(body.scopes[0].parent, None);
    assert_eq!(body.scopes[1].parent, Some(ScopeId(0)));
    assert_eq!(body.params, vec![BindingId(0)]);
    assert_eq!(body.bindings[0].kind, BindingKind::Param);
    assert_eq!(body.bindings[0].scope, ScopeId(0));
    assert!(matches!(body.bindings[0].annotation, Some(TypeRef::Path(_))));
    assert_eq!(body.bindings[1].kind, BindingKind::Let);
    assert_eq!(body.bindings[1].scope, ScopeId(1));
    assert_eq!(body.scopes[1].bindings, vec![BindingId(1)]);
    // The `let` inside the body block does not leak into the parameter scope.
    assert_eq!(body.scopes[0].bindings, vec![BindingId(0)]);
}

#[test]
fn expressions_are_allocated_children_first_with_their_binding_boundary() {
    let body = shadowing_body();
    assert_eq!(body.exprs.len(), 3);
    assert_eq!(body.root_expr, ExprId(2));
    // The initializer is lowered before the `let` binds, the tail after.
    assert_eq!(body.exprs[0].visible_bindings, 1);
    assert_eq!(body.exprs[1].visible_bindings, 2);
    assert_eq!(body.exprs[2].visible_bindings, 2);
    match &body.exprs[2].kind {
        ExprKind::Block { scope, statements, tail } => {
            assert_eq!(*scope, ScopeId(1));
            assert_eq!(statements.len(), 1);
            assert_eq!(*tail, Some(ExprId(1)));
        }
        other => panic!("expected a block, got {other:?}"),
    }
    match &body.statements[0].kind {
        StmtKind::Let { scope, bindings, initializer, annotation, .. } => {
            assert_eq!(*scope, ScopeId(1));
            assert_eq!(bindings, &vec![BindingId(1)]);
            assert_eq!(*initializer, Some(ExprId(0)));
            assert!(annotation.is_none());
        }
        other => panic!("expected a let, got {other:?}"),
    }
}

#[test]
fn let_initializer_cannot_see_its_own_binding() {
    let body = shadowing_body();
    let x = "x".to_string();
    // `let x = x;` reads the parameter ...
    assert_eq!(resolve_local_name(&body, body.exprs[0].scope, &x, ExprId(0)), Some(BindingId(0)));
    // ... and the tail sees the new binding.
    assert_eq!(resolve_local_name(&body, body.exprs[1].scope, &x, ExprId(1)), Some(BindingId(1)));
    assert_eq!(binding_name(&body, BindingId(1)), "x");
    assert_eq!(resolve_local_name(&body, body.exprs[1].scope, &"y".to_string(), ExprId(1)), None);
}

#[test]
fn self_parameter_is_named_self_and_missing_patterns_bind_nothing() {
    let params = ParamListSyntax {
        self_param: Some(SelfParamSyntax { source: src(5, 10), text: "&self".to_string(), ty: None }),
        params: vec![ParamSyntax { source: src(12, 14), pat: None, ty: None }],
    };
    let body = lowering().lower(Some(params), src(20, 22), BlockSyntax { statements: Vec::new(), tail: None });
    assert_eq!(body.params, vec![BindingId(0), BindingId(1)]);
    assert_eq!(body.bindings[0].kind, BindingKind::SelfParam);
    assert_eq!(body.bindings[0].name.as_deref(), Some("self"));
    assert_eq!(body.bindings[0].pat, "&self");
    assert_eq!(body.bindings[1].kind, BindingKind::Param);
    assert_eq!(body.bindings[1].name, None);
    assert_eq!(body.bindings[1].pat, "<missing>");
    // An empty block still gets its own scope and expression.
    assert_eq!(body.exprs.len(), 1);
    assert!(matches!(body.exprs[0].kind, ExprKind::Block { tail: None, .. }));
}

#[test]
fn match_arms_bind_in_scopes_of_their_own() {
    // `{ match v { Some(a) => a, _ => 1 } }`
    let some_a = PatSyntax::TupleStruct {
        source: src(12, 19),
        text: "Some(a)".to_string(),
        path: Some(name_path("Some")),
        pats: vec![ident(17, "a")],
    };
    let match_expr = ExprSyntax {
        source: src(2, 40),
        text: "match v { Some(a) => a, _ => 1 }".to_string(),
        kind: ExprSyntaxKind::Match {
            scrutinee: Some(Box::new(path_expr(8, "v"))),
            arms: vec![
                MatchArmSyntax { pat: Some(some_a), expr: Some(Box::new(path_expr(23, "a"))) },
                MatchArmSyntax {
                    pat: Some(PatSyntax::Wildcard { source: src(26, 27), text: "_".to_string() }),
                    expr: Some(Box::new(literal(31, "1"))),
                },
            ],
        },
    };
    let block = BlockSyntax { statements: Vec::new(), tail: Some(Box::new(match_expr)) };
    let body = lowering().lower(None, src(0, 42), block);

    assert!(body.params.is_empty());
    // Scopes: parameters, block, first arm, second arm.
    assert_eq!(body.scopes.len(), 4);
    assert_eq!(body.scopes[2].parent, Some(ScopeId(1)));
    assert_eq!(body.scopes[3].parent, Some(ScopeId(1)));
    assert_eq!(body.bindings.len(), 1);
    assert_eq!(body.bindings[0].scope, ScopeId(2));
    assert_eq!(binding_name(&body, BindingId(0)), "a");
    let match_id = body.exprs.iter().position(|e| matches!(e.kind, ExprKind::Match { .. })).unwrap();
    match &body.exprs[match_id].kind {
        ExprKind::Match { scrutinee, arms } => {
            assert!(scrutinee.is_some());
            assert_eq!(arms.len(), 2);
            assert_eq!(arms[0].scope, ScopeId(2));
            assert!(arms[0].pat.is_some());
            let arm_expr = arms[0].expr.unwrap();
            assert_eq!(
                resolve_local_name(&body, body.exprs[arm_expr.0].scope, &"a".to_string(), arm_expr),
                Some(BindingId(0))
            );
            let literal_expr = arms[1].expr.unwrap();
            assert!(matches!(&body.exprs[literal_expr.0].kind, ExprKind::Literal { kind: LiteralKind::Int, text } if text == "1"));
        }
        other => panic!("expected a match, got {other:?}"),
    }
}

#[test]
fn method_calls_fields_and_other_expressions_keep_their_parts() {
    // `{ (s.len()).0 }` with the method name missing in a second call `s.`.
    let receiver = path_expr(3, "s");
    let call = ExprSyntax {
        source: src(3, 10),
        text: "s.len()".to_string(),
        kind: ExprSyntaxKind::MethodCall {
            receiver: Some(Box::new(receiver)),
            dot_span: Some(span(4, 5)),
            name: Some(NameSyntax { source: src(5, 8), text: "len".to_string() }),
            args: Vec::new(),
        },
    };
    let paren = ExprSyntax { source: src(2, 11), text: "(s.len())".to_string(), kind: ExprSyntaxKind::Other { children: vec![call] } };
    let field = ExprSyntax {
        source: src(2, 13),
        text: "(s.len()).0".to_string(),
        kind: ExprSyntaxKind::Field {
            base: Some(Box::new(paren)),
            dot_span: Some(span(11, 12)),
            field: Some(FieldKey::Tuple(0)),
            field_span: Some(span(12, 13)),
        },
    };
    let missing = ExprSyntax {
        source: src(15, 17),
        text: "s.".to_string(),
        kind: ExprSyntaxKind::MethodCall {
            receiver: Some(Box::new(path_expr(15, "s"))),
            dot_span: Some(span(16, 17)),
            name: None,
            args: vec![literal(18, "\"x\"")],
        },
    };
    let block = BlockSyntax {
        statements: vec![StmtSyntax { source: src(15, 20), kind: StmtSyntaxKind::Expr { expr: Some(Box::new(missing)), has_semicolon: true } }],
        tail: Some(Box::new(field)),
    };
    let body = lowering().lower(None, src(0, 30), block);

    let method_calls: Vec<&ExprKind> = body.exprs.iter().map(|e| &e.kind).filter(|k| matches!(k, ExprKind::MethodCall { .. })).collect();
    assert_eq!(method_calls.len(), 2);
    match method_calls[0] {
        ExprKind::MethodCall { method_name, method_name_span, dot_span, args, receiver } => {
            assert_eq!(method_name, "<missing>");
            assert_eq!(*method_name_span, None);
            assert_eq!(*dot_span, Some(span(16, 17)));
            assert_eq!(args.len(), 1);
            assert!(receiver.is_some());
        }
        _ => unreachable!(),
    }
    match method_calls[1] {
        ExprKind::MethodCall { method_name, method_name_span, .. } => {
            assert_eq!(method_name, "len");
            assert_eq!(*method_name_span, Some(span(5, 8)));
        }
        _ => unreachable!(),
    }
    let string_literal = body.exprs.iter().find(|e| matches!(e.kind, ExprKind::Literal { .. })).unwrap();
    assert!(matches!(string_literal.kind, ExprKind::Literal { kind: LiteralKind::String, .. }));
    let unknown = body.exprs.iter().find(|e| matches!(e.kind, ExprKind::Unknown { .. })).unwrap();
    match &unknown.kind {
        ExprKind::Unknown { text, children } => {
            assert_eq!(text, "(s.len())");
            assert_eq!(children.len(), 1);
        }
        _ => unreachable!(),
    }
    let field_expr = body.exprs.iter().find(|e| matches!(e.kind, ExprKind::Field { .. })).unwrap();
    match &field_expr.kind {
        ExprKind::Field { field, field_span, dot_span, base } => {
            assert!(matches!(field, Some(FieldKey::Tuple(0))));
            assert_eq!(*field_span, Some(span(12, 13)));
            assert_eq!(*dot_span, Some(span(11, 12)));
            assert!(base.is_some());
        }
        _ => unreachable!(),
    }
    assert!(matches!(body.statements[0].kind, StmtKind::Expr { has_semicolon: true, .. }));
    assert!(body.exprs.iter().all(|e| matches!(e.ty, BodyTy::Unknown)));
}

/// `{ struct S { f: u8 } impl S { fn get(&self) -> u8 {} const C: u8 = 0; } }`
fn local_items_body() -> BodyData {
    let fields = FieldList { fields: vec![FieldItem { key: Some(FieldKey::Named("f".to_string())), ty: type_named("u8"), span: field_span() }] };
    let get = AssocItemSyntax::Fn {
        source: src(30, 50),
        name: Some(NameSyntax { source: src(33, 36), text: "get".to_string() }),
        declaration: FunctionItem {
            params: vec![ParamItem { kind: ParamKind::SelfParam, ty: None }],
            ret_ty: Some(type_named("u8")),
        },
    };
    let block = BlockSyntax {
        statements: vec![
            StmtSyntax {
                source: src(2, 20),
                kind: StmtSyntaxKind::Struct { name: Some(NameSyntax { source: src(9, 10), text: "S".to_string() }), fields },
            },
            StmtSyntax {
                source: src(21, 70),
                kind: StmtSyntaxKind::Impl { trait_ref: None, self_ty: type_named("S"), items: vec![get, AssocItemSyntax::Other] },
            },
            StmtSyntax { source: src(71, 80), kind: StmtSyntaxKind::OtherItem },
        ],
        tail: None,
    };
    lowering().lower(None, src(0, 82), block)
}

#[test]
fn local_structs_and_impls_are_declared_in_their_block() {
    let body = local_items_body();
    assert_eq!(body.local_items.len(), 1);
    assert_eq!(body.local_items[0].name, "S");
    assert_eq!(body.local_items[0].scope, ScopeId(1));
    assert_eq!(body.scopes[1].local_items, vec![BodyItemId(0)]);
    assert_eq!(body.local_impls.len(), 1);
    assert_eq!(body.local_impls[0].functions.len(), 1);
    assert_eq!(body.local_functions[0].name, "get");
    assert!(body.local_functions[0].has_self_receiver());
    assert!(matches!(body.statements[0].kind, StmtKind::Item { item: BodyItemId(0) }));
    assert!(matches!(body.statements[1].kind, StmtKind::Impl { .. }));
    assert!(matches!(body.statements[2].kind, StmtKind::ItemIgnored));
    assert_eq!(body.local_impls[0].self_item, None);
}

#[test]
fn local_impls_link_to_the_local_item_their_self_type_names() {
    let mut body = local_items_body();
    let body_ref = BodyRef { target: target(), body: BodyId(0) };
    resolve_local_impls(&mut body, body_ref);
    let item = BodyItemRef { body: body_ref, item: BodyItemId(0) };
    assert_eq!(body.local_impls[0].self_item, Some(item));

    let field = local_field_for_type(&body, body_ref, item, &FieldKey::Named("f".to_string())).expect("field f");
    assert_eq!(field.index, 0);
    assert!(local_field_for_type(&body, body_ref, item, &FieldKey::Named("g".to_string())).is_none());
    let other_body = BodyRef { target: target(), body: BodyId(1) };
    assert!(local_field_for_type(&body, body_ref, BodyItemRef { body: other_body, item: BodyItemId(0) }, &FieldKey::Named("f".to_string())).is_none());
}

fn function_source(id: usize, owner: bool, body: bool) -> FunctionSource {
    FunctionSource {
        function: FunctionRef { target: target(), id: FunctionId(id) },
        owner_module: if owner { Some(ModuleRef { target: target(), module: ModuleId(0) }) } else { None },
        source: src(id as u32 * 10, id as u32 * 10 + 8),
        params: None,
        body: if body {
            Some(BlockExprSyntax { source: src(id as u32 * 10 + 5, id as u32 * 10 + 8), block: BlockSyntax { statements: Vec::new(), tail: None } })
        } else {
            None
        },
    }
}

fn three_functions() -> TargetFunctions {
    TargetFunctions {
        function_count: 3,
        functions: vec![function_source(0, true, true), function_source(1, false, true), function_source(2, true, false)],
    }
}

#[test]
fn build_package_lowers_functions_with_an_owner_and_a_body() {
    let package = build_package(BodyIrBuildPolicy::workspace_packages(), true, vec![three_functions()]);
    let target_bodies = &package.targets[0];
    assert_eq!(target_bodies.status, TargetBodiesStatus::Built);
    assert_eq!(target_bodies.bodies.len(), 1);
    assert_eq!(target_bodies.function_bodies, vec![Some(BodyId(0)), None, None]);
    assert_eq!(target_bodies.bodies[0].owner.id, FunctionId(0));
    assert_eq!(target_bodies.bodies[0].source, src(0, 8));
    assert_eq!(target_bodies.bodies[0].exprs[target_bodies.bodies[0].root_expr.0].source, src(5, 8));
}

#[test]
fn dependency_bodies_are_skipped_unless_the_policy_lowers_all_packages() {
    let skipped = build_package(BodyIrBuildPolicy::default(), false, vec![three_functions()]);
    assert_eq!(skipped.targets[0].status, TargetBodiesStatus::Skipped);
    assert!(skipped.targets[0].bodies.is_empty());
    assert_eq!(skipped.targets[0].function_bodies, vec![None, None, None]);

    let all = build_package(BodyIrBuildPolicy::all_packages(), false, vec![three_functions()]);
    assert_eq!(all.targets[0].status, TargetBodiesStatus::Built);
    assert_eq!(all.targets[0].bodies.len(), 1);
}

#[test]
fn later_bodies_of_the_same_function_replace_earlier_ones() {
    let functions = TargetFunctions { function_count: 1, functions: vec![function_source(0, true, true), function_source(0, true, true)] };
    let package = build_package(BodyIrBuildPolicy::all_packages(), true, vec![functions]);
    assert_eq!(package.targets[0].bodies.len(), 2);
    assert_eq!(package.targets[0].function_bodies, vec![Some(BodyId(1))]);
}

#[test]
fn or_patterns_bind_each_name_once_and_capitalized_names_are_paths() {
    let mut builder = rust_glimpser::body::BodyBuilder::new();
    let scope = builder.alloc_scope(None);
    // `Some(a) | Other(a, None)`
    let left = PatSyntax::TupleStruct { source: src(0, 7), text: "Some(a)".to_string(), path: Some(name_path("Some")), pats: vec![ident(5, "a")] };
    let none = PatSyntax::Ident { source: src(19, 23), text: "None".to_string(), name: Some("None".to_string()), by_ref: false, mutable: false, pat: None };
    let right = PatSyntax::TupleStruct {
        source: src(10, 24),
        text: "Other(a, None)".to_string(),
        path: Some(name_path("Other")),
        pats: vec![ident(16, "a"), none],
    };
    let pat = PatSyntax::Or { source: src(0, 24), text: "Some(a) | Other(a, None)".to_string(), pats: vec![left, right] };
    let (root, bindings) = rust_glimpser::lower::lower_pat(&mut builder, &pat, scope, BindingKind::Let, None);
    assert_eq!(bindings, vec![BindingId(0)]);
    assert_eq!(builder.bindings.len(), 1);
    assert_eq!(builder.bindings[0].name.as_deref(), Some("a"));
    let root = root.expect("root node");
    assert_eq!(root.0 + 1, builder.pats.len());
    assert_eq!(builder.pats[root.0].source, src(0, 24));
    assert!(builder.pats.iter().any(|p| matches!(&p.kind, rust_glimpser::body::PatKind::Path { path: Some(_) })));
}

#[test]
fn parenthesized_patterns_lower_to_the_pattern_inside() {
    let mut builder = rust_glimpser::body::BodyBuilder::new();
    let scope = builder.alloc_scope(None);
    let pat = PatSyntax::Paren { source: src(0, 5), text: "(x)".to_string(), pat: Some(Box::new(ident(1, "x"))) };
    let (root, bindings) = rust_glimpser::lower::lower_pat(&mut builder, &pat, scope, BindingKind::Param, Some(type_named("u8")));
    assert_eq!(builder.pats[root.unwrap().0].source, src(1, 2));
    // The annotation reaches the identifier through the parentheses.
    assert!(builder.bindings[bindings[0].0].annotation.is_some());
}

#[test]
fn repeated_names_in_or_patterns_keep_the_first_binding_node() {
    let mut builder = rust_glimpser::body::BodyBuilder::new();
    let scope = builder.alloc_scope(None);
    // `Some(x) | Some(x)`
    let arm = |start: u32| PatSyntax::TupleStruct {
        source: src(start, start + 7),
        text: "Some(x)".to_string(),
        path: Some(name_path("Some")),
        pats: vec![ident(start + 5, "x")],
    };
    let pat = PatSyntax::Or { source: src(0, 17), text: "Some(x) | Some(x)".to_string(), pats: vec![arm(0), arm(10)] };
    let (root, bindings) = rust_glimpser::lower::lower_pat(&mut builder, &pat, scope, BindingKind::Let, None);
    assert_eq!(bindings, vec![BindingId(0)]);
    assert_eq!(builder.bindings.len(), 1);
    let arms = match &builder.pats[root.unwrap().0].kind {
        PatKind::Or { pats } => pats.clone(),
        other => panic!("expected an or-pattern, got {other:?}"),
    };
    assert_eq!(arms.len(), 2);
    let inner = |arm: usize| match &builder.pats[arms[arm].0].kind {
        PatKind::TupleStruct { fields, .. } => match &builder.pats[fields[0].0].kind {
            PatKind::Binding { binding, .. } => *binding,
            other => panic!("expected a binding node, got {other:?}"),
        },
        other => panic!("expected a tuple-struct pattern, got {other:?}"),
    };
    assert_eq!(inner(0), Some(BindingId(0)));
    assert_eq!(inner(1), None);
}

#[test]
fn a_bare_capitalized_name_lowers_to_a_one_segment_path() {
    let mut builder = rust_glimpser::body::BodyBuilder::new();
    let scope = builder.alloc_scope(None);
    let none = PatSyntax::Ident { source: src(0, 4), text: "None".to_string(), name: Some("None".to_string()), by_ref: false, mutable: false, pat: None };
    let (root, bindings) = rust_glimpser::lower::lower_pat(&mut builder, &none, scope, BindingKind::Let, None);
    assert!(bindings.is_empty());
    match &builder.pats[root.unwrap().0].kind {
        PatKind::Path { path: Some(path) } => {
            assert!(!path.absolute);
            assert_eq!(path.segments.len(), 1);
            assert!(matches!(&path.segments[0], PathSegment::Name(n) if n == "None"));
        },
        other => panic!("expected a path, got {other:?}"),
    }
    // `mut None` binds the name.
    let mut_none = PatSyntax::Ident { source: src(0, 8), text: "mut None".to_string(), name: Some("None".to_string()), by_ref: false, mutable: true, pat: None };
    let (_, bindings) = rust_glimpser::lower::lower_pat(&mut builder, &mut_none, scope, BindingKind::Let, None);
    assert_eq!(bindings.len(), 1);
}

fn empty_semantic_index() -> rust_glimpser::semantic::SemanticIndex {
    rust_glimpser::semantic::SemanticIndex { type_defs: Vec::new(), traits: Vec::new(), functions: Vec::new(), impls: Vec::new() }
}

#[test]
fn rebuilding_bodies_replaces_only_the_listed_packages() {
    let def_map = rust_glimpser::db::DefMapDb::from_packages(Vec::new());
    let sem = empty_semantic_index();
    let skipped = build_package(BodyIrBuildPolicy::default(), false, vec![three_functions()]);
    let built = build_package(BodyIrBuildPolicy::all_packages(), true, vec![three_functions()]);
    let mut rebuilt = rust_glimpser::body::BodyIrDb::new(vec![
        build_package(BodyIrBuildPolicy::default(), false, vec![three_functions()]),
        build_package(BodyIrBuildPolicy::default(), false, vec![three_functions()]),
    ]);
    let placeholder = rust_glimpser::body::PackageBodies::new(Vec::new());
    rebuild_bodies(&mut rebuilt, &def_map, &sem, &vec![PackageSlot(1)], vec![placeholder, built]).expect("rebuild should succeed");
    assert_eq!(rebuilt.packages().len(), 2);
    // The listed package now holds its freshly lowered, resolved bodies.
    assert_eq!(rebuilt.packages()[1].targets[0].status, TargetBodiesStatus::Built);
    assert_eq!(rebuilt.packages()[1].targets[0].bodies.len(), 1);
    let body = &rebuilt.packages()[1].targets[0].bodies[0];
    assert!(matches!(body.exprs[body.root_expr.0].ty, BodyTy::Unit));
    // The other package is kept as it was.
    assert_eq!(rebuilt.packages()[0].targets[0].status, skipped.targets[0].status);
    assert!(rebuilt.packages()[0].targets[0].bodies.is_empty());
}

#[test]
fn rebuilding_bodies_reports_the_first_unavailable_slot() {
    let def_map = rust_glimpser::db::DefMapDb::from_packages(Vec::new());
    let sem = empty_semantic_index();
    let mut old = rust_glimpser::body::BodyIrDb::new(vec![build_package(BodyIrBuildPolicy::default(), false, vec![three_functions()])]);
    let lowered = vec![
        rust_glimpser::body::PackageBodies::new(Vec::new()),
        rust_glimpser::body::PackageBodies::new(Vec::new()),
    ];
    let err = rebuild_bodies(&mut old, &def_map, &sem, &vec![PackageSlot(3), PackageSlot(1)], lowered).unwrap_err();
    assert_eq!(err, BodyRebuildError::UnknownPackageSlot(PackageSlot(1)));
    // The snapshot is left as it was.
    assert_eq!(old.packages().len(), 1);
    assert_eq!(old.packages()[0].targets[0].function_bodies.len(), 3);
    let mut old = rust_glimpser::body::BodyIrDb::new(Vec::new());
    let err = rebuild_bodies(&mut old, &def_map, &sem, &vec![PackageSlot(3)], Vec::new()).unwrap_err();
    assert_eq!(err, BodyRebuildError::MissingLoweredPackage(PackageSlot(3)));
}

fn field_span() -> Span {
    span(10, 17)
}

#[test]
fn offloaded_body_packages_are_no_longer_resident() {
    let def_map = rust_glimpser::db::DefMapDb::from_packages(Vec::new());
    let sem = empty_semantic_index();
    let mut db = rust_glimpser::body::BodyIrDb::new(vec![
        build_package(BodyIrBuildPolicy::all_packages(), true, vec![three_functions()]),
        build_package(BodyIrBuildPolicy::all_packages(), true, vec![three_functions()]),
    ]);
    let body_ref = BodyRef { target: TargetRef { package: PackageSlot(0), target: TargetId(0) }, body: BodyId(0) };
    assert!(db.body_data(body_ref).is_some());

    assert_eq!(db.offload_package(PackageSlot(0)), Some(()));
    assert_eq!(db.package_count(), 2);
    assert!(db.resident_package(PackageSlot(0)).is_none());
    assert!(db.resident_package(PackageSlot(1)).is_some());
    assert!(db.body_data(body_ref).is_none());
    assert_eq!(db.stats().target_count, 1);
    assert_eq!(db.offload_package(PackageSlot(2)), None);

    // Rebuilding an offloaded slot makes it resident again.
    let built = build_package(BodyIrBuildPolicy::all_packages(), true, vec![three_functions()]);
    rebuild_bodies(&mut db, &def_map, &sem, &vec![PackageSlot(0)], vec![built]).expect("rebuild should succeed");
    assert!(db.resident_package(PackageSlot(0)).is_some());
    assert!(db.body_data(body_ref).is_some());
}
