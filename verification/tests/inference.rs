use rust_glimpser::body::{
    BodyData, BodyGenericArg, BodyIrDb, BodyNominalTy, BodyResolution, BodySource, BodyTy, ExprKind, PackageBodies, ResolvedFieldRef,
    ResolvedFunctionRef, TargetBodies,
};
use rust_glimpser::body_ids::{BindingId, BodyFunctionId, BodyFunctionRef, BodyId, BodyItemId, BodyItemRef, BodyRef, ExprId, ScopeId};
use rust_glimpser::body_infer::{resolve_bodies, resolve_body, resolve_expr, ty_for_field};
use rust_glimpser::body_resolve::BodyTypePathResolution;
use rust_glimpser::db::DefMapDb;
use rust_glimpser::def_map::{DefMap, ItemTreeRef, LocalDefData, LocalDefKind, ModuleData, ModuleOrigin};
use rust_glimpser::freeze::build_db;
use rust_glimpser::ids::{DefId, LocalDefId, LocalDefRef, ModuleId, ModuleRef, PackageSlot, TargetRef};
use rust_glimpser::imports::TargetState;
use rust_glimpser::item_tree::{
    FieldItem, FieldKey, FieldList, FieldRef, FunctionId, FunctionItem, FunctionRef, GenericArg, GenericParams, ParamItem, ParamKind,
    TraitRef, TypeDefRef, TypeParamItem, TypePath, TypePathSegment, TypeRef,
};
use rust_glimpser::lower_body::{
    AssocItemSyntax, BlockSyntax, ExprSyntax, ExprSyntaxKind, FunctionBodyLowering, MatchArmSyntax, NameSyntax, ParamListSyntax,
    ParamSyntax, StmtSyntax, StmtSyntaxKind,
};
use rust_glimpser::lower::{PatSyntax, RecordPatFieldSyntax};
use rust_glimpser::pattern_types::{propagate, variant_field_ty};
use rust_glimpser::path::{Path, PathSegment};
use rust_glimpser::scope::{ModuleScope, Namespace, ScopeBinding, VisibilityLevel};
use rust_glimpser::semantic::{
    ImplId, ImplRef, ItemOwner, SemanticFunction, SemanticImpl, SemanticIndex, SemanticTrait, SemanticTypeDef, SemanticVariant, TypeDefKind,
    TypePathContext,
};
use rust_glimpser::receiver::{
    impl_self_args_match_receiver, semantic_function_applies_to_receiver, semantic_impl_self_subst, subst_from_generics,
    substitute_type_param, ty_from_type_ref_in_context,
};
use rust_glimpser::text::{FileId, Span, TargetId, TextSpan};
use rust_glimpser::dot_completion::{CompletionKind, CompletionResolver, CompletionTarget};
use rust_glimpser::navigation::{
    declaration_label, NavigationTargetKind, NavigationTargetResolver, SymbolAt, SymbolResolver, TypeDefinitionResolver, TypeResolver,
};

fn span(start: u32, end: u32) -> Span {
    Span { text: TextSpan { start, end } }
}

fn src(start: u32, end: u32) -> BodySource {
    BodySource { file_id: FileId(0), span: span(start, end) }
}

fn target() -> TargetRef {
    TargetRef { package: PackageSlot(0), target: TargetId(0) }
}

fn root() -> ModuleRef {
    ModuleRef { target: target(), module: ModuleId(0) }
}

fn user_def() -> LocalDefRef {
    LocalDefRef { target: target(), local_def: LocalDefId(0) }
}

fn make_user_def() -> LocalDefRef {
    LocalDefRef { target: target(), local_def: LocalDefId(1) }
}

fn wrapper_def() -> LocalDefRef {
    LocalDefRef { target: target(), local_def: LocalDefId(2) }
}

fn wrapper_ty() -> TypeDefRef {
    TypeDefRef { target: target(), index: 1 }
}

fn option_ty() -> TypeDefRef {
    TypeDefRef { target: target(), index: 2 }
}

fn event_ty() -> TypeDefRef {
    TypeDefRef { target: target(), index: 3 }
}

fn user_ty() -> TypeDefRef {
    TypeDefRef { target: target(), index: 0 }
}

fn make_user_fn() -> FunctionRef {
    FunctionRef { target: target(), id: FunctionId(1) }
}

fn id_method() -> FunctionRef {
    FunctionRef { target: target(), id: FunctionId(2) }
}

fn name_path(name: &str) -> Path {
    Path { absolute: false, segments: vec![PathSegment::Name(name.to_string())] }
}

fn type_named(name: &str) -> TypeRef {
    TypeRef::Path(TypePath {
        absolute: false,
        segments: vec![TypePathSegment { name: name.to_string(), span: span(0, 0), args: Vec::new() }],
    })
}

fn local_def(name: &str, kind: LocalDefKind) -> LocalDefData {
    LocalDefData {
        module: ModuleId(0),
        name: name.to_string(),
        kind,
        visibility: VisibilityLevel::Public,
        source: ItemTreeRef { file_id: FileId(0), item: 0 },
        file_id: FileId(0),
        name_span: None,
        span: span(0, 0),
    }
}

/// A crate whose root declares `struct User` and `fn make_user()`.
fn def_map_db() -> DefMapDb {
    let mut scope = ModuleScope::new();
    scope.insert_binding(
        &"User".to_string(),
        Namespace::Types,
        ScopeBinding { def: DefId::Local(user_def()), visibility: VisibilityLevel::Public, owner: root() },
    );
    scope.insert_binding(
        &"Wrapper".to_string(),
        Namespace::Types,
        ScopeBinding { def: DefId::Local(wrapper_def()), visibility: VisibilityLevel::Public, owner: root() },
    );
    scope.insert_binding(
        &"Option".to_string(),
        Namespace::Types,
        ScopeBinding { def: DefId::Local(LocalDefRef { target: target(), local_def: LocalDefId(3) }), visibility: VisibilityLevel::Public, owner: root() },
    );
    scope.insert_binding(
        &"Event".to_string(),
        Namespace::Types,
        ScopeBinding { def: DefId::Local(LocalDefRef { target: target(), local_def: LocalDefId(4) }), visibility: VisibilityLevel::Public, owner: root() },
    );
    scope.insert_binding(
        &"make_user".to_string(),
        Namespace::Values,
        ScopeBinding { def: DefId::Local(make_user_def()), visibility: VisibilityLevel::Public, owner: root() },
    );
    let module = ModuleData {
        name: None,
        name_span: None,
        parent: None,
        children: Vec::new(),
        local_defs: Vec::new(),
        impls: Vec::new(),
        imports: Vec::new(),
        unresolved_imports: Vec::new(),
        scope: ModuleScope::new(),
        origin: ModuleOrigin::Root { file_id: FileId(0) },
    };
    let state = TargetState {
        target: target(),
        target_name: "app".to_string(),
        def_map: DefMap {
            root_module: Some(ModuleId(0)),
            extern_prelude: Vec::new(),
            prelude: None,
            modules: vec![module],
            local_defs: vec![
                local_def("User", LocalDefKind::Struct),
                local_def("make_user", LocalDefKind::Function),
                local_def("Wrapper", LocalDefKind::Struct),
                local_def("Option", LocalDefKind::Enum),
                local_def("Event", LocalDefKind::Enum),
            ],
            local_impls: Vec::new(),
            imports: Vec::new(),
        },
        base_scopes: vec![scope],
        implicit_roots: Vec::new(),
        prelude: None,
    };
    let mut states = vec![vec![state]];
    build_db(&vec!["app".to_string()], &vec![name_path("std")], &mut states)
}

/// `struct User { id: u32 }`, `fn make_user() -> User`, and `impl User { fn id(&self) -> u32 }`.
fn semantic_index() -> SemanticIndex {
    SemanticIndex {
        type_defs: vec![SemanticTypeDef {
            def: user_ty(),
            kind: TypeDefKind::Struct,
            local_def: user_def(),
            owner_module: root(),
            file_id: FileId(0),
            generics: GenericParams { types: Vec::new() },
            variants: Vec::new(),
            fields: FieldList { fields: vec![FieldItem { key: Some(FieldKey::Named("id".to_string())), ty: type_named("u32"), span: field_span() }] },
        }, SemanticTypeDef {
            def: wrapper_ty(),
            kind: TypeDefKind::Struct,
            local_def: wrapper_def(),
            owner_module: root(),
            file_id: FileId(0),
            generics: GenericParams { types: vec![TypeParamItem { name: "T".to_string() }] },
            variants: Vec::new(),
            fields: FieldList { fields: vec![FieldItem { key: Some(FieldKey::Named("inner".to_string())), ty: type_named("T"), span: field_span() }] },
        }, SemanticTypeDef {
            def: option_ty(),
            kind: TypeDefKind::Enum,
            local_def: LocalDefRef { target: target(), local_def: LocalDefId(3) },
            owner_module: root(),
            file_id: FileId(0),
            generics: GenericParams { types: vec![TypeParamItem { name: "T".to_string() }] },
            variants: vec![
                SemanticVariant { name: "Some".to_string(), fields: FieldList { fields: vec![FieldItem { key: Some(FieldKey::Tuple(0)), ty: type_named("T"), span: field_span() }] } },
                SemanticVariant { name: "None".to_string(), fields: FieldList { fields: Vec::new() } },
            ],
            fields: FieldList { fields: Vec::new() },
        }, SemanticTypeDef {
            def: event_ty(),
            kind: TypeDefKind::Enum,
            local_def: LocalDefRef { target: target(), local_def: LocalDefId(4) },
            owner_module: root(),
            file_id: FileId(0),
            generics: GenericParams { types: Vec::new() },
            variants: vec![
                SemanticVariant { name: "Login".to_string(), fields: FieldList { fields: vec![FieldItem { key: Some(FieldKey::Tuple(0)), ty: type_named("User"), span: field_span() }] } },
                SemanticVariant {
                    name: "Rename".to_string(),
                    fields: FieldList { fields: vec![FieldItem { key: Some(FieldKey::Named("to".to_string())), ty: type_named("User"), span: field_span() }] },
                },
            ],
            fields: FieldList { fields: Vec::new() },
        }],
        traits: Vec::new(),
        functions: vec![
            SemanticFunction {
                function: make_user_fn(),
                owner: ItemOwner::Module(root()),
                local_def: Some(make_user_def()),
                name: "make_user".to_string(),
                file_id: FileId(0),
                span: span(30, 60),
                name_span: Some(span(33, 42)),
                declaration: FunctionItem { params: Vec::new(), ret_ty: Some(type_named("User")) },
                context: Some(TypePathContext::module(root())),
            },
            SemanticFunction {
                function: id_method(),
                owner: ItemOwner::Impl(ImplId(1)),
                local_def: None,
                name: "id".to_string(),
                file_id: FileId(0),
                span: span(70, 90),
                name_span: None,
                declaration: FunctionItem {
                    params: vec![ParamItem { kind: ParamKind::SelfParam, ty: None }],
                    ret_ty: Some(type_named("u32")),
                },
                context: Some(TypePathContext::module(root())),
            },
        ],
        impls: vec![SemanticImpl {
            impl_ref: ImplRef { target: target(), id: ImplId(1) },
            owner: root(),
            self_ty: type_named("User"),
            generics: GenericParams { types: Vec::new() },
            resolved_self_tys: vec![user_ty()],
            trait_ref: None,
            functions: vec![id_method()],
        }],
    }
}

fn lowering() -> FunctionBodyLowering {
    FunctionBodyLowering::new(FunctionRef { target: target(), id: FunctionId(0) }, root(), src(0, 200))
}

fn ident(start: u32, name: &str) -> PatSyntax {
    PatSyntax::Ident {
        source: src(start, start + name.len() as u32),
        text: name.to_string(),
        name: Some(name.to_string()),
        by_ref: false,
        mutable: false,
        pat: None,
    }
}

fn path_expr(start: u32, name: &str) -> ExprSyntax {
    ExprSyntax {
        source: src(start, start + name.len() as u32),
        text: name.to_string(),
        kind: ExprSyntaxKind::Path { path: Some(name_path(name)) },
    }
}

fn field_expr(start: u32, base: ExprSyntax, name: &str) -> ExprSyntax {
    ExprSyntax {
        source: src(start, start + 10),
        text: format!("{}.{name}", base.text),
        kind: ExprSyntaxKind::Field {
            base: Some(Box::new(base)),
            dot_span: None,
            field: Some(FieldKey::Named(name.to_string())),
            field_span: None,
        },
    }
}

fn method_call(start: u32, receiver: ExprSyntax, name: &str) -> ExprSyntax {
    ExprSyntax {
        source: src(start, start + 10),
        text: format!("{}.{name}()", receiver.text),
        kind: ExprSyntaxKind::MethodCall {
            receiver: Some(Box::new(receiver)),
            dot_span: None,
            name: Some(NameSyntax { source: src(start + 2, start + 4), text: name.to_string() }),
            args: Vec::new(),
        },
    }
}

fn let_stmt(start: u32, name: &str, initializer: ExprSyntax) -> StmtSyntax {
    StmtSyntax {
        source: src(start, start + 10),
        kind: StmtSyntaxKind::Let { pat: Some(ident(start + 4, name)), ty: None, initializer: Some(Box::new(initializer)) },
    }
}

fn expr_with_text<'a>(body: &'a BodyData, text: &str) -> &'a rust_glimpser::body::ExprData {
    body.exprs
        .iter()
        .find(|e| match &e.kind {
            ExprKind::Path { path } => path.segments.len() == 1 && matches!(&path.segments[0], PathSegment::Name(n) if n == text),
            _ => false,
        })
        .expect("expression")
}

fn is_user(ty: &BodyTy) -> bool {
    matches!(ty, BodyTy::Nominal(types) if types.len() == 1 && types[0].def == user_ty() && types[0].args.is_empty())
}

fn is_u32_syntax(ty: &BodyTy) -> bool {
    matches!(ty, BodyTy::Syntax(TypeRef::Path(p)) if p.segments.len() == 1 && p.segments[0].name == "u32")
}

/// `fn f(u: User) { let a = u.id; let b = make_user(); u.id() }`
fn module_level_body() -> BodyData {
    let params = ParamListSyntax {
        self_param: None,
        params: vec![ParamSyntax { source: src(5, 12), pat: Some(ident(5, "u")), ty: Some(type_named("User")) }],
    };
    let call = ExprSyntax {
        source: src(40, 51),
        text: "make_user()".to_string(),
        kind: ExprSyntaxKind::Call { callee: Some(Box::new(path_expr(40, "make_user"))), args: Vec::new() },
    };
    let block = BlockSyntax {
        statements: vec![let_stmt(16, "a", field_expr(24, path_expr(24, "u"), "id")), let_stmt(32, "b", call)],
        tail: Some(Box::new(method_call(60, path_expr(60, "u"), "id"))),
    };
    lowering().lower(Some(params), src(14, 80), block)
}

#[test]
fn paths_fields_calls_and_methods_resolve_through_the_semantic_index() {
    let def_map = def_map_db();
    let sem = semantic_index();
    let mut body = module_level_body();
    let body_ref = BodyRef { target: target(), body: BodyId(0) };
    resolve_body(&sem, &def_map, &mut body, body_ref);

    // The parameter's annotation names the module-level struct.
    assert!(is_user(&body.bindings[0].ty));
    let u = expr_with_text(&body, "u");
    assert!(matches!(u.resolution, BodyResolution::Local(BindingId(0))));
    assert!(is_user(&u.ty));

    let field = body.exprs.iter().find(|e| matches!(e.kind, ExprKind::Field { .. })).unwrap();
    match &field.resolution {
        BodyResolution::Field(fields) => assert_eq!(fields, &vec![ResolvedFieldRef::Semantic(FieldRef { owner: user_ty(), index: 0 })]),
        other => panic!("expected a field, got {other:?}"),
    }
    // `u32` names nothing in the def map, so the field type stays as written.
    assert!(is_u32_syntax(&field.ty));

    let callee = expr_with_text(&body, "make_user");
    assert!(matches!(&callee.resolution, BodyResolution::Item(defs) if defs == &vec![DefId::Local(make_user_def())]));
    assert!(matches!(callee.ty, BodyTy::Unknown));
    let call = body.exprs.iter().find(|e| matches!(e.kind, ExprKind::Call { .. })).unwrap();
    assert!(is_user(&call.ty));
    // `let b = make_user();` takes the initializer's type in the second round.
    assert!(is_user(&body.bindings[2].ty));
    // So does `let a = u.id;`, whose field type is written `u32`.
    assert!(is_u32_syntax(&body.bindings[1].ty));

    let method = body.exprs.iter().find(|e| matches!(e.kind, ExprKind::MethodCall { .. })).unwrap();
    match &method.resolution {
        BodyResolution::Method(functions) => assert_eq!(functions, &vec![ResolvedFunctionRef::Semantic(id_method())]),
        other => panic!("expected a method, got {other:?}"),
    }
    assert!(is_u32_syntax(&method.ty));
    // The block takes the type of its tail.
    assert!(is_u32_syntax(&body.exprs[body.root_expr.0].ty));
}

#[test]
fn unknown_methods_and_fields_resolve_to_nothing() {
    let def_map = def_map_db();
    let sem = semantic_index();
    let params = ParamListSyntax {
        self_param: None,
        params: vec![ParamSyntax { source: src(5, 12), pat: Some(ident(5, "u")), ty: Some(type_named("User")) }],
    };
    let block = BlockSyntax {
        statements: vec![let_stmt(16, "a", field_expr(24, path_expr(24, "u"), "missing"))],
        tail: Some(Box::new(method_call(60, path_expr(60, "u"), "missing"))),
    };
    let mut body = lowering().lower(Some(params), src(14, 80), block);
    resolve_body(&sem, &def_map, &mut body, BodyRef { target: target(), body: BodyId(0) });
    let field = body.exprs.iter().find(|e| matches!(e.kind, ExprKind::Field { .. })).unwrap();
    assert!(matches!(field.resolution, BodyResolution::Unknown));
    assert!(matches!(field.ty, BodyTy::Unknown));
    let method = body.exprs.iter().find(|e| matches!(e.kind, ExprKind::MethodCall { .. })).unwrap();
    assert!(matches!(method.resolution, BodyResolution::Unknown));
    assert!(matches!(method.ty, BodyTy::Unknown));
}

/// `{ struct S { f: u8 } impl S { fn get(&self) -> Self } let s = S; s.f; s.get() }`
fn local_items_body() -> BodyData {
    let fields = FieldList { fields: vec![FieldItem { key: Some(FieldKey::Named("f".to_string())), ty: type_named("u8"), span: field_span() }] };
    let get = AssocItemSyntax::Fn {
        source: src(30, 50),
        name: Some(NameSyntax { source: src(33, 36), text: "get".to_string() }),
        declaration: FunctionItem {
            params: vec![ParamItem { kind: ParamKind::SelfParam, ty: None }],
            ret_ty: Some(type_named("Self")),
        },
    };
    let block = BlockSyntax {
        statements: vec![
            StmtSyntax {
                source: src(2, 20),
                kind: StmtSyntaxKind::Struct { name: Some(NameSyntax { source: src(9, 10), text: "S".to_string() }), fields },
            },
            StmtSyntax {
                source: src(21, 70),
                kind: StmtSyntaxKind::Impl { trait_ref: None, self_ty: type_named("S"), items: vec![get] },
            },
            let_stmt(71, "s", path_expr(79, "S")),
            StmtSyntax {
                source: src(81, 85),
                kind: StmtSyntaxKind::Expr { expr: Some(Box::new(field_expr(81, path_expr(81, "s"), "f"))), has_semicolon: true },
            },
        ],
        tail: Some(Box::new(method_call(90, path_expr(90, "s"), "get"))),
    };
    lowering().lower(None, src(0, 100), block)
}

#[test]
fn body_local_structs_shadow_module_items_and_give_their_fields_and_methods() {
    let def_map = def_map_db();
    let sem = semantic_index();
    let mut body = local_items_body();
    let body_ref = BodyRef { target: target(), body: BodyId(0) };
    resolve_body(&sem, &def_map, &mut body, body_ref);
    let item = BodyItemRef { body: body_ref, item: BodyItemId(0) };

    assert_eq!(body.local_impls[0].self_item, Some(item));
    let s_path = expr_with_text(&body, "S");
    assert!(matches!(s_path.resolution, BodyResolution::LocalItem(i) if i == item));
    // `let s = S;` takes the local type from its initializer, and a later round resolves `s.f`.
    assert!(matches!(&body.bindings[0].ty, BodyTy::LocalNominal(items) if items.len() == 1 && items[0].item == item));
    let field = body.exprs.iter().find(|e| matches!(e.kind, ExprKind::Field { .. })).unwrap();
    match &field.resolution {
        BodyResolution::Field(fields) => assert_eq!(fields.len(), 1),
        other => panic!("expected a field, got {other:?}"),
    }
}

#[test]
fn local_methods_return_their_impl_item_for_self() {
    let def_map = def_map_db();
    let sem = semantic_index();
    // Same body, but `let s: S = S;` so that `s` has the local type.
    let mut body = local_items_body();
    body.bindings[0].annotation = Some(type_named("S"));
    let body_ref = BodyRef { target: target(), body: BodyId(0) };
    resolve_body(&sem, &def_map, &mut body, body_ref);
    let item = BodyItemRef { body: body_ref, item: BodyItemId(0) };

    assert!(matches!(&body.bindings[0].ty, BodyTy::LocalNominal(items) if items.len() == 1 && items[0].item == item));
    let field = body.exprs.iter().find(|e| matches!(e.kind, ExprKind::Field { .. })).unwrap();
    match &field.resolution {
        BodyResolution::Field(fields) => assert_eq!(fields.len(), 1),
        other => panic!("expected a field, got {other:?}"),
    }
    // `u8` names nothing, so the field type stays as written.
    assert!(matches!(&field.ty, BodyTy::Syntax(TypeRef::Path(p)) if p.segments[0].name == "u8"));
    let method = body.exprs.iter().find(|e| matches!(e.kind, ExprKind::MethodCall { .. })).unwrap();
    match &method.resolution {
        BodyResolution::Method(functions) => assert_eq!(
            functions,
            &vec![ResolvedFunctionRef::BodyLocal(BodyFunctionRef { body: body_ref, function: BodyFunctionId(0) })]
        ),
        other => panic!("expected a method, got {other:?}"),
    }
    // `-> Self` in a local impl is the impl's local item.
    assert!(matches!(&method.ty, BodyTy::LocalNominal(items) if items.len() == 1 && items[0].item == item));
}

#[test]
fn field_types_and_type_paths_are_read_in_their_module() {
    let def_map = def_map_db();
    let sem = semantic_index();
    let field = ty_for_field(&def_map, &sem, FieldRef { owner: user_ty(), index: 0 }).expect("field type");
    // The path fallback for a field type is unknown.
    assert!(matches!(field, BodyTy::Unknown));
    assert!(ty_for_field(&def_map, &sem, FieldRef { owner: user_ty(), index: 3 }).is_none());

    let mut target_bodies = TargetBodies::new(1);
    let id = target_bodies.alloc_body(local_items_body());
    target_bodies.set_function_body(FunctionId(0), id);
    let mut db = BodyIrDb::new(vec![PackageBodies::new(vec![target_bodies])]);
    resolve_bodies(&mut db, &def_map, &sem);
    let body_ref = BodyRef { target: target(), body: BodyId(0) };
    let local = BodyItemRef { body: body_ref, item: BodyItemId(0) };
    assert_eq!(db.body_data(body_ref).unwrap().local_impls[0].self_item, Some(local));

    match db.resolve_type_path_in_scope(&def_map, &sem, body_ref, ScopeId(1), &name_path("S")) {
        BodyTypePathResolution::BodyLocal(item) => assert_eq!(item, local),
        other => panic!("expected the local struct, got {other:?}"),
    }
    // Outside the block `S` is unknown, while `User` names the module-level struct.
    assert!(matches!(db.resolve_type_path_in_scope(&def_map, &sem, body_ref, ScopeId(0), &name_path("S")), BodyTypePathResolution::Unknown));
    match db.resolve_type_path_in_scope(&def_map, &sem, body_ref, ScopeId(1), &name_path("User")) {
        BodyTypePathResolution::TypeDefs(types) => assert_eq!(types, vec![user_ty()]),
        other => panic!("expected the module-level struct, got {other:?}"),
    }
    let missing = BodyRef { target: target(), body: BodyId(4) };
    assert!(matches!(db.resolve_type_path_in_scope(&def_map, &sem, missing, ScopeId(0), &name_path("S")), BodyTypePathResolution::Unknown));
}

fn generic_type(name: &str, args: Vec<TypeRef>) -> TypeRef {
    TypeRef::Path(TypePath {
        absolute: false,
        segments: vec![TypePathSegment {
            name: name.to_string(),
            span: span(0, 0),
            args: args.into_iter().map(GenericArg::Type).collect(),
        }],
    })
}

fn nominal(def: TypeDefRef, args: Vec<BodyTy>) -> BodyNominalTy {
    BodyNominalTy { def, args: args.into_iter().map(|t| BodyGenericArg::Type(Box::new(t))).collect() }
}

fn user() -> BodyTy {
    BodyTy::Nominal(vec![nominal(user_ty(), Vec::new())])
}

/// `impl<params> Wrapper<args> { fn get(&self) -> .. }`, as function 5 and impl 0.
fn index_with_impl(params: &[&str], args: Vec<TypeRef>) -> SemanticIndex {
    let mut sem = semantic_index();
    sem.impls.insert(0, SemanticImpl {
        impl_ref: ImplRef { target: target(), id: ImplId(0) },
        owner: root(),
        self_ty: generic_type("Wrapper", args),
        generics: GenericParams { types: params.iter().map(|p| TypeParamItem { name: p.to_string() }).collect() },
        resolved_self_tys: vec![wrapper_ty()],
        trait_ref: None,
        functions: vec![FunctionRef { target: target(), id: FunctionId(5) }],
    });
    sem.functions.push(SemanticFunction {
        function: FunctionRef { target: target(), id: FunctionId(5) },
        owner: ItemOwner::Impl(ImplId(0)),
        local_def: None,
        name: "get".to_string(),
        file_id: FileId(0),
        span: span(100, 120),
        name_span: None,
        declaration: FunctionItem { params: vec![ParamItem { kind: ParamKind::SelfParam, ty: None }], ret_ty: Some(type_named("U")) },
        context: None,
    });
    sem
}

#[test]
fn impl_type_parameters_match_any_receiver_argument() {
    let def_map = def_map_db();
    let sem = index_with_impl(&["U"], vec![type_named("U")]);
    let get = FunctionRef { target: target(), id: FunctionId(5) };
    let receiver = nominal(wrapper_ty(), vec![user()]);
    assert!(semantic_function_applies_to_receiver(&sem, &def_map, get, &receiver));
    // `impl<U> Wrapper<U>` with a `Wrapper<User>` receiver gives `U` as `User`.
    let subst = semantic_impl_self_subst(&sem, get, &receiver);
    assert_eq!(subst.len(), 1);
    assert_eq!(subst[0].0, "U");
    assert!(subst[0].1.same_as(&user()));
    // A receiver of another type is not a candidate, and a function outside impls always is.
    assert!(!semantic_function_applies_to_receiver(&sem, &def_map, get, &nominal(user_ty(), Vec::new())));
    assert!(semantic_function_applies_to_receiver(&sem, &def_map, make_user_fn(), &nominal(user_ty(), Vec::new())));
}

#[test]
fn concrete_impl_arguments_must_equal_the_receiver_arguments() {
    let def_map = def_map_db();
    let sem = index_with_impl(&[], vec![type_named("User")]);
    let impl_ref = ImplRef { target: target(), id: ImplId(0) };
    let data = &sem.impls[0];
    assert!(impl_self_args_match_receiver(&sem, &def_map, impl_ref, data, &nominal(wrapper_ty(), vec![user()])));
    assert!(!impl_self_args_match_receiver(&sem, &def_map, impl_ref, data, &nominal(wrapper_ty(), vec![BodyTy::Unit])));
    // A receiver with a different number of type arguments does not match.
    assert!(!impl_self_args_match_receiver(&sem, &def_map, impl_ref, data, &nominal(wrapper_ty(), Vec::new())));
    // An impl whose self type writes no arguments matches every receiver of its type.
    let bare = index_with_impl(&[], Vec::new());
    assert!(impl_self_args_match_receiver(&bare, &def_map, impl_ref, &bare.impls[0], &nominal(wrapper_ty(), vec![BodyTy::Unit])));
    assert!(semantic_impl_self_subst(&sem, FunctionRef { target: target(), id: FunctionId(5) }, &nominal(wrapper_ty(), vec![user()])).is_empty());
}

#[test]
fn substitution_replaces_parameters_and_paths_carry_their_arguments() {
    let def_map = def_map_db();
    let sem = semantic_index();
    let subst = vec![("T".to_string(), user())];
    let ty = ty_from_type_ref_in_context(&sem, &def_map, &generic_type("Wrapper", vec![type_named("T")]), TypePathContext::module(root()), BodyTy::Unknown, &subst);
    let expected = BodyTy::Nominal(vec![nominal(wrapper_ty(), vec![user()])]);
    assert!(ty.same_as(&expected));
    // A bare parameter is replaced; the last entry for a name wins.
    let later = vec![("T".to_string(), BodyTy::Unit), ("T".to_string(), user())];
    assert!(ty_from_type_ref_in_context(&sem, &def_map, &type_named("T"), TypePathContext::module(root()), BodyTy::Unknown, &later).same_as(&user()));
    assert!(substitute_type_param(&name_path("X"), &later).is_none());

    let generics = GenericParams { types: vec![TypeParamItem { name: "A".to_string() }, TypeParamItem { name: "B".to_string() }] };
    let from_use = subst_from_generics(&generics, &vec![BodyGenericArg::Lifetime("'a".to_string()), BodyGenericArg::Type(Box::new(user()))]);
    assert_eq!(from_use.len(), 1);
    assert_eq!(from_use[0].0, "A");
    assert!(from_use[0].1.same_as(&user()));
}

fn tuple_pat(start: u32, variant: &str, fields: Vec<PatSyntax>) -> PatSyntax {
    PatSyntax::TupleStruct { source: src(start, start + 10), text: format!("{variant}(..)"), path: Some(name_path(variant)), pats: fields }
}

#[test]
fn let_annotations_give_variant_payload_types_to_bindings() {
    let def_map = def_map_db();
    let sem = semantic_index();
    // `let Some(x): Option<User> = o;`
    let stmt = StmtSyntax {
        source: src(10, 40),
        kind: StmtSyntaxKind::Let {
            pat: Some(tuple_pat(14, "Some", vec![ident(19, "x")])),
            ty: Some(generic_type("Option", vec![type_named("User")])),
            initializer: Some(Box::new(path_expr(36, "o"))),
        },
    };
    let mut body = lowering().lower(None, src(0, 50), BlockSyntax { statements: vec![stmt], tail: None });
    let body_ref = BodyRef { target: target(), body: BodyId(0) };
    resolve_body(&sem, &def_map, &mut body, body_ref);
    let x = body.bindings.iter().position(|b| b.name.as_deref() == Some("x")).unwrap();
    assert!(body.bindings[x].ty.same_as(&user()));
    // A second run changes nothing: bindings that have a type keep it.
    assert!(!propagate(&sem, &def_map, &mut body, body_ref));
    assert!(body.bindings[x].ty.same_as(&user()));
}

#[test]
fn match_arms_give_variant_payload_types_from_the_scrutinee() {
    let def_map = def_map_db();
    let sem = semantic_index();
    let params = ParamListSyntax {
        self_param: None,
        params: vec![ParamSyntax { source: src(5, 12), pat: Some(ident(5, "e")), ty: Some(type_named("Event")) }],
    };
    let rename = PatSyntax::Record {
        source: src(40, 55),
        text: "Rename { to: v }".to_string(),
        path: Some(name_path("Rename")),
        fields: vec![RecordPatFieldSyntax {
            source: src(48, 55),
            text: "to: v".to_string(),
            name: Some("to".to_string()),
            pat: Some(ident(52, "v")),
        }],
    };
    let match_expr = ExprSyntax {
        source: src(20, 70),
        text: "match e { .. }".to_string(),
        kind: ExprSyntaxKind::Match {
            scrutinee: Some(Box::new(path_expr(26, "e"))),
            arms: vec![
                MatchArmSyntax { pat: Some(tuple_pat(30, "Login", vec![ident(36, "u")])), expr: Some(Box::new(path_expr(38, "u"))) },
                MatchArmSyntax { pat: Some(rename), expr: Some(Box::new(path_expr(58, "v"))) },
            ],
        },
    };
    let mut body = lowering().lower(Some(params), src(14, 80), BlockSyntax { statements: Vec::new(), tail: Some(Box::new(match_expr)) });
    let body_ref = BodyRef { target: target(), body: BodyId(0) };
    resolve_body(&sem, &def_map, &mut body, body_ref);
    // Resolution has already pushed the scrutinee's type into the arms.
    assert!(!propagate(&sem, &def_map, &mut body, body_ref));
    let u = body.bindings.iter().position(|b| b.name.as_deref() == Some("u")).unwrap();
    let v = body.bindings.iter().position(|b| b.name.as_deref() == Some("v")).unwrap();
    assert!(body.bindings[u].ty.same_as(&user()));
    assert!(body.bindings[v].ty.same_as(&user()));
}

#[test]
fn types_in_scope_carry_their_written_arguments() {
    let def_map = def_map_db();
    let sem = semantic_index();
    let body = module_level_body();
    let body_ref = BodyRef { target: target(), body: BodyId(0) };
    let ty = rust_glimpser::scoped_types::ty_from_type_ref_in_scope(&sem, &def_map, &body, body_ref, &generic_type("Option", vec![type_named("User")]), ScopeId(1));
    assert!(ty.same_as(&BodyTy::Nominal(vec![nominal(option_ty(), vec![user()])])));
    // A variant payload of a generic enum takes the argument of the expected type.
    let payload = variant_field_ty(&sem, &def_map, &ty, &"Some".to_string(), &FieldKey::Tuple(0)).expect("payload type");
    assert!(payload.same_as(&user()));
    assert!(variant_field_ty(&sem, &def_map, &ty, &"None".to_string(), &FieldKey::Tuple(0)).is_none());
    assert!(variant_field_ty(&sem, &def_map, &user(), &"Some".to_string(), &FieldKey::Tuple(0)).is_none());
}

#[test]
fn resolving_an_expression_reports_whether_it_changed() {
    let def_map = def_map_db();
    let sem = semantic_index();
    let mut body = module_level_body();
    let body_ref = BodyRef { target: target(), body: BodyId(0) };
    let callee = body
        .exprs
        .iter()
        .position(|e| matches!(&e.kind, ExprKind::Path { path } if matches!(&path.segments[0], PathSegment::Name(n) if n == "make_user")))
        .unwrap();
    // The path is resolved for the first time: its resolution changes.
    assert!(resolve_expr(&sem, &def_map, &mut body, body_ref, rust_glimpser::body_ids::ExprId(callee)));
    // Resolving it again gives the same resolution and type.
    assert!(!resolve_expr(&sem, &def_map, &mut body, body_ref, rust_glimpser::body_ids::ExprId(callee)));
}

#[test]
fn method_candidates_come_from_the_impls_of_the_type() {
    let mut sem = semantic_index();
    let show = TraitRef { target: target(), index: 0 };
    let show_fn = FunctionRef { target: target(), id: FunctionId(7) };
    sem.traits.push(SemanticTrait { trait_ref: show, local_def: make_user_def(), functions: vec![show_fn] });
    // `impl Show for User {}` and a second inherent impl that repeats `id`.
    sem.impls.push(SemanticImpl {
        impl_ref: ImplRef { target: target(), id: ImplId(2) },
        owner: root(),
        self_ty: type_named("User"),
        generics: GenericParams { types: Vec::new() },
        resolved_self_tys: vec![user_ty()],
        trait_ref: Some(show),
        functions: Vec::new(),
    });
    sem.impls.push(SemanticImpl {
        impl_ref: ImplRef { target: target(), id: ImplId(3) },
        owner: root(),
        self_ty: type_named("User"),
        generics: GenericParams { types: Vec::new() },
        resolved_self_tys: vec![user_ty()],
        trait_ref: None,
        functions: vec![id_method(), make_user_fn()],
    });
    assert_eq!(sem.inherent_functions_for_type(user_ty()), vec![id_method(), make_user_fn()]);
    assert_eq!(sem.trait_functions_for_type(user_ty()), vec![show_fn]);
    assert!(sem.inherent_functions_for_type(wrapper_ty()).is_empty());
    assert!(sem.trait_functions_for_type(wrapper_ty()).is_empty());
}

/// `fn f(w: Wrapper<User>) { let a = w.inner; w.get() }`
fn wrapper_body() -> BodyData {
    let params = ParamListSyntax {
        self_param: None,
        params: vec![ParamSyntax { source: src(5, 12), pat: Some(ident(5, "w")), ty: Some(generic_type("Wrapper", vec![type_named("User")])) }],
    };
    let block = BlockSyntax {
        statements: vec![let_stmt(16, "a", field_expr(24, path_expr(24, "w"), "inner"))],
        tail: Some(Box::new(method_call(60, path_expr(60, "w"), "get"))),
    };
    lowering().lower(Some(params), src(14, 80), block)
}

#[test]
fn fields_and_methods_of_generic_receivers_take_the_receiver_arguments() {
    let def_map = def_map_db();
    // `impl<U> Wrapper<U> { fn get(&self) -> U }`
    let sem = index_with_impl(&["U"], vec![type_named("U")]);
    let mut body = wrapper_body();
    resolve_body(&sem, &def_map, &mut body, BodyRef { target: target(), body: BodyId(0) });
    let field = body.exprs.iter().find(|e| matches!(e.kind, ExprKind::Field { .. })).unwrap();
    assert!(matches!(&field.resolution, BodyResolution::Field(fields) if fields.len() == 1));
    assert!(field.ty.same_as(&user()));
    assert!(body.bindings[1].ty.same_as(&user()));
    let method = body.exprs.iter().find(|e| matches!(e.kind, ExprKind::MethodCall { .. })).unwrap();
    assert!(matches!(&method.resolution, BodyResolution::Method(functions) if functions.len() == 1));
    assert!(method.ty.same_as(&user()));
}

#[test]
fn inherent_methods_of_impls_for_other_arguments_do_not_apply() {
    let def_map = def_map_db();
    // `impl Wrapper<()> { fn get(&self) -> U }` does not apply to a `Wrapper<User>` receiver.
    let sem = index_with_impl(&[], vec![TypeRef::Unit]);
    let mut body = wrapper_body();
    resolve_body(&sem, &def_map, &mut body, BodyRef { target: target(), body: BodyId(0) });
    let method = body.exprs.iter().find(|e| matches!(e.kind, ExprKind::MethodCall { .. })).unwrap();
    assert!(matches!(method.resolution, BodyResolution::Unknown));
}

fn field_span() -> Span {
    span(10, 17)
}

fn resolved_db(body: BodyData) -> BodyIrDb {
    let def_map = def_map_db();
    let sem = semantic_index();
    let mut target_bodies = TargetBodies::new(1);
    let id = target_bodies.alloc_body(body);
    target_bodies.set_function_body(FunctionId(0), id);
    let mut db = BodyIrDb::new(vec![PackageBodies::new(vec![target_bodies])]);
    resolve_bodies(&mut db, &def_map, &sem);
    db
}

fn expr_id(body: &BodyData, found: impl Fn(&ExprKind) -> bool) -> ExprId {
    ExprId(body.exprs.iter().position(|e| found(&e.kind)).expect("expression"))
}

#[test]
fn symbols_in_bodies_navigate_to_bindings_and_module_items() {
    let def_map = def_map_db();
    let sem = semantic_index();
    let db = resolved_db(module_level_body());
    let body_ref = BodyRef { target: target(), body: BodyId(0) };
    let body = db.body_data(body_ref).unwrap();
    let resolver = SymbolResolver::new(&def_map, &sem, &db);

    let binding = resolver.resolve_symbol(SymbolAt::Binding { body: body_ref, binding: BindingId(0) });
    assert_eq!(binding.len(), 1);
    assert_eq!(binding[0].kind, NavigationTargetKind::LocalBinding);
    assert_eq!(binding[0].name, "u");
    assert_eq!(binding[0].span, Some(body.bindings[0].source.span));
    assert!(resolver.resolve_symbol(SymbolAt::Binding { body: body_ref, binding: BindingId(9) }).is_empty());

    // The callee `make_user` resolves to the function definition, which lands on its span.
    let callee = expr_id(body, |k| matches!(k, ExprKind::Path { path } if path.segments.len() == 1 && matches!(&path.segments[0], PathSegment::Name(n) if n == "make_user")));
    let targets = resolver.resolve_symbol(SymbolAt::Expr { body: body_ref, expr: callee });
    assert_eq!(targets.len(), 1);
    assert_eq!(targets[0].kind, NavigationTargetKind::Function);
    assert_eq!(targets[0].name, "make_user");
    assert_eq!(targets[0].target, target());
    assert_eq!(targets[0].file_id, FileId(0));
    assert_eq!(targets[0].span, Some(span(0, 0)));

    // `u.id` lands on the field declaration; `u.id()` on the method, whose name span is unknown.
    let field = expr_id(body, |k| matches!(k, ExprKind::Field { .. }));
    let targets = resolver.resolve_symbol(SymbolAt::Expr { body: body_ref, expr: field });
    assert_eq!(targets.len(), 1);
    assert_eq!(targets[0].kind, NavigationTargetKind::Field);
    assert_eq!(targets[0].name, "id");
    assert_eq!(targets[0].span, Some(field_span()));
    let method = expr_id(body, |k| matches!(k, ExprKind::MethodCall { .. }));
    let targets = resolver.resolve_symbol(SymbolAt::Expr { body: body_ref, expr: method });
    assert_eq!(targets.len(), 1);
    assert_eq!(targets[0].name, "id");
    assert_eq!(targets[0].span, Some(span(70, 90)));

    // A whole body has no target.
    assert!(resolver.resolve_symbol(SymbolAt::Body { body: body_ref }).is_empty());
}

#[test]
fn definitions_functions_and_paths_navigate_to_their_declarations() {
    let def_map = def_map_db();
    let sem = semantic_index();
    let db = resolved_db(module_level_body());
    let resolver = SymbolResolver::new(&def_map, &sem, &db);

    // The root module navigates to its file under the name `crate`.
    let module = resolver.resolve_symbol(SymbolAt::Def { def: DefId::Module(root()) });
    assert_eq!(module.len(), 1);
    assert_eq!(module[0].kind, NavigationTargetKind::Module);
    assert_eq!(module[0].name, "crate");
    assert_eq!(module[0].file_id, FileId(0));
    assert_eq!(module[0].span, None);
    let missing = ModuleRef { target: target(), module: ModuleId(7) };
    assert!(resolver.resolve_symbol(SymbolAt::Def { def: DefId::Module(missing) }).is_empty());

    // A function lands on its name span where it has one.
    let function = resolver.resolve_symbol(SymbolAt::Function { function: make_user_fn() });
    assert_eq!(function.len(), 1);
    assert_eq!(function[0].span, Some(span(33, 42)));

    let ty = resolver.resolve_symbol(SymbolAt::TypePath { context: TypePathContext::module(root()), path: name_path("User") });
    assert_eq!(ty.len(), 1);
    assert_eq!(ty[0].kind, NavigationTargetKind::Struct);
    assert_eq!(ty[0].name, "User");
    // `make_user` is no type, so a type path falls back to the definition the path names.
    let value = resolver.resolve_symbol(SymbolAt::TypePath { context: TypePathContext::module(root()), path: name_path("make_user") });
    assert_eq!(value.len(), 1);
    assert_eq!(value[0].kind, NavigationTargetKind::Function);
    let used = resolver.resolve_symbol(SymbolAt::UsePath { module: root(), path: name_path("User") });
    assert_eq!(used.len(), 1);
    assert_eq!(used[0].name, "User");
    assert!(resolver.resolve_symbol(SymbolAt::UsePath { module: root(), path: name_path("Missing") }).is_empty());

    let field = resolver.resolve_symbol(SymbolAt::Field { field: FieldRef { owner: user_ty(), index: 0 } });
    assert_eq!(field.len(), 1);
    assert_eq!(field[0].name, "id");
    assert!(resolver.resolve_symbol(SymbolAt::Field { field: FieldRef { owner: user_ty(), index: 1 } }).is_empty());
    assert_eq!(declaration_label(&FieldKey::Tuple(12)), "12");
    assert_eq!(declaration_label(&FieldKey::Named("to".to_string())), "to");
}

#[test]
fn local_items_navigate_to_their_names_and_types_to_their_definitions() {
    let def_map = def_map_db();
    let sem = semantic_index();
    let db = resolved_db(local_items_body());
    let body_ref = BodyRef { target: target(), body: BodyId(0) };
    let body = db.body_data(body_ref).unwrap();
    let resolver = SymbolResolver::new(&def_map, &sem, &db);

    let local = resolver.resolve_symbol(SymbolAt::BodyPath { body: body_ref, scope: ScopeId(1), path: name_path("S") });
    assert_eq!(local.len(), 1);
    assert_eq!(local[0].kind, NavigationTargetKind::Struct);
    assert_eq!(local[0].name, "S");
    assert_eq!(local[0].span, Some(span(9, 10)));
    let module_level = resolver.resolve_symbol(SymbolAt::BodyPath { body: body_ref, scope: ScopeId(1), path: name_path("User") });
    assert_eq!(module_level.len(), 1);
    assert_eq!(module_level[0].name, "User");
    // `make_user` names no type; the body's module resolves it.
    let value = resolver.resolve_symbol(SymbolAt::BodyPath { body: body_ref, scope: ScopeId(1), path: name_path("make_user") });
    assert_eq!(value.len(), 1);
    assert_eq!(value[0].name, "make_user");

    // The local field `s.f` lands on the field of the local struct.
    let field = expr_id(body, |k| matches!(k, ExprKind::Field { .. }));
    let targets = resolver.resolve_symbol(SymbolAt::Expr { body: body_ref, expr: field });
    assert_eq!(targets.len(), 1);
    assert_eq!(targets[0].kind, NavigationTargetKind::Field);
    assert_eq!(targets[0].name, "f");
    assert_eq!(targets[0].span, Some(field_span()));
    // `s.get()` lands on the local method's name.
    let method = expr_id(body, |k| matches!(k, ExprKind::MethodCall { .. }));
    let targets = resolver.resolve_symbol(SymbolAt::Expr { body: body_ref, expr: method });
    assert_eq!(targets.len(), 1);
    assert_eq!(targets[0].name, "get");
    assert_eq!(targets[0].span, Some(span(33, 36)));

    // The type of `s` is the local struct, whose definition is the type target.
    let types = NavigationTargetResolver::new(&def_map, &sem, &db).navigation_targets_for_body_ty(&body.bindings[0].ty);
    assert_eq!(types.len(), 1);
    assert_eq!(types[0].name, "S");
    let user = NavigationTargetResolver::new(&def_map, &sem, &db).navigation_targets_for_body_ty(&user());
    assert_eq!(user.len(), 1);
    assert_eq!(user[0].name, "User");
    let item = resolver.resolve_symbol(SymbolAt::LocalItem { item: BodyItemRef { body: body_ref, item: BodyItemId(0) } });
    assert_eq!(item[0].name, "S");
}

#[test]
fn symbols_have_the_types_of_what_they_denote() {
    let def_map = def_map_db();
    let sem = semantic_index();
    let db = resolved_db(module_level_body());
    let body_ref = BodyRef { target: target(), body: BodyId(0) };
    let types = TypeResolver::new(&def_map, &sem, &db);

    let binding = types.type_of_symbol(&SymbolAt::Binding { body: body_ref, binding: BindingId(0) }).unwrap();
    assert!(is_user(&binding));
    assert!(types.type_of_symbol(&SymbolAt::Binding { body: body_ref, binding: BindingId(9) }).is_none());
    assert!(is_user(&types.type_of_symbol(&SymbolAt::Def { def: DefId::Local(user_def()) }).unwrap()));
    assert!(types.type_of_symbol(&SymbolAt::Def { def: DefId::Local(make_user_def()) }).is_none());
    assert!(types.type_of_symbol(&SymbolAt::Def { def: DefId::Module(root()) }).is_none());
    assert!(is_user(&types.type_of_symbol(&SymbolAt::TypePath { context: TypePathContext::module(root()), path: name_path("User") }).unwrap()));
    // A path that names no type has the unknown type.
    let value = types.type_of_symbol(&SymbolAt::TypePath { context: TypePathContext::module(root()), path: name_path("make_user") });
    assert!(matches!(value, Some(BodyTy::Unknown)));
    assert!(types.type_of_symbol(&SymbolAt::UsePath { module: root(), path: name_path("User") }).is_none());
    assert!(types.type_of_symbol(&SymbolAt::Function { function: make_user_fn() }).is_none());

    // Go to type definition jumps from `u` to `struct User`; a function has no type here.
    let goto = TypeDefinitionResolver::new(&def_map, &sem, &db);
    let targets = goto.goto_type_definition(&SymbolAt::Binding { body: body_ref, binding: BindingId(0) });
    assert_eq!(targets.len(), 1);
    assert_eq!(targets[0].name, "User");
    assert_eq!(targets[0].kind, NavigationTargetKind::Struct);
    assert!(goto.goto_type_definition(&SymbolAt::Function { function: make_user_fn() }).is_empty());
}

/// `fn f(u: User) { u.id }` with the dot of `u.id` at 25.
fn dot_body() -> BodyData {
    let params = ParamListSyntax {
        self_param: None,
        params: vec![ParamSyntax { source: src(5, 12), pat: Some(ident(5, "u")), ty: Some(type_named("User")) }],
    };
    let tail = ExprSyntax {
        source: src(24, 28),
        text: "u.id".to_string(),
        kind: ExprSyntaxKind::Field {
            base: Some(Box::new(path_expr(24, "u"))),
            dot_span: Some(span(25, 26)),
            field: Some(FieldKey::Named("id".to_string())),
            field_span: Some(span(26, 28)),
        },
    };
    let block = BlockSyntax { statements: Vec::new(), tail: Some(Box::new(tail)) };
    lowering().lower(Some(params), src(14, 40), block)
}

#[test]
fn dot_completions_offer_fields_then_methods_ordered_by_label() {
    let def_map = def_map_db();
    let sem = semantic_index();
    let db = resolved_db(dot_body());
    let resolver = CompletionResolver::new(&def_map, &sem, &db);

    // `User` has the field `id` and the method `id(&self)`: same label, the field first.
    let items = resolver.completions_for_receiver_ty(&user());
    assert_eq!(items.len(), 2);
    assert_eq!(items[0].label, "id");
    assert_eq!(items[0].kind, CompletionKind::Field);
    assert_eq!(items[0].target, CompletionTarget::Field(ResolvedFieldRef::Semantic(FieldRef { owner: user_ty(), index: 0 })));
    assert_eq!(items[1].label, "id");
    assert_eq!(items[1].kind, CompletionKind::InherentMethod);
    assert_eq!(items[1].target, CompletionTarget::Function(ResolvedFunctionRef::Semantic(id_method())));
    assert!(resolver.completions_for_receiver_ty(&BodyTy::Unknown).is_empty());

    // After the dot of `u.id` the receiver `u` has type `User`.
    let at_dot = resolver.completions_at_dot(target(), FileId(0), 26);
    assert_eq!(at_dot.len(), 2);
    assert_eq!(at_dot[0].kind, CompletionKind::Field);
    // Away from any dot there is nothing to complete.
    assert!(resolver.completions_at_dot(target(), FileId(0), 6).is_empty());
}

#[test]
fn dot_completions_of_local_items_list_fields_and_self_methods() {
    let def_map = def_map_db();
    let sem = semantic_index();
    let db = resolved_db(local_items_body());
    let body = db.body_data(BodyRef { target: target(), body: BodyId(0) }).unwrap();
    let resolver = CompletionResolver::new(&def_map, &sem, &db);
    let items = resolver.completions_for_receiver_ty(&body.bindings[0].ty);
    let labels: Vec<(&str, CompletionKind)> = items.iter().map(|c| (c.label.as_str(), c.kind)).collect();
    assert_eq!(labels, vec![("f", CompletionKind::Field), ("get", CompletionKind::InherentMethod)]);
}

fn semantic_method(id: usize, owner: ItemOwner, name: &str, takes_self: bool) -> SemanticFunction {
    let params = if takes_self { vec![ParamItem { kind: ParamKind::SelfParam, ty: None }] } else { Vec::new() };
    SemanticFunction {
        function: FunctionRef { target: target(), id: FunctionId(id) },
        owner,
        local_def: None,
        name: name.to_string(),
        file_id: FileId(0),
        span: span(0, 0),
        name_span: None,
        declaration: FunctionItem { params, ret_ty: None },
        context: Some(TypePathContext::module(root())),
    }
}

fn trait_impl(id: usize, t: TraitRef, functions: Vec<usize>) -> SemanticImpl {
    SemanticImpl {
        impl_ref: ImplRef { target: target(), id: ImplId(id) },
        owner: root(),
        self_ty: type_named("User"),
        generics: GenericParams { types: Vec::new() },
        resolved_self_tys: vec![user_ty()],
        trait_ref: Some(t),
        functions: functions.into_iter().map(|f| FunctionRef { target: target(), id: FunctionId(f) }).collect(),
    }
}

/// `trait Named { fn trait_name(&self); fn associated() {} }` and
/// `impl User { fn new() -> Self; fn id(&self); fn touch(&mut self) }`, `impl Named for User`.
#[test]
fn completes_inherent_and_trait_methods_at_dot() {
    let def_map = def_map_db();
    let mut sem = semantic_index();
    let named = TraitRef { target: target(), index: 0 };
    sem.traits.push(SemanticTrait {
        trait_ref: named,
        local_def: LocalDefRef { target: target(), local_def: LocalDefId(9) },
        functions: vec![FunctionRef { target: target(), id: FunctionId(10) }, FunctionRef { target: target(), id: FunctionId(11) }],
    });
    sem.functions.push(semantic_method(10, ItemOwner::Trait(named), "trait_name", true));
    sem.functions.push(semantic_method(11, ItemOwner::Trait(named), "associated", false));
    sem.functions.push(semantic_method(12, ItemOwner::Impl(ImplId(1)), "new", false));
    sem.functions.push(semantic_method(13, ItemOwner::Impl(ImplId(1)), "touch", true));
    sem.impls[0].functions = vec![FunctionRef { target: target(), id: FunctionId(12) }, id_method(), FunctionRef { target: target(), id: FunctionId(13) }];
    sem.impls.push(trait_impl(2, named, vec![10]));
    // The field `id` of the fixture is left out of this scenario.
    sem.type_defs[0].fields.fields.clear();
    let db = resolved_db(dot_body());
    let items = CompletionResolver::new(&def_map, &sem, &db).completions_for_receiver_ty(&user());
    let labels: Vec<(&str, CompletionKind)> = items.iter().map(|c| (c.label.as_str(), c.kind)).collect();
    assert_eq!(
        labels,
        vec![("id", CompletionKind::InherentMethod), ("touch", CompletionKind::InherentMethod), ("trait_name", CompletionKind::TraitMethod)]
    );
}

/// `impl User { fn label(&self) }` and two traits `Named`, `Displayed` each with `fn label(&self)`
/// implemented for `User`.
#[test]
fn preserves_distinct_same_name_candidates() {
    let def_map = def_map_db();
    let mut sem = semantic_index();
    sem.type_defs[0].fields.fields.clear();
    let named = TraitRef { target: target(), index: 0 };
    let displayed = TraitRef { target: target(), index: 1 };
    sem.traits.push(SemanticTrait {
        trait_ref: named,
        local_def: LocalDefRef { target: target(), local_def: LocalDefId(9) },
        functions: vec![FunctionRef { target: target(), id: FunctionId(20) }],
    });
    sem.traits.push(SemanticTrait {
        trait_ref: displayed,
        local_def: LocalDefRef { target: target(), local_def: LocalDefId(10) },
        functions: vec![FunctionRef { target: target(), id: FunctionId(21) }],
    });
    sem.functions.push(semantic_method(20, ItemOwner::Trait(named), "label", true));
    sem.functions.push(semantic_method(21, ItemOwner::Trait(displayed), "label", true));
    sem.functions.push(semantic_method(22, ItemOwner::Impl(ImplId(1)), "label", true));
    sem.impls[0].functions = vec![FunctionRef { target: target(), id: FunctionId(22) }];
    sem.impls.push(trait_impl(2, named, vec![]));
    sem.impls.push(trait_impl(3, displayed, vec![]));
    let db = resolved_db(dot_body());
    let items = CompletionResolver::new(&def_map, &sem, &db).completions_for_receiver_ty(&user());
    let labels: Vec<(&str, CompletionKind)> = items.iter().map(|c| (c.label.as_str(), c.kind)).collect();
    assert_eq!(
        labels,
        vec![("label", CompletionKind::InherentMethod), ("label", CompletionKind::TraitMethod), ("label", CompletionKind::TraitMethod)]
    );
    // The two trait methods keep the order of the traits' impls.
    assert_eq!(items[1].target, CompletionTarget::Function(ResolvedFunctionRef::Semantic(FunctionRef { target: target(), id: FunctionId(20) })));
    assert_eq!(items[2].target, CompletionTarget::Function(ResolvedFunctionRef::Semantic(FunctionRef { target: target(), id: FunctionId(21) })));
}
