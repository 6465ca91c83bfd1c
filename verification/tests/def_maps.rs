use std::sync::Arc;

use rust_glimpser::completion::completion_sort_text;
use rust_glimpser::db::{resolve_path_in_db, DefMapDb, Package};
use rust_glimpser::def_map::{
    DefMap, ExternRoot, ImportData, ImportKind, ImportSourcePath, ImportSourcePathSegment, ItemTreeRef,
    LocalDefData, LocalDefKind, ModuleChild, ModuleData, ModuleOrigin,
};
use rust_glimpser::def_map_cursor::DefMapCursorCandidate;
use rust_glimpser::path_completion::{site_for_import_path, DefMapPathCompletionSite, ScopeNamespace};
use rust_glimpser::freeze::{build_db, build_db_within, normalized_package_slots, rebuild_packages, rebuild_packages_within, RebuildError};
use rust_glimpser::ids::{DefId, LocalDefId, LocalDefRef, ModuleId, ModuleRef, PackageSlot, TargetRef};
use rust_glimpser::imports::{finalize_scopes_within, TargetState};
use rust_glimpser::path::{Path, PathSegment};
use rust_glimpser::scope::{ModuleScope, Namespace, ScopeBinding, VisibilityLevel};
use rust_glimpser::text::{FileId, Span, TargetId, TextSpan};

fn span() -> Span {
    Span { text: TextSpan { start: 0, end: 0 } }
}

fn target(package: usize) -> TargetRef {
    TargetRef { package: PackageSlot(package), target: TargetId(0) }
}

fn module(name: Option<&str>, parent: Option<usize>, children: Vec<(&str, usize)>) -> ModuleData {
    ModuleData {
        name: name.map(|n| n.to_string()),
        name_span: None,
        parent: parent.map(ModuleId),
        children: children
            .into_iter()
            .map(|(name, id)| ModuleChild { name: name.to_string(), module: ModuleId(id) })
            .collect(),
        local_defs: Vec::new(),
        impls: Vec::new(),
        imports: Vec::new(),
        unresolved_imports: Vec::new(),
        scope: ModuleScope::new(),
        origin: ModuleOrigin::Root { file_id: FileId(0) },
    }
}

fn def_map(modules: Vec<ModuleData>, local_defs: Vec<LocalDefData>, imports: Vec<ImportData>) -> DefMap {
    DefMap {
        root_module: Some(ModuleId(0)),
        extern_prelude: Vec::new(),
        prelude: None,
        modules,
        local_defs,
        local_impls: Vec::new(),
        imports,
    }
}

fn local_def(module: usize, name: &str, kind: LocalDefKind) -> LocalDefData {
    LocalDefData {
        module: ModuleId(module),
        name: name.to_string(),
        kind,
        visibility: VisibilityLevel::Public,
        source: ItemTreeRef { file_id: FileId(0), item: 0 },
        file_id: FileId(0),
        name_span: None,
        span: span(),
    }
}

fn path(names: &[&str]) -> Path {
    Path {
        absolute: false,
        segments: names.iter().map(|n| PathSegment::Name(n.to_string())).collect(),
    }
}

fn named_import(module: usize, names: &[&str], binding: &str) -> ImportData {
    ImportData {
        module: ModuleId(module),
        kind: ImportKind::Named,
        path: path(names),
        visibility: VisibilityLevel::Public,
        binding: Some(binding.to_string()),
        source: ItemTreeRef { file_id: FileId(0), item: 0 },
        source_path: ImportSourcePath { absolute: false, segments: Vec::new(), source_span: None },
        alias_span: None,
    }
}

fn glob_import(module: usize, names: &[&str]) -> ImportData {
    ImportData { kind: ImportKind::Glob, binding: None, ..named_import(module, names, "_") }
}

fn bind(scope: &mut ModuleScope, name: &str, namespace: Namespace, def: DefId, owner: ModuleRef) {
    scope.insert_binding(
        &name.to_string(),
        namespace,
        ScopeBinding { def, visibility: VisibilityLevel::Public, owner },
    );
}

/// A library `dep` with `pub mod api { pub struct Api; }`.
fn dep_state() -> TargetState {
    let t = target(0);
    let mut root_scope = ModuleScope::new();
    bind(
        &mut root_scope,
        "api",
        Namespace::Types,
        DefId::Module(ModuleRef { target: t, module: ModuleId(1) }),
        ModuleRef { target: t, module: ModuleId(0) },
    );
    let mut api_scope = ModuleScope::new();
    bind(
        &mut api_scope,
        "Api",
        Namespace::Types,
        DefId::Local(LocalDefRef { target: t, local_def: LocalDefId(0) }),
        ModuleRef { target: t, module: ModuleId(1) },
    );
    TargetState {
        target: t,
        target_name: "dep".to_string(),
        def_map: def_map(
            vec![module(None, None, vec![("api", 1)]), module(Some("api"), Some(0), Vec::new())],
            vec![local_def(1, "Api", LocalDefKind::Struct)],
            Vec::new(),
        ),
        base_scopes: vec![root_scope, api_scope],
        implicit_roots: Vec::new(),
        prelude: None,
    }
}

/// A library `app` depending on `dep` whose root holds the given imports.
fn app_state(imports: Vec<ImportData>) -> TargetState {
    TargetState {
        target: target(1),
        target_name: "app".to_string(),
        def_map: def_map(vec![module(None, None, Vec::new())], Vec::new(), imports),
        base_scopes: vec![ModuleScope::new()],
        implicit_roots: vec![ExternRoot {
            name: "dep".to_string(),
            module: ModuleRef { target: target(0), module: ModuleId(0) },
        }],
        prelude: None,
    }
}

fn prelude_paths() -> Vec<Path> {
    vec![path(&["std", "prelude"]), path(&["std", "prelude"])]
}

fn names() -> Vec<String> {
    vec!["dep".to_string(), "app".to_string()]
}

fn api_def() -> DefId {
    DefId::Local(LocalDefRef { target: target(0), local_def: LocalDefId(0) })
}

fn root_types(db: &DefMapDb, package: usize, name: &str) -> Vec<DefId> {
    let data = db.module(ModuleRef { target: target(package), module: ModuleId(0) }).expect("root module");
    match data.scope.entry(&name.to_string()) {
        Some(entry) => entry.types().iter().map(|b| b.def).collect(),
        None => Vec::new(),
    }
}

fn package_with_one_target(name: &str) -> Package {
    Package {
        name: name.to_string(),
        target_names: vec![format!("{name}_lib")],
        targets: vec![DefMap::new()],
    }
}

#[test]
fn target_maps_preserve_package_slots_when_middle_package_is_offloaded() {
    let mut db = DefMapDb::from_packages(vec![
        package_with_one_target("workspace"),
        package_with_one_target("offloaded"),
        package_with_one_target("dependency"),
    ]);

    db.offload_package(PackageSlot(1)).expect("middle package should exist");

    let target_packages = db
        .resident_target_maps()
        .into_iter()
        .map(|(target, _)| target.package)
        .collect::<Vec<_>>();

    assert_eq!(target_packages, vec![PackageSlot(0), PackageSlot(2)]);
}

#[test]
fn offloading_a_missing_slot_changes_nothing() {
    let mut db = DefMapDb::from_packages(vec![package_with_one_target("only")]);
    assert_eq!(db.offload_package(PackageSlot(3)), None);
    assert_eq!(db.package_count(), 1);
    assert!(db.package(PackageSlot(0)).is_some());
}

#[test]
fn normalized_package_slots_sorts_and_dedups() {
    let slots = normalized_package_slots(&vec![PackageSlot(3), PackageSlot(1), PackageSlot(3), PackageSlot(0)]);
    assert_eq!(slots, vec![PackageSlot(0), PackageSlot(1), PackageSlot(3)]);
    assert!(normalized_package_slots(&Vec::new()).is_empty());
}

#[test]
fn named_import_resolves_through_dependency_root() {
    let mut states = vec![vec![dep_state()], vec![app_state(vec![named_import(0, &["dep", "api", "Api"], "Before")])]];
    let db = build_db(&names(), &prelude_paths(), &mut states);

    assert_eq!(root_types(&db, 1, "Before"), vec![api_def()]);
    let root = db.module(ModuleRef { target: target(1), module: ModuleId(0) }).unwrap();
    assert!(root.unresolved_imports.is_empty());
    // The frozen def map keeps the implicit roots as its extern prelude.
    let app = db.def_map(target(1)).unwrap();
    assert_eq!(app.extern_root(&"dep".to_string()), Some(ModuleRef { target: target(0), module: ModuleId(0) }));
}

#[test]
fn unresolved_import_is_recorded_on_its_module() {
    let mut states = vec![vec![dep_state()], vec![app_state(vec![named_import(0, &["dep", "missing"], "Gone")])]];
    let db = build_db(&names(), &prelude_paths(), &mut states);

    let root = db.module(ModuleRef { target: target(1), module: ModuleId(0) }).unwrap();
    assert_eq!(root.unresolved_imports.len(), 1);
    assert!(root_types(&db, 1, "Gone").is_empty());
}

#[test]
fn imports_chain_through_other_imports_until_fixed_point() {
    // `use self::b as c;` depends on `use dep::api::Api as b;`, which a later round provides.
    let imports = vec![named_import(0, &["self", "b"], "c"), named_import(0, &["dep", "api", "Api"], "b")];
    let mut imports = imports;
    imports[0].path = Path { absolute: false, segments: vec![PathSegment::SelfKw, PathSegment::Name("b".to_string())] };
    let mut states = vec![vec![dep_state()], vec![app_state(imports)]];
    let db = build_db(&names(), &prelude_paths(), &mut states);

    assert_eq!(root_types(&db, 1, "b"), vec![api_def()]);
    assert_eq!(root_types(&db, 1, "c"), vec![api_def()]);
    let root = db.module(ModuleRef { target: target(1), module: ModuleId(0) }).unwrap();
    assert!(root.unresolved_imports.is_empty());
}

#[test]
fn glob_import_copies_visible_bindings() {
    let mut states = vec![vec![dep_state()], vec![app_state(vec![glob_import(0, &["dep", "api"])])]];
    let db = build_db(&names(), &prelude_paths(), &mut states);

    assert_eq!(root_types(&db, 1, "Api"), vec![api_def()]);
}

#[test]
fn rebuild_resolves_dirty_imports_through_frozen_packages_without_replacing_them() {
    let mut states = vec![vec![dep_state()], vec![app_state(vec![named_import(0, &["dep", "api", "Api"], "Before")])]];
    let old = build_db(&names(), &prelude_paths(), &mut states);

    let collected = vec![Vec::new(), vec![app_state(vec![named_import(0, &["dep", "api", "Api"], "Renamed")])]];
    let rebuilt = rebuild_packages(&old, &names(), &prelude_paths(), &vec![PackageSlot(1)], collected)
        .expect("rebuild should succeed");

    assert_eq!(root_types(&rebuilt, 1, "Renamed"), vec![api_def()]);
    assert!(root_types(&rebuilt, 1, "Before").is_empty());
    // The dirty import resolves through the clean frozen dependency, so it is not unresolved.
    let app_def_map = rebuilt.def_map(target(1)).expect("rebuilt app def-map should exist");
    let root_module = app_def_map.root_module().expect("rebuilt app def-map should have a root module");
    let root = app_def_map.module(root_module).expect("rebuilt app root module should exist");
    assert!(root.unresolved_imports.is_empty());
    // The dirty app package is replaced by the rebuild.
    assert!(root_types(&old, 1, "Renamed").is_empty());
    // The dependency is not dirty: it stays the same frozen package, shared with the previous
    // snapshot, while the dirty app package is replaced.
    let old_dep = old.shared_package(PackageSlot(0)).expect("old dependency package should exist");
    let rebuilt_dep = rebuilt.shared_package(PackageSlot(0)).expect("rebuilt dependency package should exist");
    assert!(Arc::ptr_eq(old_dep, rebuilt_dep), "clean dependency package should stay shared across package rebuilds");
    let old_app = old.shared_package(PackageSlot(1)).expect("old app package should exist");
    let rebuilt_app = rebuilt.shared_package(PackageSlot(1)).expect("rebuilt app package should exist");
    assert!(!Arc::ptr_eq(old_app, rebuilt_app), "dirty app package should be replaced by the rebuild");
}

#[test]
fn rebuild_reports_the_first_slot_it_cannot_rebuild() {
    let mut states = vec![vec![dep_state()], vec![app_state(Vec::new())]];
    let old = build_db(&names(), &prelude_paths(), &mut states);

    let result = rebuild_packages(&old, &names(), &prelude_paths(), &vec![PackageSlot(1), PackageSlot(5)], vec![Vec::new(), Vec::new()]);
    assert_eq!(result.err(), Some(RebuildError::MissingCollectedPackage(PackageSlot(5))));

    let result = rebuild_packages(&old, &names(), &prelude_paths(), &vec![PackageSlot(4)], (0..6).map(|_| Vec::new()).collect());
    assert_eq!(result.err(), Some(RebuildError::UnknownPackageSlot(PackageSlot(4))));

    let short_names = vec!["dep".to_string()];
    let collected = vec![Vec::new(), vec![app_state(Vec::new())]];
    let result = rebuild_packages(&old, &short_names, &prelude_paths(), &vec![PackageSlot(1)], collected);
    assert_eq!(result.err(), Some(RebuildError::MissingRebuiltPackage(PackageSlot(1))));
}

#[test]
fn rebuild_without_slots_copies_the_snapshot() {
    let mut states = vec![vec![dep_state()], vec![app_state(vec![named_import(0, &["dep", "api", "Api"], "Before")])]];
    let old = build_db(&names(), &prelude_paths(), &mut states);
    let copy = rebuild_packages(&old, &names(), &prelude_paths(), &Vec::new(), Vec::new()).unwrap();
    assert_eq!(copy.package_count(), 2);
    assert_eq!(root_types(&copy, 1, "Before"), vec![api_def()]);
}

fn source_segment(name: &str, start: u32) -> ImportSourcePathSegment {
    let segment = if name == "crate" { PathSegment::CrateKw } else { PathSegment::Name(name.to_string()) };
    ImportSourcePathSegment { segment, span: Span { text: TextSpan { start, end: start + name.len() as u32 } } }
}

/// `use crate::api::bu` or, with `trailing`, `use crate::api::`, starting at offset 4.
fn source_path(trailing: bool) -> ImportSourcePath {
    let mut segments = vec![source_segment("crate", 4), source_segment("api", 11)];
    let end = if trailing {
        16
    } else {
        segments.push(source_segment("bu", 16));
        18
    };
    ImportSourcePath { absolute: false, segments, source_span: Some(Span { text: TextSpan { start: 4, end } }) }
}

fn qualifier_names(site: &DefMapPathCompletionSite) -> Vec<String> {
    site.qualifier
        .segments
        .iter()
        .map(|s| match s {
            PathSegment::Name(name) => name.clone(),
            PathSegment::CrateKw => "crate".to_string(),
            PathSegment::SelfKw => "self".to_string(),
            PathSegment::SuperKw => "super".to_string(),
        })
        .collect()
}

#[test]
fn completion_site_on_a_partially_typed_segment_uses_the_segments_before_it() {
    let module = ModuleRef { target: target(0), module: ModuleId(0) };
    let (site, len) = site_for_import_path(module, &source_path(false), 17).expect("site inside `bu`");
    assert_eq!(qualifier_names(&site), vec!["crate", "api"]);
    assert_eq!(site.member_prefix_span, Span { text: TextSpan { start: 16, end: 18 } });
    assert_eq!(len, 14);
    // The first segment is never completed; touching `api` completes it after `crate`.
    let (site, _) = site_for_import_path(module, &source_path(false), 14).expect("site at the end of `api`");
    assert_eq!(qualifier_names(&site), vec!["crate"]);
    assert!(site_for_import_path(module, &source_path(false), 6).is_none());
}

#[test]
fn completion_site_after_a_trailing_separator_is_an_empty_segment() {
    let module = ModuleRef { target: target(0), module: ModuleId(0) };
    let (site, len) = site_for_import_path(module, &source_path(true), 16).expect("site after `::`");
    assert_eq!(qualifier_names(&site), vec!["crate", "api"]);
    assert_eq!(site.member_prefix_span, Span { text: TextSpan { start: 16, end: 16 } });
    assert_eq!(len, 12);
    // A path without a trailing separator offers nothing past its end.
    assert!(site_for_import_path(module, &source_path(false), 20).is_none());
}

#[test]
fn path_completion_site_picks_the_shortest_import_path_in_the_file() {
    let mut outer = named_import(0, &["crate", "api", "bu"], "bu");
    outer.source_path = source_path(true);
    outer.source_path.source_span = Some(Span { text: TextSpan { start: 0, end: 30 } });
    let mut inner = named_import(0, &["crate", "api", "bu"], "bu2");
    inner.source_path = source_path(false);
    let mut elsewhere = named_import(0, &["crate", "api", "bu"], "bu3");
    elsewhere.source_path = source_path(false);
    elsewhere.source = ItemTreeRef { file_id: FileId(7), item: 0 };
    let db = DefMapDb::from_packages(vec![Package {
        name: "app".to_string(),
        target_names: vec!["app".to_string()],
        targets: vec![def_map(vec![module(None, None, Vec::new())], Vec::new(), vec![outer, inner, elsewhere])],
    }]);
    let site = db.path_completion_site(target(0), FileId(0), 17).expect("a site");
    assert_eq!(qualifier_names(&site), vec!["crate", "api"]);
    // Both imports in the file offer a site; the one with the shorter source wins.
    assert_eq!(site.member_prefix_span, Span { text: TextSpan { start: 16, end: 18 } });
    assert_eq!(site.module, ModuleRef { target: target(0), module: ModuleId(0) });
    assert!(db.path_completion_site(target(0), FileId(3), 17).is_none());
    assert!(db.path_completion_site(target(5), FileId(0), 17).is_none());
}

#[test]
fn visible_scope_defs_are_filtered_by_visibility_and_sorted() {
    let mut dep = dep_state();
    let t = target(0);
    let api = ModuleRef { target: t, module: ModuleId(1) };
    let local = |i: usize| DefId::Local(LocalDefRef { target: t, local_def: LocalDefId(i) });
    bind(&mut dep.base_scopes[1], "api_fn", Namespace::Values, local(1), api);
    bind(&mut dep.base_scopes[1], "Beta", Namespace::Macros, local(2), api);
    bind(&mut dep.base_scopes[1], "Api", Namespace::Values, local(3), api);
    // Two definitions under one name and namespace order by their debug text, where
    // `LocalDefId(10)` comes before `LocalDefId(9)`.
    bind(&mut dep.base_scopes[1], "Dup", Namespace::Types, local(9), api);
    bind(&mut dep.base_scopes[1], "Dup", Namespace::Types, local(10), api);
    dep.base_scopes[1].insert_binding(
        &"Zed".to_string(),
        Namespace::Types,
        ScopeBinding { def: local(4), visibility: VisibilityLevel::Private, owner: api },
    );
    let mut states = vec![vec![dep], vec![app_state(Vec::new())]];
    let db = build_db(&names(), &prelude_paths(), &mut states);

    let from_app = ModuleRef { target: target(1), module: ModuleId(0) };
    let defs = db.visible_scope_defs(from_app, api);
    let seen: Vec<(String, ScopeNamespace, DefId)> = defs.iter().map(|d| (d.label.clone(), d.namespace, d.def)).collect();
    assert_eq!(
        seen,
        vec![
            ("Api".to_string(), ScopeNamespace::Types, local(0)),
            ("Api".to_string(), ScopeNamespace::Values, local(3)),
            ("Beta".to_string(), ScopeNamespace::Macros, local(2)),
            ("Dup".to_string(), ScopeNamespace::Types, local(10)),
            ("Dup".to_string(), ScopeNamespace::Types, local(9)),
            ("api_fn".to_string(), ScopeNamespace::Values, local(1)),
        ]
    );
    // Inside the defining module the private item is visible too.
    let inside = db.visible_scope_defs(api, api);
    assert_eq!(inside.len(), 7);
    assert_eq!(inside[5].label, "Zed");
    assert_eq!(inside[6].label, "api_fn");
    assert_eq!(ScopeNamespace::Types.sort_rank(), 0);
    assert_eq!(ScopeNamespace::Values.sort_rank(), 1);
    assert_eq!(ScopeNamespace::Macros.sort_rank(), 2);
}

#[test]
fn completion_sort_text_pads_ranks_to_two_digits() {
    assert_eq!(completion_sort_text("len", 3, 12, "Function(f)"), "len|03|12|Function(f)");
    assert_eq!(completion_sort_text("", 0, 100, "x"), "|00|100|x");
}

#[test]
fn cursor_candidates_cover_module_names_local_defs_and_import_segments() {
    let mut api = module(Some("api"), Some(0), Vec::new());
    api.name_span = Some(Span { text: TextSpan { start: 40, end: 43 } });
    api.origin = ModuleOrigin::Inline { declaration_file: FileId(0), declaration_span: Span { text: TextSpan { start: 0, end: 20 } } };
    let mut item = local_def(1, "Api", LocalDefKind::Struct);
    item.name_span = Some(Span { text: TextSpan { start: 30, end: 33 } });
    let mut import = named_import(0, &["crate", "api", "bu"], "Alias");
    import.source_path = source_path(false);
    import.alias_span = Some(Span { text: TextSpan { start: 22, end: 27 } });
    let db = DefMapDb::from_packages(vec![Package {
        name: "app".to_string(),
        target_names: vec!["app".to_string()],
        targets: vec![def_map(vec![module(None, None, vec![("api", 1)]), api], vec![item], vec![import])],
    }]);

    let at_module = db.cursor_candidates(target(0), FileId(0), 41);
    assert_eq!(at_module.len(), 1);
    assert!(matches!(at_module[0], DefMapCursorCandidate::Def { def: DefId::Module(ModuleRef { module: ModuleId(1), .. }), .. }));

    let at_def = db.cursor_candidates(target(0), FileId(0), 31);
    assert!(matches!(at_def[0], DefMapCursorCandidate::Def { def: DefId::Local(_), .. }));

    // Offset 9 touches the end of `crate`: the path prefix up to it.
    let at_segment = db.cursor_candidates(target(0), FileId(0), 9);
    assert_eq!(at_segment.len(), 1);
    match &at_segment[0] {
        DefMapCursorCandidate::UsePath { path, span, .. } => {
            assert_eq!(path.segments.len(), 1);
            assert_eq!(*span, Span { text: TextSpan { start: 4, end: 9 } });
        }
        other => panic!("expected a use path, got {other:?}"),
    }
    // The alias stands for the whole imported path.
    let at_alias = db.cursor_candidates(target(0), FileId(0), 24);
    match &at_alias[0] {
        DefMapCursorCandidate::UsePath { path, .. } => assert_eq!(path.segments.len(), 3),
        other => panic!("expected a use path, got {other:?}"),
    }
    assert!(db.cursor_candidates(target(0), FileId(9), 41).is_empty());
    assert!(db.cursor_candidates(target(3), FileId(0), 41).is_empty());
}

#[test]
fn target_iteration_lists_every_entity_with_its_reference() {
    let mut states = vec![vec![dep_state()], vec![app_state(vec![named_import(0, &["dep", "api", "Api"], "Before")])]];
    let db = build_db(&names(), &prelude_paths(), &mut states);
    let modules = db.modules(target(0));
    assert_eq!(modules.len(), 2);
    assert_eq!(modules[1].0, ModuleRef { target: target(0), module: ModuleId(1) });
    assert_eq!(modules[1].1.name.as_deref(), Some("api"));
    let defs = db.local_defs(target(0));
    assert_eq!(defs.len(), 1);
    assert_eq!(defs[0].1.name, "Api");
    assert_eq!(db.imports(target(1)).len(), 1);
    assert!(db.local_impls(target(1)).is_empty());
    assert!(db.modules(target(7)).is_empty());
}

#[test]
fn frozen_paths_resolve_through_dependency_roots() {
    let mut states = vec![vec![dep_state()], vec![app_state(Vec::new())]];
    let db = build_db(&names(), &prelude_paths(), &mut states);
    let app_root = ModuleRef { target: target(1), module: ModuleId(0) };
    let found = resolve_path_in_db(&db, app_root, &path(&["dep", "api", "Api"]));
    assert_eq!(found.resolved, vec![api_def()]);
    assert_eq!(found.unresolved_at, None);
    let missing = resolve_path_in_db(&db, app_root, &path(&["dep", "nothing"]));
    assert!(missing.resolved.is_empty());
    assert_eq!(missing.unresolved_at, Some(1));
}

#[test]
fn lower_kind_ranks_sort_first_whatever_the_targets() {
    let field = completion_sort_text("name", 9, 3, "Zeta");
    let method = completion_sort_text("name", 10, 3, "Alpha");
    assert!(field < method);
    assert_eq!(field, "name|09|03|Zeta");
    assert!(completion_sort_text("name", 1, 0, "z") < completion_sort_text("name", 2, 0, "a"));
}

#[test]
fn import_resolution_within_a_round_budget_reports_whether_it_settled() {
    let mut states = vec![vec![dep_state()], vec![app_state(vec![named_import(0, &["dep", "api", "Api"], "Before")])]];
    // No round at all: nothing is frozen and the states are left as they were.
    assert!(!finalize_scopes_within(&mut states, 0));
    assert!(states[1][0].def_map.modules[0].scope.entry(&"Before".to_string()).is_none());
    // A few rounds are enough for an import through a dependency root.
    assert!(finalize_scopes_within(&mut states, 8));
    let entry = states[1][0].def_map.modules[0].scope.entry(&"Before".to_string()).expect("the import binds its name");
    assert_eq!(entry.types().iter().map(|b| b.def).collect::<Vec<_>>(), vec![api_def()]);
    assert!(states[1][0].def_map.modules[0].unresolved_imports.is_empty());
}

#[test]
fn a_clean_build_within_a_round_budget_gives_the_same_database() {
    let mut states = vec![vec![dep_state()], vec![app_state(vec![named_import(0, &["dep", "api", "Api"], "Before")])]];
    let db = build_db_within(&names(), &prelude_paths(), &mut states, 8).expect("a few rounds settle the imports");
    assert_eq!(root_types(&db, 1, "Before"), vec![api_def()]);
    let mut states = vec![vec![dep_state()], vec![app_state(vec![named_import(0, &["dep", "api", "Api"], "Before")])]];
    assert!(build_db_within(&names(), &prelude_paths(), &mut states, 0).is_none());
}

#[test]
fn rebuild_within_a_round_budget_gives_no_database_when_imports_do_not_settle() {
    let mut states = vec![vec![dep_state()], vec![app_state(vec![named_import(0, &["dep", "api", "Api"], "Before")])]];
    let old = build_db(&names(), &prelude_paths(), &mut states);

    let collected = vec![Vec::new(), vec![app_state(vec![named_import(0, &["dep", "api", "Api"], "Renamed")])]];
    let rebuilt = rebuild_packages_within(&old, &names(), &prelude_paths(), &vec![PackageSlot(1)], collected, 8)
        .expect("the slots are available")
        .expect("a few rounds settle the imports");
    assert_eq!(root_types(&rebuilt, 1, "Renamed"), vec![api_def()]);

    let collected = vec![Vec::new(), vec![app_state(vec![named_import(0, &["dep", "api", "Api"], "Renamed")])]];
    let none = rebuild_packages_within(&old, &names(), &prelude_paths(), &vec![PackageSlot(1)], collected, 0)
        .expect("the slots are available");
    assert!(none.is_none());

    // Slot errors come before any round is run.
    let result = rebuild_packages_within(&old, &names(), &prelude_paths(), &vec![PackageSlot(5)], vec![Vec::new()], 0);
    assert_eq!(result.err(), Some(RebuildError::MissingCollectedPackage(PackageSlot(5))));
    // Without slots the snapshot is copied, whatever the budget.
    let copy = rebuild_packages_within(&old, &names(), &prelude_paths(), &Vec::new(), Vec::new(), 0).unwrap().unwrap();
    assert_eq!(copy.package_count(), 2);
}

#[test]
fn debug_text_of_definitions_matches_their_debug_formatting() {
    let module = DefId::Module(ModuleRef { target: TargetRef { package: PackageSlot(2), target: TargetId(13) }, module: ModuleId(7) });
    let local = DefId::Local(LocalDefRef { target: target(1), local_def: LocalDefId(40) });
    assert_eq!(rust_glimpser::path_completion::debug_text(&module), format!("{:?}", module));
    assert_eq!(rust_glimpser::path_completion::debug_text(&local), format!("{:?}", local));
    assert_eq!(
        rust_glimpser::path_completion::debug_text(&local),
        "Local(LocalDefRef { target: TargetRef { package: PackageSlot(1), target: TargetId(0) }, local_def: LocalDefId(40) })"
    );
}
