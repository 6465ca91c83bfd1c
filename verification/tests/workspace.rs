use rust_glimpser::workspace_graph::{WorkspaceGraphChanges, WorkspacePackagePaths};

fn path(parts: &[&str]) -> Vec<String> {
    parts.iter().map(|p| p.to_string()).collect()
}

fn packages() -> Vec<WorkspacePackagePaths> {
    vec![WorkspacePackagePaths {
        manifest_path: path(&["ws", "crates", "a", "Cargo.toml"]),
        root_dir: path(&["ws", "crates", "a"]),
    }]
}

fn check(parts: &[&str], parsed: bool) -> WorkspaceGraphChanges {
    WorkspaceGraphChanges::check(&path(&["ws"]), &packages(), parsed, &path(parts))
}

#[test]
fn lockfile_and_manifests_change_the_graph() {
    assert_eq!(check(&["ws", "Cargo.lock"], true), WorkspaceGraphChanges::Changed);
    assert_eq!(check(&["ws", "Cargo.toml"], true), WorkspaceGraphChanges::Changed);
    assert_eq!(check(&["ws", "crates", "a", "Cargo.toml"], true), WorkspaceGraphChanges::Changed);
    // A manifest outside the workspace packages is just a file.
    assert_eq!(check(&["ws", "vendor", "x", "Cargo.toml"], false), WorkspaceGraphChanges::Unchanged);
    assert_eq!(check(&["ws", "crates", "Cargo.lock"], false), WorkspaceGraphChanges::Unchanged);
}

#[test]
fn parsed_and_non_rust_files_keep_the_graph() {
    assert_eq!(check(&["ws", "crates", "a", "src", "main.rs"], true), WorkspaceGraphChanges::Unchanged);
    assert_eq!(check(&["ws", "crates", "a", "README.md"], false), WorkspaceGraphChanges::Unchanged);
    assert_eq!(check(&["ws", "crates", "a", "tests", ".rs"], false), WorkspaceGraphChanges::Unchanged);
    assert_eq!(check(&["ws", "crates", "a", "src", "util.rs"], false), WorkspaceGraphChanges::Unchanged);
}

#[test]
fn new_files_where_cargo_discovers_targets_change_the_graph() {
    assert_eq!(check(&["ws", "crates", "a", "src", "main.rs"], false), WorkspaceGraphChanges::Changed);
    assert_eq!(check(&["ws", "crates", "a", "src", "bin", "tool.rs"], false), WorkspaceGraphChanges::Changed);
    assert_eq!(check(&["ws", "crates", "a", "src", "bin", "tool", "main.rs"], false), WorkspaceGraphChanges::Changed);
    assert_eq!(check(&["ws", "crates", "a", "examples", "demo.rs"], false), WorkspaceGraphChanges::Changed);
    assert_eq!(check(&["ws", "crates", "a", "tests", "it.rs"], false), WorkspaceGraphChanges::Changed);
    assert_eq!(check(&["ws", "crates", "a", "benches", "b", "main.rs"], false), WorkspaceGraphChanges::Changed);
    assert_eq!(check(&["ws", "crates", "a", "src", "bin", "tool", "other.rs"], false), WorkspaceGraphChanges::Unchanged);
    assert_eq!(check(&["ws", "crates", "a", "tests", "x", "y", "main.rs"], false), WorkspaceGraphChanges::Unchanged);
    assert_eq!(check(&["ws", "crates", "b", "src", "main.rs"], false), WorkspaceGraphChanges::Unchanged);
}

use rust_glimpser::ids::{ModuleId, ModuleRef, PackageSlot, TargetRef};
use rust_glimpser::implicit_roots::{build_implicit_roots, DependencyInfo, ImplicitRootsError, PackageTargets, TargetInfo};
use rust_glimpser::text::TargetId;

fn target_info(id: usize, name: &str, is_lib: bool, is_custom_build: bool) -> TargetInfo {
    TargetInfo { id: TargetId(id), name: name.to_string(), is_lib, is_custom_build }
}

fn root(package: usize, target: usize) -> ModuleRef {
    ModuleRef { target: TargetRef { package: PackageSlot(package), target: TargetId(target) }, module: ModuleId(0) }
}

fn two_packages() -> Vec<PackageTargets> {
    vec![
        PackageTargets {
            targets: vec![
                target_info(0, "app", true, false),
                target_info(1, "app_cli", false, false),
                target_info(2, "build_script_build", false, true),
            ],
            dependencies: Some(vec![
                DependencyInfo { name: "dep".to_string(), package: Some(PackageSlot(1)), applies_to_target: vec![true, true, false] },
                DependencyInfo { name: String::new(), package: Some(PackageSlot(1)), applies_to_target: vec![true, true, true] },
                DependencyInfo { name: "ghost".to_string(), package: None, applies_to_target: vec![true, true, true] },
            ]),
        },
        PackageTargets { targets: vec![target_info(0, "dep_lib", true, false)], dependencies: Some(Vec::new()) },
    ]
}

fn names_and_roots(roots: &Vec<rust_glimpser::def_map::ExternRoot>) -> Vec<(String, ModuleRef)> {
    roots.iter().map(|r| (r.name.clone(), r.module)).collect()
}

#[test]
fn targets_see_their_library_and_applicable_dependencies() {
    let roots = build_implicit_roots(&two_packages()).expect("metadata for every package");
    assert_eq!(roots.len(), 2);
    // The library sees its dependency but not itself.
    assert_eq!(names_and_roots(&roots[0][0]), vec![("dep".to_string(), root(1, 0))]);
    // The binary also sees its own package's library.
    assert_eq!(names_and_roots(&roots[0][1]), vec![("app".to_string(), root(0, 0)), ("dep".to_string(), root(1, 0))]);
    // Build scripts see neither the library nor dependencies that do not apply to them.
    assert!(roots[0][2].is_empty());
    assert!(roots[1][0].is_empty());
}

#[test]
fn packages_without_workspace_metadata_are_reported() {
    let mut packages = two_packages();
    packages[1].dependencies = None;
    assert_eq!(build_implicit_roots(&packages).err(), Some(ImplicitRootsError::MissingWorkspacePackage(PackageSlot(1))));
}
