//! Detects saved-file changes that invalidate the workspace package graph.
//!
//! Source saves usually keep package and target slots, but manifest or lockfile edits, and new
//! files where Cargo discovers targets by default, can add, remove or reorder packages and
//! targets. Such changes are a full rebuild boundary. Paths are canonical and given as their
//! components, so graph checks are component comparisons.

use vstd::prelude::*;

verus! {

/// Paths of one workspace package.
#[derive(Debug)]
pub struct WorkspacePackagePaths {
    pub manifest_path: Vec<String>,
    pub root_dir: Vec<String>,
}

/// Whether a saved file changes the workspace package graph.
#[derive(Debug, Clone, Copy, PartialEq, Eq, Structural)]
pub enum WorkspaceGraphChanges {
    Changed,
    Unchanged,
}

/// The components of a path as texts.
pub open spec fn components(path: Seq<String>) -> Seq<Seq<char>> {
    path.map_values(|c: String| c@)
}

/// The last `.` of `name` at index `n - 1` or before.
pub open spec fn last_dot(name: Seq<char>, n: int) -> Option<int>
    decreases n,
{
    if n <= 0 || n > name.len() {
        None
    } else if name[n - 1] == '.' {
        Some(n - 1)
    } else {
        last_dot(name, n - 1)
    }
}

/// The extension of a file name: the text after its last `.`, unless that dot starts the name
/// or the name is `..`.
pub open spec fn extension(name: Seq<char>) -> Option<Seq<char>> {
    if name == seq!['.', '.'] {
        None
    } else {
        match last_dot(name, name.len() as int) {
            Some(i) => if i == 0 {
                None
            } else {
                Some(name.subrange(i + 1, name.len() as int))
            },
            None => None,
        }
    }
}

/// The components of `path` after `prefix`, when `prefix` starts it.
pub open spec fn strip_prefix(path: Seq<Seq<char>>, prefix: Seq<Seq<char>>) -> Option<Seq<Seq<char>>> {
    if prefix.len() <= path.len() && path.take(prefix.len() as int) == prefix {
        Some(path.skip(prefix.len() as int))
    } else {
        None
    }
}

/// A path inside a target directory that Cargo discovers as a target: a `.rs` file directly in
/// it, or `main.rs` in a directory directly in it.
pub open spec fn auto_discovered(rest: Seq<Seq<char>>) -> bool {
    if rest.len() == 1 {
        extension(rest[0]) == Some(seq!['r', 's'])
    } else {
        rest.len() == 2 && rest[0].len() > 0 && rest[1] == "main.rs"@
    }
}

/// `path` lies where Cargo discovers targets of the package rooted at `root`: it is
/// `src/main.rs`, or a target file under `src/bin`, `examples`, `tests` or `benches`.
pub open spec fn introduces_target(root: Seq<Seq<char>>, path: Seq<Seq<char>>) -> bool {
    ||| path == root + seq!["src"@, "main.rs"@]
    ||| (strip_prefix(path, root + seq!["src"@, "bin"@]) matches Some(rest) && auto_discovered(rest))
    ||| (strip_prefix(path, root + seq!["examples"@]) matches Some(rest) && auto_discovered(rest))
    ||| (strip_prefix(path, root + seq!["tests"@]) matches Some(rest) && auto_discovered(rest))
    ||| (strip_prefix(path, root + seq!["benches"@]) matches Some(rest) && auto_discovered(rest))
}

/// Whether saving `path` changes the package graph of the workspace at `root`: the workspace
/// lockfile, the workspace manifest or a package manifest changed, or a Rust file that is not
/// yet parsed appeared where Cargo discovers targets.
pub open spec fn graph_change(
    root: Seq<Seq<char>>,
    packages: Seq<WorkspacePackagePaths>,
    parsed: bool,
    path: Seq<Seq<char>>,
) -> WorkspaceGraphChanges {
    let file_name = if path.len() > 0 {
        Some(path.last())
    } else {
        None
    };
    if path == root.push("Cargo.lock"@) {
        WorkspaceGraphChanges::Changed
    } else if file_name == Some("Cargo.toml"@) && (path == root.push("Cargo.toml"@) || exists|p: int|
        0 <= p < packages.len() && components(#[trigger] packages[p].manifest_path@) == path) {
        WorkspaceGraphChanges::Changed
    } else if (match file_name {
        Some(name) => extension(name),
        None => None,
    }) != Some(seq!['r', 's']) || parsed {
        WorkspaceGraphChanges::Unchanged
    } else if exists|p: int| 0 <= p < packages.len() && introduces_target(components(#[trigger] packages[p].root_dir@), path) {
        WorkspaceGraphChanges::Changed
    } else {
        WorkspaceGraphChanges::Unchanged
    }
}

/// Whether the name's extension is `rs`.
fn has_rs_extension(name: &String) -> (r: bool)
    ensures
        r == (extension(name@) == Some(seq!['r', 's'])),
{
    let n = name.as_str().unicode_len();
    let mut i: usize = n;
    while i > 0
        invariant
            i <= n,
            n == name@.len(),
            last_dot(name@, n as int) == last_dot(name@, i as int),
        ensures
            i <= n,
            last_dot(name@, n as int) == last_dot(name@, i as int),
            i > 0 ==> name@[i - 1] == '.',
        decreases i,
    {
        if name.as_str().get_char(i - 1) == '.' {
            break;
        }
        i = i - 1;
    }
    if i == 0 {
        return false;
    }
    let dot = i - 1;
    proof {
        assert(last_dot(name@, n as int) == Some(dot as int));
    }
    if dot == 0 {
        proof {
            if name@ == seq!['.', '.'] {
                assert(name@[0] == '.');
            }
        }
        return false;
    }
    let r = n - dot == 3 && name.as_str().get_char(dot + 1) == 'r' && name.as_str().get_char(dot + 2) == 's';
    proof {
        if name@ == seq!['.', '.'] {
            assert(name@[1] == '.');
            assert(dot == 1);
            assert(!r);
        } else if r {
            assert(name@.subrange(dot + 1, n as int) =~= seq!['r', 's']);
        } else {
            if name@.subrange(dot + 1, n as int) == seq!['r', 's'] {
                assert(name@.subrange(dot + 1, n as int).len() == 2);
                assert(name@.subrange(dot + 1, n as int)[0] == name@[dot + 1]);
                assert(name@.subrange(dot + 1, n as int)[1] == name@[dot + 2]);
            }
        }
    }
    r
}

/// Whether component `i` of `path` is `text`.
fn component_is(path: &Vec<String>, i: usize, text: &str) -> (r: bool)
    ensures
        r == (i < path@.len() && path@[i as int]@ == text@),
{
    if i >= path.len() {
        return false;
    }
    let expected = text.to_owned();
    path[i] == expected
}

/// Whether `prefix` starts `path`.
fn has_prefix(path: &Vec<String>, prefix: &Vec<String>) -> (r: bool)
    ensures
        r == (prefix@.len() <= path@.len() && components(path@).take(prefix@.len() as int) == components(prefix@)),
{
    if prefix.len() > path.len() {
        return false;
    }
    let mut i: usize = 0;
    while i < prefix.len()
        invariant
            i <= prefix@.len(),
            prefix@.len() <= path@.len(),
            components(path@).take(i as int) == components(prefix@).take(i as int),
        decreases prefix.len() - i,
    {
        if path[i] != prefix[i] {
            proof {
                assert(components(path@).take(prefix@.len() as int)[i as int] == path@[i as int]@);
                assert(components(prefix@)[i as int] == prefix@[i as int]@);
            }
            return false;
        }
        proof {
            assert(components(path@).take(i + 1) =~= components(path@).take(i as int).push(path@[i as int]@));
            assert(components(prefix@).take(i + 1) =~= components(prefix@).take(i as int).push(prefix@[i as int]@));
        }
        i = i + 1;
    }
    proof {
        assert(components(prefix@).take(prefix@.len() as int) =~= components(prefix@));
    }
    true
}

/// Whether `path` is `prefix` followed by exactly the components `tail`.
fn is_joined(path: &Vec<String>, prefix: &Vec<String>, tail: &Vec<String>) -> (r: bool)
    ensures
        r == (components(path@) == components(prefix@) + components(tail@)),
{
    let plen = path.len();
    if plen < prefix.len() || plen - prefix.len() != tail.len() {
        proof {
            if components(path@) == components(prefix@) + components(tail@) {
                assert(components(path@).len() == path@.len());
            }
        }
        return false;
    }
    if !has_prefix(path, prefix) {
        proof {
            if components(path@) == components(prefix@) + components(tail@) {
                assert(components(path@).take(prefix@.len() as int) =~= components(prefix@));
            }
        }
        return false;
    }
    let mut i: usize = 0;
    while i < tail.len()
        invariant
            i <= tail@.len(),
            plen == path@.len(),
            path@.len() == prefix@.len() + tail@.len(),
            components(path@).take(prefix@.len() as int) == components(prefix@),
            forall|k: int| 0 <= k < i ==> path@[prefix@.len() + k]@ == #[trigger] tail@[k]@,
        decreases tail.len() - i,
    {
        if path[prefix.len() + i] != tail[i] {
            proof {
                if components(path@) == components(prefix@) + components(tail@) {
                    assert(components(path@)[prefix@.len() + i] == components(tail@)[i as int]);
                }
            }
            return false;
        }
        i = i + 1;
    }
    proof {
        assert forall|k: int| 0 <= k < path@.len() implies components(path@)[k] == (components(prefix@) + components(tail@))[k] by {
            if k < prefix@.len() {
                assert(components(path@).take(prefix@.len() as int)[k] == components(path@)[k]);
            } else {
                assert(tail@[k - prefix@.len()]@ == path@[k]@);
            }
        }
        assert(components(path@) =~= components(prefix@) + components(tail@));
    }
    true
}

/// Makes a path from texts.
fn texts(parts: &[&str]) -> (r: Vec<String>)
    ensures
        r@.len() == parts@.len(),
        forall|i: int| 0 <= i < parts@.len() ==> #[trigger] r@[i]@ == parts@[i]@,
{
    let mut out: Vec<String> = Vec::new();
    let mut i: usize = 0;
    while i < parts.len()
        invariant
            i <= parts@.len(),
            out@.len() == i,
            forall|k: int| 0 <= k < i ==> #[trigger] out@[k]@ == parts@[k]@,
        decreases parts.len() - i,
    {
        out.push(parts[i].to_owned());
        i = i + 1;
    }
    out
}

/// Whether `path` under `dir` is a target file that Cargo discovers in `dir`.
fn discovered_under(path: &Vec<String>, dir: &Vec<String>) -> (r: bool)
    ensures
        r == (strip_prefix(components(path@), components(dir@)) matches Some(rest) && auto_discovered(rest)),
{
    let ghost p = components(path@);
    let ghost d = components(dir@);
    if !has_prefix(path, dir) {
        return false;
    }
    let ghost rest = p.skip(d.len() as int);
    proof {
        assert(strip_prefix(p, d) == Some(rest));
        assert forall|k: int| 0 <= k < rest.len() implies rest[k] == path@[dir@.len() + k]@ by {}
    }
    let n = path.len() - dir.len();
    if n == 1 {
        has_rs_extension(&path[dir.len()])
    } else if n == 2 {
        let first_nonempty = path[dir.len()].as_str().unicode_len() > 0;
        let r = first_nonempty && component_is(path, dir.len() + 1, "main.rs");
        proof {
            reveal_strlit("main.rs");
        }
        r
    } else {
        false
    }
}

/// Whether saving `path` can introduce a target of the package rooted at `root`.
fn package_introduces_target(root: &Vec<String>, path: &Vec<String>) -> (r: bool)
    ensures
        r == introduces_target(components(root@), components(path@)),
{
    let ghost rt = components(root@);
    let ghost p = components(path@);
    proof {
        reveal_strlit("src");
        reveal_strlit("main.rs");
        reveal_strlit("bin");
        reveal_strlit("examples");
        reveal_strlit("tests");
        reveal_strlit("benches");
    }
    let main = texts(&["src", "main.rs"]);
    proof {
        assert(components(main@) =~= seq!["src"@, "main.rs"@]);
    }
    if is_joined(path, root, &main) {
        return true;
    }
    let mut bin = root.clone();
    bin.append(&mut texts(&["src", "bin"]));
    let mut examples = root.clone();
    examples.append(&mut texts(&["examples"]));
    let mut tests = root.clone();
    tests.append(&mut texts(&["tests"]));
    let mut benches = root.clone();
    benches.append(&mut texts(&["benches"]));
    proof {
        assert(components(bin@) =~= rt + seq!["src"@, "bin"@]);
        assert(components(examples@) =~= rt + seq!["examples"@]);
        assert(components(tests@) =~= rt + seq!["tests"@]);
        assert(components(benches@) =~= rt + seq!["benches"@]);
    }
    discovered_under(path, &bin) || discovered_under(path, &examples) || discovered_under(path, &tests)
        || discovered_under(path, &benches)
}

impl WorkspaceGraphChanges {
    /// Classifies a saved file: the workspace lockfile, the workspace manifest and package
    /// manifests change the graph; so does a Rust file that is not parsed yet (`parsed` is
    /// false) where Cargo discovers targets by default; anything else keeps it.
    #[verifier::loop_isolation(false)]
    pub fn check(
        workspace_root: &Vec<String>,
        workspace_packages: &Vec<WorkspacePackagePaths>,
        parsed: bool,
        path: &Vec<String>,
    ) -> (r: Self)
        ensures
            r == graph_change(components(workspace_root@), workspace_packages@, parsed, components(path@)),
    {
        let ghost root = components(workspace_root@);
        let ghost p = components(path@);
        proof {
            reveal_strlit("Cargo.lock");
            reveal_strlit("Cargo.toml");
        }
        let lock = texts(&["Cargo.lock"]);
        let manifest = texts(&["Cargo.toml"]);
        proof {
            assert(components(lock@) =~= seq!["Cargo.lock"@]);
            assert(components(manifest@) =~= seq!["Cargo.toml"@]);
            assert(root + seq!["Cargo.lock"@] =~= root.push("Cargo.lock"@));
            assert(root + seq!["Cargo.toml"@] =~= root.push("Cargo.toml"@));
        }
        if is_joined(path, workspace_root, &lock) {
            return WorkspaceGraphChanges::Changed;
        }
        let n = path.len();
        let is_manifest_name = n > 0 && component_is(path, n - 1, "Cargo.toml");
        proof {
            if n > 0 {
                assert(p.last() == path@[n - 1]@);
            }
        }
        if is_manifest_name {
            if is_joined(path, workspace_root, &manifest) {
                return WorkspaceGraphChanges::Changed;
            }
            let mut k: usize = 0;
            while k < workspace_packages.len()
                invariant
                    k <= workspace_packages@.len(),
                    p == components(path@),
                    forall|q: int| 0 <= q < k ==> components((#[trigger] workspace_packages@[q]).manifest_path@) != p,
                decreases workspace_packages.len() - k,
            {
                let empty: Vec<String> = Vec::new();
                if is_joined(path, &workspace_packages[k].manifest_path, &empty) {
                    proof {
                        assert(components(workspace_packages@[k as int].manifest_path@) + components(empty@) =~= components(
                            workspace_packages@[k as int].manifest_path@,
                        ));
                        assert(components(workspace_packages@[k as int].manifest_path@) == p);
                    }
                    return WorkspaceGraphChanges::Changed;
                }
                proof {
                    assert(components(workspace_packages@[k as int].manifest_path@) + components(empty@) =~= components(
                        workspace_packages@[k as int].manifest_path@,
                    ));
                }
                k = k + 1;
            }
        }
        let is_rust = n > 0 && has_rs_extension(&path[n - 1]);
        if !is_rust || parsed {
            return WorkspaceGraphChanges::Unchanged;
        }
        let mut k: usize = 0;
        while k < workspace_packages.len()
            invariant
                k <= workspace_packages@.len(),
                p == components(path@),
                forall|q: int| 0 <= q < k ==> !introduces_target(components((#[trigger] workspace_packages@[q]).root_dir@), p),
            decreases workspace_packages.len() - k,
        {
            if package_introduces_target(&workspace_packages[k].root_dir, path) {
                proof {
                    assert(introduces_target(components(workspace_packages@[k as int].root_dir@), p));
                }
                return WorkspaceGraphChanges::Changed;
            }
            k = k + 1;
        }
        WorkspaceGraphChanges::Unchanged
    }
}

} // verus!
