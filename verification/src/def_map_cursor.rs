//! Cursor queries over the frozen namespace map: the module names, local definition names and
//! import path segments under a source offset.

use vstd::prelude::*;

use crate::db::DefMapDb;
use crate::def_map::{source_segments_view, DefMap, ImportData, ModuleOrigin};
use crate::ids::{DefId, LocalDefId, LocalDefRef, ModuleId, ModuleRef, TargetRef};
use crate::path::{Path, PathView};
use crate::text::{FileId, Span};

verus! {

/// One def-map source node that can participate in cursor queries.
#[derive(Debug)]
pub enum DefMapCursorCandidate {
    Def { def: DefId, span: Span },
    UsePath { module: ModuleRef, path: Path, span: Span },
}

/// Model of a cursor candidate.
pub enum DefMapCandidateView {
    Def { def: DefId, span: Span },
    UsePath { module: ModuleRef, path: PathView, span: Span },
}

impl View for DefMapCursorCandidate {
    type V = DefMapCandidateView;

    open spec fn view(&self) -> DefMapCandidateView {
        match self {
            DefMapCursorCandidate::Def { def, span } => DefMapCandidateView::Def { def: *def, span: *span },
            DefMapCursorCandidate::UsePath { module, path, span } => DefMapCandidateView::UsePath {
                module: *module,
                path: path@,
                span: *span,
            },
        }
    }
}

/// The models of a list of candidates.
pub open spec fn candidates_view(candidates: Seq<DefMapCursorCandidate>) -> Seq<DefMapCandidateView> {
    candidates.map_values(|c: DefMapCursorCandidate| c@)
}

/// The candidate of module `m`: its name, when the module is declared in `file_id` with a named
/// declaration that touches `offset`. Crate roots have no declaration.
pub open spec fn module_candidate(def_map: DefMap, target: TargetRef, file_id: FileId, offset: u32, m: int) -> Seq<DefMapCandidateView> {
    let module = def_map.modules@[m];
    let declaration_file = match module.origin {
        ModuleOrigin::Root { .. } => None,
        ModuleOrigin::Inline { declaration_file, .. } => Some(declaration_file),
        ModuleOrigin::OutOfLine { declaration_file, .. } => Some(declaration_file),
    };
    if declaration_file == Some(file_id) && module.name_span is Some && module.name_span->0.spec_touches(offset) {
        seq![
            DefMapCandidateView::Def {
                def: DefId::Module(ModuleRef { target, module: ModuleId(m as usize) }),
                span: module.name_span->0,
            },
        ]
    } else {
        Seq::empty()
    }
}

/// The candidate of local definition `d`: its name (or, without a name span, the whole
/// definition) when it lies in `file_id` and touches `offset`.
pub open spec fn local_def_candidate(def_map: DefMap, target: TargetRef, file_id: FileId, offset: u32, d: int) -> Seq<DefMapCandidateView> {
    let local_def = def_map.local_defs@[d];
    let span = match local_def.name_span {
        Some(s) => s,
        None => local_def.span,
    };
    if local_def.file_id == file_id && span.spec_touches(offset) {
        seq![
            DefMapCandidateView::Def {
                def: DefId::Local(LocalDefRef { target, local_def: LocalDefId(d as usize) }),
                span,
            },
        ]
    } else {
        Seq::empty()
    }
}

/// The candidates of the first `n` segments of an import path: for every segment touching
/// `offset`, the path up to and including it.
pub open spec fn segment_candidates(module: ModuleRef, import: ImportData, offset: u32, n: int) -> Seq<DefMapCandidateView>
    decreases n,
{
    if n <= 0 || n > import.source_path.segments@.len() {
        Seq::empty()
    } else {
        let segment = import.source_path.segments@[n - 1];
        segment_candidates(module, import, offset, n - 1) + if segment.span.spec_touches(offset) {
            seq![
                DefMapCandidateView::UsePath {
                    module,
                    path: PathView {
                        absolute: import.source_path.absolute,
                        segments: source_segments_view(import.source_path.segments@).subrange(0, n),
                    },
                    span: segment.span,
                },
            ]
        } else {
            Seq::empty()
        }
    }
}

/// The candidates of import `i` when it lies in `file_id`: its path segments, then its alias,
/// which stands for the whole imported path.
pub open spec fn import_candidate(def_map: DefMap, target: TargetRef, file_id: FileId, offset: u32, i: int) -> Seq<DefMapCandidateView> {
    let import = def_map.imports@[i];
    let module = ModuleRef { target, module: import.module };
    if import.source.file_id != file_id {
        Seq::empty()
    } else {
        segment_candidates(module, import, offset, import.source_path.segments@.len() as int) + match import.alias_span {
            Some(alias) => if alias.spec_touches(offset) {
                seq![DefMapCandidateView::UsePath { module, path: import.path@, span: alias }]
            } else {
                Seq::empty()
            },
            None => Seq::empty(),
        }
    }
}

/// The candidates of the first `n` modules, in order.
pub open spec fn modules_candidates(def_map: DefMap, target: TargetRef, file_id: FileId, offset: u32, n: int) -> Seq<DefMapCandidateView>
    decreases n,
{
    if n <= 0 || n > def_map.modules@.len() {
        Seq::empty()
    } else {
        modules_candidates(def_map, target, file_id, offset, n - 1) + module_candidate(def_map, target, file_id, offset, n - 1)
    }
}

/// The candidates of the first `n` local definitions, in order.
pub open spec fn local_defs_candidates(def_map: DefMap, target: TargetRef, file_id: FileId, offset: u32, n: int) -> Seq<DefMapCandidateView>
    decreases n,
{
    if n <= 0 || n > def_map.local_defs@.len() {
        Seq::empty()
    } else {
        local_defs_candidates(def_map, target, file_id, offset, n - 1) + local_def_candidate(def_map, target, file_id, offset, n - 1)
    }
}

/// The candidates of the first `n` imports, in order.
pub open spec fn imports_candidates(def_map: DefMap, target: TargetRef, file_id: FileId, offset: u32, n: int) -> Seq<DefMapCandidateView>
    decreases n,
{
    if n <= 0 || n > def_map.imports@.len() {
        Seq::empty()
    } else {
        imports_candidates(def_map, target, file_id, offset, n - 1) + import_candidate(def_map, target, file_id, offset, n - 1)
    }
}

/// Every candidate of a target's def map at `offset` in `file_id`: module names, then local
/// definition names, then import paths.
pub open spec fn def_map_candidates(def_map: DefMap, target: TargetRef, file_id: FileId, offset: u32) -> Seq<DefMapCandidateView> {
    modules_candidates(def_map, target, file_id, offset, def_map.modules@.len() as int)
        + local_defs_candidates(def_map, target, file_id, offset, def_map.local_defs@.len() as int)
        + imports_candidates(def_map, target, file_id, offset, def_map.imports@.len() as int)
}

fn push_module_candidates(def_map: &DefMap, target: TargetRef, file_id: FileId, offset: u32, candidates: &mut Vec<DefMapCursorCandidate>)
    ensures
        candidates_view(final(candidates)@) == candidates_view(old(candidates)@) + modules_candidates(
            *def_map,
            target,
            file_id,
            offset,
            def_map.modules@.len() as int,
        ),
{
    let ghost start = candidates_view(candidates@);
    let mut m: usize = 0;
    proof {
        assert(start + Seq::<DefMapCandidateView>::empty() =~= start);
    }
    while m < def_map.modules.len()
        invariant
            m <= def_map.modules@.len(),
            candidates_view(candidates@) == start + modules_candidates(*def_map, target, file_id, offset, m as int),
        decreases def_map.modules.len() - m,
    {
        let module = &def_map.modules[m];
        let ghost before = candidates_view(candidates@);
        let declaration_file = match module.origin {
            ModuleOrigin::Root { .. } => None,
            ModuleOrigin::Inline { declaration_file, .. } => Some(declaration_file),
            ModuleOrigin::OutOfLine { declaration_file, .. } => Some(declaration_file),
        };
        if declaration_file == Some(file_id) {
            if let Some(span) = module.name_span {
                if span.touches(offset) {
                    candidates.push(DefMapCursorCandidate::Def { def: DefId::Module(ModuleRef { target, module: ModuleId(m) }), span });
                }
            }
        }
        proof {
            assert(candidates_view(candidates@) =~= before + module_candidate(*def_map, target, file_id, offset, m as int));
            assert(start + modules_candidates(*def_map, target, file_id, offset, m + 1) =~= start + modules_candidates(
                *def_map,
                target,
                file_id,
                offset,
                m as int,
            ) + module_candidate(*def_map, target, file_id, offset, m as int));
        }
        m = m + 1;
    }
}

fn push_local_def_candidates(def_map: &DefMap, target: TargetRef, file_id: FileId, offset: u32, candidates: &mut Vec<DefMapCursorCandidate>)
    ensures
        candidates_view(final(candidates)@) == candidates_view(old(candidates)@) + local_defs_candidates(
            *def_map,
            target,
            file_id,
            offset,
            def_map.local_defs@.len() as int,
        ),
{
    let ghost start = candidates_view(candidates@);
    let mut d: usize = 0;
    proof {
        assert(start + Seq::<DefMapCandidateView>::empty() =~= start);
    }
    while d < def_map.local_defs.len()
        invariant
            d <= def_map.local_defs@.len(),
            candidates_view(candidates@) == start + local_defs_candidates(*def_map, target, file_id, offset, d as int),
        decreases def_map.local_defs.len() - d,
    {
        let local_def = &def_map.local_defs[d];
        let ghost before = candidates_view(candidates@);
        if local_def.file_id == file_id {
            let span = match local_def.name_span {
                Some(s) => s,
                None => local_def.span,
            };
            if span.touches(offset) {
                candidates.push(
                    DefMapCursorCandidate::Def { def: DefId::Local(LocalDefRef { target, local_def: LocalDefId(d) }), span },
                );
            }
        }
        proof {
            assert(candidates_view(candidates@) =~= before + local_def_candidate(*def_map, target, file_id, offset, d as int));
            assert(start + local_defs_candidates(*def_map, target, file_id, offset, d + 1) =~= start + local_defs_candidates(
                *def_map,
                target,
                file_id,
                offset,
                d as int,
            ) + local_def_candidate(*def_map, target, file_id, offset, d as int));
        }
        d = d + 1;
    }
}

fn push_import_candidates(def_map: &DefMap, target: TargetRef, file_id: FileId, offset: u32, candidates: &mut Vec<DefMapCursorCandidate>)
    ensures
        candidates_view(final(candidates)@) == candidates_view(old(candidates)@) + imports_candidates(
            *def_map,
            target,
            file_id,
            offset,
            def_map.imports@.len() as int,
        ),
{
    let ghost start = candidates_view(candidates@);
    let mut i: usize = 0;
    proof {
        assert(start + Seq::<DefMapCandidateView>::empty() =~= start);
    }
    while i < def_map.imports.len()
        invariant
            i <= def_map.imports@.len(),
            candidates_view(candidates@) == start + imports_candidates(*def_map, target, file_id, offset, i as int),
        decreases def_map.imports.len() - i,
    {
        let import = &def_map.imports[i];
        let ghost before = candidates_view(candidates@);
        if import.source.file_id == file_id {
            let module = ModuleRef { target, module: import.module };
            let segments = &import.source_path.segments;
            let mut k: usize = 0;
            proof {
                assert(before + Seq::<DefMapCandidateView>::empty() =~= before);
            }
            while k < segments.len()
                invariant
                    k <= segments@.len(),
                    *segments == import.source_path.segments,
                    *import == def_map.imports@[i as int],
                    module == (ModuleRef { target, module: import.module }),
                    candidates_view(candidates@) == before + segment_candidates(module, *import, offset, k as int),
                decreases segments.len() - k,
            {
                let ghost mid = candidates_view(candidates@);
                if segments[k].span.touches(offset) {
                    let path = import.source_path.prefix_path(k);
                    candidates.push(DefMapCursorCandidate::UsePath { module, path, span: segments[k].span });
                }
                proof {
                    assert(before + segment_candidates(module, *import, offset, k + 1) =~= mid + (if segments@[k as int].span.spec_touches(offset) {
                        seq![
                            DefMapCandidateView::UsePath {
                                module,
                                path: PathView {
                                    absolute: import.source_path.absolute,
                                    segments: source_segments_view(import.source_path.segments@).subrange(0, k + 1),
                                },
                                span: segments@[k as int].span,
                            },
                        ]
                    } else {
                        Seq::empty()
                    }));
                    assert(candidates_view(candidates@) =~= before + segment_candidates(module, *import, offset, k + 1));
                }
                k = k + 1;
            }
            let ghost mid = candidates_view(candidates@);
            if let Some(alias) = import.alias_span {
                if alias.touches(offset) {
                    candidates.push(DefMapCursorCandidate::UsePath { module, path: import.path.duplicate(), span: alias });
                }
            }
            proof {
                assert(candidates_view(candidates@) =~= mid + match import.alias_span {
                    Some(alias) => if alias.spec_touches(offset) {
                        seq![DefMapCandidateView::UsePath { module, path: import.path@, span: alias }]
                    } else {
                        Seq::empty()
                    },
                    None => Seq::empty(),
                });
            }
        }
        proof {
            assert(candidates_view(candidates@) =~= before + import_candidate(*def_map, target, file_id, offset, i as int));
            assert(start + imports_candidates(*def_map, target, file_id, offset, i + 1) =~= start + imports_candidates(
                *def_map,
                target,
                file_id,
                offset,
                i as int,
            ) + import_candidate(*def_map, target, file_id, offset, i as int));
        }
        i = i + 1;
    }
}

impl DefMapDb {
    /// The def-map source nodes under `offset` in `file_id` for one resident target: module
    /// names, then local definition names, then import path segments and aliases.
    pub fn cursor_candidates(&self, target: TargetRef, file_id: FileId, offset: u32) -> (r: Vec<DefMapCursorCandidate>)
        ensures
            candidates_view(r@) == match self.resident_target(target) {
                Some(def_map) => def_map_candidates(def_map, target, file_id, offset),
                None => Seq::empty(),
            },
    {
        let mut candidates: Vec<DefMapCursorCandidate> = Vec::new();
        proof {
            assert(candidates_view(candidates@) =~= Seq::empty());
        }
        match self.resident_def_map(target) {
            Some(def_map) => {
                push_module_candidates(def_map, target, file_id, offset, &mut candidates);
                push_local_def_candidates(def_map, target, file_id, offset, &mut candidates);
                push_import_candidates(def_map, target, file_id, offset, &mut candidates);
                proof {
                    assert(candidates_view(candidates@) =~= def_map_candidates(*def_map, target, file_id, offset));
                }
            },
            None => {},
        }
        candidates
    }
}

} // verus!
