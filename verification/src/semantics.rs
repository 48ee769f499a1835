//! What processing a shader unit means. The directive engine walks the lines
//! of the text with a stack of scope-activity booleans, rooted at a single
//! `true` entry; import directives splice in the recursively processed text of
//! the imported unit. Recursion through the import graph is measured by a fuel
//! parameter: `None` means the fuel ran out, and any two sufficient fuels give
//! the same answer (`lemma_process_source_mono`), so a processing result is a
//! function of the unit, the definition set and the registries alone.

use vstd::prelude::*;

use crate::import::{classify, ImportRefView, LineKind};
use crate::shader::{source_imports, ProcessErrorView, ProcessedView, ShaderView, SourceView};
use crate::text::lines_of;

verus! {

/// The state of the directive engine between lines: the scope stack and the
/// output accumulated so far.
pub struct ScopeState {
    pub scopes: Seq<bool>,
    pub out: Seq<char>,
}

/// The engine starts in the root scope, which is active, with empty output.
pub open spec fn init_state() -> ScopeState {
    ScopeState { scopes: seq![true], out: Seq::empty() }
}

/// The set of flag names a definition list denotes: order and multiplicity do
/// not matter.
pub open spec fn defs_set(defs: Seq<String>) -> Set<Seq<char>> {
    Set::new(|x: Seq<char>| exists|i: int| 0 <= i < defs.len() && defs[i]@ == x)
}

/// What inlining one import reference appends to the output: the recursively
/// processed text of the resolved unit, whose dialect must equal the
/// importer's (`wgsl` tells which). Failures: an unregistered reference or a
/// dangling handle, an error inside the imported unit, or a dialect mismatch.
pub open spec fn import_step(
    imp: ImportRefView,
    wgsl: bool,
    defs: Set<Seq<char>>,
    shaders: Map<u32, ShaderView>,
    imports: Map<ImportRefView, u32>,
    fuel: nat,
) -> Option<Result<Seq<char>, ProcessErrorView>>
    decreases fuel, 0int, 1int,
{
    if !imports.dom().contains(imp) {
        Some(Err(ProcessErrorView::UnresolvedImport(imp)))
    } else {
        let h = imports[imp];
        if !shaders.dom().contains(h) {
            Some(Err(ProcessErrorView::UnresolvedImport(imp)))
        } else if fuel == 0 {
            None
        } else {
            match process_source(shaders[h].source, defs, shaders, imports, (fuel - 1) as nat) {
                None => None,
                Some(Err(e)) => Some(Err(e)),
                Some(Ok(p)) => if wgsl {
                    match p {
                        ProcessedView::Wgsl(t) => Some(Ok(t)),
                        _ => Some(Err(ProcessErrorView::MismatchedImportFormat(imp))),
                    }
                } else {
                    match p {
                        ProcessedView::Glsl(t, _) => Some(Ok(t)),
                        _ => Some(Err(ProcessErrorView::MismatchedImportFormat(imp))),
                    }
                },
            }
        }
    }
}

/// One line's effect on the engine state, in the grammar's priority order.
/// `ifdef`/`ifndef` push the top's activity AND-ed with the flag test; `else`
/// replaces the top with "parent active and top was not" (parent of the root
/// counts as active); `endif` pops, and popping the root is the too-many-
/// endifs error; an import directive splices (whatever the current scope's
/// activity); any other line is copied, newline-terminated, exactly when the
/// current scope is active.
pub open spec fn step_line(
    st: ScopeState,
    line: Seq<char>,
    defs: Set<Seq<char>>,
    shaders: Map<u32, ShaderView>,
    imports: Map<ImportRefView, u32>,
    wgsl: bool,
    fuel: nat,
) -> Option<Result<ScopeState, ProcessErrorView>>
    decreases fuel, 0int, 2int,
{
    match classify(line) {
        LineKind::Ifdef(name) => Some(
            Ok(
                ScopeState {
                    scopes: st.scopes.push(st.scopes.last() && defs.contains(name)),
                    out: st.out,
                },
            ),
        ),
        LineKind::Ifndef(name) => Some(
            Ok(
                ScopeState {
                    scopes: st.scopes.push(st.scopes.last() && !defs.contains(name)),
                    out: st.out,
                },
            ),
        ),
        LineKind::ElseMark => {
            let parent = if st.scopes.len() > 1 {
                st.scopes[st.scopes.len() - 2]
            } else {
                true
            };
            Some(
                Ok(
                    ScopeState {
                        scopes: st.scopes.update(
                            st.scopes.len() - 1,
                            parent && !st.scopes.last(),
                        ),
                        out: st.out,
                    },
                ),
            )
        },
        LineKind::EndifMark => {
            if st.scopes.len() <= 1 {
                Some(Err(ProcessErrorView::TooManyEndIfs))
            } else {
                Some(Ok(ScopeState { scopes: st.scopes.drop_last(), out: st.out }))
            }
        },
        LineKind::ImportMark(imp) => {
            match import_step(imp, wgsl, defs, shaders, imports, fuel) {
                None => None,
                Some(Err(e)) => Some(Err(e)),
                Some(Ok(t)) => Some(Ok(ScopeState { scopes: st.scopes, out: st.out + t })),
            }
        },
        LineKind::Text => {
            if st.scopes.last() {
                Some(Ok(ScopeState { scopes: st.scopes, out: st.out + line + seq!['\n'] }))
            } else {
                Some(Ok(st))
            }
        },
    }
}

/// The engine state after the first `n` lines, or the first error raised.
pub open spec fn text_state(
    lines: Seq<Seq<char>>,
    n: int,
    defs: Set<Seq<char>>,
    shaders: Map<u32, ShaderView>,
    imports: Map<ImportRefView, u32>,
    wgsl: bool,
    fuel: nat,
) -> Option<Result<ScopeState, ProcessErrorView>>
    decreases fuel, 1int, n,
{
    if n <= 0 {
        Some(Ok(init_state()))
    } else {
        match text_state(lines, n - 1, defs, shaders, imports, wgsl, fuel) {
            None => None,
            Some(Err(e)) => Some(Err(e)),
            Some(Ok(st)) => step_line(st, lines[n - 1], defs, shaders, imports, wgsl, fuel),
        }
    }
}

/// Processing a whole source. A binary source passes through untouched when
/// the definition set is empty and is refused otherwise; a text source runs
/// the engine over its lines, and a scope left open at the end is the
/// not-enough-endifs error.
pub open spec fn process_source(
    src: SourceView,
    defs: Set<Seq<char>>,
    shaders: Map<u32, ShaderView>,
    imports: Map<ImportRefView, u32>,
    fuel: nat,
) -> Option<Result<ProcessedView, ProcessErrorView>>
    decreases fuel, 2int, 0int,
{
    match src {
        SourceView::SpirV(bytes) => {
            if defs == Set::<Seq<char>>::empty() {
                Some(Ok(ProcessedView::SpirV(bytes)))
            } else {
                Some(Err(ProcessErrorView::ShaderFormatDoesNotSupportShaderDefs))
            }
        },
        SourceView::Wgsl(t) => {
            let lines = lines_of(t);
            match text_state(lines, lines.len() as int, defs, shaders, imports, true, fuel) {
                None => None,
                Some(Err(e)) => Some(Err(e)),
                Some(Ok(st)) => if st.scopes.len() != 1 {
                    Some(Err(ProcessErrorView::NotEnoughEndIfs))
                } else {
                    Some(Ok(ProcessedView::Wgsl(st.out)))
                },
            }
        },
        SourceView::Glsl(t, stage) => {
            let lines = lines_of(t);
            match text_state(lines, lines.len() as int, defs, shaders, imports, false, fuel) {
                None => None,
                Some(Err(e)) => Some(Err(e)),
                Some(Ok(st)) => if st.scopes.len() != 1 {
                    Some(Err(ProcessErrorView::NotEnoughEndIfs))
                } else {
                    Some(Ok(ProcessedView::Glsl(st.out, stage)))
                },
            }
        },
    }
}

/// A processing result: the answer at every sufficient fuel. By
/// `lemma_process_deterministic` there is at most one such answer.
pub open spec fn process_ok(
    src: SourceView,
    defs: Set<Seq<char>>,
    shaders: Map<u32, ShaderView>,
    imports: Map<ImportRefView, u32>,
    r: Result<ProcessedView, ProcessErrorView>,
) -> bool {
    exists|fuel: nat| process_source(src, defs, shaders, imports, fuel) == Some(r)
}

// ---------------------------------------------------------------------------
// The import graph and its termination measure.
// ---------------------------------------------------------------------------

/// Whether reference `r` leads to registered unit `h`: the reference is
/// registered, names `h`, and `h` is registered.
pub open spec fn resolves_to(
    shaders: Map<u32, ShaderView>,
    imports: Map<ImportRefView, u32>,
    r: ImportRefView,
    h: u32,
) -> bool {
    imports.dom().contains(r) && imports[r] == h && shaders.dom().contains(h)
}

/// Every import of `src` that resolves leads to a unit ranked below `bound`.
pub open spec fn src_bounded(
    src: SourceView,
    shaders: Map<u32, ShaderView>,
    imports: Map<ImportRefView, u32>,
    rank: Map<u32, nat>,
    bound: nat,
) -> bool {
    forall|i: int, h: u32|
        0 <= i < source_imports(src).len() && #[trigger] resolves_to(
            shaders,
            imports,
            source_imports(src)[i],
            h,
        ) ==> rank.dom().contains(h) && rank[h] < bound
}

/// A ranking of the registered units under which every resolved import edge
/// descends. Such a ranking exists exactly when the import graph reachable
/// through the registries has no cycle.
pub open spec fn registry_ranked(
    shaders: Map<u32, ShaderView>,
    imports: Map<ImportRefView, u32>,
    rank: Map<u32, nat>,
) -> bool {
    forall|h: u32| #[trigger] shaders.dom().contains(h) ==> rank.dom().contains(h) && src_bounded(
        shaders[h].source,
        shaders,
        imports,
        rank,
        rank[h],
    )
}

/// Processing `src` against these registries terminates: some ranking bounds
/// the recursion.
pub open spec fn processable(
    src: SourceView,
    shaders: Map<u32, ShaderView>,
    imports: Map<ImportRefView, u32>,
) -> bool {
    exists|rank: Map<u32, nat>, bound: nat|
        registry_ranked(shaders, imports, rank) && src_bounded(
            src,
            shaders,
            imports,
            rank,
            bound,
        )
}

/// With no import reference registered nothing resolves, so processing any
/// unit against such registries terminates: `process`'s premise holds.
pub proof fn lemma_processable_without_imports(
    src: SourceView,
    shaders: Map<u32, ShaderView>,
    imports: Map<ImportRefView, u32>,
)
    requires
        imports == Map::<ImportRefView, u32>::empty(),
    ensures
        processable(src, shaders, imports),
{
    let rank = Map::<u32, nat>::new(|h: u32| shaders.dom().contains(h), |h: u32| 0nat);
    assert forall|h: u32| #[trigger] shaders.dom().contains(h) implies rank.dom().contains(h)
        && src_bounded(shaders[h].source, shaders, imports, rank, rank[h]) by {
        assert(rank.dom().contains(h));
    }
    assert(registry_ranked(shaders, imports, rank));
    assert(src_bounded(src, shaders, imports, rank, 0nat));
}

// ---------------------------------------------------------------------------
// Fuel monotonicity: a sufficient fuel's answer never changes with more fuel.
// ---------------------------------------------------------------------------

pub proof fn lemma_import_step_mono(
    imp: ImportRefView,
    wgsl: bool,
    defs: Set<Seq<char>>,
    shaders: Map<u32, ShaderView>,
    imports: Map<ImportRefView, u32>,
    f1: nat,
    f2: nat,
)
    requires
        f1 <= f2,
        import_step(imp, wgsl, defs, shaders, imports, f1) is Some,
    ensures
        import_step(imp, wgsl, defs, shaders, imports, f2) == import_step(
            imp,
            wgsl,
            defs,
            shaders,
            imports,
            f1,
        ),
    decreases f1, 0int, 1int,
{
    if imports.dom().contains(imp) {
        let h = imports[imp];
        if shaders.dom().contains(h) {
            lemma_process_source_mono(
                shaders[h].source,
                defs,
                shaders,
                imports,
                (f1 - 1) as nat,
                (f2 - 1) as nat,
            );
        }
    }
}

pub proof fn lemma_step_line_mono(
    st: ScopeState,
    line: Seq<char>,
    defs: Set<Seq<char>>,
    shaders: Map<u32, ShaderView>,
    imports: Map<ImportRefView, u32>,
    wgsl: bool,
    f1: nat,
    f2: nat,
)
    requires
        f1 <= f2,
        step_line(st, line, defs, shaders, imports, wgsl, f1) is Some,
    ensures
        step_line(st, line, defs, shaders, imports, wgsl, f2) == step_line(
            st,
            line,
            defs,
            shaders,
            imports,
            wgsl,
            f1,
        ),
    decreases f1, 0int, 2int,
{
    match classify(line) {
        LineKind::ImportMark(imp) => {
            lemma_import_step_mono(imp, wgsl, defs, shaders, imports, f1, f2);
        },
        _ => {},
    }
}

pub proof fn lemma_text_state_mono(
    lines: Seq<Seq<char>>,
    n: int,
    defs: Set<Seq<char>>,
    shaders: Map<u32, ShaderView>,
    imports: Map<ImportRefView, u32>,
    wgsl: bool,
    f1: nat,
    f2: nat,
)
    requires
        f1 <= f2,
        0 <= n,
        text_state(lines, n, defs, shaders, imports, wgsl, f1) is Some,
    ensures
        text_state(lines, n, defs, shaders, imports, wgsl, f2) == text_state(
            lines,
            n,
            defs,
            shaders,
            imports,
            wgsl,
            f1,
        ),
    decreases f1, 1int, n,
{
    if n > 0 {
        lemma_text_state_mono(lines, n - 1, defs, shaders, imports, wgsl, f1, f2);
        match text_state(lines, n - 1, defs, shaders, imports, wgsl, f1) {
            Some(Ok(st)) => {
                lemma_step_line_mono(st, lines[n - 1], defs, shaders, imports, wgsl, f1, f2);
            },
            _ => {},
        }
    }
}

pub proof fn lemma_process_source_mono(
    src: SourceView,
    defs: Set<Seq<char>>,
    shaders: Map<u32, ShaderView>,
    imports: Map<ImportRefView, u32>,
    f1: nat,
    f2: nat,
)
    requires
        f1 <= f2,
        process_source(src, defs, shaders, imports, f1) is Some,
    ensures
        process_source(src, defs, shaders, imports, f2) == process_source(
            src,
            defs,
            shaders,
            imports,
            f1,
        ),
    decreases f1, 2int, 0int,
{
    match src {
        SourceView::Wgsl(t) => {
            let lines = lines_of(t);
            lemma_text_state_mono(
                lines,
                lines.len() as int,
                defs,
                shaders,
                imports,
                true,
                f1,
                f2,
            );
        },
        SourceView::Glsl(t, _) => {
            let lines = lines_of(t);
            lemma_text_state_mono(
                lines,
                lines.len() as int,
                defs,
                shaders,
                imports,
                false,
                f1,
                f2,
            );
        },
        SourceView::SpirV(_) => {},
    }
}

/// Processing is deterministic: the unit, the definition set and the
/// registries admit at most one result.
pub proof fn lemma_process_deterministic(
    src: SourceView,
    defs: Set<Seq<char>>,
    shaders: Map<u32, ShaderView>,
    imports: Map<ImportRefView, u32>,
    r1: Result<ProcessedView, ProcessErrorView>,
    r2: Result<ProcessedView, ProcessErrorView>,
)
    requires
        process_ok(src, defs, shaders, imports, r1),
        process_ok(src, defs, shaders, imports, r2),
    ensures
        r1 == r2,
{
    let f1 = choose|f: nat| process_source(src, defs, shaders, imports, f) == Some(r1);
    let f2 = choose|f: nat| process_source(src, defs, shaders, imports, f) == Some(r2);
    if f1 <= f2 {
        lemma_process_source_mono(src, defs, shaders, imports, f1, f2);
    } else {
        lemma_process_source_mono(src, defs, shaders, imports, f2, f1);
    }
}

/// Once the engine has raised an error, every longer prefix raises it too.
pub proof fn lemma_text_state_err(
    lines: Seq<Seq<char>>,
    j: int,
    m: int,
    defs: Set<Seq<char>>,
    shaders: Map<u32, ShaderView>,
    imports: Map<ImportRefView, u32>,
    wgsl: bool,
    fuel: nat,
)
    requires
        0 <= j <= m,
        text_state(lines, j, defs, shaders, imports, wgsl, fuel) matches Some(r) && r is Err,
    ensures
        text_state(lines, m, defs, shaders, imports, wgsl, fuel) == text_state(
            lines,
            j,
            defs,
            shaders,
            imports,
            wgsl,
            fuel,
        ),
    decreases m - j,
{
    if j < m {
        lemma_text_state_err(lines, j, m - 1, defs, shaders, imports, wgsl, fuel);
    }
}

} // verus!
