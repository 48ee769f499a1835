//! Laws of the directive engine, proved against the processing semantics:
//! well-formed conditional nesting always processes successfully to the pure
//! scope filter of the text; scope activity is nested (an inner scope can only
//! be active when every enclosing scope is); import extraction is a function
//! of the text; and an imported unit without directives is spliced into the
//! importer's output verbatim.

use vstd::prelude::*;

use crate::import::{classify, extract_imports, refs_of, ImportRefView, LineKind, ShaderImport};
use crate::semantics::{
    import_step, init_state, lemma_process_deterministic, lemma_text_state_err, process_ok,
    process_source, resolves_to, step_line, text_state, ScopeState,
};
use crate::shader::{ProcessErrorView, ProcessedView, ShaderView, SourceView};
use crate::text::lines_of;

verus! {

/// The text of a textual source; a binary source has none.
pub open spec fn text_of(src: SourceView) -> Seq<char> {
    match src {
        SourceView::Wgsl(t) => t,
        SourceView::Glsl(t, _) => t,
        SourceView::SpirV(_) => Seq::empty(),
    }
}

// ---------------------------------------------------------------------------
// Nesting of scope activity.
// ---------------------------------------------------------------------------

/// Every scope is at most as active as the one enclosing it.
pub open spec fn scopes_nested(scopes: Seq<bool>) -> bool {
    forall|i: int| 0 < i < scopes.len() ==> ((#[trigger] scopes[i]) ==> scopes[i - 1])
}

/// Pushing an entry no more active than the top keeps the stack nested.
proof fn lemma_nested_push(s: Seq<bool>, x: bool)
    requires
        scopes_nested(s),
        s.len() >= 1,
        x ==> s.last(),
    ensures
        scopes_nested(s.push(x)),
{
    let s2 = s.push(x);
    assert forall|i: int| 0 < i < s2.len() implies ((#[trigger] s2[i]) ==> s2[i - 1]) by {
        if i < s.len() {
            assert(s2[i] == s[i] && s2[i - 1] == s[i - 1]);
        } else {
            assert(s2[i] == x && s2[i - 1] == s[s.len() - 1]);
        }
    }
}

/// Replacing the top with an entry no more active than its parent keeps the
/// stack nested.
proof fn lemma_nested_update_last(s: Seq<bool>, x: bool)
    requires
        scopes_nested(s),
        s.len() >= 1,
        (s.len() > 1 && x) ==> s[s.len() - 2],
    ensures
        scopes_nested(s.update(s.len() - 1, x)),
{
    let s2 = s.update(s.len() - 1, x);
    assert forall|i: int| 0 < i < s2.len() implies ((#[trigger] s2[i]) ==> s2[i - 1]) by {
        if i < s.len() - 1 {
            assert(s2[i] == s[i] && s2[i - 1] == s[i - 1]);
        } else {
            assert(s2[i] == x && s2[i - 1] == s[s.len() - 2]);
        }
    }
}

/// Popping the top keeps the stack nested.
proof fn lemma_nested_drop(s: Seq<bool>)
    requires
        scopes_nested(s),
        s.len() >= 1,
    ensures
        scopes_nested(s.drop_last()),
{
    let s2 = s.drop_last();
    assert forall|i: int| 0 < i < s2.len() implies ((#[trigger] s2[i]) ==> s2[i - 1]) by {
        assert(s2[i] == s[i] && s2[i - 1] == s[i - 1]);
    }
}

/// The engine's scope stack is never empty and is always nested: a scope can
/// only be active when all scopes enclosing it are active, whatever the
/// directives seen so far did, and an `else` flips activity only relative to
/// its immediate parent.
pub proof fn lemma_scopes_nested(
    lines: Seq<Seq<char>>,
    n: int,
    defs: Set<Seq<char>>,
    shaders: Map<u32, ShaderView>,
    imports: Map<ImportRefView, u32>,
    wgsl: bool,
    fuel: nat,
)
    requires
        0 <= n,
    ensures
        text_state(lines, n, defs, shaders, imports, wgsl, fuel) matches Some(r) ==> (r matches Ok(
            st,
        ) ==> st.scopes.len() >= 1 && scopes_nested(st.scopes)),
    decreases n,
{
    if n > 0 {
        lemma_scopes_nested(lines, n - 1, defs, shaders, imports, wgsl, fuel);
        match text_state(lines, n - 1, defs, shaders, imports, wgsl, fuel) {
            Some(Ok(st)) => {
                assert(text_state(lines, n, defs, shaders, imports, wgsl, fuel) == step_line(
                    st,
                    lines[n - 1],
                    defs,
                    shaders,
                    imports,
                    wgsl,
                    fuel,
                ));
                match classify(lines[n - 1]) {
                    LineKind::Ifdef(name) => {
                        lemma_nested_push(st.scopes, st.scopes.last() && defs.contains(name));
                    },
                    LineKind::Ifndef(name) => {
                        lemma_nested_push(st.scopes, st.scopes.last() && !defs.contains(name));
                    },
                    LineKind::ElseMark => {
                        lemma_nested_update_last(
                            st.scopes,
                            (if st.scopes.len() > 1 {
                                st.scopes[st.scopes.len() - 2]
                            } else {
                                true
                            }) && !st.scopes.last(),
                        );
                    },
                    LineKind::EndifMark => {
                        if st.scopes.len() > 1 {
                            lemma_nested_drop(st.scopes);
                        }
                    },
                    LineKind::ImportMark(_) => {},
                    LineKind::Text => {},
                }
            },
            _ => {},
        }
    }
}

/// In a nested stack, an active scope has every scope below it active too.
pub proof fn lemma_nested_transitive(s: Seq<bool>, j: int, i: int)
    requires
        scopes_nested(s),
        0 <= j <= i < s.len(),
        s[i],
    ensures
        s[j],
    decreases i - j,
{
    if j < i {
        lemma_nested_transitive(s, j, i - 1);
    }
}

// ---------------------------------------------------------------------------
// Well-formed conditional nesting.
// ---------------------------------------------------------------------------

/// How a line changes the nesting depth of open conditional scopes.
pub open spec fn line_delta(line: Seq<char>) -> int {
    match classify(line) {
        LineKind::Ifdef(_) => 1,
        LineKind::Ifndef(_) => 1,
        LineKind::EndifMark => -1,
        _ => 0,
    }
}

/// Open conditional scopes after the first `n` lines.
pub open spec fn depth_after(lines: Seq<Seq<char>>, n: int) -> int
    decreases n,
{
    if n <= 0 {
        0
    } else {
        depth_after(lines, n - 1) + line_delta(lines[n - 1])
    }
}

/// Well-formed nesting: no prefix closes more scopes than were opened, and at
/// the end every opened scope is closed.
pub open spec fn balanced(lines: Seq<Seq<char>>) -> bool {
    &&& forall|m: int| 0 <= m <= lines.len() ==> depth_after(lines, m) >= 0
    &&& depth_after(lines, lines.len() as int) == 0
}

/// The pure scope filter: what the engine computes on a text without imports.
/// Text lines are copied, newline-terminated and in order, exactly when every
/// enclosing conditional is satisfied; directive lines are never copied.
pub open spec fn filter_scopes(lines: Seq<Seq<char>>, n: int, defs: Set<Seq<char>>) -> ScopeState
    decreases n,
{
    if n <= 0 {
        init_state()
    } else {
        let st = filter_scopes(lines, n - 1, defs);
        match classify(lines[n - 1]) {
            LineKind::Ifdef(name) => ScopeState {
                scopes: st.scopes.push(st.scopes.last() && defs.contains(name)),
                out: st.out,
            },
            LineKind::Ifndef(name) => ScopeState {
                scopes: st.scopes.push(st.scopes.last() && !defs.contains(name)),
                out: st.out,
            },
            LineKind::ElseMark => ScopeState {
                scopes: st.scopes.update(
                    st.scopes.len() - 1,
                    (if st.scopes.len() > 1 {
                        st.scopes[st.scopes.len() - 2]
                    } else {
                        true
                    }) && !st.scopes.last(),
                ),
                out: st.out,
            },
            LineKind::EndifMark => {
                if st.scopes.len() <= 1 {
                    st
                } else {
                    ScopeState { scopes: st.scopes.drop_last(), out: st.out }
                }
            },
            LineKind::ImportMark(_) => st,
            LineKind::Text => {
                if st.scopes.last() {
                    ScopeState { scopes: st.scopes, out: st.out + lines[n - 1] + seq!['\n'] }
                } else {
                    st
                }
            },
        }
    }
}

/// On an import-free text whose prefix never over-closes, the engine never
/// fails and computes exactly the pure scope filter, with one open scope per
/// unclosed conditional.
pub proof fn lemma_text_state_filter(
    lines: Seq<Seq<char>>,
    n: int,
    defs: Set<Seq<char>>,
    shaders: Map<u32, ShaderView>,
    imports: Map<ImportRefView, u32>,
    wgsl: bool,
    fuel: nat,
)
    requires
        0 <= n <= lines.len(),
        forall|m: int| 0 <= m <= n ==> depth_after(lines, m) >= 0,
        forall|m: int| 0 <= m < n ==> !((#[trigger] classify(lines[m])) is ImportMark),
    ensures
        text_state(lines, n, defs, shaders, imports, wgsl, fuel) == Some(
            Ok::<ScopeState, ProcessErrorView>(filter_scopes(lines, n, defs)),
        ),
        filter_scopes(lines, n, defs).scopes.len() == 1 + depth_after(lines, n),
    decreases n,
{
    if n > 0 {
        lemma_text_state_filter(lines, n - 1, defs, shaders, imports, wgsl, fuel);
        let st = filter_scopes(lines, n - 1, defs);
        assert(text_state(lines, n, defs, shaders, imports, wgsl, fuel) == step_line(
            st,
            lines[n - 1],
            defs,
            shaders,
            imports,
            wgsl,
            fuel,
        ));
        assert(depth_after(lines, n) >= 0);
        assert(depth_after(lines, n - 1) >= 0);
        match classify(lines[n - 1]) {
            LineKind::EndifMark => {
                assert(st.scopes.len() >= 2);
            },
            LineKind::ImportMark(_) => {
                assert(false);
            },
            _ => {},
        }
    }
}

/// For every well-formed, import-free text (each conditional opened is closed
/// exactly once, an optional `else` in between), processing succeeds, and the
/// output is the pure scope filter of the text: the active lines, in their
/// original order, with every directive line removed.
pub proof fn lemma_well_formed_success(
    src: SourceView,
    defs: Set<Seq<char>>,
    shaders: Map<u32, ShaderView>,
    imports: Map<ImportRefView, u32>,
    fuel: nat,
)
    requires
        !(src is SpirV),
        balanced(lines_of(text_of(src))),
        forall|m: int|
            0 <= m < lines_of(text_of(src)).len() ==> !((#[trigger] classify(
                lines_of(text_of(src))[m],
            )) is ImportMark),
    ensures
        ({
            let lines = lines_of(text_of(src));
            let out = filter_scopes(lines, lines.len() as int, defs).out;
            process_source(src, defs, shaders, imports, fuel) == Some(
                Ok::<ProcessedView, ProcessErrorView>(
                    match src {
                        SourceView::Wgsl(_) => ProcessedView::Wgsl(out),
                        SourceView::Glsl(_, stage) => ProcessedView::Glsl(out, stage),
                        SourceView::SpirV(b) => ProcessedView::SpirV(b),
                    },
                ),
            )
        }),
{
    let lines = lines_of(text_of(src));
    match src {
        SourceView::Wgsl(_) => {
            lemma_text_state_filter(
                lines,
                lines.len() as int,
                defs,
                shaders,
                imports,
                true,
                fuel,
            );
        },
        SourceView::Glsl(_, _) => {
            lemma_text_state_filter(
                lines,
                lines.len() as int,
                defs,
                shaders,
                imports,
                false,
                fuel,
            );
        },
        SourceView::SpirV(_) => {},
    }
}

/// The same, stated of the processor's contract: any result `process` may
/// return for a well-formed, import-free unit is that success.
pub proof fn lemma_well_formed_result(
    src: SourceView,
    defs: Set<Seq<char>>,
    shaders: Map<u32, ShaderView>,
    imports: Map<ImportRefView, u32>,
    r: Result<ProcessedView, ProcessErrorView>,
)
    requires
        !(src is SpirV),
        balanced(lines_of(text_of(src))),
        forall|m: int|
            0 <= m < lines_of(text_of(src)).len() ==> !((#[trigger] classify(
                lines_of(text_of(src))[m],
            )) is ImportMark),
        process_ok(src, defs, shaders, imports, r),
    ensures
        ({
            let lines = lines_of(text_of(src));
            let out = filter_scopes(lines, lines.len() as int, defs).out;
            r == Ok::<ProcessedView, ProcessErrorView>(
                match src {
                    SourceView::Wgsl(_) => ProcessedView::Wgsl(out),
                    SourceView::Glsl(_, stage) => ProcessedView::Glsl(out, stage),
                    SourceView::SpirV(b) => ProcessedView::SpirV(b),
                },
            )
        }),
{
    lemma_well_formed_success(src, defs, shaders, imports, 0nat);
    let lines = lines_of(text_of(src));
    let out = filter_scopes(lines, lines.len() as int, defs).out;
    let good = Ok::<ProcessedView, ProcessErrorView>(
        match src {
            SourceView::Wgsl(_) => ProcessedView::Wgsl(out),
            SourceView::Glsl(_, stage) => ProcessedView::Glsl(out, stage),
            SourceView::SpirV(b) => ProcessedView::SpirV(b),
        },
    );
    lemma_process_deterministic(src, defs, shaders, imports, r, good);
}

// ---------------------------------------------------------------------------
// The error taxonomy, each raised exactly at its trigger.
// ---------------------------------------------------------------------------

/// A unit that leaves a conditional scope open — every prefix closes no more
/// than it opened, but the end of the text is reached with open scopes —
/// fails with the not-enough-endifs error.
pub proof fn lemma_unclosed_scope_fails(
    src: SourceView,
    defs: Set<Seq<char>>,
    shaders: Map<u32, ShaderView>,
    imports: Map<ImportRefView, u32>,
    fuel: nat,
)
    requires
        !(src is SpirV),
        forall|m: int|
            0 <= m <= lines_of(text_of(src)).len() ==> depth_after(lines_of(text_of(src)), m)
                >= 0,
        depth_after(lines_of(text_of(src)), lines_of(text_of(src)).len() as int) != 0,
        forall|m: int|
            0 <= m < lines_of(text_of(src)).len() ==> !((#[trigger] classify(
                lines_of(text_of(src))[m],
            )) is ImportMark),
    ensures
        process_source(src, defs, shaders, imports, fuel) == Some(
            Err::<ProcessedView, ProcessErrorView>(ProcessErrorView::NotEnoughEndIfs),
        ),
{
    let lines = lines_of(text_of(src));
    match src {
        SourceView::Wgsl(_) => {
            lemma_text_state_filter(lines, lines.len() as int, defs, shaders, imports, true, fuel);
        },
        SourceView::Glsl(_, _) => {
            lemma_text_state_filter(
                lines,
                lines.len() as int,
                defs,
                shaders,
                imports,
                false,
                fuel,
            );
        },
        SourceView::SpirV(_) => {},
    }
}

/// An `endif` on a line where no conditional scope is open — the depth before
/// it is zero and was never negative — fails with the too-many-endifs error.
pub proof fn lemma_extra_endif_fails(
    src: SourceView,
    k: int,
    defs: Set<Seq<char>>,
    shaders: Map<u32, ShaderView>,
    imports: Map<ImportRefView, u32>,
    fuel: nat,
)
    requires
        !(src is SpirV),
        0 <= k < lines_of(text_of(src)).len(),
        forall|m: int| 0 <= m <= k ==> depth_after(lines_of(text_of(src)), m) >= 0,
        depth_after(lines_of(text_of(src)), k) == 0,
        classify(lines_of(text_of(src))[k]) is EndifMark,
        forall|m: int|
            0 <= m < k ==> !((#[trigger] classify(lines_of(text_of(src))[m])) is ImportMark),
    ensures
        process_source(src, defs, shaders, imports, fuel) == Some(
            Err::<ProcessedView, ProcessErrorView>(ProcessErrorView::TooManyEndIfs),
        ),
{
    let lines = lines_of(text_of(src));
    let wgsl = src is Wgsl;
    lemma_text_state_filter(lines, k, defs, shaders, imports, wgsl, fuel);
    let st = filter_scopes(lines, k, defs);
    assert(st.scopes.len() == 1);
    assert(text_state(lines, k + 1, defs, shaders, imports, wgsl, fuel) == step_line(
        st,
        lines[k],
        defs,
        shaders,
        imports,
        wgsl,
        fuel,
    ));
    assert(step_line(st, lines[k], defs, shaders, imports, wgsl, fuel) == Some(
        Err::<ScopeState, ProcessErrorView>(ProcessErrorView::TooManyEndIfs),
    ));
    lemma_text_state_err(lines, k + 1, lines.len() as int, defs, shaders, imports, wgsl, fuel);
}

/// An import whose reference has no registered handle, or whose handle has no
/// registered unit, fails at its line with the unresolved-import error naming
/// that exact reference.
pub proof fn lemma_unresolved_import_fails(
    lines: Seq<Seq<char>>,
    k: int,
    imp: ImportRefView,
    defs: Set<Seq<char>>,
    shaders: Map<u32, ShaderView>,
    imports: Map<ImportRefView, u32>,
    wgsl: bool,
    fuel: nat,
    st: ScopeState,
)
    requires
        0 <= k < lines.len(),
        classify(lines[k]) == LineKind::ImportMark(imp),
        !imports.dom().contains(imp) || !shaders.dom().contains(imports[imp]),
        text_state(lines, k, defs, shaders, imports, wgsl, fuel) == Some(
            Ok::<ScopeState, ProcessErrorView>(st),
        ),
    ensures
        text_state(lines, k + 1, defs, shaders, imports, wgsl, fuel) == Some(
            Err::<ScopeState, ProcessErrorView>(ProcessErrorView::UnresolvedImport(imp)),
        ),
{
    assert(import_step(imp, wgsl, defs, shaders, imports, fuel) == Some(
        Err::<Seq<char>, ProcessErrorView>(ProcessErrorView::UnresolvedImport(imp)),
    ));
    assert(text_state(lines, k + 1, defs, shaders, imports, wgsl, fuel) == step_line(
        st,
        lines[k],
        defs,
        shaders,
        imports,
        wgsl,
        fuel,
    ));
}

/// An import resolving to a unit whose processed dialect differs from the
/// importer's fails at its line with the mismatched-format error naming that
/// exact reference.
pub proof fn lemma_mismatched_import_fails(
    lines: Seq<Seq<char>>,
    k: int,
    imp: ImportRefView,
    defs: Set<Seq<char>>,
    shaders: Map<u32, ShaderView>,
    imports: Map<ImportRefView, u32>,
    wgsl: bool,
    fuel: nat,
    st: ScopeState,
    p: ProcessedView,
)
    requires
        0 <= k < lines.len(),
        classify(lines[k]) == LineKind::ImportMark(imp),
        resolves_to(shaders, imports, imp, imports[imp]),
        fuel >= 1,
        process_source(shaders[imports[imp]].source, defs, shaders, imports, (fuel - 1) as nat)
            == Some(Ok::<ProcessedView, ProcessErrorView>(p)),
        wgsl ==> !(p is Wgsl),
        !wgsl ==> !(p is Glsl),
        text_state(lines, k, defs, shaders, imports, wgsl, fuel) == Some(
            Ok::<ScopeState, ProcessErrorView>(st),
        ),
    ensures
        text_state(lines, k + 1, defs, shaders, imports, wgsl, fuel) == Some(
            Err::<ScopeState, ProcessErrorView>(ProcessErrorView::MismatchedImportFormat(imp)),
        ),
{
    assert(import_step(imp, wgsl, defs, shaders, imports, fuel) == Some(
        Err::<Seq<char>, ProcessErrorView>(ProcessErrorView::MismatchedImportFormat(imp)),
    ));
    assert(text_state(lines, k + 1, defs, shaders, imports, wgsl, fuel) == step_line(
        st,
        lines[k],
        defs,
        shaders,
        imports,
        wgsl,
        fuel,
    ));
}

// ---------------------------------------------------------------------------
// Extraction is a function of the text.
// ---------------------------------------------------------------------------

/// Two extractions from identical text, each as the extractor's contract
/// describes it, list the same references in the same order — duplicates
/// included.
pub proof fn lemma_extraction_idempotent(
    text: Seq<char>,
    r1: Seq<ShaderImport>,
    r2: Seq<ShaderImport>,
)
    requires
        refs_of(r1) == extract_imports(text),
        refs_of(r2) == extract_imports(text),
    ensures
        refs_of(r1) == refs_of(r2),
{
}

// ---------------------------------------------------------------------------
// Verbatim splicing of a directive-free import.
// ---------------------------------------------------------------------------

/// The lines of a text, each copied in order with a terminating newline.
pub open spec fn cat_lines(lines: Seq<Seq<char>>, n: int) -> Seq<char>
    decreases n,
{
    if n <= 0 {
        Seq::empty()
    } else {
        cat_lines(lines, n - 1) + lines[n - 1] + seq!['\n']
    }
}

/// A text whose lines carry no directives at all processes to its own lines,
/// in order, newline-terminated, under every definition set; the scope stack
/// stays at the root.
pub proof fn lemma_plain_text_state(
    lines: Seq<Seq<char>>,
    n: int,
    defs: Set<Seq<char>>,
    shaders: Map<u32, ShaderView>,
    imports: Map<ImportRefView, u32>,
    wgsl: bool,
    fuel: nat,
)
    requires
        0 <= n <= lines.len(),
        forall|m: int| 0 <= m < n ==> (#[trigger] classify(lines[m])) is Text,
    ensures
        text_state(lines, n, defs, shaders, imports, wgsl, fuel) == Some(
            Ok::<ScopeState, ProcessErrorView>(
                ScopeState { scopes: seq![true], out: cat_lines(lines, n) },
            ),
        ),
    decreases n,
{
    if n > 0 {
        lemma_plain_text_state(lines, n - 1, defs, shaders, imports, wgsl, fuel);
        let st = ScopeState { scopes: seq![true], out: cat_lines(lines, n - 1) };
        assert(text_state(lines, n, defs, shaders, imports, wgsl, fuel) == step_line(
            st,
            lines[n - 1],
            defs,
            shaders,
            imports,
            wgsl,
            fuel,
        ));
        assert(st.scopes.last());
        assert(step_line(st, lines[n - 1], defs, shaders, imports, wgsl, fuel) == Some(
            Ok::<ScopeState, ProcessErrorView>(
                ScopeState { scopes: st.scopes, out: st.out + lines[n - 1] + seq!['\n'] },
            ),
        ));
    } else {
        assert(init_state() == (ScopeState { scopes: seq![true], out: cat_lines(lines, 0) }));
    }
}

/// Splicing: when line `k` of the importing unit is an import of a unit `B`
/// whose text carries no directives, the state after that line keeps the
/// scope stack and appends `B`'s processed text — the import line is replaced
/// verbatim by `B`'s output, whatever came before and whatever the scopes
/// are.
pub proof fn lemma_import_splicing(
    lines: Seq<Seq<char>>,
    k: int,
    imp: ImportRefView,
    h: u32,
    defs: Set<Seq<char>>,
    shaders: Map<u32, ShaderView>,
    imports: Map<ImportRefView, u32>,
    wgsl: bool,
    fuel: nat,
    st: ScopeState,
)
    requires
        0 <= k < lines.len(),
        classify(lines[k]) == LineKind::ImportMark(imp),
        resolves_to(shaders, imports, imp, h),
        wgsl ==> shaders[h].source is Wgsl,
        !wgsl ==> shaders[h].source is Glsl,
        forall|m: int|
            0 <= m < lines_of(text_of(shaders[h].source)).len() ==> (#[trigger] classify(
                lines_of(text_of(shaders[h].source))[m],
            )) is Text,
        fuel >= 1,
        text_state(lines, k, defs, shaders, imports, wgsl, fuel) == Some(
            Ok::<ScopeState, ProcessErrorView>(st),
        ),
    ensures
        ({
            let bl = lines_of(text_of(shaders[h].source));
            text_state(lines, k + 1, defs, shaders, imports, wgsl, fuel) == Some(
                Ok::<ScopeState, ProcessErrorView>(
                    ScopeState {
                        scopes: st.scopes,
                        out: st.out + cat_lines(bl, bl.len() as int),
                    },
                ),
            )
        }),
{
    let b_src = shaders[h].source;
    let bl = lines_of(text_of(b_src));
    let b_wgsl = b_src is Wgsl;
    lemma_plain_text_state(
        bl,
        bl.len() as int,
        defs,
        shaders,
        imports,
        b_wgsl,
        (fuel - 1) as nat,
    );
    assert(import_step(imp, wgsl, defs, shaders, imports, fuel) == Some(
        Ok::<Seq<char>, ProcessErrorView>(cat_lines(bl, bl.len() as int)),
    ));
    assert(step_line(st, lines[k], defs, shaders, imports, wgsl, fuel) == Some(
        Ok::<ScopeState, ProcessErrorView>(
            ScopeState { scopes: st.scopes, out: st.out + cat_lines(bl, bl.len() as int) },
        ),
    ));
}

} // verus!
