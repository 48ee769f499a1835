//! The shader unit model: a unit's raw source in one of three dialects, its
//! optional import path, and the import references extracted from its text at
//! construction; the directive-free processed form; and the error taxonomy of
//! processing.

use vstd::prelude::*;

use crate::import::{
    classify_line, extract_imports, import_of_line, lemma_extract_contains, refs_of, DirLine,
    ImportRefView, LineKind, ShaderImport, ShaderImportProcessor,
};
use crate::lines::{split_lines, strs_view};
use crate::registry::{ImportRegistry, ShaderRegistry};
use crate::semantics::{
    defs_set, import_step, init_state, lemma_process_source_mono, lemma_text_state_err,
    process_ok, process_source, registry_ranked, resolves_to, src_bounded, step_line, text_state,
    ScopeState,
};
use crate::text::lines_of;

verus! {

/// The pipeline stage a GLSL source is written for.
#[derive(Debug, Copy, Clone, PartialEq, Eq, Structural)]
pub enum ShaderStage {
    Vertex,
    Fragment,
    Compute,
}

/// Raw shader source: WGSL text, GLSL text with its stage, or SPIR-V bytes.
#[derive(Debug)]
pub enum Source {
    Wgsl(String),
    Glsl(String, ShaderStage),
    SpirV(Vec<u8>),
}

/// The mathematical value of a `Source`.
pub enum SourceView {
    Wgsl(Seq<char>),
    Glsl(Seq<char>, ShaderStage),
    SpirV(Seq<u8>),
}

impl View for Source {
    type V = SourceView;

    open spec fn view(&self) -> SourceView {
        match self {
            Source::Wgsl(s) => SourceView::Wgsl(s@),
            Source::Glsl(s, stage) => SourceView::Glsl(s@, *stage),
            Source::SpirV(b) => SourceView::SpirV(b@),
        }
    }
}

/// Copies a byte vector.
fn clone_bytes(b: &Vec<u8>) -> (r: Vec<u8>)
    ensures
        r@ == b@,
{
    let mut r: Vec<u8> = Vec::new();
    let mut i: usize = 0;
    while i < b.len()
        invariant
            i <= b@.len(),
            r@ == b@.subrange(0, i as int),
        decreases b@.len() - i,
    {
        r.push(b[i]);
        proof {
            assert(r@ =~= b@.subrange(0, i + 1));
        }
        i = i + 1;
    }
    proof {
        assert(b@.subrange(0, b@.len() as int) =~= b@);
    }
    r
}

impl Clone for Source {
    fn clone(&self) -> (r: Self)
        ensures
            r@ == self@,
    {
        match self {
            Source::Wgsl(s) => Source::Wgsl(s.clone()),
            Source::Glsl(s, stage) => Source::Glsl(s.clone(), *stage),
            Source::SpirV(b) => Source::SpirV(clone_bytes(b)),
        }
    }
}

/// An unprocessed shader unit. Its list of import references is extracted from
/// the source text once, on construction, and never recomputed.
#[derive(Debug)]
pub struct Shader {
    source: Source,
    import_path: Option<ShaderImport>,
    imports: Vec<ShaderImport>,
}

/// The mathematical value of a `Shader`.
pub struct ShaderView {
    pub source: SourceView,
    pub import_path: Option<ImportRefView>,
    pub imports: Seq<ImportRefView>,
}

impl View for Shader {
    type V = ShaderView;

    closed spec fn view(&self) -> ShaderView {
        ShaderView {
            source: self.source@,
            import_path: match &self.import_path {
                Some(i) => Some(i@),
                None => None,
            },
            imports: refs_of(self.imports@),
        }
    }
}

/// The import references a source carries in its text; a binary source
/// carries none.
pub open spec fn source_imports(src: SourceView) -> Seq<ImportRefView> {
    match src {
        SourceView::Wgsl(t) => extract_imports(t),
        SourceView::Glsl(t, _) => extract_imports(t),
        SourceView::SpirV(_) => Seq::empty(),
    }
}

impl Shader {
    /// The cached import list is exactly what the source text yields.
    pub open spec fn wf(&self) -> bool {
        self@.imports == source_imports(self@.source)
    }

    /// Builds a unit from WGSL text, extracting its imports.
    pub fn from_wgsl(source: String) -> (r: Shader)
        ensures
            r@.source == SourceView::Wgsl(source@),
            r@.import_path is None,
            r.wf(),
    {
        let imports = ShaderImportProcessor::default().get_imports_from_str(source.as_str());
        Shader { imports, source: Source::Wgsl(source), import_path: None }
    }

    /// Builds a unit from GLSL text and its stage, extracting its imports.
    pub fn from_glsl(source: String, stage: ShaderStage) -> (r: Shader)
        ensures
            r@.source == SourceView::Glsl(source@, stage),
            r@.import_path is None,
            r.wf(),
    {
        let imports = ShaderImportProcessor::default().get_imports_from_str(source.as_str());
        Shader { imports, source: Source::Glsl(source, stage), import_path: None }
    }

    /// Builds a unit from SPIR-V bytes; binary sources carry no imports.
    pub fn from_spirv(source: Vec<u8>) -> (r: Shader)
        ensures
            r@.source == SourceView::SpirV(source@),
            r@.import_path is None,
            r.wf(),
    {
        proof {
            assert(refs_of(Seq::<ShaderImport>::empty()) =~= Seq::<ImportRefView>::empty());
        }
        Shader { imports: Vec::new(), source: Source::SpirV(source), import_path: None }
    }

    /// Attaches the identifier under which other units may import this one.
    pub fn set_import_path(&mut self, import_path: String)
        ensures
            final(self)@.import_path == Some(ImportRefView::Custom(import_path@)),
            final(self)@.source == old(self)@.source,
            final(self)@.imports == old(self)@.imports,
            old(self).wf() ==> final(self).wf(),
    {
        self.import_path = Some(ShaderImport::Custom(import_path));
    }

    /// Builder form of `set_import_path`.
    pub fn with_import_path(self, import_path: String) -> (r: Self)
        ensures
            r@.import_path == Some(ImportRefView::Custom(import_path@)),
            r@.source == self@.source,
            r@.imports == self@.imports,
            self.wf() ==> r.wf(),
    {
        let mut s = self;
        s.set_import_path(import_path);
        s
    }

    /// The identifier under which this unit may be imported, if any.
    pub fn import_path(&self) -> (r: Option<&ShaderImport>)
        ensures
            match r {
                Some(i) => self@.import_path == Some(i@),
                None => self@.import_path is None,
            },
    {
        self.import_path.as_ref()
    }

    /// The import references extracted from the source at construction.
    pub fn imports(&self) -> (r: &Vec<ShaderImport>)
        ensures
            refs_of(r@) == self@.imports,
    {
        &self.imports
    }
}

impl ShaderImportProcessor {
    /// The ordered import list of a unit: extracted from its text; none for a
    /// binary unit.
    pub fn get_imports(&self, shader: &Shader) -> (r: Vec<ShaderImport>)
        ensures
            refs_of(r@) == source_imports(shader@.source),
    {
        match &shader.source {
            Source::Wgsl(source) => self.get_imports_from_str(source.as_str()),
            Source::Glsl(source, _) => self.get_imports_from_str(source.as_str()),
            Source::SpirV(_) => Vec::new(),
        }
    }
}

/// A processed shader: directive-free, ready to hand to a compiler.
#[derive(Debug)]
pub enum ProcessedShader {
    Wgsl(String),
    Glsl(String, ShaderStage),
    SpirV(Vec<u8>),
}

/// The mathematical value of a `ProcessedShader`.
pub enum ProcessedView {
    Wgsl(Seq<char>),
    Glsl(Seq<char>, ShaderStage),
    SpirV(Seq<u8>),
}

impl View for ProcessedShader {
    type V = ProcessedView;

    open spec fn view(&self) -> ProcessedView {
        match self {
            ProcessedShader::Wgsl(s) => ProcessedView::Wgsl(s@),
            ProcessedShader::Glsl(s, stage) => ProcessedView::Glsl(s@, *stage),
            ProcessedShader::SpirV(b) => ProcessedView::SpirV(b@),
        }
    }
}

/// Compares two byte vectors by contents.
fn bytes_eq(a: &Vec<u8>, b: &Vec<u8>) -> (r: bool)
    ensures
        r == (a@ == b@),
{
    if a.len() != b.len() {
        return false;
    }
    let mut i: usize = 0;
    while i < a.len()
        invariant
            a@.len() == b@.len(),
            i <= a@.len(),
            forall|j: int| 0 <= j < i ==> a@[j] == b@[j],
        decreases a@.len() - i,
    {
        if a[i] != b[i] {
            return false;
        }
        i = i + 1;
    }
    proof {
        assert(a@ =~= b@);
    }
    true
}

impl PartialEq for ProcessedShader {
    fn eq(&self, other: &Self) -> (r: bool) {
        match (self, other) {
            (ProcessedShader::Wgsl(a), ProcessedShader::Wgsl(b)) => *a == *b,
            (ProcessedShader::Glsl(a, sa), ProcessedShader::Glsl(b, sb)) => *a == *b && *sa
                == *sb,
            (ProcessedShader::SpirV(a), ProcessedShader::SpirV(b)) => bytes_eq(a, b),
            _ => false,
        }
    }
}

impl Eq for ProcessedShader {}

impl vstd::std_specs::cmp::PartialEqSpecImpl for ProcessedShader {
    open spec fn obeys_eq_spec() -> bool {
        true
    }

    open spec fn eq_spec(&self, other: &Self) -> bool {
        self@ == other@
    }
}

impl ProcessedShader {
    /// The processed text, for a WGSL result.
    pub fn get_wgsl_source(&self) -> (r: Option<&str>)
        ensures
            match r {
                Some(s) => self@ == ProcessedView::Wgsl(s@),
                None => !(self@ is Wgsl),
            },
    {
        if let ProcessedShader::Wgsl(source) = self {
            Some(source.as_str())
        } else {
            None
        }
    }

    /// The processed text, for a GLSL result.
    pub fn get_glsl_source(&self) -> (r: Option<&str>)
        ensures
            match r {
                Some(s) => self@ is Glsl && self@->Glsl_0 == s@,
                None => !(self@ is Glsl),
            },
    {
        if let ProcessedShader::Glsl(source, stage) = self {
            let r = Some(source.as_str());
            proof {
                assert(self@ == ProcessedView::Glsl(source@, *stage));
            }
            r
        } else {
            None
        }
    }
}

/// Why a processing call failed; carries the offending import reference where
/// one exists.
#[derive(Debug)]
pub enum ProcessShaderError {
    TooManyEndIfs,
    NotEnoughEndIfs,
    ShaderFormatDoesNotSupportShaderDefs,
    ShaderFormatDoesNotSupportImports,
    UnresolvedImport(ShaderImport),
    MismatchedImportFormat(ShaderImport),
}

/// The mathematical value of a `ProcessShaderError`.
pub enum ProcessErrorView {
    TooManyEndIfs,
    NotEnoughEndIfs,
    ShaderFormatDoesNotSupportShaderDefs,
    ShaderFormatDoesNotSupportImports,
    UnresolvedImport(ImportRefView),
    MismatchedImportFormat(ImportRefView),
}

impl View for ProcessShaderError {
    type V = ProcessErrorView;

    open spec fn view(&self) -> ProcessErrorView {
        match self {
            ProcessShaderError::TooManyEndIfs => ProcessErrorView::TooManyEndIfs,
            ProcessShaderError::NotEnoughEndIfs => ProcessErrorView::NotEnoughEndIfs,
            ProcessShaderError::ShaderFormatDoesNotSupportShaderDefs
                => ProcessErrorView::ShaderFormatDoesNotSupportShaderDefs,
            ProcessShaderError::ShaderFormatDoesNotSupportImports
                => ProcessErrorView::ShaderFormatDoesNotSupportImports,
            ProcessShaderError::UnresolvedImport(i) => ProcessErrorView::UnresolvedImport(i@),
            ProcessShaderError::MismatchedImportFormat(i)
                => ProcessErrorView::MismatchedImportFormat(i@),
        }
    }
}

impl PartialEq for ProcessShaderError {
    fn eq(&self, other: &Self) -> (r: bool) {
        match (self, other) {
            (ProcessShaderError::TooManyEndIfs, ProcessShaderError::TooManyEndIfs) => true,
            (ProcessShaderError::NotEnoughEndIfs, ProcessShaderError::NotEnoughEndIfs) => true,
            (
                ProcessShaderError::ShaderFormatDoesNotSupportShaderDefs,
                ProcessShaderError::ShaderFormatDoesNotSupportShaderDefs,
            ) => true,
            (
                ProcessShaderError::ShaderFormatDoesNotSupportImports,
                ProcessShaderError::ShaderFormatDoesNotSupportImports,
            ) => true,
            (
                ProcessShaderError::UnresolvedImport(a),
                ProcessShaderError::UnresolvedImport(b),
            ) => *a == *b,
            (
                ProcessShaderError::MismatchedImportFormat(a),
                ProcessShaderError::MismatchedImportFormat(b),
            ) => *a == *b,
            _ => false,
        }
    }
}

impl Eq for ProcessShaderError {}

impl vstd::std_specs::cmp::PartialEqSpecImpl for ProcessShaderError {
    open spec fn obeys_eq_spec() -> bool {
        true
    }

    open spec fn eq_spec(&self, other: &Self) -> bool {
        self@ == other@
    }
}

// ---------------------------------------------------------------------------
// The directive preprocessor.
// ---------------------------------------------------------------------------

/// The view of a processing result.
pub open spec fn result_view(r: Result<ProcessedShader, ProcessShaderError>) -> Result<
    ProcessedView,
    ProcessErrorView,
> {
    match r {
        Ok(p) => Ok(p@),
        Err(e) => Err(e@),
    }
}

/// A definition list denotes the empty set exactly when it is empty.
proof fn lemma_defs_set_empty(defs: Seq<String>)
    ensures
        (defs.len() == 0) == (defs_set(defs) == Set::<Seq<char>>::empty()),
{
    if defs.len() == 0 {
        assert(defs_set(defs) =~= Set::<Seq<char>>::empty());
    } else {
        assert(defs_set(defs).contains(defs[0]@));
    }
}

/// Whether `name` is among the definitions; duplicates and order in the list
/// do not matter.
fn contains_def(defs: &[String], name: &String) -> (r: bool)
    ensures
        r == defs_set(defs@).contains(name@),
{
    let n = defs.len();
    let mut i: usize = 0;
    while i < n
        invariant
            n == defs@.len(),
            i <= n,
            forall|j: int| 0 <= j < i ==> (#[trigger] defs@[j])@ != name@,
        decreases n - i,
    {
        if defs[i] == *name {
            return true;
        }
        i = i + 1;
    }
    false
}

/// The directive engine. It holds no state of its own: the patterns it
/// applies are fixed by the grammar.
pub struct ShaderProcessor {}

impl Default for ShaderProcessor {
    fn default() -> (r: Self)
        ensures
            r == (ShaderProcessor {  }),
    {
        ShaderProcessor {  }
    }
}

impl ShaderProcessor {
    /// Processes one unit: conditional-compilation filtering under
    /// `shader_defs` with recursive inlining of imports resolved through the
    /// two registries. The result is exactly what `process_source` ascribes
    /// to the unit's source, the definition set and the registry views; by
    /// `lemma_process_deterministic` that pins it down. The `processable`
    /// premise asks that the reachable import graph have no cycle — on a
    /// cyclic graph the recursion would not terminate.
    pub fn process(
        &self,
        shader: &Shader,
        shader_defs: &[String],
        shaders: &ShaderRegistry,
        import_handles: &ImportRegistry,
    ) -> (r: Result<ProcessedShader, ProcessShaderError>)
        requires
            shaders.wf(),
            import_handles.wf(),
            crate::semantics::processable(shader@.source, shaders@, import_handles@),
        ensures
            process_ok(
                shader@.source,
                defs_set(shader_defs@),
                shaders@,
                import_handles@,
                result_view(r),
            ),
    {
        let ghost (rank, bound) = choose|rank: Map<u32, nat>, bound: nat|
            registry_ranked(shaders@, import_handles@, rank) && src_bounded(
                shader@.source,
                shaders@,
                import_handles@,
                rank,
                bound,
            );
        let r = self.process_impl(
            shader,
            shader_defs,
            shaders,
            import_handles,
            Ghost(rank),
            Ghost(bound),
        );
        proof {
            assert(process_source(
                shader@.source,
                defs_set(shader_defs@),
                shaders@,
                import_handles@,
                (bound + 1) as nat,
            ) == Some(result_view(r)));
        }
        r
    }

    /// The recursive engine, measured by the ghost ranking.
    #[verifier::rlimit(100)]
    fn process_impl(
        &self,
        shader: &Shader,
        shader_defs: &[String],
        shaders: &ShaderRegistry,
        import_handles: &ImportRegistry,
        rank: Ghost<Map<u32, nat>>,
        bound: Ghost<nat>,
    ) -> (r: Result<ProcessedShader, ProcessShaderError>)
        requires
            shaders.wf(),
            import_handles.wf(),
            registry_ranked(shaders@, import_handles@, rank@),
            src_bounded(shader@.source, shaders@, import_handles@, rank@, bound@),
        ensures
            process_source(
                shader@.source,
                defs_set(shader_defs@),
                shaders@,
                import_handles@,
                (bound@ + 1) as nat,
            ) == Some(result_view(r)),
        decreases bound@, 1int,
    {
        let ghost src = shader@.source;
        let ghost dset = defs_set(shader_defs@);
        let ghost fuel = (bound@ + 1) as nat;
        let text: &str = match &shader.source {
            Source::Wgsl(s) => s.as_str(),
            Source::Glsl(s, _) => s.as_str(),
            Source::SpirV(bytes) => {
                proof {
                    lemma_defs_set_empty(shader_defs@);
                }
                if shader_defs.len() == 0 {
                    return Ok(ProcessedShader::SpirV(clone_bytes(bytes)));
                } else {
                    return Err(ProcessShaderError::ShaderFormatDoesNotSupportShaderDefs);
                }
            },
        };
        let wgsl = match &shader.source {
            Source::Wgsl(_) => true,
            _ => false,
        };
        let lines = split_lines(text);
        let ghost lns = lines_of(text@);
        let mut scopes: Vec<bool> = Vec::new();
        scopes.push(true);
        let mut out = String::new();
        let mut k: usize = 0;
        proof {
            assert(scopes@ =~= seq![true]);
            assert(init_state() == (ScopeState { scopes: scopes@, out: out@ }));
        }
        while k < lines.len()
            invariant
                shaders.wf(),
                import_handles.wf(),
                registry_ranked(shaders@, import_handles@, rank@),
                src_bounded(src, shaders@, import_handles@, rank@, bound@),
                src == shader@.source,
                dset == defs_set(shader_defs@),
                fuel == (bound@ + 1) as nat,
                match src {
                    SourceView::Wgsl(t) => wgsl && t == text@,
                    SourceView::Glsl(t, _) => !wgsl && t == text@,
                    SourceView::SpirV(_) => false,
                },
                lns == lines_of(text@),
                strs_view(lines@) == lns,
                k <= lines@.len(),
                lines@.len() == lns.len(),
                scopes@.len() >= 1,
                text_state(lns, k as int, dset, shaders@, import_handles@, wgsl, fuel) == Some(
                    Ok::<ScopeState, ProcessErrorView>(
                        ScopeState { scopes: scopes@, out: out@ },
                    ),
                ),
            decreases lines@.len() - k,
        {
            let line: &str = lines[k];
            proof {
                assert(line@ == lns[k as int]);
            }
            let ghost st = ScopeState { scopes: scopes@, out: out@ };
            match classify_line(line) {
                DirLine::Ifdef(name) => {
                    let top = scopes[scopes.len() - 1];
                    let active = top && contains_def(shader_defs, &name);
                    scopes.push(active);
                    proof {
                        assert(scopes@ == st.scopes.push(
                            st.scopes.last() && dset.contains(name@),
                        ));
                    }
                },
                DirLine::Ifndef(name) => {
                    let top = scopes[scopes.len() - 1];
                    let active = top && !contains_def(shader_defs, &name);
                    scopes.push(active);
                    proof {
                        assert(scopes@ == st.scopes.push(
                            st.scopes.last() && !dset.contains(name@),
                        ));
                    }
                },
                DirLine::ElseMark => {
                    let len = scopes.len();
                    let parent = if len > 1 {
                        scopes[len - 2]
                    } else {
                        true
                    };
                    let top = scopes[len - 1];
                    scopes.pop();
                    scopes.push(parent && !top);
                    proof {
                        assert(scopes@ =~= st.scopes.update(
                            st.scopes.len() - 1,
                            (if st.scopes.len() > 1 {
                                st.scopes[st.scopes.len() - 2]
                            } else {
                                true
                            }) && !st.scopes.last(),
                        ));
                    }
                },
                DirLine::EndifMark => {
                    if scopes.len() == 1 {
                        proof {
                            assert(text_state(
                                lns,
                                k + 1,
                                dset,
                                shaders@,
                                import_handles@,
                                wgsl,
                                fuel,
                            ) == Some(
                                Err::<ScopeState, ProcessErrorView>(
                                    ProcessErrorView::TooManyEndIfs,
                                ),
                            ));
                            lemma_text_state_err(
                                lns,
                                k + 1,
                                lns.len() as int,
                                dset,
                                shaders@,
                                import_handles@,
                                wgsl,
                                fuel,
                            );
                        }
                        return Err(ProcessShaderError::TooManyEndIfs);
                    } else {
                        scopes.pop();
                        proof {
                            assert(scopes@ =~= st.scopes.drop_last());
                        }
                    }
                },
                DirLine::ImportMark(imp) => {
                    let ghost impv = imp@;
                    proof {
                        assert(import_of_line(lns[k as int]) == Some(impv));
                        lemma_extract_contains(lns, lns.len() as int, k as int, impv);
                        let exts = crate::import::extract_from_lines(lns, lns.len() as int);
                        assert(source_imports(src) == exts);
                        let ei = choose|i2: int|
                            0 <= i2 < source_imports(src).len() && source_imports(src)[i2]
                                == impv;
                        assert forall|h: u32|
                            resolves_to(shaders@, import_handles@, impv, h) implies rank@
                            .dom().contains(h) && rank@[h] < bound@ by {
                            assert(resolves_to(
                                shaders@,
                                import_handles@,
                                source_imports(src)[ei],
                                h,
                            ));
                        }
                    }
                    match self.apply_import(
                        import_handles,
                        shaders,
                        imp,
                        wgsl,
                        shader_defs,
                        &mut out,
                        rank,
                        bound,
                    ) {
                        Ok(_) => {
                            proof {
                                let t = choose|t: Seq<char>|
                                    import_step(
                                        impv,
                                        wgsl,
                                        dset,
                                        shaders@,
                                        import_handles@,
                                        fuel,
                                    ) == Some(Ok::<Seq<char>, ProcessErrorView>(t)) && out@
                                        == st.out + t;
                                assert(step_line(
                                    st,
                                    lns[k as int],
                                    dset,
                                    shaders@,
                                    import_handles@,
                                    wgsl,
                                    fuel,
                                ) == Some(
                                    Ok::<ScopeState, ProcessErrorView>(
                                        ScopeState { scopes: scopes@, out: out@ },
                                    ),
                                ));
                            }
                        },
                        Err(e) => {
                            proof {
                                assert(text_state(
                                    lns,
                                    k + 1,
                                    dset,
                                    shaders@,
                                    import_handles@,
                                    wgsl,
                                    fuel,
                                ) == Some(Err::<ScopeState, ProcessErrorView>(e@)));
                                lemma_text_state_err(
                                    lns,
                                    k + 1,
                                    lns.len() as int,
                                    dset,
                                    shaders@,
                                    import_handles@,
                                    wgsl,
                                    fuel,
                                );
                            }
                            return Err(e);
                        },
                    }
                },
                DirLine::Text => {
                    let top = scopes[scopes.len() - 1];
                    if top {
                        out.append(line);
                        out.append("\n");
                        proof {
                            reveal_strlit("\n");
                            assert("\n"@ =~= seq!['\n']);
                            assert(out@ == st.out + line@ + seq!['\n']);
                        }
                    }
                },
            }
            k = k + 1;
        }
        if scopes.len() != 1 {
            return Err(ProcessShaderError::NotEnoughEndIfs);
        }
        match &shader.source {
            Source::Wgsl(_) => Ok(ProcessedShader::Wgsl(out)),
            Source::Glsl(_, stage) => Ok(ProcessedShader::Glsl(out, *stage)),
            Source::SpirV(_) => vstd::pervasive::unreached(),
        }
    }

    /// Resolves one import reference and splices the imported unit's
    /// processed text into the output; on failure the output is untouched.
    fn apply_import(
        &self,
        import_handles: &ImportRegistry,
        shaders: &ShaderRegistry,
        import: ShaderImport,
        wgsl: bool,
        shader_defs: &[String],
        final_string: &mut String,
        rank: Ghost<Map<u32, nat>>,
        bound: Ghost<nat>,
    ) -> (r: Result<(), ProcessShaderError>)
        requires
            shaders.wf(),
            import_handles.wf(),
            registry_ranked(shaders@, import_handles@, rank@),
            forall|h: u32|
                resolves_to(shaders@, import_handles@, import@, h) ==> rank@.dom().contains(h)
                    && rank@[h] < bound@,
        ensures
            match r {
                Ok(_) => exists|t: Seq<char>|
                    import_step(
                        import@,
                        wgsl,
                        defs_set(shader_defs@),
                        shaders@,
                        import_handles@,
                        (bound@ + 1) as nat,
                    ) == Some(Ok::<Seq<char>, ProcessErrorView>(t)) && final(final_string)@
                        == old(final_string)@ + t,
                Err(e) => import_step(
                    import@,
                    wgsl,
                    defs_set(shader_defs@),
                    shaders@,
                    import_handles@,
                    (bound@ + 1) as nat,
                ) == Some(Err::<Seq<char>, ProcessErrorView>(e@)) && final(final_string)@ == old(
                    final_string,
                )@,
            },
        decreases bound@, 0int,
    {
        let ghost dset = defs_set(shader_defs@);
        let handle = match import_handles.get(&import) {
            Some(h) => h,
            None => {
                return Err(ProcessShaderError::UnresolvedImport(import));
            },
        };
        let imported = match shaders.get(&handle) {
            Some(s) => s,
            None => {
                return Err(ProcessShaderError::UnresolvedImport(import));
            },
        };
        let ghost h = handle.0;
        proof {
            assert(resolves_to(shaders@, import_handles@, import@, h));
            assert(imported@ == shaders@[h]);
        }
        let sub = self.process_impl(
            imported,
            shader_defs,
            shaders,
            import_handles,
            rank,
            Ghost(rank@[h]),
        );
        proof {
            lemma_process_source_mono(
                shaders@[h].source,
                dset,
                shaders@,
                import_handles@,
                (rank@[h] + 1) as nat,
                bound@,
            );
        }
        let processed = match sub {
            Ok(p) => p,
            Err(e) => {
                return Err(e);
            },
        };
        if wgsl {
            match processed {
                ProcessedShader::Wgsl(t) => {
                    let ghost tv = t@;
                    final_string.append(t.as_str());
                    proof {
                        assert(import_step(
                            import@,
                            wgsl,
                            dset,
                            shaders@,
                            import_handles@,
                            (bound@ + 1) as nat,
                        ) == Some(Ok::<Seq<char>, ProcessErrorView>(tv)));
                    }
                    Ok(())
                },
                _ => Err(ProcessShaderError::MismatchedImportFormat(import)),
            }
        } else {
            match processed {
                ProcessedShader::Glsl(t, _) => {
                    let ghost tv = t@;
                    final_string.append(t.as_str());
                    proof {
                        assert(import_step(
                            import@,
                            wgsl,
                            dset,
                            shaders@,
                            import_handles@,
                            (bound@ + 1) as nat,
                        ) == Some(Ok::<Seq<char>, ProcessErrorView>(tv)));
                    }
                    Ok(())
                },
                _ => Err(ProcessShaderError::MismatchedImportFormat(import)),
            }
        }
    }
}

} // verus!
