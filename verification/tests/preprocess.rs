use aniline::{
    HandleAllocator, ImportRegistry, ProcessShaderError, Shader, ShaderImport, ShaderProcessor,
    ShaderRegistry, ShaderStage,
};

fn wgsl_out(
    text: &str,
    defs: &[String],
    shaders: &ShaderRegistry,
    imports: &ImportRegistry,
) -> Result<String, ProcessShaderError> {
    let shader = Shader::from_wgsl(text.to_string());
    let r = ShaderProcessor::default().process(&shader, defs, shaders, imports)?;
    Ok(r.get_wgsl_source().unwrap().to_string())
}

fn no_registries() -> (ShaderRegistry, ImportRegistry) {
    (ShaderRegistry::new(), ImportRegistry::new())
}

fn defs(names: &[&str]) -> Vec<String> {
    names.iter().map(|n| n.to_string()).collect()
}

#[test]
fn conditional_with_definition_active() {
    let (sr, ir) = no_registries();
    let out = wgsl_out("#ifdef FOO\na\n#else\nb\n#endif\nc", &defs(&["FOO"]), &sr, &ir).unwrap();
    assert_eq!(out, "a\nc\n");
}

#[test]
fn conditional_without_definition_takes_else() {
    let (sr, ir) = no_registries();
    let out = wgsl_out("#ifdef FOO\na\n#else\nb\n#endif\nc", &defs(&[]), &sr, &ir).unwrap();
    assert_eq!(out, "b\nc\n");
}

#[test]
fn ifndef_inverts_the_test() {
    let (sr, ir) = no_registries();
    let out = wgsl_out("#ifndef FOO\na\n#endif\nb", &defs(&[]), &sr, &ir).unwrap();
    assert_eq!(out, "a\nb\n");
    let out = wgsl_out("#ifndef FOO\na\n#endif\nb", &defs(&["FOO"]), &sr, &ir).unwrap();
    assert_eq!(out, "b\n");
}

#[test]
fn extra_endif_is_too_many_endifs() {
    let (sr, ir) = no_registries();
    let err = wgsl_out("a\n#endif\nb", &defs(&[]), &sr, &ir).unwrap_err();
    assert_eq!(err, ProcessShaderError::TooManyEndIfs);
}

#[test]
fn unclosed_ifdef_is_not_enough_endifs() {
    let (sr, ir) = no_registries();
    let err = wgsl_out("#ifdef FOO\na\n", &defs(&["FOO"]), &sr, &ir).unwrap_err();
    assert_eq!(err, ProcessShaderError::NotEnoughEndIfs);
}

#[test]
fn nested_scopes_use_and_semantics() {
    let text = "#ifdef A\n#ifdef B\nx\n#endif\n#else\ny\n#endif";
    let (sr, ir) = no_registries();
    assert_eq!(wgsl_out(text, &defs(&["A", "B"]), &sr, &ir).unwrap(), "x\n");
    assert_eq!(wgsl_out(text, &defs(&["A"]), &sr, &ir).unwrap(), "");
    assert_eq!(wgsl_out(text, &defs(&[]), &sr, &ir).unwrap(), "y\n");
    assert_eq!(wgsl_out(text, &defs(&["B"]), &sr, &ir).unwrap(), "y\n");
}

#[test]
fn else_without_open_scope_flips_the_root() {
    let (sr, ir) = no_registries();
    let out = wgsl_out("a\n#else\nb", &defs(&[]), &sr, &ir).unwrap();
    assert_eq!(out, "a\n");
}

#[test]
fn whitespace_around_hash_and_keyword_is_tolerated() {
    let (sr, ir) = no_registries();
    let out = wgsl_out("  #  ifdef FOO\na\n\t#\tendif\nb", &defs(&["FOO"]), &sr, &ir).unwrap();
    assert_eq!(out, "a\nb\n");
}

#[test]
fn crlf_line_endings_are_handled() {
    let (sr, ir) = no_registries();
    let out = wgsl_out("a\r\n#ifdef X\r\nb\r\n#endif\r\nc", &defs(&[]), &sr, &ir).unwrap();
    assert_eq!(out, "a\nc\n");
}

#[test]
fn duplicate_definitions_collapse() {
    let (sr, ir) = no_registries();
    let out =
        wgsl_out("#ifdef FOO\na\n#endif", &defs(&["FOO", "FOO", "BAR"]), &sr, &ir).unwrap();
    assert_eq!(out, "a\n");
}

#[test]
fn spirv_passes_through_without_definitions() {
    let (sr, ir) = no_registries();
    let shader = Shader::from_spirv(vec![1u8, 2, 3, 4]);
    let r = ShaderProcessor::default().process(&shader, &defs(&[]), &sr, &ir).unwrap();
    match r {
        aniline::ProcessedShader::SpirV(bytes) => assert_eq!(bytes, vec![1u8, 2, 3, 4]),
        _ => panic!("expected a binary result"),
    }
}

#[test]
fn spirv_with_definitions_is_refused() {
    let (sr, ir) = no_registries();
    let shader = Shader::from_spirv(vec![1u8, 2, 3]);
    let err =
        ShaderProcessor::default().process(&shader, &defs(&["FOO"]), &sr, &ir).unwrap_err();
    assert_eq!(err, ProcessShaderError::ShaderFormatDoesNotSupportShaderDefs);
}

#[test]
fn unresolved_import_names_the_reference() {
    let (sr, ir) = no_registries();
    let err = wgsl_out("#import MISSING\n", &defs(&[]), &sr, &ir).unwrap_err();
    assert_eq!(
        err,
        ProcessShaderError::UnresolvedImport(ShaderImport::Custom("MISSING".to_string()))
    );
}

#[test]
fn import_splices_processed_text_in_place() {
    let mut alloc = HandleAllocator::new();
    let mut sr = ShaderRegistry::new();
    let mut ir = ImportRegistry::new();
    let b = Shader::from_wgsl("b1\nb2".to_string());
    let h = alloc.allocate();
    sr.insert(h, b);
    ir.insert(ShaderImport::Custom("B".to_string()), h);
    let out = wgsl_out("top\n#import B\nbottom", &defs(&[]), &sr, &ir).unwrap();
    assert_eq!(out, "top\nb1\nb2\nbottom\n");
}

#[test]
fn splicing_equals_separate_processing() {
    let mut alloc = HandleAllocator::new();
    let mut sr = ShaderRegistry::new();
    let mut ir = ImportRegistry::new();
    let b_text = "fn helper() {}\nconst K: u32 = 1u;";
    let b = Shader::from_wgsl(b_text.to_string());
    let h = alloc.allocate();
    sr.insert(h, b);
    ir.insert(ShaderImport::Custom("B".to_string()), h);
    let b_alone = wgsl_out(b_text, &defs(&[]), &sr, &ir).unwrap();
    let a_out = wgsl_out("top\n#import B\nbottom", &defs(&[]), &sr, &ir).unwrap();
    assert_eq!(a_out, format!("top\n{}bottom\n", b_alone));
}

#[test]
fn quoted_import_resolves_by_asset_path() {
    let mut alloc = HandleAllocator::new();
    let mut sr = ShaderRegistry::new();
    let mut ir = ImportRegistry::new();
    let b = Shader::from_wgsl("imported".to_string());
    let h = alloc.allocate();
    sr.insert(h, b);
    ir.insert(ShaderImport::AssetPath("lib/b.wgsl".to_string()), h);
    let out = wgsl_out("#import \"lib/b.wgsl\"\nmain", &defs(&[]), &sr, &ir).unwrap();
    assert_eq!(out, "imported\nmain\n");
}

#[test]
fn imports_resolve_recursively() {
    let mut alloc = HandleAllocator::new();
    let mut sr = ShaderRegistry::new();
    let mut ir = ImportRegistry::new();
    let c = Shader::from_wgsl("c".to_string());
    let hc = alloc.allocate();
    sr.insert(hc, c);
    ir.insert(ShaderImport::Custom("C".to_string()), hc);
    let b = Shader::from_wgsl("#import C\nb".to_string());
    let hb = alloc.allocate();
    sr.insert(hb, b);
    ir.insert(ShaderImport::Custom("B".to_string()), hb);
    let out = wgsl_out("#import B\na", &defs(&[]), &sr, &ir).unwrap();
    assert_eq!(out, "c\nb\na\n");
}

#[test]
fn import_error_propagates_from_the_imported_unit() {
    let mut alloc = HandleAllocator::new();
    let mut sr = ShaderRegistry::new();
    let mut ir = ImportRegistry::new();
    let b = Shader::from_wgsl("#endif".to_string());
    let h = alloc.allocate();
    sr.insert(h, b);
    ir.insert(ShaderImport::Custom("B".to_string()), h);
    let err = wgsl_out("#import B\n", &defs(&[]), &sr, &ir).unwrap_err();
    assert_eq!(err, ProcessShaderError::TooManyEndIfs);
}

#[test]
fn wgsl_importing_glsl_is_a_format_mismatch() {
    let mut alloc = HandleAllocator::new();
    let mut sr = ShaderRegistry::new();
    let mut ir = ImportRegistry::new();
    let b = Shader::from_glsl("void main() {}".to_string(), ShaderStage::Fragment);
    let h = alloc.allocate();
    sr.insert(h, b);
    ir.insert(ShaderImport::Custom("B".to_string()), h);
    let err = wgsl_out("#import B\n", &defs(&[]), &sr, &ir).unwrap_err();
    assert_eq!(
        err,
        ProcessShaderError::MismatchedImportFormat(ShaderImport::Custom("B".to_string()))
    );
}

#[test]
fn glsl_importing_wgsl_is_a_format_mismatch() {
    let mut alloc = HandleAllocator::new();
    let mut sr = ShaderRegistry::new();
    let mut ir = ImportRegistry::new();
    let b = Shader::from_wgsl("x".to_string());
    let h = alloc.allocate();
    sr.insert(h, b);
    ir.insert(ShaderImport::Custom("B".to_string()), h);
    let a = Shader::from_glsl("#import B\n".to_string(), ShaderStage::Vertex);
    let err = ShaderProcessor::default().process(&a, &defs(&[]), &sr, &ir).unwrap_err();
    assert_eq!(
        err,
        ProcessShaderError::MismatchedImportFormat(ShaderImport::Custom("B".to_string()))
    );
}

#[test]
fn glsl_processing_keeps_the_stage() {
    let (sr, ir) = no_registries();
    let a = Shader::from_glsl("#ifdef X\na\n#endif\nb".to_string(), ShaderStage::Compute);
    let r = ShaderProcessor::default().process(&a, &defs(&[]), &sr, &ir).unwrap();
    match &r {
        aniline::ProcessedShader::Glsl(text, stage) => {
            assert_eq!(text, "b\n");
            assert_eq!(*stage, ShaderStage::Compute);
        },
        _ => panic!("expected a GLSL result"),
    }
    assert!(r.get_wgsl_source().is_none());
}

#[test]
fn imports_are_inlined_even_inside_inactive_scopes() {
    let mut alloc = HandleAllocator::new();
    let mut sr = ShaderRegistry::new();
    let mut ir = ImportRegistry::new();
    let b = Shader::from_wgsl("spliced".to_string());
    let h = alloc.allocate();
    sr.insert(h, b);
    ir.insert(ShaderImport::Custom("B".to_string()), h);
    let out = wgsl_out("#ifdef NOPE\n#import B\n#endif\nx", &defs(&[]), &sr, &ir).unwrap();
    assert_eq!(out, "spliced\nx\n");
}

#[test]
fn malformed_directives_fall_through_as_text() {
    let (sr, ir) = no_registries();
    let out = wgsl_out("#ifdef\n#import\nplain", &defs(&[]), &sr, &ir).unwrap();
    assert_eq!(out, "#ifdef\n#import\nplain\n");
}

#[test]
fn ifdef_name_stops_at_the_first_non_word_character() {
    let (sr, ir) = no_registries();
    let out = wgsl_out("#ifdef FOO BAR\na\n#endif", &defs(&["FOO"]), &sr, &ir).unwrap();
    assert_eq!(out, "a\n");
}

#[test]
fn empty_input_yields_empty_output() {
    let (sr, ir) = no_registries();
    assert_eq!(wgsl_out("", &defs(&[]), &sr, &ir).unwrap(), "");
}

#[test]
fn a_final_line_without_a_terminator_gains_one() {
    let (sr, ir) = no_registries();
    assert_eq!(wgsl_out("a\nb", &defs(&[]), &sr, &ir).unwrap(), "a\nb\n");
}

#[test]
fn processing_is_deterministic() {
    let (sr, ir) = no_registries();
    let text = "#ifdef A\nx\n#endif\ny";
    let d = defs(&["A"]);
    let first = wgsl_out(text, &d, &sr, &ir).unwrap();
    let second = wgsl_out(text, &d, &sr, &ir).unwrap();
    assert_eq!(first, second);
}
