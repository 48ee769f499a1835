use aniline::{Shader, ShaderImport, ShaderImportProcessor, ShaderStage};

#[test]
fn quoted_and_bare_imports_are_extracted_in_order() {
    let p = ShaderImportProcessor::default();
    let text = "#import \"lib/a.wgsl\"\ncode\n#import custom_b\nmore";
    let imports = p.get_imports_from_str(text);
    assert_eq!(
        imports,
        vec![
            ShaderImport::AssetPath("lib/a.wgsl".to_string()),
            ShaderImport::Custom("custom_b".to_string()),
        ]
    );
}

#[test]
fn duplicates_are_preserved() {
    let p = ShaderImportProcessor::default();
    let text = "#import A\nx\n#import A";
    let imports = p.get_imports_from_str(text);
    assert_eq!(
        imports,
        vec![
            ShaderImport::Custom("A".to_string()),
            ShaderImport::Custom("A".to_string()),
        ]
    );
}

#[test]
fn extraction_is_idempotent() {
    let p = ShaderImportProcessor::default();
    let text = "#import \"a\"\n#import b\n#import \"a\"\nnot an import";
    let first = p.get_imports_from_str(text);
    let second = p.get_imports_from_str(text);
    assert_eq!(first, second);
}

#[test]
fn quoted_form_takes_precedence_over_bare() {
    let p = ShaderImportProcessor::default();
    let imports = p.get_imports_from_str("#import \"path\"");
    assert_eq!(imports, vec![ShaderImport::AssetPath("path".to_string())]);
}

#[test]
fn quoted_content_runs_to_the_last_quote() {
    let p = ShaderImportProcessor::default();
    let imports = p.get_imports_from_str("#import \"a\" \"b\"");
    assert_eq!(imports, vec![ShaderImport::AssetPath("a\" \"b".to_string())]);
}

#[test]
fn empty_quotes_fall_back_to_the_bare_form() {
    let p = ShaderImportProcessor::default();
    let imports = p.get_imports_from_str("#import \"\"");
    assert_eq!(imports, vec![ShaderImport::Custom("\"\"".to_string())]);
}

#[test]
fn bare_references_are_trimmed() {
    let p = ShaderImportProcessor::default();
    let imports = p.get_imports_from_str("  #  import   spaced_name   \nrest");
    assert_eq!(imports, vec![ShaderImport::Custom("spaced_name".to_string())]);
}

#[test]
fn an_import_with_nothing_after_it_is_not_an_import() {
    let p = ShaderImportProcessor::default();
    assert_eq!(p.get_imports_from_str("#import   "), vec![]);
    assert_eq!(p.get_imports_from_str("#import"), vec![]);
}

#[test]
fn conditional_directives_are_not_imports() {
    let p = ShaderImportProcessor::default();
    let text = "#ifdef A\n#import B\n#endif\n#else";
    let imports = p.get_imports_from_str(text);
    assert_eq!(imports, vec![ShaderImport::Custom("B".to_string())]);
}

#[test]
fn shader_units_cache_their_imports_at_construction() {
    let shader = Shader::from_wgsl("#import \"x\"\n#import y".to_string());
    assert_eq!(
        *shader.imports(),
        vec![
            ShaderImport::AssetPath("x".to_string()),
            ShaderImport::Custom("y".to_string()),
        ]
    );
    let p = ShaderImportProcessor::default();
    assert_eq!(p.get_imports(&shader), *shader.imports());
}

#[test]
fn glsl_units_extract_imports_and_binary_units_have_none() {
    let glsl = Shader::from_glsl("#import common\nvoid main() {}".to_string(), ShaderStage::Vertex);
    assert_eq!(*glsl.imports(), vec![ShaderImport::Custom("common".to_string())]);
    let spirv = Shader::from_spirv(vec![0u8, 1, 2]);
    assert_eq!(*spirv.imports(), vec![]);
    let p = ShaderImportProcessor::default();
    assert_eq!(p.get_imports(&spirv), vec![]);
}

#[test]
fn import_refs_compare_by_variant_and_text() {
    assert_eq!(
        ShaderImport::Custom("a".to_string()),
        ShaderImport::Custom("a".to_string())
    );
    assert_ne!(
        ShaderImport::Custom("a".to_string()),
        ShaderImport::AssetPath("a".to_string())
    );
    assert_ne!(
        ShaderImport::Custom("a".to_string()),
        ShaderImport::Custom("b".to_string())
    );
}

#[test]
fn import_path_is_attached_by_the_builder() {
    let shader = Shader::from_wgsl("x".to_string()).with_import_path("mylib".to_string());
    assert_eq!(
        shader.import_path(),
        Some(&ShaderImport::Custom("mylib".to_string()))
    );
    let mut other = Shader::from_wgsl("y".to_string());
    assert!(other.import_path().is_none());
    other.set_import_path("lib2".to_string());
    assert_eq!(
        other.import_path(),
        Some(&ShaderImport::Custom("lib2".to_string()))
    );
}
