//! A shader preprocessor library: conditional compilation of shader source
//! text driven by named definition flags, recursive inlining of cross-unit
//! imports, and allocation of unique handles for registered shader units.

pub mod import;
pub mod laws;
pub mod lines;
pub mod registry;
pub mod semantics;
pub mod shader;
pub mod text;
pub mod timer;

pub use import::{ShaderImport, ShaderImportProcessor};
pub use registry::{HandleAllocator, ImportRegistry, ShaderHandle, ShaderRegistry};
pub use shader::{
    ProcessShaderError, ProcessedShader, Shader, ShaderProcessor, ShaderStage, Source,
};
pub use timer::Timer;
