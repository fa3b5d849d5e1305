pub mod shared;
pub mod runtime;
pub mod compiler;
pub mod flowchart;
pub mod lsp;
pub mod launcher;
