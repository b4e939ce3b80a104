//! A visual-programming core: an index-addressed node/socket/connection
//! graph, a deterministic code emitter, a small expression-language
//! front-end, an IR builder, and the bookkeeping of a JIT engine's
//! published artifacts. The native code generation and the type-erased
//! invocation live outside the library, behind its plain-value API.
pub mod editor;
pub mod emit;
pub mod engine;
pub mod frontend;
pub mod graph;
pub mod ir;
