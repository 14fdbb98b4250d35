//! lwhlisp: a small Lisp interpreter with a verified core.

/// Values and their structure.
pub mod atom;
/// Nested scopes of bindings.
pub mod env;
/// What evaluation fails with.
pub mod error;
/// What the interpreter asks of the machine.
pub mod host;
/// Rendering values as text.
pub mod print;
/// The procedures of the root environment.
pub mod builtins;
/// Evaluation: special forms, closures and macros.
pub mod eval;
/// Reading source text into expressions.
pub mod parsing;
/// Properties that hold across calls.
pub mod laws;
/// Reading back what the printer writes.
pub mod roundtrip;
