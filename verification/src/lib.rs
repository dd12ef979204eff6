//! A string-templating engine built on pure substitution.
//!
//! Template text declares placeholders with the marker syntax `@[name]@`.
//! A `TronTemplate` extracts the placeholder names at construction time,
//! lets callers bind string values to them, and renders the text once every
//! placeholder is bound.  A `TronRef` wraps a template together with an
//! ordered list of dependency declarations and supports composing one
//! template's rendered output into another's placeholder.  A
//! `TronAssembler` broadcasts bindings over a list of handles and
//! concatenates their renders.

pub mod text;
pub mod scan;
pub mod replace;
pub mod template;
pub mod handle;
pub mod assembler;
pub mod laws;

pub use assembler::TronAssembler;
pub use handle::TronRef;
pub use template::TronError;
pub use template::TronTemplate;
