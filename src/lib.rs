//! XDR tooling: an IDL parser, a code generator that walks the parsed tree,
//! and a schema-driven decoder for the XDR binary encoding.

pub mod code_writer;
pub mod codegen;
pub mod parser;
pub mod deserializer;
