//! Layout and code generation for GPU scene encodings.
//!
//! A schema of structs and tagged unions is turned into two pieces of shader
//! source text: one in a Metal Shading Language dialect and one in an HLSL
//! dialect. Small fields are packed into 32-bit words, and accessor and
//! unpacker routines are emitted so a kernel can read every field from a
//! byte-addressed buffer using unsigned 32-bit loads.
//!
//! Modules are laid out and emitted in declaration order, and a struct
//! embedded by name must be declared before its first use: the layout
//! recursion needs a well-founded order on the definitions, and
//! declaration order is the one this library uses.

pub mod hlsl;
pub mod laws;
pub mod model;
pub mod msl;
pub mod pack;
pub mod scalar;
pub mod text;
pub mod typename;
