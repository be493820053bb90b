//! Lexical front end of a small assembler for an 8-bit CPU: splits a source
//! line into label, instruction and comment, and decodes instruction text into
//! a mnemonic and an addressing mode.

pub mod definitions;
pub mod directives;
pub mod instructions;
pub mod parser;
pub mod text;

pub use definitions::Definition;
pub use directives::Directive;
pub use instructions::{DecodeError, Instruction, Mnemonic, PseudoAddressingMode};
pub use parser::Line;
