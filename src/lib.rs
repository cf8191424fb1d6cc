//! An assembler for a 16-bit instruction set in the style of CHIP-8.
//!
//! Each source line holds at most one instruction: a name and typed
//! operands, with `;` starting a comment. [`parser::parse`] turns a source
//! text into one 16-bit word per instruction, in line order, or reports the
//! first error with its line number; [`instruction_generator::generate_instruction`]
//! encodes one instruction; [`parser::to_bytes`] lays the words out big-endian.

pub mod instruction_generator;
pub mod lexer;
pub mod parser;
