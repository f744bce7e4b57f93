//! Witness generation for the committed polynomials of a zkVM prover, and the
//! text that describes its lookup instructions and subtables.
pub mod codegen;
pub mod cycle;
pub mod enum_decl;
/// Lean text of the lookup instructions; their multilinear extensions come in
/// as text, one per instruction.
pub mod instruction;
pub mod lexer;
pub mod math;
pub mod text;
pub mod witness;
