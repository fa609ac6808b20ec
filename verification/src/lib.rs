//! An interactive brute-force prover for propositions over 32-bit signed
//! integer arithmetic.
//!
//! A user defines integer-valued functions of a single variable and poses a
//! query expression; the system decides whether the query holds for every
//! 32-bit integer assignment by exhaustive evaluation.  Two backends evaluate
//! queries: a compiler that lowers an expression tree to code for a small
//! register machine modelled on one 64-bit desktop instruction set, and a
//! tree-walking interpreter that serves as the reference semantics.  The
//! compiler is proved to agree with the interpreter on every input, the
//! register allocator is proved to hand out registers exactly as its pools
//! allow, and the code repository that owns compiled artifacts is proved to
//! keep every superseded artifact alive in its graveyard.

pub mod ast;
pub mod code_repository;
pub mod compiled_executor;
pub mod compiler;
pub mod interpreted_executor;
pub mod machine;
pub mod parser;
pub mod runtime;
pub mod semantics;
pub mod table;
