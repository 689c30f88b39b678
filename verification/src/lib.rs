//! Semantic analyzer for a declarative UTXO spending-condition language.
//!
//! A script declares one input stack per spending path (branch) and a
//! statement tree whose `if`/`else` constructs select among those paths.
//! The analyzer builds a symbol table per branch, enforces that every
//! stack-bound variable is consumed exactly once, validates the shape of
//! control flow, and checks the consensus limits of the chosen target
//! dialect.
//!
//! `ast` holds the tree and the declarations; `source` the diagnostics
//! and the line index; `analyze` the passes themselves; `compile` the
//! opcode cost table the consensus pass prices against; `semantics` the
//! mathematical model every pass is verified against; and `laws` the
//! analyzer-wide guarantees, proved once and for all.

pub mod analyze;
pub mod ast;
pub mod compile;
pub mod laws;
pub mod semantics;
pub mod source;
