//! A checked builder layer for constructing IR functions, blocks and
//! instructions in per-session arenas.
//!
//! Handles carry lifetime brands: a session and each function-edit scope
//! receive a fresh brand, so a handle cannot leave its scope or be handed to
//! another session. Behind the brands every handle is an index into the
//! session's arenas, and every operation re-checks the indices it is given.

mod types;
mod sig;
mod view;
mod arena;
mod module;
mod emit;
mod laws;

pub use types::{Arch, BinOp, BuildError, CallConv, Const, FuncParam, InstKind, InvariantOn, SymbolBinding, System, Ty, MAX_LEN};
pub use sig::{FuncSig, SigView};
pub use view::{BlockView, FuncView, InstView, ModuleView, SymbolView};
pub use module::{ids, Block, Func, FuncRef, InstRef, Module, Symbol};
pub use emit::{is_white_space, join_trimmed, joined, texts, trim_end, trim_start, trimmed};
pub use laws::{lemma_build_steps_grow, lemma_built_function_params};
