//! Tabletop-RPG dice expressions (`4d6kh3`, `3d6rr<3`, `2d6mi3ma5`,
//! annotated rolls like `4d6 [fire damage]`).
//!
//! The library holds the lexer, the expression tree and its builder, the
//! result tree, and the steps of an evaluation that decide without
//! arithmetic: the roll budget, which dice a selector picks, the steps of
//! each operation on a pool of dice, and keeping, dropping and clamping
//! dice.
pub mod ast;
pub mod builder;
pub mod error;
pub mod eval;
pub mod lexer;
pub mod number;
pub mod pool;
pub mod text;
pub mod token;

pub use crate::ast::{Annotation, Node};
pub use crate::builder as build;
pub use crate::error::RollatoriumError;
pub use crate::eval::{
    DiceRoll, DieAdjustment, DieOrigin, DieResult, EvalConfig, EvalResult, SetElement, SetRoll,
    Value,
};
pub use crate::number::Number;
