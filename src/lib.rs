//! Term representation, definition registry and substitution for an
//! interaction-net compiler's intermediate language.

pub mod book;
pub mod ident;
pub mod registry;
pub mod render;
pub mod term;

pub use book::{Adt, Book, Definition, Rule, RulePat};
pub use ident::{var_id_to_name, DefId, Name};
pub use registry::DefNames;
pub use term::{LetPat, Op, Term};
