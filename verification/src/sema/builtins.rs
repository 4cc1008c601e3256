//! Built-in generic enums, written in the language itself and merged into
//! every compiled program ahead of the user's items.

use vstd::prelude::*;

verus! {

/// Source of the built-in declarations: `Option<T>` and `Result<T, E>`.
pub const BUILTINS_SOURCE: &'static str = "enum Option<T>\n  Some(T)\n  None\nend\n\nenum Result<T, E>\n  Ok(T)\n  Err(E)\nend\n";

} // verus!
