use vstd::prelude::*;

pub mod ast;
pub mod emit;
pub mod error;
pub mod grammar;
pub mod name;
mod parser;
pub mod path;
pub mod ruby;
pub mod template;
pub mod text;

pub use ast::{Block, Statement};
pub use error::ParseError;
pub use name::Name;
pub use path::Path;
pub use template::Template;

verus! {

} // verus!
