//! Tagged-template text building: interleave literal segments with
//! substitution values, then render the result to a single string.

pub mod decimal;
pub mod fibonacci;
pub mod text;
pub mod value;
pub mod render;
pub mod template;

pub use decimal::Decimal;
pub use fibonacci::fibonacci;
pub use render::render;
pub use template::{html, Template};
pub use value::Value;
