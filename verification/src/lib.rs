pub mod cell;
pub mod rules;
pub mod universe;

pub use cell::Cell;
pub use universe::Universe;
