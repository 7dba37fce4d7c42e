//! Maven artifact coordinates: parsing, formatting and the file names, repository paths and
//! URLs derived from them.

mod coordinates;
pub mod laws;
pub mod model;
mod text;

pub use coordinates::{opt_view, parsed_as, Coordinates, ParseError};
pub use model::CoordinatesView;
