//! Abstract laminated twisty puzzles: ray systems, pieces, puzzles and
//! the twist history of a solving session.

pub mod basis;
mod random;
pub mod ray;
pub mod cube;
pub mod octa;
pub mod dodeca;
pub mod r_dodeca;
pub mod piece;
pub mod puzzle;
pub mod radix;
pub mod session;
pub mod color;
pub mod key_label;
pub mod preferences;
pub mod laws;
