//! Board topology of a round-table chess variant for any number of players:
//! how squares are addressed, how a piece walks across half-boards and
//! territories, and the initial placement of the pieces.

pub mod board;
pub mod location;
pub mod navigation;
