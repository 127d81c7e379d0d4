//! A verified Tetris board simulation and its peer synchronization protocol.
//!
//! The library covers the piece catalog, the bag randomizer, the board with
//! its collision queries and line clearing, the falling-piece controller, and
//! the length-prefixed binary message channel that keeps two players' boards
//! consistent over a stream socket.  Rendering and socket I/O are left to the
//! caller.

pub mod bag;
pub mod board;
pub mod channel;
pub mod message;
pub mod movement;
pub mod piece;
pub mod sync;
