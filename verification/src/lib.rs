//! Verified core of the AlphaTak bot: the pieces and stacks of a Tak
//! board and the network's encodings of a position, the PTN and TPS
//! readers, the training-example line format, the analysis writer, the
//! TEI and interactive-session commands, the bot's move choice, the
//! worker schedule of self-play, and pit bookkeeping.

pub mod analysis;
pub mod bot;
pub mod clock;
pub mod colour;
pub mod encoding;
pub mod example;
pub mod notation;
pub mod pattern;
pub mod pit;
pub mod ptn;
pub mod repr;
pub mod schedule;
pub mod search;
pub mod session;
pub mod text;
pub mod tei;
pub mod tile;
