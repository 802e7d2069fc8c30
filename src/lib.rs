//! Reading charts written in the line-oriented BMS format.
//!
//! The text of a chart goes through four stages: each line is lexed into a
//! token, the control-flow tokens are parsed into a tree of random and switch
//! groups, the tree is resolved with a caller-supplied random source into a
//! flat list of commands, and the commands are folded into a chart record.
pub mod channel;
pub mod token;
pub mod tree;
pub mod random;
pub mod parse;
pub mod chart;
pub mod bms;
pub mod lex;
pub mod decimal;
pub mod new_bms;

pub use bms::RawBms;
pub use channel::Channel;
pub use chart::{Bms, ExCharacter, MainData, PlayType};
pub use parse::ParseError;
pub use random::{FixedDraws, SeededRandom};
pub use tree::RandomSource;
