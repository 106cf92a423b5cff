//! One module per wire format.
//!
//! TCM replays are not among them: no encoder for that format is a dependency
//! of this crate.

pub mod echo;
pub mod echo_bin;
pub mod fembot;
pub mod gdr;
pub mod kdbot;
pub mod mhr;
pub mod mhr_binary;
pub mod omegabot;
pub mod plain_text;
pub mod replaybot;
pub mod rush;
pub mod silicate;
pub mod slc2;
pub mod tasbot;
pub mod url;
pub mod xbot;
pub mod xdbot;
pub mod ybot1;
pub mod ybot2;
pub mod zbot;
