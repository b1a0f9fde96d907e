//! Player counts of fighting games on Steam: the rules that pick, order and
//! present the games, verified with Verus. Network, disk and terminal output
//! are done by the surrounding program.

pub mod text;
pub mod steamspy;
pub mod select;
pub mod steam;
pub mod games;
pub mod display;
