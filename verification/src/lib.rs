//! An event/effect reactor for a blockchain node, with the account key
//! generation rules of its command-line client.

pub mod components;
pub mod effect;
pub mod encoding;
pub mod event;
pub mod executor;
pub mod keygen;
pub mod reactor;
pub mod replay;
pub mod routing;
