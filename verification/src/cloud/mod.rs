//! Cloud game streaming: a browser that nobody sees renders the game, its frames
//! go to the page, and what the player does there comes back as input.

pub mod browser;
pub mod cdp;
pub mod commands;
pub mod pixel;
pub mod service;
pub mod session;
pub mod start;
pub mod stream;
pub mod target;

pub use crate::cloud::service::CloudService;
pub use crate::cloud::target::{find_target, Target};
