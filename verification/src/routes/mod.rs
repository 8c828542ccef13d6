//! What the server answers to each request.

pub mod cloud;
pub mod health;
pub mod practices;
pub mod token;

pub use crate::routes::token::bearer_token;
