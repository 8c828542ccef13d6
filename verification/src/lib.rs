//! The verified core of the SpeakLab server: what it accepts, what it answers
//! and what it tells the browser and the database to do.

pub mod asr;
pub mod binary64;
pub mod cloud;
pub mod config;
pub mod domain;
pub mod error;
pub mod headers;
pub mod json;
pub mod mean;
pub mod routes;
pub mod sql;
pub mod state;
pub mod store;
pub mod text;
