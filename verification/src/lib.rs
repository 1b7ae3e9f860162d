pub mod capabilities;
pub mod clock;
pub mod commands;
pub mod config;
pub mod descriptor;
pub mod document;
pub mod json;
pub mod links;
pub mod management;
pub mod message;
pub mod model;
pub mod pairs;
pub mod reconnects;
pub mod round;
pub mod samples;
pub mod schedule;
pub mod session;
pub mod text;
pub mod toml;
