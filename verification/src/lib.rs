//! The logic of a terminal music player and its server.
#![allow(unused_imports)]

pub mod app;
pub mod cache;
pub mod cli;
pub mod config;
pub mod cover;
pub mod feed;
pub mod library;
pub mod media;
pub mod memo;
pub mod net;
pub mod order;
pub mod paths;
pub mod queue;
pub mod ratings;
pub mod remote;
pub mod server;
pub mod text;
pub mod time;
pub mod ui;
pub mod worker;
