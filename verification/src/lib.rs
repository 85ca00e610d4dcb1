//! A digital signage player: the rules that turn schedules into what is on screen.

pub mod cache;
pub mod clock;
pub mod cms;
pub mod config;
pub mod digest;
pub mod engine;
pub mod panel;
pub mod render;
pub mod sample;
pub mod settings;
pub mod sort;
pub mod startup;
pub mod text;
pub mod timeline;
pub mod timing_log;
pub mod tracking;
