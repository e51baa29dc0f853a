pub mod config;
pub mod consumer;
pub mod limiter;
pub mod operator;
pub mod pattern;
pub mod pipeline;
pub mod state;
pub mod strutil;
pub mod tier;
