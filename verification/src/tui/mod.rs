pub mod app;
pub mod config;
pub mod screens;
