pub mod calendar;
pub mod classes;
pub mod config;
pub mod emacs;
pub mod models;
pub mod parser;
pub mod roam;
pub mod server;
pub mod text;
pub mod tools;
