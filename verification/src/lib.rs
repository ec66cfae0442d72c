pub mod text;
pub mod strmap;
pub mod casing;
pub mod render;
pub mod path;
pub mod template;
pub mod command;
pub mod js_config;
pub mod bundler;
pub mod rust_build;
pub mod stats;
pub mod package;
pub mod config;
pub mod flow;
pub mod watch;
