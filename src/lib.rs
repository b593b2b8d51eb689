pub mod config;
pub mod lines;
pub mod number;
pub mod render;
pub mod run;

pub use config::Config;
pub use run::run;
pub mod laws;
