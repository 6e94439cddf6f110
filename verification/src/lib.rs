//! Feather's compression engine: settings, media classification, output naming,
//! encoder argument planning and job bookkeeping, with their contracts.
pub mod cli;
pub mod gif;
pub mod image_enc;
pub mod install;
pub mod jobs;
pub mod output;
pub mod path;
pub mod pdf;
pub mod probe;
pub mod progress;
pub mod run;
pub mod settings;
pub mod text;
pub mod thumb;
pub mod tools;
pub mod video;
pub mod watch;
