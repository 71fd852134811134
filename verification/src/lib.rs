//! Survey tables, their checks, project files and the model inputs of a
//! beeswarm-plot builder.
pub mod text;
pub mod sorting;
pub mod table;
pub mod checks;
pub mod storage;
pub mod appdata;
pub mod config;
pub mod ml;
pub mod savefile;
pub mod configuration;
pub mod labels;
pub mod setup;
