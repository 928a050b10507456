pub mod text;
pub mod commands;
pub mod name_map;
pub mod models;
pub mod panels;
pub mod output;
pub mod paths;
pub mod reader;
pub mod version;
pub mod semantic;
pub mod fingerprint;
pub mod scene;
pub mod extract;
pub mod mtext;
pub mod style;
pub mod blocks;
pub mod viewer;
pub mod batch;
pub mod walk;
