pub mod args;
pub mod chars;
pub mod cmd;
pub mod error;
pub mod export;
pub mod files;
pub mod globs;
pub mod sprite;
pub mod strings;
pub mod xml_lex;
pub mod xml_model;
pub mod xmls;
pub mod xmls_stream;
