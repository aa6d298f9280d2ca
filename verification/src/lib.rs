//! The verified core of a small command-line client for the Chatwork chat service.
pub mod api;
pub mod chat_url;
pub mod cli_args;
pub mod download;
pub mod i18n;
pub mod message;
pub mod normalize_laws;
pub mod output;
pub mod paths;
pub mod shell_completion;
pub mod strmap;
pub mod template;
pub mod text;
pub mod usage;
