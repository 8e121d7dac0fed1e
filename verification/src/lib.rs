//! Fetching web pages as Markdown through the jina.ai Reader: the request
//! URLs, the validation of user input, the classification of failures and the
//! retry policy, each with a machine-checked contract.

pub mod text;
pub mod error;
pub mod utils;
pub mod config;
pub mod http;
pub mod commands;
