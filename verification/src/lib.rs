//! The decisions behind a command-line downloader for Internet Archive items.

pub mod credentials;
pub mod encoding;
pub mod encoding_laws;
pub mod error;
pub mod plan;
pub mod report;
pub mod settings;
pub mod text;
pub mod url_syntax;
pub mod urls;
pub mod workflow;
pub mod xauthn;
