pub mod text;
pub mod headers;
pub mod query;
pub mod uri;
pub mod http_message;
pub mod wire;
pub mod chunked;
pub mod exchange;
pub mod header_list;
pub mod handler;
pub mod router;
pub mod client;
pub mod environment;
pub mod redirect_to_https_handler;
pub mod app;
pub mod site_router;
pub mod codex;
pub mod static_files;
pub mod buffered;
pub mod buffered_message;
pub mod search;
pub mod round_trip;
pub mod home_router;
pub mod not_found_page;
