pub mod assoc;
pub mod auth;
pub mod cache;
pub mod client;
pub mod json;
pub mod request;
pub mod response;
pub mod retry;
pub mod schema;
pub mod session;
pub mod sse;
pub mod stream;
pub mod stream_session;
pub mod text;
pub mod tool_ids;
pub mod types;
