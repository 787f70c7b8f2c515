//! A small web engine: an arena DOM, HTML serialization and querying,
//! page-content extraction and the browser's navigation decisions.

pub mod text;
pub mod dom;
pub mod error;
pub mod urls;
pub mod browser;
pub mod bitfox;
pub mod tui;
pub mod js;
pub mod network;
pub mod engine_bridge;
pub mod http;
pub mod vulturine;
pub mod mcp;
pub mod cdp;
