//! slate: in-process server-side rendering.
//!
//! A page is a JavaScript bundle that defines `__render(request)`. It runs inside
//! the server's own process, in an embedded engine, and what it fetches from
//! relative paths is answered by the server's own router.
//!
//! This crate holds the decisions: what a page may fetch and what it gets, which
//! pages are cached and which make room for others, what is sent back for a
//! request, how static files are found, how a worker lives, and the classes that
//! a page finds in its global scope. It does no input or output of its own.

pub mod actix_integration;
pub mod axum_integration;
pub mod cache;
pub mod dispatch;
pub mod engine;
pub mod fetch_result;
pub mod fetcher;
pub mod handler_common;
pub mod header_map;
pub mod hex;
pub mod json;
pub mod pairs;
pub mod polyfills;
pub mod salvo_integration;
pub mod static_files;
pub mod text;
pub mod url_parts;
pub mod worker;

pub use axum_integration::AxumDispatcher;
pub use cache::{is_cacheable, CachedEntry, SsrCache};
pub use engine::{SsrRequest, SsrResponse};
pub use fetch_result::DispatchResult;
pub use handler_common::{IncomingRequest, RenderOutcome, SsrConfig, SsrHandlerCore};
pub use salvo_integration::{InternalDispatchMarker, SalvoDispatcher};
pub use static_files::{lookup_static_asset, StaticAsset};
