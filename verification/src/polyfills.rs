//! The classes and functions that a page finds in its global scope.

pub mod base64;
pub mod console;
pub mod crypto;
pub mod headers;
pub mod js_value;
pub mod search_params;
pub mod text_codec;
pub mod urlencoded;
pub mod web_url;
