//! Serialising maps to JavaScript assignment statements that can be embedded
//! literally inside an HTML `<script>` element.

pub mod emit;
pub mod escape;
pub mod json;
pub mod layout;
pub mod maps;
pub mod script;
pub mod sink;
pub mod strict;
pub mod value;

pub use maps::MapToJavaScriptHTML;
pub use strict::{hash_map_to_javascript_html, hash_map_to_javascript_html_beautify};
