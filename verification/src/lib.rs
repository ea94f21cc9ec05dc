//! Display and parse values of structs and enums by format strings and regular
//! expressions attached to them as attributes.
pub mod util;
pub mod format;
pub mod chars;
pub mod style;
pub mod format_spec;
pub mod num;
pub mod field_key;
pub mod value;
pub mod error;
pub mod render;
pub mod def;
pub mod attrs;
pub mod display;
pub mod regex_api;
pub mod from_str;
pub mod formats;
pub mod laws;
pub mod render_laws;
pub mod style_laws;
