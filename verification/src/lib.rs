use vstd::prelude::*;

pub mod color;
pub mod recorder;
pub mod binary_format;
pub mod json_format;
pub mod svg;
pub mod easing;
pub mod easing_parse;
pub mod timeline_at;
pub mod hex_color;
pub mod gpu;
pub mod gesture;
pub mod decompose;
pub mod css;
pub mod script_api;
pub mod keyed_list;

verus! {
} // verus!
