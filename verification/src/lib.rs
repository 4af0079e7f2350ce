//! Rendering of metrics snapshots into the OpenMetrics text exposition
//! format, together with a double-buffered holder for the rendered text.

pub mod attrs;
pub mod convert;
pub mod escape;
pub mod exporter;
pub mod format;
pub mod model;
pub mod sanitize;
pub mod sort;
pub mod text;
pub mod unit;

use vstd::prelude::*;

verus! {

/// The mime type of the text produced by this metrics formatter.
pub const MIME_TYPE: &'static str = "application/openmetrics-text; version=1.0.0; charset=utf-8";

} // verus!
