//! Tracing for recursive-descent parsers.
//!
//! A parser that is to be traced is wrapped: `forward_trace` when it is
//! entered, its body, `backward_trace` when it is left. Both record the call
//! in a `TracableStorage` and return the text to show. The state that the
//! parsers hand on carries the configuration, a `TracableInfo`.

pub mod byte_span;
pub mod calls;
pub mod frames;
pub mod histogram;
pub mod info;
pub mod laws;
pub mod names;
pub mod span;
pub mod storage;
pub mod table;
pub mod text;
pub mod trace;

pub use histogram::{cumulative_histogram, histogram, show_histogram};
pub use info::{HasTracableInfo, TracableInfo};
pub use storage::TracableStorage;
pub use table::CountTable;
pub use trace::{
    backward_trace, can_backward_trace, can_forward_trace, custom_trace, forward_trace,
    FragmentDisplay, Tracable,
};
