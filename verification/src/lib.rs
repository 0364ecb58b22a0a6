//! Traffic aggregation: counters of the last seconds, by security policy.
//!
//! A request goes into the counters of its second with [`aggregated::aggregate`]. A document of the
//! last seconds comes out of [`values::aggregated_values`]. The modules build on each other in the
//! order below. [`laws`] says what holds of them together, [`counting_laws`] what each request
//! changes, [`state_laws`] what is kept and reported, [`document_laws`] what stands under each name.

pub mod json;
pub mod key;
pub mod sorted_map;
pub mod ranking;
pub mod top;
pub mod bag;
pub mod number;
pub mod clock;
pub mod settings;
pub mod sketch;
pub mod metric;
pub mod request;
pub mod counters;
pub mod capacity;
pub mod report;
pub mod aggregated;
pub mod values;
pub mod laws;
pub mod counting_laws;
pub mod state_laws;
pub mod document_laws;
