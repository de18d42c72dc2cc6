//! Backend-neutral selection of a memory strategy for a generation request.
//!
//! Providers declare which rungs of a residency ladder they implement. Evidence states the peak that
//! a request cell was measured or estimated to need. The selector grades that evidence against the
//! live budget and picks a rung in the ladder's own order.
//!
//! Evidence measured under another compile closure than the live one stays admissible, with its peak
//! widened by the backend's stale-measured margin. A synthesized estimate covers a rung that nobody
//! measured, widened by the backend's estimate margin. A current measurement takes precedence over a
//! stale one, and any measurement over an estimate.

pub mod admission_laws;
pub mod binary64;
pub mod budget;
pub mod evidence;
pub mod json;
pub mod ladder;
pub mod laws;
pub mod lifecycle;
pub mod margin;
pub mod preference;
pub mod provider;
pub mod selection_laws;
pub mod selector;
pub mod text;
pub mod verdict;
