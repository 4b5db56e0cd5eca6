//! Scroll-driven discovery of image resources on an infinite-scroll page:
//! link normalisation, a deduplicating ledger, the scroll/stop state machine,
//! progress sampling, and the naming of targets and output files.
pub mod engine;
pub mod ledger;
pub mod normalize;
pub mod target;
pub mod telemetry;
