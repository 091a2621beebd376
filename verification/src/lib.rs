//! Guild-scoped daily-attendance and scoring engine.
//!
//! Members of a guild check in once per rolling day window, earn points
//! based on their rank among same-day check-ins and their consecutive-day
//! streak, and can query their own or others' standing.  The engine
//! guarantees exactly one successful check-in per member per day window,
//! deterministic day-boundary computation, and monotonic point
//! accumulation.

pub mod engine;
pub mod errors;
pub mod laws;
pub mod member;
pub mod scoring;
pub mod window;
