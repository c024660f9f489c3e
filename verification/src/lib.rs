//! Userspace memory-pressure guardian: observes host memory pressure,
//! classifies its severity, selects victim processes by a composite badness
//! score, and plans graded remedial actions.
//!
//! This crate holds the verified core: the counter and pressure-stall
//! parsers, the control-group resolver, the victim scorer, the pressure
//! classifier, the memory reserve, the action rate limiter, the
//! configuration store, and the supervisor's decision logic. All
//! percentages and scores are fixed-point integers: a percentage is kept in
//! hundredths of a percent (10% = 1000) and a badness score in hundredths
//! of a point.

pub mod cgroups;
pub mod config;
pub mod mem;
pub mod policy;
pub mod procinfo;
pub mod psi;
pub mod ratelimit;
pub mod reserve;
pub mod roundtrip;
pub mod supervisor;
pub mod text;
