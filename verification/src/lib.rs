//! A prize-draw engine for a team-operations service: time-bounded
//! lotteries that may reserve shop stock, select winners fairly from an
//! eligible population, and execute exactly once, whether triggered by an
//! operator or by the recurring scheduler.
//!
//! The engine ([`engine::DrawEngine`]) owns the draw store and the
//! inventory ledger and carries contracts for every operation; the
//! cross-operation guarantees — inventory conservation, no
//! over-reservation, idempotent execution, terminal stability — are proved
//! in [`laws`]. Winner selection ([`selection`]) shuffles the eligible pool
//! with a seeded generator; what is proved of it is everything except which
//! permutation comes out. The remaining modules carry the record and wire
//! types of the surrounding service.

pub mod api;
pub mod auth;
pub mod display;
pub mod draw;
pub mod eligibility;
pub mod engine;
pub mod identity;
pub mod inventory;
pub mod laws;
pub mod metrics;
pub mod models;
pub mod requests;
pub mod scheduler;
pub mod selection;
