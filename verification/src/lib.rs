//! A scheduler for simulations on a shared cluster: it predicts what a simulation will cost,
//! lets it run where the cluster can take it, and learns from what it has cost.

pub mod admission;
pub mod analysis;
pub mod courses;
pub mod events;
pub mod exact;
pub mod finish;
pub mod github;
pub mod laws;
pub mod model;
pub mod nearness;
pub mod order;
pub mod outcomes;
pub mod outside;
pub mod pages;
pub mod precision;
pub mod pricing;
pub mod queue;
pub mod registry;
pub mod requests;
pub mod rounding;
pub mod script;
pub mod single;
pub mod state;
pub mod task;
pub mod text;
