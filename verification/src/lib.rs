//! The verified core of a cluster-autoscaling controller: it watches for
//! workloads that cannot be placed on existing capacity and decides which
//! new compute nodes to provision, sized and priced to accept them.
//!
//! - `offering`: the domain model and resource-quantity parsing.
//! - `optimiser`: the ILP placement formulation and solution handling.
//! - `controller`: the reconcile engine's decision logic.
//! - `node_request`: the NodeRequest custom resource's value types.
//! - `provider`, `fake`, `kwok`: the provider contract, the deterministic
//!   in-memory provider, and the development catalogue.
//! - `text`: verified helpers on strings and decimal numerals.

pub mod controller;
pub mod fake;
pub mod kwok;
pub mod node_request;
pub mod offering;
pub mod optimiser;
pub mod provider;
pub mod text;
