//! Publishing packages to a registry, with the decisions proved.
//!
//! A publish run prepares the packages of a workspace, orders them by their
//! dependencies, mints an authorization for each, uploads them as the order
//! allows, and has the registry's record of each upload checked against
//! what was sent before a provenance attestation is attached.
//!
//! This crate holds the rules of that run: what is valid, what is sent,
//! and what follows from each answer. It performs no input or output; a
//! driver sends the requests and reports back what came of them.

pub mod auth;
pub mod cycle;
pub mod encoding;
pub mod ensure;
pub mod json;
pub mod manifest;
pub mod package;
pub mod prepare;
pub mod provenance;
pub mod publish_order;
pub mod publisher;
pub mod text;
pub mod upload;
