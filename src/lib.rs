//! Orchestration engine for setting up a development workstation: installer
//! registry with dependency-aware ordering, a shared privilege-elevation
//! session, subprocess result handling and the per-installer lifecycle.

pub mod config;
pub mod installers;
pub mod orchestrator;
pub mod registry;
pub mod resolve;
pub mod security;
pub mod system;
