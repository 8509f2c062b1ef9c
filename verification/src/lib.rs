//! Verified core of `terraform-forge`, a command line tool that drafts,
//! checks and generates Terraform provider code from an OpenAPI spec.
//!
//! Each command's decisions and reports live here with their contracts:
//! [`diff`] compares two API specs, [`drift`] compares the resources an API
//! offers with those that resource specs define, [`scaffold`] drafts resource
//! specs, [`validate`] checks them, and [`generate`] runs code generation.
//! Reading and writing files is left to the caller.

pub mod crud;
pub mod diff;
pub mod drift;
pub mod generate;
pub mod listing;
pub mod openapi;
pub mod order;
pub mod paths;
pub mod scaffold;
pub mod terraform;
pub mod text;
pub mod validate;
