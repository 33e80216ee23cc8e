//! Management of a local collection of game mods: discovery of mod folders,
//! a relational store of mods, profiles and memberships, and the projection of
//! each profile onto a directory of links.

pub mod config;
pub mod consistency;
pub mod link_manager;
pub mod mods_manager;
pub mod paths;
pub mod total_manager;
