//! Verified core of a project-and-membership manager.
//!
//! Projects (named workspaces) and their members are kept in two systems at
//! once: a relational store, the source of truth for identity and permissions,
//! and a remote room service that mirrors each project's membership as room
//! invitations.  This crate holds the parts with real invariants: the identity
//! model, the permission resolver, models of the two collaborators, and the
//! mutation orchestrator that keeps them consistent.  The network shell that
//! drives real adapters lives outside the library.

pub mod actions;
pub mod identity;
pub mod ldap;
pub mod permission;
pub mod person;
pub mod project;
pub mod room;
pub mod store;
pub mod strutil;
pub mod user_permission;
