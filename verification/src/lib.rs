//! A grocery and recipe catalog with two interchangeable storage backends.
//!
//! The catalog holds items, recipes, sections, a shopping list and a
//! checklist.  A store offers the same operations over either a
//! document-oriented backend or a relational backend, and the migration
//! engine carries a document store's contents into a relational store while
//! preserving the relational invariants.  Every operation is specified
//! against the name-level model in [`view`].

pub mod api;
pub mod document;
pub mod laws;
pub mod migrate;
pub mod relational;
pub mod shopping;
pub mod store;
pub mod view;
