//! Persistence and consistency core of a library of projects, each a folder of
//! asset files mirrored by rows of a relational store.

pub mod text;
pub mod naming;
pub mod cursor;
pub mod keyset;
pub mod models;
mod ids;
pub mod import;
pub mod tags;
pub mod deletion;
pub mod listing;
pub mod bundle;
pub mod requests;
