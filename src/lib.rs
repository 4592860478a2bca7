//! Merkle trees over the pages of a document: leaf hashing, bottom-up tree
//! construction, inclusion proofs and their independent verification.

pub mod hasher;
pub mod tree;
pub mod inclusion;
pub mod laws;
pub mod service;
pub mod pages;
