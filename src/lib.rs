//! Creation, inspection and verification of BitTorrent v1 metainfo files.
//!
//! The library holds the canonical bencode codec, the metainfo model, the
//! piece hasher and the verifier. File system access, argument parsing and
//! terminal output live in the application around it.
use vstd::prelude::*;

pub mod bencode;
pub mod hasher;
pub mod md5_digest;
pub mod error;
pub mod verify;
pub mod piece_length;
pub mod keys;
pub mod metainfo;
pub mod env;
pub mod create;
pub mod bytes;
pub mod report;

verus! {

} // verus!
