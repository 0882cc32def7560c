//! Detection of third-party libraries embedded in compiled Android
//! application packages.
//!
//! The crate decodes a method's bytecode into typed instructions,
//! extracts the ordered list of invoked methods, aggregates per-class
//! API usage into content fingerprints organized as a package tree,
//! and matches those fingerprints against a signature database.

use vstd::prelude::*;

pub mod analysis;
pub mod callgraph;
pub mod db;
pub mod digest;
pub mod disass;
pub mod getters;
pub mod memdb;
pub mod opcodes;
pub mod pkgtree;
pub mod textfmt;

verus! {

/// An analysis run's shared state: the signature database and the
/// configured thresholds.
pub struct Context {
    /// The signature database.
    pub db: memdb::MemDB,
    /// The detection thresholds.
    pub thresholds: db::Thresholds,
}

impl Context {
    /// A fresh context: an empty database and the default
    /// thresholds.
    pub fn new() -> (c: Context)
        ensures
            c.db.pkgs() == Map::<(Seq<u8>, Seq<char>), int>::empty(),
            c.db.libs() == Set::<(Seq<u8>, Seq<char>)>::empty(),
            c.db.weights() == Map::<Seq<u8>, int>::empty(),
            c.thresholds.lib_match_rate == (db::MatchRate { num: 7, den: 10 }),
            c.thresholds.min_api_weight == 10u64,
            c.thresholds.min_lib_count == 10u64,
            c.thresholds.pkg_name_blacklist@.len() == 0,
    {
        Context {
            db: memdb::MemDB::init(Vec::new(), Vec::new()),
            thresholds: db::Thresholds {
                lib_match_rate: db::MatchRate { num: 7, den: 10 },
                min_api_weight: 10,
                min_lib_count: 10,
                pkg_name_blacklist: Vec::new(),
            },
        }
    }
}

} // verus!
