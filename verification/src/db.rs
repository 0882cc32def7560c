//! The signature database's record types and its backend-agnostic
//! interface.

use vstd::prelude::*;

verus! {

/// One package record: a content hash observed under a package
/// name, with the weight of the API list behind the hash.
#[derive(Debug)]
pub struct PkgInfo {
    /// The class's content hash.
    pub hash: Vec<u8>,
    /// The package name the hash was observed under.
    pub name: String,
    /// The API-call count behind the hash.
    pub weight: u64,
}

impl View for PkgInfo {
    type V = (Seq<u8>, Seq<char>, int);

    open spec fn view(&self) -> (Seq<u8>, Seq<char>, int) {
        (self.hash@, self.name@, self.weight as int)
    }
}

impl DeepView for PkgInfo {
    type V = (Seq<u8>, Seq<char>, int);

    open spec fn deep_view(&self) -> (Seq<u8>, Seq<char>, int) {
        self.view()
    }
}

/// One library association: a content hash registered as belonging
/// to a library.
#[derive(Debug)]
pub struct LibInfo {
    /// The content hash.
    pub hash: Vec<u8>,
    /// The library's name.
    pub name: String,
}

impl View for LibInfo {
    type V = (Seq<u8>, Seq<char>);

    open spec fn view(&self) -> (Seq<u8>, Seq<char>) {
        (self.hash@, self.name@)
    }
}

impl DeepView for LibInfo {
    type V = (Seq<u8>, Seq<char>);

    open spec fn deep_view(&self) -> (Seq<u8>, Seq<char>) {
        self.view()
    }
}

/// A similarity ratio, held as an exact rational number.
#[derive(Clone, Copy, PartialEq, Eq, Structural, Debug)]
pub struct MatchRate {
    /// Numerator.
    pub num: u64,
    /// Denominator; zero never arises from the engine.
    pub den: u64,
}

/// One detection result: a class matched against a known library.
#[derive(Debug)]
pub struct PkgResult {
    /// The class's content hash.
    pub hash: Vec<u8>,
    /// The matched class's descriptor.
    pub name: String,
    /// The library the hash or the similarity points at.
    pub lib_name: String,
    /// The similarity score of a fuzzy match; exact matches carry
    /// none.
    pub similarity: Option<MatchRate>,
}

impl View for PkgResult {
    type V = (Seq<u8>, Seq<char>, Seq<char>, Option<MatchRate>);

    open spec fn view(&self) -> (Seq<u8>, Seq<char>, Seq<char>, Option<MatchRate>) {
        (self.hash@, self.name@, self.lib_name@, self.similarity)
    }
}

impl DeepView for PkgResult {
    type V = (Seq<u8>, Seq<char>, Seq<char>, Option<MatchRate>);

    open spec fn deep_view(&self) -> (Seq<u8>, Seq<char>, Seq<char>, Option<MatchRate>) {
        self.view()
    }
}

/// The tunable thresholds of the detection engine.
#[derive(Debug)]
pub struct Thresholds {
    /// Fuzzy similarity cutoff, as an exact rational number.
    pub lib_match_rate: MatchRate,
    /// Minimum APIs a class must invoke to be considered.
    pub min_api_weight: u64,
    /// Minimum occurrence count to trust a signature.
    pub min_lib_count: u64,
    /// Package-name prefixes excluded from consideration.
    pub pkg_name_blacklist: Vec<String>,
}

/// The three line-oriented tables of the database's persisted form.
///
/// One record per line, fields separated by one space: packages as
/// `<hash> <package-name> <count>`, libraries as `<hash>
/// <library-name>`, weights as `<hash> <weight>`, each hash in
/// lower-case hex.
#[derive(Debug)]
pub struct DbDump {
    /// The packages table.
    pub pkgs: String,
    /// The libraries table.
    pub libs: String,
    /// The weights table.
    pub weights: String,
}

/// The capability set of a signature-database backend.
///
/// The backend behind this trait may be an in-memory store or sit on
/// external storage; the contracts of each operation live on the
/// backend's own inherent methods.
pub trait DexDB {
    /// Record each (hash, package) observation once more and update
    /// the hash's weight.
    fn add_pkgs(&mut self, pkgs: Vec<PkgInfo>);

    /// Register library associations.
    fn add_libs(&mut self, libs: Vec<LibInfo>);

    /// Undo (hash, package) observations; absent records stay
    /// absent.
    fn remove_pkgs(&mut self, pkgs: Vec<PkgInfo>);

    /// Every (hash, package) pair observed at least `threshold`
    /// times, with its weight.
    fn get_pkgs(&mut self, threshold: u64) -> Vec<PkgInfo>;

    /// Every library association registered for the given hashes.
    fn match_libs(&mut self, hash_list: Vec<Vec<u8>>) -> Vec<LibInfo>;

    /// Bulk-import records from a persisted dump; malformed lines
    /// are skipped.
    fn load(&mut self, dump: &DbDump);

    /// Backend-specific warm-up hook.
    fn preload(&mut self);

    /// Export all records in the persisted form.
    fn dump(&mut self) -> DbDump;
}

} // verus!
