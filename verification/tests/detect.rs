//! End-to-end detection: a fixed package with a known call sequence
//! against a preloaded signature database.

use libradar::analysis::{
    ClassApis, LibradarExactAnalysis, LibradarFuzzyAnalysis, Signature,
};
use libradar::callgraph::{get_invoked_methods_names, MethodSym, SymbolTables};
use libradar::db::{LibInfo, MatchRate, PkgInfo, Thresholds};
use libradar::memdb::MemDB;
use libradar::pkgtree::{class_fingerprint, get_invoked_apis};

fn tables() -> SymbolTables {
    SymbolTables {
        methods: vec![
            MethodSym { class_idx: 0, name_idx: 0 },
            MethodSym { class_idx: 0, name_idx: 1 },
            MethodSym { class_idx: 1, name_idx: 2 },
        ],
        types: vec![
            String::from("Ljava/util/zip/ZipFile;"),
            String::from("Lcom/example/Own;"),
        ],
        strings: vec![
            String::from("entries"),
            String::from("close"),
            String::from("helper"),
        ],
    }
}

/// One known method body: zip entries, an own helper, zip close.
fn body() -> Vec<u16> {
    vec![
        0x206e, 0x0000, 0x0010, // invoke-virtual method@0
        0x206e, 0x0002, 0x0010, // invoke-virtual method@2 (not an API)
        0x206e, 0x0001, 0x0010, // invoke-virtual method@1
    ]
}

fn api_set() -> Vec<String> {
    vec![
        String::from("Ljava/util/zip/ZipFile;->entries"),
        String::from("Ljava/util/zip/ZipFile;->close"),
    ]
}

fn thresholds(rate_num: u64, rate_den: u64) -> Thresholds {
    Thresholds {
        lib_match_rate: MatchRate { num: rate_num, den: rate_den },
        min_api_weight: 2,
        min_lib_count: 3,
        pkg_name_blacklist: vec![String::from("Lcom/example/")],
    }
}

#[test]
fn exact_detection_finds_the_preloaded_hash() {
    let t = tables();
    let fp = class_fingerprint(
        &String::from("Lokio/Buffer;"),
        &vec![body()],
        &t,
        &api_set(),
    )
    .unwrap();
    assert_eq!(fp.weight, 2);

    let mut db = MemDB::init(api_set(), vec![String::from("okio")]);
    for _ in 0..3 {
        db.add_pkgs(&vec![PkgInfo {
            hash: fp.hash.clone(),
            name: String::from("okio"),
            weight: fp.weight as u64,
        }]);
    }
    db.add_libs(&vec![LibInfo { hash: fp.hash.clone(), name: String::from("okio") }]);

    let engine = LibradarExactAnalysis {};
    let results = engine.analyze_fingerprints(&db, &vec![fp], &thresholds(7, 10));
    assert_eq!(results.len(), 1);
    assert_eq!(results[0].lib_name, "okio");
    assert_eq!(results[0].name, "Lokio/Buffer;");
    assert!(results[0].similarity.is_none());
}

#[test]
fn exact_detection_respects_the_thresholds() {
    let t = tables();
    let fp = class_fingerprint(
        &String::from("Lokio/Buffer;"),
        &vec![body()],
        &t,
        &api_set(),
    )
    .unwrap();

    // Observed only twice: below min_lib_count, no match.
    let mut db = MemDB::init(Vec::new(), Vec::new());
    for _ in 0..2 {
        db.add_pkgs(&vec![PkgInfo {
            hash: fp.hash.clone(),
            name: String::from("okio"),
            weight: fp.weight as u64,
        }]);
    }
    db.add_libs(&vec![LibInfo { hash: fp.hash.clone(), name: String::from("okio") }]);
    let engine = LibradarExactAnalysis {};
    assert_eq!(
        engine.analyze_fingerprints(&db, &vec![fp], &thresholds(7, 10)).len(),
        0
    );
}

#[test]
fn fuzzy_detection_obeys_the_match_rate() {
    let t = tables();
    let names = get_invoked_methods_names(&body(), &t);
    let apis = get_invoked_apis(&names, &api_set());
    assert_eq!(apis.len(), 2);
    let class = ClassApis {
        name: String::from("Lokio/Buffer;"),
        hash: vec![0x11; 16],
        apis: apis.clone(),
    };
    // The candidate shares one of the class's two distinct APIs and
    // brings one of its own: one shared out of three distinct.
    let candidates = vec![Signature {
        name: String::from("okio"),
        apis: vec![
            String::from("Ljava/util/zip/ZipFile;->entries"),
            String::from("Ljava/util/zip/ZipFile;->getEntry"),
        ],
    }];
    let engine = LibradarFuzzyAnalysis {};

    // Cutoff below the true similarity of 1/3: a match, with the
    // exact ratio reported.
    let low = engine.analyze_classes(&vec![class], &candidates, &thresholds(1, 4));
    assert_eq!(low.len(), 1);
    assert_eq!(low[0].lib_name, "okio");
    assert_eq!(low[0].similarity, Some(MatchRate { num: 1, den: 3 }));

    // Cutoff above the true similarity: no match.
    let class2 = ClassApis {
        name: String::from("Lokio/Buffer;"),
        hash: vec![0x11; 16],
        apis,
    };
    let high = engine.analyze_classes(&vec![class2], &candidates, &thresholds(1, 2));
    assert_eq!(high.len(), 0);
}

#[test]
fn fuzzy_detection_skips_blacklisted_packages() {
    let class = ClassApis {
        name: String::from("Lcom/example/Own;"),
        hash: vec![0x22; 16],
        apis: vec![
            String::from("Ljava/util/zip/ZipFile;->entries"),
            String::from("Ljava/util/zip/ZipFile;->close"),
        ],
    };
    let candidates = vec![Signature {
        name: String::from("okio"),
        apis: vec![
            String::from("Ljava/util/zip/ZipFile;->entries"),
            String::from("Ljava/util/zip/ZipFile;->close"),
        ],
    }];
    let engine = LibradarFuzzyAnalysis {};
    let results = engine.analyze_classes(&vec![class], &candidates, &thresholds(1, 2));
    assert_eq!(results.len(), 0);
}

#[test]
fn a_fresh_context_is_empty() {
    let c = libradar::Context::new();
    assert_eq!(c.db.get_pkgs(0).len(), 0);
    assert_eq!(c.thresholds.min_api_weight, 10);
    assert_eq!(c.thresholds.lib_match_rate, MatchRate { num: 7, den: 10 });
}
