//! The in-memory signature database: counters, thresholds, and the
//! persisted form's round trip.

use libradar::db::{DbDump, LibInfo, PkgInfo};
use libradar::memdb::MemDB;

#[test]
fn hello_world() {
    assert!(true);
}

fn h(byte: u8) -> Vec<u8> {
    vec![byte; 16]
}

fn pkg(byte: u8, name: &str, weight: u64) -> PkgInfo {
    PkgInfo { hash: h(byte), name: String::from(name), weight }
}

fn lib(byte: u8, name: &str) -> LibInfo {
    LibInfo { hash: h(byte), name: String::from(name) }
}

fn counted_db() -> MemDB {
    // Occurrence counts 2, 5 and 7 for three distinct records.
    let mut db = MemDB::init(Vec::new(), Vec::new());
    for _ in 0..2 {
        db.add_pkgs(&vec![pkg(1, "com.a", 11)]);
    }
    for _ in 0..5 {
        db.add_pkgs(&vec![pkg(2, "com.b", 12)]);
    }
    for _ in 0..7 {
        db.add_pkgs(&vec![pkg(3, "com.c", 13)]);
    }
    db
}

#[test]
fn get_pkgs_honors_the_threshold() {
    let db = counted_db();

    let all = db.get_pkgs(1);
    assert_eq!(all.len(), 3);

    let mid = db.get_pkgs(5);
    assert_eq!(mid.len(), 2);
    let mut names: Vec<&str> = mid.iter().map(|p| p.name.as_str()).collect();
    names.sort();
    assert_eq!(names, vec!["com.b", "com.c"]);
    for p in &mid {
        if p.name == "com.b" {
            assert_eq!(p.hash, h(2));
            assert_eq!(p.weight, 12);
        }
    }

    let none = db.get_pkgs(8);
    assert_eq!(none.len(), 0);
}

#[test]
fn remove_pkgs_never_drops_below_zero() {
    let mut db = MemDB::init(Vec::new(), Vec::new());
    db.add_pkgs(&vec![pkg(1, "com.a", 4)]);
    db.add_pkgs(&vec![pkg(1, "com.a", 4)]);
    db.remove_pkgs(&vec![pkg(1, "com.a", 4)]);
    assert_eq!(db.get_pkgs(1).len(), 1);
    db.remove_pkgs(&vec![pkg(1, "com.a", 4)]);
    assert_eq!(db.get_pkgs(1).len(), 0);
    // Counters stop at zero, and unknown records are ignored.
    db.remove_pkgs(&vec![pkg(1, "com.a", 4)]);
    db.remove_pkgs(&vec![pkg(9, "com.z", 4)]);
    assert_eq!(db.get_pkgs(1).len(), 0);
    assert_eq!(db.get_pkgs(0).len(), 1);
}

#[test]
fn match_libs_returns_registered_names_only() {
    let mut db = MemDB::init(Vec::new(), Vec::new());
    db.add_libs(&vec![lib(1, "okio"), lib(1, "okio3"), lib(2, "gson")]);
    db.add_libs(&vec![lib(1, "okio")]);

    let found = db.match_libs(&vec![h(1)]);
    let mut names: Vec<&str> = found.iter().map(|l| l.name.as_str()).collect();
    names.sort();
    assert_eq!(names, vec!["okio", "okio3"]);

    let nothing = db.match_libs(&vec![h(9)]);
    assert_eq!(nothing.len(), 0);

    let both = db.match_libs(&vec![h(1), h(2)]);
    assert_eq!(both.len(), 3);
}

#[test]
fn test_load_dump() {
    let mut db = MemDB::init(Vec::new(), Vec::new());
    let empty = DbDump {
        pkgs: String::new(),
        libs: String::new(),
        weights: String::new(),
    };
    db.load(&empty);
    let out = db.dump();
    assert_eq!(out.pkgs, "");
    assert_eq!(out.libs, "");
    assert_eq!(out.weights, "");
}

#[test]
fn dump_uses_the_line_oriented_text_form() {
    let mut db = MemDB::init(Vec::new(), Vec::new());
    db.add_pkgs(&vec![PkgInfo {
        hash: vec![0xde, 0xad],
        name: String::from("com.a"),
        weight: 3,
    }]);
    db.add_libs(&vec![LibInfo { hash: vec![0xde, 0xad], name: String::from("okio") }]);
    let out = db.dump();
    assert_eq!(out.pkgs, "dead com.a 1\n");
    assert_eq!(out.libs, "dead okio\n");
    assert_eq!(out.weights, "dead 3\n");
}

#[test]
fn dump_then_load_reproduces_the_records() {
    let mut db = counted_db();
    db.add_libs(&vec![lib(1, "okio"), lib(2, "gson"), lib(2, "gson2")]);
    let out = db.dump();

    let mut fresh = MemDB::init(Vec::new(), Vec::new());
    fresh.load(&out);

    // The same records come back: counters, weights and library
    // names alike, shown by the queries and by a second dump.
    let again = fresh.dump();
    assert_eq!(out.pkgs, again.pkgs);
    assert_eq!(out.libs, again.libs);
    assert_eq!(out.weights, again.weights);

    assert_eq!(fresh.get_pkgs(5).len(), 2);
    assert_eq!(fresh.get_pkgs(8).len(), 0);
    let names: Vec<String> = fresh
        .match_libs(&vec![h(2)])
        .into_iter()
        .map(|l| l.name)
        .collect();
    assert_eq!(names.len(), 2);
    assert!(names.contains(&String::from("gson")));
    assert!(names.contains(&String::from("gson2")));
}

#[test]
fn malformed_lines_are_skipped_not_fatal() {
    let mut db = MemDB::init(Vec::new(), Vec::new());
    let dump = DbDump {
        pkgs: String::from("zz com.a 1\ndead com.a notanumber\ndead com.b 4\nshort\n"),
        libs: String::from("nothex okio\ndead okio\n"),
        weights: String::from("dead 5\ndead toomuch\n"),
    };
    db.load(&dump);
    let pkgs = db.get_pkgs(1);
    assert_eq!(pkgs.len(), 1);
    assert_eq!(pkgs[0].name, "com.b");
    assert_eq!(pkgs[0].hash, vec![0xde, 0xad]);
    assert_eq!(pkgs[0].weight, 5);
    assert_eq!(db.match_libs(&vec![vec![0xde, 0xad]]).len(), 1);
}
