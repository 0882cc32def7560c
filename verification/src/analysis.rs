//! The detection engine: the two strategies that decide whether a
//! class fingerprint corresponds to a known library.
//!
//! Exact matching looks a class's content hash up directly and
//! reports registered libraries whose occurrence statistics meet the
//! thresholds.  Fuzzy matching scores a class's API set against
//! candidate signatures by the ratio of the distinct APIs shared to
//! the distinct APIs of either, and reports candidates whose score
//! reaches the configured cutoff.  A candidate whose weight lies
//! outside the tolerance band the cutoff implies can never reach the
//! score, so the engine tests the cutoff directly.

use vstd::prelude::*;
use vstd::slice::slice_to_vec;

use crate::db::{MatchRate, PkgInfo, PkgResult, Thresholds};
use crate::memdb::MemDB;
use crate::pkgtree::{contains_string, ClassFingerprint};

verus! {

/// The available analysis strategies.
#[derive(Clone, Copy, PartialEq, Eq, Structural, Debug)]
pub enum AvailableAnalysis {
    /// Exact matching by content hash.
    LibradarExact,
    /// Fuzzy matching by API-set similarity.
    LibradarFuzzy,
}

/// The exact-matching strategy.
pub struct LibradarExactAnalysis {}

/// The fuzzy-matching strategy.
pub struct LibradarFuzzyAnalysis {}

/// One class offered to the fuzzy strategy: its descriptor, its
/// content hash, and its ordered API-call list.
#[derive(Debug)]
pub struct ClassApis {
    /// The class's type descriptor.
    pub name: String,
    /// The class's content hash.
    pub hash: Vec<u8>,
    /// The class's filtered API-call list.
    pub apis: Vec<String>,
}

/// One stored signature offered to the fuzzy strategy: a library
/// name and the API list its hash was built from.
#[derive(Debug)]
pub struct Signature {
    /// The library's name.
    pub name: String,
    /// The signature's API list.
    pub apis: Vec<String>,
}

/// Whether `p` is a prefix of `s`.
pub open spec fn spec_is_prefix(p: Seq<char>, s: Seq<char>) -> bool {
    p.len() <= s.len() && s.take(p.len() as int) == p
}

/// Whether a package name falls under one of the blacklisted
/// prefixes.
pub open spec fn spec_blacklisted(name: Seq<char>, bl: Seq<Seq<char>>) -> bool {
    exists|i: int| 0 <= i < bl.len() && spec_is_prefix(#[trigger] bl[i], name)
}

/// An exact hit: the class invokes enough APIs, and its hash was
/// observed under some package often enough to be trusted.
pub open spec fn spec_exact_hit(
    pkgs: Map<(Seq<u8>, Seq<char>), int>,
    hash: Seq<u8>,
    weight: int,
    min_api_weight: int,
    min_lib_count: int,
) -> bool {
    weight >= min_api_weight && exists|pn: Seq<char>|
        pkgs.contains_key((hash, pn)) && pkgs[(hash, pn)] >= min_lib_count
}

/// The list with later duplicates dropped.
pub open spec fn spec_dedup(s: Seq<Seq<char>>) -> Seq<Seq<char>>
    decreases s.len(),
{
    if s.len() == 0 {
        Seq::empty()
    } else {
        let d = spec_dedup(s.drop_last());
        if d.contains(s.last()) {
            d
        } else {
            d.push(s.last())
        }
    }
}

/// How many entries of `a` occur in `b`.
pub open spec fn spec_count_in(a: Seq<Seq<char>>, b: Seq<Seq<char>>) -> int
    decreases a.len(),
{
    if a.len() == 0 {
        0int
    } else {
        spec_count_in(a.drop_last(), b) + if b.contains(a.last()) {
            1int
        } else {
            0int
        }
    }
}

/// The number of distinct APIs the two lists share.
pub open spec fn spec_inter(a: Seq<Seq<char>>, b: Seq<Seq<char>>) -> int {
    spec_count_in(spec_dedup(a), b)
}

/// The number of distinct APIs of either list.
pub open spec fn spec_union_count(a: Seq<Seq<char>>, b: Seq<Seq<char>>) -> int {
    spec_dedup(a).len() + spec_dedup(b).len() - spec_inter(a, b)
}

/// A set size as the engine holds it: saturated at the machine
/// limit, which no real input approaches.
pub open spec fn spec_cap64(x: int) -> int {
    if x > u64::MAX {
        u64::MAX as int
    } else {
        x
    }
}

/// The similarity score of two API lists, as an exact ratio.
pub open spec fn spec_similarity(a: Seq<Seq<char>>, b: Seq<Seq<char>>) -> MatchRate {
    MatchRate {
        num: spec_cap64(spec_inter(a, b)) as u64,
        den: spec_cap64(spec_union_count(a, b)) as u64,
    }
}

/// A fuzzy match: the shared share of the two API sets reaches the
/// cutoff.  Two empty sets share nothing.
pub open spec fn spec_fuzzy_match(
    a: Seq<Seq<char>>,
    b: Seq<Seq<char>>,
    rate: MatchRate,
) -> bool {
    spec_union_count(a, b) > 0 && spec_cap64(spec_inter(a, b)) * rate.den >= rate.num * spec_cap64(
        spec_union_count(a, b),
    )
}

/// Whether `p` is a prefix of `s`.
fn str_is_prefix(p: &str, s: &str) -> (r: bool)
    ensures
        r == spec_is_prefix(p@, s@),
{
    let n = p.unicode_len();
    let m = s.unicode_len();
    if n > m {
        return false;
    }
    let mut j: usize = 0;
    while j < n
        invariant
            j <= n,
            n == p@.len(),
            m == s@.len(),
            n <= m,
            forall|k: int| 0 <= k < j ==> p@[k] == s@[k],
        decreases n - j,
    {
        if p.get_char(j) != s.get_char(j) {
            proof {
                assert(s@.take(n as int)[j as int] != p@[j as int]);
            }
            return false;
        }
        j = j + 1;
    }
    proof {
        assert(s@.take(n as int) =~= p@);
    }
    true
}

/// Whether a package name falls under one of the blacklisted
/// prefixes.
pub fn is_blacklisted(name: &String, bl: &Vec<String>) -> (r: bool)
    ensures
        r == spec_blacklisted(name@, bl.deep_view()),
{
    let n = bl.len();
    let mut i: usize = 0;
    while i < n
        invariant
            i <= n,
            n == bl@.len(),
            forall|j: int| 0 <= j < i ==> !spec_is_prefix(#[trigger] bl.deep_view()[j], name@),
        decreases n - i,
    {
        if str_is_prefix(bl[i].as_str(), name.as_str()) {
            proof {
                assert(spec_is_prefix(bl.deep_view()[i as int], name@));
            }
            return true;
        }
        i = i + 1;
    }
    false
}

/// The list with later duplicates dropped.
fn dedup_strings(v: &Vec<String>) -> (r: Vec<String>)
    ensures
        r.deep_view() == spec_dedup(v.deep_view()),
        r@.len() <= v@.len(),
{
    let n = v.len();
    let mut r: Vec<String> = Vec::new();
    let mut i: usize = 0;
    while i < n
        invariant
            i <= n,
            n == v@.len(),
            r.deep_view() == spec_dedup(v.deep_view().take(i as int)),
            r@.len() <= i,
        decreases n - i,
    {
        let ghost d0 = r.deep_view();
        if !contains_string(&r, &v[i]) {
            r.push(v[i].clone());
            proof {
                assert(r.deep_view() =~= d0.push(v.deep_view()[i as int]));
            }
        }
        proof {
            let d = v.deep_view();
            assert(d.take(i + 1).drop_last() =~= d.take(i as int));
            assert(d.take(i + 1).last() == d[i as int]);
            assert(r.deep_view() =~= spec_dedup(d.take(i + 1)));
        }
        i = i + 1;
    }
    proof {
        assert(v.deep_view().take(n as int) =~= v.deep_view());
    }
    r
}

/// How many entries of `a` occur in `b`.
fn count_in(a: &Vec<String>, b: &Vec<String>) -> (r: usize)
    ensures
        r == spec_count_in(a.deep_view(), b.deep_view()),
        r <= a@.len(),
{
    let n = a.len();
    let mut r: usize = 0;
    let mut i: usize = 0;
    while i < n
        invariant
            i <= n,
            n == a@.len(),
            r <= i,
            r == spec_count_in(a.deep_view().take(i as int), b.deep_view()),
        decreases n - i,
    {
        if contains_string(b, &a[i]) {
            r = r + 1;
        }
        proof {
            let d = a.deep_view();
            assert(d.take(i + 1).drop_last() =~= d.take(i as int));
            assert(d.take(i + 1).last() == d[i as int]);
        }
        i = i + 1;
    }
    proof {
        assert(a.deep_view().take(n as int) =~= a.deep_view());
    }
    r
}

/// The distinct-API intersection and union sizes of two API lists.
fn similarity_counts(a: &Vec<String>, b: &Vec<String>) -> (r: (u64, u128))
    ensures
        r.0 as int == spec_inter(a.deep_view(), b.deep_view()),
        r.1 as int == spec_union_count(a.deep_view(), b.deep_view()),
        r.1 <= 0x1_ffff_ffff_ffff_fffeu128,
{
    let da = dedup_strings(a);
    let db = dedup_strings(b);
    let inter = count_in(&da, b);
    proof {
        lemma_count_in_nonneg(da.deep_view(), b.deep_view());
    }
    let union_count: u128 = da.len() as u128 + db.len() as u128 - inter as u128;
    (inter as u64, union_count)
}

/// A count of occurrences is never negative.
proof fn lemma_count_in_nonneg(a: Seq<Seq<char>>, b: Seq<Seq<char>>)
    ensures
        0 <= spec_count_in(a, b) <= a.len(),
    decreases a.len(),
{
    if a.len() > 0 {
        lemma_count_in_nonneg(a.drop_last(), b);
    }
}

impl LibradarExactAnalysis {
    /// The exact matches of a list of class fingerprints: a class is
    /// reported with each library registered for its hash, provided
    /// its weight reaches `min_api_weight` and its hash was observed
    /// under some package at least `min_lib_count` times.
    pub fn analyze_fingerprints(
        &self,
        db: &MemDB,
        fps: &Vec<ClassFingerprint>,
        t: &Thresholds,
    ) -> (r: Vec<PkgResult>)
        ensures
            forall|v: (Seq<u8>, Seq<char>, Seq<char>, Option<MatchRate>)| #[trigger]
                r.deep_view().contains(v) <==> (v.3 == None::<MatchRate> && exists|i: int|
                    0 <= i < fps@.len() && (#[trigger] fps@[i]).hash@ == v.0 && fps@[i].name@
                        == v.1 && spec_exact_hit(
                        db.pkgs(),
                        v.0,
                        fps@[i].weight as int,
                        t.min_api_weight as int,
                        t.min_lib_count as int,
                    ) && db.libs().contains((v.0, v.2))),
    {
        let n = fps.len();
        let mut r: Vec<PkgResult> = Vec::new();
        let mut i: usize = 0;
        while i < n
            invariant
                i <= n,
                n == fps@.len(),
                forall|v: (Seq<u8>, Seq<char>, Seq<char>, Option<MatchRate>)| #[trigger]
                    r.deep_view().contains(v) <==> (v.3 == None::<MatchRate> && exists|j: int|
                        0 <= j < i && (#[trigger] fps@[j]).hash@ == v.0 && fps@[j].name@ == v.1
                            && spec_exact_hit(
                            db.pkgs(),
                            v.0,
                            fps@[j].weight as int,
                            t.min_api_weight as int,
                            t.min_lib_count as int,
                        ) && db.libs().contains((v.0, v.2))),
            decreases n - i,
        {
            let fp = &fps[i];
            let ghost d0 = r.deep_view();
            let mut piece = exact_class_results(db, fp, t);
            let ghost dp = piece.deep_view();
            r.append(&mut piece);
            proof {
                assert(r.deep_view() =~= d0 + dp);
                assert forall|v: (Seq<u8>, Seq<char>, Seq<char>, Option<MatchRate>)| #[trigger]
                    r.deep_view().contains(v) <==> (d0.contains(v) || dp.contains(v)) by {
                    if r.deep_view().contains(v) {
                        let a = choose|a: int|
                            0 <= a < r.deep_view().len() && (#[trigger] r.deep_view()[a]) == v;
                        if a < d0.len() {
                            assert(d0[a] == v);
                        } else {
                            assert(dp[a - d0.len()] == v);
                        }
                    }
                    if d0.contains(v) {
                        let a = choose|a: int| 0 <= a < d0.len() && (#[trigger] d0[a]) == v;
                        assert(r.deep_view()[a] == v);
                    }
                    if dp.contains(v) {
                        let a = choose|a: int| 0 <= a < dp.len() && (#[trigger] dp[a]) == v;
                        assert(r.deep_view()[d0.len() + a] == v);
                    }
                }
            }
            i = i + 1;
        }
        r
    }
}

/// The exact matches of one class fingerprint.
fn exact_class_results(db: &MemDB, fp: &ClassFingerprint, t: &Thresholds) -> (r: Vec<PkgResult>)
    ensures
        forall|v: (Seq<u8>, Seq<char>, Seq<char>, Option<MatchRate>)| #[trigger]
            r.deep_view().contains(v) <==> (v.3 == None::<MatchRate> && v.0 == fp.hash@ && v.1
                == fp.name@ && spec_exact_hit(
                db.pkgs(),
                fp.hash@,
                fp.weight as int,
                t.min_api_weight as int,
                t.min_lib_count as int,
            ) && db.libs().contains((v.0, v.2))),
{
    let mut r: Vec<PkgResult> = Vec::new();
    if (fp.weight as u64) < t.min_api_weight {
        proof {
            assert(r.deep_view() =~= Seq::<
                (Seq<u8>, Seq<char>, Seq<char>, Option<MatchRate>),
            >::empty());
        }
        return r;
    }
    let trusted_list = db.get_pkgs(t.min_lib_count);
    let trusted = any_with_hash(&trusted_list, &fp.hash);
    if !trusted {
        proof {
            assert(r.deep_view() =~= Seq::<
                (Seq<u8>, Seq<char>, Seq<char>, Option<MatchRate>),
            >::empty());
            if spec_exact_hit(
                db.pkgs(),
                fp.hash@,
                fp.weight as int,
                t.min_api_weight as int,
                t.min_lib_count as int,
            ) {
                let pn = choose|pn: Seq<char>|
                    db.pkgs().contains_key((fp.hash@, pn)) && db.pkgs()[(fp.hash@, pn)]
                        >= t.min_lib_count;
                let e = (
                    fp.hash@,
                    pn,
                    crate::memdb::weight_or_zero(db.weights(), fp.hash@),
                );
                assert(trusted_list.deep_view().contains(e));
            }
        }
        return r;
    }
    proof {
        let e = choose|e: (Seq<u8>, Seq<char>, int)| #[trigger]
            trusted_list.deep_view().contains(e) && e.0 == fp.hash@;
        assert(db.pkgs().contains_key((e.0, e.1)) && db.pkgs()[(e.0, e.1)] >= t.min_lib_count);
        assert(spec_exact_hit(
            db.pkgs(),
            fp.hash@,
            fp.weight as int,
            t.min_api_weight as int,
            t.min_lib_count as int,
        ));
    }
    let mut hash_list: Vec<Vec<u8>> = Vec::new();
    hash_list.push(slice_to_vec(fp.hash.as_slice()));
    proof {
        assert(hash_list.deep_view().len() == 1);
        assert(hash_list.deep_view()[0] == hash_list@[0]@);
        assert(hash_list.deep_view() =~~= seq![fp.hash@]);
        assert(hash_list.deep_view().contains(fp.hash@)) by {
            assert(hash_list.deep_view()[0] == fp.hash@);
        }
    }
    let libs = db.match_libs(&hash_list);
    let m = libs.len();
    let mut k: usize = 0;
    while k < m
        invariant
            m == libs@.len(),
            k <= m,
            hash_list.deep_view() == seq![fp.hash@],
            forall|p: (Seq<u8>, Seq<char>)| #[trigger]
                libs.deep_view().contains(p) <==> (hash_list.deep_view().contains(p.0)
                    && db.libs().contains(p)),
            spec_exact_hit(
                db.pkgs(),
                fp.hash@,
                fp.weight as int,
                t.min_api_weight as int,
                t.min_lib_count as int,
            ),
            forall|v: (Seq<u8>, Seq<char>, Seq<char>, Option<MatchRate>)| #[trigger]
                r.deep_view().contains(v) <==> (v.3 == None::<MatchRate> && v.0 == fp.hash@ && v.1
                    == fp.name@ && libs.deep_view().take(k as int).contains((v.0, v.2))),
        decreases m - k,
    {
        let lib = &libs[k];
        proof {
            assert(libs.deep_view()[k as int] == (lib.hash@, lib.name@));
            assert(libs.deep_view().contains(libs.deep_view()[k as int])) by {
                assert(libs.deep_view()[k as int] == libs.deep_view()[k as int]);
            }
            assert(lib.hash@ == fp.hash@);
        }
        let ghost d0 = r.deep_view();
        r.push(
            PkgResult {
                hash: slice_to_vec(fp.hash.as_slice()),
                name: fp.name.clone(),
                lib_name: lib.name.clone(),
                similarity: None,
            },
        );
        proof {
            let nv = (fp.hash@, fp.name@, lib.name@, None::<MatchRate>);
            assert(r.deep_view() =~= d0.push(nv));
            assert forall|v: (Seq<u8>, Seq<char>, Seq<char>, Option<MatchRate>)| #[trigger]
                r.deep_view().contains(v) <==> (d0.contains(v) || v == nv) by {
                if r.deep_view().contains(v) {
                    let a = choose|a: int|
                        0 <= a < r.deep_view().len() && (#[trigger] r.deep_view()[a]) == v;
                    if a < d0.len() {
                        assert(d0[a] == v);
                    }
                }
                if d0.contains(v) {
                    let a = choose|a: int| 0 <= a < d0.len() && (#[trigger] d0[a]) == v;
                    assert(r.deep_view()[a] == v);
                }
                if v == nv {
                    assert(r.deep_view()[d0.len() as int] == v);
                }
            }
            let dl = libs.deep_view();
            assert forall|p: (Seq<u8>, Seq<char>)| #[trigger]
                dl.take(k + 1).contains(p) <==> (dl.take(k as int).contains(p) || p == dl[k as int])
                by {
                if dl.take(k + 1).contains(p) {
                    let a = choose|a: int|
                        0 <= a < dl.take(k + 1).len() && (#[trigger] dl.take(k + 1)[a]) == p;
                    if a < k {
                        assert(dl.take(k as int)[a] == p);
                        assert(dl.take(k as int).contains(p));
                    }
                }
                if dl.take(k as int).contains(p) {
                    let a = choose|a: int|
                        0 <= a < dl.take(k as int).len() && (#[trigger] dl.take(k as int)[a]) == p;
                    assert(dl.take(k + 1)[a] == p);
                    assert(dl.take(k + 1).contains(p));
                }
                if p == dl[k as int] {
                    assert(dl.take(k + 1)[k as int] == p);
                    assert(dl.take(k + 1).contains(p));
                }
            }
        }
        k = k + 1;
    }
    proof {
        assert(libs.deep_view().take(m as int) =~= libs.deep_view());
    }
    r
}

/// Whether the listed records name the given hash.
fn any_with_hash(list: &Vec<PkgInfo>, hash: &Vec<u8>) -> (r: bool)
    ensures
        r == exists|e: (Seq<u8>, Seq<char>, int)| #[trigger]
            list.deep_view().contains(e) && e.0 == hash@,
{
    let n = list.len();
    let mut i: usize = 0;
    while i < n
        invariant
            i <= n,
            n == list@.len(),
            forall|j: int| 0 <= j < i ==> (#[trigger] list.deep_view()[j]).0 != hash@,
        decreases n - i,
    {
        proof {
            assert(list.deep_view()[i as int] == list@[i as int]@);
        }
        if crate::memdb::bytes_eq(&list[i].hash, hash) {
            proof {
                assert(list.deep_view().contains(list.deep_view()[i as int])) by {
                    assert(list.deep_view()[i as int] == list.deep_view()[i as int]);
                }
            }
            return true;
        }
        i = i + 1;
    }
    proof {
        if exists|e: (Seq<u8>, Seq<char>, int)| #[trigger]
            list.deep_view().contains(e) && e.0 == hash@ {
            let e = choose|e: (Seq<u8>, Seq<char>, int)| #[trigger]
                list.deep_view().contains(e) && e.0 == hash@;
            let j = choose|j: int|
                0 <= j < list.deep_view().len() && (#[trigger] list.deep_view()[j]) == e;
            assert((list.deep_view()[j]).0 != hash@);
        }
    }
    false
}

impl LibradarFuzzyAnalysis {
    /// The fuzzy matches of a list of classes against candidate
    /// signatures.  A class under a blacklisted package prefix or
    /// with too few API calls is skipped; a candidate is reported,
    /// with the exact similarity ratio, when the distinct APIs
    /// shared with the class make up at least the configured share
    /// of the distinct APIs of either.
    pub fn analyze_classes(
        &self,
        classes: &Vec<ClassApis>,
        candidates: &Vec<Signature>,
        t: &Thresholds,
    ) -> (r: Vec<PkgResult>)
        ensures
            forall|v: (Seq<u8>, Seq<char>, Seq<char>, Option<MatchRate>)| #[trigger]
                r.deep_view().contains(v) <==> exists|i: int|
                    0 <= i < classes@.len() && (#[trigger] classes@[i]).hash@ == v.0
                        && classes@[i].name@ == v.1 && !spec_blacklisted(
                        classes@[i].name@,
                        t.pkg_name_blacklist.deep_view(),
                    ) && classes@[i].apis@.len() >= t.min_api_weight && exists|j: int|
                        0 <= j < candidates@.len() && (#[trigger] candidates@[j]).name@ == v.2
                            && spec_fuzzy_match(
                            classes@[i].apis.deep_view(),
                            candidates@[j].apis.deep_view(),
                            t.lib_match_rate,
                        ) && v.3 == Some(
                            spec_similarity(
                                classes@[i].apis.deep_view(),
                                candidates@[j].apis.deep_view(),
                            ),
                        ),
    {
        let n = classes.len();
        let mut r: Vec<PkgResult> = Vec::new();
        let mut i: usize = 0;
        while i < n
            invariant
                i <= n,
                n == classes@.len(),
                forall|v: (Seq<u8>, Seq<char>, Seq<char>, Option<MatchRate>)| #[trigger]
                    r.deep_view().contains(v) <==> exists|a: int|
                        0 <= a < i && (#[trigger] classes@[a]).hash@ == v.0 && classes@[a].name@
                            == v.1 && !spec_blacklisted(
                            classes@[a].name@,
                            t.pkg_name_blacklist.deep_view(),
                        ) && classes@[a].apis@.len() >= t.min_api_weight && exists|j: int|
                            0 <= j < candidates@.len() && (#[trigger] candidates@[j]).name@ == v.2
                                && spec_fuzzy_match(
                                classes@[a].apis.deep_view(),
                                candidates@[j].apis.deep_view(),
                                t.lib_match_rate,
                            ) && v.3 == Some(
                                spec_similarity(
                                    classes@[a].apis.deep_view(),
                                    candidates@[j].apis.deep_view(),
                                ),
                            ),
            decreases n - i,
        {
            let c = &classes[i];
            let ghost d0 = r.deep_view();
            let mut piece = fuzzy_class_results(c, candidates, t);
            let ghost dp = piece.deep_view();
            r.append(&mut piece);
            proof {
                assert(r.deep_view() =~= d0 + dp);
                assert forall|v: (Seq<u8>, Seq<char>, Seq<char>, Option<MatchRate>)| #[trigger]
                    r.deep_view().contains(v) <==> (d0.contains(v) || dp.contains(v)) by {
                    if r.deep_view().contains(v) {
                        let a = choose|a: int|
                            0 <= a < r.deep_view().len() && (#[trigger] r.deep_view()[a]) == v;
                        if a < d0.len() {
                            assert(d0[a] == v);
                        } else {
                            assert(dp[a - d0.len()] == v);
                        }
                    }
                    if d0.contains(v) {
                        let a = choose|a: int| 0 <= a < d0.len() && (#[trigger] d0[a]) == v;
                        assert(r.deep_view()[a] == v);
                    }
                    if dp.contains(v) {
                        let a = choose|a: int| 0 <= a < dp.len() && (#[trigger] dp[a]) == v;
                        assert(r.deep_view()[d0.len() + a] == v);
                    }
                }
            }
            i = i + 1;
        }
        r
    }
}

/// The fuzzy matches of one class.
fn fuzzy_class_results(c: &ClassApis, candidates: &Vec<Signature>, t: &Thresholds) -> (r: Vec<
    PkgResult,
>)
    ensures
        forall|v: (Seq<u8>, Seq<char>, Seq<char>, Option<MatchRate>)| #[trigger]
            r.deep_view().contains(v) <==> (v.0 == c.hash@ && v.1 == c.name@ && !spec_blacklisted(
                c.name@,
                t.pkg_name_blacklist.deep_view(),
            ) && c.apis@.len() >= t.min_api_weight && exists|j: int|
                0 <= j < candidates@.len() && (#[trigger] candidates@[j]).name@ == v.2
                    && spec_fuzzy_match(
                    c.apis.deep_view(),
                    candidates@[j].apis.deep_view(),
                    t.lib_match_rate,
                ) && v.3 == Some(
                    spec_similarity(c.apis.deep_view(), candidates@[j].apis.deep_view()),
                )),
{
    let mut r: Vec<PkgResult> = Vec::new();
    if is_blacklisted(&c.name, &t.pkg_name_blacklist) {
        proof {
            assert(r.deep_view() =~= Seq::<
                (Seq<u8>, Seq<char>, Seq<char>, Option<MatchRate>),
            >::empty());
        }
        return r;
    }
    if (c.apis.len() as u64) < t.min_api_weight {
        proof {
            assert(r.deep_view() =~= Seq::<
                (Seq<u8>, Seq<char>, Seq<char>, Option<MatchRate>),
            >::empty());
        }
        return r;
    }
    let m = candidates.len();
    let mut j: usize = 0;
    while j < m
        invariant
            j <= m,
            m == candidates@.len(),
            !spec_blacklisted(c.name@, t.pkg_name_blacklist.deep_view()),
            c.apis@.len() >= t.min_api_weight,
            forall|v: (Seq<u8>, Seq<char>, Seq<char>, Option<MatchRate>)| #[trigger]
                r.deep_view().contains(v) <==> (v.0 == c.hash@ && v.1 == c.name@ && exists|a: int|
                    0 <= a < j && (#[trigger] candidates@[a]).name@ == v.2 && spec_fuzzy_match(
                        c.apis.deep_view(),
                        candidates@[a].apis.deep_view(),
                        t.lib_match_rate,
                    ) && v.3 == Some(
                        spec_similarity(c.apis.deep_view(), candidates@[a].apis.deep_view()),
                    )),
        decreases m - j,
    {
        let cand = &candidates[j];
        let (inter, union_count) = similarity_counts(&c.apis, &cand.apis);
        let union_cap: u64 = if union_count > u64::MAX as u128 {
            u64::MAX
        } else {
            union_count as u64
        };
        proof {
            assert((inter as u128) * (t.lib_match_rate.den as u128)
                <= 0xffff_ffff_ffff_ffff_0000_0000_0000_0000u128) by (nonlinear_arith)
                requires
                    inter as u128 <= 0xffff_ffff_ffff_ffffu128,
                    t.lib_match_rate.den as u128 <= 0xffff_ffff_ffff_ffffu128,
            ;
            assert((t.lib_match_rate.num as u128) * (union_cap as u128)
                <= 0xffff_ffff_ffff_ffff_0000_0000_0000_0000u128) by (nonlinear_arith)
                requires
                    t.lib_match_rate.num as u128 <= 0xffff_ffff_ffff_ffffu128,
                    union_cap as u128 <= 0xffff_ffff_ffff_ffffu128,
            ;
        }
        let matched = union_count > 0 && (inter as u128) * (t.lib_match_rate.den as u128) >= (
        t.lib_match_rate.num as u128) * (union_cap as u128);
        let ghost d0 = r.deep_view();
        if matched {
            r.push(
                PkgResult {
                    hash: slice_to_vec(c.hash.as_slice()),
                    name: c.name.clone(),
                    lib_name: cand.name.clone(),
                    similarity: Some(MatchRate { num: inter, den: union_cap }),
                },
            );
        }
        proof {
            let nv = (
                c.hash@,
                c.name@,
                cand.name@,
                Some(spec_similarity(c.apis.deep_view(), cand.apis.deep_view())),
            );
            if matched {
                assert(r.deep_view() =~= d0.push(nv));
                assert forall|v: (Seq<u8>, Seq<char>, Seq<char>, Option<MatchRate>)| #[trigger]
                    r.deep_view().contains(v) <==> (d0.contains(v) || v == nv) by {
                    if r.deep_view().contains(v) {
                        let a = choose|a: int|
                            0 <= a < r.deep_view().len() && (#[trigger] r.deep_view()[a]) == v;
                        if a < d0.len() {
                            assert(d0[a] == v);
                        }
                    }
                    if d0.contains(v) {
                        let a = choose|a: int| 0 <= a < d0.len() && (#[trigger] d0[a]) == v;
                        assert(r.deep_view()[a] == v);
                    }
                    if v == nv {
                        assert(r.deep_view()[d0.len() as int] == v);
                    }
                }
            }
            assert forall|v: (Seq<u8>, Seq<char>, Seq<char>, Option<MatchRate>)| #[trigger]
                r.deep_view().contains(v) <==> (v.0 == c.hash@ && v.1 == c.name@ && exists|a: int|
                0 <= a < j + 1 && (#[trigger] candidates@[a]).name@ == v.2 && spec_fuzzy_match(
                    c.apis.deep_view(),
                    candidates@[a].apis.deep_view(),
                    t.lib_match_rate,
                ) && v.3 == Some(
                    spec_similarity(c.apis.deep_view(), candidates@[a].apis.deep_view()),
                )) by {
                if r.deep_view().contains(v) && !d0.contains(v) {
                    assert(candidates@[j as int].name@ == v.2);
                }
                if !(v.0 == c.hash@ && v.1 == c.name@) {
                } else {
                    if exists|a: int|
                        0 <= a < j + 1 && (#[trigger] candidates@[a]).name@ == v.2
                            && spec_fuzzy_match(
                            c.apis.deep_view(),
                            candidates@[a].apis.deep_view(),
                            t.lib_match_rate,
                        ) && v.3 == Some(
                            spec_similarity(c.apis.deep_view(), candidates@[a].apis.deep_view()),
                        ) {
                        let a = choose|a: int|
                            0 <= a < j + 1 && (#[trigger] candidates@[a]).name@ == v.2
                                && spec_fuzzy_match(
                                c.apis.deep_view(),
                                candidates@[a].apis.deep_view(),
                                t.lib_match_rate,
                            ) && v.3 == Some(
                                spec_similarity(
                                    c.apis.deep_view(),
                                    candidates@[a].apis.deep_view(),
                                ),
                            );
                        if a < j {
                            assert(r.deep_view().contains(v));
                        } else {
                            assert(matched);
                            assert(v == nv);
                            assert(r.deep_view().contains(v));
                        }
                    }
                }
            }
        }
        j = j + 1;
    }
    r
}

} // verus!
