//! The in-memory signature database.
//!
//! Three tables: occurrence counts per (hash, package) pair, library
//! names per hash, and one weight per hash.  Each table is a vector
//! of records with pairwise distinct keys; its meaning is the map
//! (or set) folded from the records.

use vstd::prelude::*;
use vstd::slice::slice_to_vec;

use crate::db::{DbDump, DexDB, LibInfo, PkgInfo};
use crate::textfmt::{
    dec_parse, dec_render, find_char, hex_encode, hex_parse, lemma_find, spec_dec,
    spec_dec_parse_u64, spec_find, spec_hex, spec_hex_parse,
};

verus! {

/// One packages-table line, without its terminator: hash in hex,
/// package name, occurrence count, separated by single spaces.
pub open spec fn spec_render_pkg_entry(r: (Seq<u8>, Seq<char>, int)) -> Seq<char> {
    spec_hex(r.0) + seq![' '] + r.1 + seq![' '] + spec_dec(r.2)
}

/// The packages table: one newline-terminated line per record.
pub open spec fn spec_render_pkgs(recs: Seq<(Seq<u8>, Seq<char>, int)>) -> Seq<char>
    decreases recs.len(),
{
    if recs.len() == 0 {
        Seq::empty()
    } else {
        spec_render_pkg_entry(recs.first()) + seq!['\n'] + spec_render_pkgs(recs.drop_first())
    }
}

/// One libraries-table line, without its terminator: hash in hex,
/// then the library name.
pub open spec fn spec_render_lib_entry(r: (Seq<u8>, Seq<char>)) -> Seq<char> {
    spec_hex(r.0) + seq![' '] + r.1
}

/// The libraries table: one newline-terminated line per record.
pub open spec fn spec_render_libs(recs: Seq<(Seq<u8>, Seq<char>)>) -> Seq<char>
    decreases recs.len(),
{
    if recs.len() == 0 {
        Seq::empty()
    } else {
        spec_render_lib_entry(recs.first()) + seq!['\n'] + spec_render_libs(recs.drop_first())
    }
}

/// One weights-table line, without its terminator: hash in hex,
/// then the weight.
pub open spec fn spec_render_weight_entry(r: (Seq<u8>, int)) -> Seq<char> {
    spec_hex(r.0) + seq![' '] + spec_dec(r.1)
}

/// The weights table: one newline-terminated line per record.
pub open spec fn spec_render_weights(recs: Seq<(Seq<u8>, int)>) -> Seq<char>
    decreases recs.len(),
{
    if recs.len() == 0 {
        Seq::empty()
    } else {
        spec_render_weight_entry(recs.first()) + seq!['\n'] + spec_render_weights(
            recs.drop_first(),
        )
    }
}

/// The lines of a persisted table: separated by newlines, a final
/// line not needing one.
pub open spec fn spec_lines(s: Seq<char>) -> Seq<Seq<char>>
    decreases s.len(),
    via spec_lines_dec
{
    if s.len() == 0 {
        Seq::empty()
    } else {
        match spec_find(s, '\n') {
            None => seq![s],
            Some(i) => seq![s.take(i)] + spec_lines(s.skip(i + 1)),
        }
    }
}

#[via_fn]
proof fn spec_lines_dec(s: Seq<char>) {
    lemma_find(s, '\n');
}

/// The record a packages-table line holds, or `None` where the line
/// is malformed.
pub open spec fn spec_parse_pkg_line(l: Seq<char>) -> Option<(Seq<u8>, Seq<char>, int)> {
    match spec_find(l, ' ') {
        None => None,
        Some(i) => match spec_hex_parse(l.take(i)) {
            None => None,
            Some(h) => {
                let rest = l.skip(i + 1);
                match spec_find(rest, ' ') {
                    None => None,
                    Some(j) => match spec_dec_parse_u64(rest.skip(j + 1)) {
                        None => None,
                        Some(c) => Some((h, rest.take(j), c as int)),
                    },
                }
            },
        },
    }
}

/// The record a libraries-table line holds, or `None` where the
/// line is malformed.
pub open spec fn spec_parse_lib_line(l: Seq<char>) -> Option<(Seq<u8>, Seq<char>)> {
    match spec_find(l, ' ') {
        None => None,
        Some(i) => match spec_hex_parse(l.take(i)) {
            None => None,
            Some(h) => Some((h, l.skip(i + 1))),
        },
    }
}

/// The record a weights-table line holds, or `None` where the line
/// is malformed.
pub open spec fn spec_parse_weight_line(l: Seq<char>) -> Option<(Seq<u8>, int)> {
    match spec_find(l, ' ') {
        None => None,
        Some(i) => match spec_hex_parse(l.take(i)) {
            None => None,
            Some(h) => match spec_dec_parse_u64(l.skip(i + 1)) {
                None => None,
                Some(w) => Some((h, w as int)),
            },
        },
    }
}

/// The counters after importing the given packages-table lines;
/// malformed lines are skipped.
pub open spec fn spec_apply_pkg_lines(
    m: Map<(Seq<u8>, Seq<char>), int>,
    lines: Seq<Seq<char>>,
) -> Map<(Seq<u8>, Seq<char>), int>
    decreases lines.len(),
{
    if lines.len() == 0 {
        m
    } else {
        let m1 = match spec_parse_pkg_line(lines.first()) {
            Some(r) => m.insert((r.0, r.1), r.2),
            None => m,
        };
        spec_apply_pkg_lines(m1, lines.drop_first())
    }
}

/// The associations after importing the given libraries-table
/// lines; malformed lines are skipped.
pub open spec fn spec_apply_lib_lines(
    s: Set<(Seq<u8>, Seq<char>)>,
    lines: Seq<Seq<char>>,
) -> Set<(Seq<u8>, Seq<char>)>
    decreases lines.len(),
{
    if lines.len() == 0 {
        s
    } else {
        let s1 = match spec_parse_lib_line(lines.first()) {
            Some(r) => s.insert(r),
            None => s,
        };
        spec_apply_lib_lines(s1, lines.drop_first())
    }
}

/// The weights after importing the given weights-table lines;
/// malformed lines are skipped.
pub open spec fn spec_apply_weight_lines(m: Map<Seq<u8>, int>, lines: Seq<Seq<char>>) -> Map<
    Seq<u8>,
    int,
>
    decreases lines.len(),
{
    if lines.len() == 0 {
        m
    } else {
        let m1 = match spec_parse_weight_line(lines.first()) {
            Some(r) => m.insert(r.0, r.1),
            None => m,
        };
        spec_apply_weight_lines(m1, lines.drop_first())
    }
}

/// One stored occurrence record.
struct PkgEntry {
    hash: Vec<u8>,
    name: String,
    count: u64,
}

impl View for PkgEntry {
    type V = (Seq<u8>, Seq<char>, int);

    closed spec fn view(&self) -> (Seq<u8>, Seq<char>, int) {
        (self.hash@, self.name@, self.count as int)
    }
}

/// One stored weight record.
struct WeightEntry {
    hash: Vec<u8>,
    weight: u64,
}

impl View for WeightEntry {
    type V = (Seq<u8>, int);

    closed spec fn view(&self) -> (Seq<u8>, int) {
        (self.hash@, self.weight as int)
    }
}

/// The key of an occurrence record.
pub open spec fn ckey(r: (Seq<u8>, Seq<char>, int)) -> (Seq<u8>, Seq<char>) {
    (r.0, r.1)
}

/// The map a list of occurrence records folds to, later records
/// winning.
pub open spec fn fold_counts(
    m: Map<(Seq<u8>, Seq<char>), int>,
    recs: Seq<(Seq<u8>, Seq<char>, int)>,
) -> Map<(Seq<u8>, Seq<char>), int>
    decreases recs.len(),
{
    if recs.len() == 0 {
        m
    } else {
        fold_counts(m.insert(ckey(recs.first()), recs.first().2), recs.drop_first())
    }
}

/// The map a list of weight records folds to.
pub open spec fn fold_weights(m: Map<Seq<u8>, int>, recs: Seq<(Seq<u8>, int)>) -> Map<
    Seq<u8>,
    int,
>
    decreases recs.len(),
{
    if recs.len() == 0 {
        m
    } else {
        fold_weights(m.insert(recs.first().0, recs.first().1), recs.drop_first())
    }
}

/// The set a list of library records folds to.
pub open spec fn fold_libs(s: Set<(Seq<u8>, Seq<char>)>, recs: Seq<(Seq<u8>, Seq<char>)>) -> Set<
    (Seq<u8>, Seq<char>),
>
    decreases recs.len(),
{
    if recs.len() == 0 {
        s
    } else {
        fold_libs(s.insert(recs.first()), recs.drop_first())
    }
}

/// Inserting a key none of the records touches commutes with the
/// fold.
proof fn lemma_fold_counts_commute(
    m: Map<(Seq<u8>, Seq<char>), int>,
    k: (Seq<u8>, Seq<char>),
    v: int,
    recs: Seq<(Seq<u8>, Seq<char>, int)>,
)
    requires
        forall|i: int| 0 <= i < recs.len() ==> ckey(#[trigger] recs[i]) != k,
    ensures
        fold_counts(m.insert(k, v), recs) == fold_counts(m, recs).insert(k, v),
    decreases recs.len(),
{
    if recs.len() > 0 {
        let r0 = recs.first();
        assert(ckey(recs[0]) != k);
        assert(m.insert(k, v).insert(ckey(r0), r0.2) =~= m.insert(ckey(r0), r0.2).insert(k, v));
        assert(forall|i: int|
            0 <= i < recs.drop_first().len() ==> ckey(#[trigger] recs.drop_first()[i]) != k);
        lemma_fold_counts_commute(m.insert(ckey(r0), r0.2), k, v, recs.drop_first());
    }
}

/// What the fold holds, record keys being pairwise distinct: the
/// accumulator's entries off the record keys, and each record's
/// count at its key.
proof fn lemma_fold_counts_chars(
    m: Map<(Seq<u8>, Seq<char>), int>,
    recs: Seq<(Seq<u8>, Seq<char>, int)>,
)
    requires
        forall|i: int, j: int|
            0 <= i < j < recs.len() ==> ckey(#[trigger] recs[i]) != ckey(#[trigger] recs[j]),
    ensures
        forall|i: int|
            0 <= i < recs.len() ==> fold_counts(m, recs).contains_key(ckey(#[trigger] recs[i]))
                && fold_counts(m, recs)[ckey(recs[i])] == recs[i].2,
        forall|k: (Seq<u8>, Seq<char>)| #[trigger]
            fold_counts(m, recs).contains_key(k) ==> m.contains_key(k) || exists|i: int|
                0 <= i < recs.len() && ckey(#[trigger] recs[i]) == k,
        forall|k: (Seq<u8>, Seq<char>)|
            (#[trigger] fold_counts(m, recs).contains_key(k) && (forall|i: int|
                0 <= i < recs.len() ==> ckey(#[trigger] recs[i]) != k)) ==> m.contains_key(k)
                && fold_counts(m, recs)[k] == m[k],
    decreases recs.len(),
{
    if recs.len() > 0 {
        let r0 = recs.first();
        let m1 = m.insert(ckey(r0), r0.2);
        lemma_fold_counts_chars(m1, recs.drop_first());
        assert(forall|i: int| 0 <= i < recs.drop_first().len() ==> ckey(recs[i + 1]) == ckey(
            #[trigger] recs.drop_first()[i],
        ));
        assert(forall|i: int| 0 <= i < recs.drop_first().len() ==> ckey(
            #[trigger] recs.drop_first()[i],
        ) != ckey(r0));
        lemma_fold_counts_commute(m, ckey(r0), r0.2, recs.drop_first());
        assert forall|i: int|
            0 <= i < recs.len() implies fold_counts(m, recs).contains_key(ckey(
            #[trigger] recs[i],
        )) && fold_counts(m, recs)[ckey(recs[i])] == recs[i].2 by {
            if i > 0 {
                assert(recs.drop_first()[i - 1] == recs[i]);
            }
        }
    }
}

/// Replacing the record at `i` by one with the same key replaces
/// that key's entry in the fold.
proof fn lemma_fold_counts_update(
    m: Map<(Seq<u8>, Seq<char>), int>,
    recs: Seq<(Seq<u8>, Seq<char>, int)>,
    i: int,
    r: (Seq<u8>, Seq<char>, int),
)
    requires
        0 <= i < recs.len(),
        ckey(r) == ckey(recs[i]),
        forall|a: int, b: int|
            0 <= a < b < recs.len() ==> ckey(#[trigger] recs[a]) != ckey(#[trigger] recs[b]),
    ensures
        fold_counts(m, recs.update(i, r)) == fold_counts(m, recs).insert(ckey(r), r.2),
    decreases recs.len(),
{
    let r0 = recs.first();
    let rest = recs.drop_first();
    if i == 0 {
        assert(recs.update(0, r).drop_first() =~= rest);
        assert(recs.update(0, r).first() == r);
        assert(forall|a: int| 0 <= a < rest.len() ==> ckey(#[trigger] rest[a]) == ckey(recs[a + 1])
            && ckey(recs[a + 1]) != ckey(r0));
        lemma_fold_counts_commute(m, ckey(r0), r.2, rest);
        lemma_fold_counts_commute(m, ckey(r0), r0.2, rest);
        assert(fold_counts(m, rest).insert(ckey(r0), r0.2).insert(ckey(r), r.2)
            =~= fold_counts(m, rest).insert(ckey(r), r.2));
    } else {
        assert(recs.update(i, r).drop_first() =~= rest.update(i - 1, r));
        assert(recs.update(i, r).first() == r0);
        assert(rest[i - 1] == recs[i]);
        assert(forall|a: int, b: int|
            0 <= a < b < rest.len() ==> ckey(#[trigger] rest[a]) != ckey(#[trigger] rest[b]));
        lemma_fold_counts_update(m.insert(ckey(r0), r0.2), rest, i - 1, r);
    }
}

/// Appending a record inserts its key into the fold.
proof fn lemma_fold_counts_push(
    m: Map<(Seq<u8>, Seq<char>), int>,
    recs: Seq<(Seq<u8>, Seq<char>, int)>,
    r: (Seq<u8>, Seq<char>, int),
)
    ensures
        fold_counts(m, recs.push(r)) == fold_counts(m, recs).insert(ckey(r), r.2),
    decreases recs.len(),
{
    if recs.len() == 0 {
        assert(recs.push(r).drop_first() =~= Seq::<(Seq<u8>, Seq<char>, int)>::empty());
        assert(recs.push(r).first() == r);
        assert(fold_counts(m.insert(ckey(r), r.2), Seq::<(Seq<u8>, Seq<char>, int)>::empty())
            == m.insert(ckey(r), r.2));
    } else {
        assert(recs.push(r).drop_first() =~= recs.drop_first().push(r));
        assert(recs.push(r).first() == recs.first());
        let m1 = m.insert(ckey(recs.first()), recs.first().2);
        assert(fold_counts(m, recs.push(r)) == fold_counts(m1, recs.drop_first().push(r)));
        assert(fold_counts(m, recs) == fold_counts(m1, recs.drop_first()));
        lemma_fold_counts_push(m1, recs.drop_first(), r);
    }
}

/// Inserting a hash none of the records touches commutes with the
/// weights fold.
proof fn lemma_fold_weights_commute(
    m: Map<Seq<u8>, int>,
    k: Seq<u8>,
    v: int,
    recs: Seq<(Seq<u8>, int)>,
)
    requires
        forall|i: int| 0 <= i < recs.len() ==> (#[trigger] recs[i]).0 != k,
    ensures
        fold_weights(m.insert(k, v), recs) == fold_weights(m, recs).insert(k, v),
    decreases recs.len(),
{
    if recs.len() > 0 {
        let r0 = recs.first();
        assert(recs[0].0 != k);
        assert(m.insert(k, v).insert(r0.0, r0.1) =~= m.insert(r0.0, r0.1).insert(k, v));
        assert(forall|i: int|
            0 <= i < recs.drop_first().len() ==> (#[trigger] recs.drop_first()[i]).0 != k);
        lemma_fold_weights_commute(m.insert(r0.0, r0.1), k, v, recs.drop_first());
    }
}

/// What the weights fold holds, hashes being pairwise distinct.
proof fn lemma_fold_weights_chars(m: Map<Seq<u8>, int>, recs: Seq<(Seq<u8>, int)>)
    requires
        forall|i: int, j: int|
            0 <= i < j < recs.len() ==> (#[trigger] recs[i]).0 != (#[trigger] recs[j]).0,
    ensures
        forall|i: int|
            0 <= i < recs.len() ==> fold_weights(m, recs).contains_key((#[trigger] recs[i]).0)
                && fold_weights(m, recs)[recs[i].0] == recs[i].1,
        forall|k: Seq<u8>| #[trigger]
            fold_weights(m, recs).contains_key(k) ==> m.contains_key(k) || exists|i: int|
                0 <= i < recs.len() && (#[trigger] recs[i]).0 == k,
        forall|k: Seq<u8>|
            (#[trigger] fold_weights(m, recs).contains_key(k) && (forall|i: int|
                0 <= i < recs.len() ==> (#[trigger] recs[i]).0 != k)) ==> m.contains_key(k)
                && fold_weights(m, recs)[k] == m[k],
    decreases recs.len(),
{
    if recs.len() > 0 {
        let r0 = recs.first();
        let m1 = m.insert(r0.0, r0.1);
        lemma_fold_weights_chars(m1, recs.drop_first());
        assert(forall|i: int| 0 <= i < recs.drop_first().len() ==> recs[i + 1] == (
        #[trigger] recs.drop_first()[i]));
        assert(forall|i: int|
            0 <= i < recs.drop_first().len() ==> (#[trigger] recs.drop_first()[i]).0 != r0.0);
        lemma_fold_weights_commute(m, r0.0, r0.1, recs.drop_first());
        assert forall|i: int|
            0 <= i < recs.len() implies fold_weights(m, recs).contains_key(
            (#[trigger] recs[i]).0,
        ) && fold_weights(m, recs)[recs[i].0] == recs[i].1 by {
            if i > 0 {
                assert(recs.drop_first()[i - 1] == recs[i]);
            }
        }
    }
}

/// Replacing the weight record at `i` for the same hash replaces
/// that hash's entry in the fold.
proof fn lemma_fold_weights_update(
    m: Map<Seq<u8>, int>,
    recs: Seq<(Seq<u8>, int)>,
    i: int,
    r: (Seq<u8>, int),
)
    requires
        0 <= i < recs.len(),
        r.0 == recs[i].0,
        forall|a: int, b: int|
            0 <= a < b < recs.len() ==> (#[trigger] recs[a]).0 != (#[trigger] recs[b]).0,
    ensures
        fold_weights(m, recs.update(i, r)) == fold_weights(m, recs).insert(r.0, r.1),
    decreases recs.len(),
{
    let r0 = recs.first();
    let rest = recs.drop_first();
    if i == 0 {
        assert(recs.update(0, r).drop_first() =~= rest);
        assert(recs.update(0, r).first() == r);
        assert(forall|a: int| 0 <= a < rest.len() ==> (#[trigger] rest[a]).0 == recs[a + 1].0
            && recs[a + 1].0 != r0.0);
        lemma_fold_weights_commute(m, r0.0, r.1, rest);
        lemma_fold_weights_commute(m, r0.0, r0.1, rest);
        assert(fold_weights(m, rest).insert(r0.0, r0.1).insert(r.0, r.1) =~= fold_weights(
            m,
            rest,
        ).insert(r.0, r.1));
    } else {
        assert(recs.update(i, r).drop_first() =~= rest.update(i - 1, r));
        assert(recs.update(i, r).first() == r0);
        assert(rest[i - 1] == recs[i]);
        assert(forall|a: int, b: int|
            0 <= a < b < rest.len() ==> (#[trigger] rest[a]).0 != (#[trigger] rest[b]).0);
        lemma_fold_weights_update(m.insert(r0.0, r0.1), rest, i - 1, r);
    }
}

/// Appending a weight record inserts its hash into the fold.
proof fn lemma_fold_weights_push(m: Map<Seq<u8>, int>, recs: Seq<(Seq<u8>, int)>, r: (Seq<u8>, int))
    ensures
        fold_weights(m, recs.push(r)) == fold_weights(m, recs).insert(r.0, r.1),
    decreases recs.len(),
{
    if recs.len() == 0 {
        assert(recs.push(r).drop_first() =~= Seq::<(Seq<u8>, int)>::empty());
        assert(recs.push(r).first() == r);
        assert(fold_weights(m.insert(r.0, r.1), Seq::<(Seq<u8>, int)>::empty()) == m.insert(
            r.0,
            r.1,
        ));
    } else {
        assert(recs.push(r).drop_first() =~= recs.drop_first().push(r));
        assert(recs.push(r).first() == recs.first());
        let m1 = m.insert(recs.first().0, recs.first().1);
        assert(fold_weights(m, recs.push(r)) == fold_weights(m1, recs.drop_first().push(r)));
        assert(fold_weights(m, recs) == fold_weights(m1, recs.drop_first()));
        lemma_fold_weights_push(m1, recs.drop_first(), r);
    }
}

/// What the library fold holds: the accumulator plus every record.
proof fn lemma_fold_libs_chars(s: Set<(Seq<u8>, Seq<char>)>, recs: Seq<(Seq<u8>, Seq<char>)>)
    ensures
        forall|p: (Seq<u8>, Seq<char>)| #[trigger]
            fold_libs(s, recs).contains(p) <==> (s.contains(p) || recs.contains(p)),
    decreases recs.len(),
{
    if recs.len() > 0 {
        lemma_fold_libs_chars(s.insert(recs.first()), recs.drop_first());
        assert(fold_libs(s, recs) == fold_libs(s.insert(recs.first()), recs.drop_first()));
        assert forall|p: (Seq<u8>, Seq<char>)| #[trigger]
            fold_libs(s, recs).contains(p) implies (s.contains(p) || recs.contains(p)) by {
            if !s.contains(p) {
                if s.insert(recs.first()).contains(p) {
                    assert(recs[0] == p);
                } else {
                    assert(recs.drop_first().contains(p));
                    let i = choose|i: int|
                        0 <= i < recs.drop_first().len() && recs.drop_first()[i] == p;
                    assert(recs[i + 1] == p);
                }
            }
        }
        assert forall|p: (Seq<u8>, Seq<char>)|
            s.contains(p) || recs.contains(p) implies #[trigger] fold_libs(s, recs).contains(
            p,
        ) by {
            if s.contains(p) {
                assert(s.insert(recs.first()).contains(p));
            } else {
                let i = choose|i: int| 0 <= i < recs.len() && recs[i] == p;
                if i == 0 {
                    assert(s.insert(recs.first()).contains(p));
                } else {
                    assert(recs.drop_first()[i - 1] == p);
                    assert(recs.drop_first().contains(p));
                }
            }
        }
    }
}

/// The record views of a stored package table.
spec fn precs(s: Seq<PkgEntry>) -> Seq<(Seq<u8>, Seq<char>, int)> {
    Seq::new(s.len(), |i: int| s[i]@)
}

/// The record views of a stored library table.
spec fn lrecs(s: Seq<LibInfo>) -> Seq<(Seq<u8>, Seq<char>)> {
    Seq::new(s.len(), |i: int| s[i]@)
}

/// The record views of a stored weight table.
spec fn wrecs(s: Seq<WeightEntry>) -> Seq<(Seq<u8>, int)> {
    Seq::new(s.len(), |i: int| s[i]@)
}

/// Whether two byte vectors hold the same bytes.
pub fn bytes_eq(a: &Vec<u8>, b: &Vec<u8>) -> (r: bool)
    ensures
        r == (a@ == b@),
{
    let n = a.len();
    if n != b.len() {
        return false;
    }
    let mut i: usize = 0;
    while i < n
        invariant
            i <= n,
            n == a@.len(),
            n == b@.len(),
            forall|j: int| 0 <= j < i ==> a@[j] == b@[j],
        decreases n - i,
    {
        if a[i] != b[i] {
            return false;
        }
        i = i + 1;
    }
    proof {
        assert(a@ =~= b@);
    }
    true
}

/// Find the occurrence record of a (hash, package) pair.
fn find_pkg(v: &Vec<PkgEntry>, hash: &Vec<u8>, name: &String) -> (r: Option<usize>)
    ensures
        match r {
            Some(i) => i < v@.len() && ckey(precs(v@)[i as int]) == (hash@, name@),
            None => forall|j: int|
                0 <= j < v@.len() ==> ckey(#[trigger] precs(v@)[j]) != (hash@, name@),
        },
{
    let n = v.len();
    let mut i: usize = 0;
    while i < n
        invariant
            i <= n,
            n == v@.len(),
            forall|j: int| 0 <= j < i ==> ckey(#[trigger] precs(v@)[j]) != (hash@, name@),
        decreases n - i,
    {
        if bytes_eq(&v[i].hash, hash) && v[i].name.eq(name) {
            proof {
                assert(ckey(precs(v@)[i as int]) == (hash@, name@));
            }
            return Some(i);
        }
        proof {
            assert(ckey(precs(v@)[i as int]) != (hash@, name@));
        }
        i = i + 1;
    }
    None
}

/// Set the occurrence counter of a (hash, package) pair, creating
/// its record on demand.
fn set_pkg_count(v: &mut Vec<PkgEntry>, hash: &Vec<u8>, name: &String, count: u64)
    requires
        forall|a: int, b: int|
            0 <= a < b < precs(old(v)@).len() ==> ckey(#[trigger] precs(old(v)@)[a]) != ckey(
                #[trigger] precs(old(v)@)[b],
            ),
    ensures
        forall|a: int, b: int|
            0 <= a < b < precs(final(v)@).len() ==> ckey(#[trigger] precs(final(v)@)[a]) != ckey(
                #[trigger] precs(final(v)@)[b],
            ),
        fold_counts(Map::empty(), precs(final(v)@)) == fold_counts(
            Map::empty(),
            precs(old(v)@),
        ).insert((hash@, name@), count as int),
{
    let ghost s0 = precs(v@);
    match find_pkg(v, hash, name) {
        Some(i) => {
            let mut e = v.remove(i);
            e.count = count;
            let ghost ev = e@;
            v.insert(i, e);
            proof {
                assert(precs(v@) =~= s0.update(i as int, ev));
                lemma_fold_counts_update(Map::empty(), s0, i as int, ev);
                assert forall|a: int, b: int|
                    0 <= a < b < precs(v@).len() implies ckey(#[trigger] precs(v@)[a]) != ckey(
                    #[trigger] precs(v@)[b],
                ) by {
                    assert(ckey(precs(v@)[a]) == ckey(s0[a]));
                    assert(ckey(precs(v@)[b]) == ckey(s0[b]));
                }
            }
        },
        None => {
            let e = PkgEntry { hash: slice_to_vec(hash.as_slice()), name: name.clone(), count };
            let ghost ev = e@;
            v.push(e);
            proof {
                assert(precs(v@) =~= s0.push(ev));
                lemma_fold_counts_push(Map::empty(), s0, ev);
                assert forall|a: int, b: int|
                    0 <= a < b < precs(v@).len() implies ckey(#[trigger] precs(v@)[a]) != ckey(
                    #[trigger] precs(v@)[b],
                ) by {
                    if b < s0.len() {
                        assert(ckey(precs(v@)[a]) == ckey(s0[a]));
                        assert(ckey(precs(v@)[b]) == ckey(s0[b]));
                    } else {
                        assert(precs(v@)[b] == ev);
                        assert(ckey(precs(v@)[a]) == ckey(s0[a]));
                    }
                }
            }
        },
    }
}

/// The stored occurrence counter of a (hash, package) pair.
fn get_pkg_count(v: &Vec<PkgEntry>, hash: &Vec<u8>, name: &String) -> (r: Option<u64>)
    requires
        forall|a: int, b: int|
            0 <= a < b < precs(v@).len() ==> ckey(#[trigger] precs(v@)[a]) != ckey(
                #[trigger] precs(v@)[b],
            ),
    ensures
        match r {
            Some(c) => fold_counts(Map::empty(), precs(v@)).contains_key((hash@, name@))
                && fold_counts(Map::empty(), precs(v@))[(hash@, name@)] == c as int,
            None => !fold_counts(Map::empty(), precs(v@)).contains_key((hash@, name@)),
        },
{
    proof {
        lemma_fold_counts_chars(Map::empty(), precs(v@));
    }
    match find_pkg(v, hash, name) {
        Some(i) => Some(v[i].count),
        None => None,
    }
}

/// Find the weight record of a hash.
fn find_weight(v: &Vec<WeightEntry>, hash: &Vec<u8>) -> (r: Option<usize>)
    ensures
        match r {
            Some(i) => i < v@.len() && wrecs(v@)[i as int].0 == hash@,
            None => forall|j: int| 0 <= j < v@.len() ==> (#[trigger] wrecs(v@)[j]).0 != hash@,
        },
{
    let n = v.len();
    let mut i: usize = 0;
    while i < n
        invariant
            i <= n,
            n == v@.len(),
            forall|j: int| 0 <= j < i ==> (#[trigger] wrecs(v@)[j]).0 != hash@,
        decreases n - i,
    {
        if bytes_eq(&v[i].hash, hash) {
            proof {
                assert(wrecs(v@)[i as int].0 == hash@);
            }
            return Some(i);
        }
        proof {
            assert(wrecs(v@)[i as int].0 != hash@);
        }
        i = i + 1;
    }
    None
}

/// Set the stored weight of a hash, creating its record on demand.
fn set_weight(v: &mut Vec<WeightEntry>, hash: &Vec<u8>, weight: u64)
    requires
        forall|a: int, b: int|
            0 <= a < b < wrecs(old(v)@).len() ==> (#[trigger] wrecs(old(v)@)[a]).0 != (
            #[trigger] wrecs(old(v)@)[b]).0,
    ensures
        forall|a: int, b: int|
            0 <= a < b < wrecs(final(v)@).len() ==> (#[trigger] wrecs(final(v)@)[a]).0 != (
            #[trigger] wrecs(final(v)@)[b]).0,
        fold_weights(Map::empty(), wrecs(final(v)@)) == fold_weights(
            Map::empty(),
            wrecs(old(v)@),
        ).insert(hash@, weight as int),
{
    let ghost s0 = wrecs(v@);
    match find_weight(v, hash) {
        Some(i) => {
            let mut e = v.remove(i);
            e.weight = weight;
            let ghost ev = e@;
            v.insert(i, e);
            proof {
                assert(wrecs(v@) =~= s0.update(i as int, ev));
                lemma_fold_weights_update(Map::empty(), s0, i as int, ev);
                assert forall|a: int, b: int|
                    0 <= a < b < wrecs(v@).len() implies (#[trigger] wrecs(v@)[a]).0 != (
                #[trigger] wrecs(v@)[b]).0 by {
                    assert(wrecs(v@)[a].0 == s0[a].0);
                    assert(wrecs(v@)[b].0 == s0[b].0);
                }
            }
        },
        None => {
            let e = WeightEntry { hash: slice_to_vec(hash.as_slice()), weight };
            let ghost ev = e@;
            v.push(e);
            proof {
                assert(wrecs(v@) =~= s0.push(ev));
                lemma_fold_weights_push(Map::empty(), s0, ev);
                assert forall|a: int, b: int|
                    0 <= a < b < wrecs(v@).len() implies (#[trigger] wrecs(v@)[a]).0 != (
                #[trigger] wrecs(v@)[b]).0 by {
                    if b < s0.len() {
                        assert(wrecs(v@)[a].0 == s0[a].0);
                        assert(wrecs(v@)[b].0 == s0[b].0);
                    } else {
                        assert(wrecs(v@)[b] == ev);
                        assert(wrecs(v@)[a].0 == s0[a].0);
                    }
                }
            }
        },
    }
}

/// The stored weight of a hash.
fn get_weight(v: &Vec<WeightEntry>, hash: &Vec<u8>) -> (r: Option<u64>)
    requires
        forall|a: int, b: int|
            0 <= a < b < wrecs(v@).len() ==> (#[trigger] wrecs(v@)[a]).0 != (
            #[trigger] wrecs(v@)[b]).0,
    ensures
        match r {
            Some(w) => fold_weights(Map::empty(), wrecs(v@)).contains_key(hash@) && fold_weights(
                Map::empty(),
                wrecs(v@),
            )[hash@] == w as int,
            None => !fold_weights(Map::empty(), wrecs(v@)).contains_key(hash@),
        },
{
    proof {
        lemma_fold_weights_chars(Map::empty(), wrecs(v@));
    }
    match find_weight(v, hash) {
        Some(i) => Some(v[i].weight),
        None => None,
    }
}

/// Find a library record.
fn find_lib(v: &Vec<LibInfo>, hash: &Vec<u8>, name: &String) -> (r: Option<usize>)
    ensures
        match r {
            Some(i) => i < v@.len() && lrecs(v@)[i as int] == (hash@, name@),
            None => forall|j: int| 0 <= j < v@.len() ==> #[trigger] lrecs(v@)[j] != (hash@, name@),
        },
{
    let n = v.len();
    let mut i: usize = 0;
    while i < n
        invariant
            i <= n,
            n == v@.len(),
            forall|j: int| 0 <= j < i ==> #[trigger] lrecs(v@)[j] != (hash@, name@),
        decreases n - i,
    {
        if bytes_eq(&v[i].hash, hash) && v[i].name.eq(name) {
            proof {
                assert(lrecs(v@)[i as int] == (hash@, name@));
            }
            return Some(i);
        }
        proof {
            assert(lrecs(v@)[i as int] != (hash@, name@));
        }
        i = i + 1;
    }
    None
}

/// One more observation of a (hash, package) pair: its counter,
/// saturating at the machine limit.
pub open spec fn spec_bump(m: Map<(Seq<u8>, Seq<char>), int>, k: (Seq<u8>, Seq<char>)) -> Map<
    (Seq<u8>, Seq<char>),
    int,
> {
    let c = if m.contains_key(k) {
        m[k]
    } else {
        0
    };
    m.insert(
        k,
        if c < u64::MAX {
            c + 1
        } else {
            c
        },
    )
}

/// One observation undone: the counter, never below zero; an absent
/// record stays absent.
pub open spec fn spec_unbump(m: Map<(Seq<u8>, Seq<char>), int>, k: (Seq<u8>, Seq<char>)) -> Map<
    (Seq<u8>, Seq<char>),
    int,
> {
    if m.contains_key(k) {
        m.insert(
            k,
            if m[k] > 0 {
                m[k] - 1
            } else {
                0
            },
        )
    } else {
        m
    }
}

/// The counters after recording each given package record once.
pub open spec fn spec_add_pkgs(
    m: Map<(Seq<u8>, Seq<char>), int>,
    infos: Seq<(Seq<u8>, Seq<char>, int)>,
) -> Map<(Seq<u8>, Seq<char>), int>
    decreases infos.len(),
{
    if infos.len() == 0 {
        m
    } else {
        spec_add_pkgs(spec_bump(m, ckey(infos.first())), infos.drop_first())
    }
}

/// The weights after setting each given record's hash to its
/// weight.
pub open spec fn spec_set_weights(m: Map<Seq<u8>, int>, infos: Seq<(Seq<u8>, Seq<char>, int)>) -> Map<
    Seq<u8>,
    int,
>
    decreases infos.len(),
{
    if infos.len() == 0 {
        m
    } else {
        spec_set_weights(m.insert(infos.first().0, infos.first().2), infos.drop_first())
    }
}

/// The counters after undoing each given package record once.
pub open spec fn spec_remove_pkgs(
    m: Map<(Seq<u8>, Seq<char>), int>,
    infos: Seq<(Seq<u8>, Seq<char>, int)>,
) -> Map<(Seq<u8>, Seq<char>), int>
    decreases infos.len(),
{
    if infos.len() == 0 {
        m
    } else {
        spec_remove_pkgs(spec_unbump(m, ckey(infos.first())), infos.drop_first())
    }
}

/// The stored weight of a hash, or zero where none is stored.
pub open spec fn weight_or_zero(w: Map<Seq<u8>, int>, h: Seq<u8>) -> int {
    if w.contains_key(h) {
        w[h]
    } else {
        0
    }
}

/// Whether the byte-vector list holds `h`.
fn contains_bytes(v: &Vec<Vec<u8>>, h: &Vec<u8>) -> (r: bool)
    ensures
        r == v.deep_view().contains(h@),
{
    let n = v.len();
    let mut i: usize = 0;
    while i < n
        invariant
            i <= n,
            n == v@.len(),
            forall|j: int| 0 <= j < i ==> v.deep_view()[j] != h@,
        decreases n - i,
    {
        proof {
            assert(v.deep_view()[i as int] == v@[i as int]@);
        }
        if bytes_eq(&v[i], h) {
            return true;
        }
        i = i + 1;
    }
    proof {
        if v.deep_view().contains(h@) {
            let j = choose|j: int| 0 <= j < v.deep_view().len() && v.deep_view()[j] == h@;
            assert(v.deep_view()[j] != h@);
        }
    }
    false
}

/// The in-memory signature database.
pub struct MemDB {
    db_pkgs: Vec<PkgEntry>,
    db_libs: Vec<LibInfo>,
    db_weight: Vec<WeightEntry>,
    api_set: Vec<String>,
    lib_set: Vec<String>,
}

impl MemDB {
    /// The stored occurrence records, in storage order.
    pub closed spec fn pkg_records(&self) -> Seq<(Seq<u8>, Seq<char>, int)> {
        precs(self.db_pkgs@)
    }

    /// The stored library records, in storage order.
    pub closed spec fn lib_records(&self) -> Seq<(Seq<u8>, Seq<char>)> {
        lrecs(self.db_libs@)
    }

    /// The stored weight records, in storage order.
    pub closed spec fn weight_records(&self) -> Seq<(Seq<u8>, int)> {
        wrecs(self.db_weight@)
    }

    /// The occurrence counter of every (hash, package) pair.
    pub open spec fn pkgs(&self) -> Map<(Seq<u8>, Seq<char>), int> {
        fold_counts(Map::empty(), self.pkg_records())
    }

    /// The registered (hash, library) associations.
    pub open spec fn libs(&self) -> Set<(Seq<u8>, Seq<char>)> {
        fold_libs(Set::empty(), self.lib_records())
    }

    /// The stored weight of every hash.
    pub open spec fn weights(&self) -> Map<Seq<u8>, int> {
        fold_weights(Map::empty(), self.weight_records())
    }

    /// The configured API surface.
    pub closed spec fn api_surface(&self) -> Seq<Seq<char>> {
        self.api_set.deep_view()
    }

    /// The configured library-name list.
    pub closed spec fn lib_names(&self) -> Seq<Seq<char>> {
        self.lib_set.deep_view()
    }

    /// Table keys are pairwise distinct.
    #[verifier::type_invariant]
    spec fn wf(self) -> bool {
        &&& forall|a: int, b: int|
            0 <= a < b < self.pkg_records().len() ==> ckey(#[trigger] self.pkg_records()[a])
                != ckey(#[trigger] self.pkg_records()[b])
        &&& forall|a: int, b: int|
            0 <= a < b < self.weight_records().len() ==> (#[trigger] self.weight_records()[a]).0
                != (#[trigger] self.weight_records()[b]).0
    }

    /// A fresh, empty database over the given API surface and
    /// library-name list.
    pub fn init(api_set: Vec<String>, lib_set: Vec<String>) -> (db: MemDB)
        ensures
            db.pkgs() == Map::<(Seq<u8>, Seq<char>), int>::empty(),
            db.libs() == Set::<(Seq<u8>, Seq<char>)>::empty(),
            db.weights() == Map::<Seq<u8>, int>::empty(),
            db.api_surface() == api_set.deep_view(),
            db.lib_names() == lib_set.deep_view(),
    {
        let db = MemDB {
            db_pkgs: Vec::new(),
            db_libs: Vec::new(),
            db_weight: Vec::new(),
            api_set,
            lib_set,
        };
        proof {
            assert(db.pkg_records() =~= Seq::<(Seq<u8>, Seq<char>, int)>::empty());
            assert(db.lib_records() =~= Seq::<(Seq<u8>, Seq<char>)>::empty());
            assert(db.weight_records() =~= Seq::<(Seq<u8>, int)>::empty());
        }
        db
    }

    /// The configured API surface.
    pub fn api_set(&self) -> (r: &Vec<String>)
        ensures
            r.deep_view() == self.api_surface(),
    {
        &self.api_set
    }

    /// The configured library-name list.
    pub fn lib_set(&self) -> (r: &Vec<String>)
        ensures
            r.deep_view() == self.lib_names(),
    {
        &self.lib_set
    }

    /// Record each given (hash, package) observation once more, and
    /// set each hash's stored weight.
    pub fn add_pkgs(&mut self, pkgs: &Vec<PkgInfo>)
        ensures
            final(self).pkgs() == spec_add_pkgs(old(self).pkgs(), pkgs.deep_view()),
            final(self).weights() == spec_set_weights(old(self).weights(), pkgs.deep_view()),
            final(self).libs() == old(self).libs(),
            final(self).api_surface() == old(self).api_surface(),
            final(self).lib_names() == old(self).lib_names(),
    {
        proof {
            use_type_invariant(&*self);
        }
        let ghost infos = pkgs.deep_view();
        let ghost target_c = spec_add_pkgs(old(self).pkgs(), infos);
        let ghost target_w = spec_set_weights(old(self).weights(), infos);
        let mut t_pkgs: Vec<PkgEntry> = Vec::new();
        let mut t_w: Vec<WeightEntry> = Vec::new();
        core::mem::swap(&mut self.db_pkgs, &mut t_pkgs);
        core::mem::swap(&mut self.db_weight, &mut t_w);
        proof {
            assert(infos.skip(0) =~= infos);
        }
        let n = pkgs.len();
        let mut i: usize = 0;
        while i < n
            invariant
                i <= n,
                n == pkgs@.len(),
                infos == pkgs.deep_view(),
                self.wf(),
                self.libs() == old(self).libs(),
                self.api_surface() == old(self).api_surface(),
                self.lib_names() == old(self).lib_names(),
                forall|a: int, b: int|
                    0 <= a < b < precs(t_pkgs@).len() ==> ckey(#[trigger] precs(t_pkgs@)[a])
                        != ckey(#[trigger] precs(t_pkgs@)[b]),
                forall|a: int, b: int|
                    0 <= a < b < wrecs(t_w@).len() ==> (#[trigger] wrecs(t_w@)[a]).0 != (
                    #[trigger] wrecs(t_w@)[b]).0,
                spec_add_pkgs(fold_counts(Map::empty(), precs(t_pkgs@)), infos.skip(i as int))
                    == target_c,
                spec_set_weights(fold_weights(Map::empty(), wrecs(t_w@)), infos.skip(i as int))
                    == target_w,
            decreases n - i,
        {
            proof {
                assert(infos.skip(i as int).first() == infos[i as int]);
                assert(infos.skip(i as int).drop_first() =~= infos.skip(i + 1));
            }
            let p = &pkgs[i];
            let cur = match get_pkg_count(&t_pkgs, &p.hash, &p.name) {
                Some(c) => c,
                None => 0,
            };
            let newc = if cur < u64::MAX {
                cur + 1
            } else {
                cur
            };
            set_pkg_count(&mut t_pkgs, &p.hash, &p.name, newc);
            set_weight(&mut t_w, &p.hash, p.weight);
            i = i + 1;
        }
        core::mem::swap(&mut self.db_pkgs, &mut t_pkgs);
        core::mem::swap(&mut self.db_weight, &mut t_w);
        proof {
            assert(infos.skip(n as int) =~= Seq::<(Seq<u8>, Seq<char>, int)>::empty());
        }
    }

    /// Undo each given (hash, package) observation once; counters
    /// never drop below zero, and absent records stay absent.
    pub fn remove_pkgs(&mut self, pkgs: &Vec<PkgInfo>)
        ensures
            final(self).pkgs() == spec_remove_pkgs(old(self).pkgs(), pkgs.deep_view()),
            final(self).weights() == old(self).weights(),
            final(self).libs() == old(self).libs(),
            final(self).api_surface() == old(self).api_surface(),
            final(self).lib_names() == old(self).lib_names(),
    {
        proof {
            use_type_invariant(&*self);
        }
        let ghost infos = pkgs.deep_view();
        let ghost target = spec_remove_pkgs(old(self).pkgs(), infos);
        let ghost w0 = old(self).weights();
        let mut t_pkgs: Vec<PkgEntry> = Vec::new();
        let mut t_w: Vec<WeightEntry> = Vec::new();
        core::mem::swap(&mut self.db_pkgs, &mut t_pkgs);
        core::mem::swap(&mut self.db_weight, &mut t_w);
        proof {
            assert(infos.skip(0) =~= infos);
        }
        let n = pkgs.len();
        let mut i: usize = 0;
        while i < n
            invariant
                i <= n,
                n == pkgs@.len(),
                infos == pkgs.deep_view(),
                self.wf(),
                self.libs() == old(self).libs(),
                self.api_surface() == old(self).api_surface(),
                self.lib_names() == old(self).lib_names(),
                t_w@ == old(self).db_weight@,
                forall|a: int, b: int|
                    0 <= a < b < wrecs(t_w@).len() ==> (#[trigger] wrecs(t_w@)[a]).0 != (
                    #[trigger] wrecs(t_w@)[b]).0,
                forall|a: int, b: int|
                    0 <= a < b < precs(t_pkgs@).len() ==> ckey(#[trigger] precs(t_pkgs@)[a])
                        != ckey(#[trigger] precs(t_pkgs@)[b]),
                spec_remove_pkgs(fold_counts(Map::empty(), precs(t_pkgs@)), infos.skip(i as int))
                    == target,
            decreases n - i,
        {
            proof {
                assert(infos.skip(i as int).first() == infos[i as int]);
                assert(infos.skip(i as int).drop_first() =~= infos.skip(i + 1));
            }
            let p = &pkgs[i];
            match get_pkg_count(&t_pkgs, &p.hash, &p.name) {
                Some(c) => {
                    let newc = if c > 0 {
                        c - 1
                    } else {
                        0
                    };
                    set_pkg_count(&mut t_pkgs, &p.hash, &p.name, newc);
                },
                None => {},
            }
            i = i + 1;
        }
        core::mem::swap(&mut self.db_pkgs, &mut t_pkgs);
        core::mem::swap(&mut self.db_weight, &mut t_w);
        proof {
            assert(infos.skip(n as int) =~= Seq::<(Seq<u8>, Seq<char>, int)>::empty());
        }
    }

    /// Register the given library associations; a pair registered
    /// twice is stored once.
    pub fn add_libs(&mut self, libs: &Vec<LibInfo>)
        ensures
            forall|p: (Seq<u8>, Seq<char>)| #[trigger]
                final(self).libs().contains(p) <==> (old(self).libs().contains(p)
                    || libs.deep_view().contains(p)),
            final(self).pkgs() == old(self).pkgs(),
            final(self).weights() == old(self).weights(),
            final(self).api_surface() == old(self).api_surface(),
            final(self).lib_names() == old(self).lib_names(),
    {
        proof {
            use_type_invariant(&*self);
        }
        let ghost infos = libs.deep_view();
        let ghost l0 = old(self).libs();
        let ghost m0 = old(self).pkgs();
        let ghost w0 = old(self).weights();
        let mut t_libs: Vec<LibInfo> = Vec::new();
        let mut t_pkgs: Vec<PkgEntry> = Vec::new();
        let mut t_w: Vec<WeightEntry> = Vec::new();
        core::mem::swap(&mut self.db_pkgs, &mut t_pkgs);
        core::mem::swap(&mut self.db_weight, &mut t_w);
        core::mem::swap(&mut self.db_libs, &mut t_libs);
        proof {
            assert(infos.take(0) =~= Seq::<(Seq<u8>, Seq<char>)>::empty());
        }
        let ghost r0 = lrecs(old(self).db_libs@);
        let n = libs.len();
        let mut i: usize = 0;
        while i < n
            invariant
                i <= n,
                n == libs@.len(),
                infos == libs.deep_view(),
                self.wf(),
                self.api_surface() == old(self).api_surface(),
                self.lib_names() == old(self).lib_names(),
                t_pkgs@ == old(self).db_pkgs@,
                t_w@ == old(self).db_weight@,
                r0 == lrecs(old(self).db_libs@),
                forall|a: int, b: int|
                    0 <= a < b < precs(t_pkgs@).len() ==> ckey(#[trigger] precs(t_pkgs@)[a])
                        != ckey(#[trigger] precs(t_pkgs@)[b]),
                forall|a: int, b: int|
                    0 <= a < b < wrecs(t_w@).len() ==> (#[trigger] wrecs(t_w@)[a]).0 != (
                    #[trigger] wrecs(t_w@)[b]).0,
                forall|p: (Seq<u8>, Seq<char>)| #[trigger]
                    lrecs(t_libs@).contains(p) <==> (r0.contains(p) || infos.take(
                        i as int,
                    ).contains(p)),
            decreases n - i,
        {
            let ghost s0 = lrecs(t_libs@);
            let l = &libs[i];
            proof {
                assert(infos[i as int] == (libs@[i as int].hash@, libs@[i as int].name@));
            }
            match find_lib(&t_libs, &l.hash, &l.name) {
                Some(j) => {
                    proof {
                        assert(s0.contains(infos[i as int])) by {
                            assert(s0[j as int] == infos[i as int]);
                        }
                    }
                },
                None => {
                    t_libs.push(LibInfo {
                        hash: slice_to_vec(l.hash.as_slice()),
                        name: l.name.clone(),
                    });
                    proof {
                        assert(lrecs(t_libs@) =~= s0.push(infos[i as int]));
                        assert forall|p: (Seq<u8>, Seq<char>)| #[trigger]
                            s0.push(infos[i as int]).contains(p) implies (s0.contains(p) || p
                            == infos[i as int]) by {
                            let j = choose|j: int|
                                0 <= j < s0.push(infos[i as int]).len() && (#[trigger] s0.push(
                                    infos[i as int],
                                )[j]) == p;
                            if j < s0.len() {
                                assert(s0[j] == p);
                            }
                        }
                        assert forall|p: (Seq<u8>, Seq<char>)|
                            s0.contains(p) implies #[trigger] s0.push(infos[i as int]).contains(
                            p,
                        ) by {
                            let j = choose|j: int|
                                0 <= j < s0.len() && (#[trigger] s0[j]) == p;
                            assert(s0.push(infos[i as int])[j] == p);
                        }
                        assert(s0.push(infos[i as int])[s0.len() as int] == infos[i as int]);
                        assert(s0.push(infos[i as int]).contains(infos[i as int]));
                    }
                },
            }
            proof {
                assert forall|p: (Seq<u8>, Seq<char>)| #[trigger]
                    lrecs(t_libs@).contains(p) <==> (r0.contains(p) || infos.take(
                    i + 1,
                ).contains(p)) by {
                    if infos.take(i + 1).contains(p) {
                        let j = choose|j: int|
                            0 <= j < infos.take(i + 1).len() && (#[trigger] infos.take(i + 1)[j])
                                == p;
                        if j < i {
                            assert(infos.take(i as int)[j] == p);
                            assert(infos.take(i as int).contains(p));
                        } else {
                            assert(p == infos[i as int]);
                        }
                    }
                    if infos.take(i as int).contains(p) {
                        let j = choose|j: int|
                            0 <= j < infos.take(i as int).len() && (#[trigger] infos.take(
                                i as int,
                            )[j]) == p;
                        assert(infos.take(i + 1)[j] == p);
                        assert(infos.take(i + 1).contains(p));
                    }
                    if p == infos[i as int] {
                        assert(infos.take(i + 1)[i as int] == p);
                        assert(infos.take(i + 1).contains(p));
                    }
                }
            }
            i = i + 1;
        }
        proof {
            lemma_fold_libs_chars(Set::empty(), lrecs(t_libs@));
            lemma_fold_libs_chars(Set::empty(), r0);
            assert(infos.take(n as int) =~= infos);
        }
        core::mem::swap(&mut self.db_pkgs, &mut t_pkgs);
        core::mem::swap(&mut self.db_weight, &mut t_w);
        core::mem::swap(&mut self.db_libs, &mut t_libs);
        proof {
            assert(infos.take(n as int) =~= infos);
        }
    }

    /// Every (hash, package) pair whose occurrence counter is at
    /// least `threshold`, each paired with its hash's stored weight;
    /// a hash without a stored weight reports weight zero.
    pub fn get_pkgs(&self, threshold: u64) -> (r: Vec<PkgInfo>)
        ensures
            forall|e: (Seq<u8>, Seq<char>, int)| #[trigger]
                r.deep_view().contains(e) <==> (self.pkgs().contains_key(ckey(e)) && self.pkgs()[
                    ckey(e)
                ] >= threshold && e.2 == weight_or_zero(self.weights(), e.0)),
            forall|a: int, b: int|
                0 <= a < b < r.deep_view().len() ==> ckey(#[trigger] r.deep_view()[a]) != ckey(
                    #[trigger] r.deep_view()[b],
                ),
    {
        proof {
            use_type_invariant(&*self);
            lemma_fold_counts_chars(Map::empty(), self.pkg_records());
            lemma_fold_weights_chars(Map::empty(), self.weight_records());
        }
        let ghost recs = self.pkg_records();
        let n = self.db_pkgs.len();
        let mut r: Vec<PkgInfo> = Vec::new();
        let ghost mut srcs = Seq::<int>::empty();
        let mut i: usize = 0;
        while i < n
            invariant
                i <= n,
                n == self.db_pkgs@.len(),
                self.wf(),
                recs == self.pkg_records(),
                srcs.len() == r.deep_view().len(),
                forall|a: int|
                    0 <= a < srcs.len() ==> 0 <= #[trigger] srcs[a] < i && recs[srcs[a]].2
                        >= threshold && r.deep_view()[a] == (
                        recs[srcs[a]].0,
                        recs[srcs[a]].1,
                        weight_or_zero(self.weights(), recs[srcs[a]].0),
                    ),
                forall|a: int, b: int| 0 <= a < b < srcs.len() ==> srcs[a] < srcs[b],
                forall|j: int|
                    0 <= j < i && (#[trigger] recs[j]).2 >= threshold ==> exists|a: int|
                        0 <= a < srcs.len() && #[trigger] srcs[a] == j,
            decreases n - i,
        {
            let e = &self.db_pkgs[i];
            proof {
                assert(recs[i as int] == (e.hash@, e.name@, e.count as int));
            }
            if e.count >= threshold {
                proof {
                    assert(forall|a: int, b: int|
                        0 <= a < b < wrecs(self.db_weight@).len() ==> (#[trigger] wrecs(
                            self.db_weight@,
                        )[a]).0 != (#[trigger] wrecs(self.db_weight@)[b]).0) by {
                        assert(self.weight_records() == wrecs(self.db_weight@));
                    }
                }
                let w = match get_weight(&self.db_weight, &e.hash) {
                    Some(w) => w,
                    None => 0,
                };
                let ghost d0 = r.deep_view();
                r.push(
                    PkgInfo { hash: slice_to_vec(e.hash.as_slice()), name: e.name.clone(), weight: w },
                );
                proof {
                    assert(w as int == weight_or_zero(self.weights(), e.hash@));
                    assert(r.deep_view() =~= d0.push((e.hash@, e.name@, w as int)));
                    let ghost s1 = srcs.push(i as int);
                    assert forall|a: int|
                        0 <= a < s1.len() implies 0 <= #[trigger] s1[a] < i + 1 && recs[s1[a]].2
                        >= threshold && r.deep_view()[a] == (
                        recs[s1[a]].0,
                        recs[s1[a]].1,
                        weight_or_zero(self.weights(), recs[s1[a]].0),
                    ) by {
                        if a < srcs.len() {
                            assert(s1[a] == srcs[a]);
                            assert(r.deep_view()[a] == d0[a]);
                        } else {
                            assert(s1[a] == i as int);
                            assert(r.deep_view()[a] == (e.hash@, e.name@, w as int));
                        }
                    }
                    assert forall|j: int|
                        0 <= j < i + 1 && (#[trigger] recs[j]).2 >= threshold implies exists|a: int|
                        0 <= a < s1.len() && #[trigger] s1[a] == j by {
                        if j < i {
                            let a = choose|a: int| 0 <= a < srcs.len() && #[trigger] srcs[a] == j;
                            assert(s1[a] == j);
                        } else {
                            assert(s1[srcs.len() as int] == j);
                        }
                    }
                    srcs = s1;
                }
            }
            i = i + 1;
        }
        proof {
            assert forall|e: (Seq<u8>, Seq<char>, int)| #[trigger]
                r.deep_view().contains(e) implies (self.pkgs().contains_key(ckey(e))
                && self.pkgs()[ckey(e)] >= threshold && e.2 == weight_or_zero(
                self.weights(),
                e.0,
            )) by {
                let a = choose|a: int|
                    0 <= a < r.deep_view().len() && (#[trigger] r.deep_view()[a]) == e;
                let j = srcs[a];
                assert(self.pkgs().contains_key(ckey(recs[j])));
                assert(self.pkgs()[ckey(recs[j])] == recs[j].2);
            }
            assert forall|e: (Seq<u8>, Seq<char>, int)|
                (self.pkgs().contains_key(ckey(e)) && self.pkgs()[ckey(e)] >= threshold && e.2
                    == weight_or_zero(self.weights(), e.0)) implies #[trigger] r.deep_view(
            ).contains(e) by {
                let j = choose|j: int| 0 <= j < recs.len() && ckey(#[trigger] recs[j]) == ckey(e);
                assert(self.pkgs()[ckey(recs[j])] == recs[j].2);
                assert(recs[j].2 >= threshold);
                let a = choose|a: int| 0 <= a < srcs.len() && #[trigger] srcs[a] == j;
                assert(r.deep_view()[a] == (recs[j].0, recs[j].1, weight_or_zero(
                    self.weights(),
                    recs[j].0,
                )));
                assert(r.deep_view()[a] == e);
            }
            assert forall|a: int, b: int|
                0 <= a < b < r.deep_view().len() implies ckey(#[trigger] r.deep_view()[a]) != ckey(
                #[trigger] r.deep_view()[b],
            ) by {
                assert(srcs[a] < srcs[b]);
                assert(ckey(recs[srcs[a]]) != ckey(recs[srcs[b]]));
            }
        }
        r
    }

    /// Every library association registered for one of the given
    /// hashes; hashes with no registration contribute nothing.
    pub fn match_libs(&self, hash_list: &Vec<Vec<u8>>) -> (r: Vec<LibInfo>)
        ensures
            forall|p: (Seq<u8>, Seq<char>)| #[trigger]
                r.deep_view().contains(p) <==> (hash_list.deep_view().contains(p.0)
                    && self.libs().contains(p)),
    {
        let ghost recs = lrecs(self.db_libs@);
        proof {
            lemma_fold_libs_chars(Set::empty(), recs);
            assert(recs.take(0) =~= Seq::<(Seq<u8>, Seq<char>)>::empty());
        }
        let n = self.db_libs.len();
        let mut r: Vec<LibInfo> = Vec::new();
        let mut i: usize = 0;
        while i < n
            invariant
                i <= n,
                n == self.db_libs@.len(),
                recs == lrecs(self.db_libs@),
                forall|p: (Seq<u8>, Seq<char>)| #[trigger]
                    r.deep_view().contains(p) <==> (recs.take(i as int).contains(p)
                        && hash_list.deep_view().contains(p.0)),
            decreases n - i,
        {
            let e = &self.db_libs[i];
            proof {
                assert(recs[i as int] == (e.hash@, e.name@));
            }
            if contains_bytes(hash_list, &e.hash) {
                let ghost d0 = r.deep_view();
                r.push(LibInfo { hash: slice_to_vec(e.hash.as_slice()), name: e.name.clone() });
                proof {
                    assert(r.deep_view() =~= d0.push((e.hash@, e.name@)));
                    assert forall|p: (Seq<u8>, Seq<char>)| #[trigger]
                        r.deep_view().contains(p) implies (d0.contains(p) || p == recs[i as int])
                        by {
                        let a = choose|a: int|
                            0 <= a < r.deep_view().len() && (#[trigger] r.deep_view()[a]) == p;
                        if a < d0.len() {
                            assert(d0[a] == p);
                        }
                    }
                    assert forall|p: (Seq<u8>, Seq<char>)|
                        d0.contains(p) implies #[trigger] r.deep_view().contains(p) by {
                        let a = choose|a: int| 0 <= a < d0.len() && (#[trigger] d0[a]) == p;
                        assert(r.deep_view()[a] == p);
                    }
                    assert(r.deep_view()[d0.len() as int] == recs[i as int]);
                    assert(r.deep_view().contains(recs[i as int]));
                }
            }
            proof {
                assert forall|p: (Seq<u8>, Seq<char>)| #[trigger]
                    r.deep_view().contains(p) <==> (recs.take(i + 1).contains(p)
                        && hash_list.deep_view().contains(p.0)) by {
                    if recs.take(i + 1).contains(p) {
                        let j = choose|j: int|
                            0 <= j < recs.take(i + 1).len() && (#[trigger] recs.take(i + 1)[j])
                                == p;
                        if j < i {
                            assert(recs.take(i as int)[j] == p);
                            assert(recs.take(i as int).contains(p));
                        } else {
                            assert(p == recs[i as int]);
                        }
                    }
                    if recs.take(i as int).contains(p) {
                        let j = choose|j: int|
                            0 <= j < recs.take(i as int).len() && (#[trigger] recs.take(
                                i as int,
                            )[j]) == p;
                        assert(recs.take(i + 1)[j] == p);
                        assert(recs.take(i + 1).contains(p));
                    }
                    if p == recs[i as int] {
                        assert(recs.take(i + 1)[i as int] == p);
                        assert(recs.take(i + 1).contains(p));
                    }
                }
            }
            i = i + 1;
        }
        proof {
            assert(recs.take(n as int) =~= recs);
        }
        r
    }

    /// Bulk-import records from a persisted dump; malformed lines
    /// are skipped.
    pub fn load(&mut self, dump: &DbDump)
        ensures
            final(self).pkgs() == spec_apply_pkg_lines(old(self).pkgs(), spec_lines(dump.pkgs@)),
            final(self).libs() == spec_apply_lib_lines(old(self).libs(), spec_lines(dump.libs@)),
            final(self).weights() == spec_apply_weight_lines(
                old(self).weights(),
                spec_lines(dump.weights@),
            ),
            final(self).api_surface() == old(self).api_surface(),
            final(self).lib_names() == old(self).lib_names(),
    {
        proof {
            use_type_invariant(&*self);
        }
        let ghost m0 = old(self).pkgs();
        let ghost w0 = old(self).weights();
        let ghost l0 = old(self).libs();
        let mut t_pkgs: Vec<PkgEntry> = Vec::new();
        let mut t_w: Vec<WeightEntry> = Vec::new();
        let mut t_libs: Vec<LibInfo> = Vec::new();
        core::mem::swap(&mut self.db_pkgs, &mut t_pkgs);
        core::mem::swap(&mut self.db_weight, &mut t_w);
        core::mem::swap(&mut self.db_libs, &mut t_libs);
        load_pkgs(&mut t_pkgs, dump.pkgs.as_str());
        load_libs(&mut t_libs, dump.libs.as_str());
        load_weights(&mut t_w, dump.weights.as_str());
        core::mem::swap(&mut self.db_pkgs, &mut t_pkgs);
        core::mem::swap(&mut self.db_weight, &mut t_w);
        core::mem::swap(&mut self.db_libs, &mut t_libs);
    }

    /// Export all records in the persisted form.
    pub fn dump(&self) -> (d: DbDump)
        ensures
            d.pkgs@ == spec_render_pkgs(self.pkg_records()),
            d.libs@ == spec_render_libs(self.lib_records()),
            d.weights@ == spec_render_weights(self.weight_records()),
    {
        DbDump {
            pkgs: render_pkgs(&self.db_pkgs),
            libs: render_libs(&self.db_libs),
            weights: render_weights(&self.db_weight),
        }
    }

    /// A memory database has nothing to warm up.
    pub fn preload(&mut self)
        ensures
            *final(self) == *old(self),
    {
    }
}

/// Appending a library record inserts it into the fold.
proof fn lemma_fold_libs_push(
    s: Set<(Seq<u8>, Seq<char>)>,
    recs: Seq<(Seq<u8>, Seq<char>)>,
    r: (Seq<u8>, Seq<char>),
)
    ensures
        fold_libs(s, recs.push(r)) == fold_libs(s, recs).insert(r),
    decreases recs.len(),
{
    if recs.len() == 0 {
        assert(recs.push(r).drop_first() =~= Seq::<(Seq<u8>, Seq<char>)>::empty());
        assert(recs.push(r).first() == r);
        assert(fold_libs(s.insert(r), Seq::<(Seq<u8>, Seq<char>)>::empty()) == s.insert(r));
    } else {
        assert(recs.push(r).drop_first() =~= recs.drop_first().push(r));
        assert(recs.push(r).first() == recs.first());
        let s1 = s.insert(recs.first());
        assert(fold_libs(s, recs.push(r)) == fold_libs(s1, recs.drop_first().push(r)));
        assert(fold_libs(s, recs) == fold_libs(s1, recs.drop_first()));
        lemma_fold_libs_push(s1, recs.drop_first(), r);
    }
}

/// Parse one packages-table line.
fn parse_pkg_line(l: &str) -> (r: Option<(Vec<u8>, String, u64)>)
    ensures
        match spec_parse_pkg_line(l@) {
            Some(p) => r.is_some() && r.unwrap().0@ == p.0 && r.unwrap().1@ == p.1 && r.unwrap().2
                as int == p.2,
            None => r.is_none(),
        },
{
    proof {
        lemma_find(l@, ' ');
    }
    let n = l.unicode_len();
    let i = match find_char(l, ' ') {
        Some(i) => i,
        None => {
            return None;
        },
    };
    let hexs = l.substring_char(0, i);
    proof {
        assert(hexs@ =~= l@.take(i as int));
    }
    let h = match hex_parse(hexs) {
        Some(h) => h,
        None => {
            return None;
        },
    };
    let rest = l.substring_char(i + 1, n);
    proof {
        assert(rest@ =~= l@.skip(i + 1));
        lemma_find(rest@, ' ');
    }
    let m = rest.unicode_len();
    let j = match find_char(rest, ' ') {
        Some(j) => j,
        None => {
            return None;
        },
    };
    let name = rest.substring_char(0, j);
    let counts = rest.substring_char(j + 1, m);
    proof {
        assert(name@ =~= rest@.take(j as int));
        assert(counts@ =~= rest@.skip(j + 1));
    }
    match dec_parse(counts) {
        Some(c) => Some((h, String::from_str(name), c)),
        None => None,
    }
}

/// Parse one libraries-table line.
fn parse_lib_line(l: &str) -> (r: Option<(Vec<u8>, String)>)
    ensures
        match spec_parse_lib_line(l@) {
            Some(p) => r.is_some() && r.unwrap().0@ == p.0 && r.unwrap().1@ == p.1,
            None => r.is_none(),
        },
{
    proof {
        lemma_find(l@, ' ');
    }
    let n = l.unicode_len();
    let i = match find_char(l, ' ') {
        Some(i) => i,
        None => {
            return None;
        },
    };
    let hexs = l.substring_char(0, i);
    proof {
        assert(hexs@ =~= l@.take(i as int));
    }
    let h = match hex_parse(hexs) {
        Some(h) => h,
        None => {
            return None;
        },
    };
    let name = l.substring_char(i + 1, n);
    proof {
        assert(name@ =~= l@.skip(i + 1));
    }
    Some((h, String::from_str(name)))
}

/// Parse one weights-table line.
fn parse_weight_line(l: &str) -> (r: Option<(Vec<u8>, u64)>)
    ensures
        match spec_parse_weight_line(l@) {
            Some(p) => r.is_some() && r.unwrap().0@ == p.0 && r.unwrap().1 as int == p.1,
            None => r.is_none(),
        },
{
    proof {
        lemma_find(l@, ' ');
    }
    let n = l.unicode_len();
    let i = match find_char(l, ' ') {
        Some(i) => i,
        None => {
            return None;
        },
    };
    let hexs = l.substring_char(0, i);
    proof {
        assert(hexs@ =~= l@.take(i as int));
    }
    let h = match hex_parse(hexs) {
        Some(h) => h,
        None => {
            return None;
        },
    };
    let weights = l.substring_char(i + 1, n);
    proof {
        assert(weights@ =~= l@.skip(i + 1));
    }
    match dec_parse(weights) {
        Some(w) => Some((h, w)),
        None => None,
    }
}

/// Import a packages table into the given store.
fn load_pkgs(v: &mut Vec<PkgEntry>, text: &str)
    requires
        forall|a: int, b: int|
            0 <= a < b < precs(old(v)@).len() ==> ckey(#[trigger] precs(old(v)@)[a]) != ckey(
                #[trigger] precs(old(v)@)[b],
            ),
    ensures
        forall|a: int, b: int|
            0 <= a < b < precs(final(v)@).len() ==> ckey(#[trigger] precs(final(v)@)[a]) != ckey(
                #[trigger] precs(final(v)@)[b],
            ),
        fold_counts(Map::empty(), precs(final(v)@)) == spec_apply_pkg_lines(
            fold_counts(Map::empty(), precs(old(v)@)),
            spec_lines(text@),
        ),
{
    let ghost target = spec_apply_pkg_lines(
        fold_counts(Map::empty(), precs(old(v)@)),
        spec_lines(text@),
    );
    let mut cur: &str = text;
    loop
        invariant
            forall|a: int, b: int|
                0 <= a < b < precs(v@).len() ==> ckey(#[trigger] precs(v@)[a]) != ckey(
                    #[trigger] precs(v@)[b],
                ),
            spec_apply_pkg_lines(fold_counts(Map::empty(), precs(v@)), spec_lines(cur@))
                == target,
        ensures
            forall|a: int, b: int|
                0 <= a < b < precs(v@).len() ==> ckey(#[trigger] precs(v@)[a]) != ckey(
                    #[trigger] precs(v@)[b],
                ),
            fold_counts(Map::empty(), precs(v@)) == target,
        decreases cur@.len(),
    {
        let n = cur.unicode_len();
        if n == 0 {
            break ;
        }
        proof {
            lemma_find(cur@, '\n');
        }
        match find_char(cur, '\n') {
            Some(i) => {
                let line = cur.substring_char(0, i);
                let rest = cur.substring_char(i + 1, n);
                proof {
                    assert(line@ =~= cur@.take(i as int));
                    assert(rest@ =~= cur@.skip(i + 1));
                    assert((seq![line@] + spec_lines(rest@)).first() == line@);
                    assert((seq![line@] + spec_lines(rest@)).drop_first() =~= spec_lines(rest@));
                }
                match parse_pkg_line(line) {
                    Some((h, nm, c)) => {
                        set_pkg_count(v, &h, &nm, c);
                    },
                    None => {},
                }
                cur = rest;
            },
            None => {
                match parse_pkg_line(cur) {
                    Some((h, nm, c)) => {
                        set_pkg_count(v, &h, &nm, c);
                    },
                    None => {},
                }
                proof {
                    assert(spec_lines(cur@) =~= seq![cur@]);
                    assert(spec_lines(cur@).drop_first() =~= Seq::<Seq<char>>::empty());
                }
                cur = cur.substring_char(n, n);
                proof {
                    assert(cur@ =~= Seq::<char>::empty());
                }
            },
        }
    }
}

/// Import a libraries table into the given store.
fn load_libs(v: &mut Vec<LibInfo>, text: &str)
    ensures
        fold_libs(Set::empty(), lrecs(final(v)@)) == spec_apply_lib_lines(
            fold_libs(Set::empty(), lrecs(old(v)@)),
            spec_lines(text@),
        ),
{
    let ghost target = spec_apply_lib_lines(
        fold_libs(Set::empty(), lrecs(old(v)@)),
        spec_lines(text@),
    );
    let mut cur: &str = text;
    loop
        invariant
            spec_apply_lib_lines(fold_libs(Set::empty(), lrecs(v@)), spec_lines(cur@)) == target,
        ensures
            fold_libs(Set::empty(), lrecs(v@)) == target,
        decreases cur@.len(),
    {
        let n = cur.unicode_len();
        if n == 0 {
            break ;
        }
        proof {
            lemma_find(cur@, '\n');
        }
        match find_char(cur, '\n') {
            Some(i) => {
                let line = cur.substring_char(0, i);
                let rest = cur.substring_char(i + 1, n);
                proof {
                    assert(line@ =~= cur@.take(i as int));
                    assert(rest@ =~= cur@.skip(i + 1));
                    assert((seq![line@] + spec_lines(rest@)).first() == line@);
                    assert((seq![line@] + spec_lines(rest@)).drop_first() =~= spec_lines(rest@));
                }
                apply_lib_line(v, line);
                cur = rest;
            },
            None => {
                apply_lib_line(v, cur);
                proof {
                    assert(spec_lines(cur@) =~= seq![cur@]);
                    assert(spec_lines(cur@).drop_first() =~= Seq::<Seq<char>>::empty());
                }
                cur = cur.substring_char(n, n);
                proof {
                    assert(cur@ =~= Seq::<char>::empty());
                }
            },
        }
    }
}

/// Apply one libraries-table line to the given store.
fn apply_lib_line(v: &mut Vec<LibInfo>, line: &str)
    ensures
        fold_libs(Set::empty(), lrecs(final(v)@)) == (match spec_parse_lib_line(line@) {
            Some(r) => fold_libs(Set::empty(), lrecs(old(v)@)).insert(r),
            None => fold_libs(Set::empty(), lrecs(old(v)@)),
        }),
{
    let ghost s0 = lrecs(v@);
    match parse_lib_line(line) {
        Some((h, nm)) => {
            match find_lib(v, &h, &nm) {
                Some(j) => {
                    proof {
                        lemma_fold_libs_chars(Set::empty(), s0);
                        assert(s0.contains((h@, nm@))) by {
                            assert(s0[j as int] == (h@, nm@));
                        }
                        assert(fold_libs(Set::empty(), s0).contains((h@, nm@)));
                        assert(fold_libs(Set::empty(), s0).insert((h@, nm@)) =~= fold_libs(
                            Set::empty(),
                            s0,
                        ));
                    }
                },
                None => {
                    v.push(LibInfo { hash: h, name: nm });
                    proof {
                        assert(lrecs(v@) =~= s0.push((h@, nm@)));
                        lemma_fold_libs_push(Set::empty(), s0, (h@, nm@));
                    }
                },
            }
        },
        None => {},
    }
}

/// Import a weights table into the given store.
fn load_weights(v: &mut Vec<WeightEntry>, text: &str)
    requires
        forall|a: int, b: int|
            0 <= a < b < wrecs(old(v)@).len() ==> (#[trigger] wrecs(old(v)@)[a]).0 != (
            #[trigger] wrecs(old(v)@)[b]).0,
    ensures
        forall|a: int, b: int|
            0 <= a < b < wrecs(final(v)@).len() ==> (#[trigger] wrecs(final(v)@)[a]).0 != (
            #[trigger] wrecs(final(v)@)[b]).0,
        fold_weights(Map::empty(), wrecs(final(v)@)) == spec_apply_weight_lines(
            fold_weights(Map::empty(), wrecs(old(v)@)),
            spec_lines(text@),
        ),
{
    let ghost target = spec_apply_weight_lines(
        fold_weights(Map::empty(), wrecs(old(v)@)),
        spec_lines(text@),
    );
    let mut cur: &str = text;
    loop
        invariant
            forall|a: int, b: int|
                0 <= a < b < wrecs(v@).len() ==> (#[trigger] wrecs(v@)[a]).0 != (
                #[trigger] wrecs(v@)[b]).0,
            spec_apply_weight_lines(fold_weights(Map::empty(), wrecs(v@)), spec_lines(cur@))
                == target,
        ensures
            forall|a: int, b: int|
                0 <= a < b < wrecs(v@).len() ==> (#[trigger] wrecs(v@)[a]).0 != (
                #[trigger] wrecs(v@)[b]).0,
            fold_weights(Map::empty(), wrecs(v@)) == target,
        decreases cur@.len(),
    {
        let n = cur.unicode_len();
        if n == 0 {
            break ;
        }
        proof {
            lemma_find(cur@, '\n');
        }
        match find_char(cur, '\n') {
            Some(i) => {
                let line = cur.substring_char(0, i);
                let rest = cur.substring_char(i + 1, n);
                proof {
                    assert(line@ =~= cur@.take(i as int));
                    assert(rest@ =~= cur@.skip(i + 1));
                    assert((seq![line@] + spec_lines(rest@)).first() == line@);
                    assert((seq![line@] + spec_lines(rest@)).drop_first() =~= spec_lines(rest@));
                }
                match parse_weight_line(line) {
                    Some((h, w)) => {
                        set_weight(v, &h, w);
                    },
                    None => {},
                }
                cur = rest;
            },
            None => {
                match parse_weight_line(cur) {
                    Some((h, w)) => {
                        set_weight(v, &h, w);
                    },
                    None => {},
                }
                proof {
                    assert(spec_lines(cur@) =~= seq![cur@]);
                    assert(spec_lines(cur@).drop_first() =~= Seq::<Seq<char>>::empty());
                }
                cur = cur.substring_char(n, n);
                proof {
                    assert(cur@ =~= Seq::<char>::empty());
                }
            },
        }
    }
}

/// Render the packages table.
fn render_pkgs(v: &Vec<PkgEntry>) -> (r: String)
    ensures
        r@ == spec_render_pkgs(precs(v@)),
{
    let ghost recs = precs(v@);
    let n = v.len();
    let mut r = String::new();
    let mut i: usize = 0;
    proof {
        assert(recs.skip(0) =~= recs);
    }
    while i < n
        invariant
            i <= n,
            n == v@.len(),
            recs == precs(v@),
            r@ + spec_render_pkgs(recs.skip(i as int)) == spec_render_pkgs(recs),
        decreases n - i,
    {
        proof {
            reveal_strlit(" ");
            reveal_strlit("\n");
            assert(recs.skip(i as int).first() == recs[i as int]);
            assert(recs.skip(i as int).drop_first() =~= recs.skip(i + 1));
        }
        let e = &v[i];
        let mut line = hex_encode(e.hash.as_slice());
        line.append(" ");
        line.append(e.name.as_str());
        line.append(" ");
        let counts = dec_render(e.count);
        line.append(counts.as_str());
        line.append("\n");
        proof {
            assert(recs[i as int] == (e.hash@, e.name@, e.count as int));
            assert(line@ =~= spec_render_pkg_entry(recs[i as int]) + seq!['\n']);
        }
        r.append(line.as_str());
        proof {
            assert(r@ + spec_render_pkgs(recs.skip(i + 1)) =~= spec_render_pkgs(recs));
        }
        i = i + 1;
    }
    proof {
        assert(recs.skip(n as int) =~= Seq::<(Seq<u8>, Seq<char>, int)>::empty());
        assert(r@ + Seq::<char>::empty() =~= r@);
    }
    r
}

/// Render the libraries table.
fn render_libs(v: &Vec<LibInfo>) -> (r: String)
    ensures
        r@ == spec_render_libs(lrecs(v@)),
{
    let ghost recs = lrecs(v@);
    let n = v.len();
    let mut r = String::new();
    let mut i: usize = 0;
    proof {
        assert(recs.skip(0) =~= recs);
    }
    while i < n
        invariant
            i <= n,
            n == v@.len(),
            recs == lrecs(v@),
            r@ + spec_render_libs(recs.skip(i as int)) == spec_render_libs(recs),
        decreases n - i,
    {
        proof {
            reveal_strlit(" ");
            reveal_strlit("\n");
            assert(recs.skip(i as int).first() == recs[i as int]);
            assert(recs.skip(i as int).drop_first() =~= recs.skip(i + 1));
        }
        let e = &v[i];
        let mut line = hex_encode(e.hash.as_slice());
        line.append(" ");
        line.append(e.name.as_str());
        line.append("\n");
        proof {
            assert(recs[i as int] == (e.hash@, e.name@));
            assert(line@ =~= spec_render_lib_entry(recs[i as int]) + seq!['\n']);
        }
        r.append(line.as_str());
        proof {
            assert(r@ + spec_render_libs(recs.skip(i + 1)) =~= spec_render_libs(recs));
        }
        i = i + 1;
    }
    proof {
        assert(recs.skip(n as int) =~= Seq::<(Seq<u8>, Seq<char>)>::empty());
        assert(r@ + Seq::<char>::empty() =~= r@);
    }
    r
}

/// Render the weights table.
fn render_weights(v: &Vec<WeightEntry>) -> (r: String)
    ensures
        r@ == spec_render_weights(wrecs(v@)),
{
    let ghost recs = wrecs(v@);
    let n = v.len();
    let mut r = String::new();
    let mut i: usize = 0;
    proof {
        assert(recs.skip(0) =~= recs);
    }
    while i < n
        invariant
            i <= n,
            n == v@.len(),
            recs == wrecs(v@),
            r@ + spec_render_weights(recs.skip(i as int)) == spec_render_weights(recs),
        decreases n - i,
    {
        proof {
            reveal_strlit(" ");
            reveal_strlit("\n");
            assert(recs.skip(i as int).first() == recs[i as int]);
            assert(recs.skip(i as int).drop_first() =~= recs.skip(i + 1));
        }
        let e = &v[i];
        let mut line = hex_encode(e.hash.as_slice());
        line.append(" ");
        let weights = dec_render(e.weight);
        line.append(weights.as_str());
        line.append("\n");
        proof {
            assert(recs[i as int] == (e.hash@, e.weight as int));
            assert(line@ =~= spec_render_weight_entry(recs[i as int]) + seq!['\n']);
        }
        r.append(line.as_str());
        proof {
            assert(r@ + spec_render_weights(recs.skip(i + 1)) =~= spec_render_weights(recs));
        }
        i = i + 1;
    }
    proof {
        assert(recs.skip(n as int) =~= Seq::<(Seq<u8>, int)>::empty());
        assert(r@ + Seq::<char>::empty() =~= r@);
    }
    r
}

/// No hex digit is a field or line separator.
proof fn lemma_hex_not_sep(b: Seq<u8>)
    ensures
        forall|i: int|
            0 <= i < spec_hex(b).len() ==> #[trigger] spec_hex(b)[i] != ' ' && spec_hex(b)[i]
                != '\n',
{
    crate::textfmt::lemma_hex_chars(b);
    assert forall|i: int|
        0 <= i < spec_hex(b).len() implies #[trigger] spec_hex(b)[i] != ' ' && spec_hex(b)[i]
        != '\n' by {
        assert(crate::textfmt::spec_is_hex_char(spec_hex(b)[i]));
    }
}

/// No decimal digit is a field or line separator.
proof fn lemma_dec_not_sep(n: int)
    requires
        n >= 0,
    ensures
        forall|i: int|
            0 <= i < spec_dec(n).len() ==> #[trigger] spec_dec(n)[i] != ' ' && spec_dec(n)[i]
                != '\n',
{
    crate::textfmt::lemma_dec_chars(n);
    assert forall|i: int|
        0 <= i < spec_dec(n).len() implies #[trigger] spec_dec(n)[i] != ' ' && spec_dec(n)[i]
        != '\n' by {
        assert(crate::textfmt::spec_is_dec_char(spec_dec(n)[i]));
    }
}

/// Splitting off the first newline-terminated line.
proof fn lemma_lines_cons(a: Seq<char>, rest: Seq<char>)
    requires
        forall|i: int| 0 <= i < a.len() ==> a[i] != '\n',
    ensures
        spec_lines(a + seq!['\n'] + rest) == seq![a] + spec_lines(rest),
{
    let s = a + seq!['\n'] + rest;
    assert(s[a.len() as int] == '\n');
    assert forall|j: int| 0 <= j < a.len() implies s[j] != '\n' by {
        assert(s[j] == a[j]);
    }
    crate::textfmt::lemma_find_at(s, '\n', a.len() as int);
    assert(s.take(a.len() as int) =~= a);
    assert(s.skip(a.len() as int + 1) =~= rest);
    assert(spec_lines(s) =~= seq![a] + spec_lines(rest));
}

/// A rendered packages-table entry parses back to its record.
proof fn lemma_parse_pkg_entry(r: (Seq<u8>, Seq<char>, int))
    requires
        forall|i: int| 0 <= i < r.1.len() ==> r.1[i] != ' ' && r.1[i] != '\n',
        0 <= r.2 <= u64::MAX,
    ensures
        spec_parse_pkg_line(spec_render_pkg_entry(r)) == Some(r),
        forall|i: int|
            0 <= i < spec_render_pkg_entry(r).len() ==> #[trigger] spec_render_pkg_entry(r)[i]
                != '\n',
{
    let h = spec_hex(r.0);
    let d = spec_dec(r.2);
    let e = spec_render_pkg_entry(r);
    lemma_hex_not_sep(r.0);
    lemma_dec_not_sep(r.2);
    assert(e[h.len() as int] == ' ');
    assert forall|j: int| 0 <= j < h.len() implies e[j] != ' ' by {
        assert(e[j] == h[j]);
    }
    crate::textfmt::lemma_find_at(e, ' ', h.len() as int);
    assert(e.take(h.len() as int) =~= h);
    crate::textfmt::lemma_hex_roundtrip(r.0);
    let rest = e.skip(h.len() as int + 1);
    assert(rest =~= r.1 + seq![' '] + d);
    assert(rest[r.1.len() as int] == ' ');
    assert forall|j: int| 0 <= j < r.1.len() implies rest[j] != ' ' by {
        assert(rest[j] == r.1[j]);
    }
    crate::textfmt::lemma_find_at(rest, ' ', r.1.len() as int);
    assert(rest.take(r.1.len() as int) =~= r.1);
    assert(rest.skip(r.1.len() as int + 1) =~= d);
    crate::textfmt::lemma_dec_roundtrip(r.2);
    assert(spec_parse_pkg_line(e) == Some(r));
    assert forall|i: int| 0 <= i < e.len() implies #[trigger] e[i] != '\n' by {
        if i < h.len() {
            assert(e[i] == h[i]);
        } else if i == h.len() {
        } else if i < h.len() + 1 + r.1.len() {
            assert(e[i] == r.1[i - h.len() - 1]);
        } else if i == h.len() + 1 + r.1.len() {
        } else {
            assert(e[i] == d[i - (h.len() + 1 + r.1.len() + 1)]);
        }
    }
}

/// A rendered libraries-table entry parses back to its record.
proof fn lemma_parse_lib_entry(r: (Seq<u8>, Seq<char>))
    requires
        forall|i: int| 0 <= i < r.1.len() ==> r.1[i] != ' ' && r.1[i] != '\n',
    ensures
        spec_parse_lib_line(spec_render_lib_entry(r)) == Some(r),
        forall|i: int|
            0 <= i < spec_render_lib_entry(r).len() ==> #[trigger] spec_render_lib_entry(r)[i]
                != '\n',
{
    let h = spec_hex(r.0);
    let e = spec_render_lib_entry(r);
    lemma_hex_not_sep(r.0);
    assert(e[h.len() as int] == ' ');
    assert forall|j: int| 0 <= j < h.len() implies e[j] != ' ' by {
        assert(e[j] == h[j]);
    }
    crate::textfmt::lemma_find_at(e, ' ', h.len() as int);
    assert(e.take(h.len() as int) =~= h);
    crate::textfmt::lemma_hex_roundtrip(r.0);
    assert(e.skip(h.len() as int + 1) =~= r.1);
    assert(spec_parse_lib_line(e) == Some(r));
    assert forall|i: int| 0 <= i < e.len() implies #[trigger] e[i] != '\n' by {
        if i < h.len() {
            assert(e[i] == h[i]);
        } else if i == h.len() {
        } else {
            assert(e[i] == r.1[i - h.len() - 1]);
        }
    }
}

/// A rendered weights-table entry parses back to its record.
proof fn lemma_parse_weight_entry(r: (Seq<u8>, int))
    requires
        0 <= r.1 <= u64::MAX,
    ensures
        spec_parse_weight_line(spec_render_weight_entry(r)) == Some(r),
        forall|i: int|
            0 <= i < spec_render_weight_entry(r).len() ==> #[trigger] spec_render_weight_entry(
                r,
            )[i] != '\n',
{
    let h = spec_hex(r.0);
    let d = spec_dec(r.1);
    let e = spec_render_weight_entry(r);
    lemma_hex_not_sep(r.0);
    lemma_dec_not_sep(r.1);
    assert(e[h.len() as int] == ' ');
    assert forall|j: int| 0 <= j < h.len() implies e[j] != ' ' by {
        assert(e[j] == h[j]);
    }
    crate::textfmt::lemma_find_at(e, ' ', h.len() as int);
    assert(e.take(h.len() as int) =~= h);
    crate::textfmt::lemma_hex_roundtrip(r.0);
    assert(e.skip(h.len() as int + 1) =~= d);
    crate::textfmt::lemma_dec_roundtrip(r.1);
    assert(spec_parse_weight_line(e) == Some(r));
    assert forall|i: int| 0 <= i < e.len() implies #[trigger] e[i] != '\n' by {
        if i < h.len() {
            assert(e[i] == h[i]);
        } else if i == h.len() {
        } else {
            assert(e[i] == d[i - h.len() - 1]);
        }
    }
}

/// A name a dump can carry: no field separator, no line terminator.
pub open spec fn dumpable_name(n: Seq<char>) -> bool {
    forall|i: int| 0 <= i < n.len() ==> n[i] != ' ' && n[i] != '\n'
}

/// Importing a dumped packages table replays exactly the dumped
/// records: dump followed by load reproduces the packages map.
pub proof fn lemma_pkgs_round_trip(m: Map<(Seq<u8>, Seq<char>), int>, recs: Seq<(Seq<u8>, Seq<char>, int)>)
    requires
        forall|i: int| 0 <= i < recs.len() ==> dumpable_name((#[trigger] recs[i]).1),
        forall|i: int| 0 <= i < recs.len() ==> 0 <= (#[trigger] recs[i]).2 <= u64::MAX,
    ensures
        spec_apply_pkg_lines(m, spec_lines(spec_render_pkgs(recs))) == fold_counts(m, recs),
    decreases recs.len(),
{
    if recs.len() == 0 {
        assert(spec_lines(spec_render_pkgs(recs)) =~= Seq::<Seq<char>>::empty());
    } else {
        let r0 = recs.first();
        assert(recs[0] == r0);
        let e0 = spec_render_pkg_entry(r0);
        lemma_parse_pkg_entry(r0);
        lemma_lines_cons(e0, spec_render_pkgs(recs.drop_first()));
        assert(spec_render_pkgs(recs) =~= e0 + seq!['\n'] + spec_render_pkgs(recs.drop_first()));
        let lines = spec_lines(spec_render_pkgs(recs));
        assert(lines == seq![e0] + spec_lines(spec_render_pkgs(recs.drop_first())));
        assert(lines.first() == e0);
        assert(lines.drop_first() =~= spec_lines(spec_render_pkgs(recs.drop_first())));
        let m1 = m.insert(ckey(r0), r0.2);
        assert(spec_apply_pkg_lines(m, lines) == spec_apply_pkg_lines(
            m1,
            spec_lines(spec_render_pkgs(recs.drop_first())),
        ));
        assert(forall|i: int|
            0 <= i < recs.drop_first().len() ==> (#[trigger] recs.drop_first()[i]) == recs[i + 1]);
        lemma_pkgs_round_trip(m1, recs.drop_first());
    }
}

/// Importing a dumped libraries table replays exactly the dumped
/// records: dump followed by load reproduces the association set.
pub proof fn lemma_libs_round_trip(s: Set<(Seq<u8>, Seq<char>)>, recs: Seq<(Seq<u8>, Seq<char>)>)
    requires
        forall|i: int| 0 <= i < recs.len() ==> dumpable_name((#[trigger] recs[i]).1),
    ensures
        spec_apply_lib_lines(s, spec_lines(spec_render_libs(recs))) == fold_libs(s, recs),
    decreases recs.len(),
{
    if recs.len() == 0 {
        assert(spec_lines(spec_render_libs(recs)) =~= Seq::<Seq<char>>::empty());
    } else {
        let r0 = recs.first();
        assert(recs[0] == r0);
        let e0 = spec_render_lib_entry(r0);
        lemma_parse_lib_entry(r0);
        lemma_lines_cons(e0, spec_render_libs(recs.drop_first()));
        assert(spec_render_libs(recs) =~= e0 + seq!['\n'] + spec_render_libs(recs.drop_first()));
        let lines = spec_lines(spec_render_libs(recs));
        assert(lines == seq![e0] + spec_lines(spec_render_libs(recs.drop_first())));
        assert(lines.first() == e0);
        assert(lines.drop_first() =~= spec_lines(spec_render_libs(recs.drop_first())));
        let s1 = s.insert(r0);
        assert(spec_apply_lib_lines(s, lines) == spec_apply_lib_lines(
            s1,
            spec_lines(spec_render_libs(recs.drop_first())),
        ));
        assert(forall|i: int|
            0 <= i < recs.drop_first().len() ==> (#[trigger] recs.drop_first()[i]) == recs[i + 1]);
        lemma_libs_round_trip(s1, recs.drop_first());
    }
}

/// Importing a dumped weights table replays exactly the dumped
/// records: dump followed by load reproduces the weights map.
pub proof fn lemma_weights_round_trip(m: Map<Seq<u8>, int>, recs: Seq<(Seq<u8>, int)>)
    requires
        forall|i: int| 0 <= i < recs.len() ==> 0 <= (#[trigger] recs[i]).1 <= u64::MAX,
    ensures
        spec_apply_weight_lines(m, spec_lines(spec_render_weights(recs))) == fold_weights(m, recs),
    decreases recs.len(),
{
    if recs.len() == 0 {
        assert(spec_lines(spec_render_weights(recs)) =~= Seq::<Seq<char>>::empty());
    } else {
        let r0 = recs.first();
        assert(recs[0] == r0);
        let e0 = spec_render_weight_entry(r0);
        lemma_parse_weight_entry(r0);
        lemma_lines_cons(e0, spec_render_weights(recs.drop_first()));
        assert(spec_render_weights(recs) =~= e0 + seq!['\n'] + spec_render_weights(
            recs.drop_first(),
        ));
        let lines = spec_lines(spec_render_weights(recs));
        assert(lines == seq![e0] + spec_lines(spec_render_weights(recs.drop_first())));
        assert(lines.first() == e0);
        assert(lines.drop_first() =~= spec_lines(spec_render_weights(recs.drop_first())));
        let m1 = m.insert(r0.0, r0.1);
        assert(spec_apply_weight_lines(m, lines) == spec_apply_weight_lines(
            m1,
            spec_lines(spec_render_weights(recs.drop_first())),
        ));
        assert(forall|i: int|
            0 <= i < recs.drop_first().len() ==> (#[trigger] recs.drop_first()[i]) == recs[i + 1]);
        lemma_weights_round_trip(m1, recs.drop_first());
    }
}

/// Round trip: a database's dump, loaded into a fresh database,
/// reproduces an identical set of package, library and weight
/// records, provided every dumped name is free of field and line
/// separators.
pub proof fn lemma_dump_load_round_trip(
    pkg_recs: Seq<(Seq<u8>, Seq<char>, int)>,
    lib_recs: Seq<(Seq<u8>, Seq<char>)>,
    weight_recs: Seq<(Seq<u8>, int)>,
)
    requires
        forall|i: int| 0 <= i < pkg_recs.len() ==> dumpable_name((#[trigger] pkg_recs[i]).1),
        forall|i: int| 0 <= i < pkg_recs.len() ==> 0 <= (#[trigger] pkg_recs[i]).2 <= u64::MAX,
        forall|i: int| 0 <= i < lib_recs.len() ==> dumpable_name((#[trigger] lib_recs[i]).1),
        forall|i: int| 0 <= i < weight_recs.len() ==> 0 <= (#[trigger] weight_recs[i]).1
            <= u64::MAX,
    ensures
        spec_apply_pkg_lines(Map::empty(), spec_lines(spec_render_pkgs(pkg_recs))) == fold_counts(
            Map::empty(),
            pkg_recs,
        ),
        spec_apply_lib_lines(Set::empty(), spec_lines(spec_render_libs(lib_recs))) == fold_libs(
            Set::empty(),
            lib_recs,
        ),
        spec_apply_weight_lines(Map::empty(), spec_lines(spec_render_weights(weight_recs)))
            == fold_weights(Map::empty(), weight_recs),
{
    lemma_pkgs_round_trip(Map::empty(), pkg_recs);
    lemma_libs_round_trip(Set::empty(), lib_recs);
    lemma_weights_round_trip(Map::empty(), weight_recs);
}

impl DexDB for MemDB {
    fn add_pkgs(&mut self, pkgs: Vec<PkgInfo>) {
        MemDB::add_pkgs(self, &pkgs);
    }

    fn add_libs(&mut self, libs: Vec<LibInfo>) {
        MemDB::add_libs(self, &libs);
    }

    fn remove_pkgs(&mut self, pkgs: Vec<PkgInfo>) {
        MemDB::remove_pkgs(self, &pkgs);
    }

    fn get_pkgs(&mut self, threshold: u64) -> Vec<PkgInfo> {
        MemDB::get_pkgs(self, threshold)
    }

    fn match_libs(&mut self, hash_list: Vec<Vec<u8>>) -> Vec<LibInfo> {
        MemDB::match_libs(self, &hash_list)
    }

    fn load(&mut self, dump: &DbDump) {
        MemDB::load(self, dump);
    }

    fn preload(&mut self) {
        MemDB::preload(self);
    }

    fn dump(&mut self) -> DbDump {
        MemDB::dump(self)
    }
}

} // verus!
