//! Text encodings used by the signature database's persisted form:
//! lower-case hex for content hashes, decimal for counters, and the
//! character search that line and field splitting rests on.

use vstd::prelude::*;

verus! {

/// The lower-case hex digit of a value below 16.
pub open spec fn spec_hex_digit(d: int) -> char {
    if d == 0 {
        '0'
    } else if d == 1 {
        '1'
    } else if d == 2 {
        '2'
    } else if d == 3 {
        '3'
    } else if d == 4 {
        '4'
    } else if d == 5 {
        '5'
    } else if d == 6 {
        '6'
    } else if d == 7 {
        '7'
    } else if d == 8 {
        '8'
    } else if d == 9 {
        '9'
    } else if d == 10 {
        'a'
    } else if d == 11 {
        'b'
    } else if d == 12 {
        'c'
    } else if d == 13 {
        'd'
    } else if d == 14 {
        'e'
    } else {
        'f'
    }
}

/// Whether `c` is a lower-case hex digit.
pub open spec fn spec_is_hex_char(c: char) -> bool {
    (48 <= c as u32 && c as u32 <= 57) || (97 <= c as u32 && c as u32 <= 102)
}

/// The value of a lower-case hex digit.
pub open spec fn spec_hex_val(c: char) -> int {
    if 48 <= c as u32 && c as u32 <= 57 {
        c as u32 - 48
    } else {
        c as u32 - 87
    }
}

/// The lower-case hex rendering of a byte sequence: two digits per
/// byte, high digit first.
pub open spec fn spec_hex(b: Seq<u8>) -> Seq<char>
    decreases b.len(),
{
    if b.len() == 0 {
        Seq::empty()
    } else {
        spec_hex(b.drop_last()) + seq![
            spec_hex_digit(b.last() as int / 16),
            spec_hex_digit(b.last() as int % 16),
        ]
    }
}

/// The byte sequence a hex string denotes, or `None` where the
/// string is odd-length or holds a character that is no lower-case
/// hex digit.
pub open spec fn spec_hex_parse(s: Seq<char>) -> Option<Seq<u8>>
    decreases s.len(),
{
    if s.len() == 0 {
        Some(Seq::empty())
    } else if s.len() == 1 {
        None
    } else {
        let hi = s[s.len() - 2];
        let lo = s[s.len() - 1];
        if spec_is_hex_char(hi) && spec_is_hex_char(lo) {
            match spec_hex_parse(s.subrange(0, s.len() - 2)) {
                Some(rest) => Some(rest.push((spec_hex_val(hi) * 16 + spec_hex_val(lo)) as u8)),
                None => None,
            }
        } else {
            None
        }
    }
}

/// A hex rendering is twice as long as its bytes.
pub proof fn lemma_hex_len(b: Seq<u8>)
    ensures
        spec_hex(b).len() == 2 * b.len(),
    decreases b.len(),
{
    if b.len() > 0 {
        lemma_hex_len(b.drop_last());
    }
}

/// Every character of a hex rendering is a lower-case hex digit.
pub proof fn lemma_hex_chars(b: Seq<u8>)
    ensures
        forall|i: int|
            0 <= i < spec_hex(b).len() ==> #[trigger] spec_is_hex_char(spec_hex(b)[i]),
    decreases b.len(),
{
    if b.len() > 0 {
        lemma_hex_chars(b.drop_last());
        lemma_hex_len(b.drop_last());
    }
}

/// Parsing a hex rendering gives the bytes back.
pub proof fn lemma_hex_roundtrip(b: Seq<u8>)
    ensures
        spec_hex_parse(spec_hex(b)) == Some(b),
    decreases b.len(),
{
    if b.len() == 0 {
        assert(spec_hex_parse(spec_hex(b)) == Some(b));
    } else {
        lemma_hex_roundtrip(b.drop_last());
        lemma_hex_len(b.drop_last());
        let s = spec_hex(b);
        assert(s.subrange(0, s.len() - 2) =~= spec_hex(b.drop_last()));
        assert(b.drop_last().push(b.last()) =~= b);
    }
}

/// Render a byte sequence in lower-case hex.
pub fn hex_encode(data: &[u8]) -> (r: String)
    ensures
        r@ == spec_hex(data@),
{
    let n = data.len();
    let mut r = String::new();
    let mut i: usize = 0;
    while i < n
        invariant
            i <= n,
            n == data@.len(),
            r@ == spec_hex(data@.take(i as int)),
        decreases n - i,
    {
        let b = data[i];
        r.append(hex_digit_str(b / 16));
        r.append(hex_digit_str(b % 16));
        proof {
            assert(data@.take(i + 1).drop_last() =~= data@.take(i as int));
            assert(data@.take(i + 1).last() == data@[i as int]);
            assert(r@ =~= spec_hex(data@.take(i + 1)));
        }
        i = i + 1;
    }
    proof {
        assert(data@.take(n as int) =~= data@);
    }
    r
}

/// The one-character string of a hex digit.
fn hex_digit_str(d: u8) -> (r: &'static str)
    requires
        d < 16,
    ensures
        r@ == seq![spec_hex_digit(d as int)],
{
    proof {
        reveal_strlit("0");
        reveal_strlit("1");
        reveal_strlit("2");
        reveal_strlit("3");
        reveal_strlit("4");
        reveal_strlit("5");
        reveal_strlit("6");
        reveal_strlit("7");
        reveal_strlit("8");
        reveal_strlit("9");
        reveal_strlit("a");
        reveal_strlit("b");
        reveal_strlit("c");
        reveal_strlit("d");
        reveal_strlit("e");
        reveal_strlit("f");
    }
    let r: &'static str = match d {
        0 => "0",
        1 => "1",
        2 => "2",
        3 => "3",
        4 => "4",
        5 => "5",
        6 => "6",
        7 => "7",
        8 => "8",
        9 => "9",
        10 => "a",
        11 => "b",
        12 => "c",
        13 => "d",
        14 => "e",
        _ => "f",
    };
    proof {
        assert(r@ =~= seq![spec_hex_digit(d as int)]);
    }
    r
}

/// An invalid character anywhere makes a hex string unparsable.
proof fn lemma_hex_parse_bad_char(s: Seq<char>, i: int)
    requires
        0 <= i < s.len(),
        !spec_is_hex_char(s[i]),
    ensures
        spec_hex_parse(s) == None::<Seq<u8>>,
    decreases s.len(),
{
    if s.len() == 1 {
    } else if s.len() >= 2 {
        if i < s.len() - 2 {
            lemma_hex_parse_bad_char(s.subrange(0, s.len() - 2), i);
        }
    }
}

/// An odd-length hex string is unparsable.
proof fn lemma_hex_parse_odd(s: Seq<char>)
    requires
        s.len() % 2 == 1,
    ensures
        spec_hex_parse(s) == None::<Seq<u8>>,
    decreases s.len(),
{
    if s.len() >= 2 {
        lemma_hex_parse_odd(s.subrange(0, s.len() - 2));
    }
}

/// Parse a lower-case hex string into its bytes.
pub fn hex_parse(s: &str) -> (r: Option<Vec<u8>>)
    ensures
        match spec_hex_parse(s@) {
            Some(b) => r.is_some() && r.unwrap()@ == b,
            None => r.is_none(),
        },
{
    let n = s.unicode_len();
    if n % 2 == 1 {
        proof {
            lemma_hex_parse_odd(s@);
        }
        return None;
    }
    let mut v: Vec<u8> = Vec::new();
    let mut i: usize = 0;
    while i < n
        invariant
            i <= n,
            i % 2 == 0,
            n % 2 == 0,
            n == s@.len(),
            spec_hex_parse(s@.take(i as int)) == Some(v@),
        decreases n - i,
    {
        let hi = s.get_char(i);
        let lo = s.get_char(i + 1);
        let hv = match hex_char_val(hi) {
            Some(x) => x,
            None => {
                proof {
                    lemma_hex_parse_bad_char(s@, i as int);
                }
                return None;
            },
        };
        let lv = match hex_char_val(lo) {
            Some(x) => x,
            None => {
                proof {
                    lemma_hex_parse_bad_char(s@, i + 1);
                }
                return None;
            },
        };
        v.push(hv * 16 + lv);
        proof {
            let t = s@.take(i + 2);
            assert(t.subrange(0, t.len() - 2) =~= s@.take(i as int));
            assert(t[t.len() - 2] == s@[i as int]);
            assert(t[t.len() - 1] == s@[i + 1]);
            assert(spec_hex_parse(s@.take(i + 2)) == Some(v@));
        }
        i = i + 2;
    }
    proof {
        assert(s@.take(n as int) =~= s@);
    }
    Some(v)
}

/// The value of a lower-case hex digit character.
fn hex_char_val(c: char) -> (r: Option<u8>)
    ensures
        r.is_some() == spec_is_hex_char(c),
        r.is_some() ==> r.unwrap() == spec_hex_val(c) && r.unwrap() < 16,
{
    let v = c as u32;
    if 48 <= v && v <= 57 {
        Some((v - 48) as u8)
    } else if 97 <= v && v <= 102 {
        Some((v - 87) as u8)
    } else {
        None
    }
}

/// The decimal rendering of a non-negative value, most significant
/// digit first, without leading zeros.
pub open spec fn spec_dec(n: int) -> Seq<char>
    decreases n,
{
    if n < 10 {
        seq![spec_hex_digit(if n < 0 { 0 } else { n })]
    } else {
        spec_dec(n / 10) + seq![spec_hex_digit(n % 10)]
    }
}

/// Whether `c` is a decimal digit.
pub open spec fn spec_is_dec_char(c: char) -> bool {
    48 <= c as u32 && c as u32 <= 57
}

/// The value a decimal string denotes, or `None` where it is empty
/// or holds a character that is no decimal digit.
pub open spec fn spec_dec_parse(s: Seq<char>) -> Option<int>
    decreases s.len(),
{
    if s.len() == 0 {
        None
    } else if !spec_is_dec_char(s.last()) {
        None
    } else if s.len() == 1 {
        Some(spec_hex_val(s.last()))
    } else {
        match spec_dec_parse(s.drop_last()) {
            Some(hi) => Some(hi * 10 + spec_hex_val(s.last())),
            None => None,
        }
    }
}

/// `spec_dec_parse`, restricted to values that fit a `u64`.
pub open spec fn spec_dec_parse_u64(s: Seq<char>) -> Option<u64> {
    match spec_dec_parse(s) {
        Some(v) => if 0 <= v <= u64::MAX {
            Some(v as u64)
        } else {
            None
        },
        None => None,
    }
}

/// Every character of a decimal rendering is a decimal digit.
pub proof fn lemma_dec_chars(n: int)
    requires
        n >= 0,
    ensures
        forall|i: int|
            0 <= i < spec_dec(n).len() ==> #[trigger] spec_is_dec_char(spec_dec(n)[i]),
    decreases n,
{
    let s = spec_dec(n);
    if n < 10 {
        assert(spec_is_dec_char(s[0]));
    } else {
        lemma_dec_chars(n / 10);
        assert forall|i: int| 0 <= i < s.len() implies #[trigger] spec_is_dec_char(s[i]) by {
            if i < s.len() - 1 {
                assert(s[i] == spec_dec(n / 10)[i]);
            } else {
                assert(s[i] == spec_hex_digit(n % 10));
            }
        }
    }
}

/// Parsing a decimal rendering gives the value back.
pub proof fn lemma_dec_roundtrip(n: int)
    requires
        n >= 0,
    ensures
        spec_dec_parse(spec_dec(n)) == Some(n),
    decreases n,
{
    if n < 10 {
    } else {
        lemma_dec_roundtrip(n / 10);
        let s = spec_dec(n);
        assert(s.drop_last() =~= spec_dec(n / 10));
    }
}

/// Render a value in decimal.
pub fn dec_render(n: u64) -> (r: String)
    ensures
        r@ == spec_dec(n as int),
    decreases n,
{
    if n < 10 {
        let r = String::from_str(hex_digit_str((n % 16) as u8));
        proof {
            assert(n % 16 == n as int) by (nonlinear_arith)
                requires
                    n < 10,
            ;
        }
        r
    } else {
        let mut r = dec_render(n / 10);
        r.append(hex_digit_str((n % 10) as u8));
        r
    }
}

/// Parse a decimal string into a `u64`; a value past `u64::MAX` is
/// rejected like a malformed string.
pub fn dec_parse(s: &str) -> (r: Option<u64>)
    ensures
        r == spec_dec_parse_u64(s@),
    decreases s@.len(),
{
    let n = s.unicode_len();
    if n == 0 {
        return None;
    }
    let c = s.get_char(n - 1);
    let d = match dec_char_val(c) {
        Some(x) => x,
        None => {
            return None;
        },
    };
    if n == 1 {
        return Some(d as u64);
    }
    let rest = s.substring_char(0, n - 1);
    proof {
        assert(rest@ =~= s@.drop_last());
    }
    match dec_parse(rest) {
        None => None,
        Some(hi) => {
            if hi > (u64::MAX - d as u64) / 10 {
                proof {
                    assert(hi * 10 + d > u64::MAX) by (nonlinear_arith)
                        requires
                            hi > (u64::MAX - d as u64) / 10,
                            d < 10,
                    ;
                }
                None
            } else {
                proof {
                    assert(hi * 10 + d <= u64::MAX) by (nonlinear_arith)
                        requires
                            hi <= (u64::MAX - d as u64) / 10,
                            d < 10,
                    ;
                }
                Some(hi * 10 + d as u64)
            }
        },
    }
}

/// The value of a decimal digit character.
fn dec_char_val(c: char) -> (r: Option<u8>)
    ensures
        r.is_some() == spec_is_dec_char(c),
        r.is_some() ==> r.unwrap() == spec_hex_val(c) && r.unwrap() < 10,
{
    let v = c as u32;
    if 48 <= v && v <= 57 {
        Some((v - 48) as u8)
    } else {
        None
    }
}

/// The position of the first occurrence of `c` in `s`.
pub open spec fn spec_find(s: Seq<char>, c: char) -> Option<int>
    decreases s.len(),
{
    if s.len() == 0 {
        None
    } else if s[0] == c {
        Some(0)
    } else {
        match spec_find(s.drop_first(), c) {
            Some(i) => Some(i + 1),
            None => None,
        }
    }
}

/// What `spec_find` finds: the first occurrence, or none at all.
pub proof fn lemma_find(s: Seq<char>, c: char)
    ensures
        match spec_find(s, c) {
            Some(i) => 0 <= i < s.len() && s[i] == c && forall|j: int| 0 <= j < i ==> s[j] != c,
            None => forall|j: int| 0 <= j < s.len() ==> s[j] != c,
        },
    decreases s.len(),
{
    if s.len() > 0 && s[0] != c {
        lemma_find(s.drop_first(), c);
        let t = s.drop_first();
        match spec_find(t, c) {
            Some(i) => {
                assert(s[i + 1] == t[i]);
                assert forall|j: int| 0 <= j < i + 1 implies s[j] != c by {
                    if j > 0 {
                        assert(t[j - 1] != c);
                    }
                }
            },
            None => {
                assert forall|j: int| 0 <= j < s.len() implies s[j] != c by {
                    if j > 0 {
                        assert(t[j - 1] != c);
                    }
                }
            },
        }
    }
}

/// Find the first occurrence of a character in a string.
pub fn find_char(s: &str, c: char) -> (r: Option<usize>)
    ensures
        match spec_find(s@, c) {
            Some(i) => r == Some(i as usize),
            None => r.is_none(),
        },
{
    proof {
        lemma_find(s@, c);
    }
    let n = s.unicode_len();
    let mut i: usize = 0;
    while i < n
        invariant
            i <= n,
            n == s@.len(),
            forall|j: int| 0 <= j < i ==> s@[j] != c,
        decreases n - i,
    {
        if s.get_char(i) == c {
            proof {
                lemma_find_at(s@, c, i as int);
            }
            return Some(i);
        }
        i = i + 1;
    }
    None
}

/// A first occurrence pins `spec_find` down.
pub proof fn lemma_find_at(s: Seq<char>, c: char, i: int)
    requires
        0 <= i < s.len(),
        s[i] == c,
        forall|j: int| 0 <= j < i ==> s[j] != c,
    ensures
        spec_find(s, c) == Some(i),
{
    lemma_find(s, c);
    match spec_find(s, c) {
        Some(k) => {
            if k < i {
                assert(s[k] == c);
            } else if k > i {
                assert(s[i] != c);
            }
        },
        None => {
            assert(s[i] != c);
        },
    }
}

} // verus!
