//! Low-level byte utilities for the wire codec: scanning for delimiters,
//! byte classes of the HTTP grammar, case-insensitive comparison, and
//! decimal / hexadecimal numerals.

use vstd::prelude::*;
use vstd::slice::{slice_index_get, slice_subrange, slice_to_vec};
use vstd::string::StrSliceExecFns;

verus! {

pub const CR: u8 = 13;
pub const LF: u8 = 10;
pub const SP: u8 = 32;
pub const HTAB: u8 = 9;

/// A `tchar` of the HTTP token grammar: the characters allowed in a method
/// or a header name.
pub open spec fn is_tchar(b: u8) -> bool {
    (97 <= b <= 122)  // a-z
    || (65 <= b <= 90)  // A-Z
    || (48 <= b <= 57)  // 0-9
    || b == 33  // !
    || b == 35 || b == 36 || b == 37 || b == 38 || b == 39  // # $ % & '
    || b == 42 || b == 43 || b == 45 || b == 46  // * + - .
    || b == 94 || b == 95 || b == 96 || b == 124 || b == 126  // ^ _ ` | ~
}

pub fn tchar(b: u8) -> (r: bool)
    ensures
        r == is_tchar(b),
{
    (97 <= b && b <= 122) || (65 <= b && b <= 90) || (48 <= b && b <= 57) || b == 33
        || (35 <= b && b <= 39) || b == 42 || b == 43 || b == 45 || b == 46 || b == 94
        || b == 95 || b == 96 || b == 124 || b == 126
}

/// A byte allowed in a request target: visible US-ASCII or any byte above
/// the ASCII range.
pub open spec fn is_target_byte(b: u8) -> bool {
    33 <= b <= 126 || b >= 128
}

pub fn target_byte(b: u8) -> (r: bool)
    ensures
        r == is_target_byte(b),
{
    (33 <= b && b <= 126) || b >= 128
}

/// A byte allowed in a header value: anything but the control range,
/// with horizontal tab permitted.
pub open spec fn is_value_byte(b: u8) -> bool {
    b >= 32 || b == HTAB
}

pub fn value_byte(b: u8) -> (r: bool)
    ensures
        r == is_value_byte(b),
{
    b >= 32 || b == HTAB
}

pub open spec fn all_tchars(s: Seq<u8>) -> bool {
    forall|i: int| 0 <= i < s.len() ==> is_tchar(#[trigger] s[i])
}

pub open spec fn all_target_bytes(s: Seq<u8>) -> bool {
    forall|i: int| 0 <= i < s.len() ==> is_target_byte(#[trigger] s[i])
}

pub open spec fn all_value_bytes(s: Seq<u8>) -> bool {
    forall|i: int| 0 <= i < s.len() ==> is_value_byte(#[trigger] s[i])
}

pub open spec fn is_crlf_at(s: Seq<u8>, i: int) -> bool {
    0 <= i && i + 2 <= s.len() && s[i] == CR && s[i + 1] == LF
}

/// Position of the first CRLF pair at or after `from`, if any.
pub open spec fn find_crlf(s: Seq<u8>, from: int) -> Option<int>
    decreases s.len() - from,
{
    if from < 0 || from + 2 > s.len() {
        Option::<int>::None
    } else if s[from] == CR && s[from + 1] == LF {
        Some(from)
    } else {
        find_crlf(s, from + 1)
    }
}

pub proof fn lemma_find_crlf(s: Seq<u8>, from: int)
    requires
        0 <= from <= s.len(),
    ensures
        match find_crlf(s, from) {
            Some(i) => from <= i && i + 2 <= s.len() && is_crlf_at(s, i) && (forall|j: int|
                from <= j < i ==> !is_crlf_at(s, j)),
            None => forall|j: int| from <= j ==> !is_crlf_at(s, j),
        },
    decreases s.len() - from,
{
    if from + 2 > s.len() {
    } else if s[from] == CR && s[from + 1] == LF {
    } else {
        lemma_find_crlf(s, from + 1);
    }
}

/// Scan for the first CRLF at or after `from`; mirrors `find_crlf`.
pub fn scan_crlf(s: &[u8], from: usize) -> (r: Option<usize>)
    requires
        from <= s@.len(),
    ensures
        match r {
            Some(i) => find_crlf(s@, from as int) == Some(i as int) && from <= i && i + 2
                <= s@.len(),
            None => find_crlf(s@, from as int) is None,
        },
{
    let n = s.len();
    let mut i = from;
    loop
        invariant
            from <= i <= n,
            n == s@.len(),
            find_crlf(s@, from as int) == find_crlf(s@, i as int),
        decreases n - i,
    {
        if n - i < 2 {
            assert(find_crlf(s@, i as int) is None);
            return Option::<usize>::None;
        }
        if *slice_index_get(s, i) == CR && *slice_index_get(s, i + 1) == LF {
            assert(find_crlf(s@, i as int) == Some(i as int));
            proof {
                lemma_find_crlf(s@, from as int);
            }
            return Some(i);
        }
        assert(find_crlf(s@, i as int) == find_crlf(s@, i as int + 1));
        i = i + 1;
    }
}

/// Position of the first occurrence of `b` in `s` within `[from, to)`.
pub open spec fn find_byte(s: Seq<u8>, b: u8, from: int, to: int) -> Option<int>
    decreases to - from,
{
    if from < 0 || from >= to || to > s.len() {
        Option::<int>::None
    } else if s[from] == b {
        Some(from)
    } else {
        find_byte(s, b, from + 1, to)
    }
}

pub proof fn lemma_find_byte(s: Seq<u8>, b: u8, from: int, to: int)
    requires
        0 <= from <= to <= s.len(),
    ensures
        match find_byte(s, b, from, to) {
            Some(i) => from <= i < to && s[i] == b && (forall|j: int|
                from <= j < i ==> s[j] != b),
            None => forall|j: int| from <= j < to ==> s[j] != b,
        },
    decreases to - from,
{
    if from < to && s[from] != b {
        lemma_find_byte(s, b, from + 1, to);
    }
}

/// Scan for the first occurrence of `b` within `[from, to)`; mirrors
/// `find_byte`.
pub fn scan_byte(s: &[u8], b: u8, from: usize, to: usize) -> (r: Option<usize>)
    requires
        from <= to <= s@.len(),
    ensures
        match r {
            Some(i) => find_byte(s@, b, from as int, to as int) == Some(i as int) && from <= i
                < to,
            None => find_byte(s@, b, from as int, to as int) is None,
        },
{
    let mut i = from;
    loop
        invariant
            from <= i <= to <= s@.len(),
            find_byte(s@, b, from as int, to as int) == find_byte(s@, b, i as int, to as int),
        decreases to - i,
    {
        if i >= to {
            assert(find_byte(s@, b, i as int, to as int) is None);
            return Option::<usize>::None;
        }
        if *slice_index_get(s, i) == b {
            assert(find_byte(s@, b, i as int, to as int) == Some(i as int));
            proof {
                lemma_find_byte(s@, b, from as int, to as int);
            }
            return Some(i);
        }
        assert(find_byte(s@, b, i as int, to as int) == find_byte(s@, b, i as int + 1, to as int));
        i = i + 1;
    }
}

/// ASCII lower-casing of one byte.
pub open spec fn lower(b: u8) -> u8 {
    if 65 <= b <= 90 {
        (b + 32) as u8
    } else {
        b
    }
}

pub open spec fn lower_seq(s: Seq<u8>) -> Seq<u8> {
    s.map_values(|b: u8| lower(b))
}

/// Case-insensitive equality of ASCII byte strings.
pub open spec fn eq_ci(a: Seq<u8>, b: Seq<u8>) -> bool {
    lower_seq(a) == lower_seq(b)
}

pub fn lower_byte(b: u8) -> (r: u8)
    ensures
        r == lower(b),
{
    if 65 <= b && b <= 90 {
        b + 32
    } else {
        b
    }
}

/// Compare two byte strings ignoring ASCII case; mirrors `eq_ci`.
pub fn eq_ignore_case(a: &[u8], b: &[u8]) -> (r: bool)
    ensures
        r == eq_ci(a@, b@),
{
    if a.len() != b.len() {
        assert(lower_seq(a@).len() == a@.len());
        assert(lower_seq(b@).len() == b@.len());
        return false;
    }
    let n = a.len();
    let mut i: usize = 0;
    loop
        invariant
            0 <= i <= n,
            n == a@.len() == b@.len(),
            forall|j: int| 0 <= j < i ==> lower(a@[j]) == lower(b@[j]),
        decreases n - i,
    {
        if i >= n {
            assert(lower_seq(a@) =~= lower_seq(b@));
            return true;
        }
        if lower_byte(*slice_index_get(a, i)) != lower_byte(*slice_index_get(b, i)) {
            assert(lower_seq(a@)[i as int] != lower_seq(b@)[i as int]);
            return false;
        }
        i = i + 1;
    }
}

/// The decimal numeral of `n`, most significant digit first.
pub open spec fn dec_rep(n: nat) -> Seq<u8>
    decreases n,
{
    if n < 10 {
        seq![(48 + n) as u8]
    } else {
        dec_rep(n / 10) + seq![(48 + n % 10) as u8]
    }
}

/// Render `n` as its decimal numeral; mirrors `dec_rep`.
pub fn u64_to_dec(n: u64) -> (r: Vec<u8>)
    ensures
        r@ == dec_rep(n as nat),
    decreases n,
{
    if n < 10 {
        let mut v: Vec<u8> = Vec::new();
        v.push(48 + (n as u8));
        assert(v@ =~= dec_rep(n as nat));
        v
    } else {
        let mut v = u64_to_dec(n / 10);
        v.push(48 + ((n % 10) as u8));
        assert(v@ =~= dec_rep(n as nat));
        v
    }
}

/// The upper-case hexadecimal digit of a value below sixteen.
pub open spec fn hex_digit(d: nat) -> u8 {
    if d < 10 {
        (48 + d) as u8
    } else {
        (55 + d) as u8
    }
}

/// The upper-case hexadecimal numeral of `n`, most significant digit first.
pub open spec fn hex_rep(n: nat) -> Seq<u8>
    decreases n,
{
    if n < 16 {
        seq![hex_digit(n)]
    } else {
        hex_rep(n / 16) + seq![hex_digit(n % 16)]
    }
}

/// Render `n` as its upper-case hexadecimal numeral; mirrors `hex_rep`.
pub fn u64_to_hex(n: u64) -> (r: Vec<u8>)
    ensures
        r@ == hex_rep(n as nat),
    decreases n,
{
    if n < 16 {
        let mut v: Vec<u8> = Vec::new();
        let d = n as u8;
        v.push(if d < 10 {
            48 + d
        } else {
            55 + d
        });
        assert(v@ =~= hex_rep(n as nat));
        v
    } else {
        let mut v = u64_to_hex(n / 16);
        let d = (n % 16) as u8;
        v.push(if d < 10 {
            48 + d
        } else {
            55 + d
        });
        assert(v@ =~= hex_rep(n as nat));
        v
    }
}

pub open spec fn is_digit(b: u8) -> bool {
    48 <= b <= 57
}

pub open spec fn all_digits(s: Seq<u8>) -> bool {
    forall|i: int| 0 <= i < s.len() ==> is_digit(#[trigger] s[i])
}

/// The value of a decimal numeral.
pub open spec fn dec_val(s: Seq<u8>) -> nat
    decreases s.len(),
{
    if s.len() == 0 {
        0
    } else {
        dec_val(s.drop_last()) * 10 + (s.last() - 48) as nat
    }
}

/// A decimal numeral's value only grows as the numeral is extended.
pub proof fn lemma_dec_val_prefix(s: Seq<u8>, i: int)
    requires
        0 <= i <= s.len(),
        all_digits(s),
    ensures
        dec_val(s.subrange(0, i)) <= dec_val(s),
    decreases s.len() - i,
{
    if i < s.len() {
        lemma_dec_val_prefix(s, i + 1);
        let a = s.subrange(0, i);
        let b = s.subrange(0, i + 1);
        assert(b.drop_last() =~= a);
        assert(dec_val(b) == dec_val(a) * 10 + (b.last() - 48) as nat);
        assert(dec_val(a) <= dec_val(a) * 10) by (nonlinear_arith)
            requires
                dec_val(a) >= 0,
        ;
    } else {
        assert(s.subrange(0, i) =~= s);
    }
}

/// Parse the decimal numeral in `s[from..to]`. Succeeds exactly when the
/// range is non-empty, holds digits only, and its value fits in `u64`.
pub fn parse_dec(s: &[u8], from: usize, to: usize) -> (r: Option<u64>)
    requires
        from <= to <= s@.len(),
    ensures
        ({
            let part = s@.subrange(from as int, to as int);
            match r {
                Some(v) => from < to && all_digits(part) && v as nat == dec_val(part),
                None => from == to || !all_digits(part) || dec_val(part) > u64::MAX,
            }
        }),
{
    let ghost part = s@.subrange(from as int, to as int);
    if from == to {
        return Option::<u64>::None;
    }
    let mut acc: u64 = 0;
    let mut i = from;
    loop
        invariant
            from < to,
            from <= i <= to <= s@.len(),
            part == s@.subrange(from as int, to as int),
            acc as nat == dec_val(part.subrange(0, i - from)),
            all_digits(part.subrange(0, i - from)),
        decreases to - i,
    {
        if i >= to {
            assert(part.subrange(0, i - from) =~= part);
            return Some(acc);
        }
        let b = *slice_index_get(s, i);
        assert(b == part[i - from]);
        if !(48 <= b && b <= 57) {
            assert(!all_digits(part));
            return Option::<u64>::None;
        }
        let d = (b - 48) as u64;
        if acc > (u64::MAX - d) / 10 {
            proof {
                let cur = part.subrange(0, i - from + 1);
                assert(cur.drop_last() =~= part.subrange(0, i - from));
                assert(dec_val(cur) == acc * 10 + d);
                assert(acc * 10 + d > u64::MAX) by (nonlinear_arith)
                    requires
                        acc > (u64::MAX - d) / 10,
                        0 <= d <= 9,
                        acc <= u64::MAX,
                ;
                if all_digits(part) {
                    lemma_dec_val_prefix(part, i - from + 1);
                }
                assert(dec_val(part) > u64::MAX || !all_digits(part));
            }
            return Option::<u64>::None;
        }
        proof {
            let cur = part.subrange(0, i - from + 1);
            assert(cur.drop_last() =~= part.subrange(0, i - from));
            assert(cur.last() == b);
            assert(acc * 10 + d <= u64::MAX) by (nonlinear_arith)
                requires
                    acc <= (u64::MAX - d) / 10,
                    0 <= d <= 9,
            ;
        }
        acc = acc * 10 + d;
        i = i + 1;
    }
}

pub open spec fn is_hex_digit(b: u8) -> bool {
    (48 <= b <= 57) || (97 <= b <= 102) || (65 <= b <= 70)
}

pub open spec fn hex_digit_val(b: u8) -> nat {
    if 48 <= b <= 57 {
        (b - 48) as nat
    } else if 97 <= b <= 102 {
        (b - 87) as nat
    } else if 65 <= b <= 70 {
        (b - 55) as nat
    } else {
        0
    }
}

pub open spec fn all_hex_digits(s: Seq<u8>) -> bool {
    forall|i: int| 0 <= i < s.len() ==> is_hex_digit(#[trigger] s[i])
}

/// The value of a hexadecimal numeral.
pub open spec fn hex_val(s: Seq<u8>) -> nat
    decreases s.len(),
{
    if s.len() == 0 {
        0
    } else {
        hex_val(s.drop_last()) * 16 + hex_digit_val(s.last())
    }
}

pub proof fn lemma_hex_val_prefix(s: Seq<u8>, i: int)
    requires
        0 <= i <= s.len(),
        all_hex_digits(s),
    ensures
        hex_val(s.subrange(0, i)) <= hex_val(s),
    decreases s.len() - i,
{
    if i < s.len() {
        lemma_hex_val_prefix(s, i + 1);
        let a = s.subrange(0, i);
        let b = s.subrange(0, i + 1);
        assert(b.drop_last() =~= a);
        assert(hex_val(b) == hex_val(a) * 16 + hex_digit_val(b.last()));
        assert(hex_val(a) <= hex_val(a) * 16) by (nonlinear_arith)
            requires
                hex_val(a) >= 0,
        ;
    } else {
        assert(s.subrange(0, i) =~= s);
    }
}

/// Parse the hexadecimal numeral in `s[from..to]`. Succeeds exactly when the
/// range is non-empty, holds hexadecimal digits only, and its value fits in
/// `u64`.
pub fn parse_hex(s: &[u8], from: usize, to: usize) -> (r: Option<u64>)
    requires
        from <= to <= s@.len(),
    ensures
        ({
            let part = s@.subrange(from as int, to as int);
            match r {
                Some(v) => from < to && all_hex_digits(part) && v as nat == hex_val(part),
                None => from == to || !all_hex_digits(part) || hex_val(part) > u64::MAX,
            }
        }),
{
    let ghost part = s@.subrange(from as int, to as int);
    if from == to {
        return Option::<u64>::None;
    }
    let mut acc: u64 = 0;
    let mut i = from;
    loop
        invariant
            from < to,
            from <= i <= to <= s@.len(),
            part == s@.subrange(from as int, to as int),
            acc as nat == hex_val(part.subrange(0, i - from)),
            all_hex_digits(part.subrange(0, i - from)),
        decreases to - i,
    {
        if i >= to {
            assert(part.subrange(0, i - from) =~= part);
            return Some(acc);
        }
        let b = *slice_index_get(s, i);
        assert(b == part[i - from]);
        let d: u64;
        if 48 <= b && b <= 57 {
            d = (b - 48) as u64;
        } else if 97 <= b && b <= 102 {
            d = (b - 87) as u64;
        } else if 65 <= b && b <= 70 {
            d = (b - 55) as u64;
        } else {
            assert(!all_hex_digits(part));
            return Option::<u64>::None;
        }
        assert(d as nat == hex_digit_val(b) && d <= 15);
        if acc > (u64::MAX - d) / 16 {
            proof {
                let cur = part.subrange(0, i - from + 1);
                assert(cur.drop_last() =~= part.subrange(0, i - from));
                assert(hex_val(cur) == acc * 16 + d);
                assert(acc * 16 + d > u64::MAX) by (nonlinear_arith)
                    requires
                        acc > (u64::MAX - d) / 16,
                        0 <= d <= 15,
                        acc <= u64::MAX,
                ;
                if all_hex_digits(part) {
                    lemma_hex_val_prefix(part, i - from + 1);
                }
                assert(hex_val(part) > u64::MAX || !all_hex_digits(part));
            }
            return Option::<u64>::None;
        }
        proof {
            let cur = part.subrange(0, i - from + 1);
            assert(cur.drop_last() =~= part.subrange(0, i - from));
            assert(cur.last() == b);
            assert(acc * 16 + d <= u64::MAX) by (nonlinear_arith)
                requires
                    acc <= (u64::MAX - d) / 16,
                    0 <= d <= 15,
            ;
        }
        acc = acc * 16 + d;
        i = i + 1;
    }
}

/// Concatenation of byte strings is associative.
pub proof fn lemma_add_assoc(a: Seq<u8>, b: Seq<u8>, c: Seq<u8>)
    ensures
        (a + b) + c == a + (b + c),
{
    assert((a + b) + c =~= a + (b + c));
}

/// The bytes of an ASCII string, character by character.
pub open spec fn ascii_bytes(cs: Seq<char>) -> Seq<u8> {
    cs.map_values(|c: char| c as u8)
}

/// Copy an ASCII string literal into a byte vector.
pub fn lit_bytes(s: &str) -> (r: Vec<u8>)
    requires
        s.is_ascii(),
    ensures
        r@ == ascii_bytes(s@),
{
    proof {
        broadcast use vstd::string::is_ascii_spec_bytes;

    }
    let v = s.as_bytes_vec();
    assert(v@ =~= ascii_bytes(s@));
    v
}

/// Copy `s[from..to]` into a fresh vector.
pub fn copy_range(s: &[u8], from: usize, to: usize) -> (r: Vec<u8>)
    requires
        from <= to <= s@.len(),
    ensures
        r@ == s@.subrange(from as int, to as int),
{
    slice_to_vec(slice_subrange(s, from, to))
}

} // verus!
