//! Verified text handling: symbol trimming and the decoding of the numeric
//! and date fields of a provider payload.
//!
//! Prices are decimal literals read into fixed-point values (ten-thousandths
//! of the currency unit); volumes are plain digit strings; dates are
//! `year-month-day` literals turned into Julian day numbers.

use crate::date::{julian_day_of, julian_of_ymd, valid_ymd};
use vstd::prelude::*;
use vstd::string::StrSliceExecFns;

verus! {

/// ASCII whitespace, the padding a stored symbol may carry.
pub open spec fn is_space(c: char) -> bool {
    c == ' ' || c == '\t' || c == '\n' || c == '\r'
}

/// Number of leading whitespace characters.
pub open spec fn trim_start_idx(s: Seq<char>) -> int
    decreases s.len(),
{
    if s.len() == 0 {
        0
    } else if !is_space(s[0]) {
        0
    } else {
        1 + trim_start_idx(s.drop_first())
    }
}

/// End of the text once trailing whitespace is dropped.
pub open spec fn trim_end_idx(s: Seq<char>) -> int
    decreases s.len(),
{
    if s.len() == 0 {
        0
    } else if !is_space(s.last()) {
        s.len() as int
    } else {
        trim_end_idx(s.drop_last())
    }
}

/// The text with surrounding whitespace removed.
pub open spec fn trim_spec(s: Seq<char>) -> Seq<char> {
    let a = trim_start_idx(s);
    let b = trim_end_idx(s);
    if a < b {
        s.subrange(a, b)
    } else {
        Seq::empty()
    }
}

/// A boundary with only whitespace before it, and none at it, is where the
/// leading whitespace ends.
proof fn lemma_trim_start_idx_is(s: Seq<char>, k: int)
    requires
        0 <= k <= s.len(),
        forall|i: int| 0 <= i < k ==> is_space(#[trigger] s[i]),
        k < s.len() ==> !is_space(s[k]),
    ensures
        trim_start_idx(s) == k,
    decreases s.len(),
{
    if k == 0 {
    } else {
        let rest = s.drop_first();
        assert forall|i: int| 0 <= i < k - 1 implies is_space(#[trigger] rest[i]) by {
            assert(rest[i] == s[i + 1]);
        }
        assert(k - 1 < rest.len() ==> rest[k - 1] == s[k]);
        lemma_trim_start_idx_is(rest, k - 1);
    }
}

/// A boundary with only whitespace at and after it, and none just before it,
/// is where the trailing whitespace starts.
proof fn lemma_trim_end_idx_is(s: Seq<char>, k: int)
    requires
        0 <= k <= s.len(),
        forall|i: int| k <= i < s.len() ==> is_space(#[trigger] s[i]),
        k > 0 ==> !is_space(s[k - 1]),
    ensures
        trim_end_idx(s) == k,
    decreases s.len(),
{
    if k == s.len() {
    } else {
        let rest = s.drop_last();
        assert forall|i: int| k <= i < rest.len() implies is_space(#[trigger] rest[i]) by {
            assert(rest[i] == s[i]);
        }
        assert(k > 0 ==> rest[k - 1] == s[k - 1]);
        lemma_trim_end_idx_is(rest, k);
    }
}

/// Whether `c` is ASCII whitespace.
pub fn is_space_char(c: char) -> (b: bool)
    ensures
        b == is_space(c),
{
    c == ' ' || c == '\t' || c == '\n' || c == '\r'
}

/// The symbol with surrounding ASCII whitespace removed, as the read
/// endpoints expose it.
pub fn trim_symbol(s: &String) -> (r: String)
    ensures
        r@ == trim_spec(s@),
{
    let sl: &str = s.as_str();
    let n = sl.unicode_len();
    let mut a: usize = 0;
    while a < n && is_space_char(sl.get_char(a))
        invariant
            a <= n,
            n == sl@.len(),
            sl@ == s@,
            forall|i: int| 0 <= i < a ==> is_space(#[trigger] sl@[i]),
        decreases n - a,
    {
        a += 1;
    }
    let mut b: usize = n;
    while b > a && is_space_char(sl.get_char(b - 1))
        invariant
            a <= b <= n,
            n == sl@.len(),
            sl@ == s@,
            forall|i: int| 0 <= i < a ==> is_space(#[trigger] sl@[i]),
            a < n ==> !is_space(sl@[a as int]),
            forall|i: int| b <= i < n ==> is_space(#[trigger] sl@[i]),
        decreases b,
    {
        b -= 1;
    }
    if a < b {
        proof {
            lemma_trim_start_idx_is(s@, a as int);
            lemma_trim_end_idx_is(s@, b as int);
        }
        let piece = sl.substring_char(a, b);
        String::from_str(piece)
    } else {
        proof {
            if a < n {
                assert(is_space(sl@[a as int]));
                assert(false);
            }
            lemma_trim_start_idx_is(s@, n as int);
            lemma_trim_end_idx_is(s@, 0);
        }
        String::new()
    }
}

/// A decimal digit.
pub open spec fn is_digit(c: char) -> bool {
    '0' as int <= c as int <= '9' as int
}

/// Every character is a decimal digit.
pub open spec fn all_digits(s: Seq<char>) -> bool {
    forall|i: int| 0 <= i < s.len() ==> is_digit(#[trigger] s[i])
}

/// The number a digit string denotes, most significant digit first.
pub open spec fn digits_val(s: Seq<char>) -> int
    decreases s.len(),
{
    if s.len() == 0 {
        0
    } else {
        digits_val(s.drop_last()) * 10 + (s.last() as int - '0' as int)
    }
}

/// Powers of ten.
pub open spec fn pow10(n: nat) -> int
    decreases n,
{
    if n == 0 {
        1
    } else {
        10 * pow10((n - 1) as nat)
    }
}

/// A digit string denotes a non-negative number below ten to its length.
pub proof fn lemma_digits_val_bounds(s: Seq<char>)
    requires
        all_digits(s),
    ensures
        0 <= digits_val(s) < pow10(s.len()),
    decreases s.len(),
{
    if s.len() == 0 {
    } else {
        let rest = s.drop_last();
        assert forall|i: int| 0 <= i < rest.len() implies is_digit(#[trigger] rest[i]) by {
            assert(rest[i] == s[i]);
        }
        lemma_digits_val_bounds(rest);
        assert(is_digit(s.last()));
    }
}

/// Reading a prefix of a digit string never overshoots the whole.
pub proof fn lemma_digits_val_prefix(s: Seq<char>, i: int)
    requires
        all_digits(s),
        0 <= i <= s.len(),
    ensures
        digits_val(s.take(i)) <= digits_val(s),
    decreases s.len(),
{
    if i == s.len() {
        assert(s.take(i) =~= s);
    } else {
        let rest = s.drop_last();
        assert forall|k: int| 0 <= k < rest.len() implies is_digit(#[trigger] rest[k]) by {
            assert(rest[k] == s[k]);
        }
        assert(rest.take(i) =~= s.take(i));
        lemma_digits_val_prefix(rest, i);
        lemma_digits_val_bounds(rest);
        assert(is_digit(s.last()));
    }
}

/// Reads a (possibly empty) digit string as a number; `None` on a stray
/// character or a value beyond `u64`.
pub fn parse_digits(s: &str) -> (r: Option<u64>)
    ensures
        r is Some <==> (all_digits(s@) && digits_val(s@) <= u64::MAX),
        r is Some ==> r->0 as int == digits_val(s@),
{
    let n = s.unicode_len();
    let mut val: u64 = 0;
    let mut i: usize = 0;
    while i < n
        invariant
            i <= n,
            n == s@.len(),
            forall|k: int| 0 <= k < i ==> is_digit(#[trigger] s@[k]),
            val as int == digits_val(s@.take(i as int)),
        decreases n - i,
    {
        let c = s.get_char(i);
        let d = c as u32;
        if d < 48 || d > 57 {
            return None;
        }
        let d8 = (d - 48) as u64;
        proof {
            assert(s@.take(i + 1).drop_last() =~= s@.take(i as int));
            assert(s@.take(i + 1).last() == s@[i as int]);
        }
        if val > (u64::MAX - d8) / 10 {
            proof {
                assert(digits_val(s@.take(i + 1)) > u64::MAX);
                if all_digits(s@) {
                    lemma_digits_val_prefix(s@, i + 1);
                }
            }
            return None;
        }
        val = val * 10 + d8;
        i += 1;
    }
    proof {
        assert(s@.take(n as int) =~= s@);
    }
    Some(val)
}

/// Index of the first `.`, or `-1`.
pub open spec fn first_dot(s: Seq<char>) -> int
    decreases s.len(),
{
    if s.len() == 0 {
        -1
    } else if s[0] == '.' {
        0
    } else {
        let k = first_dot(s.drop_first());
        if k == -1 {
            -1
        } else {
            k + 1
        }
    }
}

/// An index holding a `.`, with none before it, is the first dot.
proof fn lemma_first_dot_is(s: Seq<char>, j: int)
    requires
        0 <= j < s.len(),
        s[j] == '.',
        forall|i: int| 0 <= i < j ==> #[trigger] s[i] != '.',
    ensures
        first_dot(s) == j,
    decreases s.len(),
{
    if j == 0 {
    } else {
        let rest = s.drop_first();
        assert(rest[j - 1] == s[j]);
        assert forall|i: int| 0 <= i < j - 1 implies #[trigger] rest[i] != '.' by {
            assert(rest[i] == s[i + 1]);
        }
        lemma_first_dot_is(rest, j - 1);
    }
}

/// A text without a `.` has no first dot.
proof fn lemma_first_dot_none(s: Seq<char>)
    requires
        forall|i: int| 0 <= i < s.len() ==> #[trigger] s[i] != '.',
    ensures
        first_dot(s) == -1,
    decreases s.len(),
{
    if s.len() > 0 {
        let rest = s.drop_first();
        assert forall|i: int| 0 <= i < rest.len() implies #[trigger] rest[i] != '.' by {
            assert(rest[i] == s[i + 1]);
        }
        lemma_first_dot_none(rest);
    }
}

/// The fixed-point weight of a fractional part of `n` digits.
pub open spec fn frac_scale(n: int) -> int {
    if n == 0 {
        10000
    } else if n == 1 {
        1000
    } else if n == 2 {
        100
    } else if n == 3 {
        10
    } else {
        1
    }
}

/// The fixed-point value (ten-thousandths) a decimal price literal denotes:
/// an optional integer part, an optional dot, and at most four fraction
/// digits; at least one digit in all; within `u64`.
pub open spec fn spec_parse_price(s: Seq<char>) -> Option<int> {
    let dot = first_dot(s);
    if dot == -1 {
        if s.len() > 0 && all_digits(s) && digits_val(s) * 10000 <= u64::MAX {
            Some(digits_val(s) * 10000)
        } else {
            None
        }
    } else {
        let ip = s.take(dot);
        let fp = s.skip(dot + 1);
        if ip.len() + fp.len() > 0 && all_digits(ip) && all_digits(fp) && fp.len() <= 4
            && digits_val(ip) * 10000 + digits_val(fp) * frac_scale(fp.len() as int)
            <= u64::MAX {
            Some(digits_val(ip) * 10000 + digits_val(fp) * frac_scale(fp.len() as int))
        } else {
            None
        }
    }
}

/// Position of the first `.`, or the length when there is none.
fn find_dot(s: &str) -> (r: usize)
    ensures
        r <= s@.len(),
        r < s@.len() ==> first_dot(s@) == r as int,
        r == s@.len() ==> first_dot(s@) == -1,
{
    let n = s.unicode_len();
    let mut i: usize = 0;
    while i < n
        invariant
            i <= n,
            n == s@.len(),
            forall|k: int| 0 <= k < i ==> #[trigger] s@[k] != '.',
        decreases n - i,
    {
        if s.get_char(i) == '.' {
            proof {
                lemma_first_dot_is(s@, i as int);
            }
            return i;
        }
        i += 1;
    }
    proof {
        lemma_first_dot_none(s@);
    }
    n
}

/// Reads a non-negative decimal price literal as a fixed-point value in
/// ten-thousandths; `None` on any other shape.
pub fn parse_price(s: &str) -> (r: Option<u64>)
    ensures
        r is Some <==> spec_parse_price(s@) is Some,
        r is Some ==> r->0 as int == spec_parse_price(s@)->0,
{
    let n = s.unicode_len();
    let dot = find_dot(s);
    if dot == n {
        if s.is_empty() {
            return None;
        }
        let v = match parse_digits(s) {
            Some(v) => v,
            None => { return None; },
        };
        if v > u64::MAX / 10000 {
            return None;
        }
        Some(v * 10000)
    } else {
        let ip = s.substring_char(0, dot);
        let fp = s.substring_char(dot + 1, n);
        proof {
            assert(ip@ =~= s@.take(dot as int));
            assert(fp@ =~= s@.skip(dot + 1));
        }
        if ip.unicode_len() == 0 && fp.unicode_len() == 0 {
            return None;
        }
        let fl = fp.unicode_len();
        if fl > 4 {
            return None;
        }
        let iv = match parse_digits(ip) {
            Some(v) => v,
            None => {
                proof {
                    if all_digits(fp@) {
                        lemma_digits_val_bounds(fp@);
                        let dv = digits_val(fp@);
                        let sc = frac_scale(fp@.len() as int);
                        assert(dv * sc >= 0) by (nonlinear_arith)
                            requires
                                dv >= 0,
                                sc >= 1,
                        ;
                    }
                }
                return None;
            },
        };
        let fv = match parse_digits(fp) {
            Some(v) => v,
            None => {
                proof {
                    lemma_digits_val_bounds(ip@);
                    if all_digits(fp@) {
                        let dv = digits_val(fp@);
                        let sc = frac_scale(fp@.len() as int);
                        assert(dv > u64::MAX);
                        assert(dv * sc >= dv) by (nonlinear_arith)
                            requires
                                dv > 0,
                                sc >= 1,
                        ;
                    }
                }
                return None;
            },
        };
        let scale: u64 = if fl == 0 {
            10000
        } else if fl == 1 {
            1000
        } else if fl == 2 {
            100
        } else if fl == 3 {
            10
        } else {
            1
        };
        proof {
            lemma_digits_val_bounds(fp@);
            assert(pow10(0) == 1);
            assert(pow10(1) == 10);
            assert(pow10(2) == 100);
            assert(pow10(3) == 1000);
            assert(pow10(4) == 10000);
            assert(fv * scale <= 9999 * 10000) by {
                if fl == 0 {
                    assert(fv == 0);
                } else if fl == 1 {
                    assert(fv < 10);
                } else if fl == 2 {
                    assert(fv < 100);
                } else if fl == 3 {
                    assert(fv < 1000);
                } else {
                    assert(fv < 10000);
                }
            }
        }
        if iv > u64::MAX / 10000 {
            return None;
        }
        let base = iv * 10000;
        let add = fv * scale;
        if base > u64::MAX - add {
            return None;
        }
        Some(base + add)
    }
}

/// The Julian day number a `year-month-day` literal denotes: four, two and
/// two digits, a calendar-valid date.
pub open spec fn spec_parse_date(s: Seq<char>) -> Option<int> {
    if s.len() == 10 && s[4] == '-' && s[7] == '-' && all_digits(s.subrange(0, 4)) && all_digits(
        s.subrange(5, 7),
    ) && all_digits(s.subrange(8, 10)) {
        let y = digits_val(s.subrange(0, 4));
        let m = digits_val(s.subrange(5, 7));
        let d = digits_val(s.subrange(8, 10));
        if valid_ymd(y, m, d) {
            Some(julian_day_of(y, m, d))
        } else {
            None
        }
    } else {
        None
    }
}

/// Reads a `year-month-day` literal as a Julian day number; `None` on any
/// other shape or a calendar-invalid date.
pub fn parse_date(s: &str) -> (r: Option<i32>)
    ensures
        r is Some <==> spec_parse_date(s@) is Some,
        r is Some ==> r->0 as int == spec_parse_date(s@)->0,
{
    let n = s.unicode_len();
    if n != 10 {
        return None;
    }
    if s.get_char(4) != '-' || s.get_char(7) != '-' {
        return None;
    }
    let ys = s.substring_char(0, 4);
    let ms = s.substring_char(5, 7);
    let ds = s.substring_char(8, 10);
    proof {
        assert(ys@ =~= s@.subrange(0, 4));
        assert(ms@ =~= s@.subrange(5, 7));
        assert(ds@ =~= s@.subrange(8, 10));
    }
    let y = match parse_digits(ys) {
        Some(v) => v,
        None => { return None; },
    };
    let m = match parse_digits(ms) {
        Some(v) => v,
        None => { return None; },
    };
    let d = match parse_digits(ds) {
        Some(v) => v,
        None => { return None; },
    };
    proof {
        lemma_digits_val_bounds(ys@);
        lemma_digits_val_bounds(ms@);
        lemma_digits_val_bounds(ds@);
        assert(pow10(0) == 1);
        assert(pow10(1) == 10);
        assert(pow10(2) == 100);
        assert(pow10(3) == 1000);
        assert(pow10(4) == 10000);
    }
    julian_of_ymd(y as i32, m as u8, d as u8)
}

} // verus!
