//! Decimal text: the spec-level grammar of unsigned integers and of
//! fixed-point decimal numbers, and the verified parsers for both.
use vstd::prelude::*;

verus! {

/// Decimal digit.
pub open spec fn is_digit(c: char) -> bool {
    48 <= (c as u32) && (c as u32) <= 57
}

/// Numeric value of one digit.
pub open spec fn digit_val(c: char) -> int {
    (c as u32) - 48
}

/// Every character of `s` is a decimal digit.
pub open spec fn all_digits(s: Seq<char>) -> bool {
    forall|j: int| 0 <= j < s.len() ==> is_digit(#[trigger] s[j])
}

/// Value of a digit string read in base ten.
pub open spec fn digits_val(s: Seq<char>) -> int
    decreases s.len(),
{
    if s.len() == 0 {
        0
    } else {
        digits_val(s.drop_last()) * 10 + digit_val(s.last())
    }
}

pub(crate) proof fn lemma_digits_val_nonneg(s: Seq<char>)
    requires
        all_digits(s),
    ensures
        digits_val(s) >= 0,
    decreases s.len(),
{
    if s.len() > 0 {
        lemma_digits_val_nonneg(s.drop_last());
    }
}

/// Appending one digit multiplies the value by ten and adds the digit.
pub(crate) proof fn lemma_digits_val_step(s: Seq<char>, i: int)
    requires
        0 <= i < s.len(),
    ensures
        digits_val(s.take(i + 1)) == digits_val(s.take(i)) * 10 + digit_val(s[i]),
{
    assert(s.take(i + 1).drop_last() =~= s.take(i));
    assert(s.take(i + 1).last() == s[i]);
}

/// A digit string is worth at least any of its prefixes.
pub(crate) proof fn lemma_digits_val_prefix(s: Seq<char>, i: int)
    requires
        all_digits(s),
        0 <= i <= s.len(),
    ensures
        digits_val(s.take(i)) <= digits_val(s),
    decreases s.len() - i,
{
    if i == s.len() {
        assert(s.take(i) =~= s);
    } else {
        lemma_digits_val_step(s, i);
        assert(all_digits(s.take(i))) by {
            assert(forall|j: int| 0 <= j < i ==> s.take(i)[j] == s[j]);
        }
        lemma_digits_val_nonneg(s.take(i));
        lemma_digits_val_prefix(s, i + 1);
    }
}

/// Reads `s@.subrange(start, end)` as a base-ten number.
/// Returns its value when the range is all digits and the value is at most
/// `bound`; `None` otherwise.
pub fn digits_value_bounded(s: &str, start: usize, end: usize, bound: u64) -> (r: Option<u64>)
    requires
        start <= end <= s@.len(),
    ensures
        match r {
            Some(v) => all_digits(s@.subrange(start as int, end as int)) && v == digits_val(
                s@.subrange(start as int, end as int),
            ) && v <= bound,
            None => !(all_digits(s@.subrange(start as int, end as int)) && digits_val(
                s@.subrange(start as int, end as int),
            ) <= bound),
        },
{
    let ghost b = s@.subrange(start as int, end as int);
    let mut i: usize = start;
    let mut acc: u128 = 0;
    while i < end
        invariant
            start <= i <= end <= s@.len(),
            b == s@.subrange(start as int, end as int),
            forall|j: int| 0 <= j < i - start ==> is_digit(#[trigger] b[j]),
            acc == digits_val(b.take(i - start)),
            acc <= bound,
        decreases end - i,
    {
        let c = s.get_char(i);
        assert(c == b[i - start]);
        let cu: u32 = c as u32;
        if cu < 48 || cu > 57 {
            assert(!is_digit(b[i - start]));
            return None;
        }
        let d: u128 = (cu - 48) as u128;
        proof {
            lemma_digits_val_step(b, i - start);
        }
        acc = acc * 10 + d;
        i = i + 1;
        if acc > bound as u128 {
            proof {
                if all_digits(b) {
                    lemma_digits_val_prefix(b, i - start);
                }
            }
            return None;
        }
    }
    assert(b.take(end - start) =~= b);
    Some(acc as u64)
}

/// Whether `s@.subrange(start, end)` holds digits only.
pub fn all_digits_range(s: &str, start: usize, end: usize) -> (r: bool)
    requires
        start <= end <= s@.len(),
    ensures
        r == all_digits(s@.subrange(start as int, end as int)),
{
    let ghost b = s@.subrange(start as int, end as int);
    let mut i: usize = start;
    while i < end
        invariant
            start <= i <= end <= s@.len(),
            b == s@.subrange(start as int, end as int),
            forall|j: int| 0 <= j < i - start ==> is_digit(#[trigger] b[j]),
        decreases end - i,
    {
        let c = s.get_char(i);
        assert(c == b[i - start]);
        let cu: u32 = c as u32;
        if cu < 48 || cu > 57 {
            assert(!is_digit(b[i - start]));
            return false;
        }
        i = i + 1;
    }
    true
}

/// Grammar of an unsigned 64-bit decimal integer, sign already stripped:
/// one or more digits whose value fits.
pub open spec fn dec_u64_body(s: Seq<char>) -> Option<u64> {
    if s.len() > 0 && all_digits(s) && digits_val(s) <= u64::MAX {
        Some(digits_val(s) as u64)
    } else {
        None
    }
}

/// Grammar of an unsigned 64-bit decimal integer: an optional leading `+`,
/// then one or more digits whose value fits.
pub open spec fn dec_u64(s: Seq<char>) -> Option<u64> {
    if s.len() > 0 && s[0] == '+' {
        dec_u64_body(s.skip(1))
    } else {
        dec_u64_body(s)
    }
}

/// Parses the whole of `s` as an unsigned 64-bit decimal integer.
pub fn parse_u64(s: &str) -> (r: Option<u64>)
    ensures
        r == dec_u64(s@),
{
    let n = s.unicode_len();
    let start: usize = if n > 0 && s.get_char(0) == '+' {
        1
    } else {
        0
    };
    if n == start {
        assert(s@.skip(start as int).len() == 0);
        return None;
    }
    let r = digits_value_bounded(s, start, n, u64::MAX);
    proof {
        assert(s@.subrange(start as int, n as int) =~= if start == 1 {
            s@.skip(1)
        } else {
            s@
        });
        if r is Some {
            lemma_digits_val_nonneg(s@.subrange(start as int, n as int));
        }
    }
    r
}

/// Position of the first occurrence of `c` in `s`, if any.
pub open spec fn first_index(s: Seq<char>, c: char) -> Option<int>
    decreases s.len(),
{
    if s.len() == 0 {
        None
    } else if s[0] == c {
        Some(0)
    } else {
        match first_index(s.skip(1), c) {
            Some(i) => Some(i + 1),
            None => None,
        }
    }
}

pub(crate) proof fn lemma_first_index(s: Seq<char>, c: char)
    ensures
        match first_index(s, c) {
            Some(i) => 0 <= i < s.len() && s[i] == c && (forall|j: int| 0 <= j < i ==> s[j] != c),
            None => forall|j: int| 0 <= j < s.len() ==> s[j] != c,
        },
    decreases s.len(),
{
    if s.len() > 0 && s[0] != c {
        lemma_first_index(s.skip(1), c);
        match first_index(s.skip(1), c) {
            Some(k) => {
                assert(s[k + 1] == s.skip(1)[k]);
                assert forall|j: int| 0 <= j < k + 1 implies s[j] != c by {
                    if j > 0 {
                        assert(s.skip(1)[j - 1] != c);
                        assert(s.skip(1)[j - 1] == s[j]);
                    }
                }
            },
            None => {
                assert forall|j: int| 0 <= j < s.len() implies s[j] != c by {
                    if j > 0 {
                        assert(s.skip(1)[j - 1] != c);
                        assert(s.skip(1)[j - 1] == s[j]);
                    }
                }
            },
        }
    }
}

/// Finds the first occurrence of `c` in `s`.
pub fn find_char(s: &str, c: char) -> (r: Option<usize>)
    ensures
        match r {
            Some(i) => i < s@.len() && first_index(s@, c) == Some(i as int),
            None => first_index(s@, c) is None,
        },
{
    proof {
        assert(s@.skip(0) =~= s@);
    }
    find_char_from(s, 0, c)
}

/// The whitespace that trimming removes.
pub open spec fn is_space(c: char) -> bool {
    c == ' ' || c == '\t' || c == '\n' || c == '\r'
}

fn is_space_char(c: char) -> (r: bool)
    ensures
        r == is_space(c),
{
    c == ' ' || c == '\t' || c == '\n' || c == '\r'
}

pub open spec fn leading_ws(s: Seq<char>) -> int
    decreases s.len(),
{
    if s.len() == 0 || !is_space(s[0]) {
        0
    } else {
        1 + leading_ws(s.skip(1))
    }
}

pub open spec fn trailing_ws(s: Seq<char>) -> int
    decreases s.len(),
{
    if s.len() == 0 || !is_space(s.last()) {
        0
    } else {
        1 + trailing_ws(s.drop_last())
    }
}

/// `s` with leading and trailing whitespace removed.
pub open spec fn trim_spec(s: Seq<char>) -> Seq<char> {
    if leading_ws(s) == s.len() {
        Seq::<char>::empty()
    } else {
        s.subrange(leading_ws(s), s.len() - trailing_ws(s))
    }
}

pub(crate) proof fn lemma_leading_ws(s: Seq<char>)
    ensures
        0 <= leading_ws(s) <= s.len(),
        forall|j: int| 0 <= j < leading_ws(s) ==> is_space(#[trigger] s[j]),
        leading_ws(s) < s.len() ==> !is_space(s[leading_ws(s)]),
    decreases s.len(),
{
    if s.len() > 0 && is_space(s[0]) {
        lemma_leading_ws(s.skip(1));
        assert forall|j: int| 0 <= j < leading_ws(s) implies is_space(#[trigger] s[j]) by {
            if j > 0 {
                assert(is_space(s.skip(1)[j - 1]));
                assert(s.skip(1)[j - 1] == s[j]);
            }
        }
        if leading_ws(s) < s.len() {
            assert(s[leading_ws(s)] == s.skip(1)[leading_ws(s) - 1]);
        }
    }
}

pub(crate) proof fn lemma_trailing_ws(s: Seq<char>)
    ensures
        0 <= trailing_ws(s) <= s.len(),
        forall|j: int| s.len() - trailing_ws(s) <= j < s.len() ==> is_space(#[trigger] s[j]),
        trailing_ws(s) < s.len() ==> !is_space(s[s.len() - 1 - trailing_ws(s)]),
    decreases s.len(),
{
    if s.len() > 0 && is_space(s.last()) {
        lemma_trailing_ws(s.drop_last());
        assert forall|j: int| s.len() - trailing_ws(s) <= j < s.len() implies is_space(
            #[trigger] s[j],
        ) by {
            if j < s.len() - 1 {
                assert(is_space(s.drop_last()[j]));
                assert(s.drop_last()[j] == s[j]);
            }
        }
        if trailing_ws(s) < s.len() {
            assert(s[s.len() - 1 - trailing_ws(s)] == s.drop_last()[s.len() - 1 - trailing_ws(s)]);
        }
    }
}

/// Removes leading and trailing whitespace.
pub fn trim(s: &str) -> (t: &str)
    ensures
        t@ == trim_spec(s@),
{
    let n = s.unicode_len();
    let mut a: usize = 0;
    while a < n && is_space_char(s.get_char(a))
        invariant
            0 <= a <= n == s@.len(),
            forall|j: int| 0 <= j < a ==> is_space(#[trigger] s@[j]),
        decreases n - a,
    {
        a = a + 1;
    }
    assert(a == leading_ws(s@)) by {
        lemma_leading_ws(s@);
        if a < leading_ws(s@) {
            assert(is_space(s@[a as int]));
            assert(false);
        }
        if a > leading_ws(s@) {
            assert(is_space(s@[leading_ws(s@)]));
            assert(false);
        }
    }
    if a == n {
        proof {
            lemma_leading_ws(s@);
        }
        let t = s.substring_char(n, n);
        assert(t@ =~= trim_spec(s@));
        return t;
    }
    let mut b: usize = n;
    while b > a && is_space_char(s.get_char(b - 1))
        invariant
            0 <= a <= b <= n == s@.len(),
            a < n,
            !is_space(s@[a as int]),
            forall|j: int| b <= j < n ==> is_space(#[trigger] s@[j]),
        decreases b,
    {
        b = b - 1;
    }
    assert(b == n - trailing_ws(s@)) by {
        lemma_trailing_ws(s@);
        let tw = trailing_ws(s@);
        if b < n - tw {
            assert(is_space(s@[n - 1 - tw]));
            assert(!is_space(s@[n - 1 - tw]));
            assert(false);
        }
        if b > n - tw {
            assert(is_space(s@[b - 1]));
            if b == a {
                assert(is_space(s@[a as int]));
            }
            assert(false);
        }
    }
    let t = s.substring_char(a, b);
    assert(t@ =~= trim_spec(s@));
    t
}

pub open spec fn pow10(k: nat) -> int
    decreases k,
{
    if k == 0 {
        1
    } else {
        10 * pow10((k - 1) as nat)
    }
}

fn pow10_exec(k: usize) -> (r: u64)
    requires
        k <= 9,
    ensures
        r as int == pow10(k as nat),
        1 <= r <= 1_000_000_000,
{
    proof {
        reveal_with_fuel(pow10, 11);
    }
    match k {
        0 => 1,
        1 => 10,
        2 => 100,
        3 => 1000,
        4 => 10000,
        5 => 100000,
        6 => 1000000,
        7 => 10000000,
        8 => 100000000,
        _ => 1000000000,
    }
}

/// Value of a fractional digit string in billionths: the first nine digits
/// count, further digits only refine below the stored precision and are
/// dropped.
pub open spec fn frac_nano(s: Seq<char>) -> int {
    if s.len() >= 9 {
        digits_val(s.take(9))
    } else {
        digits_val(s) * pow10((9 - s.len()) as nat)
    }
}

/// A digit string's value is below the power of ten of its length.
pub(crate) proof fn lemma_digits_val_upper(s: Seq<char>)
    requires
        all_digits(s),
    ensures
        0 <= digits_val(s) < pow10(s.len() as nat),
    decreases s.len(),
{
    if s.len() > 0 {
        let d = s.drop_last();
        lemma_digits_val_upper(d);
        assert(digits_val(d) <= pow10(d.len() as nat) - 1);
        assert(digits_val(d) * 10 <= (pow10(d.len() as nat) - 1) * 10) by (nonlinear_arith)
            requires
                digits_val(d) <= pow10(d.len() as nat) - 1,
        ;
    }
}

proof fn lemma_pow10_le(a: nat, b: nat)
    requires
        a <= b,
    ensures
        1 <= pow10(a) <= pow10(b),
    decreases b,
{
    if b == 0 {
    } else if a == b {
        lemma_pow10_le((a - 1) as nat, (b - 1) as nat);
    } else {
        lemma_pow10_le(a, (b - 1) as nat);
    }
}

/// The fractional value lies below one billion, and equals the value of the
/// first nine digits scaled up to nine places.
proof fn lemma_frac_nano_split(fp: Seq<char>)
    requires
        all_digits(fp),
    ensures
        0 <= frac_nano(fp) <= 999_999_999,
        fp.len() < 9 ==> frac_nano(fp) == digits_val(fp) * pow10((9 - fp.len()) as nat),
        fp.len() >= 9 ==> frac_nano(fp) == digits_val(fp.take(9)),
    decreases fp.len(),
{
    reveal_with_fuel(pow10, 11);
    if fp.len() >= 9 {
        let nine = fp.take(9);
        assert(all_digits(nine)) by {
            assert(forall|j: int| 0 <= j < 9 ==> nine[j] == fp[j]);
        }
        lemma_digits_val_upper(nine);
    } else {
        let k = (9 - fp.len()) as nat;
        lemma_digits_val_upper(fp);
        lemma_pow10_le(k, 9);
        assert(digits_val(fp) * pow10(k) >= 0) by (nonlinear_arith)
            requires
                digits_val(fp) >= 0,
                pow10(k) >= 1,
        ;
        assert(digits_val(fp) * pow10(k) <= (pow10(fp.len() as nat) - 1) * pow10(k))
            by (nonlinear_arith)
            requires
                digits_val(fp) <= pow10(fp.len() as nat) - 1,
                pow10(k) >= 1,
        ;
        assert(pow10(fp.len() as nat) * pow10(k) == pow10(9)) by {
            lemma_pow10_mul(fp.len() as nat, k);
        }
        assert((pow10(fp.len() as nat) - 1) * pow10(k) == pow10(fp.len() as nat) * pow10(k) - pow10(
            k,
        )) by (nonlinear_arith);
    }
}

proof fn lemma_pow10_mul(a: nat, b: nat)
    ensures
        pow10(a) * pow10(b) == pow10(a + b),
    decreases a,
{
    if a == 0 {
    } else {
        lemma_pow10_mul((a - 1) as nat, b);
        assert(pow10(a) * pow10(b) == 10 * (pow10((a - 1) as nat) * pow10(b))) by (nonlinear_arith)
            requires
                pow10(a) == 10 * pow10((a - 1) as nat),
        ;
    }
}

/// Grammar of an unsigned decimal number, sign already stripped: digits with
/// at most one point among them, one digit at least. The value is in
/// billionths, truncated toward zero past the ninth fractional digit.
pub open spec fn dec_nano_body(s: Seq<char>) -> Option<int> {
    match first_index(s, '.') {
        Some(i) => {
            let ip = s.take(i);
            let fp = s.skip(i + 1);
            if all_digits(ip) && all_digits(fp) && ip.len() + fp.len() > 0 {
                Some(digits_val(ip) * 1_000_000_000 + frac_nano(fp))
            } else {
                None
            }
        },
        None => {
            if s.len() > 0 && all_digits(s) {
                Some(digits_val(s) * 1_000_000_000)
            } else {
                None
            }
        },
    }
}

/// Grammar of a signed decimal number: an optional `+` or `-`, then digits
/// with at most one point. The value is in billionths.
pub open spec fn dec_nano(s: Seq<char>) -> Option<int> {
    let neg = s.len() > 0 && s[0] == '-';
    let body = if s.len() > 0 && (s[0] == '-' || s[0] == '+') {
        s.skip(1)
    } else {
        s
    };
    match dec_nano_body(body) {
        Some(v) => Some(
            if neg {
                -v
            } else {
                v
            },
        ),
        None => None,
    }
}

/// `dec_nano`, restricted to the values an `i64` holds; the bound is
/// symmetric so that a sign never decides whether a magnitude fits.
pub open spec fn dec_nano_i64(s: Seq<char>) -> Option<i64> {
    match dec_nano(s) {
        Some(v) => if -9_223_372_036_854_775_807 <= v <= 9_223_372_036_854_775_807 {
            Some(v as i64)
        } else {
            None
        },
        None => None,
    }
}

/// Finds the first occurrence of `c` in `s` at or after `start`; the
/// position is reported relative to the whole of `s`.
fn find_char_from(s: &str, start: usize, c: char) -> (r: Option<usize>)
    requires
        start <= s@.len(),
    ensures
        match r {
            Some(i) => start <= i < s@.len() && first_index(s@.skip(start as int), c) == Some(
                i - start,
            ),
            None => first_index(s@.skip(start as int), c) is None,
        },
{
    let ghost body = s@.skip(start as int);
    let n = s.unicode_len();
    let mut i: usize = start;
    while i < n
        invariant
            start <= i <= n == s@.len(),
            body == s@.skip(start as int),
            forall|j: int| 0 <= j < i - start ==> body[j] != c,
        decreases n - i,
    {
        let ch = s.get_char(i);
        assert(ch == body[i - start]);
        if ch == c {
            proof {
                lemma_first_index(body, c);
                match first_index(body, c) {
                    Some(k) => {
                        if k < i - start {
                            assert(body[k] != c);
                            assert(false);
                        }
                        if k > i - start {
                            assert(body[i - start] != c);
                            assert(false);
                        }
                    },
                    None => {
                        assert(body[i - start] != c);
                        assert(false);
                    },
                }
            }
            return Some(i);
        }
        i = i + 1;
    }
    proof {
        lemma_first_index(body, c);
        match first_index(body, c) {
            Some(k) => {
                assert(body[k] != c);
                assert(false);
            },
            None => {},
        }
    }
    None
}

/// Parses `s` past `start` as an unsigned decimal number in billionths.
/// `Some` exactly when the grammar matches and the scaled value is within
/// the symmetric 64-bit signed range.
fn parse_nano_body(s: &str, start: usize) -> (r: Option<u64>)
    requires
        start <= s@.len(),
    ensures
        ({
            let body = s@.skip(start as int);
            match r {
                Some(v) => dec_nano_body(body) == Some(v as int) && v
                    <= 9_223_372_036_854_775_807u64,
                None => !(dec_nano_body(body) matches Some(w) && w
                    <= 9_223_372_036_854_775_807),
            }
        }),
{
    let ghost body = s@.skip(start as int);
    let n = s.unicode_len();
    let dot = find_char_from(s, start, '.');
    let (ip_end, fp_start): (usize, usize) = match dot {
        Some(i) => (i, i + 1),
        None => (n, n),
    };
    let ghost ip = body.take(ip_end - start);
    let ghost fp = body.skip(fp_start - start);
    proof {
        assert(ip =~= s@.subrange(start as int, ip_end as int));
        assert(fp =~= s@.subrange(fp_start as int, n as int));
        if dot is None {
            assert(ip =~= body);
        }
    }
    if ip_end == start && fp_start == n {
        // not one digit
        return None;
    }
    // integer part; past this bound no scaled value fits
    let ip_val = match digits_value_bounded(s, start, ip_end, 9_223_372_036) {
        Some(v) => v,
        None => {
            proof {
                if dec_nano_body(body) matches Some(w) {
                    // the grammar matched, so the integer part is all digits
                    // and its value exceeds the bound: the total exceeds the
                    // 64-bit range
                    lemma_frac_nano_split(fp);
                    assert(digits_val(ip) > 9_223_372_036);
                    assert(digits_val(ip) * 1_000_000_000 >= 9_223_372_037 * 1_000_000_000)
                        by (nonlinear_arith)
                        requires
                            digits_val(ip) >= 9_223_372_037,
                    ;
                }
            }
            return None;
        },
    };
    // fractional part: digits throughout, the first nine carry the value
    if !all_digits_range(s, fp_start, n) {
        return None;
    }
    let nine_end: usize = if n - fp_start > 9 {
        fp_start + 9
    } else {
        n
    };
    let ghost nine = s@.subrange(fp_start as int, nine_end as int);
    proof {
        if fp.len() >= 9 {
            assert(nine =~= fp.take(9));
        } else {
            assert(nine =~= fp);
        }
        lemma_frac_nano_split(fp);
    }
    let fp_val = match digits_value_bounded(s, fp_start, nine_end, 999_999_999) {
        Some(v) => v,
        None => {
            proof {
                assert(all_digits(nine)) by {
                    assert(forall|j: int| 0 <= j < nine.len() ==> nine[j] == fp[j]);
                }
                lemma_digits_val_upper(nine);
                lemma_pow10_le(nine.len() as nat, 9);
                reveal_with_fuel(pow10, 11);
                assert(false);
            }
            return None;
        },
    };
    let scale: u64 = if n - fp_start >= 9 {
        1
    } else {
        pow10_exec(9 - (n - fp_start))
    };
    proof {
        if fp.len() < 9 {
            assert(fp_val * scale == frac_nano(fp)) by (nonlinear_arith)
                requires
                    frac_nano(fp) == digits_val(fp) * pow10((9 - fp.len()) as nat),
                    fp_val == digits_val(fp),
                    scale == pow10((9 - fp.len()) as nat),
            ;
        } else {
            assert(fp_val * scale == frac_nano(fp));
        }
        assert(0 <= frac_nano(fp) <= 999_999_999);
    }
    let total: u64 = ip_val * 1_000_000_000 + fp_val * scale;
    if total > 9_223_372_036_854_775_807u64 {
        return None;
    }
    proof {
        lemma_digits_val_nonneg(ip);
    }
    Some(total)
}

/// Parses the whole of `s` as a signed decimal number in billionths.
pub fn parse_nano(s: &str) -> (r: Option<i64>)
    ensures
        r == dec_nano_i64(s@),
{
    let n = s.unicode_len();
    let (neg, start): (bool, usize) = if n > 0 && s.get_char(0) == '-' {
        (true, 1)
    } else if n > 0 && s.get_char(0) == '+' {
        (false, 1)
    } else {
        (false, 0)
    };
    proof {
        if start == 0 {
            assert(s@.skip(0) =~= s@);
        }
    }
    match parse_nano_body(s, start) {
        Some(v) => {
            let m = v as i64;
            if neg {
                Some(-m)
            } else {
                Some(m)
            }
        },
        None => {
            proof {
                match dec_nano(s@) {
                    Some(w) => {
                        assert(dec_nano_body(s@.skip(start as int)) matches Some(b) && (w == b || w
                            == -b));
                    },
                    None => {},
                }
            }
            None
        },
    }
}

} // verus!
