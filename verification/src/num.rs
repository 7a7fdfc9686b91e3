use vstd::prelude::*;
use vstd::string::StrSliceExecFns;

verus! {

// ---------------------------------------------------------------------------
// Token grammars. A `v`/`vn`/`vt` component must be a floating-point token
// and a face-corner field a decimal index; both grammars below restate the
// ones Rust's standard `FromStr` documentation gives for those types, which
// is what decides "parses" for this format.
// ---------------------------------------------------------------------------

pub open spec fn is_digit(c: char) -> bool {
    '0' as u32 <= c as u32 && c as u32 <= '9' as u32
}

pub open spec fn digit_val(c: char) -> int {
    c as u32 - '0' as u32
}

pub open spec fn is_sign(c: char) -> bool {
    c == '+' || c == '-'
}

/// Lower-cases the few ASCII letters the special float words use.
pub open spec fn lc(c: char) -> char {
    match c {
        'I' => 'i',
        'N' => 'n',
        'F' => 'f',
        'A' => 'a',
        'T' => 't',
        'Y' => 'y',
        _ => c,
    }
}

/// First index at or after `i` that does not hold a decimal digit.
pub open spec fn digits_end(s: Seq<char>, i: int) -> int
    decreases s.len() - i,
{
    if i < 0 || i >= s.len() || !is_digit(s[i]) {
        i
    } else {
        digits_end(s, i + 1)
    }
}

pub proof fn lemma_digits_end_bounds(s: Seq<char>, i: int)
    requires
        0 <= i <= s.len(),
    ensures
        i <= digits_end(s, i) <= s.len(),
        forall|k: int| i <= k < digits_end(s, i) ==> is_digit(s[k]),
        digits_end(s, i) == s.len() || !is_digit(s[digits_end(s, i)]),
    decreases s.len() - i,
{
    if i < s.len() && is_digit(s[i]) {
        lemma_digits_end_bounds(s, i + 1);
    }
}

/// Value of the decimal digits in `s[from..to]`.
pub open spec fn dec_val(s: Seq<char>, from: int, to: int) -> int
    decreases to - from,
{
    if to <= from {
        0
    } else {
        dec_val(s, from, to - 1) * 10 + digit_val(s[to - 1])
    }
}

pub proof fn lemma_dec_val_monotone(s: Seq<char>, from: int, to1: int, to2: int)
    requires
        from <= to1 <= to2 <= s.len(),
        0 <= from,
        forall|k: int| from <= k < to2 ==> is_digit(s[k]),
    ensures
        0 <= dec_val(s, from, to1) <= dec_val(s, from, to2),
    decreases to2 - to1,
{
    if to1 == to2 {
        lemma_dec_val_nonneg(s, from, to1);
    } else {
        lemma_dec_val_monotone(s, from, to1, to2 - 1);
    }
}

pub proof fn lemma_dec_val_nonneg(s: Seq<char>, from: int, to: int)
    requires
        0 <= from <= to <= s.len(),
        forall|k: int| from <= k < to ==> is_digit(s[k]),
    ensures
        dec_val(s, from, to) >= 0,
    decreases to - from,
{
    if to > from {
        lemma_dec_val_nonneg(s, from, to - 1);
    }
}

/// A decimal index token as a face corner uses it: an optional `+` sign,
/// then at least one digit, the value fitting in 32 bits.
pub open spec fn is_uint_token(s: Seq<char>) -> bool {
    let i: int = if s.len() > 0 && s[0] == '+' {
        1
    } else {
        0
    };
    i < s.len() && digits_end(s, i) == s.len() && dec_val(s, i, s.len() as int) <= u32::MAX as int
}

/// Value of a decimal index token.
pub open spec fn uint_token_val(s: Seq<char>) -> int {
    let i: int = if s.len() > 0 && s[0] == '+' {
        1
    } else {
        0
    };
    dec_val(s, i, s.len() as int)
}

/// The special float words, compared without case: `inf`, `infinity`, `nan`.
pub open spec fn is_special_float(s: Seq<char>, i: int) -> bool {
    ||| (s.len() - i == 3 && lc(s[i]) == 'i' && lc(s[i + 1]) == 'n' && lc(s[i + 2]) == 'f')
    ||| (s.len() - i == 8 && lc(s[i]) == 'i' && lc(s[i + 1]) == 'n' && lc(s[i + 2]) == 'f'
        && lc(s[i + 3]) == 'i' && lc(s[i + 4]) == 'n' && lc(s[i + 5]) == 'i' && lc(s[i + 6]) == 't'
        && lc(s[i + 7]) == 'y')
    ||| (s.len() - i == 3 && lc(s[i]) == 'n' && lc(s[i + 1]) == 'a' && lc(s[i + 2]) == 'n')
}

/// Exponent tail after the `e`: an optional sign, then at least one digit.
pub open spec fn is_exp_tail(s: Seq<char>, i: int) -> bool {
    let j: int = if i < s.len() && is_sign(s[i]) {
        i + 1
    } else {
        i
    };
    j < s.len() && digits_end(s, j) == s.len()
}

/// A number starting at `i`: digits, an optional fraction, and an optional
/// exponent, with at least one digit in the integer or fraction part.
pub open spec fn is_number_at(s: Seq<char>, i: int) -> bool {
    let d1 = digits_end(s, i);
    let has_dot = d1 < s.len() && s[d1] == '.';
    let m_end: int = if has_dot {
        digits_end(s, d1 + 1)
    } else {
        d1
    };
    let some_digit = d1 > i || (has_dot && m_end > d1 + 1);
    some_digit && (m_end == s.len() || ((s[m_end] == 'e' || s[m_end] == 'E') && is_exp_tail(
        s,
        m_end + 1,
    )))
}

/// A floating-point token: an optional sign, then a special word or a number.
pub open spec fn is_float_token(s: Seq<char>) -> bool {
    let i: int = if s.len() > 0 && is_sign(s[0]) {
        1
    } else {
        0
    };
    is_special_float(s, i) || is_number_at(s, i)
}

// ---------------------------------------------------------------------------
// Executable recognizers.
// ---------------------------------------------------------------------------

fn is_digit_c(c: char) -> (b: bool)
    ensures
        b == is_digit(c),
{
    '0' as u32 <= c as u32 && c as u32 <= '9' as u32
}

fn lc_c(c: char) -> (r: char)
    ensures
        r == lc(c),
{
    match c {
        'I' => 'i',
        'N' => 'n',
        'F' => 'f',
        'A' => 'a',
        'T' => 't',
        'Y' => 'y',
        _ => c,
    }
}

/// Scans the digit run beginning at `from`.
fn scan_digits(w: &str, from: usize, n: usize) -> (r: usize)
    requires
        n == w@.len(),
        from <= n,
    ensures
        r == digits_end(w@, from as int),
        from <= r <= n,
{
    let mut j = from;
    while j < n && is_digit_c(w.get_char(j))
        invariant
            from <= j <= n,
            n == w@.len(),
            digits_end(w@, from as int) == digits_end(w@, j as int),
        decreases n - j,
    {
        assert(digits_end(w@, j as int) == digits_end(w@, j + 1));
        j = j + 1;
    }
    assert(digits_end(w@, j as int) == j);
    j
}

/// Decides whether a word is a floating-point token.
pub fn check_float(w: &str) -> (b: bool)
    ensures
        b == is_float_token(w@),
{
    let n = w.unicode_len();
    let i: usize = if n > 0 && {
        let c = w.get_char(0);
        c == '+' || c == '-'
    } {
        1
    } else {
        0
    };
    check_special(w, i, n) || check_number(w, i, n)
}

fn check_special(w: &str, i: usize, n: usize) -> (b: bool)
    requires
        n == w@.len(),
        i <= n,
    ensures
        b == is_special_float(w@, i as int),
{
    if n - i == 3 {
        let c0 = lc_c(w.get_char(i));
        let c1 = lc_c(w.get_char(i + 1));
        let c2 = lc_c(w.get_char(i + 2));
        (c0 == 'i' && c1 == 'n' && c2 == 'f') || (c0 == 'n' && c1 == 'a' && c2 == 'n')
    } else if n - i == 8 {
        lc_c(w.get_char(i)) == 'i' && lc_c(w.get_char(i + 1)) == 'n' && lc_c(w.get_char(i + 2))
            == 'f' && lc_c(w.get_char(i + 3)) == 'i' && lc_c(w.get_char(i + 4)) == 'n' && lc_c(
            w.get_char(i + 5),
        ) == 'i' && lc_c(w.get_char(i + 6)) == 't' && lc_c(w.get_char(i + 7)) == 'y'
    } else {
        false
    }
}

fn check_number(w: &str, i: usize, n: usize) -> (b: bool)
    requires
        n == w@.len(),
        i <= n,
    ensures
        b == is_number_at(w@, i as int),
{
    let d1 = scan_digits(w, i, n);
    let has_dot = d1 < n && w.get_char(d1) == '.';
    let m_end: usize = if has_dot {
        scan_digits(w, d1 + 1, n)
    } else {
        d1
    };
    let some_digit = d1 > i || (has_dot && m_end > d1 + 1);
    if !some_digit {
        return false;
    }
    if m_end == n {
        return true;
    }
    let e = w.get_char(m_end);
    if e != 'e' && e != 'E' {
        return false;
    }
    // exponent tail
    let mut j = m_end + 1;
    if j < n && {
        let c = w.get_char(j);
        c == '+' || c == '-'
    } {
        j = j + 1;
    }
    if j >= n {
        return false;
    }
    let de = scan_digits(w, j, n);
    de == n
}

/// Parses a decimal index token; `None` when the word is not one.
#[verifier::loop_isolation(false)]
pub fn parse_uint(w: &str) -> (r: Option<u32>)
    ensures
        match r {
            Some(x) => is_uint_token(w@) && x as int == uint_token_val(w@),
            None => !is_uint_token(w@),
        },
{
    let n = w.unicode_len();
    let i: usize = if n > 0 && w.get_char(0) == '+' {
        1
    } else {
        0
    };
    if i >= n {
        return None;
    }
    let mut acc: u32 = 0;
    let mut j = i;
    while j < n
        invariant
            i <= j <= n,
            n == w@.len(),
            i < n,
            acc as int == dec_val(w@, i as int, j as int),
            forall|k: int| i <= k < j ==> is_digit(w@[k]),
        decreases n - j,
    {
        let c = w.get_char(j);
        if !is_digit_c(c) {
            // The digit run from `i` stops at `j`, so the token has trailing
            // junk and is not an index.
            proof {
                lemma_digits_end_bounds(w@, i as int);
            }
            return None;
        }
        let d: u32 = c as u32 - '0' as u32;
        let wide: u64 = acc as u64 * 10 + d as u64;
        if wide > u32::MAX as u64 {
            // Every longer digit run has at least this value, so the token
            // cannot fit.
            proof {
                if is_uint_token(w@) {
                    lemma_digits_end_bounds(w@, i as int);
                    assert(wide as int == dec_val(w@, i as int, j + 1));
                    lemma_dec_val_monotone(w@, i as int, j + 1, w@.len() as int);
                }
            }
            return None;
        }
        acc = wide as u32;
        j = j + 1;
    }
    proof {
        lemma_digits_end_bounds(w@, i as int);
    }
    Some(acc)
}

} // verus!
