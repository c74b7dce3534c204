//! Character classes and text-scanning helpers shared by the normalizers.
//!
//! The spec-level scanners (`digits_end`, `spaces_end`, `alpha_end`) give the
//! index where a run of same-class characters ends; `digits_val_range` gives
//! the numeric value of a run of decimal digits. `count_char` counts the
//! occurrences of one character in a prefix, which the grammar predicates use
//! to bound separators.

use vstd::prelude::*;

verus! {

/// Decimal digit characters.
pub open spec fn is_digit(c: char) -> bool {
    '0' <= c && c <= '9'
}

/// ASCII letters, the only characters allowed in unit words.
pub open spec fn is_alpha(c: char) -> bool {
    ('a' <= c && c <= 'z') || ('A' <= c && c <= 'Z')
}

/// Blank characters accepted between the tokens of an expression.
pub open spec fn is_space(c: char) -> bool {
    c == ' ' || c == '\t'
}

/// Numeric value of a decimal digit character.
pub open spec fn digit_val(c: char) -> nat
    recommends
        is_digit(c),
{
    (c as u32 - '0' as u32) as nat
}

/// Case-insensitive equality of one character against a lowercase reference.
pub open spec fn eq_lower(c: char, lower: char) -> bool {
    c == lower || ('A' <= c && c <= 'Z' && c as u32 + 32 == lower as u32)
}

/// Case-insensitive equality of a word against a lowercase reference word.
pub open spec fn eq_lower_seq(s: Seq<char>, lower: Seq<char>) -> bool {
    s.len() == lower.len() && (forall|i: int| 0 <= i < s.len() ==> eq_lower(#[trigger] s[i], lower[i]))
}

/// End of the run of decimal digits that starts at `i`.
pub open spec fn digits_end(s: Seq<char>, i: int) -> int
    decreases s.len() - i,
{
    if 0 <= i < s.len() && is_digit(s[i]) {
        digits_end(s, i + 1)
    } else {
        i
    }
}

/// End of the run of blank characters that starts at `i`.
pub open spec fn spaces_end(s: Seq<char>, i: int) -> int
    decreases s.len() - i,
{
    if 0 <= i < s.len() && is_space(s[i]) {
        spaces_end(s, i + 1)
    } else {
        i
    }
}

/// End of the run of ASCII letters that starts at `i`.
pub open spec fn alpha_end(s: Seq<char>, i: int) -> int
    decreases s.len() - i,
{
    if 0 <= i < s.len() && is_alpha(s[i]) {
        alpha_end(s, i + 1)
    } else {
        i
    }
}

pub proof fn lemma_digits_end(s: Seq<char>, i: int)
    requires
        0 <= i <= s.len(),
    ensures
        i <= digits_end(s, i) <= s.len(),
        forall|j: int| i <= j < digits_end(s, i) ==> is_digit(#[trigger] s[j]),
        digits_end(s, i) < s.len() ==> !is_digit(s[digits_end(s, i)]),
    decreases s.len() - i,
{
    if i < s.len() && is_digit(s[i]) {
        lemma_digits_end(s, i + 1);
    }
}

pub proof fn lemma_spaces_end(s: Seq<char>, i: int)
    requires
        0 <= i <= s.len(),
    ensures
        i <= spaces_end(s, i) <= s.len(),
        forall|j: int| i <= j < spaces_end(s, i) ==> is_space(#[trigger] s[j]),
        spaces_end(s, i) < s.len() ==> !is_space(s[spaces_end(s, i)]),
    decreases s.len() - i,
{
    if i < s.len() && is_space(s[i]) {
        lemma_spaces_end(s, i + 1);
    }
}

pub proof fn lemma_alpha_end(s: Seq<char>, i: int)
    requires
        0 <= i <= s.len(),
    ensures
        i <= alpha_end(s, i) <= s.len(),
        forall|j: int| i <= j < alpha_end(s, i) ==> is_alpha(#[trigger] s[j]),
        alpha_end(s, i) < s.len() ==> !is_alpha(s[alpha_end(s, i)]),
    decreases s.len() - i,
{
    if i < s.len() && is_alpha(s[i]) {
        lemma_alpha_end(s, i + 1);
    }
}

/// Value of the decimal digits `s[i..j]`, most significant first.
pub open spec fn digits_val_range(s: Seq<char>, i: int, j: int) -> nat
    decreases j - i,
{
    if i < j {
        digits_val_range(s, i, j - 1) * 10 + digit_val(s[j - 1])
    } else {
        0
    }
}

/// Number of occurrences of `c` among `s[0..i]`.
pub open spec fn count_char(s: Seq<char>, i: int, c: char) -> nat
    decreases i,
{
    if i <= 0 {
        0
    } else {
        count_char(s, i - 1, c) + (if s[i - 1] == c {
            1nat
        } else {
            0nat
        })
    }
}

pub proof fn lemma_count_char_monotone(s: Seq<char>, c: char, i1: int, i2: int)
    requires
        i1 <= i2,
    ensures
        count_char(s, i1, c) <= count_char(s, i2, c),
    decreases i2 - i1,
{
    if i1 < i2 {
        lemma_count_char_monotone(s, c, i1, i2 - 1);
    }
}

/// A position holding `c` puts the count of `c` at one or more.
pub proof fn lemma_count_char_from_position(s: Seq<char>, c: char, j: int, i: int)
    requires
        0 <= j < i,
        s[j] == c,
    ensures
        count_char(s, i, c) >= 1,
{
    lemma_count_char_monotone(s, c, j + 1, i);
}

/// Two positions holding `c` put the count of `c` at two or more.
pub proof fn lemma_count_char_from_two_positions(s: Seq<char>, c: char, j: int, k: int, i: int)
    requires
        0 <= j < k < i,
        s[j] == c,
        s[k] == c,
    ensures
        count_char(s, i, c) >= 2,
{
    lemma_count_char_from_position(s, c, j, k);
    assert(count_char(s, k + 1, c) == count_char(s, k, c) + 1);
    lemma_count_char_monotone(s, c, k + 1, i);
}

/// Three positions holding `c` put the count of `c` at three or more.
pub proof fn lemma_count_char_from_three_positions(
    s: Seq<char>,
    c: char,
    j: int,
    k: int,
    l: int,
    i: int,
)
    requires
        0 <= j < k < l < i,
        s[j] == c,
        s[k] == c,
        s[l] == c,
    ensures
        count_char(s, i, c) >= 3,
{
    lemma_count_char_from_two_positions(s, c, j, k, l);
    assert(count_char(s, l + 1, c) == count_char(s, l, c) + 1);
    lemma_count_char_monotone(s, c, l + 1, i);
}

/// A count of one or more exhibits a position holding `c`.
pub proof fn lemma_count_char_exists(s: Seq<char>, c: char, i: int)
    requires
        count_char(s, i, c) >= 1,
    ensures
        exists|j: int| 0 <= j < i && s[j] == c,
    decreases i,
{
    if i > 0 {
        if s[i - 1] == c {
            assert(0 <= i - 1 < i && s[i - 1] == c);
        } else {
            lemma_count_char_exists(s, c, i - 1);
        }
    }
}

/// A count of two or more exhibits two ordered positions holding `c`.
pub proof fn lemma_count_char_exists_two(s: Seq<char>, c: char, i: int)
    requires
        count_char(s, i, c) >= 2,
    ensures
        exists|j: int, k: int| 0 <= j < k < i && s[j] == c && s[k] == c,
    decreases i,
{
    if i > 0 {
        if s[i - 1] == c {
            lemma_count_char_exists(s, c, i - 1);
            let j = choose|j: int| 0 <= j < i - 1 && s[j] == c;
            assert(0 <= j < i - 1 < i && s[j] == c && s[i - 1] == c);
        } else {
            lemma_count_char_exists_two(s, c, i - 1);
        }
    }
}

/// A count of three or more exhibits three ordered positions holding `c`.
pub proof fn lemma_count_char_exists_three(s: Seq<char>, c: char, i: int)
    requires
        count_char(s, i, c) >= 3,
    ensures
        exists|j: int, k: int, l: int| 0 <= j < k < l < i && s[j] == c && s[k] == c && s[l] == c,
    decreases i,
{
    if i > 0 {
        if s[i - 1] == c {
            lemma_count_char_exists_two(s, c, i - 1);
            let (j, k) = choose|j: int, k: int| 0 <= j < k < i - 1 && s[j] == c && s[k] == c;
            assert(0 <= j < k < i - 1 < i && s[j] == c && s[k] == c && s[i - 1] == c);
        } else {
            lemma_count_char_exists_three(s, c, i - 1);
        }
    }
}

/// A prefix without `c` has a count of zero.
pub proof fn lemma_count_char_zero(s: Seq<char>, c: char, i: int)
    requires
        forall|j: int| 0 <= j < i ==> s[j] != c,
    ensures
        count_char(s, i, c) == 0,
    decreases i,
{
    if i > 0 {
        lemma_count_char_zero(s, c, i - 1);
    }
}

/// Scans past blank characters, returning the index where the run ends.
pub fn scan_spaces(s: &str, from: usize) -> (j: usize)
    requires
        from as int <= s@.len(),
    ensures
        j == spaces_end(s@, from as int),
        from <= j <= s@.len(),
{
    proof {
        lemma_spaces_end(s@, from as int);
    }
    let n = s.unicode_len();
    let mut j = from;
    while j < n
        invariant
            from <= j <= n,
            n == s@.len(),
            spaces_end(s@, from as int) == spaces_end(s@, j as int),
        decreases n - j,
    {
        let c = s.get_char(j);
        if !(c == ' ' || c == '\t') {
            return j;
        }
        j = j + 1;
    }
    j
}

/// Scans past decimal digits, returning the index where the run ends.
pub fn scan_digits(s: &str, from: usize) -> (j: usize)
    requires
        from as int <= s@.len(),
    ensures
        j == digits_end(s@, from as int),
        from <= j <= s@.len(),
{
    proof {
        lemma_digits_end(s@, from as int);
    }
    let n = s.unicode_len();
    let mut j = from;
    while j < n
        invariant
            from <= j <= n,
            n == s@.len(),
            digits_end(s@, from as int) == digits_end(s@, j as int),
        decreases n - j,
    {
        let c = s.get_char(j);
        if !('0' <= c && c <= '9') {
            return j;
        }
        j = j + 1;
    }
    j
}

/// Scans past ASCII letters, returning the index where the run ends.
pub fn scan_alpha(s: &str, from: usize) -> (j: usize)
    requires
        from as int <= s@.len(),
    ensures
        j == alpha_end(s@, from as int),
        from <= j <= s@.len(),
{
    proof {
        lemma_alpha_end(s@, from as int);
    }
    let n = s.unicode_len();
    let mut j = from;
    while j < n
        invariant
            from <= j <= n,
            n == s@.len(),
            alpha_end(s@, from as int) == alpha_end(s@, j as int),
        decreases n - j,
    {
        let c = s.get_char(j);
        if !(('a' <= c && c <= 'z') || ('A' <= c && c <= 'Z')) {
            return j;
        }
        j = j + 1;
    }
    j
}

/// Reads the value of the digit run `s[from..to]`; `None` reports a value
/// beyond `u64::MAX`.
pub fn scan_digits_value(s: &str, from: usize, to: usize) -> (r: Option<u64>)
    requires
        from <= to,
        to as int <= s@.len(),
        forall|j: int| from <= j < to ==> is_digit(#[trigger] s@[j]),
    ensures
        match r {
            Option::Some(v) => digits_val_range(s@, from as int, to as int) == v as nat,
            Option::None => digits_val_range(s@, from as int, to as int) > u64::MAX,
        },
{
    let mut acc: u64 = 0;
    let mut over = false;
    let mut j = from;
    while j < to
        invariant
            from <= j <= to,
            to as int <= s@.len(),
            forall|k: int| from <= k < to ==> is_digit(#[trigger] s@[k]),
            !over ==> acc as nat == digits_val_range(s@, from as int, j as int),
            over ==> digits_val_range(s@, from as int, j as int) > u64::MAX,
        decreases to - j,
    {
        let c = s.get_char(j);
        let d: u64 = (c as u32 - '0' as u32) as u64;
        proof {
            assert(digits_val_range(s@, from as int, j as int + 1) == digits_val_range(
                s@,
                from as int,
                j as int,
            ) * 10 + digit_val(s@[j as int]));
        }
        if over {
            proof {
                let v = digits_val_range(s@, from as int, j as int);
                assert(v * 10 + digit_val(s@[j as int]) > u64::MAX) by (nonlinear_arith)
                    requires
                        v > u64::MAX,
                ;
            }
        } else {
            let nv: u128 = acc as u128 * 10 + d as u128;
            if nv > u64::MAX as u128 {
                over = true;
            } else {
                acc = nv as u64;
            }
        }
        j = j + 1;
    }
    if over {
        None
    } else {
        Some(acc)
    }
}

/// Compares one character case-insensitively against a lowercase reference.
pub fn char_eq_lower(c: char, lower: char) -> (b: bool)
    ensures
        b == eq_lower(c, lower),
{
    c == lower || ('A' <= c && c <= 'Z' && (c as u32) + 32 == (lower as u32))
}

/// Compares `s[from..to]` case-insensitively against a lowercase reference
/// word.
pub fn word_eq_lower(s: &str, from: usize, to: usize, w: &str) -> (b: bool)
    requires
        from <= to,
        to as int <= s@.len(),
    ensures
        b == eq_lower_seq(s@.subrange(from as int, to as int), w@),
{
    let wn = w.unicode_len();
    if to - from != wn {
        return false;
    }
    let mut k: usize = 0;
    while k < wn
        invariant
            from <= to <= s@.len(),
            wn == w@.len(),
            to - from == wn,
            0 <= k <= wn,
            forall|j: int|
                0 <= j < k ==> eq_lower(
                    #[trigger] s@.subrange(from as int, to as int)[j],
                    w@[j],
                ),
        decreases wn - k,
    {
        let c = s.get_char(from + k);
        let lc = w.get_char(k);
        let ok = c == lc || ('A' <= c && c <= 'Z' && (c as u32) + 32 == (lc as u32));
        if !ok {
            proof {
                assert(!eq_lower(s@.subrange(from as int, to as int)[k as int], w@[k as int]));
            }
            return false;
        }
        k = k + 1;
    }
    true
}

/// Whether `s` begins with the prefix `p`.
pub fn str_starts_with(s: &str, p: &str) -> (b: bool)
    ensures
        b == (s@.len() >= p@.len() && s@.subrange(0, p@.len() as int) == p@),
{
    let pn = p.unicode_len();
    let sn = s.unicode_len();
    if sn < pn {
        return false;
    }
    let mut k: usize = 0;
    while k < pn
        invariant
            pn == p@.len(),
            sn == s@.len(),
            pn <= sn,
            0 <= k <= pn,
            forall|j: int| 0 <= j < k ==> s@[j] == p@[j],
        decreases pn - k,
    {
        if s.get_char(k) != p.get_char(k) {
            proof {
                assert(s@.subrange(0, pn as int) != p@) by {
                    if s@.subrange(0, pn as int) == p@ {
                        assert(s@.subrange(0, pn as int)[k as int] == p@[k as int]);
                    }
                }
            }
            return false;
        }
        k = k + 1;
    }
    proof {
        assert(s@.subrange(0, pn as int) =~= p@);
    }
    true
}

/// Character-by-character string equality, proved against the views.
pub fn str_eq(a: &str, b: &str) -> (r: bool)
    ensures
        r == (a@ == b@),
{
    let n = a.unicode_len();
    if n != b.unicode_len() {
        proof {
            assert(a@ != b@) by {
                if a@ == b@ {
                    assert(a@.len() == b@.len());
                }
            }
        }
        return false;
    }
    let mut i: usize = 0;
    while i < n
        invariant
            n == a@.len(),
            n == b@.len(),
            0 <= i <= n,
            forall|j: int| 0 <= j < i ==> a@[j] == b@[j],
        decreases n - i,
    {
        if a.get_char(i) != b.get_char(i) {
            proof {
                assert(a@ != b@) by {
                    if a@ == b@ {
                        assert(a@[i as int] == b@[i as int]);
                    }
                }
            }
            return false;
        }
        i = i + 1;
    }
    proof {
        assert(a@ =~= b@);
    }
    true
}

} // verus!
