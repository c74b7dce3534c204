//! Normalization of a free-form time string into the scheduler's textual
//! format.
//!
//! Two paths exist. A string that already matches the scheduler's own time
//! grammar — an optional `days-` prefix, then up to three `:`-separated
//! numeric fields, every field optional — is passed through unchanged, so
//! that inputs already meant for the scheduler stay verbatim (including a
//! bare numeral, which the scheduler reads as minutes). Anything else is read
//! as a free-form duration expression: one or more components, each a decimal
//! magnitude followed by an optional unit word (nanoseconds up to years,
//! case-insensitive, blanks allowed between tokens), where a trailing
//! magnitude without a unit counts as seconds. The total is rendered with
//! `slurm_time_str`, rounding a positive sub-second total up to one second.

use vstd::prelude::*;

use crate::text::alpha_end;
use crate::text::count_char;
use crate::text::digits_end;
use crate::text::digits_val_range;
use crate::text::eq_lower_seq;
use crate::text::is_alpha;
use crate::text::is_digit;
use crate::text::lemma_alpha_end;
use crate::text::lemma_count_char_exists;
use crate::text::lemma_count_char_exists_two;
use crate::text::lemma_count_char_from_three_positions;
use crate::text::lemma_count_char_from_two_positions;
use crate::text::lemma_digits_end;
use crate::text::lemma_spaces_end;
use crate::text::spaces_end;
use crate::text::word_eq_lower;

verus! {

/// The scheduler's own time grammar: `[days-][hours:][minutes:][seconds]`,
/// every part optional, each a run of one or more digits. Characterized by:
/// only digits, `:` and `-` occur; at most one `-` and at most two `:`; every
/// separator directly follows a digit; and the `-` comes before any `:`.
pub open spec fn is_slurm_time_str(s: Seq<char>) -> bool {
    &&& forall|i: int|
        0 <= i < s.len() ==> is_digit(#[trigger] s[i]) || s[i] == ':' || s[i] == '-'
    &&& count_char(s, s.len() as int, '-') <= 1
    &&& count_char(s, s.len() as int, ':') <= 2
    &&& forall|i: int|
        #![trigger s[i]]
        0 <= i < s.len() && (s[i] == ':' || s[i] == '-') ==> i >= 1 && is_digit(s[i - 1])
    &&& forall|i: int, j: int|
        #![trigger s[i], s[j]]
        0 <= i < s.len() && 0 <= j < s.len() && s[i] == '-' && s[j] == ':' ==> i < j
}

/// Decides membership in the scheduler's own time grammar.
pub fn check_slurm_format(s: &str) -> (b: bool)
    ensures
        b == is_slurm_time_str(s@),
{
    let n = s.unicode_len();
    let mut dashes: usize = 0;
    let mut colons: usize = 0;
    let mut prev_digit = false;
    let mut i: usize = 0;
    while i < n
        invariant
            n == s@.len(),
            0 <= i <= n,
            dashes == count_char(s@, i as int, '-'),
            colons == count_char(s@, i as int, ':'),
            dashes <= 1,
            colons <= 2,
            prev_digit == (i > 0 && is_digit(s@[i as int - 1])),
            forall|j: int|
                0 <= j < i ==> is_digit(#[trigger] s@[j]) || s@[j] == ':' || s@[j] == '-',
            forall|j: int|
                #![trigger s@[j]]
                0 <= j < i && (s@[j] == ':' || s@[j] == '-') ==> j >= 1 && is_digit(s@[j - 1]),
            forall|j: int, k: int|
                #![trigger s@[j], s@[k]]
                0 <= j < i && 0 <= k < i && s@[j] == '-' && s@[k] == ':' ==> j < k,
        decreases n - i,
    {
        let c = s.get_char(i);
        let digit = '0' <= c && c <= '9';
        proof {
            assert(count_char(s@, i as int + 1, '-') == count_char(s@, i as int, '-') + (
            if s@[i as int] == '-' {
                1nat
            } else {
                0nat
            }));
            assert(count_char(s@, i as int + 1, ':') == count_char(s@, i as int, ':') + (
            if s@[i as int] == ':' {
                1nat
            } else {
                0nat
            }));
        }
        if digit {
        } else if c == ':' {
            if colons == 2 {
                proof {
                    lemma_count_char_exists_two(s@, ':', i as int);
                    let (j, k) = choose|j: int, k: int|
                        0 <= j < k < i as int && s@[j] == ':' && s@[k] == ':';
                    lemma_count_char_from_three_positions(
                        s@,
                        ':',
                        j,
                        k,
                        i as int,
                        s@.len() as int,
                    );
                }
                return false;
            }
            if !prev_digit {
                return false;
            }
            colons = colons + 1;
        } else if c == '-' {
            if dashes == 1 {
                proof {
                    lemma_count_char_exists(s@, '-', i as int);
                    let j = choose|j: int| 0 <= j < i as int && s@[j] == '-';
                    lemma_count_char_from_two_positions(s@, '-', j, i as int, s@.len() as int);
                }
                return false;
            }
            if colons > 0 {
                proof {
                    lemma_count_char_exists(s@, ':', i as int);
                }
                return false;
            }
            if !prev_digit {
                return false;
            }
            proof {
                assert forall|k: int| 0 <= k < i as int implies s@[k] != ':' by {
                    if s@[k] == ':' {
                        crate::text::lemma_count_char_from_position(s@, ':', k, i as int);
                    }
                }
            }
            dashes = dashes + 1;
        } else {
            return false;
        }
        prev_digit = digit;
        i = i + 1;
    }
    true
}

/// Nanoseconds in one unit of each supported kind.
pub open spec fn dur_unit_ns(w: Seq<char>) -> Option<nat> {
    if eq_lower_seq(w, "y"@) || eq_lower_seq(w, "year"@) || eq_lower_seq(w, "years"@) {
        Option::Some(31_536_000_000_000_000 as nat)
    } else if eq_lower_seq(w, "mon"@) || eq_lower_seq(w, "month"@) || eq_lower_seq(w, "months"@) {
        Option::Some(2_592_000_000_000_000 as nat)
    } else if eq_lower_seq(w, "w"@) || eq_lower_seq(w, "week"@) || eq_lower_seq(w, "weeks"@) {
        Option::Some(604_800_000_000_000 as nat)
    } else if eq_lower_seq(w, "d"@) || eq_lower_seq(w, "day"@) || eq_lower_seq(w, "days"@) {
        Option::Some(86_400_000_000_000 as nat)
    } else if eq_lower_seq(w, "h"@) || eq_lower_seq(w, "hr"@) || eq_lower_seq(w, "hour"@)
        || eq_lower_seq(w, "hours"@) {
        Option::Some(3_600_000_000_000 as nat)
    } else if eq_lower_seq(w, "m"@) || eq_lower_seq(w, "min"@) || eq_lower_seq(w, "minute"@)
        || eq_lower_seq(w, "minutes"@) {
        Option::Some(60_000_000_000 as nat)
    } else if eq_lower_seq(w, "s"@) || eq_lower_seq(w, "sec"@) || eq_lower_seq(w, "second"@)
        || eq_lower_seq(w, "seconds"@) {
        Option::Some(1_000_000_000 as nat)
    } else if eq_lower_seq(w, "ms"@) || eq_lower_seq(w, "msec"@) || eq_lower_seq(
        w,
        "millisecond"@,
    ) || eq_lower_seq(w, "milliseconds"@) {
        Option::Some(1_000_000 as nat)
    } else if eq_lower_seq(w, "us"@) || eq_lower_seq(w, "usec"@) || eq_lower_seq(w, "usecond"@)
        || eq_lower_seq(w, "microsecond"@) || eq_lower_seq(w, "microseconds"@) {
        Option::Some(1_000 as nat)
    } else if eq_lower_seq(w, "ns"@) || eq_lower_seq(w, "nsec"@) || eq_lower_seq(
        w,
        "nanosecond"@,
    ) || eq_lower_seq(w, "nanoseconds"@) {
        Option::Some(1 as nat)
    } else {
        Option::None
    }
}

/// Looks the word `s[from..to]` up in the unit table.
fn unit_ns_lookup(s: &str, from: usize, to: usize) -> (r: Option<u64>)
    requires
        from <= to,
        to as int <= s@.len(),
    ensures
        match r {
            Option::Some(f) => dur_unit_ns(s@.subrange(from as int, to as int)) == Option::Some(
                f as nat,
            ) && f >= 1,
            Option::None => dur_unit_ns(s@.subrange(from as int, to as int)) is None,
        },
{
    if word_eq_lower(s, from, to, "y") || word_eq_lower(s, from, to, "year") || word_eq_lower(
        s,
        from,
        to,
        "years",
    ) {
        Some(31_536_000_000_000_000)
    } else if word_eq_lower(s, from, to, "mon") || word_eq_lower(s, from, to, "month")
        || word_eq_lower(s, from, to, "months") {
        Some(2_592_000_000_000_000)
    } else if word_eq_lower(s, from, to, "w") || word_eq_lower(s, from, to, "week")
        || word_eq_lower(s, from, to, "weeks") {
        Some(604_800_000_000_000)
    } else if word_eq_lower(s, from, to, "d") || word_eq_lower(s, from, to, "day")
        || word_eq_lower(s, from, to, "days") {
        Some(86_400_000_000_000)
    } else if word_eq_lower(s, from, to, "h") || word_eq_lower(s, from, to, "hr") || word_eq_lower(
        s,
        from,
        to,
        "hour",
    ) || word_eq_lower(s, from, to, "hours") {
        Some(3_600_000_000_000)
    } else if word_eq_lower(s, from, to, "m") || word_eq_lower(s, from, to, "min")
        || word_eq_lower(s, from, to, "minute") || word_eq_lower(s, from, to, "minutes") {
        Some(60_000_000_000)
    } else if word_eq_lower(s, from, to, "s") || word_eq_lower(s, from, to, "sec")
        || word_eq_lower(s, from, to, "second") || word_eq_lower(s, from, to, "seconds") {
        Some(1_000_000_000)
    } else if word_eq_lower(s, from, to, "ms") || word_eq_lower(s, from, to, "msec")
        || word_eq_lower(s, from, to, "millisecond") || word_eq_lower(
        s,
        from,
        to,
        "milliseconds",
    ) {
        Some(1_000_000)
    } else if word_eq_lower(s, from, to, "us") || word_eq_lower(s, from, to, "usec")
        || word_eq_lower(s, from, to, "usecond") || word_eq_lower(s, from, to, "microsecond")
        || word_eq_lower(s, from, to, "microseconds") {
        Some(1_000)
    } else if word_eq_lower(s, from, to, "ns") || word_eq_lower(s, from, to, "nsec")
        || word_eq_lower(s, from, to, "nanosecond") || word_eq_lower(s, from, to, "nanoseconds") {
        Some(1)
    } else {
        None
    }
}

/// The total of the components that start at `i`, in nanoseconds: a decimal
/// magnitude, an optional unit word (a missing one at the very end of the
/// string means seconds), then possibly further components; blanks may stand
/// between tokens.
pub open spec fn dur_comps_ns(s: Seq<char>, i: int) -> Option<nat>
    decreases s.len() - i,
    when 0 <= i <= s.len()
    via dur_comps_ns_decreases
{
    if i >= s.len() {
        Option::None
    } else if !is_digit(s[i]) {
        Option::None
    } else {
        let j = digits_end(s, i);
        let mag = digits_val_range(s, i, j);
        let k = spaces_end(s, j);
        if k >= s.len() {
            Option::Some(mag * 1_000_000_000)
        } else if is_alpha(s[k]) {
            let l = alpha_end(s, k);
            match dur_unit_ns(s.subrange(k, l)) {
                Option::None => Option::None,
                Option::Some(f) => {
                    let m = spaces_end(s, l);
                    if m >= s.len() {
                        Option::Some(mag * f)
                    } else {
                        match dur_comps_ns(s, m) {
                            Option::None => Option::None,
                            Option::Some(rest) => Option::Some(mag * f + rest),
                        }
                    }
                },
            }
        } else {
            Option::None
        }
    }
}

#[via_fn]
proof fn dur_comps_ns_decreases(s: Seq<char>, i: int) {
    if 0 <= i < s.len() && is_digit(s[i]) {
        lemma_digits_end(s, i + 1);
        assert(digits_end(s, i) == digits_end(s, i + 1));
        let j = digits_end(s, i);
        lemma_spaces_end(s, j);
        let k = spaces_end(s, j);
        if k < s.len() && is_alpha(s[k]) {
            lemma_alpha_end(s, k + 1);
            assert(alpha_end(s, k) == alpha_end(s, k + 1));
            let l = alpha_end(s, k);
            lemma_spaces_end(s, l);
        }
    }
}

/// The total of a whole free-form duration expression, in nanoseconds.
pub open spec fn duration_total_ns(s: Seq<char>) -> Option<nat> {
    dur_comps_ns(s, spaces_end(s, 0))
}

/// Why a free-form duration expression was not normalized.
enum DurationFailure {
    /// The expression does not follow the duration grammar.
    Invalid,
    /// The expression is well-formed but its total is out of range.
    TooLarge,
}

/// Parses a free-form duration expression into total nanoseconds.
fn parse_duration_ns(s: &str) -> (r: Result<u64, DurationFailure>)
    ensures
        match r {
            Result::Ok(v) => duration_total_ns(s@) == Option::Some(v as nat),
            Result::Err(e) => match e {
                DurationFailure::Invalid => duration_total_ns(s@) is None,
                DurationFailure::TooLarge => duration_total_ns(s@) is Some && duration_total_ns(
                    s@,
                ).unwrap() > u64::MAX,
            },
        },
{
    let n = s.unicode_len();
    let start = crate::text::scan_spaces(s, 0);
    let mut i = start;
    let mut total: u64 = 0;
    let mut over = false;
    let ghost mut base: nat = 0nat;
    loop
        invariant
            n == s@.len(),
            0 <= i <= n,
            !over ==> base == total as nat,
            over ==> base > u64::MAX,
            ({
                let rest = dur_comps_ns(s@, i as int);
                match rest {
                    Option::None => duration_total_ns(s@) is None,
                    Option::Some(v) => duration_total_ns(s@) == Option::Some((base + v) as nat),
                }
            }),
        decreases n - i,
    {
        if i >= n {
            return Err(DurationFailure::Invalid);
        }
        let c = s.get_char(i);
        if !('0' <= c && c <= '9') {
            return Err(DurationFailure::Invalid);
        }
        let j = crate::text::scan_digits(s, i);
        proof {
            lemma_digits_end(s@, i as int);
        }
        let mag = crate::text::scan_digits_value(s, i, j);
        let k = crate::text::scan_spaces(s, j);
        let ghost mag_true = digits_val_range(s@, i as int, j as int);
        let f: u64;
        let after: usize;
        if k >= n {
            f = 1_000_000_000;
            after = n;
        } else {
            let ck = s.get_char(k);
            if !(('a' <= ck && ck <= 'z') || ('A' <= ck && ck <= 'Z')) {
                return Err(DurationFailure::Invalid);
            }
            let l = crate::text::scan_alpha(s, k);
            match unit_ns_lookup(s, k, l) {
                Option::None => {
                    return Err(DurationFailure::Invalid);
                },
                Option::Some(ff) => {
                    f = ff;
                    after = crate::text::scan_spaces(s, l);
                },
            }
        }
        let ghost comp_true = mag_true * (f as nat);
        let mut comp_over = false;
        let mut comp: u64 = 0;
        match mag {
            Option::Some(mv) => {
                let c128: u128 = mv as u128 * f as u128;
                if c128 > u64::MAX as u128 {
                    comp_over = true;
                } else {
                    comp = c128 as u64;
                }
            },
            Option::None => {
                comp_over = true;
                proof {
                    assert(mag_true * (f as nat) >= mag_true * 1) by (nonlinear_arith)
                        requires
                            f >= 1,
                            mag_true >= 0,
                    ;
                }
            },
        }
        proof {
            if comp_over {
                assert(comp_true > u64::MAX);
            } else {
                assert(comp_true == comp as nat);
            }
        }
        let new_over: bool;
        let new_total: u64;
        if over || comp_over {
            new_over = true;
            new_total = 0;
        } else {
            let t128: u128 = total as u128 + comp as u128;
            if t128 > u64::MAX as u128 {
                new_over = true;
                new_total = 0;
            } else {
                new_over = false;
                new_total = t128 as u64;
            }
        }
        proof {
            base = base + comp_true;
        }
        over = new_over;
        total = new_total;
        if after >= n {
            proof {
                assert(dur_comps_ns(s@, i as int) is Some);
            }
            if over {
                return Err(DurationFailure::TooLarge);
            }
            return Ok(total);
        }
        i = after;
    }
}

/// The whole-second count that a nanosecond total renders as: a positive
/// total of less than a second rounds up to one second.
pub open spec fn ns_to_slurm_secs(ns: nat) -> nat {
    if ns == 0 {
        0
    } else if ns < 1_000_000_000 {
        1
    } else {
        ns / 1_000_000_000
    }
}

/// What `parse_time` returns: a string in the scheduler's own grammar passes
/// through unchanged; otherwise a well-formed duration expression whose total
/// is in range is rendered in the scheduler's format; anything else fails.
pub open spec fn time_normalizes_to(s: Seq<char>) -> Option<Seq<char>> {
    if is_slurm_time_str(s) {
        Option::Some(s)
    } else {
        match duration_total_ns(s) {
            Option::Some(v) => if v <= u64::MAX as nat {
                Option::Some(crate::time_format::slurm_time_str(ns_to_slurm_secs(v)))
            } else {
                Option::None
            },
            Option::None => Option::None,
        }
    }
}

/// The text that begins every `parse_time` error message: the rejected input
/// followed by a fixed explanation marker.
pub open spec fn time_err_prefix(s: Seq<char>) -> Seq<char> {
    s + " is not a valid time: "@
}

/// Parses a time string into the scheduler's time format.
///
/// A string already in the scheduler's grammar is returned unchanged; a
/// free-form duration expression is normalized; anything else is an error
/// whose message starts with the input and an explanation marker.
pub fn parse_time(s: &str) -> (r: Result<String, String>)
    ensures
        match r {
            Result::Ok(t) => time_normalizes_to(s@) == Option::Some(t@),
            Result::Err(m) => {
                &&& time_normalizes_to(s@) is None
                &&& m@.len() >= time_err_prefix(s@).len()
                &&& m@.subrange(0, time_err_prefix(s@).len() as int) == time_err_prefix(s@)
            },
        },
{
    if check_slurm_format(s) {
        return Ok(String::from_str(s));
    }
    match parse_duration_ns(s) {
        Result::Ok(ns) => {
            let eff: u64 = if ns == 0 {
                0
            } else if ns < 1_000_000_000 {
                1
            } else {
                ns / 1_000_000_000
            };
            Ok(crate::time_format::slurm_time_string(eff))
        },
        Result::Err(e) => {
            let mut msg = String::from_str(s);
            msg.append(" is not a valid time: ");
            proof {
                assert(msg@ == time_err_prefix(s@));
            }
            match e {
                DurationFailure::Invalid => {
                    msg.append("the input is not a recognized duration expression");
                },
                DurationFailure::TooLarge => {
                    msg.append("the total duration is too large");
                },
            }
            proof {
                assert(msg@.subrange(0, time_err_prefix(s@).len() as int) =~= time_err_prefix(
                    s@,
                ));
            }
            Err(msg)
        },
    }
}

/// Two nonempty digit runs joined by one colon are in the scheduler grammar.
proof fn lemma_colon_join2(a: Seq<char>, b: Seq<char>)
    requires
        a.len() >= 1,
        b.len() >= 1,
        forall|i: int| 0 <= i < a.len() ==> is_digit(#[trigger] a[i]),
        forall|i: int| 0 <= i < b.len() ==> is_digit(#[trigger] b[i]),
    ensures
        is_slurm_time_str(a + seq![':'] + b),
{
    let s = a + seq![':'] + b;
    let la = a.len() as int;
    assert forall|i: int| 0 <= i < s.len() implies is_digit(#[trigger] s[i]) || s[i] == ':'
        || s[i] == '-' by {
        if i < la {
            assert(s[i] == a[i]);
        } else if i == la {
            assert(s[i] == ':');
        } else {
            assert(s[i] == b[i - la - 1]);
        }
    }
    assert forall|i: int| 0 <= i < s.len() && s[i] == '-' implies false by {
        assert(is_digit(s[i]) || s[i] == ':');
    }
    crate::text::lemma_count_char_zero(s, '-', s.len() as int);
    assert forall|i: int| 0 <= i < s.len() && s[i] == ':' implies i == la by {
        if i != la {
            assert(is_digit(s[i]));
        }
    }
    if count_char(s, s.len() as int, ':') >= 2 {
        lemma_count_char_exists_two(s, ':', s.len() as int);
        let (j, k) = choose|j: int, k: int|
            0 <= j < k < s.len() && s[j] == ':' && s[k] == ':';
        assert(j == la && k == la);
        assert(false);
    }
    assert(s[la - 1] == a[la - 1]);
}

/// Three nonempty digit runs joined by two colons are in the scheduler
/// grammar.
proof fn lemma_colon_join3(a: Seq<char>, b: Seq<char>, c: Seq<char>)
    requires
        a.len() >= 1,
        b.len() >= 1,
        c.len() >= 1,
        forall|i: int| 0 <= i < a.len() ==> is_digit(#[trigger] a[i]),
        forall|i: int| 0 <= i < b.len() ==> is_digit(#[trigger] b[i]),
        forall|i: int| 0 <= i < c.len() ==> is_digit(#[trigger] c[i]),
    ensures
        is_slurm_time_str(a + seq![':'] + b + seq![':'] + c),
{
    let s = a + seq![':'] + b + seq![':'] + c;
    let p1 = a.len() as int;
    let p2 = a.len() + 1 + b.len() as int;
    assert forall|i: int| 0 <= i < s.len() implies is_digit(#[trigger] s[i]) || s[i] == ':'
        || s[i] == '-' by {
        if i < p1 {
            assert(s[i] == a[i]);
        } else if i == p1 {
            assert(s[i] == ':');
        } else if i < p2 {
            assert(s[i] == b[i - p1 - 1]);
        } else if i == p2 {
            assert(s[i] == ':');
        } else {
            assert(s[i] == c[i - p2 - 1]);
        }
    }
    assert forall|i: int| 0 <= i < s.len() && s[i] == '-' implies false by {
        assert(is_digit(s[i]) || s[i] == ':');
    }
    crate::text::lemma_count_char_zero(s, '-', s.len() as int);
    assert forall|i: int| 0 <= i < s.len() && s[i] == ':' implies i == p1 || i == p2 by {
        if i != p1 && i != p2 {
            assert(is_digit(s[i]));
        }
    }
    if count_char(s, s.len() as int, ':') >= 3 {
        crate::text::lemma_count_char_exists_three(s, ':', s.len() as int);
        let (j, k, l) = choose|j: int, k: int, l: int|
            0 <= j < k < l < s.len() && s[j] == ':' && s[k] == ':' && s[l] == ':';
        assert(false);
    }
    assert forall|i: int|
        #![trigger s[i]]
        0 <= i < s.len() && (s[i] == ':' || s[i] == '-') implies i >= 1 && is_digit(s[i - 1]) by {
        if s[i] == ':' {
            if i == p1 {
                assert(s[i - 1] == a[p1 - 1]);
            } else {
                assert(s[i - 1] == b[i - 1 - p1 - 1]);
            }
        }
    }
}

/// The rendering of any whole-second count is itself in the scheduler's own
/// grammar, so normalizing is idempotent: the fast path returns a normalized
/// time unchanged.
pub proof fn lemma_normalize_time_idempotent(t: nat)
    ensures
        is_slurm_time_str(crate::time_format::slurm_time_str(t)),
        time_normalizes_to(crate::time_format::slurm_time_str(t)) == Option::Some(
            crate::time_format::slurm_time_str(t),
        ),
{
    let s = crate::time_format::slurm_time_str(t);
    if t == 0 {
        assert(s == seq!['0']);
        assert(forall|i: int| 0 <= i < s.len() ==> is_digit(#[trigger] s[i]));
        crate::text::lemma_count_char_zero(s, '-', s.len() as int);
        crate::text::lemma_count_char_zero(s, ':', s.len() as int);
    } else if t < 60 {
        crate::digits::lemma_dec_str_digits(t);
        assert(seq!['0', ':'] + crate::digits::dec_str(t) =~= seq!['0'] + seq![':']
            + crate::digits::dec_str(t));
        lemma_colon_join2(seq!['0'], crate::digits::dec_str(t));
    } else if t < 3600 {
        crate::digits::lemma_dec_str_digits(t / 60);
        crate::digits::lemma_dec_str_digits(t % 60);
        lemma_colon_join2(crate::digits::dec_str(t / 60), crate::digits::dec_str(t % 60));
    } else {
        crate::digits::lemma_dec_str_digits(t / 3600);
        crate::digits::lemma_dec_str_digits((t / 60) % 60);
        crate::digits::lemma_dec_str_digits(t % 60);
        lemma_colon_join3(
            crate::digits::dec_str(t / 3600),
            crate::digits::dec_str((t / 60) % 60),
            crate::digits::dec_str(t % 60),
        );
    }
}

} // verus!
