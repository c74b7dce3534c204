//! Normalization of a free-form memory-size string into the scheduler's
//! `{integer}{unit}` format.
//!
//! The input `"0"` is a sentinel meaning "no explicit request" and passes
//! through untouched. An input without any ASCII letter gets an implicit
//! megabyte unit, the scheduler's default. Otherwise the input is a decimal
//! number (with an optional fraction) followed by an optional unit word:
//! bytes, or a decimal prefix `k`/`m`/`g`/`t`/`p`/`e` scaling by powers of
//! 1000, or the binary `ki`/`mi`/... forms scaling by powers of 1024, each
//! with an optional trailing `b`, all case-insensitive. The exact byte
//! quantity is converted to megabytes — or to kilobytes when it falls below
//! one megabyte — and rounded up to the nearest integer, never down.

use vstd::prelude::*;

use crate::digits::append_dec;
use crate::digits::dec_str;
use crate::text::alpha_end;
use crate::text::digits_end;
use crate::text::digits_val_range;
use crate::text::eq_lower;
use crate::text::is_alpha;
use crate::text::is_digit;
use crate::text::lemma_digits_end;
use crate::text::spaces_end;

verus! {

/// Powers of ten.
pub open spec fn pow10(e: nat) -> nat
    decreases e,
{
    if e == 0 {
        1
    } else {
        10 * pow10((e - 1) as nat)
    }
}

pub proof fn lemma_pow10_monotone(e1: nat, e2: nat)
    requires
        e1 <= e2,
    ensures
        0 < pow10(e1) <= pow10(e2),
    decreases e2,
{
    if e2 > 0 {
        if e1 == e2 {
            lemma_pow10_monotone(0, (e2 - 1) as nat);
        } else {
            lemma_pow10_monotone(e1, (e2 - 1) as nat);
        }
    }
}

/// Rounding up to the next whole number: the least integer at or above
/// `a / b`.
pub open spec fn ceil_div(a: nat, b: nat) -> nat
    recommends
        b > 0,
{
    (a + b - 1) as nat / b
}

/// `ceil_div` is the exact ceiling: at or above the quotient, and the least
/// such integer.
pub proof fn lemma_ceil_div(a: nat, b: nat)
    requires
        b > 0,
    ensures
        ceil_div(a, b) * b >= a,
        a > 0 ==> (ceil_div(a, b) as int - 1) * (b as int) < a as int,
        a == 0 ==> ceil_div(a, b) == 0,
{
    let q = ceil_div(a, b);
    vstd::arithmetic::div_mod::lemma_fundamental_div_mod((a + b - 1) as int, b as int);
    let r = (a + b - 1) as int % (b as int);
    vstd::arithmetic::div_mod::lemma_mod_bound((a + b - 1) as int, b as int);
    assert((a + b - 1) as int == (b as int) * (q as int) + r);
    assert((q as int) * (b as int) == (a + b - 1) as int - r);
    assert((q as int - 1) * (b as int) == (q as int) * (b as int) - (b as int))
        by (nonlinear_arith);
    if a == 0 {
        vstd::arithmetic::div_mod::lemma_basic_div((b - 1) as int, b as int);
    }
}

/// How the numeric-and-unit grammar reads one input.
pub enum MemOutcome {
    /// An exact byte quantity `num / den`.
    Value(nat, nat),
    /// Nothing but blanks.
    NoValue,
    /// The named character breaks the numeric portion.
    NotNumber(char),
    /// The numeric portion is too long to process.
    TooLong,
    /// The named character breaks the unit.
    BadUnit(char),
}

/// How a unit word scales the number into bytes.
pub enum UnitScale {
    /// Multiply by this many bytes.
    Scale(nat),
    /// The named character breaks the unit.
    BadChar(char),
}

/// The decimal scaling of one unit-prefix letter.
pub open spec fn prefix_scale_dec(c: char) -> Option<nat> {
    if eq_lower(c, 'k') {
        Option::Some(1_000 as nat)
    } else if eq_lower(c, 'm') {
        Option::Some(1_000_000 as nat)
    } else if eq_lower(c, 'g') {
        Option::Some(1_000_000_000 as nat)
    } else if eq_lower(c, 't') {
        Option::Some(1_000_000_000_000 as nat)
    } else if eq_lower(c, 'p') {
        Option::Some(1_000_000_000_000_000 as nat)
    } else if eq_lower(c, 'e') {
        Option::Some(1_000_000_000_000_000_000 as nat)
    } else {
        Option::None
    }
}

/// The binary scaling of one unit-prefix letter.
pub open spec fn prefix_scale_bin(c: char) -> Option<nat> {
    if eq_lower(c, 'k') {
        Option::Some(1_024 as nat)
    } else if eq_lower(c, 'm') {
        Option::Some(1_048_576 as nat)
    } else if eq_lower(c, 'g') {
        Option::Some(1_073_741_824 as nat)
    } else if eq_lower(c, 't') {
        Option::Some(1_099_511_627_776 as nat)
    } else if eq_lower(c, 'p') {
        Option::Some(1_125_899_906_842_624 as nat)
    } else if eq_lower(c, 'e') {
        Option::Some(1_152_921_504_606_846_976 as nat)
    } else {
        Option::None
    }
}

/// Reads a nonempty unit word: `b` alone means bytes; a prefix letter may
/// stand alone, carry a `b`, or carry an `i`(`b`) for its binary scaling.
pub open spec fn unit_scale(w: Seq<char>) -> UnitScale
    recommends
        w.len() >= 1,
{
    if eq_lower(w[0], 'b') {
        if w.len() == 1 {
            UnitScale::Scale(1)
        } else {
            UnitScale::BadChar(w[1])
        }
    } else {
        match prefix_scale_dec(w[0]) {
            Option::None => UnitScale::BadChar(w[0]),
            Option::Some(dec) => {
                if w.len() == 1 {
                    UnitScale::Scale(dec)
                } else if eq_lower(w[1], 'b') {
                    if w.len() == 2 {
                        UnitScale::Scale(dec)
                    } else {
                        UnitScale::BadChar(w[2])
                    }
                } else if eq_lower(w[1], 'i') {
                    if w.len() == 2 {
                        UnitScale::Scale(prefix_scale_bin(w[0]).unwrap())
                    } else if eq_lower(w[2], 'b') {
                        if w.len() == 3 {
                            UnitScale::Scale(prefix_scale_bin(w[0]).unwrap())
                        } else {
                            UnitScale::BadChar(w[3])
                        }
                    } else {
                        UnitScale::BadChar(w[2])
                    }
                } else {
                    UnitScale::BadChar(w[1])
                }
            },
        }
    }
}

/// Reads the unit region that starts at `i` (blanks, a unit word, then only
/// blanks to the end) and scales the number `ip.fp` (with `fd` fraction
/// digits) into an exact byte quantity.
pub open spec fn mem_after_number(s: Seq<char>, ip: nat, fp: nat, fd: nat, i: int) -> MemOutcome
    recommends
        0 <= i <= s.len(),
{
    if ip * pow10(fd) + fp >= 10_000_000_000_000_000_000 || fd > 30 {
        MemOutcome::TooLong
    } else {
        let j0 = spaces_end(s, i);
        let j1 = alpha_end(s, j0);
        let j2 = spaces_end(s, j1);
        if j2 < s.len() {
            MemOutcome::BadUnit(s[j2])
        } else if j1 == j0 {
            MemOutcome::Value((ip * pow10(fd) + fp), pow10(fd))
        } else {
            match unit_scale(s.subrange(j0, j1)) {
                UnitScale::Scale(f) => MemOutcome::Value((ip * pow10(fd) + fp) * f, pow10(fd)),
                UnitScale::BadChar(c) => MemOutcome::BadUnit(c),
            }
        }
    }
}

/// Reads a whole memory expression: blanks, a decimal number with an optional
/// fraction, then the unit region.
pub open spec fn mem_parse(s: Seq<char>) -> MemOutcome {
    let i0 = spaces_end(s, 0);
    if i0 >= s.len() {
        MemOutcome::NoValue
    } else if !is_digit(s[i0]) {
        MemOutcome::NotNumber(s[i0])
    } else {
        let i1 = digits_end(s, i0);
        if i1 < s.len() && s[i1] == '.' {
            if i1 + 1 >= s.len() {
                MemOutcome::NotNumber('.')
            } else if !is_digit(s[i1 + 1]) {
                MemOutcome::NotNumber(s[i1 + 1])
            } else {
                let i2 = digits_end(s, i1 + 1);
                mem_after_number(
                    s,
                    digits_val_range(s, i0, i1),
                    digits_val_range(s, i1 + 1, i2),
                    (i2 - i1 - 1) as nat,
                    i2,
                )
            }
        } else {
            mem_after_number(s, digits_val_range(s, i0, i1), 0, 0, i1)
        }
    }
}

/// The normalized rendering of an exact byte quantity `num / den`: megabytes
/// rounded up, or kilobytes rounded up when below one megabyte.
pub open spec fn mem_render(num: nat, den: nat) -> Seq<char>
    recommends
        den > 0,
{
    if num < den * 1_000_000 {
        dec_str(ceil_div(num, den * 1_000)) + seq!['K']
    } else {
        dec_str(ceil_div(num, den * 1_000_000)) + seq!['M']
    }
}

/// No ASCII letter anywhere: such an input gets the implicit megabyte unit.
pub open spec fn has_no_alpha(s: Seq<char>) -> bool {
    forall|i: int| 0 <= i < s.len() ==> !is_alpha(#[trigger] s[i])
}

/// The string that is actually parsed: the input itself, or the input with
/// the implicit megabyte unit appended.
pub open spec fn mem_effective(s: Seq<char>) -> Seq<char> {
    if has_no_alpha(s) {
        s + seq!['M']
    } else {
        s
    }
}

/// What `parse_memory` returns: the sentinel `"0"` unchanged, else the
/// rendering of the parsed byte quantity, else nothing.
pub open spec fn mem_normalizes_to(s: Seq<char>) -> Option<Seq<char>> {
    if s == seq!['0'] {
        Option::Some(seq!['0'])
    } else {
        match mem_parse(mem_effective(s)) {
            MemOutcome::Value(num, den) => Option::Some(mem_render(num, den)),
            _ => Option::None,
        }
    }
}

/// The error message for each way the grammar can reject an input.
pub open spec fn mem_err_msg(o: MemOutcome) -> Seq<char> {
    match o {
        MemOutcome::Value(_, _) => Seq::empty(),
        MemOutcome::NoValue => "no value can be found"@,
        MemOutcome::NotNumber(c) => "the character '"@ + seq![c] + "' is not a number"@,
        MemOutcome::TooLong => "value number is too long"@,
        MemOutcome::BadUnit(c) => "the character '"@ + seq![c] + "' is incorrect"@,
    }
}

/// For a byte quantity `num / den` of at least one megabyte, the rendering
/// takes the `M` branch and its integer is the exact ceiling of the
/// fractional megabyte value: it covers the quantity, and one less would
/// not. Neither truncation nor round-to-nearest satisfies both bounds.
pub proof fn lemma_memory_value_is_ceiling(num: nat, den: nat)
    requires
        den > 0,
        num >= den * 1_000_000,
    ensures
        mem_render(num, den) == dec_str(ceil_div(num, den * 1_000_000)) + seq!['M'],
        ceil_div(num, den * 1_000_000) * (den * 1_000_000) >= num,
        (ceil_div(num, den * 1_000_000) as int - 1) * ((den * 1_000_000) as int) < num as int,
{
    lemma_ceil_div(num, den * 1_000_000);
}

/// Computes a power of ten.
fn pow10_u128(e: usize) -> (r: u128)
    requires
        e <= 30,
    ensures
        r as nat == pow10(e as nat),
{
    proof {
        reveal_with_fuel(pow10, 32);
        assert(pow10(30) == 1_000_000_000_000_000_000_000_000_000_000);
    }
    let mut acc: u128 = 1;
    let mut k: usize = 0;
    while k < e
        invariant
            0 <= k <= e <= 30,
            acc as nat == pow10(k as nat),
            pow10(30) == 1_000_000_000_000_000_000_000_000_000_000,
        decreases e - k,
    {
        proof {
            lemma_pow10_monotone((k + 1) as nat, 30);
        }
        acc = acc * 10;
        k = k + 1;
    }
    acc
}

/// Reads the unit word `t[j0..j1]`; an error carries the absolute position
/// of the character that breaks the unit.
fn unit_scale_exec(t: &str, j0: usize, j1: usize) -> (r: Result<u64, usize>)
    requires
        j0 < j1,
        j1 as int <= t@.len(),
    ensures
        match r {
            Result::Ok(f) => unit_scale(t@.subrange(j0 as int, j1 as int)) == UnitScale::Scale(
                f as nat,
            ) && f >= 1,
            Result::Err(p) => j0 <= p < j1 && unit_scale(t@.subrange(j0 as int, j1 as int))
                == UnitScale::BadChar(t@[p as int]),
        },
{
    let len = j1 - j0;
    let c0 = t.get_char(j0);
    if crate::text::char_eq_lower(c0, 'b') {
        if len == 1 {
            Ok(1)
        } else {
            Err(j0 + 1)
        }
    } else {
        let dec: u64;
        let bin: u64;
        if crate::text::char_eq_lower(c0, 'k') {
            dec = 1_000;
            bin = 1_024;
        } else if crate::text::char_eq_lower(c0, 'm') {
            dec = 1_000_000;
            bin = 1_048_576;
        } else if crate::text::char_eq_lower(c0, 'g') {
            dec = 1_000_000_000;
            bin = 1_073_741_824;
        } else if crate::text::char_eq_lower(c0, 't') {
            dec = 1_000_000_000_000;
            bin = 1_099_511_627_776;
        } else if crate::text::char_eq_lower(c0, 'p') {
            dec = 1_000_000_000_000_000;
            bin = 1_125_899_906_842_624;
        } else if crate::text::char_eq_lower(c0, 'e') {
            dec = 1_000_000_000_000_000_000;
            bin = 1_152_921_504_606_846_976;
        } else {
            return Err(j0);
        }
        if len == 1 {
            Ok(dec)
        } else {
            let c1 = t.get_char(j0 + 1);
            if crate::text::char_eq_lower(c1, 'b') {
                if len == 2 {
                    Ok(dec)
                } else {
                    Err(j0 + 2)
                }
            } else if crate::text::char_eq_lower(c1, 'i') {
                if len == 2 {
                    Ok(bin)
                } else {
                    let c2 = t.get_char(j0 + 2);
                    if crate::text::char_eq_lower(c2, 'b') {
                        if len == 3 {
                            Ok(bin)
                        } else {
                            Err(j0 + 3)
                        }
                    } else {
                        Err(j0 + 2)
                    }
                }
            } else {
                Err(j0 + 1)
            }
        }
    }
}

/// Builds the message that names one character of `t`.
fn char_message(t: &str, p: usize, prefix: &str, suffix: &str) -> (m: String)
    requires
        p < t@.len(),
    ensures
        m@ == prefix@ + seq![t@[p as int]] + suffix@,
{
    let n = t.unicode_len();
    let mut m = String::from_str(prefix);
    m.append(t.substring_char(p, p + 1));
    m.append(suffix);
    proof {
        assert(t@.subrange(p as int, p as int + 1) =~= seq![t@[p as int]]);
        assert(m@ =~= prefix@ + seq![t@[p as int]] + suffix@);
    }
    m
}

/// Normalizes the effective memory string (unit already made explicit).
#[verifier::rlimit(100)]
fn mem_normalize_str(t: &str) -> (r: Result<String, String>)
    ensures
        match r {
            Result::Ok(o) => match mem_parse(t@) {
                MemOutcome::Value(num, den) => o@ == mem_render(num, den),
                _ => false,
            },
            Result::Err(m) => !(mem_parse(t@) is Value) && m@ == mem_err_msg(mem_parse(t@)),
        },
{
    let n = t.unicode_len();
    let i0 = crate::text::scan_spaces(t, 0);
    if i0 >= n {
        return Err(String::from_str("no value can be found"));
    }
    let c0 = t.get_char(i0);
    if !('0' <= c0 && c0 <= '9') {
        return Err(char_message(t, i0, "the character '", "' is not a number"));
    }
    let i1 = crate::text::scan_digits(t, i0);
    proof {
        lemma_digits_end(t@, i0 as int);
    }
    let iv = crate::text::scan_digits_value(t, i0, i1);
    let fv: Option<u64>;
    let fd: usize;
    let after: usize;
    if i1 < n && t.get_char(i1) == '.' {
        if i1 + 1 >= n {
            let mut m = String::from_str("the character '");
            m.append(".");
            m.append("' is not a number");
            proof {
                reveal_strlit(".");
                assert(m@ =~= mem_err_msg(mem_parse(t@)));
            }
            return Err(m);
        }
        let c1 = t.get_char(i1 + 1);
        if !('0' <= c1 && c1 <= '9') {
            return Err(char_message(t, i1 + 1, "the character '", "' is not a number"));
        }
        let i2 = crate::text::scan_digits(t, i1 + 1);
        proof {
            lemma_digits_end(t@, i1 as int + 1);
        }
        fv = crate::text::scan_digits_value(t, i1 + 1, i2);
        fd = i2 - (i1 + 1);
        after = i2;
    } else {
        fv = Some(0);
        fd = 0;
        after = i1;
    }
    let ghost ipv = digits_val_range(t@, i0 as int, i1 as int);
    let ghost fpv: nat = if fd == 0 {
        0nat
    } else {
        digits_val_range(t@, i1 as int + 1, after as int)
    };
    let ghost mant: nat = ipv * pow10(fd as nat) + fpv;
    proof {
        assert(mem_parse(t@) == mem_after_number(t@, ipv, fpv, fd as nat, after as int));
    }
    // Decide whether the numeric portion is too long, and compute its exact
    // value when it is not.
    let mantissa: u128;
    proof {
        lemma_pow10_monotone(0, fd as nat);
    }
    if fd > 30 {
        return Err(String::from_str("value number is too long"));
    }
    match (iv, fv) {
        (Option::Some(ivv), Option::Some(fvv)) => {
            if ivv == 0 {
                proof {
                    assert(ipv * pow10(fd as nat) == 0) by (nonlinear_arith)
                        requires
                            ipv == 0,
                    ;
                    assert(mant == fpv);
                }
                if fvv >= 10_000_000_000_000_000_000 {
                    return Err(String::from_str("value number is too long"));
                }
                mantissa = fvv as u128;
            } else if fd >= 19 {
                proof {
                    lemma_pow10_monotone(19, fd as nat);
                    reveal_with_fuel(pow10, 21);
                    assert(pow10(19) == 10_000_000_000_000_000_000);
                    assert(ipv * pow10(fd as nat) >= 1 * pow10(fd as nat)) by (nonlinear_arith)
                        requires
                            ipv >= 1,
                            pow10(fd as nat) >= 0,
                    ;
                }
                return Err(String::from_str("value number is too long"));
            } else {
                let p = pow10_u128(fd);
                proof {
                    lemma_pow10_monotone(fd as nat, 18);
                    reveal_with_fuel(pow10, 20);
                    assert(pow10(18) == 1_000_000_000_000_000_000);
                    assert(ipv * pow10(fd as nat) <= (u64::MAX as nat) * 1_000_000_000_000_000_000)
                        by (nonlinear_arith)
                        requires
                            ipv <= u64::MAX as nat,
                            0 < pow10(fd as nat) <= 1_000_000_000_000_000_000,
                    ;
                }
                let m128: u128 = ivv as u128 * p + fvv as u128;
                if m128 >= 10_000_000_000_000_000_000 {
                    return Err(String::from_str("value number is too long"));
                }
                mantissa = m128;
            }
        },
        _ => {
            proof {
                if iv is None {
                    assert(ipv * pow10(fd as nat) >= ipv * 1) by (nonlinear_arith)
                        requires
                            pow10(fd as nat) >= 1,
                            ipv >= 0,
                    ;
                }
            }
            return Err(String::from_str("value number is too long"));
        },
    }
    proof {
        assert(mant == mantissa as nat && mant < 10_000_000_000_000_000_000);
    }
    // The unit region: blanks, an optional unit word, then blanks to the end.
    let j0 = crate::text::scan_spaces(t, after);
    let j1 = crate::text::scan_alpha(t, j0);
    let j2 = crate::text::scan_spaces(t, j1);
    if j2 < n {
        return Err(char_message(t, j2, "the character '", "' is incorrect"));
    }
    let factor: u64;
    if j1 == j0 {
        factor = 1;
    } else {
        match unit_scale_exec(t, j0, j1) {
            Result::Ok(f) => {
                factor = f;
            },
            Result::Err(p) => {
                return Err(char_message(t, p, "the character '", "' is incorrect"));
            },
        }
    }
    let den = pow10_u128(fd);
    proof {
        lemma_pow10_monotone(fd as nat, 30);
        reveal_with_fuel(pow10, 32);
        assert(pow10(30) == 1_000_000_000_000_000_000_000_000_000_000);
        assert(mantissa as nat * factor as nat <= 10_000_000_000_000_000_000
            * 1_152_921_504_606_846_976) by (nonlinear_arith)
            requires
                mantissa as nat <= 10_000_000_000_000_000_000,
                factor as nat <= 1_152_921_504_606_846_976,
        ;
    }
    let num: u128 = mantissa * factor as u128;
    proof {
        match mem_parse(t@) {
            MemOutcome::Value(snum, sden) => {
                assert(snum == num as nat && sden == den as nat);
            },
            _ => {
                assert(false);
            },
        }
    }
    let mb_den: u128 = den * 1_000_000;
    let mut out = String::new();
    if num < mb_den {
        let kb_den: u128 = den * 1_000;
        let q: u128 = (num + kb_den - 1) / kb_den;
        append_dec(&mut out, q);
        out.append("K");
        proof {
            reveal_strlit("K");
            assert(out@ =~= mem_render(num as nat, den as nat));
        }
    } else {
        let q: u128 = (num + mb_den - 1) / mb_den;
        append_dec(&mut out, q);
        out.append("M");
        proof {
            reveal_strlit("M");
            assert(out@ =~= mem_render(num as nat, den as nat));
        }
    }
    Ok(out)
}

/// Parses a memory size string into the scheduler's memory format.
///
/// The sentinel `"0"` passes through unchanged; a bare number means
/// megabytes; otherwise the byte quantity is normalized to `M` or `K` with
/// ceiling rounding. Errors name the character or portion at fault.
pub fn parse_memory(s: &str) -> (r: Result<String, String>)
    ensures
        match r {
            Result::Ok(t) => mem_normalizes_to(s@) == Option::Some(t@),
            Result::Err(m) => {
                &&& mem_normalizes_to(s@) is None
                &&& m@ == mem_err_msg(mem_parse(mem_effective(s@)))
            },
        },
{
    if s.unicode_len() == 1 && s.get_char(0) == '0' {
        proof {
            assert(s@ =~= seq!['0']);
        }
        return Ok(String::from_str(s));
    }
    proof {
        assert(s@ != seq!['0']);
    }
    let n = s.unicode_len();
    let mut saw_alpha = false;
    let mut idx: usize = 0;
    while idx < n
        invariant
            n == s@.len(),
            0 <= idx <= n,
            saw_alpha == exists|j: int| 0 <= j < idx && is_alpha(#[trigger] s@[j]),
        decreases n - idx,
    {
        let c = s.get_char(idx);
        if ('a' <= c && c <= 'z') || ('A' <= c && c <= 'Z') {
            proof {
                assert(is_alpha(s@[idx as int]));
            }
            saw_alpha = true;
        }
        idx = idx + 1;
    }
    let mut tb = String::from_str(s);
    if !saw_alpha {
        tb.append("M");
        proof {
            reveal_strlit("M");
            assert(tb@ =~= mem_effective(s@));
        }
    }
    proof {
        assert(tb@ == mem_effective(s@));
    }
    mem_normalize_str(tb.as_str())
}

} // verus!
