use vstd::prelude::*;
use vstd::string::StrSliceExecFns;
use vstd::string::StringSliceAdditionalSpecFns;

use crate::duration::Duration;
use crate::errors::ParseError;
use crate::text::{
    chars_of, digits_val, is_alpha, is_digit, is_ws, lemma_digits_val_prefix, lower,
    string_from_ascii, to_lower,
};

verus! {

/// What the tokenizer makes of a byte string: either the accumulated
/// millisecond total, or the first error met scanning left to right.
pub enum Parsed {
    Value(int),
    ExpectedNumber(int),
    ExpectedUnit(int),
    UnknownUnit(Seq<u8>),
    Overflow,
    Empty,
}

/// The first position at or after `i` holding a non-whitespace byte.
pub open spec fn skip_ws(s: Seq<u8>, i: nat) -> nat
    decreases s.len() - i,
{
    if i < s.len() && is_ws(s[i as int]) {
        skip_ws(s, i + 1)
    } else {
        i
    }
}

/// The end of the run of decimal digits starting at `i`.
pub open spec fn scan_digits(s: Seq<u8>, i: nat) -> nat
    decreases s.len() - i,
{
    if i < s.len() && is_digit(s[i as int]) {
        scan_digits(s, i + 1)
    } else {
        i
    }
}

/// The end of the run of alphabetic bytes starting at `i`.
pub open spec fn scan_alpha(s: Seq<u8>, i: nat) -> nat
    decreases s.len() - i,
{
    if i < s.len() && is_alpha(s[i as int]) {
        scan_alpha(s, i + 1)
    } else {
        i
    }
}

/// Milliseconds per recognized unit token (already lower-cased).
pub open spec fn unit_ms(u: Seq<u8>) -> Option<int> {
    if u == seq![100u8] {
        Some(86_400_000int)
    } else if u == seq![104u8] {
        Some(3_600_000int)
    } else if u == seq![109u8, 115u8] {
        Some(1int)
    } else if u == seq![109u8] {
        Some(60_000int)
    } else if u == seq![115u8] {
        Some(1_000int)
    } else {
        None
    }
}

pub proof fn lemma_skip_ws_bounds(s: Seq<u8>, i: nat)
    ensures
        i <= skip_ws(s, i),
        i <= s.len() ==> skip_ws(s, i) <= s.len(),
        skip_ws(s, i) < s.len() ==> !is_ws(s[skip_ws(s, i) as int]),
    decreases s.len() - i,
{
    if i < s.len() && is_ws(s[i as int]) {
        lemma_skip_ws_bounds(s, i + 1);
    }
}

pub proof fn lemma_scan_digits_bounds(s: Seq<u8>, i: nat)
    ensures
        i <= scan_digits(s, i),
        i <= s.len() ==> scan_digits(s, i) <= s.len(),
    decreases s.len() - i,
{
    if i < s.len() && is_digit(s[i as int]) {
        lemma_scan_digits_bounds(s, i + 1);
    }
}

pub proof fn lemma_scan_alpha_bounds(s: Seq<u8>, i: nat)
    ensures
        i <= scan_alpha(s, i),
        i <= s.len() ==> scan_alpha(s, i) <= s.len(),
    decreases s.len() - i,
{
    if i < s.len() && is_alpha(s[i as int]) {
        lemma_scan_alpha_bounds(s, i + 1);
    }
}

/// One pass of the tokenizer from position `i`, with `total` milliseconds
/// and `count` (number, unit) pairs already accumulated. Mirrors the
/// scanning order of the executable parser: whitespace, digits, whitespace,
/// unit letters, lookup, overflow-checked multiply and add, repeat.
pub open spec fn parse_from(s: Seq<u8>, i: nat, total: int, count: nat) -> Parsed
    decreases s.len() - i,
    via parse_from_dec
{
    let j = skip_ws(s, i);
    if j >= s.len() {
        if count == 0 {
            Parsed::Empty
        } else if total > u64::MAX {
            Parsed::Overflow
        } else {
            Parsed::Value(total)
        }
    } else {
        let dn = scan_digits(s, j);
        if dn == j {
            Parsed::ExpectedNumber(j as int)
        } else {
            let n = digits_val(s.subrange(j as int, dn as int));
            if n > u128::MAX {
                Parsed::Overflow
            } else {
                let k = skip_ws(s, dn);
                let ue = scan_alpha(s, k);
                if ue == k {
                    Parsed::ExpectedUnit(dn as int)
                } else {
                    let u = lower(s.subrange(k as int, ue as int));
                    match unit_ms(u) {
                        Option::None => Parsed::UnknownUnit(u),
                        Option::Some(m) => {
                            if n * m > u128::MAX || total + n * m > u128::MAX {
                                Parsed::Overflow
                            } else {
                                parse_from(s, ue, total + n * m, count + 1)
                            }
                        },
                    }
                }
            }
        }
    }
}

#[via_fn]
proof fn parse_from_dec(s: Seq<u8>, i: nat, total: int, count: nat) {
    lemma_skip_ws_bounds(s, i);
    let j = skip_ws(s, i);
    if j < s.len() {
        lemma_scan_digits_bounds(s, j);
        let dn = scan_digits(s, j);
        lemma_skip_ws_bounds(s, dn);
        let k = skip_ws(s, dn);
        lemma_scan_alpha_bounds(s, k);
    }
}

/// Skipping whitespace before the tokenizer starts does not change what
/// it makes of the rest.
pub proof fn lemma_parse_from_skip(s: Seq<u8>, i: nat, total: int, count: nat)
    ensures
        parse_from(s, i, total, count) == parse_from(s, skip_ws(s, i), total, count),
{
    lemma_skip_ws_bounds(s, i);
    let j = skip_ws(s, i);
    assert(skip_ws(s, j) == j);
}

/// The parser's full contract: its result is exactly what the tokenizer
/// specification makes of the input bytes.
pub open spec fn parse_str_post(r: Result<Duration, ParseError>, b: Seq<u8>) -> bool {
    match parse_from(b, 0, 0, 0) {
        Parsed::Value(ms) => r matches Ok(d) && 0 <= ms <= u64::MAX && d
            == Duration::spec_from_millis(ms as u64),
        Parsed::ExpectedNumber(p) => r matches Err(e) && e matches ParseError::ExpectedNumber(q)
            && q == p,
        Parsed::ExpectedUnit(p) => r matches Err(e) && e matches ParseError::ExpectedUnit(q) && q
            == p,
        Parsed::UnknownUnit(u) => r matches Err(e) && e matches ParseError::UnknownUnit(t) && t@
            == chars_of(u),
        Parsed::Overflow => r == Err::<Duration, ParseError>(ParseError::Overflow),
        Parsed::Empty => r == Err::<Duration, ParseError>(ParseError::EmptyInput),
    }
}

/// Advances past ASCII whitespace.
#[verifier::loop_isolation(false)]
fn skip_ws_exec(b: &Vec<u8>, i: usize) -> (r: usize)
    requires
        i <= b@.len(),
    ensures
        r == skip_ws(b@, i as nat),
        i <= r <= b@.len(),
        skip_ws(b@, r as nat) == r as nat,
{
    let mut j: usize = i;
    while j < b.len() && (b[j] == 32 || b[j] == 9 || b[j] == 10 || b[j] == 12 || b[j] == 13)
        invariant
            i <= j <= b@.len(),
            skip_ws(b@, j as nat) == skip_ws(b@, i as nat),
        decreases b@.len() - j,
    {
        j = j + 1;
    }
    proof {
        assert(skip_ws(b@, j as nat) == j as nat);
    }
    j
}

/// Parses a unit-suffixed duration string: a sequence of (number, unit)
/// pairs such as `"1h 23m 45s"` or `"1m250ms"`, in any order, with units
/// `d`, `h`, `m`, `s`, `ms` matched case-insensitively, each contributing
/// `number * ms_per_unit` to one running millisecond total.
#[verifier::loop_isolation(false)]
pub fn parse_str(s: &str) -> (r: Result<Duration, ParseError>)
    ensures
        parse_str_post(r, s.spec_bytes()),
        r matches Ok(d) ==> d.wf(),
{
    let b: Vec<u8> = s.as_bytes_vec();
    let len: usize = b.len();
    let mut total: u128 = 0;
    let mut count: usize = 0;
    let mut i: usize = skip_ws_exec(&b, 0);
    proof {
        lemma_parse_from_skip(b@, 0, 0, 0);
    }
    while i < len
        invariant
            i <= len,
            count <= i,
            skip_ws(b@, i as nat) == i as nat,
            parse_from(b@, 0, 0, 0) == parse_from(b@, i as nat, total as int, count as nat),
        decreases len - i,
    {
        let ghost tok_start: nat = i as nat;
        let ghost total0: u128 = total;
        let ghost count0: usize = count;
        // scan one or more decimal digits
        let start_num: usize = i;
        let mut n: u128 = 0;
        let mut n_over: bool = false;
        while i < len && 48 <= b[i] && b[i] <= 57
            invariant
                start_num <= i <= len,
                scan_digits(b@, i as nat) == scan_digits(b@, start_num as nat),
                forall|t: int| start_num <= t < i ==> is_digit(#[trigger] b@[t]),
                !n_over ==> n == digits_val(b@.subrange(start_num as int, i as int)),
                n_over ==> digits_val(b@.subrange(start_num as int, i as int)) > u128::MAX,
            decreases len - i,
        {
            let d: u128 = (b[i] - 48) as u128;
            proof {
                assert(b@.subrange(start_num as int, i + 1).drop_last() =~= b@.subrange(
                    start_num as int,
                    i as int,
                ));
                assert(b@.subrange(start_num as int, i + 1).last() == b@[i as int]);
            }
            if !n_over {
                match n.checked_mul(10) {
                    Some(n10) => {
                        match n10.checked_add(d) {
                            Some(n2) => {
                                n = n2;
                            },
                            None => {
                                n_over = true;
                            },
                        }
                    },
                    None => {
                        n_over = true;
                    },
                }
            } else {
                proof {
                    let prev = b@.subrange(start_num as int, i as int);
                    lemma_digits_val_prefix(prev, 0);
                    assert(digits_val(b@.subrange(start_num as int, i + 1)) == digits_val(prev)
                        * 10 + (b@[i as int] - 48));
                }
            }
            i = i + 1;
        }
        proof {
            assert(scan_digits(b@, i as nat) == i as nat);
        }
        if i == start_num {
            proof {
                assert(parse_from(b@, tok_start, total as int, count as nat)
                    == Parsed::ExpectedNumber(start_num as int));
            }
            return Err(ParseError::ExpectedNumber(start_num));
        }
        if n_over {
            proof {
                assert(parse_from(b@, tok_start, total as int, count as nat) == Parsed::Overflow);
            }
            return Err(ParseError::Overflow);
        }
        let digits_end: usize = i;
        // optional whitespace between the number and its unit
        i = skip_ws_exec(&b, i);
        // scan one or more unit letters, lower-cased as they come
        let start_unit: usize = i;
        let mut unit: Vec<u8> = Vec::new();
        while i < len && ((65 <= b[i] && b[i] <= 90) || (97 <= b[i] && b[i] <= 122))
            invariant
                start_unit <= i <= len,
                scan_alpha(b@, i as nat) == scan_alpha(b@, start_unit as nat),
                unit@ =~= lower(b@.subrange(start_unit as int, i as int)),
                forall|t: int| 0 <= t < unit@.len() ==> 97 <= #[trigger] unit@[t] <= 122,
            decreases len - i,
        {
            let c: u8 = b[i];
            let lc: u8 = if 65 <= c && c <= 90 {
                c + 32
            } else {
                c
            };
            unit.push(lc);
            proof {
                assert(lower(b@.subrange(start_unit as int, i + 1)) =~= lower(
                    b@.subrange(start_unit as int, i as int),
                ).push(to_lower(b@[i as int])));
            }
            i = i + 1;
        }
        proof {
            assert(scan_alpha(b@, i as nat) == i as nat);
        }
        if i == start_unit {
            proof {
                assert(parse_from(b@, tok_start, total as int, count as nat)
                    == Parsed::ExpectedUnit(digits_end as int));
            }
            return Err(ParseError::ExpectedUnit(digits_end));
        }
        let ghost lu: Seq<u8> = lower(b@.subrange(start_unit as int, i as int));
        // match the unit token
        let ms_per_unit: u128 = if unit.len() == 1 && unit[0] == 100 {
            86_400_000
        } else if unit.len() == 1 && unit[0] == 104 {
            3_600_000
        } else if unit.len() == 2 && unit[0] == 109 && unit[1] == 115 {
            1
        } else if unit.len() == 1 && unit[0] == 109 {
            60_000
        } else if unit.len() == 1 && unit[0] == 115 {
            1_000
        } else {
            proof {
                if unit@.len() == 1 {
                    assert(lu =~= seq![unit@[0]]);
                }
                if unit@.len() == 2 {
                    assert(lu =~= seq![unit@[0], unit@[1]]);
                }
                assert(unit_ms(lu) is None);
                assert(parse_from(b@, tok_start, total as int, count as nat)
                    == Parsed::UnknownUnit(lu));
            }
            return Err(ParseError::UnknownUnit(string_from_ascii(unit)));
        };
        proof {
            if unit@.len() == 1 {
                assert(lu =~= seq![unit@[0]]);
            }
            if unit@.len() == 2 {
                assert(lu =~= seq![unit@[0], unit@[1]]);
            }
            assert(unit_ms(lu) == Some(ms_per_unit as int));
        }
        // overflow-checked accumulate
        let inc: u128 = match n.checked_mul(ms_per_unit) {
            Some(v) => v,
            None => {
                proof {
                    assert(parse_from(b@, tok_start, total as int, count as nat)
                        == Parsed::Overflow);
                }
                return Err(ParseError::Overflow);
            },
        };
        total = match total.checked_add(inc) {
            Some(v) => v,
            None => {
                proof {
                    assert(parse_from(b@, tok_start, total0 as int, count0 as nat)
                        == Parsed::Overflow);
                }
                return Err(ParseError::Overflow);
            },
        };
        count = count + 1;
        let ghost ue: nat = i as nat;
        i = skip_ws_exec(&b, i);
        proof {
            assert(parse_from(b@, tok_start, total0 as int, count0 as nat) == parse_from(
                b@,
                ue,
                total as int,
                count as nat,
            ));
            lemma_parse_from_skip(b@, ue, total as int, count as nat);
        }
    }
    proof {
        assert(skip_ws(b@, i as nat) == i as nat && i >= len);
    }
    if count == 0 {
        return Err(ParseError::EmptyInput);
    }
    if total > u64::MAX as u128 {
        return Err(ParseError::Overflow);
    }
    Ok(Duration::from_millis(total as u64))
}

/// Builds the duration for an integer input: whole seconds, with a
/// negative count rejected at the boundary, never clamped.
pub fn from_int_secs(v: i64) -> (r: Result<Duration, ParseError>)
    ensures
        v < 0 ==> r == Err::<Duration, ParseError>(ParseError::Negative),
        v >= 0 ==> (r matches Ok(d) && d.wf() && d.secs == v && d.nanos == 0),
{
    if v < 0 {
        Err(ParseError::Negative)
    } else {
        Ok(Duration::from_secs(v as u64))
    }
}

/// Builds the duration for a float input that the host has already split
/// into its finiteness, its sign, its truncated whole seconds, and its
/// fractional part rounded to the nearest millisecond (round-half-up, so
/// exactly 1000 when the fraction rounds to a full second and must carry).
pub fn from_float_parts(finite: bool, negative: bool, secs: u64, millis: u64) -> (r: Result<
    Duration,
    ParseError,
>)
    requires
        millis <= 1000,
    ensures
        !finite ==> r == Err::<Duration, ParseError>(ParseError::NotFinite),
        finite && negative ==> r == Err::<Duration, ParseError>(ParseError::Negative),
        finite && !negative && millis == 1000 && secs == u64::MAX ==> r == Err::<
            Duration,
            ParseError,
        >(ParseError::Overflow),
        finite && !negative && !(millis == 1000 && secs == u64::MAX) ==> (r matches Ok(d)
            && d.wf() && d.millis_rounded() == secs * 1000 + millis && d.nanos % 1_000_000 == 0),
{
    if !finite {
        return Err(ParseError::NotFinite);
    }
    if negative {
        return Err(ParseError::Negative);
    }
    let mut s: u64 = secs;
    let mut ms: u64 = millis;
    if ms == 1000 {
        if s == u64::MAX {
            return Err(ParseError::Overflow);
        }
        s = s + 1;
        ms = 0;
    }
    let d = Duration::new(s, (ms as u32) * 1_000_000);
    proof {
        assert((ms * 1_000_000 + 500_000) / 1_000_000 == ms) by (nonlinear_arith)
            requires
                ms < 1000,
        ;
    }
    Ok(d)
}

} // verus!
