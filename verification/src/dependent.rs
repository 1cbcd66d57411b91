use vstd::prelude::*;

use crate::text::{
    all_digit_chars, chars_of, digits_value, find_char, find_char_vec, lemma_digits_value_bound,
    lemma_digits_value_nonneg, lemma_pow10_add, lemma_pow10_pos, lemma_pow10_six, pow10,
    remove_all, remove_char, trim_spec, trim_vec,
};

verus! {

/// One dependent repository or package in the final result: its lower-cased
/// `owner/name` path, the star count exactly as the listing displayed it, and
/// a description when enrichment was requested and succeeded.
#[derive(Debug, Clone, PartialEq, Eq)]
pub struct Dependent {
    pub repo: String,
    pub stars: String,
    pub description: Option<String>,
}

// Star counts are displayed as free-form text ("1,234", "1.2k", "N/A", "").
// They are normalized to a signed fixed-point number counting thousandths of
// a star, so "1.2k" becomes 1_200_000 and "N/A" becomes the sentinel -1000.
// Values too large for the fixed-point range saturate at `i64::MAX` in
// magnitude; displayed counts are nowhere near that bound.

/// Magnitudes of at least this many micro-stars saturate identically on every
/// code path (the bound exceeds `1000000 * i64::MAX`).
pub open spec fn big_micro() -> int {
    10_000_000_000_000_000_000_000
}

/// Saturate a thousandths-of-a-star value into the symmetric `i64` range.
pub open spec fn clamp_stars(v: int) -> int {
    if v > i64::MAX as int {
        i64::MAX as int
    } else if v < -(i64::MAX as int) {
        -(i64::MAX as int)
    } else {
        v
    }
}

/// Division by 1000 rounding toward zero, as machine integer division does.
pub open spec fn div1000_toward_zero(v: int) -> int {
    if v >= 0 {
        v / 1000
    } else {
        -((-v) / 1000)
    }
}

/// The fractional digits `s` scaled to exactly six places (micro units);
/// digits beyond the sixth are dropped.
pub open spec fn frac_micro(s: Seq<char>) -> int {
    if s.len() >= 6 {
        digits_value(s.take(6))
    } else {
        digits_value(s) * pow10((6 - s.len()) as nat)
    }
}

/// Parse an unsigned decimal numeral (digits with at most one point, at least
/// one digit or point-adjacent digit) into micro units: its value times one
/// million.
pub open spec fn unsigned_micro(s: Seq<char>) -> Option<int> {
    match find_char(s, '.') {
        None => if s.len() > 0 && all_digit_chars(s) {
            Some(digits_value(s) * 1000000)
        } else {
            None
        },
        Some(i) => {
            let ip = s.take(i);
            let fp = s.skip(i + 1);
            if ip.len() + fp.len() > 0 && all_digit_chars(ip) && all_digit_chars(fp) {
                Some(digits_value(ip) * 1000000 + frac_micro(fp))
            } else {
                None
            }
        },
    }
}

/// Parse a decimal numeral with an optional leading sign into micro units.
pub open spec fn signed_micro(s: Seq<char>) -> Option<int> {
    if s.len() > 0 && (s[0] == '+' || s[0] == '-') {
        match unsigned_micro(s.drop_first()) {
            None => None,
            Some(v) => Some(
                if s[0] == '-' {
                    -v
                } else {
                    v
                },
            ),
        }
    } else {
        unsigned_micro(s)
    }
}

/// Normalized star value of a displayed star text, in thousandths of a star.
///
/// "N/A" is the sentinel -1000 (minus one star). A blank text is 0. A text
/// whose trimmed form ends in the suffix `k` or `K` is parsed as a decimal
/// numeral with that suffix stripped and is scaled by a further thousand; an
/// unparsable numeral gives 0. Any other text is parsed with
/// thousands-separator commas removed; unparsable again gives 0. The order
/// of these checks matters: "N/A" comes before blankness, and the suffix
/// check before the comma-stripping parse.
pub open spec fn stars_to_number(s: Seq<char>) -> int {
    if s == "N/A"@ {
        -1000
    } else {
        let t = trim_spec(s);
        if t.len() == 0 {
            0
        } else if t.last() == 'k' || t.last() == 'K' {
            match signed_micro(t.drop_last()) {
                Some(v) => clamp_stars(v),
                None => 0,
            }
        } else {
            match signed_micro(remove_all(t, ',')) {
                Some(v) => clamp_stars(div1000_toward_zero(v)),
                None => 0,
            }
        }
    }
}

/// Two micro-star magnitudes agree exactly, or both are so large that they
/// saturate identically.
pub open spec fn same_after_clamp(x: int, m: int) -> bool {
    x == m || (x >= big_micro() && m >= big_micro())
}

/// Digit accumulation saturates here: above `10^19`, well past `big_micro()`
/// once scaled to micro units.
pub open spec fn digit_cap() -> int {
    10_000_000_000_000_000_000
}

/// `v` capped at `digit_cap()`.
pub open spec fn capped(v: int) -> int {
    if v > digit_cap() {
        digit_cap()
    } else {
        v
    }
}

/// Scan `v[from..to]`; if every character is a digit, return their value
/// capped at `digit_cap()`, else `None`.
fn digits_capped(v: &Vec<char>, from: usize, to: usize) -> (r: Option<u128>)
    requires
        from <= to <= v@.len(),
    ensures
        ({
            let s = v@.subrange(from as int, to as int);
            match r {
                Some(x) => all_digit_chars(s) && x as int == capped(digits_value(s)) && x as int
                    <= digit_cap(),
                None => !all_digit_chars(s),
            }
        }),
{
    crate::text::digits_value_capped(v, from, to, 10_000_000_000_000_000_000)
}

/// Value of the fractional digits `v[from..]` in micro units, or `None` if a
/// non-digit occurs among them.
fn frac_value(v: &Vec<char>, from: usize) -> (r: Option<u64>)
    requires
        from <= v@.len(),
    ensures
        ({
            let s = v@.skip(from as int);
            match r {
                Some(x) => all_digit_chars(s) && x as int == frac_micro(s) && x < 1000000,
                None => !all_digit_chars(s),
            }
        }),
{
    let ghost s = v@.skip(from as int);
    let n = v.len();
    let keep: usize = if n - from >= 6 {
        6
    } else {
        n - from
    };
    let mut acc: u64 = 0;
    let mut i: usize = from;
    proof {
        assert(s.take(0) =~= Seq::<char>::empty());
        lemma_pow10_six();
    }
    while i < n
        invariant
            from <= i <= n,
            n == v@.len(),
            s == v@.skip(from as int),
            keep == if n - from >= 6 {
                6int
            } else {
                n - from
            },
            all_digit_chars(s.take(i - from)),
            acc as int == digits_value(
                s.take(
                    if i - from >= keep {
                        keep as int
                    } else {
                        i - from
                    },
                ),
            ),
            acc < 1000000,
        decreases n - i,
    {
        let c = v[i];
        if !(c >= '0' && c <= '9') {
            proof {
                assert(s[i - from] == v@[i as int]);
            }
            return None;
        }
        proof {
            assert(s.take(i - from + 1).drop_last() =~= s.take(i - from));
            assert(s.take(i - from + 1).last() == v@[i as int]);
            if i - from < keep {
                lemma_digits_value_bound(s.take(i - from + 1));
                lemma_pow10_mono((i - from + 1) as nat, 6 as nat);
                lemma_pow10_six();
            }
        }
        if i - from < keep {
            acc = acc * 10 + (c as u32 - 48) as u64;
        }
        i = i + 1;
    }
    proof {
        assert(s.take(n - from) =~= s);
    }
    if n - from >= 6 {
        Some(acc)
    } else {
        let mut p: u64 = 1;
        let e: usize = 6 - (n - from);
        let mut j: usize = 0;
        while j < e
            invariant
                j <= e <= 6,
                p as int == pow10(j as nat),
                p <= 1000000,
            decreases e - j,
        {
            proof {
                lemma_pow10_mono((j + 1) as nat, 6 as nat);
                lemma_pow10_six();
                lemma_pow10_pos(j as nat);
            }
            p = p * 10;
            j = j + 1;
        }
        proof {
            lemma_digits_value_bound(s);
            lemma_pow10_pos(e as nat);
            lemma_pow10_add((s.len()) as nat, e as nat);
            lemma_pow10_six();
            lemma_mul_bound_frac(digits_value(s), pow10(s.len() as nat), pow10(e as nat));
        }
        Some(acc * p)
    }
}

proof fn lemma_pow10_mono(a: nat, b: nat)
    ensures
        a <= b ==> pow10(a) <= pow10(b),
    decreases b,
{
    if a < b {
        lemma_pow10_mono(a, (b - 1) as nat);
        lemma_pow10_pos((b - 1) as nat);
    }
}

/// A digit-string value below its power bound, padded by a complementary
/// power, stays below one million.
proof fn lemma_mul_bound_frac(dv: int, bound: int, pad: int)
    requires
        0 <= dv < bound,
        pad >= 1,
        bound * pad <= 1000000,
    ensures
        dv * pad < 1000000,
{
    assert(dv * pad <= (bound - 1) * pad) by (nonlinear_arith)
        requires
            0 <= dv,
            dv <= bound - 1,
            pad >= 1,
    ;
    assert((bound - 1) * pad == bound * pad - pad) by (nonlinear_arith);
}

/// Magnitudes past the digit cap land past `big_micro()` once scaled.
proof fn lemma_micro_big(dv: int)
    requires
        dv >= digit_cap(),
    ensures
        dv * 1000000 >= big_micro(),
        dv * 1000000 + 1000000 >= big_micro(),
{
    assert(dv * 1000000 >= digit_cap() * 1000000) by (nonlinear_arith)
        requires
            dv >= digit_cap(),
    ;
}

/// Parse the unsigned decimal numeral `v[start..]` into saturated micro
/// units.
fn parse_micro(v: &Vec<char>, start: usize) -> (r: Option<u128>)
    requires
        start <= v@.len(),
    ensures
        ({
            match unsigned_micro(v@.subrange(start as int, v@.len() as int)) {
                None => r is None,
                Some(m) => r is Some && m >= 0 && same_after_clamp(r->0 as int, m),
            }
        }),
{
    let n = v.len();
    let ghost s = v@.subrange(start as int, n as int);
    match find_char_vec(v, start, '.') {
        None => {
            if n == start {
                return None;
            }
            match digits_capped(v, start, n) {
                None => None,
                Some(x) => {
                    proof {
                        lemma_digits_value_nonneg(s);
                        let dv = digits_value(s);
                        if dv > digit_cap() {
                            lemma_micro_big(dv);
                            lemma_micro_big(digit_cap());
                        }
                    }
                    Some(x * 1000000)
                },
            }
        },
        Some(di) => {
            let ghost ip = s.take(di - start);
            let ghost fp = s.skip(di - start + 1);
            proof {
                assert(ip =~= v@.subrange(start as int, di as int));
                assert(fp =~= v@.skip(di + 1));
            }
            if di == start && di + 1 == n {
                // a bare point: no digit on either side
                return None;
            }
            match digits_capped(v, start, di) {
                None => None,
                Some(x) => {
                    match frac_value(v, di + 1) {
                        None => None,
                        Some(f) => {
                            proof {
                                lemma_digits_value_nonneg(ip);
                                let dv = digits_value(ip);
                                if dv > digit_cap() {
                                    lemma_micro_big(dv);
                                    lemma_micro_big(digit_cap());
                                }
                            }
                            Some(x * 1000000 + f as u128)
                        },
                    }
                },
            }
        },
    }
}

/// Parse a signed decimal numeral from `v` into a sign and a saturated
/// micro-unit magnitude.
fn parse_signed(v: &Vec<char>) -> (r: Option<(bool, u128)>)
    ensures
        ({
            match signed_micro(v@) {
                None => r is None,
                Some(m) => r is Some && {
                    &&& ((r->0).0 ==> m <= 0 && same_after_clamp((r->0).1 as int, -m))
                    &&& (!(r->0).0 ==> m >= 0 && same_after_clamp((r->0).1 as int, m))
                },
            }
        }),
{
    let n = v.len();
    let neg: bool;
    let start: usize;
    if n > 0 && (v[0] == '+' || v[0] == '-') {
        neg = v[0] == '-';
        start = 1;
        proof {
            assert(v@.drop_first() =~= v@.subrange(1, n as int));
        }
    } else {
        neg = false;
        start = 0;
        proof {
            assert(v@ =~= v@.subrange(0, n as int));
        }
    }
    match parse_micro(v, start) {
        None => None,
        Some(mag) => Some((neg, mag)),
    }
}

/// Normalize a displayed star text to thousandths of a star.
///
/// Total: every text yields a value; nothing panics or errs.
pub fn convert_stars_to_number(stars_text: &str) -> (r: i64)
    ensures
        r as int == stars_to_number(stars_text@),
{
    let v = chars_of(stars_text);
    proof {
        reveal_strlit("N/A");
        assert("N/A"@.len() == 3);
    }
    if v.len() == 3 && v[0] == 'N' && v[1] == '/' && v[2] == 'A' {
        proof {
            assert(v@ =~= "N/A"@);
        }
        return -1000;
    }
    proof {
        assert(v@ != "N/A"@) by {
            if v@ == "N/A"@ {
                assert(v@.len() == 3);
                assert(v@[0] == 'N' && v@[1] == '/' && v@[2] == 'A');
            }
        }
    }
    let t = trim_vec(&v);
    if t.len() == 0 {
        return 0;
    }
    let last = t[t.len() - 1];
    if last == 'k' || last == 'K' {
        let mut ns = t;
        ns.pop();
        proof {
            assert(ns@ == trim_spec(v@).drop_last());
        }
        match parse_signed(&ns) {
            None => 0,
            Some((neg, mag)) => {
                proof {
                    let m = signed_micro(ns@)->0;
                    if neg && mag as int != -m {
                        assert(mag as int >= big_micro() && -m >= big_micro());
                    }
                    if !neg && mag as int != m {
                        assert(mag as int >= big_micro() && m >= big_micro());
                    }
                }
                clamp_magnitude(neg, mag)
            },
        }
    } else {
        let ns = remove_char(&t, ',');
        match parse_signed(&ns) {
            None => 0,
            Some((neg, mag)) => {
                proof {
                    let m = signed_micro(ns@)->0;
                    let a: int = if neg {
                        -m
                    } else {
                        m
                    };
                    if mag as int != a {
                        vstd::arithmetic::div_mod::lemma_div_is_ordered(
                            big_micro(),
                            mag as int,
                            1000,
                        );
                        vstd::arithmetic::div_mod::lemma_div_is_ordered(big_micro(), a, 1000);
                        assert(big_micro() / 1000 == 10_000_000_000_000_000_000int);
                    }
                }
                clamp_magnitude(neg, mag / 1000)
            },
        }
    }
}

/// Saturate a micro-unit magnitude into `i64` and apply the sign.
fn clamp_magnitude(neg: bool, mag: u128) -> (r: i64)
    ensures
        !neg ==> r as int == clamp_stars(mag as int),
        neg ==> r as int == clamp_stars(-(mag as int)),
{
    let c: i64 = if mag > i64::MAX as u128 {
        i64::MAX
    } else {
        mag as i64
    };
    if neg {
        -c
    } else {
        c
    }
}

} // verus!
