use vstd::prelude::*;
use vstd::string::StrSliceExecFns;

verus! {

// Character-level helpers shared by star-count normalization, repository
// reference parsing, and the cache entry codec. All of them work on the
// `Seq<char>` view of strings, so contracts elsewhere can be stated over
// plain character sequences.

/// The whitespace characters that trimming removes: the ASCII blank set.
pub open spec fn is_space_char(c: char) -> bool {
    c == ' ' || c == '\t' || c == '\n' || c == '\r' || c == '\u{b}' || c == '\u{c}'
}

/// ASCII lower-casing of a single character; other characters are unchanged.
pub open spec fn lower_char(c: char) -> char {
    if 'A' <= c && c <= 'Z' {
        ((c as u8) + 32) as char
    } else {
        c
    }
}

/// ASCII lower-casing of a character sequence.
pub open spec fn lower_seq(s: Seq<char>) -> Seq<char> {
    s.map_values(|c: char| lower_char(c))
}

/// `s` without its leading whitespace.
pub open spec fn trim_start_spec(s: Seq<char>) -> Seq<char>
    decreases s.len(),
{
    if s.len() > 0 && is_space_char(s.first()) {
        trim_start_spec(s.drop_first())
    } else {
        s
    }
}

/// `s` without its trailing whitespace.
pub open spec fn trim_end_spec(s: Seq<char>) -> Seq<char>
    decreases s.len(),
{
    if s.len() > 0 && is_space_char(s.last()) {
        trim_end_spec(s.drop_last())
    } else {
        s
    }
}

/// `s` without leading and trailing whitespace.
pub open spec fn trim_spec(s: Seq<char>) -> Seq<char> {
    trim_end_spec(trim_start_spec(s))
}

/// `s` with every occurrence of `c` removed.
pub open spec fn remove_all(s: Seq<char>, c: char) -> Seq<char>
    decreases s.len(),
{
    if s.len() == 0 {
        Seq::empty()
    } else if s.last() == c {
        remove_all(s.drop_last(), c)
    } else {
        remove_all(s.drop_last(), c).push(s.last())
    }
}

/// The position of the first occurrence of `c` in `s`, if any.
pub open spec fn find_char(s: Seq<char>, c: char) -> Option<int>
    decreases s.len(),
{
    if s.len() == 0 {
        None
    } else if s.first() == c {
        Some(0)
    } else {
        match find_char(s.drop_first(), c) {
            None => None,
            Some(i) => Some(i + 1),
        }
    }
}

pub proof fn lemma_find_char(s: Seq<char>, c: char)
    ensures
        match find_char(s, c) {
            None => forall|i: int| 0 <= i < s.len() ==> s[i] != c,
            Some(j) => 0 <= j < s.len() && s[j] == c && forall|i: int| 0 <= i < j ==> s[i] != c,
        },
    decreases s.len(),
{
    if s.len() > 0 && s.first() != c {
        lemma_find_char(s.drop_first(), c);
        match find_char(s.drop_first(), c) {
            None => {
                assert forall|i: int| 0 <= i < s.len() implies s[i] != c by {
                    if i > 0 {
                        assert(s.drop_first()[i - 1] != c);
                    }
                }
            },
            Some(j) => {
                assert(s[j + 1] == s.drop_first()[j]);
                assert forall|i: int| 0 <= i < j + 1 implies s[i] != c by {
                    if i > 0 {
                        assert(s.drop_first()[i - 1] != c);
                    }
                }
            },
        }
    }
}

/// `s` without leading occurrences of `c`.
pub open spec fn trim_start_char(s: Seq<char>, c: char) -> Seq<char>
    decreases s.len(),
{
    if s.len() > 0 && s.first() == c {
        trim_start_char(s.drop_first(), c)
    } else {
        s
    }
}

/// The length of the leading run of non-whitespace characters.
pub open spec fn token_len(s: Seq<char>) -> int
    decreases s.len(),
{
    if s.len() == 0 {
        0
    } else if is_space_char(s.first()) {
        0
    } else {
        1 + token_len(s.drop_first())
    }
}

/// `s` without trailing occurrences of `c`.
pub open spec fn trim_end_char(s: Seq<char>, c: char) -> Seq<char>
    decreases s.len(),
{
    if s.len() > 0 && s.last() == c {
        trim_end_char(s.drop_last(), c)
    } else {
        s
    }
}

/// How many times `c` occurs in `s`.
pub open spec fn count_char(s: Seq<char>, c: char) -> int
    decreases s.len(),
{
    if s.len() == 0 {
        0
    } else {
        count_char(s.drop_last(), c) + if s.last() == c {
            1int
        } else {
            0int
        }
    }
}

/// The position of the last occurrence of `c` in `s`, if any.
pub open spec fn find_last_char(s: Seq<char>, c: char) -> Option<int>
    decreases s.len(),
{
    if s.len() == 0 {
        None
    } else if s.last() == c {
        Some(s.len() - 1)
    } else {
        find_last_char(s.drop_last(), c)
    }
}

pub proof fn lemma_find_last_char(s: Seq<char>, c: char)
    ensures
        match find_last_char(s, c) {
            None => forall|i: int| 0 <= i < s.len() ==> s[i] != c,
            Some(j) => 0 <= j < s.len() && s[j] == c && forall|i: int|
                j < i < s.len() ==> s[i] != c,
        },
    decreases s.len(),
{
    if s.len() > 0 && s.last() != c {
        assert(forall|i: int| 0 <= i < s.len() - 1 ==> s.drop_last()[i] == s[i]);
        lemma_find_last_char(s.drop_last(), c);
    }
}

/// Whether `pat` occurs as a contiguous part of `s`.
pub open spec fn contains_seq(s: Seq<char>, pat: Seq<char>) -> bool {
    exists|i: int| 0 <= i <= s.len() - pat.len() && #[trigger] s.subrange(i, i + pat.len())
        == pat
}

/// Whether `c` is a decimal digit.
pub open spec fn is_digit_char(c: char) -> bool {
    '0' <= c && c <= '9'
}

/// The numeric value of a digit character.
pub open spec fn digit_char_val(c: char) -> int {
    c as int - 48
}

/// Whether every character of `s` is a decimal digit.
pub open spec fn all_digit_chars(s: Seq<char>) -> bool {
    forall|i: int| 0 <= i < s.len() ==> is_digit_char(s[i])
}

/// The value of a string of decimal digits, most significant first.
pub open spec fn digits_value(s: Seq<char>) -> int
    decreases s.len(),
{
    if s.len() == 0 {
        0
    } else {
        digits_value(s.drop_last()) * 10 + digit_char_val(s.last())
    }
}

/// Ten to the `n`.
pub open spec fn pow10(n: nat) -> int
    decreases n,
{
    if n == 0 {
        1
    } else {
        10 * pow10((n - 1) as nat)
    }
}

pub proof fn lemma_pow10_pos(n: nat)
    ensures
        pow10(n) >= 1,
    decreases n,
{
    if n > 0 {
        lemma_pow10_pos((n - 1) as nat);
    }
}

pub proof fn lemma_pow10_six()
    ensures
        pow10(6) == 1000000,
{
    reveal_with_fuel(pow10, 8);
}

pub proof fn lemma_pow10_add(a: nat, b: nat)
    ensures
        pow10(a + b) == pow10(a) * pow10(b),
    decreases b,
{
    if b == 0 {
    } else {
        lemma_pow10_add(a, (b - 1) as nat);
        assert(pow10(a + b) == 10 * pow10((a + b - 1) as nat));
        assert(pow10(a) * pow10(b) == pow10(a) * (10 * pow10((b - 1) as nat)));
        assert(pow10(a) * (10 * pow10((b - 1) as nat)) == 10 * (pow10(a) * pow10(
            (b - 1) as nat,
        ))) by (nonlinear_arith);
    }
}

pub proof fn lemma_digits_value_nonneg(s: Seq<char>)
    requires
        all_digit_chars(s),
    ensures
        digits_value(s) >= 0,
    decreases s.len(),
{
    if s.len() > 0 {
        assert(forall|i: int| 0 <= i < s.len() - 1 ==> s.drop_last()[i] == s[i]);
        lemma_digits_value_nonneg(s.drop_last());
    }
}

pub proof fn lemma_digits_value_bound(s: Seq<char>)
    requires
        all_digit_chars(s),
    ensures
        0 <= digits_value(s) < pow10(s.len()),
    decreases s.len(),
{
    if s.len() > 0 {
        assert(forall|i: int| 0 <= i < s.len() - 1 ==> s.drop_last()[i] == s[i]);
        lemma_digits_value_bound(s.drop_last());
        lemma_pow10_pos((s.len() - 1) as nat);
        assert(digits_value(s.drop_last()) * 10 <= (pow10((s.len() - 1) as nat) - 1) * 10)
            by (nonlinear_arith)
            requires
                digits_value(s.drop_last()) <= pow10((s.len() - 1) as nat) - 1,
        ;
    }
}

/// Collect the characters of a string slice into a vector.
pub fn chars_of(s: &str) -> (v: Vec<char>)
    ensures
        v@ == s@,
{
    let n = s.unicode_len();
    let mut v: Vec<char> = Vec::new();
    for i in 0..n
        invariant
            n == s@.len(),
            v@ == s@.take(i as int),
    {
        v.push(s.get_char(i));
        assert(v@ =~= s@.take(i + 1));
    }
    assert(s@.take(n as int) =~= s@);
    v
}

/// Relies on `String::push` of std: appends one character to the string.
#[verifier::external_body]
pub fn push_char(s: &mut String, c: char)
    ensures
        final(s)@ == old(s)@.push(c),
{
    s.push(c);
}

/// Build a string from a vector of characters.
pub fn string_of(v: &Vec<char>) -> (s: String)
    ensures
        s@ == v@,
{
    let mut s = String::new();
    let n = v.len();
    for i in 0..n
        invariant
            n == v@.len(),
            s@ == v@.take(i as int),
    {
        push_char(&mut s, v[i]);
        assert(v@.take(i as int).push(v@[i as int]) =~= v@.take(i + 1));
    }
    assert(v@.take(n as int) =~= v@);
    s
}

/// Executable form of `is_space_char`.
pub fn is_space(c: char) -> (r: bool)
    ensures
        r == is_space_char(c),
{
    c == ' ' || c == '\t' || c == '\n' || c == '\r' || c == '\u{b}' || c == '\u{c}'
}

/// Trim leading and trailing whitespace from a character vector.
pub fn trim_vec(v: &Vec<char>) -> (r: Vec<char>)
    ensures
        r@ == trim_spec(v@),
{
    let n = v.len();
    assert(v@.subrange(0, n as int) =~= v@);
    let mut lo: usize = 0;
    while lo < n && is_space(v[lo])
        invariant
            n == v@.len(),
            lo <= n,
            trim_start_spec(v@) == trim_start_spec(v@.subrange(lo as int, n as int)),
        decreases n - lo,
    {
        proof {
            assert(v@.subrange(lo as int, n as int).drop_first() =~= v@.subrange(
                lo + 1,
                n as int,
            ));
        }
        lo = lo + 1;
    }
    assert(trim_start_spec(v@) =~= v@.subrange(lo as int, n as int));
    let mut hi: usize = n;
    while hi > lo && is_space(v[hi - 1])
        invariant
            n == v@.len(),
            lo <= hi <= n,
            trim_end_spec(v@.subrange(lo as int, n as int)) == trim_end_spec(
                v@.subrange(lo as int, hi as int),
            ),
        decreases hi,
    {
        proof {
            assert(v@.subrange(lo as int, hi as int).drop_last() =~= v@.subrange(
                lo as int,
                hi - 1,
            ));
        }
        hi = hi - 1;
    }
    assert(trim_end_spec(v@.subrange(lo as int, hi as int)) =~= v@.subrange(
        lo as int,
        hi as int,
    ));
    let mut r: Vec<char> = Vec::new();
    let mut i: usize = lo;
    while i < hi
        invariant
            lo <= i <= hi <= n,
            n == v@.len(),
            r@ == v@.subrange(lo as int, i as int),
        decreases hi - i,
    {
        r.push(v[i]);
        assert(v@.subrange(lo as int, i as int).push(v@[i as int]) =~= v@.subrange(
            lo as int,
            i + 1,
        ));
        i = i + 1;
    }
    assert(trim_spec(v@) == v@.subrange(lo as int, hi as int));
    r
}

/// ASCII lower-case a character vector.
pub fn lower_vec(v: &Vec<char>) -> (r: Vec<char>)
    ensures
        r@ == lower_seq(v@),
{
    let n = v.len();
    let mut r: Vec<char> = Vec::new();
    for i in 0..n
        invariant
            n == v@.len(),
            r@ == lower_seq(v@.take(i as int)),
    {
        let c = v[i];
        let lc: char = if c >= 'A' && c <= 'Z' {
            ((c as u8) + 32) as char
        } else {
            c
        };
        r.push(lc);
        assert(r@ =~= lower_seq(v@.take(i + 1)));
    }
    assert(v@.take(n as int) =~= v@);
    r
}

/// Find the first occurrence of `c` in `v[from..]`.
pub fn find_char_vec(v: &Vec<char>, from: usize, c: char) -> (r: Option<usize>)
    requires
        from <= v@.len(),
    ensures
        ({
            let s = v@.subrange(from as int, v@.len() as int);
            match r {
                None => find_char(s, c) is None,
                Some(j) => from <= j < v@.len() && v@[j as int] == c && find_char(s, c) == Some(
                    j - from,
                ),
            }
        }),
{
    let ghost s = v@.subrange(from as int, v@.len() as int);
    let n = v.len();
    let mut i: usize = from;
    while i < n
        invariant
            from <= i <= n,
            n == v@.len(),
            s == v@.subrange(from as int, n as int),
            forall|j: int| 0 <= j < i - from ==> s[j] != c,
        decreases n - i,
    {
        if v[i] == c {
            proof {
                lemma_find_char(s, c);
                assert(s[i - from] == c);
                match find_char(s, c) {
                    None => {
                        assert(false);
                    },
                    Some(k) => {
                        if k != i - from {
                            assert(s[k] == c);
                        }
                    },
                }
            }
            return Some(i);
        }
        i = i + 1;
    }
    proof {
        lemma_find_char(s, c);
        match find_char(s, c) {
            None => {},
            Some(k) => {
                assert(s[k] == c);
            },
        }
    }
    None
}

/// `v` capped at `cap`.
pub open spec fn cap_at(v: int, cap: int) -> int {
    if v > cap {
        cap
    } else {
        v
    }
}

/// Scan `v[from..to]`; if every character is a digit, return their value
/// capped at `cap`, else `None`.
pub fn digits_value_capped(v: &Vec<char>, from: usize, to: usize, cap: u128) -> (r: Option<
    u128,
>)
    requires
        from <= to <= v@.len(),
        1 <= cap <= 100_000_000_000_000_000_000_000u128,
    ensures
        ({
            let s = v@.subrange(from as int, to as int);
            match r {
                Some(x) => all_digit_chars(s) && x as int == cap_at(digits_value(s), cap as int)
                    && x <= cap,
                None => !all_digit_chars(s),
            }
        }),
{
    let ghost s = v@.subrange(from as int, to as int);
    let mut acc: u128 = 0;
    let mut i: usize = from;
    proof {
        assert(v@.subrange(from as int, from as int) =~= Seq::<char>::empty());
    }
    while i < to
        invariant
            from <= i <= to <= v@.len(),
            1 <= cap <= 100_000_000_000_000_000_000_000u128,
            s == v@.subrange(from as int, to as int),
            all_digit_chars(v@.subrange(from as int, i as int)),
            acc as int == cap_at(digits_value(v@.subrange(from as int, i as int)), cap as int),
            acc <= cap,
        decreases to - i,
    {
        let c = v[i];
        if !(c >= '0' && c <= '9') {
            proof {
                assert(s[i - from] == v@[i as int]);
            }
            return None;
        }
        proof {
            let s0 = v@.subrange(from as int, i as int);
            let s1 = v@.subrange(from as int, i + 1);
            assert(s1.drop_last() =~= s0);
            assert(s1.last() == v@[i as int]);
            lemma_digits_value_nonneg(s0);
        }
        let d: u128 = (c as u32 - 48) as u128;
        let a2: u128 = acc * 10 + d;
        acc = if a2 > cap {
            cap
        } else {
            a2
        };
        proof {
            let s0 = v@.subrange(from as int, i as int);
            let s1 = v@.subrange(from as int, i + 1);
            let e0 = digits_value(s0);
            let e1 = digits_value(s1);
            assert(e1 == e0 * 10 + digit_char_val(v@[i as int]));
            if e0 > cap as int {
                assert(e1 > cap as int);
            }
        }
        i = i + 1;
    }
    proof {
        assert(v@.subrange(from as int, to as int) == s);
    }
    Some(acc)
}

/// When `c` first occurs at `k`, `find_char` says so.
pub proof fn lemma_find_char_is(s: Seq<char>, c: char, k: int)
    requires
        0 <= k < s.len(),
        s[k] == c,
        forall|i: int| 0 <= i < k ==> s[i] != c,
    ensures
        find_char(s, c) == Some(k),
{
    lemma_find_char(s, c);
    match find_char(s, c) {
        None => {
            assert(false);
        },
        Some(j) => {
            if j < k {
                assert(s[j] != c);
            }
            if j > k {
                assert(s[k] != c);
            }
        },
    }
}

/// Build a string from the characters `v[from..to]`.
pub fn string_of_range(v: &Vec<char>, from: usize, to: usize) -> (s: String)
    requires
        from <= to <= v@.len(),
    ensures
        s@ == v@.subrange(from as int, to as int),
{
    let mut s = String::new();
    let mut i: usize = from;
    proof {
        assert(v@.subrange(from as int, from as int) =~= Seq::<char>::empty());
    }
    while i < to
        invariant
            from <= i <= to <= v@.len(),
            s@ == v@.subrange(from as int, i as int),
        decreases to - i,
    {
        push_char(&mut s, v[i]);
        proof {
            assert(v@.subrange(from as int, i as int).push(v@[i as int]) =~= v@.subrange(
                from as int,
                i + 1,
            ));
        }
        i = i + 1;
    }
    s
}

/// Whether `pat` occurs as a contiguous part of `v`.
pub fn contains_sub(v: &Vec<char>, pat: &Vec<char>) -> (r: bool)
    requires
        pat@.len() > 0,
    ensures
        r == contains_seq(v@, pat@),
{
    let n = v.len();
    let m = pat.len();
    if m > n {
        proof {
            assert(!contains_seq(v@, pat@)) by {
                if contains_seq(v@, pat@) {
                    let i = choose|i: int|
                        0 <= i <= v@.len() - pat@.len() && #[trigger] v@.subrange(
                            i,
                            i + pat@.len(),
                        ) == pat@;
                    assert(false);
                }
            }
        }
        return false;
    }
    let mut i: usize = 0;
    while i <= n - m
        invariant
            1 <= m <= n,
            n == v@.len(),
            m == pat@.len(),
            i <= n - m + 1,
            forall|q: int|
                0 <= q < i ==> #[trigger] v@.subrange(q, q + pat@.len()) != pat@,
        decreases n - m + 1 - i,
    {
        let mut j: usize = 0;
        let mut hit: bool = true;
        while j < m
            invariant
                i + m <= n,
                n == v@.len(),
                m == pat@.len(),
                j <= m,
                hit ==> forall|q: int| 0 <= q < j ==> #[trigger] v@[i + q] == pat@[q],
                !hit ==> v@.subrange(i as int, i + pat@.len()) != pat@,
            decreases m - j,
        {
            if v[i + j] != pat[j] {
                proof {
                    assert(v@.subrange(i as int, i + pat@.len())[j as int] != pat@[j as int]);
                }
                hit = false;
                j = m;
            } else {
                j = j + 1;
            }
        }
        if hit {
            proof {
                assert forall|q: int| 0 <= q < pat@.len() implies v@.subrange(
                    i as int,
                    i + pat@.len(),
                )[q] == pat@[q] by {
                    assert(v@[i + q] == pat@[q]);
                }
                assert(v@.subrange(i as int, i + pat@.len()) =~= pat@);
            }
            return true;
        }
        i = i + 1;
    }
    proof {
        assert forall|q: int| 0 <= q <= v@.len() - pat@.len() implies #[trigger] v@.subrange(
            q,
            q + pat@.len(),
        ) != pat@ by {
            assert(q < i);
        }
    }
    false
}

/// Count the occurrences of `c` in `v`.
pub fn count_char_vec(v: &Vec<char>, c: char) -> (r: usize)
    ensures
        r as int == count_char(v@, c),
{
    let n = v.len();
    let mut r: usize = 0;
    proof {
        assert(v@.take(0) =~= Seq::<char>::empty());
    }
    let mut i: usize = 0;
    while i < n
        invariant
            i <= n,
            n == v@.len(),
            r as int == count_char(v@.take(i as int), c),
            r <= i,
        decreases n - i,
    {
        proof {
            assert(v@.take(i + 1).drop_last() =~= v@.take(i as int));
            assert(v@.take(i + 1).last() == v@[i as int]);
        }
        if v[i] == c {
            r = r + 1;
        }
        i = i + 1;
    }
    proof {
        assert(v@.take(n as int) =~= v@);
    }
    r
}

/// The position of the last occurrence of `c` in `v[..to]`, if any.
pub fn find_last_char_vec(v: &Vec<char>, to: usize, c: char) -> (r: Option<usize>)
    requires
        to <= v@.len(),
    ensures
        ({
            let s = v@.take(to as int);
            match r {
                None => find_last_char(s, c) is None,
                Some(j) => j < to && v@[j as int] == c && find_last_char(s, c) == Some(j as int),
            }
        }),
{
    let mut r: Option<usize> = None;
    let mut i: usize = 0;
    proof {
        assert(v@.take(0) =~= Seq::<char>::empty());
    }
    while i < to
        invariant
            i <= to <= v@.len(),
            match r {
                None => find_last_char(v@.take(i as int), c) is None,
                Some(j) => j < i && v@[j as int] == c && find_last_char(v@.take(i as int), c)
                    == Some(j as int),
            },
        decreases to - i,
    {
        proof {
            assert(v@.take(i + 1).drop_last() =~= v@.take(i as int));
            assert(v@.take(i + 1).last() == v@[i as int]);
        }
        if v[i] == c {
            r = Some(i);
        }
        i = i + 1;
    }
    r
}

/// Remove every occurrence of `c` from the vector.
pub fn remove_char(v: &Vec<char>, c: char) -> (r: Vec<char>)
    ensures
        r@ == remove_all(v@, c),
{
    let n = v.len();
    let mut r: Vec<char> = Vec::new();
    for i in 0..n
        invariant
            n == v@.len(),
            r@ == remove_all(v@.take(i as int), c),
    {
        proof {
            assert(v@.take(i + 1).drop_last() =~= v@.take(i as int));
        }
        if v[i] != c {
            r.push(v[i]);
        }
    }
    assert(v@.take(n as int) =~= v@);
    r
}

} // verus!
