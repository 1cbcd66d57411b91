use vstd::prelude::*;
use vstd::string::StringExecFns;

use std::io::Read;
use std::io::Write;

use crate::error::AppError;
use crate::text::{
    all_digit_chars, chars_of, digit_char_val, digits_value, digits_value_capped,
    find_char, find_char_vec, is_digit_char, lemma_digits_value_nonneg, lemma_find_char_is,
    push_char, string_of_range,
};

verus! {

// The response cache holds one compressed file per fetched address. The
// file name is a digest of the address; the payload is a small frame — the
// capture time in decimal, one newline, the body text — compressed with
// gzip. Freshness is judged by the file's modification time against a
// 24-hour window. Reading and writing the file itself is the caller's I/O;
// everything here is the pure part: naming, freshness arithmetic, and the
// codec, whose round trip is part of its contract.

/// One cache entry: when the body was captured (seconds since the epoch) and
/// the body text itself.
#[derive(Debug, Clone, PartialEq, Eq)]
pub struct CachedResponse {
    pub timestamp: u64,
    pub content: String,
}

/// The freshness window of a cache entry, in seconds: 24 hours.
pub open spec fn cache_expiry_secs() -> int {
    86400
}

/// The hex digest that names a cached address's file.
pub uninterp spec fn md5_hex_of(s: Seq<char>) -> Seq<char>;

/// Relies on rust-crypto's `Md5` through its `Digest` trait: `result_str`
/// returns the 32-character lowercase hex digest of the input, a function of
/// the input alone.
#[verifier::external_body]
fn md5_hex(s: &str) -> (r: String)
    ensures
        r@ == md5_hex_of(s@),
        r@.len() == 32,
{
    let mut hasher = crypto::md5::Md5::new();
    crypto::digest::Digest::input_str(&mut hasher, s);
    crypto::digest::Digest::result_str(&mut hasher)
}

/// The file name a fetched address is cached under: the digest of the
/// address with a `.json` extension. Deterministic in the address; distinct
/// addresses collide only if their digests do.
pub fn get_cache_path(url: &str) -> (r: String)
    ensures
        r@ == md5_hex_of(url@) + ".json"@,
{
    let mut r = md5_hex(url);
    r.append(".json");
    r
}

/// Whether a cache entry is fresh: it exists (`modified_secs` is known), was
/// not modified in the future, and is younger than the freshness window.
/// The caller reads the file's modification time and maps any I/O failure to
/// `None`, so every failure counts as stale and the fetch proceeds.
pub fn is_cache_valid(now_secs: u64, modified_secs: Option<u64>) -> (r: bool)
    ensures
        r == match modified_secs {
            None => false,
            Some(m) => m <= now_secs && now_secs - m < cache_expiry_secs(),
        },
{
    match modified_secs {
        None => false,
        Some(m) => m <= now_secs && now_secs - m < 86400,
    }
}

/// The cache-lookup rule of a fetch: a cached body is used only when caching
/// is on and the entry is fresh.
pub fn should_use_cached(use_cache: bool, now_secs: u64, modified_secs: Option<u64>) -> (r:
    bool)
    ensures
        r == (use_cache && match modified_secs {
            None => false,
            Some(m) => m <= now_secs && now_secs - m < cache_expiry_secs(),
        }),
{
    use_cache && is_cache_valid(now_secs, modified_secs)
}

/// The compressed form of a text: flate2's gzip of its UTF-8 bytes at the
/// default level.
pub uninterp spec fn gzip_of(text: Seq<char>) -> Seq<u8>;

/// Relies on flate2's `write::GzEncoder`: deterministic gzip of the text's
/// UTF-8 bytes (the header it writes is constant: no time stamp, fixed
/// system byte). Writing into a `Vec` cannot fail.
#[verifier::external_body]
fn gzip_compress(text: &str) -> (r: Vec<u8>)
    ensures
        r@ == gzip_of(text@),
{
    let mut enc = flate2::write::GzEncoder::new(Vec::new(), flate2::Compression::default());
    let _ = enc.write_all(text.as_bytes());
    enc.finish().unwrap_or_default()
}

/// Relies on flate2's `read::GzDecoder`: gzip is lossless, so decompressing
/// the compressed form of a text yields that text; any input it cannot
/// decode to UTF-8 text is reported as `None`.
#[verifier::external_body]
fn gzip_decompress(data: &[u8]) -> (r: Option<String>)
    ensures
        forall|t: Seq<char>| data@ == gzip_of(t) ==> r is Some && r->0@ == t,
{
    let mut dec = flate2::read::GzDecoder::new(data);
    let mut out = String::new();
    match dec.read_to_string(&mut out) {
        Ok(_) => Some(out),
        Err(_) => None,
    }
}

/// The decimal digit character for `d`.
pub open spec fn digit_of(d: int) -> char {
    if d == 0 {
        '0'
    } else if d == 1 {
        '1'
    } else if d == 2 {
        '2'
    } else if d == 3 {
        '3'
    } else if d == 4 {
        '4'
    } else if d == 5 {
        '5'
    } else if d == 6 {
        '6'
    } else if d == 7 {
        '7'
    } else if d == 8 {
        '8'
    } else {
        '9'
    }
}

proof fn lemma_digit_of_val(d: int)
    requires
        0 <= d < 10,
    ensures
        is_digit_char(digit_of(d)),
        digit_char_val(digit_of(d)) == d,
{
}

/// The decimal rendering of `n`, most significant digit first.
pub open spec fn dec_digits(n: nat) -> Seq<char>
    decreases n,
{
    if n < 10 {
        seq![digit_of(n as int)]
    } else {
        dec_digits(n / 10).push(digit_of((n % 10) as int))
    }
}

/// Decimal rendering renders digits whose value is the number again.
pub proof fn lemma_dec_digits(n: nat)
    ensures
        dec_digits(n).len() >= 1,
        all_digit_chars(dec_digits(n)),
        digits_value(dec_digits(n)) == n,
    decreases n,
{
    if n < 10 {
        lemma_digit_of_val(n as int);
        let s = dec_digits(n);
        assert(s.drop_last() =~= Seq::<char>::empty());
        assert(digits_value(Seq::<char>::empty()) == 0);
        assert(s.last() == digit_of(n as int));
        assert(digits_value(s) == 0 * 10 + digit_char_val(digit_of(n as int)));
    } else {
        lemma_dec_digits(n / 10);
        lemma_digit_of_val((n % 10) as int);
        let w = dec_digits(n / 10);
        let s = w.push(digit_of((n % 10) as int));
        assert(s.drop_last() =~= w);
        assert(s.last() == digit_of((n % 10) as int));
        assert(digits_value(s) == digits_value(w) * 10 + digit_char_val(
            digit_of((n % 10) as int),
        ));
        assert forall|i: int| 0 <= i < s.len() implies is_digit_char(s[i]) by {
            if i < w.len() {
                assert(s[i] == w[i]);
            }
        }
        vstd::arithmetic::div_mod::lemma_fundamental_div_mod(n as int, 10);
        assert(n == 10 * ((n as int) / 10) + (n as int) % 10);
    }
}

/// The on-disk frame before compression: the capture time in decimal, one
/// newline, then the body text.
pub open spec fn frame_spec(timestamp: u64, content: Seq<char>) -> Seq<char> {
    dec_digits(timestamp as nat) + seq!['\n'] + content
}

/// What a frame parses back to: the digits before the first newline as the
/// capture time (they must fit a `u64`), the rest as the body.
pub open spec fn parse_frame_spec(s: Seq<char>) -> Option<(int, Seq<char>)> {
    match find_char(s, '\n') {
        None => None,
        Some(i) => {
            let d = s.take(i);
            if d.len() > 0 && all_digit_chars(d) && digits_value(d) <= u64::MAX as int {
                Some((digits_value(d), s.skip(i + 1)))
            } else {
                None
            }
        },
    }
}

/// Parsing a rendered frame gives back exactly what was framed.
pub proof fn lemma_frame_round_trip(timestamp: u64, content: Seq<char>)
    ensures
        parse_frame_spec(frame_spec(timestamp, content)) == Some((timestamp as int, content)),
{
    let w = dec_digits(timestamp as nat);
    let s = frame_spec(timestamp, content);
    lemma_dec_digits(timestamp as nat);
    assert(s[w.len() as int] == '\n');
    assert forall|i: int| 0 <= i < w.len() implies s[i] != '\n' by {
        assert(s[i] == w[i]);
        assert(is_digit_char(w[i]));
    }
    lemma_find_char_is(s, '\n', w.len() as int);
    assert(s.take(w.len() as int) =~= w);
    assert(s.skip(w.len() as int + 1) =~= content);
}

/// Render the decimal digits of `n` onto the end of `s`.
fn push_dec_digits(s: &mut String, n: u64)
    ensures
        final(s)@ == old(s)@ + dec_digits(n as nat),
    decreases n,
{
    if n >= 10 {
        push_dec_digits(s, n / 10);
    }
    let d: u64 = n % 10;
    let c: char = if d == 0 {
        '0'
    } else if d == 1 {
        '1'
    } else if d == 2 {
        '2'
    } else if d == 3 {
        '3'
    } else if d == 4 {
        '4'
    } else if d == 5 {
        '5'
    } else if d == 6 {
        '6'
    } else if d == 7 {
        '7'
    } else if d == 8 {
        '8'
    } else {
        '9'
    };
    push_char(s, c);
    proof {
        if n < 10 {
            assert(old(s)@ + dec_digits(n as nat) =~= old(s)@.push(digit_of(n as int)));
        } else {
            assert(old(s)@ + dec_digits(n as nat) =~= (old(s)@ + dec_digits((n / 10) as nat)).push(
                digit_of((n % 10) as int),
            ));
        }
    }
}

/// Serialize and compress a cache entry captured at `now_secs`.
///
/// The caller persists the returned bytes; a failure to persist is a warning
/// at most and never fails the fetch that produced the content.
pub fn write_to_cache(content: &str, now_secs: u64) -> (r: Vec<u8>)
    ensures
        r@ == gzip_of(frame_spec(now_secs, content@)),
{
    let mut frame = String::new();
    push_dec_digits(&mut frame, now_secs);
    push_char(&mut frame, '\n');
    frame.append(content);
    proof {
        assert(frame@ =~= frame_spec(now_secs, content@));
    }
    gzip_compress(frame.as_str())
}

/// Parse a decompressed frame into a cache entry.
pub fn decode_frame(s: &str) -> (r: Option<CachedResponse>)
    ensures
        match parse_frame_spec(s@) {
            None => r is None,
            Some(p) => r is Some && r->0.timestamp as int == p.0 && r->0.content@ == p.1,
        },
{
    let v = chars_of(s);
    proof {
        assert(v@.subrange(0, v@.len() as int) =~= v@);
    }
    match find_char_vec(&v, 0, '\n') {
        None => None,
        Some(i) => {
            if i == 0 {
                return None;
            }
            proof {
                assert(v@.subrange(0, i as int) =~= v@.take(i as int));
            }
            match digits_value_capped(&v, 0, i, 20_000_000_000_000_000_000) {
                None => None,
                Some(x) => {
                    proof {
                        lemma_digits_value_nonneg(v@.take(i as int));
                    }
                    if x > 0xffff_ffff_ffff_ffff {
                        None
                    } else {
                        let content = string_of_range(&v, i + 1, v.len());
                        proof {
                            assert(v@.subrange(i + 1, v@.len() as int) =~= v@.skip(i + 1));
                        }
                        Some(CachedResponse { timestamp: x as u64, content })
                    }
                },
            }
        },
    }
}

/// Decompress and decode a persisted cache entry, returning its body text.
///
/// The round trip is exact: bytes written by `write_to_cache` for any body
/// text — multi-byte characters included — read back as that text. Anything
/// else that fails to decompress or to parse is a `Decode` error, which the
/// caller treats as a cache miss.
pub fn read_from_cache(data: &[u8]) -> (r: Result<String, AppError>)
    ensures
        forall|ts: u64, c: Seq<char>|
            data@ == gzip_of(#[trigger] frame_spec(ts, c)) ==> r is Ok && r->Ok_0@ == c,
        r is Err ==> (r->Err_0 == AppError::Decode),
{
    match gzip_decompress(data) {
        None => {
            proof {
                assert forall|ts: u64, c: Seq<char>|
                    data@ == gzip_of(#[trigger] frame_spec(ts, c)) implies false by {}
            }
            Err(AppError::Decode)
        },
        Some(text) => {
            match decode_frame(text.as_str()) {
                None => {
                    proof {
                        assert forall|ts: u64, c: Seq<char>|
                            data@ == gzip_of(#[trigger] frame_spec(ts, c)) implies false by {
                            lemma_frame_round_trip(ts, c);
                        }
                    }
                    Err(AppError::Decode)
                },
                Some(entry) => {
                    proof {
                        assert forall|ts: u64, c: Seq<char>|
                            data@ == gzip_of(#[trigger] frame_spec(ts, c)) implies entry.content@
                            == c by {
                            lemma_frame_round_trip(ts, c);
                        }
                    }
                    Ok(entry.content)
                },
            }
        },
    }
}

} // verus!
