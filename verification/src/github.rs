use vstd::prelude::*;
use vstd::string::StringExecFns;

use crate::paginate::origin_spec;
use crate::text::{
    all_digit_chars, chars_of, digits_value, digits_value_capped, is_space, lower_seq, lower_vec,
    remove_all, remove_char, string_of, string_of_range, token_len, trim_spec, trim_start_char,
    trim_vec,
};

verus! {

// The markup knowledge lives in a handful of trusted extractors around the
// scraper crate: they turn an HTML page into plain strings — per listing
// row the link target and the star label, the pagination link, the total
// count label, the description paragraph. Everything after that — skipping
// incomplete rows, normalizing keys, trimming, parsing the count — is
// verified here against those extractors' named results.

/// Per listing row: the dependent link's target and the star label's text,
/// either of which the markup may lack.
pub uninterp spec fn listing_rows_of(html: Seq<char>) -> Seq<(Option<Seq<char>>, Option<Seq<char>>)>;

/// Relies on scraper: parse the document and hand out, for each listing row
/// (`.flex-items-center`), the `href` of its `a.text-bold` link and the text
/// of its first `div span`, both as found. A function of the markup alone.
#[verifier::external_body]
fn listing_rows(html: &str) -> (rows: Vec<(Option<String>, Option<String>)>)
    ensures
        rows.deep_view() == listing_rows_of(html@),
{
    let document = scraper::Html::parse_document(html);
    let row_sel = scraper::Selector::parse(".flex-items-center").unwrap();
    let link_sel = scraper::Selector::parse("a.text-bold").unwrap();
    let star_sel = scraper::Selector::parse("div span").unwrap();
    let mut rows = Vec::new();
    for row in document.select(&row_sel) {
        let href = row.select(&link_sel).next().and_then(|l| l.attr("href")).map(String::from);
        let stars = row.select(&star_sel).next().map(|e| e.text().collect::<String>());
        rows.push((href, stars));
    }
    rows
}

/// The pagination link of a listing page, as found in the markup.
pub uninterp spec fn next_link_of(html: Seq<char>) -> Option<Seq<char>>;

/// Relies on scraper: the `href` of the first `.paginate-container a`
/// element, as found. A function of the markup alone.
#[verifier::external_body]
fn next_link_href(html: &str) -> (r: Option<String>)
    ensures
        r.deep_view() == next_link_of(html@),
{
    let document = scraper::Html::parse_document(html);
    let sel = scraper::Selector::parse(".paginate-container a").unwrap();
    document.select(&sel).next().and_then(|el| el.attr("href")).map(String::from)
}

/// The text of the listing's total-count label, as found in the markup.
pub uninterp spec fn total_label_of(html: Seq<char>) -> Option<Seq<char>>;

/// Relies on scraper: the text of the first
/// `.table-list-header-toggle .btn-link.selected` element. A function of the
/// markup alone.
#[verifier::external_body]
fn total_count_label(html: &str) -> (r: Option<String>)
    ensures
        r.deep_view() == total_label_of(html@),
{
    let document = scraper::Html::parse_document(html);
    let sel = scraper::Selector::parse(".table-list-header-toggle .btn-link.selected").unwrap();
    document.select(&sel).next().map(|el| el.text().collect::<String>())
}

/// The text of a repository page's description paragraph, as found.
pub uninterp spec fn description_text_of(html: Seq<char>) -> Option<Seq<char>>;

/// Relies on scraper: the text of the first `div.BorderGrid-cell p` element.
/// A function of the markup alone.
#[verifier::external_body]
fn description_node_text(html: &str) -> (r: Option<String>)
    ensures
        r.deep_view() == description_text_of(html@),
{
    let document = scraper::Html::parse_document(html);
    let sel = scraper::Selector::parse("div.BorderGrid-cell p").unwrap();
    document.select(&sel).next().map(|el| el.text().collect::<String>())
}

/// A raw listing row becomes a record when both fields are present: the key
/// is the link target without its leading slashes, lower-cased; the star
/// text is trimmed but otherwise kept as displayed.
pub open spec fn normalize_row(row: (Option<Seq<char>>, Option<Seq<char>>)) -> Option<
    (Seq<char>, Seq<char>),
> {
    match row {
        (Some(href), Some(stars)) => Some(
            (lower_seq(trim_start_char(href, '/')), trim_spec(stars)),
        ),
        _ => None,
    }
}

/// The records of a page: its complete rows, normalized, in page order.
pub open spec fn page_records(rows: Seq<(Option<Seq<char>>, Option<Seq<char>>)>) -> Seq<
    (Seq<char>, Seq<char>),
>
    decreases rows.len(),
{
    if rows.len() == 0 {
        Seq::empty()
    } else {
        page_records(rows.drop_last()) + match normalize_row(rows.last()) {
            Some(r) => seq![r],
            None => Seq::empty(),
        }
    }
}

/// Extract a listing page: its records — rows with both a link and a star
/// label, keys lower-cased without leading slashes, star text trimmed — and
/// its pagination link exactly as served.
pub fn parse_page(html: &str) -> (r: (Vec<(String, String)>, Option<String>))
    ensures
        r.0.deep_view() == page_records(listing_rows_of(html@)),
        r.1.deep_view() == next_link_of(html@),
{
    let rows = listing_rows(html);
    let ghost rs = rows.deep_view();
    let n = rows.len();
    let mut out: Vec<(String, String)> = Vec::new();
    proof {
        assert(rs.take(0) =~= Seq::<(Option<Seq<char>>, Option<Seq<char>>)>::empty());
        assert(out.deep_view() =~= Seq::<(Seq<char>, Seq<char>)>::empty());
    }
    let mut i: usize = 0;
    while i < n
        invariant
            0 <= i <= n,
            n == rows@.len(),
            rs == rows.deep_view(),
            rs.len() == n,
            out.deep_view() == page_records(rs.take(i as int)),
        decreases n - i,
    {
        proof {
            assert(rs.take(i + 1).drop_last() =~= rs.take(i as int));
            assert(rs.take(i + 1).last() == rs[i as int]);
            assert(rs[i as int] == (rows@[i as int].0.deep_view(), rows@[i as int].1.deep_view()));
        }
        match (&rows[i].0, &rows[i].1) {
            (Some(href), Some(stars)) => {
                let hv = chars_of(href.as_str());
                let hn = hv.len();
                let mut lo: usize = 0;
                proof {
                    assert(hv@.subrange(0, hn as int) =~= hv@);
                }
                while lo < hn && hv[lo] == '/'
                    invariant
                        lo <= hn,
                        hn == hv@.len(),
                        trim_start_char(hv@, '/') == trim_start_char(
                            hv@.subrange(lo as int, hn as int),
                            '/',
                        ),
                    decreases hn - lo,
                {
                    proof {
                        assert(hv@.subrange(lo as int, hn as int).drop_first() =~= hv@.subrange(
                            lo + 1,
                            hn as int,
                        ));
                    }
                    lo = lo + 1;
                }
                proof {
                    assert(trim_start_char(hv@.subrange(lo as int, hn as int), '/')
                        =~= hv@.subrange(lo as int, hn as int));
                }
                let tail = string_of_range(&hv, lo, hn);
                let tailv = chars_of(tail.as_str());
                let key = string_of(&lower_vec(&tailv));
                let sv = chars_of(stars.as_str());
                let stars_out = string_of(&trim_vec(&sv));
                let ghost before = out.deep_view();
                out.push((key, stars_out));
                proof {
                    assert(out.deep_view() =~= before.push(
                        (key@, stars_out@),
                    ));
                }
            },
            _ => {
                proof {
                    assert(normalize_row(rs[i as int]) is None);
                    assert(page_records(rs.take(i + 1)) =~= page_records(rs.take(i as int)));
                }
            },
        }
        i = i + 1;
    }
    proof {
        assert(rs.take(n as int) =~= rs);
    }
    let next = next_link_href(html);
    (out, next)
}

/// What the total-count label reads as: its first whitespace-separated word
/// with thousands-separator commas removed, as a number; anything unreadable
/// counts as zero (the probe is best-effort display sizing, never
/// correctness).
pub open spec fn count_from_label(label: Seq<char>) -> int {
    let t = trim_spec(label);
    let tok = t.take(token_len(t));
    let digits = remove_all(tok, ',');
    if digits.len() > 0 && all_digit_chars(digits) && digits_value(digits) <= usize::MAX as int {
        digits_value(digits)
    } else {
        0
    }
}

/// Read the displayed total number of dependents off a listing page;
/// defaults to zero when the label is absent or unreadable.
pub fn parse_total_count(html: &str) -> (r: usize)
    ensures
        r as int == match total_label_of(html@) {
            None => 0,
            Some(label) => count_from_label(label),
        },
{
    match total_count_label(html) {
        None => 0,
        Some(label) => {
            let lv = chars_of(label.as_str());
            let t = trim_vec(&lv);
            let n = t.len();
            let mut k: usize = 0;
            proof {
                assert(t@.skip(0) =~= t@);
            }
            while k < n && !is_space(t[k])
                invariant
                    k <= n,
                    n == t@.len(),
                    token_len(t@) == k + token_len(t@.skip(k as int)),
                decreases n - k,
            {
                proof {
                    assert(t@.skip(k as int).first() == t@[k as int]);
                    assert(t@.skip(k as int).drop_first() =~= t@.skip(k + 1));
                }
                k = k + 1;
            }
            proof {
                if k < n {
                    assert(t@.skip(k as int).first() == t@[k as int]);
                } else {
                    assert(t@.skip(k as int) =~= Seq::<char>::empty());
                }
                assert(token_len(t@) == k as int);
                assert(t@.subrange(0, k as int) =~= t@.take(k as int));
            }
            let tok = string_of_range(&t, 0, k);
            let tokv = chars_of(tok.as_str());
            let digits = remove_char(&tokv, ',');
            let dn = digits.len();
            if dn == 0 {
                return 0;
            }
            proof {
                assert(digits@.subrange(0, dn as int) =~= digits@);
            }
            match digits_value_capped(&digits, 0, dn, 20_000_000_000_000_000_000) {
                None => 0,
                Some(x) => {
                    if x > usize::MAX as u128 {
                        0
                    } else {
                        proof {
                            crate::text::lemma_digits_value_nonneg(digits@);
                        }
                        x as usize
                    }
                },
            }
        },
    }
}

/// Read the description text off a repository page: the description
/// paragraph's text, trimmed; absent when the page has none.
pub fn parse_description(html: &str) -> (r: Option<String>)
    ensures
        match description_text_of(html@) {
            None => r is None,
            Some(t) => r is Some && r->0@ == trim_spec(t),
        },
{
    match description_node_text(html) {
        None => None,
        Some(text) => {
            let tv = chars_of(text.as_str());
            Some(string_of(&trim_vec(&tv)))
        },
    }
}

/// The dependents listing address of a repository, before the type filter.
pub fn dependents_base_url(owner: &str, repo: &str) -> (r: String)
    ensures
        r@ == origin_spec() + "/"@ + owner@ + "/"@ + repo@ + "/network/dependents"@,
{
    let mut r = "https://github.com".to_owned();
    r.append("/");
    r.append(owner);
    r.append("/");
    r.append(repo);
    r.append("/network/dependents");
    proof {
        assert(r@ =~= origin_spec() + "/"@ + owner@ + "/"@ + repo@ + "/network/dependents"@);
    }
    r
}

/// A listing address with its dependent-type filter.
pub fn with_dependent_type(base: &str, dependent_type: &str) -> (r: String)
    ensures
        r@ == base@ + "?dependent_type="@ + dependent_type@,
{
    let mut r = base.to_owned();
    r.append("?dependent_type=");
    r.append(dependent_type);
    proof {
        assert(r@ =~= base@ + "?dependent_type="@ + dependent_type@);
    }
    r
}

/// The page address of a repository, for description enrichment.
pub fn repo_page_url(repo_path: &str) -> (r: String)
    ensures
        r@ == origin_spec() + "/"@ + repo_path@,
{
    let mut r = "https://github.com".to_owned();
    r.append("/");
    r.append(repo_path);
    proof {
        assert(r@ =~= origin_spec() + "/"@ + repo_path@);
    }
    r
}

} // verus!
