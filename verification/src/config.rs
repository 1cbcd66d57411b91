use vstd::prelude::*;

use crate::error::AppError;
use crate::text::{
    chars_of, contains_seq, contains_sub, count_char, count_char_vec, find_char, find_char_vec,
    find_last_char, find_last_char_vec, string_of_range, trim_end_char,
};

verus! {

/// The settings of one pipeline run. Star thresholds are held in thousandths
/// of a star, the unit of `stars_to_number`.
pub struct Config {
    pub owner: String,
    pub repo: String,
    pub top_n: usize,
    pub max_pages: usize,
    pub min_stars_milli: i64,
    pub is_package: bool,
    pub show_desc: bool,
    pub use_cache: bool,
    pub output_format: String,
}

impl Config {
    /// The dependent-type filter the listing is asked for.
    pub fn dependent_type(&self) -> (r: &'static str)
        ensures
            self.is_package ==> r@ == "PACKAGE"@,
            !self.is_package ==> r@ == "REPOSITORY"@,
    {
        if self.is_package {
            "PACKAGE"
        } else {
            "REPOSITORY"
        }
    }
}

/// What a repository reference means: a reference naming `github.com` is
/// stripped of trailing slashes and must hold at least four slashes; its
/// last two segments are the owner and the repository. Any other reference
/// must be exactly `owner/repo`. Everything else is malformed.
pub open spec fn repo_ref_spec(s: Seq<char>) -> Option<(Seq<char>, Seq<char>)> {
    if contains_seq(s, "github.com"@) {
        let t = trim_end_char(s, '/');
        if count_char(t, '/') >= 4 {
            let j = find_last_char(t, '/')->0;
            let j2 = find_last_char(t.take(j), '/')->0;
            Some((t.subrange(j2 + 1, j), t.skip(j + 1)))
        } else {
            None
        }
    } else {
        match find_char(s, '/') {
            Some(i) => if find_char(s.skip(i + 1), '/') is None {
                Some((s.take(i), s.skip(i + 1)))
            } else {
                None
            },
            None => None,
        }
    }
}

/// Extract `(owner, repo)` from a repository reference, either a full
/// `github.com` address or the short `owner/repo` form; a malformed
/// reference is rejected as `Invalid`, exactly when `repo_ref_spec` has no
/// value for it.
pub fn parse_repo_url(repo_url: &str) -> (r: Result<(String, String), AppError>)
    ensures
        match repo_ref_spec(repo_url@) {
            Some(p) => r is Ok && r->Ok_0.0@ == p.0 && r->Ok_0.1@ == p.1,
            None => r is Err && r->Err_0 == AppError::Invalid,
        },
{
    let v = chars_of(repo_url);
    let pat = chars_of("github.com");
    proof {
        reveal_strlit("github.com");
    }
    if contains_sub(&v, &pat) {
        let n = v.len();
        // strip trailing slashes
        let mut hi: usize = n;
        proof {
            assert(v@.subrange(0, n as int) =~= v@);
        }
        while hi > 0 && v[hi - 1] == '/'
            invariant
                hi <= n,
                n == v@.len(),
                trim_end_char(v@, '/') == trim_end_char(v@.subrange(0, hi as int), '/'),
            decreases hi,
        {
            proof {
                assert(v@.subrange(0, hi as int).drop_last() =~= v@.subrange(0, hi - 1));
            }
            hi = hi - 1;
        }
        proof {
            assert(trim_end_char(v@.subrange(0, hi as int), '/') =~= v@.subrange(0, hi as int));
        }
        let ghost t = trim_end_char(v@, '/');
        let trimmed = string_of_range(&v, 0, hi);
        let tv = chars_of(trimmed.as_str());
        proof {
            assert(tv@ == t);
        }
        if count_char_vec(&tv, '/') >= 4 {
            match find_last_char_vec(&tv, tv.len(), '/') {
                None => {
                    proof {
                        assert(tv@.take(tv@.len() as int) =~= tv@);
                        crate::text::lemma_find_last_char(tv@, '/');
                        lemma_count_char_zero(tv@, '/');
                        assert(false);
                    }
                    Err(AppError::Invalid)
                },
                Some(j) => {
                    proof {
                        assert(tv@.take(tv@.len() as int) =~= tv@);
                    }
                    match find_last_char_vec(&tv, j, '/') {
                        None => {
                            proof {
                                crate::text::lemma_find_last_char(tv@, '/');
                                crate::text::lemma_find_last_char(tv@.take(j as int), '/');
                                lemma_count_char_split(tv@, j as int, '/');
                                lemma_count_char_zero(tv@.take(j as int), '/');
                                lemma_count_char_one_tail(tv@, j as int, '/');
                                assert(false);
                            }
                            Err(AppError::Invalid)
                        },
                        Some(j2) => {
                            let owner = string_of_range(&tv, j2 + 1, j);
                            let repo = string_of_range(&tv, j + 1, tv.len());
                            proof {
                                assert(tv@.subrange(j + 1, tv@.len() as int) =~= tv@.skip(
                                    j + 1,
                                ));
                            }
                            Ok((owner, repo))
                        },
                    }
                },
            }
        } else {
            Err(AppError::Invalid)
        }
    } else {
        match find_char_vec(&v, 0, '/') {
            None => {
                proof {
                    assert(v@.subrange(0, v@.len() as int) =~= v@);
                }
                Err(AppError::Invalid)
            },
            Some(i) => {
                proof {
                    assert(v@.subrange(0, v@.len() as int) =~= v@);
                }
                match find_char_vec(&v, i + 1, '/') {
                    Some(_) => {
                        proof {
                            assert(v@.subrange(i + 1, v@.len() as int) =~= v@.skip(i + 1));
                        }
                        Err(AppError::Invalid)
                    },
                    None => {
                        proof {
                            assert(v@.subrange(i + 1, v@.len() as int) =~= v@.skip(i + 1));
                        }
                        let owner = string_of_range(&v, 0, i);
                        let repo = string_of_range(&v, i + 1, v.len());
                        proof {
                            assert(v@.subrange(0, i as int) =~= v@.take(i as int));
                            assert(v@.subrange(i + 1, v@.len() as int) =~= v@.skip(i + 1));
                        }
                        Ok((owner, repo))
                    },
                }
            },
        }
    }
}

/// A sequence in which `c` never occurs counts zero of it.
proof fn lemma_count_char_zero(s: Seq<char>, c: char)
    requires
        forall|i: int| 0 <= i < s.len() ==> s[i] != c,
    ensures
        count_char(s, c) == 0,
    decreases s.len(),
{
    if s.len() > 0 {
        assert(forall|i: int|
            0 <= i < s.len() - 1 ==> s.drop_last()[i] == s[i]);
        lemma_count_char_zero(s.drop_last(), c);
    }
}

/// Occurrence counts add over a split.
proof fn lemma_count_char_split(s: Seq<char>, mid: int, c: char)
    requires
        0 <= mid <= s.len(),
    ensures
        count_char(s, c) == count_char(s.take(mid), c) + count_char(s.skip(mid), c),
    decreases s.len() - mid,
{
    if mid == s.len() {
        assert(s.take(mid) =~= s);
        assert(count_char(s.skip(mid), c) == 0) by {
            assert(s.skip(mid) =~= Seq::<char>::empty());
        }
    } else {
        lemma_count_char_split(s.drop_last(), mid, c);
        assert(s.drop_last().take(mid) =~= s.take(mid));
        assert(s.drop_last().skip(mid) =~= s.skip(mid).drop_last());
        assert(s.skip(mid).last() == s.last());
    }
}

/// Past the last occurrence of `c` at position `j`, the tail holds exactly
/// the one occurrence at `j`.
proof fn lemma_count_char_one_tail(s: Seq<char>, j: int, c: char)
    requires
        0 <= j < s.len(),
        s[j] == c,
        forall|i: int| j < i < s.len() ==> s[i] != c,
    ensures
        count_char(s.skip(j), c) == 1,
{
    let tail = s.skip(j);
    assert(tail[0] == c);
    assert(forall|i: int| 1 <= i < tail.len() ==> tail[i] != c);
    assert(tail.skip(1) =~= s.skip(j + 1));
    lemma_count_char_zero(tail.skip(1), c);
    lemma_count_char_split(tail, 1, c);
    assert(count_char(tail.take(1), c) == 1) by {
        assert(tail.take(1).len() == 1);
        assert(tail.take(1)[0] == tail[0]);
        assert(tail.take(1).last() == c);
        assert(tail.take(1).drop_last() =~= Seq::<char>::empty());
        assert(count_char(Seq::<char>::empty(), c) == 0);
    }
}

} // verus!
