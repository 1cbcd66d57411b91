use vstd::prelude::*;

use crate::dependent::{convert_stars_to_number, stars_to_number, Dependent};

verus! {

// The ranking engine: a pure reduction of the raw listing records to the
// final top-N selection. A raw record is a pair of the lower-cased
// `owner/name` key and the displayed star text; its model is the pair of the
// two character sequences. The pipeline is: dedupe by key keeping the record
// with the strictly greater normalized star value (first seen wins ties),
// filter by a minimum normalized value, sort by normalized value descending
// (stable), and truncate to the top N.

/// First position in `s` whose key (first component) is `k`.
pub open spec fn find_key(s: Seq<(Seq<char>, Seq<char>)>, k: Seq<char>) -> Option<int>
    decreases s.len(),
{
    if s.len() == 0 {
        None
    } else if s.first().0 == k {
        Some(0)
    } else {
        match find_key(s.drop_first(), k) {
            None => None,
            Some(i) => Some(i + 1),
        }
    }
}

pub proof fn lemma_find_key(s: Seq<(Seq<char>, Seq<char>)>, k: Seq<char>)
    ensures
        match find_key(s, k) {
            None => forall|i: int| 0 <= i < s.len() ==> s[i].0 != k,
            Some(j) => 0 <= j < s.len() && s[j].0 == k && forall|i: int|
                0 <= i < j ==> s[i].0 != k,
        },
    decreases s.len(),
{
    if s.len() > 0 && s.first().0 != k {
        lemma_find_key(s.drop_first(), k);
        match find_key(s.drop_first(), k) {
            None => {
                assert forall|i: int| 0 <= i < s.len() implies s[i].0 != k by {
                    if i > 0 {
                        assert(s.drop_first()[i - 1] == s[i]);
                    }
                }
            },
            Some(j) => {
                assert(s[j + 1] == s.drop_first()[j]);
                assert forall|i: int| 0 <= i < j + 1 implies s[i].0 != k by {
                    if i > 0 {
                        assert(s.drop_first()[i - 1] == s[i]);
                    }
                }
            },
        }
    }
}

/// Fold one record into a deduplicated accumulator: a new key is appended; a
/// known key replaces the held record only when the incoming normalized star
/// value is strictly greater, so the first-seen record wins ties and keeps
/// its position.
pub open spec fn dedupe_step(
    acc: Seq<(Seq<char>, Seq<char>)>,
    r: (Seq<char>, Seq<char>),
) -> Seq<(Seq<char>, Seq<char>)> {
    match find_key(acc, r.0) {
        None => acc.push(r),
        Some(j) => if stars_to_number(r.1) > stars_to_number(acc[j].1) {
            acc.update(j, r)
        } else {
            acc
        },
    }
}

/// Deduplicate left to right, keeping per key the record with the highest
/// normalized star value, at the position where the key first appeared.
pub open spec fn dedupe_recs(s: Seq<(Seq<char>, Seq<char>)>) -> Seq<(Seq<char>, Seq<char>)>
    decreases s.len(),
{
    if s.len() == 0 {
        Seq::empty()
    } else {
        dedupe_step(dedupe_recs(s.drop_last()), s.last())
    }
}

/// Keep the records whose normalized star value is at least `min`.
pub open spec fn filter_min(s: Seq<(Seq<char>, Seq<char>)>, min: int) -> Seq<
    (Seq<char>, Seq<char>),
>
    decreases s.len(),
{
    if s.len() == 0 {
        Seq::empty()
    } else if stars_to_number(s.last().1) >= min {
        filter_min(s.drop_last(), min).push(s.last())
    } else {
        filter_min(s.drop_last(), min)
    }
}

/// Insert `r` into a descending-sorted sequence, after every record whose
/// value is at least its own: a stable descending insertion.
pub open spec fn insert_desc(
    s: Seq<(Seq<char>, Seq<char>)>,
    r: (Seq<char>, Seq<char>),
) -> Seq<(Seq<char>, Seq<char>)>
    decreases s.len(),
{
    if s.len() == 0 {
        seq![r]
    } else if stars_to_number(s.first().1) >= stars_to_number(r.1) {
        seq![s.first()] + insert_desc(s.drop_first(), r)
    } else {
        seq![r] + s
    }
}

/// Stable insertion sort, descending by normalized star value.
pub open spec fn sort_desc(s: Seq<(Seq<char>, Seq<char>)>) -> Seq<(Seq<char>, Seq<char>)>
    decreases s.len(),
{
    if s.len() == 0 {
        Seq::empty()
    } else {
        insert_desc(sort_desc(s.drop_last()), s.last())
    }
}

/// Non-increasing by normalized star value.
pub open spec fn sorted_desc(s: Seq<(Seq<char>, Seq<char>)>) -> bool {
    forall|i: int, j: int|
        0 <= i <= j < s.len() ==> stars_to_number(s[j].1) <= stars_to_number(s[i].1)
}

/// No two records share a key.
pub open spec fn distinct_keys(s: Seq<(Seq<char>, Seq<char>)>) -> bool {
    forall|i: int, j: int| 0 <= i < j < s.len() ==> s[i].0 != s[j].0
}

pub proof fn lemma_dedupe_len(s: Seq<(Seq<char>, Seq<char>)>)
    ensures
        dedupe_recs(s).len() <= s.len(),
    decreases s.len(),
{
    if s.len() > 0 {
        lemma_dedupe_len(s.drop_last());
        let acc = dedupe_recs(s.drop_last());
        let r = s.last();
        lemma_find_key(acc, r.0);
        match find_key(acc, r.0) {
            None => {
                assert(dedupe_step(acc, r).len() == acc.len() + 1);
            },
            Some(j) => {
                assert(dedupe_step(acc, r).len() == acc.len());
            },
        }
    }
}

pub proof fn lemma_filter_min_len(s: Seq<(Seq<char>, Seq<char>)>, min: int)
    ensures
        filter_min(s, min).len() <= s.len(),
    decreases s.len(),
{
    if s.len() > 0 {
        lemma_filter_min_len(s.drop_last(), min);
    }
}

/// Deduplication leaves each key at most once.
pub proof fn lemma_dedupe_distinct(s: Seq<(Seq<char>, Seq<char>)>)
    ensures
        distinct_keys(dedupe_recs(s)),
    decreases s.len(),
{
    if s.len() > 0 {
        lemma_dedupe_distinct(s.drop_last());
        let acc = dedupe_recs(s.drop_last());
        let r = s.last();
        lemma_find_key(acc, r.0);
        match find_key(acc, r.0) {
            None => {
                assert(distinct_keys(acc.push(r)));
            },
            Some(j) => {
                if stars_to_number(r.1) > stars_to_number(acc[j].1) {
                    let upd = acc.update(j, r);
                    assert forall|a: int, b: int| 0 <= a < b < upd.len() implies upd[a].0
                        != upd[b].0 by {
                        assert(upd[a] == if a == j {
                            r
                        } else {
                            acc[a]
                        });
                        assert(upd[b] == if b == j {
                            r
                        } else {
                            acc[b]
                        });
                    }
                }
            },
        }
    }
}

/// On a sequence whose keys are already distinct, deduplication is the
/// identity.
pub proof fn lemma_dedupe_identity(s: Seq<(Seq<char>, Seq<char>)>)
    requires
        distinct_keys(s),
    ensures
        dedupe_recs(s) == s,
    decreases s.len(),
{
    if s.len() > 0 {
        assert(forall|i: int|
            0 <= i < s.len() - 1 ==> s.drop_last()[i] == s[i]);
        lemma_dedupe_identity(s.drop_last());
        lemma_find_key(s.drop_last(), s.last().0);
        match find_key(s.drop_last(), s.last().0) {
            None => {
                assert(s.drop_last().push(s.last()) =~= s);
            },
            Some(j) => {
                assert(s[j].0 == s.last().0);
                assert(false);
            },
        }
    }
}

/// Deduplication is idempotent: deduplicating its own output changes
/// nothing.
pub proof fn lemma_dedupe_idempotent(s: Seq<(Seq<char>, Seq<char>)>)
    ensures
        dedupe_recs(dedupe_recs(s)) == dedupe_recs(s),
{
    lemma_dedupe_distinct(s);
    lemma_dedupe_identity(dedupe_recs(s));
}

/// Inserting at the first position whose value is below the new record's
/// value realizes `insert_desc`.
proof fn lemma_insert_desc_at(
    s: Seq<(Seq<char>, Seq<char>)>,
    r: (Seq<char>, Seq<char>),
    pos: int,
)
    requires
        0 <= pos <= s.len(),
        forall|i: int| 0 <= i < pos ==> stars_to_number(s[i].1) >= stars_to_number(r.1),
        pos < s.len() ==> stars_to_number(s[pos].1) < stars_to_number(r.1),
    ensures
        insert_desc(s, r) == s.take(pos) + seq![r] + s.skip(pos),
    decreases s.len(),
{
    if s.len() == 0 {
        assert(insert_desc(s, r) =~= s.take(pos) + seq![r] + s.skip(pos));
    } else if stars_to_number(s.first().1) >= stars_to_number(r.1) {
        assert(pos > 0);
        assert(forall|i: int|
            0 <= i < s.len() - 1 ==> s.drop_first()[i] == s[i + 1]);
        lemma_insert_desc_at(s.drop_first(), r, pos - 1);
        assert(seq![s.first()] + (s.drop_first().take(pos - 1) + seq![r] + s.drop_first().skip(
            pos - 1,
        )) =~= s.take(pos) + seq![r] + s.skip(pos));
    } else {
        assert(pos == 0) by {
            if pos > 0 {
                assert(stars_to_number(s[0].1) >= stars_to_number(r.1));
            }
        }
        assert(seq![r] + s =~= s.take(0) + seq![r] + s.skip(0));
    }
}

/// First position in `v` whose key equals `k`.
fn find_key_vec(v: &Vec<(String, String)>, k: &String) -> (r: Option<usize>)
    ensures
        ({
            let s = v.deep_view();
            match r {
                None => find_key(s, k@) is None,
                Some(j) => j < v@.len() && find_key(s, k@) == Some(j as int),
            }
        }),
{
    let ghost s = v.deep_view();
    let n = v.len();
    let mut i: usize = 0;
    while i < n
        invariant
            0 <= i <= n,
            n == v@.len(),
            s == v.deep_view(),
            forall|j: int| 0 <= j < i ==> s[j].0 != k@,
        decreases n - i,
    {
        proof {
            assert(s[i as int] == (v@[i as int].0@, v@[i as int].1@));
        }
        if v[i].0 == *k {
            proof {
                lemma_find_key(s, k@);
                assert(s[i as int].0 == k@);
                match find_key(s, k@) {
                    None => {
                        assert(false);
                    },
                    Some(j) => {
                        if j != i as int {
                            assert(s[j].0 == k@);
                        }
                    },
                }
            }
            return Some(i);
        }
        i = i + 1;
    }
    proof {
        lemma_find_key(s, k@);
        match find_key(s, k@) {
            None => {},
            Some(j) => {
                assert(s[j].0 == k@);
            },
        }
    }
    None
}

/// Deduplicate raw records by key, keeping per key the record with the
/// strictly highest normalized star value; the first-seen record wins ties
/// and keeps its position.
pub fn dedupe(records: &Vec<(String, String)>) -> (r: Vec<(String, String)>)
    ensures
        r.deep_view() == dedupe_recs(records.deep_view()),
        r@.len() <= records@.len(),
{
    let ghost rs = records.deep_view();
    let n = records.len();
    let mut out: Vec<(String, String)> = Vec::new();
    proof {
        assert(rs.take(0) =~= Seq::<(Seq<char>, Seq<char>)>::empty());
        lemma_dedupe_len(rs);
    }
    let mut i: usize = 0;
    while i < n
        invariant
            0 <= i <= n,
            n == records@.len(),
            rs == records.deep_view(),
            rs.len() == n,
            out.deep_view() == dedupe_recs(rs.take(i as int)),
            out@.len() <= i,
        decreases n - i,
    {
        proof {
            assert(rs.take(i + 1).drop_last() =~= rs.take(i as int));
            assert(rs.take(i + 1).last() == rs[i as int]);
            assert(rs[i as int] == (records@[i as int].0@, records@[i as int].1@));
        }
        let key = records[i].0.clone();
        let stars = records[i].1.clone();
        match find_key_vec(&out, &key) {
            None => {
                let ghost before = out.deep_view();
                out.push((key, stars));
                proof {
                    assert(out.deep_view() =~= before.push(rs[i as int]));
                }
            },
            Some(j) => {
                let cur = convert_stars_to_number(stars.as_str());
                let held = convert_stars_to_number(out[j].1.as_str());
                proof {
                    assert(out.deep_view()[j as int].1 == out@[j as int].1@);
                }
                if cur > held {
                    let ghost before = out.deep_view();
                    out[j] = (key, stars);
                    proof {
                        assert(out.deep_view() =~= before.update(j as int, rs[i as int]));
                    }
                }
            },
        }
        i = i + 1;
    }
    proof {
        assert(rs.take(n as int) =~= rs);
    }
    out
}

/// Keep the records whose normalized star value is at least
/// `min_stars_milli` thousandths of a star.
pub fn filter_by_stars(records: &Vec<(String, String)>, min_stars_milli: i64) -> (r: Vec<
    (String, String),
>)
    ensures
        r.deep_view() == filter_min(records.deep_view(), min_stars_milli as int),
        r@.len() <= records@.len(),
{
    let ghost rs = records.deep_view();
    let n = records.len();
    let mut out: Vec<(String, String)> = Vec::new();
    proof {
        assert(rs.take(0) =~= Seq::<(Seq<char>, Seq<char>)>::empty());
    }
    let mut i: usize = 0;
    while i < n
        invariant
            0 <= i <= n,
            n == records@.len(),
            rs == records.deep_view(),
            rs.len() == n,
            out.deep_view() == filter_min(rs.take(i as int), min_stars_milli as int),
            out@.len() <= i,
        decreases n - i,
    {
        proof {
            assert(rs.take(i + 1).drop_last() =~= rs.take(i as int));
            assert(rs.take(i + 1).last() == rs[i as int]);
            assert(rs[i as int].1 == records@[i as int].1@);
        }
        let value = convert_stars_to_number(records[i].1.as_str());
        if value >= min_stars_milli {
            let ghost before = out.deep_view();
            out.push((records[i].0.clone(), records[i].1.clone()));
            proof {
                assert(out.deep_view() =~= before.push(rs[i as int]));
            }
        }
        i = i + 1;
    }
    proof {
        assert(rs.take(n as int) =~= rs);
    }
    out
}

/// Sort records descending by normalized star value with a stable insertion
/// sort.
pub fn sort_by_stars(records: &Vec<(String, String)>) -> (r: Vec<(String, String)>)
    ensures
        r.deep_view() == sort_desc(records.deep_view()),
        sorted_desc(r.deep_view()),
        r@.len() == records@.len(),
{
    let ghost rs = records.deep_view();
    let n = records.len();
    let mut out: Vec<(String, String)> = Vec::new();
    proof {
        assert(rs.take(0) =~= Seq::<(Seq<char>, Seq<char>)>::empty());
    }
    let mut i: usize = 0;
    while i < n
        invariant
            0 <= i <= n,
            n == records@.len(),
            rs == records.deep_view(),
            rs.len() == n,
            out.deep_view() == sort_desc(rs.take(i as int)),
            sorted_desc(out.deep_view()),
            out@.len() == i,
        decreases n - i,
    {
        proof {
            assert(rs.take(i + 1).drop_last() =~= rs.take(i as int));
            assert(rs.take(i + 1).last() == rs[i as int]);
            assert(rs[i as int] == (records@[i as int].0@, records@[i as int].1@));
        }
        let value = convert_stars_to_number(records[i].1.as_str());
        let ghost sdv = out.deep_view();
        // find the first position whose value is below the new record's
        let m = out.len();
        let mut pos: usize = 0;
        while pos < m
            invariant
                0 <= pos <= m,
                m == out@.len(),
                sdv == out.deep_view(),
                rs == records.deep_view(),
                rs.len() == n,
                i < n,
                value as int == stars_to_number(rs[i as int].1),
                forall|q: int|
                    0 <= q < pos ==> stars_to_number(sdv[q].1) >= stars_to_number(
                        rs[i as int].1,
                    ),
            ensures
                0 <= pos <= m,
                forall|q: int|
                    0 <= q < pos ==> stars_to_number(sdv[q].1) >= stars_to_number(
                        rs[i as int].1,
                    ),
                pos < m ==> stars_to_number(sdv[pos as int].1) < stars_to_number(
                    rs[i as int].1,
                ),
            decreases m - pos,
        {
            let held = convert_stars_to_number(out[pos].1.as_str());
            proof {
                assert(sdv[pos as int].1 == out@[pos as int].1@);
            }
            if held < value {
                break ;
            }
            pos = pos + 1;
        }
        proof {
            lemma_insert_desc_at(sdv, rs[i as int], pos as int);
        }
        let ghost before = out.deep_view();
        out.insert(pos, (records[i].0.clone(), records[i].1.clone()));
        proof {
            assert(out.deep_view() =~= before.take(pos as int) + seq![rs[i as int]]
                + before.skip(pos as int));
            let now = out.deep_view();
            assert forall|a: int, b: int| 0 <= a <= b < now.len() implies stars_to_number(
                now[b].1,
            ) <= stars_to_number(now[a].1) by {
                if a < pos {
                    assert(now[a] == before[a]);
                }
                if b < pos {
                    assert(now[b] == before[b]);
                }
                if a > pos {
                    assert(now[a] == before[a - 1]);
                }
                if b > pos {
                    assert(now[b] == before[b - 1]);
                    if b - 1 >= pos {
                        assert(stars_to_number(before[b - 1].1) <= stars_to_number(
                            before[pos as int].1,
                        ));
                    }
                }
            }
        }
        i = i + 1;
    }
    proof {
        assert(rs.take(n as int) =~= rs);
    }
    out
}

/// The model of the whole reduction: dedupe, filter, sort, truncate.
pub open spec fn rank_selected(
    records: Seq<(Seq<char>, Seq<char>)>,
    min: int,
    top_n: int,
) -> Seq<(Seq<char>, Seq<char>)> {
    let sorted = sort_desc(filter_min(dedupe_recs(records), min));
    if sorted.len() <= top_n {
        sorted
    } else {
        sorted.take(top_n)
    }
}

/// Reduce raw records to the ranked selection.
///
/// Returns the selected dependents (no descriptions yet), the number of
/// distinct keys seen, and the number of distinct keys above the threshold.
/// The selection holds at most `top_n` entries, in non-increasing order of
/// normalized star value.
pub fn rank(records: &Vec<(String, String)>, min_stars_milli: i64, top_n: usize) -> (r: (
    Vec<Dependent>,
    usize,
    usize,
))
    ensures
        ({
            let sel = rank_selected(records.deep_view(), min_stars_milli as int, top_n as int);
            &&& r.0@.len() == sel.len()
            &&& r.0@.len() <= top_n
            &&& forall|i: int|
                0 <= i < sel.len() ==> r.0@[i].repo@ == sel[i].0 && r.0@[i].stars@ == sel[i].1
                    && r.0@[i].description is None
            &&& forall|i: int, j: int|
                0 <= i <= j < r.0@.len() ==> stars_to_number(r.0@[j].stars@) <= stars_to_number(
                    r.0@[i].stars@,
                )
            &&& r.1 == dedupe_recs(records.deep_view()).len()
            &&& r.2 == filter_min(dedupe_recs(records.deep_view()), min_stars_milli as int).len()
        }),
{
    let ghost rs = records.deep_view();
    let deduped = dedupe(records);
    let distinct_count = deduped.len();
    let kept = filter_by_stars(&deduped, min_stars_milli);
    proof {
        lemma_filter_min_len(deduped.deep_view(), min_stars_milli as int);
    }
    let above_count = kept.len();
    let sorted = sort_by_stars(&kept);
    let ghost sel = rank_selected(rs, min_stars_milli as int, top_n as int);
    let take_n = if sorted.len() <= top_n {
        sorted.len()
    } else {
        top_n
    };
    proof {
        if sorted.deep_view().len() <= top_n as int {
            assert(sel =~= sorted.deep_view());
        } else {
            assert(sel =~= sorted.deep_view().take(top_n as int));
        }
    }
    let mut out: Vec<Dependent> = Vec::new();
    let mut i: usize = 0;
    while i < take_n
        invariant
            0 <= i <= take_n,
            take_n <= sorted@.len(),
            take_n as int == sel.len(),
            forall|q: int| 0 <= q < sel.len() ==> sel[q] == sorted.deep_view()[q],
            out@.len() == i,
            forall|q: int|
                0 <= q < i ==> out@[q].repo@ == sel[q].0 && out@[q].stars@ == sel[q].1
                    && out@[q].description is None,
        decreases take_n - i,
    {
        proof {
            assert(sorted.deep_view()[i as int] == (sorted@[i as int].0@, sorted@[i as int].1@));
        }
        out.push(
            Dependent {
                repo: sorted[i].0.clone(),
                stars: sorted[i].1.clone(),
                description: None,
            },
        );
        i = i + 1;
    }
    proof {
        let sodv = sorted.deep_view();
        assert forall|a: int, b: int| 0 <= a <= b < out@.len() implies stars_to_number(
            out@[b].stars@,
        ) <= stars_to_number(out@[a].stars@) by {
            assert(out@[a].stars@ == sel[a].1 && out@[b].stars@ == sel[b].1);
            assert(sel[a] == sodv[a] && sel[b] == sodv[b]);
        }
    }
    (out, distinct_count, above_count)
}

} // verus!
