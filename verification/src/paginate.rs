use vstd::prelude::*;
use vstd::string::StrSliceExecFns;
use vstd::string::StringExecFns;

verus! {

// The paginator walks the dependents listing page by page. Fetching is
// outside work, so the walk is a state machine: the caller asks for the next
// page to fetch, performs the fetch and the parse, and hands the outcome
// back. The machine owns the page budget, the accumulated records, and the
// next-page address; it stops on the page cap, on a failed fetch, on a page
// without records, and on a page without a next link — a failed or empty
// page only ends the walk early with the records gathered so far.

/// The origin that relative pagination links are resolved against.
pub open spec fn origin_spec() -> Seq<char> {
    "https://github.com"@
}

/// Whether the link already carries a scheme.
pub open spec fn starts_with_http(s: Seq<char>) -> bool {
    s.len() >= 4 && s[0] == 'h' && s[1] == 't' && s[2] == 't' && s[3] == 'p'
}

/// An absolute link passes through; a root-relative link is joined to the
/// origin; anything else is treated as a path below the origin. Pagination
/// links are served in a mix of these forms.
pub open spec fn resolve_link(link: Seq<char>) -> Seq<char> {
    if starts_with_http(link) {
        link
    } else if link.len() > 0 && link[0] == '/' {
        origin_spec() + link
    } else {
        origin_spec() + "/"@ + link
    }
}

/// Resolve a pagination link against the site origin.
pub fn resolve_next_url(link: &str) -> (r: String)
    ensures
        r@ == resolve_link(link@),
{
    let n = link.unicode_len();
    if n >= 4 && link.get_char(0) == 'h' && link.get_char(1) == 't' && link.get_char(2) == 't'
        && link.get_char(3) == 'p' {
        return link.to_owned();
    }
    let mut r = "https://github.com".to_owned();
    if !(n > 0 && link.get_char(0) == '/') {
        r.append("/");
        r.append(link);
        assert(r@ =~= origin_spec() + "/"@ + link@);
        r
    } else {
        r.append(link);
        r
    }
}

/// The model of the paginator: what its contracts are stated over.
#[verifier::ext_equal]
pub struct PageModel {
    pub max_pages: int,
    pub pages_visited: int,
    pub current_url: Seq<char>,
    pub accumulated: Seq<(Seq<char>, Seq<char>)>,
    pub done: bool,
}

/// One outcome of fetching and parsing the current page.
pub enum PageEvent {
    /// The fetch failed; the walk ends with what was gathered.
    Failed,
    /// The page parsed into records and an optional next-page link.
    Page { records: Seq<(Seq<char>, Seq<char>)>, next: Option<Seq<char>> },
}

/// The paginator's transition function. A finished machine, or one whose
/// page budget is spent, ignores events; otherwise each event costs one page
/// visit.
pub open spec fn page_step(m: PageModel, ev: PageEvent) -> PageModel {
    if m.done || m.pages_visited >= m.max_pages {
        m
    } else {
        match ev {
            PageEvent::Failed => PageModel {
                pages_visited: m.pages_visited + 1,
                done: true,
                ..m
            },
            PageEvent::Page { records, next } => {
                if records.len() == 0 {
                    PageModel { pages_visited: m.pages_visited + 1, done: true, ..m }
                } else {
                    match next {
                        None => PageModel {
                            pages_visited: m.pages_visited + 1,
                            accumulated: m.accumulated + records,
                            done: true,
                            ..m
                        },
                        Some(link) => PageModel {
                            pages_visited: m.pages_visited + 1,
                            accumulated: m.accumulated + records,
                            current_url: resolve_link(link),
                            done: false,
                            ..m
                        },
                    }
                }
            },
        }
    }
}

/// The machine after a whole sequence of page outcomes.
pub open spec fn page_run(m: PageModel, evs: Seq<PageEvent>) -> PageModel
    decreases evs.len(),
{
    if evs.len() == 0 {
        m
    } else {
        page_run(page_step(m, evs.first()), evs.drop_first())
    }
}

/// However many pages report next links, the walk never visits more than
/// `max_pages` pages: each step past the cap changes nothing, so the visit
/// count stays within the cap under every event sequence.
pub proof fn lemma_pagination_bounded(m: PageModel, evs: Seq<PageEvent>)
    requires
        m.pages_visited <= m.max_pages,
    ensures
        page_run(m, evs).pages_visited <= m.max_pages,
        page_run(m, evs).max_pages == m.max_pages,
    decreases evs.len(),
{
    if evs.len() > 0 {
        lemma_pagination_bounded(page_step(m, evs.first()), evs.drop_first());
    }
}

/// A machine whose page budget is spent takes no further step.
pub proof fn lemma_pagination_stops_at_cap(m: PageModel, ev: PageEvent)
    requires
        m.pages_visited >= m.max_pages,
    ensures
        page_step(m, ev) == m,
{
}

/// The pagination walk, driven from outside: ask `next_url`, fetch and parse,
/// report with `record_page` or `record_failure`.
pub struct Paginator {
    pub max_pages: usize,
    pub pages_visited: usize,
    pub current_url: String,
    pub accumulated: Vec<(String, String)>,
    pub done: bool,
}

impl View for Paginator {
    type V = PageModel;

    open spec fn view(&self) -> PageModel {
        PageModel {
            max_pages: self.max_pages as int,
            pages_visited: self.pages_visited as int,
            current_url: self.current_url@,
            accumulated: self.accumulated.deep_view(),
            done: self.done,
        }
    }
}

impl Paginator {
    /// A fresh walk at the first listing page, with a page budget.
    pub fn new(first_url: String, max_pages: usize) -> (p: Paginator)
        ensures
            p@ == (PageModel {
                max_pages: max_pages as int,
                pages_visited: 0,
                current_url: first_url@,
                accumulated: Seq::empty(),
                done: false,
            }),
    {
        let p = Paginator {
            max_pages,
            pages_visited: 0,
            current_url: first_url,
            accumulated: Vec::new(),
            done: false,
        };
        proof {
            assert(p.accumulated.deep_view() =~= Seq::<(Seq<char>, Seq<char>)>::empty());
        }
        p
    }

    /// The page to fetch next, or `None` when the walk is over: finished, or
    /// the page budget is spent.
    pub fn next_url(&self) -> (r: Option<&String>)
        ensures
            r is Some <==> (!self@.done && self@.pages_visited < self@.max_pages),
            r is Some ==> r->0@ == self@.current_url,
    {
        if !self.done && self.pages_visited < self.max_pages {
            Some(&self.current_url)
        } else {
            None
        }
    }

    /// Whether the walk has ended of itself (failure, empty page, or no next
    /// link); the page budget is checked separately by `next_url`.
    pub fn is_done(&self) -> (r: bool)
        ensures
            r == self@.done,
    {
        self.done
    }

    /// How many pages have been visited.
    pub fn pages_visited(&self) -> (r: usize)
        ensures
            r == self@.pages_visited,
    {
        self.pages_visited
    }

    /// How many records have been accumulated so far.
    pub fn records_len(&self) -> (r: usize)
        ensures
            r == self@.accumulated.len(),
    {
        self.accumulated.len()
    }

    /// Report that fetching the current page failed: the walk ends with the
    /// records gathered so far.
    pub fn record_failure(&mut self)
        requires
            !old(self)@.done,
            old(self)@.pages_visited < old(self)@.max_pages,
        ensures
            final(self)@ == page_step(old(self)@, PageEvent::Failed),
    {
        self.pages_visited = self.pages_visited + 1;
        self.done = true;
    }

    /// Report the parse of a fetched page: its records and its next-page
    /// link. An empty page or a missing link ends the walk; otherwise the
    /// next-page link is resolved against the origin and the walk continues
    /// (the caller owes the source a politeness delay before the next fetch).
    pub fn record_page(&mut self, records: Vec<(String, String)>, next_link: Option<String>)
        requires
            !old(self)@.done,
            old(self)@.pages_visited < old(self)@.max_pages,
        ensures
            final(self)@ == page_step(
                old(self)@,
                PageEvent::Page { records: records.deep_view(), next: next_link.deep_view() },
            ),
    {
        self.pages_visited = self.pages_visited + 1;
        if records.is_empty() {
            self.done = true;
            proof {
                assert(records.deep_view().len() == 0);
            }
        } else {
            let ghost before = self.accumulated.deep_view();
            let mut recs = records;
            let ghost added = recs.deep_view();
            self.accumulated.append(&mut recs);
            proof {
                assert(self.accumulated.deep_view() =~= before + added);
            }
            match next_link {
                None => {
                    self.done = true;
                },
                Some(link) => {
                    self.current_url = resolve_next_url(link.as_str());
                },
            }
        }
        proof {
            assert(self@ =~= page_step(
                old(self)@,
                PageEvent::Page { records: records.deep_view(), next: next_link.deep_view() },
            ));
        }
    }

    /// Hand out the accumulated records, consuming the walk.
    pub fn into_records(self) -> (r: Vec<(String, String)>)
        ensures
            r.deep_view() == self@.accumulated,
    {
        self.accumulated
    }
}

} // verus!
