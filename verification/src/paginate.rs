//! Page addresses, and the rule by which a crawl goes from page to page.
//!
//! The crawl itself fetches nothing. Its caller fetches and extracts the
//! page that is due, and hands the records over.

use vstd::prelude::*;
use crate::record::{RecordView, ScrapedData};

verus! {

/// The pause between two pages, in milliseconds.
pub const PAGE_DELAY_MS: u64 = 500;

/// The character for the digit `d`.
pub open spec fn digit_char(d: nat) -> char {
    if d == 0 {
        '0'
    } else if d == 1 {
        '1'
    } else if d == 2 {
        '2'
    } else if d == 3 {
        '3'
    } else if d == 4 {
        '4'
    } else if d == 5 {
        '5'
    } else if d == 6 {
        '6'
    } else if d == 7 {
        '7'
    } else if d == 8 {
        '8'
    } else {
        '9'
    }
}

/// The decimal digits of `n`, without leading zeros.
pub open spec fn decimal(n: nat) -> Seq<char>
    decreases n,
{
    if n < 10 {
        seq![digit_char(n)]
    } else {
        decimal(n / 10).push(digit_char(n % 10))
    }
}

/// The address of page `page` under `base`: `base` itself for page 1, and
/// otherwise `base` with the parameter `page` appended, after `&` where
/// `base` holds a question mark and after `?` where it holds none.
pub open spec fn page_address(base: Seq<char>, page: nat) -> Seq<char> {
    if page == 1 {
        base
    } else if base.contains('?') {
        base + "&page="@ + decimal(page)
    } else {
        base + "?page="@ + decimal(page)
    }
}

/// The digit `d` as a string.
fn digit_str(d: usize) -> (out: &'static str)
    requires
        d < 10,
    ensures
        out@ == seq![digit_char(d as nat)],
{
    proof {
        reveal_strlit("0");
        reveal_strlit("1");
        reveal_strlit("2");
        reveal_strlit("3");
        reveal_strlit("4");
        reveal_strlit("5");
        reveal_strlit("6");
        reveal_strlit("7");
        reveal_strlit("8");
        reveal_strlit("9");
    }
    let out = if d == 0 {
        "0"
    } else if d == 1 {
        "1"
    } else if d == 2 {
        "2"
    } else if d == 3 {
        "3"
    } else if d == 4 {
        "4"
    } else if d == 5 {
        "5"
    } else if d == 6 {
        "6"
    } else if d == 7 {
        "7"
    } else if d == 8 {
        "8"
    } else {
        "9"
    };
    assert(out@ =~= seq![digit_char(d as nat)]);
    out
}

/// `n` in decimal digits.
pub fn decimal_string(n: usize) -> (out: String)
    ensures
        out@ == decimal(n as nat),
    decreases n,
{
    if n < 10 {
        String::from_str(digit_str(n))
    } else {
        let mut out = decimal_string(n / 10);
        out.append(digit_str(n % 10));
        assert(out@ =~= decimal((n / 10) as nat).push(digit_char((n % 10) as nat)));
        out
    }
}

/// Whether `s` holds the character `c`.
pub fn contains_char(s: &str, c: char) -> (out: bool)
    ensures
        out == s@.contains(c),
{
    let n = s.unicode_len();
    let mut i: usize = 0;
    while i < n
        invariant
            i <= n,
            n == s@.len(),
            forall|j: int| 0 <= j < i ==> s@[j] != c,
        decreases n - i,
    {
        if s.get_char(i) == c {
            return true;
        }
        i += 1;
    }
    false
}

/// The address of page `page` under `base`.
pub fn page_url(base: &str, page: usize) -> (out: String)
    ensures
        out@ == page_address(base@, page as nat),
{
    let mut out = String::from_str(base);
    if page != 1 {
        if contains_char(base, '?') {
            out.append("&page=");
        } else {
            out.append("?page=");
        }
        let digits = decimal_string(page);
        out.append(digits.as_str());
    }
    out
}

/// A crawl as far as its stopping rule goes: how many pages were handed
/// over, and whether one of them was without records.
pub struct CrawlModel {
    pub fetched: nat,
    pub ended: bool,
}

/// Whether a page is due in `m`.
pub open spec fn crawl_pending(max_pages: nat, m: CrawlModel) -> bool {
    !m.ended && m.fetched < max_pages
}

/// The crawl `m` after a page with `count` records was handed over.
pub open spec fn crawl_step(m: CrawlModel, count: nat) -> CrawlModel {
    CrawlModel { fetched: m.fetched + 1, ended: count == 0 }
}

/// The crawl over pages that would give `counts[0]`, `counts[1]`, ...
/// records: each is fetched and handed over while a page is due.
pub open spec fn crawl_over(max_pages: nat, counts: Seq<nat>) -> CrawlModel
    decreases counts.len(),
{
    if counts.len() == 0 {
        CrawlModel { fetched: 0, ended: false }
    } else {
        let m = crawl_over(max_pages, counts.drop_last());
        if crawl_pending(max_pages, m) {
            crawl_step(m, counts.last())
        } else {
            m
        }
    }
}

/// A crawl stops exactly at the first page without records, or else at the
/// page limit: it never fetches more pages than the limit, no page before
/// the last one fetched was empty, an empty page is the last one fetched,
/// and with pages and limit left it stops only after an empty page.
pub proof fn lemma_crawl_stops(max_pages: nat, counts: Seq<nat>)
    ensures
        crawl_over(max_pages, counts).fetched <= max_pages,
        crawl_over(max_pages, counts).fetched <= counts.len(),
        crawl_over(max_pages, counts).ended ==> crawl_over(max_pages, counts).fetched >= 1
            && counts[crawl_over(max_pages, counts).fetched - 1] == 0,
        forall|i: int|
            0 <= i < crawl_over(max_pages, counts).fetched && #[trigger] counts[i] == 0 ==> i
                == crawl_over(max_pages, counts).fetched - 1 && crawl_over(
                max_pages,
                counts,
            ).ended,
        crawl_over(max_pages, counts).fetched < counts.len() && crawl_over(
            max_pages,
            counts,
        ).fetched < max_pages ==> crawl_over(max_pages, counts).ended,
    decreases counts.len(),
{
    if counts.len() > 0 {
        let init = counts.drop_last();
        lemma_crawl_stops(max_pages, init);
        let before = crawl_over(max_pages, init);
        let after = crawl_over(max_pages, counts);
        assert forall|i: int| 0 <= i < after.fetched && #[trigger] counts[i] == 0 implies i
            == after.fetched - 1 && after.ended by {
            if i < init.len() {
                assert(init[i] == counts[i]);
            }
        }
        if before.ended {
            assert(init[before.fetched - 1] == counts[before.fetched - 1]);
        }
    }
}

/// What the caller of a crawl does after handing a page over.
#[derive(Debug, PartialEq, Eq, Structural, Clone, Copy)]
pub enum PageStep {
    /// Sleep for this many milliseconds, then fetch the next page.
    Continue(u64),
    /// The page held nothing: the results have ended.
    EndOfResults,
    /// The last page that was asked for has been taken in.
    LimitReached,
}

/// The state of a crawl over the pages 1 to `max_pages`: how many pages
/// were handed over, whether one of them was without records, and the
/// records of the others. No more pages are handed over than the limit.
#[derive(Debug)]
pub struct Pagination {
    max_pages: usize,
    fetched: usize,
    ended: bool,
    records: Vec<ScrapedData>,
}

impl Pagination {
    #[verifier::type_invariant]
    spec fn inv(self) -> bool {
        self.fetched <= self.max_pages
    }

    /// The page limit.
    pub closed spec fn limit(&self) -> nat {
        self.max_pages as nat
    }

    /// The crawl as far as its stopping rule goes.
    pub closed spec fn model(&self) -> CrawlModel {
        CrawlModel { fetched: self.fetched as nat, ended: self.ended }
    }

    /// The records of the pages so far, page after page.
    pub closed spec fn collected(&self) -> Seq<RecordView> {
        self.records.deep_view()
    }

    /// Whether a page is due.
    pub open spec fn pending(&self) -> bool {
        crawl_pending(self.limit(), self.model())
    }

    /// A crawl that has not fetched anything yet.
    pub fn new(max_pages: usize) -> (out: Pagination)
        ensures
            out.limit() == max_pages,
            out.model() == (CrawlModel { fetched: 0, ended: false }),
            out.collected() == Seq::<RecordView>::empty(),
    {
        let out = Pagination { max_pages, fetched: 0, ended: false, records: Vec::new() };
        assert(out.records.deep_view() =~= Seq::<RecordView>::empty());
        out
    }

    /// The page limit.
    pub fn max_pages(&self) -> (out: usize)
        ensures
            out == self.limit(),
    {
        self.max_pages
    }

    /// How many pages were handed over.
    pub fn fetched(&self) -> (out: usize)
        ensures
            out == self.model().fetched,
            out <= self.limit(),
    {
        proof {
            use_type_invariant(self);
        }
        self.fetched
    }

    /// The number of the page to fetch next, if one is due.
    pub fn next_page(&self) -> (out: Option<usize>)
        ensures
            match out {
                Some(page) => self.pending() && page == self.model().fetched + 1,
                None => !self.pending(),
            },
    {
        if !self.ended && self.fetched < self.max_pages {
            Some(self.fetched + 1)
        } else {
            None
        }
    }

    /// Takes in the records of the page that was due.
    ///
    /// A page without records ends the crawl. The records of any other page
    /// go behind those of the pages before it, and the crawl goes on after a
    /// pause while pages are left.
    pub fn absorb(&mut self, page_data: Vec<ScrapedData>) -> (out: PageStep)
        requires
            old(self).pending(),
        ensures
            final(self).limit() == old(self).limit(),
            final(self).model() == crawl_step(old(self).model(), page_data.len() as nat),
            final(self).collected() == old(self).collected() + page_data.deep_view(),
            out == if page_data.len() == 0 {
                PageStep::EndOfResults
            } else if final(self).model().fetched < final(self).limit() {
                PageStep::Continue(PAGE_DELAY_MS)
            } else {
                PageStep::LimitReached
            },
            final(self).pending() <==> out is Continue,
    {
        proof {
            use_type_invariant(&*self);
        }
        let ghost before = self.records.deep_view();
        let ghost added = page_data.deep_view();
        let mut page_data = page_data;
        self.fetched = self.fetched + 1;
        if page_data.len() == 0 {
            self.ended = true;
            assert(self.records.deep_view() =~= before + added);
            PageStep::EndOfResults
        } else {
            let mut records: Vec<ScrapedData> = Vec::new();
            std::mem::swap(&mut records, &mut self.records);
            records.append(&mut page_data);
            std::mem::swap(&mut records, &mut self.records);
            assert(self.records.deep_view() =~= before + added);
            if self.fetched < self.max_pages {
                PageStep::Continue(PAGE_DELAY_MS)
            } else {
                PageStep::LimitReached
            }
        }
    }

    /// The records of all pages taken in.
    pub fn into_records(self) -> (out: Vec<ScrapedData>)
        ensures
            out.deep_view() == self.collected(),
    {
        self.records
    }
}

} // verus!
