//! The listing paginator: pages 1, 2, 3, ... are requested in order until
//! the first empty page, and their post identifiers are accumulated.
use crate::error::{ArchiveError, ErrorView};
use crate::json::Json;
use crate::response::{listing_page_spec, page_pids};
use vstd::prelude::*;

verus! {

/// The mathematical state of a [`Paginator`].
pub struct PaginatorView {
    /// The next page to request.
    pub page: nat,
    /// The identifiers gathered so far, in order.
    pub pids: Seq<u64>,
    /// Whether an empty page has been seen.
    pub done: bool,
}

/// The state before any page.
pub open spec fn listing_start() -> PaginatorView {
    PaginatorView { page: 1, pids: Seq::empty(), done: false }
}

/// The state after a page with identifiers `p`: an empty page ends the
/// listing; a page seen after the end changes nothing.
pub open spec fn listing_step(v: PaginatorView, p: Seq<u64>) -> PaginatorView {
    if v.done {
        v
    } else if p.len() == 0 {
        PaginatorView { done: true, ..v }
    } else {
        PaginatorView { page: v.page + 1, pids: v.pids + p, done: false }
    }
}

/// The state after the pages `pages`, in order.
pub open spec fn listing_after(pages: Seq<Seq<u64>>) -> PaginatorView
    decreases pages.len(),
{
    if pages.len() == 0 {
        listing_start()
    } else {
        listing_step(listing_after(pages.drop_last()), pages.last())
    }
}

/// The pages' identifiers one after the other.
pub open spec fn concat(pages: Seq<Seq<u64>>) -> Seq<u64>
    decreases pages.len(),
{
    if pages.len() == 0 {
        Seq::empty()
    } else {
        concat(pages.drop_last()) + pages.last()
    }
}

/// The sum of the pages' sizes.
pub open spec fn total_len(pages: Seq<Seq<u64>>) -> nat
    decreases pages.len(),
{
    if pages.len() == 0 {
        0
    } else {
        total_len(pages.drop_last()) + pages.last().len()
    }
}

/// Walks the bookmark listing page by page.
#[derive(Debug)]
pub struct Paginator {
    page: u64,
    pids: Vec<u64>,
    done: bool,
}

impl View for Paginator {
    type V = PaginatorView;

    closed spec fn view(&self) -> PaginatorView {
        PaginatorView { page: self.page as nat, pids: self.pids@, done: self.done }
    }
}

impl Paginator {
    pub fn new() -> (r: Paginator)
        ensures
            r@ == listing_start(),
    {
        Paginator { page: 1, pids: Vec::new(), done: false }
    }

    /// The page to request next, or nothing once the listing has ended.
    pub fn next_page(&self) -> (r: Option<u64>)
        ensures
            self@.done ==> r is None,
            !self@.done ==> r == Some(self@.page as u64),
    {
        if self.done {
            None
        } else {
            Some(self.page)
        }
    }

    /// Takes the next page's response. Returns whether the listing goes on.
    pub fn on_page(&mut self, page: &Json) -> (r: Result<bool, ArchiveError>)
        requires
            !old(self)@.done,
            old(self)@.page < u64::MAX,
        ensures
            match listing_page_spec(*page) {
                Ok(p) => r == Ok::<bool, ArchiveError>(p.len() > 0) && final(self)@ == listing_step(old(self)@, p),
                Err(e) => (r matches Err(x) && x@ == e) && final(self)@ == old(self)@,
            },
    {
        let found = page_pids(page)?;
        if found.len() == 0 {
            self.done = true;
            return Ok(false);
        }
        let mut i: usize = 0;
        let ghost start = self.pids@;
        while i < found.len()
            invariant
                i <= found@.len(),
                self.pids@ == start + found@.subrange(0, i as int),
                start == old(self)@.pids,
                self.page == old(self).page,
                self.page < u64::MAX,
                !self.done,
                listing_page_spec(*page) == Ok::<Seq<u64>, ErrorView>(found@),
                found@.len() > 0,
            decreases found@.len() - i,
        {
            self.pids.push(found[i]);
            assert(self.pids@ =~= start + found@.subrange(0, i + 1));
            i = i + 1;
        }
        assert(found@.subrange(0, found@.len() as int) =~= found@);
        self.page = self.page + 1;
        Ok(true)
    }

    /// The identifiers gathered so far, in order.
    pub fn pids(&self) -> (r: &Vec<u64>)
        ensures
            r@ == self@.pids,
    {
        &self.pids
    }
}

proof fn lemma_concat_len(pages: Seq<Seq<u64>>)
    ensures
        concat(pages).len() == total_len(pages),
    decreases pages.len(),
{
    if pages.len() > 0 {
        lemma_concat_len(pages.drop_last());
    }
}

proof fn lemma_before_first_empty(pages: Seq<Seq<u64>>, j: int)
    requires
        0 <= j <= pages.len(),
        forall|i: int| 0 <= i < j ==> pages[i].len() > 0,
    ensures
        listing_after(pages.take(j)) == (PaginatorView {
            page: (j + 1) as nat,
            pids: concat(pages.take(j)),
            done: false,
        }),
    decreases j,
{
    if j > 0 {
        lemma_before_first_empty(pages, j - 1);
        assert(pages.take(j).drop_last() =~= pages.take(j - 1));
    } else {
        assert(pages.take(0) =~= Seq::<Seq<u64>>::empty());
    }
}

proof fn lemma_after_end(pages: Seq<Seq<u64>>, k: int, m: int)
    requires
        0 <= k < m <= pages.len(),
        listing_after(pages.take(k + 1)).done,
    ensures
        listing_after(pages.take(m)) == listing_after(pages.take(k + 1)),
    decreases m,
{
    if m > k + 1 {
        lemma_after_end(pages, k, m - 1);
        assert(pages.take(m).drop_last() =~= pages.take(m - 1));
    }
}

/// The listing stops exactly at the first empty page `k`: no earlier state
/// has ended, the state after page `k` has ended and later pages change
/// nothing, and the identifiers gathered are those of the pages before `k`
/// in order, as many as the sum of their sizes.
pub proof fn lemma_listing_stops_at_first_empty(pages: Seq<Seq<u64>>, k: int)
    requires
        0 <= k < pages.len(),
        pages[k].len() == 0,
        forall|i: int| 0 <= i < k ==> pages[i].len() > 0,
    ensures
        forall|j: int| 0 <= j <= k ==> !(#[trigger] listing_after(pages.take(j))).done,
        listing_after(pages.take(k + 1)).done,
        listing_after(pages) == listing_after(pages.take(k + 1)),
        listing_after(pages).pids == concat(pages.take(k)),
        listing_after(pages).pids.len() == total_len(pages.take(k)),
        listing_after(pages).page == k + 1,
{
    assert forall|j: int| 0 <= j <= k implies !(#[trigger] listing_after(pages.take(j))).done by {
        lemma_before_first_empty(pages, j);
    }
    lemma_before_first_empty(pages, k);
    assert(pages.take(k + 1).drop_last() =~= pages.take(k));
    assert(pages.take(k + 1).last() == pages[k]);
    if pages.len() > k + 1 {
        lemma_after_end(pages, k, pages.len() as int);
    }
    assert(pages.take(pages.len() as int) =~= pages);
    lemma_concat_len(pages.take(k));
}

} // verus!
