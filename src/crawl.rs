//! The closure driver: level 0 is the bookmark set; each later level holds
//! the references of the previous level that were never fetched before, up
//! to the configured depth. It decides; the caller fetches and writes.
use crate::error::{ArchiveError, ErrorView};
use crate::json::{text_member, Json};
use crate::response::{
    api_failure, detail_status, detail_status_spec, envelope_code, record_links, record_links_spec,
    strings_view, DetailStatus, SKIP_CODE,
};
use std::collections::HashSet;
use vstd::prelude::*;

verus! {

broadcast use vstd::std_specs::hash::group_hash_axioms;

/// One item of the archive's output stream.
pub enum Entry {
    /// The record of post `pid`, fetched at level `level`.
    Record { level: nat, pid: u64 },
    /// The marker between the bookmarked posts and those reached by reference.
    Delimiter,
    /// The end of the archive.
    Close,
}

/// The mathematical state of a [`Crawl`].
pub struct CrawlView {
    pub depth: nat,
    pub level: nat,
    /// The identifiers of the current level, to be fetched.
    pub queue: Seq<u64>,
    /// Every identifier handed out for fetching so far.
    pub fetched: Set<u64>,
    /// The references found in the current level's records, in order.
    pub candidates: Seq<u64>,
    pub delimited: bool,
    pub done: bool,
    /// The identifiers handed out for fetching, in order.
    pub issued: Seq<u64>,
    /// The output stream written so far.
    pub out: Seq<Entry>,
    /// The position of the delimiter, once written.
    pub mark: nat,
}

/// The identifiers of `cands` that are not in `seen`, first occurrences only,
/// in order.
pub open spec fn fresh(cands: Seq<u64>, seen: Set<u64>) -> Seq<u64>
    decreases cands.len(),
{
    if cands.len() == 0 {
        Seq::empty()
    } else {
        let p = fresh(cands.drop_last(), seen);
        let x = cands.last();
        if seen.contains(x) || p.contains(x) {
            p
        } else {
            p.push(x)
        }
    }
}

/// Whether `e` is the record of a level-0 post.
pub open spec fn is_level_zero(e: Entry) -> bool {
    e matches Entry::Record { level, .. } && level == 0
}

/// `out` holds one delimiter, at `m`: level-0 records before it, records of
/// later levels after it, and at most a closing entry at its very end.
pub open spec fn delimited_at(out: Seq<Entry>, m: nat) -> bool {
    &&& m < out.len()
    &&& out[m as int] == Entry::Delimiter
    &&& forall|i: int| 0 <= i < m ==> is_level_zero(#[trigger] out[i])
    &&& forall|i: int|
        m < i < out.len() ==> match #[trigger] out[i] {
            Entry::Record { level, .. } => level >= 1,
            Entry::Delimiter => false,
            Entry::Close => i == out.len() - 1,
        }
}

pub open spec fn crawl_wf(v: CrawlView) -> bool {
    &&& v.level <= v.depth
    &&& v.issued.no_duplicates()
    &&& forall|x: u64| v.fetched.contains(x) <==> v.issued.contains(x)
    &&& v.queue.len() <= v.issued.len()
    &&& v.queue == v.issued.subrange(v.issued.len() - v.queue.len(), v.issued.len() as int)
    &&& !v.delimited ==> v.level == 0 && !v.done && forall|i: int|
        0 <= i < v.out.len() ==> is_level_zero(#[trigger] v.out[i])
    &&& v.delimited ==> delimited_at(v.out, v.mark)
    &&& v.delimited && !v.done ==> v.level >= 1
    &&& v.done ==> v.delimited
    &&& v.done <==> (v.out.len() > 0 && v.out.last() == Entry::Close)
}

/// The state after the current level is complete: the delimiter follows
/// level 0; then the crawl ends at the configured depth or when no fresh
/// reference is left, or moves to the next level.
pub open spec fn finish_spec(v: CrawlView) -> CrawlView {
    let out1 = if v.delimited { v.out } else { v.out.push(Entry::Delimiter) };
    let mark1 = if v.delimited { v.mark } else { v.out.len() };
    let next = fresh(v.candidates, v.fetched);
    if v.level == v.depth || next.len() == 0 {
        CrawlView {
            candidates: Seq::empty(),
            delimited: true,
            done: true,
            out: out1.push(Entry::Close),
            mark: mark1,
            ..v
        }
    } else {
        CrawlView {
            level: v.level + 1,
            queue: next,
            fetched: Set::new(|x: u64| v.fetched.contains(x) || next.contains(x)),
            candidates: Seq::empty(),
            delimited: true,
            done: false,
            issued: v.issued + next,
            out: out1,
            mark: mark1,
            ..v
        }
    }
}

/// What the caller does at the end of a level.
#[derive(Debug, Clone, Copy, PartialEq, Eq, Structural)]
pub struct LevelEnd {
    /// Write the delimiter now.
    pub delimiter: bool,
    /// Fetch another level; otherwise close the archive.
    pub next_level: bool,
}

/// Bounded breadth-first closure over cross-references.
pub struct Crawl {
    depth: u32,
    level: u32,
    queue: Vec<u64>,
    fetched: HashSet<u64>,
    candidates: Vec<u64>,
    delimited: bool,
    done: bool,
    issued: Ghost<Seq<u64>>,
    out: Ghost<Seq<Entry>>,
    mark: Ghost<nat>,
}

impl View for Crawl {
    type V = CrawlView;

    closed spec fn view(&self) -> CrawlView {
        CrawlView {
            depth: self.depth as nat,
            level: self.level as nat,
            queue: self.queue@,
            fetched: self.fetched@,
            candidates: self.candidates@,
            delimited: self.delimited,
            done: self.done,
            issued: self.issued@,
            out: self.out@,
            mark: self.mark@,
        }
    }
}

proof fn lemma_fresh(cands: Seq<u64>, seen: Set<u64>)
    ensures
        fresh(cands, seen).no_duplicates(),
        forall|i: int|
            0 <= i < fresh(cands, seen).len() ==> !seen.contains(#[trigger] fresh(cands, seen)[i]),
    decreases cands.len(),
{
    if cands.len() > 0 {
        lemma_fresh(cands.drop_last(), seen);
    }
}

proof fn lemma_append_no_duplicates(a: Seq<u64>, b: Seq<u64>)
    requires
        a.no_duplicates(),
        b.no_duplicates(),
        forall|i: int| 0 <= i < b.len() ==> !a.contains(#[trigger] b[i]),
    ensures
        (a + b).no_duplicates(),
{
    let c = a + b;
    assert forall|i: int, j: int| 0 <= i < c.len() && 0 <= j < c.len() && i != j implies c[i] != c[j] by {
        if i < a.len() && j >= a.len() {
            assert(!a.contains(b[j - a.len()]));
        } else if j < a.len() && i >= a.len() {
            assert(!a.contains(b[i - a.len()]));
        }
    }
}

/// Keeps, in order, each identifier of `cands` not yet in `seen`, and adds
/// it to `seen`.
fn take_fresh(cands: &Vec<u64>, seen: &mut HashSet<u64>) -> (r: Vec<u64>)
    ensures
        r@ == fresh(cands@, old(seen)@),
        forall|y: u64| #[trigger] final(seen)@.contains(y) <==> (old(seen)@.contains(y) || r@.contains(y)),
{
    let ghost s0 = seen@;
    let mut out: Vec<u64> = Vec::new();
    let mut i: usize = 0;
    assert(cands@.take(0) =~= Seq::<u64>::empty());
    while i < cands.len()
        invariant
            i <= cands@.len(),
            s0 == old(seen)@,
            out@ == fresh(cands@.take(i as int), s0),
            forall|y: u64| #[trigger] seen@.contains(y) <==> (s0.contains(y) || out@.contains(y)),
        decreases cands@.len() - i,
    {
        let x = cands[i];
        assert(cands@.take(i + 1).drop_last() =~= cands@.take(i as int));
        assert(cands@.take(i + 1).last() == x);
        let ghost p = out@;
        if !seen.contains(&x) {
            seen.insert(x);
            out.push(x);
            assert forall|y: u64| #[trigger] seen@.contains(y) <==> (s0.contains(y) || out@.contains(y)) by {
                if p.contains(y) {
                    let k = choose|k: int| 0 <= k < p.len() && p[k] == y;
                    assert(out@[k] == y);
                }
                if y == x {
                    assert(out@[p.len() as int] == y);
                }
                if out@.contains(y) && y != x {
                    let k = choose|k: int| 0 <= k < out@.len() && out@[k] == y;
                    assert(p[k] == y);
                }
            }
        }
        i = i + 1;
    }
    assert(cands@.take(cands@.len() as int) =~= cands@);
    out
}

proof fn lemma_delimit(out: Seq<Entry>)
    requires
        forall|i: int| 0 <= i < out.len() ==> is_level_zero(#[trigger] out[i]),
    ensures
        delimited_at(out.push(Entry::Delimiter), out.len()),
{
    let o = out.push(Entry::Delimiter);
    assert forall|i: int| 0 <= i < out.len() implies is_level_zero(#[trigger] o[i]) by {
        assert(o[i] == out[i]);
    }
}

proof fn lemma_close(out: Seq<Entry>, m: nat)
    requires
        delimited_at(out, m),
        out.last() != Entry::Close,
    ensures
        delimited_at(out.push(Entry::Close), m),
{
    let o = out.push(Entry::Close);
    assert forall|i: int| 0 <= i < m implies is_level_zero(#[trigger] o[i]) by {
        assert(o[i] == out[i]);
    }
    assert forall|i: int| m < i < o.len() implies match #[trigger] o[i] {
        Entry::Record { level, .. } => level >= 1,
        Entry::Delimiter => false,
        Entry::Close => i == o.len() - 1,
    } by {
        if i < out.len() {
            assert(o[i] == out[i]);
            if i == out.len() - 1 {
                assert(out[i] == out.last());
            }
        }
    }
}

impl Crawl {
    /// Starts a crawl of `depth` reference levels from the bookmarked posts:
    /// level 0 holds each of them once, in order of first appearance.
    pub fn new(depth: u32, bookmarks: &Vec<u64>) -> (r: Crawl)
        ensures
            crawl_wf(r@),
            r@.depth == depth,
            r@.level == 0,
            r@.queue == fresh(bookmarks@, Set::empty()),
            r@.issued == r@.queue,
            r@.candidates.len() == 0,
            r@.out.len() == 0,
            !r@.delimited,
            !r@.done,
    {
        let mut fetched: HashSet<u64> = HashSet::new();
        let queue = take_fresh(bookmarks, &mut fetched);
        proof {
            lemma_fresh(bookmarks@, Set::empty());
        }
        let r = Crawl {
            depth,
            level: 0,
            queue,
            fetched,
            candidates: Vec::new(),
            delimited: false,
            done: false,
            issued: Ghost(queue@),
            out: Ghost(Seq::empty()),
            mark: Ghost(0),
        };
        assert(r@.queue =~= r@.issued.subrange(0, r@.issued.len() as int));
        r
    }

    /// The identifiers of the current level, to be fetched.
    pub fn level_ids(&self) -> (r: &Vec<u64>)
        ensures
            r@ == self@.queue,
    {
        &self.queue
    }

    /// The current level: 0 for the bookmarked posts.
    pub fn level(&self) -> (r: u32)
        ensures
            r == self@.level,
    {
        self.level
    }

    /// Whether the crawl has ended.
    pub fn is_done(&self) -> (r: bool)
        ensures
            r == self@.done,
    {
        self.done
    }

    /// Validates the envelope of the fetched detail of post `pid`, one of the
    /// current level. On `Keep` the caller writes the record; on `Skip` it
    /// writes nothing and goes on; an error aborts the run.
    pub fn validate(&mut self, pid: u64, detail: &Json) -> (r: Result<DetailStatus, ArchiveError>)
        requires
            crawl_wf(old(self)@),
            !old(self)@.done,
            old(self)@.queue.contains(pid),
        ensures
            crawl_wf(final(self)@),
            match detail_status_spec(*detail) {
                Ok(DetailStatus::Keep) => r == Ok::<DetailStatus, ArchiveError>(DetailStatus::Keep)
                    && final(self)@ == (CrawlView {
                        out: old(self)@.out.push(Entry::Record { level: old(self)@.level, pid }),
                        ..old(self)@
                    }),
                Ok(DetailStatus::Skip) => r == Ok::<DetailStatus, ArchiveError>(DetailStatus::Skip)
                    && final(self)@ == old(self)@,
                Err(e) => (r matches Err(x) && x@ == e) && final(self)@ == old(self)@,
            },
            envelope_code(*detail) == Ok::<i64, ErrorView>(SKIP_CODE) ==> r == Ok::<DetailStatus, ArchiveError>(DetailStatus::Skip)
                && final(self)@ == old(self)@,
            forall|c: i64, m: Seq<char>|
                envelope_code(*detail) == Ok::<i64, ErrorView>(c) && c != 0 && c != SKIP_CODE
                    && text_member(*detail, "msg"@) == Ok::<Seq<char>, ErrorView>(m)
                    ==> (r matches Err(x) && x@ == ErrorView::Api(c, m)) && final(self)@ == old(self)@,
    {
        let s = detail_status(detail)?;
        match s {
            DetailStatus::Keep => {
                let ghost lv = self.level as nat;
                let ghost old_out = self.out@;
                self.out = Ghost(self.out@.push(Entry::Record { level: lv, pid }));
                proof {
                    let v = self@;
                    if v.delimited {
                        assert forall|i: int| v.mark < i < v.out.len() implies match #[trigger] v.out[i] {
                            Entry::Record { level, .. } => level >= 1,
                            Entry::Delimiter => false,
                            Entry::Close => i == v.out.len() - 1,
                        } by {
                            if i < old_out.len() {
                                assert(v.out[i] == old_out[i]);
                            }
                        }
                        assert forall|i: int| 0 <= i < v.mark implies is_level_zero(#[trigger] v.out[i]) by {
                            assert(v.out[i] == old_out[i]);
                        }
                    } else {
                        assert forall|i: int| 0 <= i < v.out.len() implies is_level_zero(#[trigger] v.out[i]) by {
                            if i < old_out.len() {
                                assert(v.out[i] == old_out[i]);
                            }
                        }
                    }
                    if old_out.len() > 0 {
                        assert(old_out.last() != Entry::Close);
                    }
                }
                Ok(DetailStatus::Keep)
            },
            DetailStatus::Skip => Ok(DetailStatus::Skip),
        }
    }

    /// Scans a written record: returns its images and keeps its references
    /// as candidates for the next level. Only a detail that validation kept
    /// is scanned, so a skipped post contributes no reference.
    pub fn scan(&mut self, detail: &Json) -> (r: Result<Vec<String>, ArchiveError>)
        requires
            crawl_wf(old(self)@),
            !old(self)@.done,
            detail_status_spec(*detail) == Ok::<DetailStatus, ErrorView>(DetailStatus::Keep),
        ensures
            crawl_wf(final(self)@),
            match record_links_spec(*detail) {
                Ok(p) => (r matches Ok(images) && strings_view(images@) == p.0)
                    && final(self)@ == (CrawlView {
                        candidates: old(self)@.candidates + p.1,
                        ..old(self)@
                    }),
                Err(e) => (r matches Err(x) && x@ == e) && final(self)@ == old(self)@,
            },
    {
        let links = record_links(detail)?;
        let mut i: usize = 0;
        let ghost start = self.candidates@;
        while i < links.refs.len()
            invariant
                i <= links.refs@.len(),
                self.candidates@ == start + links.refs@.subrange(0, i as int),
                self@ == (CrawlView { candidates: self.candidates@, ..old(self)@ }),
            decreases links.refs@.len() - i,
        {
            self.candidates.push(links.refs[i]);
            assert(self.candidates@ =~= start + links.refs@.subrange(0, i + 1));
            i = i + 1;
        }
        assert(links.refs@.subrange(0, links.refs@.len() as int) =~= links.refs@);
        Ok(links.images)
    }

    /// Ends the current level.
    pub fn finish_level(&mut self) -> (r: LevelEnd)
        requires
            crawl_wf(old(self)@),
            !old(self)@.done,
        ensures
            crawl_wf(final(self)@),
            final(self)@ == finish_spec(old(self)@),
            r.delimiter == !old(self)@.delimited,
            r.next_level == !final(self)@.done,
            old(self)@.fetched.subset_of(final(self)@.fetched),
    {
        let ghost v = self@;
        let delimiter = !self.delimited;
        if delimiter {
            proof { lemma_delimit(self.out@); }
            self.mark = Ghost(self.out@.len());
            self.out = Ghost(self.out@.push(Entry::Delimiter));
            self.delimited = true;
        }
        assert(delimited_at(self.out@, self.mark@));
        assert(self.out@.last() != Entry::Close);
        if self.level == self.depth {
            self.done = true;
            self.candidates = Vec::new();
            let ghost old_out = self.out@;
            self.out = Ghost(self.out@.push(Entry::Close));
            proof { lemma_close(old_out, self.mark@); }
            return LevelEnd { delimiter, next_level: false };
        }
        let next = take_fresh(&self.candidates, &mut self.fetched);
        proof {
            lemma_fresh(v.candidates, v.fetched);
        }
        if next.len() == 0 {
            assert forall|y: u64| self.fetched@.contains(y) <==> v.fetched.contains(y) by {
                if next@.contains(y) {
                    let k = choose|k: int| 0 <= k < next@.len() && next@[k] == y;
                }
            }
            assert(self.fetched@ =~= v.fetched);
            self.done = true;
            self.candidates = Vec::new();
            let ghost old_out = self.out@;
            self.out = Ghost(self.out@.push(Entry::Close));
            proof { lemma_close(old_out, self.mark@); }
            LevelEnd { delimiter, next_level: false }
        } else {
            self.level = self.level + 1;
            proof {
                assert forall|i: int| 0 <= i < next@.len() implies !v.issued.contains(#[trigger] next@[i]) by {
                    assert(!v.fetched.contains(next@[i]));
                }
                lemma_append_no_duplicates(v.issued, next@);
            }
            self.issued = Ghost(self.issued@ + next@);
            proof {
                let iss = self.issued@;
                assert forall|y: u64| self.fetched@.contains(y) <==> iss.contains(y) by {
                    if v.issued.contains(y) {
                        let k = choose|k: int| 0 <= k < v.issued.len() && v.issued[k] == y;
                        assert(iss[k] == y);
                    }
                    if next@.contains(y) {
                        let k = choose|k: int| 0 <= k < next@.len() && next@[k] == y;
                        assert(iss[v.issued.len() + k] == y);
                    }
                    if iss.contains(y) {
                        let k = choose|k: int| 0 <= k < iss.len() && iss[k] == y;
                        if k < v.issued.len() {
                            assert(v.issued[k] == y);
                        } else {
                            assert(next@[k - v.issued.len()] == y);
                        }
                    }
                }
                let target = Set::new(|x: u64| v.fetched.contains(x) || next@.contains(x));
                assert(self.fetched@ =~= target);
                assert(next@ =~= iss.subrange(iss.len() - next@.len(), iss.len() as int));
            }
            self.queue = next;
            self.candidates = Vec::new();
            LevelEnd { delimiter, next_level: true }
        }
    }
}

/// No identifier is handed out for fetching twice in a run, and each one
/// handed out is in the fetched set.
pub proof fn lemma_no_refetch(v: CrawlView)
    requires
        crawl_wf(v),
    ensures
        v.issued.no_duplicates(),
        forall|i: int| 0 <= i < v.issued.len() ==> v.fetched.contains(#[trigger] v.issued[i]),
{
    assert forall|i: int| 0 <= i < v.issued.len() implies v.fetched.contains(#[trigger] v.issued[i]) by {
        assert(v.issued.contains(v.issued[i]));
    }
}

/// Ending a level never removes an identifier from the fetched set, and
/// the identifiers of the next level were never fetched before.
pub proof fn lemma_next_level_is_fresh(v: CrawlView)
    requires
        crawl_wf(v),
        !v.done,
    ensures
        v.fetched.subset_of(finish_spec(v).fetched),
        !finish_spec(v).done ==> forall|i: int|
            0 <= i < finish_spec(v).queue.len() ==> !v.fetched.contains(#[trigger] finish_spec(v).queue[i]),
{
    lemma_fresh(v.candidates, v.fetched);
}

/// Once a crawl has ended, its output holds exactly one delimiter, whatever
/// the depth: every record before it is of level 0, every record after it
/// of a later level.
pub proof fn lemma_single_delimiter(v: CrawlView)
    requires
        crawl_wf(v),
        v.done,
    ensures
        exists|m: int|
            0 <= m < v.out.len() && v.out[m] == Entry::Delimiter
            && (forall|i: int| 0 <= i < v.out.len() && i != m ==> #[trigger] v.out[i] != Entry::Delimiter)
            && (forall|i: int| 0 <= i < m ==> is_level_zero(#[trigger] v.out[i]))
            && (forall|i: int| m < i < v.out.len() && (#[trigger] v.out[i]) is Record ==> v.out[i]->level >= 1),
{
    let m = v.mark as int;
    assert forall|i: int| 0 <= i < v.out.len() && i != m implies #[trigger] v.out[i] != Entry::Delimiter by {
        if i < m {
            assert(is_level_zero(v.out[i]));
        }
    }
}

/// With depth 0 the end of level 0 writes the delimiter and closes the
/// archive at once: nothing after the level-0 records but those two, and no
/// referenced identifier is handed out.
pub proof fn lemma_depth_zero(v: CrawlView)
    requires
        crawl_wf(v),
        v.depth == 0,
        !v.done,
    ensures
        finish_spec(v).done,
        finish_spec(v).out == v.out + seq![Entry::Delimiter, Entry::Close],
        finish_spec(v).issued == v.issued,
        forall|i: int| 0 <= i < v.out.len() ==> is_level_zero(#[trigger] v.out[i]),
{
    assert(v.out.push(Entry::Delimiter).push(Entry::Close) =~= v.out + seq![Entry::Delimiter, Entry::Close]);
}

} // verus!
