//! The ring of retained pages: contiguous sequence numbers, oldest first,
//! with the choice of which page serves a request and which pages a new
//! one pushes out.
use std::collections::VecDeque;

use vstd::prelude::*;

verus! {

/// The window of retained sequence numbers after installing the page that
/// follows window `w`, with at most `max_pages` pages kept (never fewer
/// than one: the new page stays).
pub open spec fn next_window(w: (int, int), max_pages: int) -> (int, int) {
    let last = w.1 + 1;
    let keep = if max_pages < 1 {
        1
    } else {
        max_pages
    };
    (if w.0 > last - keep + 1 {
        w.0
    } else {
        last - keep + 1
    }, last)
}

/// The window after `k` installs on a store that began with page `0` alone.
pub open spec fn window_after(k: nat, max_pages: int) -> (int, int)
    decreases k,
{
    if k == 0 {
        (0, 0)
    } else {
        next_window(window_after((k - 1) as nat, max_pages), max_pages)
    }
}

/// After any number of rotations of a store that began empty, the retained
/// pages are exactly those numbered from `max(0, last - max_pages + 1)` to
/// the last page created.
pub proof fn lemma_retention(k: nat, max_pages: int)
    requires
        max_pages >= 1,
    ensures
        window_after(k, max_pages) == (
            if k - max_pages + 1 > 0 {
                k - max_pages + 1
            } else {
                0
            },
            k as int,
        ),
    decreases k,
{
    if k > 0 {
        lemma_retention((k - 1) as nat, max_pages);
    }
}

/// The pages of a store, numbered contiguously from the oldest one kept.
pub struct PageRing<P> {
    oldest: usize,
    pages: VecDeque<P>,
}

impl<P> PageRing<P> {
    /// Sequence number of the oldest page kept.
    pub closed spec fn first(&self) -> int {
        self.oldest as int
    }

    /// The pages kept, oldest first.
    pub closed spec fn pages(&self) -> Seq<P> {
        self.pages@
    }

    /// Sequence number of the newest page.
    pub open spec fn last(&self) -> int {
        self.first() + self.pages().len() - 1
    }

    /// The retained window `(first, last)`.
    pub open spec fn window(&self) -> (int, int) {
        (self.first(), self.last())
    }

    /// The ring holds at least one page and its numbers fit a `usize`.
    pub open spec fn wf(&self) -> bool {
        &&& self.pages().len() >= 1
        &&& 0 <= self.first()
        &&& self.last() <= usize::MAX
    }

    /// A ring holding `page` alone, numbered `seq`.
    pub fn new(seq: usize, page: P) -> (r: PageRing<P>)
        ensures
            r.wf(),
            r.first() == seq,
            r.pages() == seq![page],
    {
        let mut pages = VecDeque::new();
        pages.push_back(page);
        PageRing { oldest: seq, pages }
    }

    /// Sequence number of the oldest page kept.
    pub fn first_seq(&self) -> (r: usize)
        requires
            self.wf(),
        ensures
            r == self.first(),
    {
        self.oldest
    }

    /// Sequence number of the newest page.
    pub fn last_seq(&self) -> (r: usize)
        requires
            self.wf(),
        ensures
            r == self.last(),
    {
        self.oldest + (self.pages.len() - 1)
    }

    /// The newest page and its sequence number.
    pub fn last_page(&self) -> (r: (usize, &P))
        requires
            self.wf(),
        ensures
            r.0 == self.last(),
            *r.1 == self.pages()[self.pages().len() - 1],
    {
        let n = self.pages.len() - 1;
        (self.oldest + n, &self.pages[n])
    }

    /// The page that serves a caller chasing sequence `n`: `None` when `n` is
    /// past the newest page, so that a new one must be made; otherwise page
    /// `n`, or the oldest page kept when `n` has already been dropped.
    pub fn lookup(&self, n: usize) -> (r: Option<(usize, &P)>)
        requires
            self.wf(),
        ensures
            n > self.last() <==> r is None,
            r matches Some((seq, page)) ==> {
                &&& seq == if n < self.first() {
                    self.first()
                } else {
                    n as int
                }
                &&& *page == self.pages()[seq - self.first()]
            },
    {
        let last = self.oldest + (self.pages.len() - 1);
        if n > last {
            return None;
        }
        let seq = if n < self.oldest {
            self.oldest
        } else {
            n
        };
        Some((seq, &self.pages[seq - self.oldest]))
    }

    /// Sequence number that the next page will get, if it fits a `usize`.
    pub fn next_seq(&self) -> (r: Option<usize>)
        requires
            self.wf(),
        ensures
            self.last() < usize::MAX <==> r is Some,
            r matches Some(s) ==> s == self.last() + 1,
    {
        let last = self.oldest + (self.pages.len() - 1);
        if last == usize::MAX {
            None
        } else {
            Some(last + 1)
        }
    }

    /// Installs `page` as the newest one and drops the oldest pages until at
    /// most `max_pages` are kept (the new page always stays). Returns the
    /// sequence numbers dropped, oldest first.
    pub fn install(&mut self, page: P, max_pages: usize) -> (evicted: Vec<usize>)
        requires
            old(self).wf(),
            old(self).last() < usize::MAX,
        ensures
            final(self).wf(),
            final(self).window() == next_window(old(self).window(), max_pages as int),
            final(self).pages() == old(self).pages().push(page).subrange(
                final(self).first() - old(self).first(),
                old(self).pages().len() + 1int,
            ),
            evicted@ == Seq::new(
                (final(self).first() - old(self).first()) as nat,
                |i: int| (old(self).first() + i) as usize,
            ),
    {
        let keep: usize = if max_pages < 1 {
            1
        } else {
            max_pages
        };
        self.pages.push_back(page);
        let ghost start = self.pages@;
        let ghost first0 = self.oldest as int;
        let mut evicted: Vec<usize> = Vec::new();
        while self.pages.len() > keep
            invariant
                self.pages@.len() >= 1,
                self.oldest as int - first0 >= 0,
                self.oldest as int + self.pages@.len() == first0 + start.len(),
                first0 + start.len() - 1 <= usize::MAX,
                self.pages@ == start.subrange(self.oldest - first0, start.len() as int),
                evicted@ == Seq::new(
                    (self.oldest - first0) as nat,
                    |i: int| (first0 + i) as usize,
                ),
                keep >= 1,
                self.oldest > first0 ==> self.pages@.len() >= keep,
            decreases self.pages@.len(),
        {
            let _ = self.pages.pop_front();
            evicted.push(self.oldest);
            self.oldest = self.oldest + 1;
            assert(evicted@ =~= Seq::new(
                (self.oldest - first0) as nat,
                |i: int| (first0 + i) as usize,
            ));
        }
        evicted
    }
}

} // verus!
