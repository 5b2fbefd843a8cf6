//! The pagination engine: repeated bounded fetches against a page-oriented
//! listing endpoint, until the server signals exhaustion with a short page
//! or the caller's overall limit is reached.
use vstd::prelude::*;

verus! {

/// One page to ask for: a row offset and a row cap.
#[derive(Debug)]
pub struct PageRequest {
    pub offset: usize,
    pub limit: usize,
}

/// The smaller of two quantities.
pub open spec fn spec_min(a: int, b: int) -> int {
    if a <= b {
        a
    } else {
        b
    }
}

/// The fetch cursor. Pages are requested from offset 0; each asks for the
/// smaller of the page size and what the overall limit still allows; the
/// offset advances by the returned row count, not the requested size.
pub struct Pager {
    /// Fixed rows-per-page cap; at least one.
    pub page_size: usize,
    /// The caller's overall row cap.
    pub limit: usize,
    /// Rows obtained so far, which is also the next offset.
    pub got: usize,
    /// Whether a termination condition has been observed.
    pub done: bool,
}

impl Pager {
    pub open spec fn wf(&self) -> bool {
        self.page_size >= 1 && self.got <= self.limit
    }

    /// The row cap the next request would carry.
    pub open spec fn ask(&self) -> int {
        spec_min(self.page_size as int, self.limit - self.got)
    }

    pub fn new(limit: usize, page_size: usize) -> (r: Pager)
        requires
            page_size >= 1,
        ensures
            r.wf(),
            r.limit == limit,
            r.page_size == page_size,
            r.got == 0,
            !r.done,
    {
        Pager { page_size, limit, got: 0, done: false }
    }

    /// The next page to request, or nothing once a termination condition
    /// was observed. Requests always start at the row after the last one
    /// obtained.
    pub fn next_request(&self) -> (r: Option<PageRequest>)
        requires
            self.wf(),
        ensures
            match r {
                Some(req) => !self.done && req.offset == self.got && req.limit == self.ask(),
                None => self.done,
            },
    {
        if self.done {
            None
        } else {
            let remaining = self.limit - self.got;
            let ask = if self.page_size <= remaining {
                self.page_size
            } else {
                remaining
            };
            Some(PageRequest { offset: self.got, limit: ask })
        }
    }

    /// Record a returned page: the cursor advances by the returned row
    /// count; a page shorter than asked for, or a reached limit, ends the
    /// run.
    pub fn record_page(&mut self, returned: usize)
        requires
            old(self).wf(),
            !old(self).done,
            returned <= old(self).ask(),
        ensures
            final(self).wf(),
            final(self).page_size == old(self).page_size,
            final(self).limit == old(self).limit,
            final(self).got == old(self).got + returned,
            final(self).done == (returned < old(self).ask() || old(self).got + returned
                >= old(self).limit),
    {
        let remaining = self.limit - self.got;
        let asked = if self.page_size <= remaining {
            self.page_size
        } else {
            remaining
        };
        self.got = self.got + returned;
        if returned < asked || self.got >= self.limit {
            self.done = true;
        }
    }
}

/// Append a page's rows to the accumulated result, preserving order: pages
/// are concatenated in request order, never reordered or deduplicated.
pub fn append_rows<T>(acc: &mut Vec<T>, page: Vec<T>)
    ensures
        final(acc)@ == old(acc)@ + page@,
{
    let mut page = page;
    acc.append(&mut page);
}

} // verus!
