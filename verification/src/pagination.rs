//! Cursor pagination over an ordered collection: pages of up to `limit`
//! items addressed by a "start after" cursor, with a next cursor reported
//! only while more items remain. The same contract is stated twice — once
//! positionally for in-memory collections, once over descending record ids
//! for the message log.
use vstd::prelude::*;

verus! {

/// End of the page starting at `start`: `limit` more items, or the end of
/// the collection, whichever comes first.
pub open spec fn page_end(len: int, start: int, limit: int) -> int {
    if start + limit <= len {
        start + limit
    } else {
        len
    }
}

/// The items of the page starting at `start`.
pub open spec fn spec_page<T>(s: Seq<T>, start: int, limit: int) -> Seq<T> {
    if start >= s.len() {
        Seq::empty()
    } else {
        s.subrange(start, page_end(s.len() as int, start, limit))
    }
}

/// An ordered collection that can be sliced into pages.
pub trait Paginatable<T> {
    spec fn items(&self) -> Seq<T>;

    /// Up to `limit` items starting at position `start`, in collection
    /// order, and the position to resume from — present only when items
    /// remain past this page. An out-of-range start yields an empty page
    /// and no cursor.
    fn get_page(&self, start: usize, limit: usize) -> (r: (&[T], Option<usize>))
        ensures
            r.0@ == spec_page(self.items(), start as int, limit as int),
            ({
                let len = self.items().len() as int;
                if start as int >= len {
                    r.1 is None
                } else if start + limit < len {
                    r.1 == Some((start + limit) as usize)
                } else {
                    r.1 is None
                }
            }),
    ;
}

impl<T> Paginatable<T> for Vec<T> {
    open spec fn items(&self) -> Seq<T> {
        self@
    }

    fn get_page(&self, start: usize, limit: usize) -> (r: (&[T], Option<usize>)) {
        if start >= self.len() {
            let empty = &self.as_slice()[0..0];
            assert(empty@ =~= Seq::<T>::empty());
            return (empty, None);
        }
        let end = if limit > self.len() - start {
            self.len()
        } else {
            start + limit
        };
        let slice = &self.as_slice()[start..end];
        let next = if end < self.len() {
            Some(end)
        } else {
            None
        };
        (slice, next)
    }
}

/// Everything visited by paging from position `start` to the end.
pub open spec fn visited_from<T>(s: Seq<T>, start: int, limit: int) -> Seq<T>
    decreases s.len() - start,
    when 0 <= start && limit > 0
{
    if start >= s.len() {
        Seq::empty()
    } else {
        spec_page(s, start, limit) + visited_from(s, page_end(s.len() as int, start, limit), limit)
    }
}

/// Paging from `start` visits exactly the items from `start` on, in order.
pub proof fn lemma_visited_from<T>(s: Seq<T>, start: int, limit: int)
    requires
        0 <= start <= s.len(),
        limit > 0,
    ensures
        visited_from(s, start, limit) == s.skip(start),
    decreases s.len() - start,
{
    if start >= s.len() {
        assert(s.skip(start) =~= Seq::<T>::empty());
    } else {
        let end = page_end(s.len() as int, start, limit);
        lemma_visited_from(s, end, limit);
        assert(visited_from(s, start, limit) =~= s.skip(start));
    }
}

/// Coverage: paging from the beginning with any positive page size until no
/// cursor remains visits every item of the collection exactly once, in
/// collection order.
pub proof fn lemma_pagination_coverage<T>(s: Seq<T>, limit: int)
    requires
        limit > 0,
    ensures
        visited_from(s, 0, limit) == s,
{
    lemma_visited_from(s, 0, limit);
    assert(s.skip(0) =~= s);
}

} // verus!
