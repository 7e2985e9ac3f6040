//! The guestbook's message log as the handlers see it: an ordered,
//! cursor-readable sequence of records. The store itself is an external
//! collaborator; this module states and verifies the read contract the
//! handlers rely on — newest first, records strictly older than the cursor,
//! at most `limit` of them.
use vstd::prelude::*;
use vstd::seq_lib::group_seq_properties;
use vstd::std_specs::iter::IteratorSpec;

verus! {

/// One guestbook record. The timestamp is milliseconds since the Unix epoch.
pub struct Message {
    pub id: i64,
    pub author: String,
    pub content: String,
    pub timestamp_millis: i64,
}

impl Clone for Message {
    fn clone(&self) -> (r: Self)
        ensures
            r == *self,
    {
        Message {
            id: self.id,
            author: self.author.clone(),
            content: self.content.clone(),
            timestamp_millis: self.timestamp_millis,
        }
    }
}

/// Newest-first order: ids strictly decrease along the log as read.
pub open spec fn sorted_desc(s: Seq<Message>) -> bool {
    forall|i: int, j: int| 0 <= i < j < s.len() ==> (#[trigger] s[i]).id > (#[trigger] s[j]).id
}

/// Passes the records strictly older than `cursor`.
pub open spec fn before_cursor(cursor: i64) -> spec_fn(Message) -> bool {
    |m: Message| m.id < cursor
}

/// The records strictly older than `cursor`, in their original order.
pub open spec fn filter_before(s: Seq<Message>, cursor: i64) -> Seq<Message> {
    s.filter(before_cursor(cursor))
}

/// At most the first `n` elements.
pub open spec fn take_up_to<T>(s: Seq<T>, n: int) -> Seq<T> {
    if n < s.len() {
        s.take(n)
    } else {
        s
    }
}

/// The page a log read returns: an absent cursor starts from the newest
/// record, a present one resumes strictly after (older than) it.
pub open spec fn spec_read_page(s: Seq<Message>, last_id: Option<i64>, limit: int) -> Seq<
    Message,
> {
    let cursor = match last_id {
        Some(c) => c,
        None => i64::MAX,
    };
    take_up_to(filter_before(s, cursor), limit)
}

/// Reads one page of the log, mirroring the store's query: records with
/// `id < cursor`, in log order, at most `limit` of them.
pub fn read_page(log: &Vec<Message>, last_id: Option<i64>, limit: usize) -> (r: Vec<Message>)
    ensures
        r@ == spec_read_page(log@, last_id, limit as int),
{
    let cursor: i64 = match last_id {
        Some(c) => c,
        None => i64::MAX,
    };
    let ghost pred = before_cursor(cursor);
    let n: usize = log.len();
    let mut out: Vec<Message> = Vec::new();
    let mut i: usize = 0;
    proof {
        assert(log@.take(0int).filter(pred) =~= Seq::<Message>::empty());
    }
    while i < n
        invariant
            0 <= i <= n,
            n == log@.len(),
            pred == before_cursor(cursor),
            cursor == (match last_id {
                Some(c) => c,
                None => i64::MAX,
            }),
            out@.len() <= limit,
            out@ == log@.take(i as int).filter(pred),
        decreases n - i,
    {
        if out.len() >= limit {
            proof {
                lemma_filter_prefix_is_take(log@, i as int, pred);
                assert(log@ =~= log@.take(i as int) + log@.skip(i as int));
                Seq::filter_distributes_over_add(log@.take(i as int), log@.skip(i as int), pred);
                if (limit as int) < log@.filter(pred).len() {
                    assert(take_up_to(log@.filter(pred), limit as int) == out@);
                } else {
                    assert(log@.filter(pred) =~= out@);
                }
            }
            return out;
        }
        let m = &log[i];
        if m.id < cursor {
            out.push(m.clone());
        }
        proof {
            reveal(Seq::filter);
            assert(pred(log@[i as int]) == (log@[i as int].id < cursor));
            assert(log@.take(i as int + 1).drop_last() =~= log@.take(i as int));
            assert(log@.take(i as int + 1).last() == log@[i as int]);
            assert(log@.take(i as int + 1).len() == i + 1 > 0);
            assert(out@ == log@.take(i as int + 1).filter(pred));
        }
        i += 1;
    }
    proof {
        assert(log@.take(n as int) =~= log@);
        assert(take_up_to(log@.filter(pred), limit as int) == out@);
    }
    out
}

/// A full filtered prefix is the front of the whole filtered sequence.
proof fn lemma_filter_prefix_is_take(s: Seq<Message>, i: int, pred: spec_fn(Message) -> bool)
    requires
        0 <= i <= s.len(),
    ensures
        s.filter(pred).take(s.take(i).filter(pred).len() as int) == s.take(i).filter(pred),
{
    broadcast use group_seq_properties;

    assert(s =~= s.take(i) + s.skip(i));
    Seq::filter_distributes_over_add(s.take(i), s.skip(i), pred);
    assert(s.filter(pred).take(s.take(i).filter(pred).len() as int) =~= s.take(i).filter(pred));
}

/// The key a cursor stands for: an absent cursor starts from the newest
/// record, as the store's query does.
pub open spec fn cursor_key(last_id: Option<i64>) -> i64 {
    match last_id {
        Some(c) => c,
        None => i64::MAX,
    }
}

/// Whether records remain beyond the page a read of `limit` returns: the
/// log holds more than `limit` records older than the cursor.
pub open spec fn spec_more_remain(log: Seq<Message>, last_id: Option<i64>, limit: int) -> bool {
    filter_before(log, cursor_key(last_id)).len() > limit
}

/// Splits a read of one extra row into the page and its next cursor: the
/// first `limit` rows are the page, and a cursor — the page's last id — is
/// reported exactly when an extra row proves that more records remain.
pub fn split_page(rows: Vec<Message>, limit: usize) -> (r: (Vec<Message>, Option<i64>))
    ensures
        r.0@ == take_up_to(rows@, limit as int),
        rows@.len() > limit && limit > 0 ==> r.1 == Some(rows@[limit - 1].id),
        rows@.len() <= limit || limit == 0 ==> r.1 is None,
{
    let mut page = rows;
    let ghost rows0 = page@;
    if page.len() > limit && limit > 0 {
        let cursor = page[limit - 1].id;
        page.truncate(limit);
        proof {
            assert(page@ =~= take_up_to(rows0, limit as int));
        }
        (page, Some(cursor))
    } else {
        if limit == 0 && page.len() > 0 {
            page.truncate(0);
            proof {
                assert(page@ =~= take_up_to(rows0, 0int));
            }
        }
        proof {
            assert(page@ =~= take_up_to(rows0, limit as int));
        }
        (page, None)
    }
}

/// Reads one page of the log and the cursor the client resumes from: the
/// cursor — the page's last id — is reported if and only if more records
/// remain beyond the page, so the last page, full or not, carries none.
pub fn read_page_with_cursor(log: &Vec<Message>, last_id: Option<i64>, limit: usize) -> (r: (
    Vec<Message>,
    Option<i64>,
))
    ensures
        r.0@ == spec_read_page(log@, last_id, limit as int),
        r.1 is Some <==> spec_more_remain(log@, last_id, limit as int) && limit > 0,
        r.1 matches Some(c) ==> r.0@.len() == limit && c == r.0@.last().id,
{
    if limit == usize::MAX || limit == 0 {
        // A log never holds more than `usize::MAX` records, and an empty
        // page has no last record to name.
        let n = log.len();
        let page = read_page(log, last_id, limit);
        proof {
            log@.lemma_filter_len(before_cursor(cursor_key(last_id)));
        }
        return (page, None);
    }
    let rows = read_page(log, last_id, limit + 1);
    let ghost f = filter_before(log@, cursor_key(last_id));
    proof {
        assert(rows@ == take_up_to(f, limit as int + 1));
        if f.len() > limit {
            assert(rows@ =~= f.take(limit as int + 1));
            assert(take_up_to(rows@, limit as int) =~= take_up_to(f, limit as int));
        } else {
            assert(rows@ == f);
            assert(take_up_to(rows@, limit as int) == take_up_to(f, limit as int));
        }
    }
    let r = split_page(rows, limit);
    proof {
        if f.len() > limit {
            assert(take_up_to(f, limit as int) == f.take(limit as int));
            assert(r.0@.last() == f[limit as int - 1]);
        }
    }
    r
}

/// Filtering by a test that implies another factors through the weaker
/// filter.
proof fn lemma_filter_subsumes(
    s: Seq<Message>,
    p: spec_fn(Message) -> bool,
    q: spec_fn(Message) -> bool,
)
    requires
        forall|m: Message| #[trigger] q(m) ==> p(m),
    ensures
        s.filter(q) == s.filter(p).filter(q),
    decreases s.len(),
{
    reveal(Seq::filter);
    if s.len() == 0 {
        assert(s.filter(q) =~= s.filter(p).filter(q));
    } else {
        let dl = s.drop_last();
        let l = s.last();
        lemma_filter_subsumes(dl, p, q);
        if p(l) {
            assert(s.filter(p) == dl.filter(p).push(l));
            assert(s.filter(p).drop_last() =~= dl.filter(p));
            assert(s.filter(p).last() == l);
            if q(l) {
                assert(s.filter(q) == dl.filter(q).push(l));
                assert(s.filter(p).filter(q) == dl.filter(p).filter(q).push(l));
            } else {
                assert(s.filter(q) == dl.filter(q));
                assert(s.filter(p).filter(q) == dl.filter(p).filter(q));
            }
        } else {
            assert(!q(l));
            assert(s.filter(p) == dl.filter(p));
            assert(s.filter(q) == dl.filter(q));
        }
    }
}

/// A lower bound on every id survives filtering.
proof fn lemma_filter_bound(s: Seq<Message>, p: spec_fn(Message) -> bool, bound: i64)
    requires
        forall|i: int| 0 <= i < s.len() ==> (#[trigger] s[i]).id > bound,
    ensures
        forall|j: int| 0 <= j < s.filter(p).len() ==> (#[trigger] s.filter(p)[j]).id > bound,
    decreases s.len(),
{
    reveal(Seq::filter);
    if s.len() > 0 {
        let dl = s.drop_last();
        assert(forall|i: int| 0 <= i < dl.len() ==> (#[trigger] dl[i]).id > bound);
        lemma_filter_bound(dl, p, bound);
        if p(s.last()) {
            assert(s.filter(p) == dl.filter(p).push(s.last()));
            assert forall|j: int| 0 <= j < s.filter(p).len() implies (#[trigger] s.filter(p)[j]).id
                > bound by {
                if j < dl.filter(p).len() {
                    assert(s.filter(p)[j] == dl.filter(p)[j]);
                } else {
                    assert(s.filter(p)[j] == s.last());
                    assert(s[s.len() - 1].id > bound);
                }
            }
        }
    }
}

/// Filtering keeps the newest-first order.
proof fn lemma_filter_sorted(s: Seq<Message>, p: spec_fn(Message) -> bool)
    requires
        sorted_desc(s),
    ensures
        sorted_desc(s.filter(p)),
    decreases s.len(),
{
    reveal(Seq::filter);
    if s.len() > 0 {
        let dl = s.drop_last();
        let l = s.last();
        assert(sorted_desc(dl)) by {
            assert(forall|i: int, j: int|
                0 <= i < j < dl.len() ==> (#[trigger] dl[i]).id > (#[trigger] dl[j]).id);
        }
        lemma_filter_sorted(dl, p);
        if p(l) {
            assert(forall|i: int| 0 <= i < dl.len() ==> (#[trigger] dl[i]).id > l.id);
            lemma_filter_bound(dl, p, l.id);
            assert(s.filter(p) == dl.filter(p).push(l));
            assert forall|a: int, b: int| 0 <= a < b < s.filter(p).len() implies (
            #[trigger] s.filter(p)[a]).id > (#[trigger] s.filter(p)[b]).id by {
                if b < dl.filter(p).len() {
                    assert(s.filter(p)[a] == dl.filter(p)[a]);
                    assert(s.filter(p)[b] == dl.filter(p)[b]);
                } else {
                    assert(s.filter(p)[a] == dl.filter(p)[a]);
                    assert(s.filter(p)[b] == l);
                }
            }
        }
    }
}

/// Filtering by a test nothing passes yields nothing.
proof fn lemma_filter_none(s: Seq<Message>, p: spec_fn(Message) -> bool)
    requires
        forall|i: int| 0 <= i < s.len() ==> !p(#[trigger] s[i]),
    ensures
        s.filter(p) == Seq::<Message>::empty(),
    decreases s.len(),
{
    reveal(Seq::filter);
    if s.len() == 0 {
        assert(s.filter(p) =~= Seq::<Message>::empty());
    } else {
        let dl = s.drop_last();
        assert(forall|i: int| 0 <= i < dl.len() ==> !p(#[trigger] dl[i]));
        lemma_filter_none(dl, p);
        assert(!p(s[s.len() - 1]));
    }
}

/// In a newest-first sequence the records older than the one at position
/// `i` are exactly the records after it.
proof fn lemma_filter_before_suffix(f: Seq<Message>, i: int)
    requires
        sorted_desc(f),
        0 <= i < f.len(),
    ensures
        filter_before(f, f[i].id) == f.skip(i + 1),
    decreases f.len(),
{
    reveal(Seq::filter);
    let key = f[i].id;
    let q = before_cursor(key);
    if i == f.len() - 1 {
        assert(forall|j: int| 0 <= j < f.len() ==> !q(#[trigger] f[j]));
        lemma_filter_none(f, q);
        assert(f.skip(i + 1) =~= Seq::<Message>::empty());
    } else {
        let dl = f.drop_last();
        let l = f.last();
        assert(sorted_desc(dl)) by {
            assert(forall|a: int, b: int|
                0 <= a < b < dl.len() ==> (#[trigger] dl[a]).id > (#[trigger] dl[b]).id);
        }
        assert(dl[i] == f[i]);
        lemma_filter_before_suffix(dl, i);
        assert(q(l));
        assert(f.filter(q) == dl.filter(q).push(l));
        assert(f.filter(q) =~= f.skip(i + 1));
    }
}

/// One walk step over the log: while records remain beyond the page, the
/// page is exactly the front of the filtered tail, it is full, and resuming
/// strictly after its last id leaves exactly the rest of that tail — no
/// record is repeated and none is skipped, whatever the page size.
pub proof fn lemma_log_walk_step(log: Seq<Message>, last_id: Option<i64>, limit: int)
    requires
        sorted_desc(log),
        1 <= limit,
        spec_more_remain(log, last_id, limit),
    ensures
        ({
            let f = filter_before(log, cursor_key(last_id));
            let page = spec_read_page(log, last_id, limit);
            &&& page == f.take(limit)
            &&& page.len() == limit
            &&& filter_before(log, page.last().id) == f.skip(limit)
        }),
{
    let c = cursor_key(last_id);
    let f = filter_before(log, c);
    let page = spec_read_page(log, last_id, limit);
    assert(page == f.take(limit));
    assert(page.last() == f[limit - 1]);
    lemma_filter_sorted(log, before_cursor(c));
    let key = f[limit - 1].id;
    log.lemma_filter_pred(before_cursor(c), limit - 1);
    assert(key < c);
    assert(forall|m: Message| #[trigger] before_cursor(key)(m) ==> before_cursor(c)(m));
    lemma_filter_subsumes(log, before_cursor(c), before_cursor(key));
    lemma_filter_before_suffix(f, limit - 1);
    assert(filter_before(log, key) == f.skip(limit));
}

/// Everything a walk visits, starting from a filtered tail.
pub open spec fn walk_visited(f: Seq<Message>, limit: int) -> Seq<Message>
    decreases f.len(),
    when limit >= 1
{
    if f.len() <= limit {
        f
    } else {
        f.take(limit) + walk_visited(f.skip(limit), limit)
    }
}

/// Walk coverage: paging the log from a cursor until no cursor is offered
/// visits every record older than that cursor exactly once, in log order,
/// for every page size — [`lemma_log_walk_step`] shows each real read is
/// one step of this walk, and the final, cursorless read hands out the
/// whole remaining tail.
pub proof fn lemma_log_walk_coverage(f: Seq<Message>, limit: int)
    requires
        limit >= 1,
    ensures
        walk_visited(f, limit) == f,
    decreases f.len(),
{
    if f.len() > limit {
        lemma_log_walk_coverage(f.skip(limit), limit);
        assert(walk_visited(f, limit) =~= f);
    }
}

/// Whether a message is long enough that its rendering collapses it behind
/// a "show more" control.
pub fn is_long_message(content: &str) -> (r: bool)
    ensures
        r == (content@.len() > 200),
{
    broadcast use vstd::string::next_postcondition;
    broadcast use vstd::string::axiom_spec_iter;

    let mut it = content.chars();
    let mut count: usize = 0;
    loop
        invariant
            count <= 201,
            count == content@.len() - it.remaining().len(),
            it.obeys_prophetic_iter_laws(),
        decreases 201 - count,
    {
        if count > 200 {
            return true;
        }
        match it.next() {
            Some(_) => {
                count += 1;
            },
            None => {
                return count > 200;
            },
        }
    }
}

} // verus!
