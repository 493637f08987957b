//! The price-history service: a session records timestamped prices and
//! answers the mean price over a span of time.
use vstd::prelude::*;
use vstd::multiset::Multiset;
use sorted_vec::SortedVec;

verus! {

#[verifier::external_type_specification]
#[verifier::external_body]
#[verifier::reject_recursive_types(T)]
pub struct ExSortedVec<T: Ord>(sorted_vec::SortedVec<T>);

/// The points a `SortedVec` holds, in its order: (timestamp, price).
pub uninterp spec fn history_points(h: SortedVec<(i32, i32)>) -> Seq<(i32, i32)>;

/// The order of `(i32, i32)` tuples: by timestamp, then by price.
pub open spec fn point_le(a: (i32, i32), b: (i32, i32)) -> bool {
    a.0 < b.0 || (a.0 == b.0 && a.1 <= b.1)
}

/// The points are in ascending order.
pub open spec fn points_sorted(s: Seq<(i32, i32)>) -> bool {
    forall|i: int, j: int| 0 <= i <= j < s.len() ==> point_le(#[trigger] s[i], #[trigger] s[j])
}

/// `SortedVec::new`: an empty vector.
#[verifier::external_body]
fn history_new() -> (h: SortedVec<(i32, i32)>)
    ensures
        history_points(h) == Seq::<(i32, i32)>::empty(),
{
    SortedVec::new()
}

/// `SortedVec::insert`: puts `p` at the position that a binary search over
/// the sorted contents gives, and returns that position. Nothing else moves,
/// so sorted contents stay sorted.
#[verifier::external_body]
fn history_insert(h: &mut SortedVec<(i32, i32)>, p: (i32, i32)) -> (at: usize)
    ensures
        at <= history_points(*old(h)).len(),
        history_points(*final(h)) == history_points(*old(h)).insert(at as int, p),
        points_sorted(history_points(*old(h))) ==> points_sorted(history_points(*final(h))),
{
    h.insert(p)
}

/// `Vec::len`, through `SortedVec`'s `Deref`.
#[verifier::external_body]
fn history_len(h: &SortedVec<(i32, i32)>) -> (n: usize)
    ensures
        n == history_points(*h).len(),
{
    h.len()
}

/// Indexing, through `SortedVec`'s `Deref`.
#[verifier::external_body]
fn history_at(h: &SortedVec<(i32, i32)>, i: usize) -> (p: (i32, i32))
    requires
        i < history_points(*h).len(),
    ensures
        p == history_points(*h)[i as int],
{
    h[i]
}

/// `slice::binary_search_by_key` on the timestamp, through `SortedVec`'s
/// `Deref`: on contents sorted by timestamp, `Ok` with the index of a point
/// at `timestamp` when there is one, `Err` when there is none.
#[verifier::external_body]
fn history_find_timestamp(h: &SortedVec<(i32, i32)>, timestamp: i32) -> (r: Result<usize, usize>)
    requires
        points_sorted(history_points(*h)),
    ensures
        r matches Ok(i) ==> i < history_points(*h).len() && history_points(*h)[i as int].0 == timestamp,
        r is Err ==> forall|j: int| 0 <= j < history_points(*h).len() ==>
            (#[trigger] history_points(*h)[j]).0 != timestamp,
{
    h.binary_search_by_key(&timestamp, |p| p.0)
}

/// The point lies in the span of time from `start` to `end`, both included.
pub open spec fn in_span(p: (i32, i32), start: int, end: int) -> bool {
    start <= p.0 && p.0 <= end
}

/// The sum of the prices of the points that lie in the span.
pub open spec fn span_total(s: Seq<(i32, i32)>, start: int, end: int) -> int
    decreases s.len(),
{
    if s.len() == 0 {
        0
    } else {
        span_total(s.drop_last(), start, end) + if in_span(s.last(), start, end) {
            s.last().1 as int
        } else {
            0
        }
    }
}

/// The number of points that lie in the span.
pub open spec fn span_count(s: Seq<(i32, i32)>, start: int, end: int) -> nat
    decreases s.len(),
{
    if s.len() == 0 {
        0
    } else {
        span_count(s.drop_last(), start, end) + if in_span(s.last(), start, end) {
            1nat
        } else {
            0nat
        }
    }
}

/// Integer division rounded toward zero, as Rust's `/` does.
pub open spec fn trunc_div(a: int, b: int) -> int {
    if a >= 0 {
        a / b
    } else {
        -((-a) / b)
    }
}

/// The mean price over the span, rounded toward zero; 0 for an empty span.
pub open spec fn span_mean(s: Seq<(i32, i32)>, start: int, end: int) -> int {
    if span_count(s, start, end) == 0 {
        0
    } else {
        trunc_div(span_total(s, start, end), span_count(s, start, end) as int)
    }
}

proof fn lemma_span_bounds(s: Seq<(i32, i32)>, start: int, end: int)
    ensures
        span_count(s, start, end) <= s.len(),
        -0x8000_0000 * span_count(s, start, end) <= span_total(s, start, end),
        span_total(s, start, end) <= 0x7fff_ffff * span_count(s, start, end),
    decreases s.len(),
{
    if s.len() > 0 {
        lemma_span_bounds(s.drop_last(), start, end);
    }
}

proof fn lemma_span_take_step(s: Seq<(i32, i32)>, start: int, end: int, k: int)
    requires
        0 <= k < s.len(),
    ensures
        span_total(s.take(k + 1), start, end) == span_total(s.take(k), start, end) + if in_span(s[k], start, end) {
            s[k].1 as int
        } else {
            0
        },
        span_count(s.take(k + 1), start, end) == span_count(s.take(k), start, end) + if in_span(s[k], start, end) {
            1int
        } else {
            0int
        },
{
    assert(s.take(k + 1).drop_last() =~= s.take(k));
}

proof fn lemma_span_prefix_before(s: Seq<(i32, i32)>, start: int, end: int, n: int)
    requires
        0 <= n <= s.len(),
        forall|j: int| 0 <= j < n ==> (#[trigger] s[j]).0 < start,
    ensures
        span_total(s.take(n), start, end) == 0,
        span_count(s.take(n), start, end) == 0,
    decreases n,
{
    if n > 0 {
        lemma_span_prefix_before(s, start, end, n - 1);
        lemma_span_take_step(s, start, end, n - 1);
    } else {
        assert(s.take(0) =~= Seq::<(i32, i32)>::empty());
    }
}

proof fn lemma_span_suffix_after(s: Seq<(i32, i32)>, start: int, end: int, k: int, m: int)
    requires
        0 <= k <= m <= s.len(),
        forall|j: int| k <= j < s.len() ==> (#[trigger] s[j]).0 > end,
    ensures
        span_total(s.take(m), start, end) == span_total(s.take(k), start, end),
        span_count(s.take(m), start, end) == span_count(s.take(k), start, end),
    decreases m - k,
{
    if m > k {
        lemma_span_suffix_after(s, start, end, k, m - 1);
        lemma_span_take_step(s, start, end, m - 1);
    }
}

proof fn lemma_span_concat(a: Seq<(i32, i32)>, b: Seq<(i32, i32)>, start: int, end: int)
    ensures
        span_total(a + b, start, end) == span_total(a, start, end) + span_total(b, start, end),
        span_count(a + b, start, end) == span_count(a, start, end) + span_count(b, start, end),
    decreases b.len(),
{
    if b.len() == 0 {
        assert(a + b =~= a);
    } else {
        lemma_span_concat(a, b.drop_last(), start, end);
        assert((a + b).drop_last() =~= a + b.drop_last());
    }
}

/// What a query sees of an insertion: a point added anywhere in the
/// history adds its price to the total, and one to the count, of exactly
/// the spans that contain its timestamp.
pub proof fn law_insert_shows_in_span(s: Seq<(i32, i32)>, at: int, p: (i32, i32), start: int, end: int)
    requires
        0 <= at <= s.len(),
    ensures
        span_total(s.insert(at, p), start, end) == span_total(s, start, end) + if in_span(p, start, end) {
            p.1 as int
        } else {
            0
        },
        span_count(s.insert(at, p), start, end) == span_count(s, start, end) + if in_span(p, start, end) {
            1int
        } else {
            0int
        },
{
    let left = s.subrange(0, at);
    let right = s.subrange(at, s.len() as int);
    assert(s =~= left + right);
    lemma_span_concat(left, right, start, end);
    lemma_span_concat(left.push(p), right, start, end);
    assert(left.push(p).drop_last() =~= left);
}

/// Queries do not depend on the order of insertion: two histories holding
/// the same points, each as many times, have the same totals and counts
/// over every span.
pub proof fn law_span_ignores_order(a: Seq<(i32, i32)>, b: Seq<(i32, i32)>, start: int, end: int)
    requires
        a.to_multiset() == b.to_multiset(),
    ensures
        span_total(a, start, end) == span_total(b, start, end),
        span_count(a, start, end) == span_count(b, start, end),
    decreases a.len(),
{
    broadcast use vstd::seq_lib::group_to_multiset_ensures;

    if a.len() == 0 {
        assert(b.to_multiset().len() == 0);
        assert(b.len() == 0);
    } else {
        let x = a.last();
        let rest = a.drop_last();
        assert(a =~= rest.push(x));
        assert(a.to_multiset().count(x) > 0);
        assert(b.to_multiset().count(x) > 0);
        assert(b.contains(x));
        let i = choose|i: int| 0 <= i < b.len() && b[i] == x;
        let b2 = b.remove(i);
        vstd::seq_lib::to_multiset_remove(b, i);
        assert(rest.to_multiset() =~= b2.to_multiset());
        law_span_ignores_order(rest, b2, start, end);
        assert(b2.insert(i, x) =~= b);
        law_insert_shows_in_span(b2, i, x, start, end);
    }
}

/// Histories holding the same points answer every span with the same mean,
/// whatever order the points came in.
pub proof fn law_mean_ignores_order(a: Seq<(i32, i32)>, b: Seq<(i32, i32)>, start: int, end: int)
    requires
        a.to_multiset() == b.to_multiset(),
    ensures
        span_mean(a, start, end) == span_mean(b, start, end),
{
    law_span_ignores_order(a, b, start, end);
}

/// Some recorded point has timestamp `t`.
pub open spec fn timestamp_taken(points: Multiset<(i32, i32)>, t: i32) -> bool {
    exists|q: (i32, i32)| points.count(q) > 0 && q.0 == t
}

/// What an insert does to a session, told by its points and its flag: the
/// point joins the points, and the flag is set when the timestamp was taken.
pub open spec fn after_insert(points: Multiset<(i32, i32)>, flagged: bool, p: (i32, i32)) -> (
    Multiset<(i32, i32)>,
    bool,
) {
    (points.insert(p), flagged || timestamp_taken(points, p.0))
}

proof fn lemma_timestamp_taken(s: Seq<(i32, i32)>, t: i32)
    ensures
        timestamp_taken(s.to_multiset(), t) == exists|j: int| 0 <= j < s.len() && (#[trigger] s[j]).0 == t,
{
    broadcast use vstd::seq_lib::to_multiset_contains;

    if exists|j: int| 0 <= j < s.len() && (#[trigger] s[j]).0 == t {
        let j = choose|j: int| 0 <= j < s.len() && (#[trigger] s[j]).0 == t;
        assert(s.contains(s[j]));
        assert(s.to_multiset().count(s[j]) > 0);
    }
    if timestamp_taken(s.to_multiset(), t) {
        let q = choose|q: (i32, i32)| s.to_multiset().count(q) > 0 && q.0 == t;
        assert(s.contains(q));
    }
}

/// Two inserts in either order leave the same points and the same flag.
/// With `law_same_points_same_answers`, a block of inserts that arrives in
/// another order leaves every later answer as it was.
pub proof fn law_inserts_commute(points: Multiset<(i32, i32)>, flagged: bool, p: (i32, i32), q: (i32, i32))
    ensures
        ({
            let (m1, f1) = after_insert(points, flagged, p);
            let (m2, f2) = after_insert(points, flagged, q);
            after_insert(m1, f1, q) == after_insert(m2, f2, p)
        }),
{
    broadcast use vstd::multiset::group_multiset_axioms;

    assert(points.insert(p).insert(q) =~= points.insert(q).insert(p));
    assert(timestamp_taken(points.insert(p), q.0) == (timestamp_taken(points, q.0) || p.0 == q.0)) by {
        if timestamp_taken(points.insert(p), q.0) {
            let r = choose|r: (i32, i32)| points.insert(p).count(r) > 0 && r.0 == q.0;
            if r != p {
                assert(points.count(r) > 0);
            }
        }
        if p.0 == q.0 {
            assert(points.insert(p).count(p) > 0);
        }
        if timestamp_taken(points, q.0) {
            let r = choose|r: (i32, i32)| points.count(r) > 0 && r.0 == q.0;
            assert(points.insert(p).count(r) > 0);
        }
    }
    assert(timestamp_taken(points.insert(q), p.0) == (timestamp_taken(points, p.0) || q.0 == p.0)) by {
        if timestamp_taken(points.insert(q), p.0) {
            let r = choose|r: (i32, i32)| points.insert(q).count(r) > 0 && r.0 == p.0;
            if r != q {
                assert(points.count(r) > 0);
            }
        }
        if q.0 == p.0 {
            assert(points.insert(q).count(q) > 0);
        }
        if timestamp_taken(points, p.0) {
            let r = choose|r: (i32, i32)| points.count(r) > 0 && r.0 == p.0;
            assert(points.insert(q).count(r) > 0);
        }
    }
}

/// The answer to a query on a history with the given points and flag.
pub open spec fn reply_for(points: Seq<(i32, i32)>, flagged: bool, start: int, end: int) -> Reply {
    if flagged {
        Reply::Refused
    } else {
        Reply::Mean(span_mean(points, start, end) as i32)
    }
}

/// Sessions that hold the same points, in whatever order they came, and
/// agree on the flag answer every query alike.
pub proof fn law_same_points_same_answers(a: Session, b: Session, start: int, end: int)
    requires
        a.points().to_multiset() == b.points().to_multiset(),
        a.flagged() == b.flagged(),
    ensures
        reply_for(a.points(), a.flagged(), start, end) == reply_for(b.points(), b.flagged(), start, end),
{
    law_mean_ignores_order(a.points(), b.points(), start, end);
}

/// A decoded nine-byte message.
#[derive(Clone, Copy, Debug)]
pub enum Command {
    /// Record `price` at `timestamp`.
    Insert { timestamp: i32, price: i32 },
    /// Ask for the mean price from `min_time` to `max_time`.
    Query { min_time: i32, max_time: i32 },
    /// Any other first byte; the message is ignored.
    Other,
}

/// The two's-complement value of four big-endian bytes.
pub open spec fn be_i32(b0: u8, b1: u8, b2: u8, b3: u8) -> int {
    let u = b0 * 0x100_0000 + b1 * 0x1_0000 + b2 * 0x100 + b3;
    if u >= 0x8000_0000 {
        u - 0x1_0000_0000
    } else {
        u
    }
}

/// Reads a big-endian `i32`.
pub fn read_i32_be(b0: u8, b1: u8, b2: u8, b3: u8) -> (r: i32)
    ensures
        r == be_i32(b0, b1, b2, b3),
{
    let u: u32 = ((b0 as u32) << 24u32) | ((b1 as u32) << 16u32) | ((b2 as u32) << 8u32) | (b3 as u32);
    assert(u == b0 * 0x100_0000 + b1 * 0x1_0000 + b2 * 0x100 + b3) by (bit_vector)
        requires
            u == ((b0 as u32) << 24u32) | ((b1 as u32) << 16u32) | ((b2 as u32) << 8u32) | (b3 as u32),
    ;
    let r = u as i32;
    assert(r == if u >= 0x8000_0000 { u - 0x1_0000_0000 } else { u as int }) by (bit_vector)
        requires
            r == u as i32,
    ;
    r
}

/// Splits a message into its kind and two big-endian numbers.
pub fn decode(msg: &[u8; 9]) -> (c: Command)
    ensures
        c == decode_spec(msg@),
{
    let first = read_i32_be(msg[1], msg[2], msg[3], msg[4]);
    let second = read_i32_be(msg[5], msg[6], msg[7], msg[8]);
    if msg[0] == 73u8 {
        Command::Insert { timestamp: first, price: second }
    } else if msg[0] == 81u8 {
        Command::Query { min_time: first, max_time: second }
    } else {
        Command::Other
    }
}

/// The answer to a query.
#[derive(Clone, Copy, Debug)]
pub enum Reply {
    /// The mean price, sent as four big-endian bytes.
    Mean(i32),
    /// Sent as the single byte 69 once two points ever shared a timestamp.
    Refused,
}

/// One client's price history.
pub struct Session {
    history: SortedVec<(i32, i32)>,
    flagged: bool,
}

impl Session {
    /// The recorded points, in the history's order.
    pub closed spec fn points(&self) -> Seq<(i32, i32)> {
        history_points(self.history)
    }

    /// The history is kept in ascending order.
    pub open spec fn wf(&self) -> bool {
        points_sorted(self.points())
    }

    /// Whether two points ever shared a timestamp.
    pub closed spec fn flagged(&self) -> bool {
        self.flagged
    }

    /// A session with no points.
    pub fn new() -> (r: Session)
        ensures
            r.wf(),
            r.points() == Seq::<(i32, i32)>::empty(),
            !r.flagged(),
    {
        Session { history: history_new(), flagged: false }
    }

    /// Records `price` at `timestamp`; a timestamp that is already taken sets
    /// the flag for good, and the point is recorded anyway.
    pub fn insert(&mut self, timestamp: i32, price: i32)
        requires
            old(self).wf(),
        ensures
            final(self).wf(),
            exists|at: int|
                0 <= at <= old(self).points().len() && final(self).points() == old(self).points().insert(
                    at,
                    (timestamp, price),
                ),
            final(self).points().to_multiset() == old(self).points().to_multiset().insert((timestamp, price)),
            (final(self).points().to_multiset(), final(self).flagged()) == after_insert(
                old(self).points().to_multiset(),
                old(self).flagged(),
                (timestamp, price),
            ),
            final(self).flagged() == (old(self).flagged() || exists|j: int|
                0 <= j < old(self).points().len() && (#[trigger] old(self).points()[j]).0 == timestamp),
    {
        match history_find_timestamp(&self.history, timestamp) {
            Ok(i) => {
                self.flagged = true;
            },
            Err(_) => {},
        }
        let at = history_insert(&mut self.history, (timestamp, price));
        assert(final(self).points() == old(self).points().insert(at as int, (timestamp, price)));
        proof {
            vstd::seq_lib::to_multiset_insert(old(self).points(), at as int, (timestamp, price));
            lemma_timestamp_taken(old(self).points(), timestamp);
        }
    }

    /// The mean price over the points from `start` to `end`, rounded toward
    /// zero; 0 when no point lies there.
    pub fn mean_price(&self, start: i32, end: i32) -> (m: i32)
        requires
            self.wf(),
        ensures
            m == span_mean(self.points(), start as int, end as int),
    {
        let ghost s = self.points();
        let len = history_len(&self.history);
        let mut idx: usize = 0;
        let mut i: usize = len;
        while i > 0
            invariant_except_break
                idx == 0,
                forall|j: int| i <= j < len ==> (#[trigger] s[j]).0 >= start,
            invariant
                s == history_points(self.history),
                points_sorted(s),
                len == s.len(),
                i <= len,
            ensures
                idx <= len,
                forall|j: int| 0 <= j < idx ==> (#[trigger] s[j]).0 < start,
                forall|j: int| idx <= j < len ==> (#[trigger] s[j]).0 >= start,
            decreases i,
        {
            i = i - 1;
            let p = history_at(&self.history, i);
            if p.0 < start {
                idx = i + 1;
                assert forall|j: int| 0 <= j < idx implies (#[trigger] s[j]).0 < start by {
                    assert(point_le(s[j], s[i as int]));
                }
                break;
            }
        }
        proof {
            lemma_span_prefix_before(s, start as int, end as int, idx as int);
        }
        let mut amount: usize = 0;
        let mut total: i128 = 0;
        let mut k: usize = idx;
        assert(s.take(len as int) =~= s);
        while k < len
            invariant
                s.take(len as int) == s,
                s == history_points(self.history),
                points_sorted(s),
                len == s.len(),
                idx <= k <= len,
                forall|j: int| idx <= j < len ==> (#[trigger] s[j]).0 >= start,
                total == span_total(s.take(k as int), start as int, end as int),
                amount == span_count(s.take(k as int), start as int, end as int),
            ensures
                total == span_total(s, start as int, end as int),
                amount == span_count(s, start as int, end as int),
            decreases len - k,
        {
            let p = history_at(&self.history, k);
            if p.0 > end {
                proof {
                    assert forall|j: int| k <= j < s.len() implies (#[trigger] s[j]).0 > end by {
                        assert(point_le(s[k as int], s[j]));
                    }
                    lemma_span_suffix_after(s, start as int, end as int, k as int, len as int);
                    assert(s.take(len as int) =~= s);
                }
                break;
            }
            proof {
                lemma_span_take_step(s, start as int, end as int, k as int);
                lemma_span_bounds(s.take(k as int), start as int, end as int);
                assert(amount as int * 0x8000_0000 <= 0xffff_ffff_ffff_ffff * 0x8000_0000) by (nonlinear_arith)
                    requires amount <= 0xffff_ffff_ffff_ffff;
            }
            amount = amount + 1;
            total = total + p.1 as i128;
            k = k + 1;
        }
        proof {
            if k == len {
                assert(s.take(len as int) =~= s);
            }
            lemma_span_bounds(s, start as int, end as int);
        }
        if amount == 0 {
            return 0;
        }
        let a = amount as i128;
        let q: i128 = if total >= 0 {
            assert(total / a <= 0x7fff_ffff) by (nonlinear_arith)
                requires 0 <= total <= 0x7fff_ffff * a, a > 0;
            total / a
        } else {
            assert((-total) as int / a as int <= 0x8000_0000) by (nonlinear_arith)
                requires 0 < -total <= 0x8000_0000 * a, a > 0;
            -((-total) / a)
        };
        q as i32
    }

    /// Answers a query: refused once the flag is set, the mean price otherwise.
    pub fn query(&self, start: i32, end: i32) -> (r: Reply)
        requires
            self.wf(),
        ensures
            r == reply_for(self.points(), self.flagged(), start as int, end as int),
            self.flagged() ==> r is Refused,
            !self.flagged() ==> r == Reply::Mean(span_mean(self.points(), start as int, end as int) as i32),
    {
        if self.flagged {
            Reply::Refused
        } else {
            Reply::Mean(self.mean_price(start, end))
        }
    }

    /// Handles one nine-byte message: inserts answer nothing, queries
    /// answer as `query` does, other kinds are ignored.
    pub fn handle(&mut self, msg: &[u8; 9]) -> (r: Option<Reply>)
        requires
            old(self).wf(),
        ensures
            final(self).wf(),
            match decode_spec(msg@) {
                Command::Insert { timestamp, price } => {
                    &&& r is None
                    &&& exists|at: int|
                        0 <= at <= old(self).points().len() && final(self).points() == old(
                            self,
                        ).points().insert(at, (timestamp, price))
                    &&& final(self).points().to_multiset() == old(self).points().to_multiset().insert(
                        (timestamp, price),
                    )
                    &&& (final(self).points().to_multiset(), final(self).flagged()) == after_insert(
                        old(self).points().to_multiset(),
                        old(self).flagged(),
                        (timestamp, price),
                    )
                    &&& final(self).flagged() == (old(self).flagged() || exists|j: int|
                        0 <= j < old(self).points().len() && (#[trigger] old(self).points()[j]).0
                            == timestamp)
                },
                Command::Query { min_time, max_time } => *final(self) == *old(self) && (old(self).flagged()
                    ==> r == Some(Reply::Refused)) && (!old(self).flagged() ==> r == Some(
                    Reply::Mean(span_mean(old(self).points(), min_time as int, max_time as int) as i32),
                )),
                Command::Other => r is None && *final(self) == *old(self),
            },
    {
        match decode(msg) {
            Command::Insert { timestamp, price } => {
                self.insert(timestamp, price);
                None
            },
            Command::Query { min_time, max_time } => Some(self.query(min_time, max_time)),
            Command::Other => None,
        }
    }
}

/// The command a nine-byte message carries.
pub open spec fn decode_spec(msg: Seq<u8>) -> Command {
    if msg[0] == 73 {
        Command::Insert {
            timestamp: be_i32(msg[1], msg[2], msg[3], msg[4]) as i32,
            price: be_i32(msg[5], msg[6], msg[7], msg[8]) as i32,
        }
    } else if msg[0] == 81 {
        Command::Query {
            min_time: be_i32(msg[1], msg[2], msg[3], msg[4]) as i32,
            max_time: be_i32(msg[5], msg[6], msg[7], msg[8]) as i32,
        }
    } else {
        Command::Other
    }
}

/// The four bytes of `x` in big-endian two's-complement order, as
/// `i32::to_be_bytes` lays them out: most significant byte first.
pub open spec fn be_bytes(x: i32) -> Seq<u8> {
    let u = x as u32;
    seq![(u >> 24u32) as u8, ((u >> 16u32) & 0xffu32) as u8, ((u >> 8u32) & 0xffu32) as u8, (u & 0xffu32) as u8]
}

/// A nine-byte message: its kind byte, then two numbers in big-endian order.
pub open spec fn message_bytes(kind: u8, first: i32, second: i32) -> Seq<u8> {
    seq![kind] + be_bytes(first) + be_bytes(second)
}

proof fn lemma_be_round_trip(x: i32)
    ensures
        be_i32(be_bytes(x)[0], be_bytes(x)[1], be_bytes(x)[2], be_bytes(x)[3]) == x,
{
    let u = x as u32;
    let b0 = (u >> 24u32) as u8;
    let b1 = ((u >> 16u32) & 0xffu32) as u8;
    let b2 = ((u >> 8u32) & 0xffu32) as u8;
    let b3 = (u & 0xffu32) as u8;
    assert(b0 * 0x100_0000 + b1 * 0x1_0000 + b2 * 0x100 + b3 == u) by (bit_vector)
        requires
            b0 == (u >> 24u32) as u8,
            b1 == ((u >> 16u32) & 0xffu32) as u8,
            b2 == ((u >> 8u32) & 0xffu32) as u8,
            b3 == (u & 0xffu32) as u8,
    ;
    assert((if u >= 0x8000_0000 { u - 0x1_0000_0000 } else { u as int }) == x) by (bit_vector)
        requires
            u == x as u32,
    ;
    assert(be_bytes(x)[0] == b0 && be_bytes(x)[1] == b1 && be_bytes(x)[2] == b2 && be_bytes(x)[3] == b3);
}

proof fn lemma_bytes_round_trip(b0: u8, b1: u8, b2: u8, b3: u8)
    ensures
        be_bytes(be_i32(b0, b1, b2, b3) as i32) == seq![b0, b1, b2, b3],
{
    let x = be_i32(b0, b1, b2, b3) as i32;
    let u = x as u32;
    assert(u == b0 * 0x100_0000 + b1 * 0x1_0000 + b2 * 0x100 + b3 && x == be_i32(b0, b1, b2, b3)) by (bit_vector)
        requires
            x == (if b0 * 0x100_0000 + b1 * 0x1_0000 + b2 * 0x100 + b3 >= 0x8000_0000 {
                b0 * 0x100_0000 + b1 * 0x1_0000 + b2 * 0x100 + b3 - 0x1_0000_0000
            } else {
                b0 * 0x100_0000 + b1 * 0x1_0000 + b2 * 0x100 + b3
            }) as i32,
            u == x as u32,
    ;
    assert((u >> 24u32) as u8 == b0 && ((u >> 16u32) & 0xffu32) as u8 == b1 && ((u >> 8u32) & 0xffu32) as u8 == b2
        && (u & 0xffu32) as u8 == b3) by (bit_vector)
        requires
            u == b0 * 0x100_0000 + b1 * 0x1_0000 + b2 * 0x100 + b3,
    ;
    assert(be_bytes(x) =~= seq![b0, b1, b2, b3]);
}

/// Messages carry their numbers whole: an Insert or a Query message built
/// from any two `i32` values in big-endian order decodes to exactly those
/// values, so no timestamp, price or bound loses a byte or its sign.
pub proof fn law_decode_reads_what_was_sent(first: i32, second: i32)
    ensures
        decode_spec(message_bytes(73, first, second)) == (Command::Insert { timestamp: first, price: second }),
        decode_spec(message_bytes(81, first, second)) == (Command::Query { min_time: first, max_time: second }),
{
    lemma_be_round_trip(first);
    lemma_be_round_trip(second);
    let mi = message_bytes(73, first, second);
    let mq = message_bytes(81, first, second);
    assert(mi[1] == be_bytes(first)[0] && mi[2] == be_bytes(first)[1] && mi[3] == be_bytes(first)[2]
        && mi[4] == be_bytes(first)[3]);
    assert(mi[5] == be_bytes(second)[0] && mi[6] == be_bytes(second)[1] && mi[7] == be_bytes(second)[2]
        && mi[8] == be_bytes(second)[3]);
    assert(mq[1] == be_bytes(first)[0] && mq[2] == be_bytes(first)[1] && mq[3] == be_bytes(first)[2]
        && mq[4] == be_bytes(first)[3]);
    assert(mq[5] == be_bytes(second)[0] && mq[6] == be_bytes(second)[1] && mq[7] == be_bytes(second)[2]
        && mq[8] == be_bytes(second)[3]);
}

/// Decoding loses nothing: every nine-byte Insert or Query message is the
/// message built from the two numbers it decodes to.
pub proof fn law_decode_keeps_every_byte(msg: Seq<u8>)
    requires
        msg.len() == 9,
    ensures
        decode_spec(msg) matches Command::Insert { timestamp, price } ==> msg == message_bytes(msg[0], timestamp, price),
        decode_spec(msg) matches Command::Query { min_time, max_time } ==> msg == message_bytes(msg[0], min_time, max_time),
{
    lemma_bytes_round_trip(msg[1], msg[2], msg[3], msg[4]);
    lemma_bytes_round_trip(msg[5], msg[6], msg[7], msg[8]);
    let a = be_i32(msg[1], msg[2], msg[3], msg[4]) as i32;
    let b = be_i32(msg[5], msg[6], msg[7], msg[8]) as i32;
    assert(msg =~= message_bytes(msg[0], a, b));
}

/// A point is what a query of its own timestamp answers: on a fresh
/// session, the Insert message for `(t, p)` records exactly that point, and
/// the Query message from `t` to `t` then answers `Mean(p)`.
pub proof fn law_point_query_after_insert(t: i32, p: i32)
    ensures
        ({
            let points = Seq::<(i32, i32)>::empty().insert(0, (t, p));
            &&& decode_spec(message_bytes(73, t, p)) == (Command::Insert { timestamp: t, price: p })
            &&& decode_spec(message_bytes(81, t, t)) == (Command::Query { min_time: t, max_time: t })
            &&& reply_for(points, false, t as int, t as int) == Reply::Mean(p)
        }),
{
    law_decode_reads_what_was_sent(t, p);
    law_decode_reads_what_was_sent(t, t);
    let points = Seq::<(i32, i32)>::empty().insert(0, (t, p));
    assert(points =~= seq![(t, p)]);
    assert(points.drop_last() =~= Seq::<(i32, i32)>::empty());
    assert(span_total(Seq::<(i32, i32)>::empty(), t as int, t as int) == 0);
    assert(span_count(Seq::<(i32, i32)>::empty(), t as int, t as int) == 0);
    assert(points.last() == (t, p));
    assert(span_total(points, t as int, t as int) == p);
    assert(span_count(points, t as int, t as int) == 1);
}

} // verus!
