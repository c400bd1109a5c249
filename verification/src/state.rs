use std::collections::VecDeque;

use vstd::prelude::*;
use vstd::utf8::encode_utf8;

use crate::feed::Candle;

verus! {

/// Number of candles the overlay keeps and shows.
pub const CANDLE_COUNT: usize = 10;

/// The byte `.`.
pub const DOT: u8 = 46;

/// The byte `0`.
pub const ZERO: u8 = 48;

/// What the overlay shows: the asset, the interval label, the newest candles
/// (oldest first), the number of decimals prices are printed with, and
/// whether the picture is out of date.
pub struct AppState {
    pub coin: String,
    pub interval_label: String,
    pub candles: VecDeque<Candle>,
    pub price_decimals: usize,
    pub dirty: bool,
}

/// Index of the first `.` in `b` at or after `i`, or `b.len()` if there is none.
pub open spec fn first_dot_from(b: Seq<u8>, i: int) -> int
    decreases b.len() - i,
{
    if i < 0 || i >= b.len() {
        b.len() as int
    } else if b[i] == DOT {
        i
    } else {
        first_dot_from(b, i + 1)
    }
}

/// End of `b[lo..end]` once its trailing `0` bytes are removed.
pub open spec fn end_without_trailing_zeros(b: Seq<u8>, lo: int, end: int) -> int
    decreases end - lo,
{
    if end > lo && b[end - 1] == ZERO {
        end_without_trailing_zeros(b, lo, end - 1)
    } else {
        end
    }
}

/// The number of significant decimals in the text `b`: the bytes after its
/// first `.` once trailing `0`s are dropped; 0 when there is no `.`.
pub open spec fn decimals_of(b: Seq<u8>) -> int {
    let d = first_dot_from(b, 0);
    if d >= b.len() {
        0
    } else {
        end_without_trailing_zeros(b, d + 1, b.len() as int) - (d + 1)
    }
}

/// The candle window after `c` arrives: a candle with the open time of the
/// newest one replaces it; any other is appended, the oldest dropping out
/// first when the window is full.
pub open spec fn pushed_window(q: Seq<Candle>, c: Candle) -> Seq<Candle> {
    if q.len() > 0 && q.last().t == c.t {
        q.drop_last().push(c)
    } else if q.len() == CANDLE_COUNT {
        q.drop_first().push(c)
    } else {
        q.push(c)
    }
}

/// The number of significant decimals in a price text.
pub open spec fn text_decimals(s: Seq<char>) -> int {
    decimals_of(encode_utf8(s))
}

/// The precision known after candle `c`: the most decimals any of its four
/// prices carries, or `known` if that is more.
pub open spec fn learned_decimals(known: usize, c: Candle) -> int {
    let a = if known >= text_decimals(c.o@) { known as int } else { text_decimals(c.o@) };
    let b = if a >= text_decimals(c.h@) { a } else { text_decimals(c.h@) };
    let d = if b >= text_decimals(c.l@) { b } else { text_decimals(c.l@) };
    if d >= text_decimals(c.c@) { d } else { text_decimals(c.c@) }
}

impl AppState {
    /// The candle window never holds more than `CANDLE_COUNT` candles.
    pub open spec fn wf(&self) -> bool {
        self.candles@.len() <= CANDLE_COUNT
    }

    /// A fresh state for `coin` at `interval_label`: no candles, no decimals
    /// learned yet, and a picture still to be drawn.
    pub fn new(coin: String, interval_label: String) -> (s: Self)
        ensures
            s.wf(),
            s.coin == coin,
            s.interval_label == interval_label,
            s.candles@ == Seq::<Candle>::empty(),
            s.price_decimals == 0,
            s.dirty,
    {
        AppState {
            coin,
            interval_label,
            candles: VecDeque::with_capacity(CANDLE_COUNT + 1),
            price_decimals: 0,
            dirty: true,
        }
    }

    /// Takes in one candle from the feed: learns the price precision from its
    /// four prices (the most decimals seen so far, never fewer), puts it into
    /// the window (see `pushed_window`) and marks the picture out of date.
    pub fn push(&mut self, candle: Candle)
        requires
            old(self).wf(),
        ensures
            final(self).wf(),
            final(self).candles@ == pushed_window(old(self).candles@, candle),
            final(self).price_decimals == learned_decimals(old(self).price_decimals, candle),
            final(self).dirty,
            final(self).coin == old(self).coin,
            final(self).interval_label == old(self).interval_label,
    {
        let d = decimal_places(candle.o.as_str());
        if d > self.price_decimals {
            self.price_decimals = d;
        }
        let d = decimal_places(candle.h.as_str());
        if d > self.price_decimals {
            self.price_decimals = d;
        }
        let d = decimal_places(candle.l.as_str());
        if d > self.price_decimals {
            self.price_decimals = d;
        }
        let d = decimal_places(candle.c.as_str());
        if d > self.price_decimals {
            self.price_decimals = d;
        }
        let n = self.candles.len();
        if n > 0 && self.candles[n - 1].t == candle.t {
            self.candles.pop_back();
            self.candles.push_back(candle);
            self.dirty = true;
            return;
        }
        if n == CANDLE_COUNT {
            self.candles.pop_front();
        }
        self.candles.push_back(candle);
        self.dirty = true;
    }
}

/// The number of significant decimals in the price text `s` (see
/// `decimals_of`).
pub fn decimal_places(s: &str) -> (r: usize)
    ensures
        r == decimals_of(encode_utf8(s@)),
{
    let b = s.as_bytes();
    let n = b.len();
    let mut i: usize = 0;
    while i < n && b[i] != DOT
        invariant
            n == b@.len(),
            b@ == encode_utf8(s@),
            i <= n,
            first_dot_from(b@, i as int) == first_dot_from(b@, 0),
        decreases n - i,
    {
        i = i + 1;
    }
    if i == n {
        return 0;
    }
    let mut end: usize = n;
    while end > i + 1 && b[end - 1] == ZERO
        invariant
            n == b@.len(),
            i < n,
            i + 1 <= end <= n,
            end_without_trailing_zeros(b@, i + 1, end as int) == end_without_trailing_zeros(
                b@,
                i + 1,
                n as int,
            ),
        decreases end,
    {
        end = end - 1;
    }
    end - (i + 1)
}

/// The window never outgrows `CANDLE_COUNT`, always ends with the candle
/// just taken in, and keeps nothing else but a run of the candles it held
/// before, in their order.
pub proof fn lemma_window_bounded(q: Seq<Candle>, c: Candle)
    requires
        q.len() <= CANDLE_COUNT,
    ensures
        pushed_window(q, c).len() <= CANDLE_COUNT,
        pushed_window(q, c).len() >= 1,
        pushed_window(q, c).last() == c,
        exists|lo: int, hi: int|
            0 <= lo <= hi <= q.len() && pushed_window(q, c).drop_last() == q.subrange(lo, hi),
{
    let r = pushed_window(q, c);
    if q.len() > 0 && q.last().t == c.t {
        assert(r.drop_last() =~= q.subrange(0, q.len() - 1));
    } else if q.len() == CANDLE_COUNT {
        assert(r.drop_last() =~= q.subrange(1, q.len() as int));
    } else {
        assert(r.drop_last() =~= q.subrange(0, q.len() as int));
    }
}

/// A candle with the open time of the newest one is an update of it: the
/// window keeps its length and replaces that candle.
pub proof fn lemma_same_time_replaces(q: Seq<Candle>, c: Candle)
    requires
        q.len() > 0,
        q.last().t == c.t,
    ensures
        pushed_window(q, c).len() == q.len(),
        pushed_window(q, c) == q.update(q.len() - 1, c),
{
    assert(pushed_window(q, c) =~= q.update(q.len() - 1, c));
}

/// Candles that arrive in order of their open time stay in that order in
/// the window.
pub proof fn lemma_window_stays_sorted(q: Seq<Candle>, c: Candle)
    requires
        crate::feed::sorted_by_time(q),
        q.len() > 0 ==> q.last().t <= c.t,
    ensures
        crate::feed::sorted_by_time(pushed_window(q, c)),
{
    let r = pushed_window(q, c);
    assert forall|i: int, j: int| 0 <= i <= j < r.len() implies r[i].t <= r[j].t by {
        if q.len() > 0 && q.last().t == c.t {
            if j < r.len() - 1 {
                assert(r[i] == q[i] && r[j] == q[j]);
            } else if i < r.len() - 1 {
                assert(r[i] == q[i]);
            }
        } else if q.len() == CANDLE_COUNT {
            if j < r.len() - 1 {
                assert(r[i] == q[i + 1] && r[j] == q[j + 1]);
            } else if i < r.len() - 1 {
                assert(r[i] == q[i + 1]);
            }
        } else {
            if j < r.len() - 1 {
                assert(r[i] == q[i] && r[j] == q[j]);
            } else if i < r.len() - 1 {
                assert(r[i] == q[i]);
            }
        }
    }
}

/// The learned precision never shrinks, covers every price of the candle,
/// and is one of those values: the largest of them.
pub proof fn lemma_decimals_never_shrink(known: usize, c: Candle)
    ensures
        learned_decimals(known, c) >= known,
        learned_decimals(known, c) >= text_decimals(c.o@),
        learned_decimals(known, c) >= text_decimals(c.h@),
        learned_decimals(known, c) >= text_decimals(c.l@),
        learned_decimals(known, c) >= text_decimals(c.c@),
        learned_decimals(known, c) == known || learned_decimals(known, c) == text_decimals(c.o@)
            || learned_decimals(known, c) == text_decimals(c.h@) || learned_decimals(known, c)
            == text_decimals(c.l@) || learned_decimals(known, c) == text_decimals(c.c@),
{
}

/// A candle whose open time differs from the newest one's is appended, and
/// the oldest candles drop out just as far as needed to keep at most
/// `CANDLE_COUNT`: the new window is the last `CANDLE_COUNT` candles of the
/// old window followed by `c`.
pub proof fn lemma_new_time_appends_dropping_oldest(q: Seq<Candle>, c: Candle)
    requires
        q.len() <= CANDLE_COUNT,
        q.len() == 0 || q.last().t != c.t,
    ensures
        q.len() < CANDLE_COUNT ==> pushed_window(q, c) == q.push(c),
        q.len() == CANDLE_COUNT ==> pushed_window(q, c) == q.subrange(1, q.len() as int).push(c),
        pushed_window(q, c) == q.push(c).subrange(
            q.len() + 1 - pushed_window(q, c).len(),
            (q.len() + 1) as int,
        ),
{
    if q.len() == CANDLE_COUNT {
        assert(q.drop_first() =~= q.subrange(1, q.len() as int));
        assert(q.subrange(1, q.len() as int).push(c) =~= q.push(c).subrange(1, (q.len() + 1) as int));
    } else {
        assert(q.push(c) =~= q.push(c).subrange(0, (q.len() + 1) as int));
    }
}

proof fn lemma_first_dot_after_dot_free_prefix(a: Seq<u8>, f: Seq<u8>, i: int)
    requires
        forall|j: int| 0 <= j < a.len() ==> a[j] != DOT,
        0 <= i <= a.len(),
    ensures
        first_dot_from(a + seq![DOT] + f, i) == a.len(),
    decreases a.len() - i,
{
    let b = a + seq![DOT] + f;
    if i < a.len() {
        assert(b[i] == a[i]);
        lemma_first_dot_after_dot_free_prefix(a, f, i + 1);
    } else {
        assert(b[i] == DOT);
    }
}

proof fn lemma_no_dot_from(b: Seq<u8>, i: int)
    requires
        forall|j: int| 0 <= j < b.len() ==> b[j] != DOT,
        0 <= i <= b.len(),
    ensures
        first_dot_from(b, i) == b.len(),
    decreases b.len() - i,
{
    if i < b.len() {
        lemma_no_dot_from(b, i + 1);
    }
}

proof fn lemma_trailing_zeros_end(b: Seq<u8>, lo: int, end: int)
    requires
        0 <= lo <= end <= b.len(),
    ensures
        lo <= end_without_trailing_zeros(b, lo, end) <= end,
        forall|j: int|
            end_without_trailing_zeros(b, lo, end) <= j < end ==> #[trigger] b[j] == ZERO,
        end_without_trailing_zeros(b, lo, end) == lo || b[end_without_trailing_zeros(b, lo, end)
            - 1] != ZERO,
    decreases end - lo,
{
    if end > lo && b[end - 1] == ZERO {
        lemma_trailing_zeros_end(b, lo, end - 1);
    }
}

/// A text without `.` has no decimals.
pub proof fn lemma_no_dot_no_decimals(b: Seq<u8>)
    requires
        forall|j: int| 0 <= j < b.len() ==> b[j] != DOT,
    ensures
        decimals_of(b) == 0,
{
    lemma_no_dot_from(b, 0);
}

/// The decimals of a text do not depend on what comes before its first `.`:
/// they are the digits `f` after it up to the last one that is not `0`,
/// that is, the length `r` of `f` once its trailing `0`s are removed.
pub proof fn lemma_decimals_after_first_dot(a: Seq<u8>, f: Seq<u8>)
    requires
        forall|j: int| 0 <= j < a.len() ==> a[j] != DOT,
    ensures
        decimals_of(a + seq![DOT] + f) == decimals_of(seq![DOT] + f),
        0 <= decimals_of(a + seq![DOT] + f) <= f.len(),
        forall|j: int|
            decimals_of(a + seq![DOT] + f) <= j < f.len() ==> #[trigger] f[j] == ZERO,
        decimals_of(a + seq![DOT] + f) == 0 || f[decimals_of(a + seq![DOT] + f) - 1] != ZERO,
{
    let b = a + seq![DOT] + f;
    let e = Seq::<u8>::empty();
    lemma_first_dot_after_dot_free_prefix(a, f, 0);
    lemma_first_dot_after_dot_free_prefix(e, f, 0);
    assert(e + seq![DOT] + f =~= seq![DOT] + f);
    let lo: int = (a.len() + 1) as int;
    lemma_trailing_zeros_end(b, lo, b.len() as int);
    lemma_trailing_zeros_end(seq![DOT] + f, 1, (f.len() + 1) as int);
    let r1 = end_without_trailing_zeros(b, lo, b.len() as int) - lo;
    let r2 = end_without_trailing_zeros(seq![DOT] + f, 1, (f.len() + 1) as int) - 1;
    assert forall|j: int| 0 <= j < f.len() implies b[lo + j] == f[j] && (seq![DOT] + f)[1 + j]
        == f[j] by {}
    if r1 < r2 {
        assert(f[r2 - 1] != ZERO);
        assert(b[lo + r2 - 1] == ZERO);
    }
    if r2 < r1 {
        assert(f[r1 - 1] != ZERO);
        assert((seq![DOT] + f)[1 + r1 - 1] == ZERO);
    }
    assert forall|j: int| r1 <= j < f.len() implies #[trigger] f[j] == ZERO by {
        assert(b[lo + j] == ZERO);
    }
    if r1 > 0 {
        assert(b[lo + r1 - 1] != ZERO);
    }
}

} // verus!
