use vstd::arithmetic::power::pow;
use vstd::arithmetic::power2::lemma_pow2;
use vstd::arithmetic::power2::lemma_pow2_unfold;
use vstd::arithmetic::power2::pow2;
use vstd::prelude::*;

use crate::state::CANDLE_COUNT;

verus! {

/// One OHLC candle as the candle feed delivers it: the open time in
/// milliseconds since the epoch and the four prices as decimal text.
#[derive(Debug, Clone, PartialEq, Eq)]
pub struct Candle {
    pub t: u64,
    pub o: String,
    pub h: String,
    pub l: String,
    pub c: String,
}

/// The predicate "this candle opened at time `t`".
pub open spec fn opened_at(t: u64) -> spec_fn(Candle) -> bool {
    |c: Candle| c.t == t
}

/// Candles in non-decreasing order of their open time.
pub open spec fn sorted_by_time(s: Seq<Candle>) -> bool {
    forall|i: int, j: int| 0 <= i <= j < s.len() ==> s[i].t <= s[j].t
}

/// `out` is `inp` sorted by open time with a stable sort: sorted, and for
/// every open time the candles that carry it appear in their input order.
pub open spec fn is_stable_time_sort(out: Seq<Candle>, inp: Seq<Candle>) -> bool {
    &&& out.len() == inp.len()
    &&& sorted_by_time(out)
    &&& forall|t: u64| #[trigger] out.filter(opened_at(t)) == inp.filter(opened_at(t))
}

/// How many candles a window over `n` candles keeps.
pub open spec fn window_len(n: nat) -> nat {
    if n <= CANDLE_COUNT {
        n
    } else {
        CANDLE_COUNT as nat
    }
}

/// `out` is the newest `window_len` candles of `inp` once `inp` is stably
/// sorted by open time, oldest first.
pub open spec fn newest_window(out: Seq<Candle>, inp: Seq<Candle>) -> bool {
    exists|sorted: Seq<Candle>|
        #[trigger] is_stable_time_sort(sorted, inp) && out == sorted.subrange(
            sorted.len() - window_len(inp.len()),
            sorted.len() as int,
        )
}

proof fn lemma_filter_push(s: Seq<Candle>, e: Candle, p: spec_fn(Candle) -> bool)
    ensures
        s.push(e).filter(p) == (if p(e) {
            s.filter(p).push(e)
        } else {
            s.filter(p)
        }),
{
    reveal(Seq::filter);
    assert(s.push(e).drop_last() =~= s);
}

proof fn lemma_filter_none(s: Seq<Candle>, p: spec_fn(Candle) -> bool)
    requires
        forall|i: int| 0 <= i < s.len() ==> !p(#[trigger] s[i]),
    ensures
        s.filter(p) == Seq::<Candle>::empty(),
    decreases s.len(),
{
    reveal(Seq::filter);
    if s.len() > 0 {
        lemma_filter_none(s.drop_last(), p);
    }
}

proof fn lemma_sorted_same_groups_equal(a: Seq<Candle>, b: Seq<Candle>)
    requires
        sorted_by_time(a),
        sorted_by_time(b),
        a.len() == b.len(),
        forall|t: u64| #[trigger] a.filter(opened_at(t)) == b.filter(opened_at(t)),
    ensures
        a == b,
    decreases a.len(),
{
    if a.len() == 0 {
        assert(a =~= b);
    } else {
        let x = a.last();
        let y = b.last();
        let a0 = a.drop_last();
        let b0 = b.drop_last();
        assert(a =~= a0.push(x));
        assert(b =~= b0.push(y));
        if x.t < y.t {
            lemma_filter_push(b0, y, opened_at(y.t));
            assert forall|i: int| 0 <= i < a.len() implies !opened_at(y.t)(#[trigger] a[i]) by {}
            lemma_filter_none(a, opened_at(y.t));
            assert(a.filter(opened_at(y.t)) == b.filter(opened_at(y.t)));
            assert(false);
        }
        if y.t < x.t {
            lemma_filter_push(a0, x, opened_at(x.t));
            assert forall|i: int| 0 <= i < b.len() implies !opened_at(x.t)(#[trigger] b[i]) by {}
            lemma_filter_none(b, opened_at(x.t));
            assert(a.filter(opened_at(x.t)) == b.filter(opened_at(x.t)));
            assert(false);
        }
        let k = x.t;
        lemma_filter_push(a0, x, opened_at(k));
        lemma_filter_push(b0, y, opened_at(k));
        assert(a.filter(opened_at(k)) == b.filter(opened_at(k)));
        assert(a.filter(opened_at(k)).last() == x);
        assert(b.filter(opened_at(k)).last() == y);
        assert forall|t: u64| #[trigger] a0.filter(opened_at(t)) == b0.filter(opened_at(t)) by {
            lemma_filter_push(a0, x, opened_at(t));
            lemma_filter_push(b0, y, opened_at(t));
            assert(a.filter(opened_at(t)) == b.filter(opened_at(t)));
            if t == k {
                assert(a0.filter(opened_at(t)) =~= a.filter(opened_at(t)).drop_last());
                assert(b0.filter(opened_at(t)) =~= b.filter(opened_at(t)).drop_last());
            }
        }
        lemma_sorted_same_groups_equal(a0, b0);
    }
}

/// A stable sort by open time has exactly one outcome, so the candles that
/// seed the chart are determined by the snapshot response.
pub proof fn lemma_stable_time_sort_unique(a: Seq<Candle>, b: Seq<Candle>, inp: Seq<Candle>)
    requires
        is_stable_time_sort(a, inp),
        is_stable_time_sort(b, inp),
    ensures
        a == b,
{
    assert forall|t: u64| #[trigger] a.filter(opened_at(t)) == b.filter(opened_at(t)) by {
        assert(a.filter(opened_at(t)) == inp.filter(opened_at(t)));
        assert(b.filter(opened_at(t)) == inp.filter(opened_at(t)));
    }
    lemma_sorted_same_groups_equal(a, b);
}

/// Inserts `x` into the sorted `s` after every candle that opened no later.
fn insert_by_time(s: &mut Vec<Candle>, x: Candle)
    requires
        sorted_by_time(old(s)@),
    ensures
        sorted_by_time(final(s)@),
        final(s)@.len() == old(s)@.len() + 1,
        forall|t: u64|
            #[trigger] final(s)@.filter(opened_at(t)) == old(s)@.push(x).filter(opened_at(t)),
{
    let mut p: usize = 0;
    while p < s.len() && s[p].t <= x.t
        invariant
            p <= s@.len(),
            forall|j: int| 0 <= j < p ==> s@[j].t <= x.t,
        decreases s@.len() - p,
    {
        p = p + 1;
    }
    let ghost before = s@;
    let ghost n = before.len() as int;
    assert(forall|j: int| p <= j < n ==> before[j].t > x.t);
    s.insert(p, x);
    proof {
        let a = before.subrange(0, p as int);
        let b = before.subrange(p as int, n);
        assert(s@ =~= a.push(x) + b);
        assert(before =~= a + b);
        assert forall|t: u64|
            #[trigger] s@.filter(opened_at(t)) == before.push(x).filter(opened_at(t)) by {
            let pr = opened_at(t);
            Seq::filter_distributes_over_add(a.push(x), b, pr);
            Seq::filter_distributes_over_add(a, b, pr);
            lemma_filter_push(a, x, pr);
            lemma_filter_push(before, x, pr);
            if x.t == t {
                assert forall|i: int| 0 <= i < b.len() implies !pr(#[trigger] b[i]) by {
                    assert(b[i] == before[p + i]);
                }
                lemma_filter_none(b, pr);
                assert(a.filter(pr).push(x) + b.filter(pr) =~= (a.filter(pr) + b.filter(
                    pr,
                )).push(x));
            }
        }
        assert forall|i: int, j: int| 0 <= i <= j < s@.len() implies s@[i].t <= s@[j].t by {
            if j < p {
            } else if j == p {
            } else if i < p {
                assert(s@[j] == before[j - 1]);
            } else if i == p {
                assert(s@[j] == before[j - 1]);
            } else {
                assert(s@[i] == before[i - 1]);
                assert(s@[j] == before[j - 1]);
            }
        }
    }
}

/// Sorts candles by open time; candles that opened at the same time keep
/// their order.
fn sort_by_time(v: Vec<Candle>) -> (out: Vec<Candle>)
    ensures
        is_stable_time_sort(out@, v@),
{
    let ghost inp = v@;
    let mut rest = v;
    let mut out: Vec<Candle> = Vec::new();
    let ghost mut i: int = 0;
    while rest.len() > 0
        invariant
            0 <= i <= inp.len(),
            rest@ == inp.subrange(i, inp.len() as int),
            out@.len() == i,
            sorted_by_time(out@),
            forall|t: u64|
                #[trigger] out@.filter(opened_at(t)) == inp.subrange(0, i).filter(opened_at(t)),
        decreases rest@.len(),
    {
        let x = rest.remove(0);
        proof {
            assert(x == inp[i]);
            assert(inp.subrange(0, i + 1) =~= inp.subrange(0, i).push(x));
        }
        let ghost prev = out@;
        insert_by_time(&mut out, x);
        proof {
            assert forall|t: u64|
                #[trigger] out@.filter(opened_at(t)) == inp.subrange(0, i + 1).filter(
                    opened_at(t),
                ) by {
                lemma_filter_push(prev, x, opened_at(t));
                lemma_filter_push(inp.subrange(0, i), x, opened_at(t));
            }
            i = i + 1;
        }
    }
    assert(inp.subrange(0, i) =~= inp);
    out
}

/// The candles that seed the chart: the response of the candle snapshot
/// request sorted by open time (a stable sort), of which the newest
/// `CANDLE_COUNT` are kept, oldest first.
pub fn newest_candles(v: Vec<Candle>) -> (r: Vec<Candle>)
    ensures
        newest_window(r@, v@),
        r@.len() == window_len(v@.len()),
        sorted_by_time(r@),
{
    let ghost inp = v@;
    let mut sorted = sort_by_time(v);
    let ghost all = sorted@;
    let n = sorted.len();
    let r = if n > CANDLE_COUNT {
        sorted.split_off(n - CANDLE_COUNT)
    } else {
        sorted
    };
    assert(r@ =~= all.subrange(all.len() - window_len(inp.len()), all.len() as int));
    assert(is_stable_time_sort(all, inp));
    r
}

/// Start of the bootstrap request: `CANDLE_COUNT` candle periods before
/// `now_ms`, or the epoch if that would lie before it.
pub fn bootstrap_start(now_ms: u64, interval_ms: u64) -> (r: u64)
    requires
        interval_ms * CANDLE_COUNT <= u64::MAX,
    ensures
        r == (if now_ms >= interval_ms * CANDLE_COUNT {
            now_ms - interval_ms * CANDLE_COUNT
        } else {
            0
        }),
{
    let span = interval_ms * (CANDLE_COUNT as u64);
    now_ms.saturating_sub(span)
}

/// The payload of a message on the candle channel, each element already read
/// as a candle where it is one: a batch or a single candle.
pub enum FeedData {
    Batch(Vec<Option<Candle>>),
    Single(Option<Candle>),
}

/// The candle a message carries: only messages on the `candle` channel carry
/// one; of a batch it is the last element, when that reads as a candle.
pub open spec fn frame_candle(channel: Seq<char>, data: FeedData) -> Option<Candle> {
    if channel == "candle"@ {
        match data {
            FeedData::Batch(v) => if v@.len() > 0 {
                v@.last()
            } else {
                None
            },
            FeedData::Single(c) => c,
        }
    } else {
        None
    }
}

/// Picks the candle out of a message that arrived on `channel` with payload
/// `data` (see `frame_candle`).
pub fn candle_from_frame(channel: &str, data: FeedData) -> (r: Option<Candle>)
    ensures
        r == frame_candle(channel@, data),
{
    if !crate::cli::same_text(channel, "candle") {
        return None;
    }
    match data {
        FeedData::Batch(mut v) => {
            match v.pop() {
                Some(last) => last,
                None => None,
            }
        },
        FeedData::Single(c) => c,
    }
}

/// The longest pause between two connection attempts, in seconds.
pub const MAX_BACKOFF_SECS: u64 = 30;

/// What happened on the live connection to the candle feed.
pub enum LinkEvent {
    /// The connection was opened.
    Connected,
    /// Opening the connection failed.
    ConnectFailed,
    /// The subscription request could not be sent.
    SubscribeFailed,
    /// It is time for a keep-alive ping.
    PingDue,
    /// A message arrived; it carried this candle, if any.
    Received(Option<Candle>),
    /// The receiver of the candles has gone away.
    ForwardFailed,
    /// The connection closed or failed.
    Closed,
}

/// What to do next on the connection to the candle feed.
pub enum LinkAction {
    /// Send the subscription request.
    Subscribe,
    /// Send a keep-alive ping.
    SendPing,
    /// Hand this candle to the overlay.
    Forward(Candle),
    /// Go on reading messages.
    Wait,
    /// Pause this many seconds, then connect again.
    Sleep(u64),
    /// Connect again at once.
    Reconnect,
    /// Give up for good.
    Stop,
}

/// The reconnection state of the live feed: the pause before the next
/// connection attempt, in seconds.
pub struct FeedLink {
    pub backoff_secs: u64,
}

/// The action for `ev` when the pause before the next attempt is `backoff`.
pub open spec fn link_action(backoff: u64, ev: LinkEvent) -> LinkAction {
    match ev {
        LinkEvent::Connected => LinkAction::Subscribe,
        LinkEvent::ConnectFailed => LinkAction::Sleep(backoff),
        LinkEvent::SubscribeFailed => LinkAction::Reconnect,
        LinkEvent::PingDue => LinkAction::SendPing,
        LinkEvent::Received(Some(c)) => LinkAction::Forward(c),
        LinkEvent::Received(None) => LinkAction::Wait,
        LinkEvent::ForwardFailed => LinkAction::Stop,
        LinkEvent::Closed => LinkAction::Sleep(backoff),
    }
}

/// The pause before the next attempt once `ev` has happened: back to one
/// second on a connection, doubled up to `MAX_BACKOFF_SECS` after a pause.
pub open spec fn next_backoff(backoff: u64, ev: LinkEvent) -> u64 {
    match ev {
        LinkEvent::Connected => 1,
        LinkEvent::ConnectFailed | LinkEvent::Closed => if 2 * backoff <= MAX_BACKOFF_SECS {
            (2 * backoff) as u64
        } else {
            MAX_BACKOFF_SECS
        },
        _ => backoff,
    }
}

impl FeedLink {
    /// The pause always lies between one second and `MAX_BACKOFF_SECS`.
    pub open spec fn wf(&self) -> bool {
        1 <= self.backoff_secs <= MAX_BACKOFF_SECS
    }

    /// A link that has not tried to connect yet: the first pause is one second.
    pub fn new() -> (l: Self)
        ensures
            l.wf(),
            l.backoff_secs == 1,
    {
        FeedLink { backoff_secs: 1 }
    }

    /// Decides what to do after `ev` and updates the pause (see `link_action`
    /// and `next_backoff`).
    pub fn on_event(&mut self, ev: LinkEvent) -> (a: LinkAction)
        requires
            old(self).wf(),
        ensures
            final(self).wf(),
            a == link_action(old(self).backoff_secs, ev),
            final(self).backoff_secs == next_backoff(old(self).backoff_secs, ev),
    {
        match ev {
            LinkEvent::Connected => {
                self.backoff_secs = 1;
                LinkAction::Subscribe
            },
            LinkEvent::ConnectFailed | LinkEvent::Closed => {
                let pause = self.backoff_secs;
                self.backoff_secs = if pause * 2 <= MAX_BACKOFF_SECS {
                    pause * 2
                } else {
                    MAX_BACKOFF_SECS
                };
                LinkAction::Sleep(pause)
            },
            LinkEvent::SubscribeFailed => LinkAction::Reconnect,
            LinkEvent::PingDue => LinkAction::SendPing,
            LinkEvent::Received(Some(c)) => LinkAction::Forward(c),
            LinkEvent::Received(None) => LinkAction::Wait,
            LinkEvent::ForwardFailed => LinkAction::Stop,
        }
    }
}

/// The pause after `k` connection failures in a row, starting from a fresh
/// link.
pub open spec fn pause_after_failures(k: nat) -> u64
    decreases k,
{
    if k == 0 {
        1
    } else {
        next_backoff(pause_after_failures((k - 1) as nat), LinkEvent::Closed)
    }
}

/// Pauses between attempts double from one second, up to
/// `MAX_BACKOFF_SECS`: after `k` failures in a row the pause is
/// `min(2^k, MAX_BACKOFF_SECS)`.
pub proof fn lemma_backoff_doubles_to_cap(k: nat)
    ensures
        pause_after_failures(k) == (if pow2(k) <= MAX_BACKOFF_SECS {
            pow2(k)
        } else {
            MAX_BACKOFF_SECS as nat
        }),
    decreases k,
{
    if k == 0 {
        lemma_pow2(0);
        reveal(pow);
    } else {
        lemma_backoff_doubles_to_cap((k - 1) as nat);
        lemma_pow2_unfold(k);
    }
}

/// Every pause the link asks for lies between one second and
/// `MAX_BACKOFF_SECS`, and a connection brings the pause back to one second.
pub proof fn lemma_pause_bounded(backoff: u64, ev: LinkEvent)
    requires
        1 <= backoff <= MAX_BACKOFF_SECS,
    ensures
        link_action(backoff, ev) matches LinkAction::Sleep(d) ==> 1 <= d <= MAX_BACKOFF_SECS,
        1 <= next_backoff(backoff, ev) <= MAX_BACKOFF_SECS,
        ev matches LinkEvent::Connected ==> next_backoff(backoff, ev) == 1,
{
}

/// The seed candles are determined by the snapshot response.
pub proof fn lemma_newest_window_unique(r1: Seq<Candle>, r2: Seq<Candle>, inp: Seq<Candle>)
    requires
        newest_window(r1, inp),
        newest_window(r2, inp),
    ensures
        r1 == r2,
{
    let s1 = choose|s: Seq<Candle>|
        #[trigger] is_stable_time_sort(s, inp) && r1 == s.subrange(
            s.len() - window_len(inp.len()),
            s.len() as int,
        );
    let s2 = choose|s: Seq<Candle>|
        #[trigger] is_stable_time_sort(s, inp) && r2 == s.subrange(
            s.len() - window_len(inp.len()),
            s.len() as int,
        );
    lemma_stable_time_sort_unique(s1, s2, inp);
}

/// Two failures in a row: each makes the link pause, and the second pause
/// is twice the first, but never more than `MAX_BACKOFF_SECS`.
pub proof fn lemma_failures_pause_twice_as_long(backoff: u64, ev1: LinkEvent, ev2: LinkEvent)
    requires
        1 <= backoff <= MAX_BACKOFF_SECS,
        ev1 matches LinkEvent::ConnectFailed || ev1 matches LinkEvent::Closed,
        ev2 matches LinkEvent::ConnectFailed || ev2 matches LinkEvent::Closed,
    ensures
        link_action(backoff, ev1) == LinkAction::Sleep(backoff),
        link_action(next_backoff(backoff, ev1), ev2) == LinkAction::Sleep(
            if 2 * backoff <= MAX_BACKOFF_SECS {
                (2 * backoff) as u64
            } else {
                MAX_BACKOFF_SECS
            },
        ),
{
}

/// After a connection, the next failure pauses for one second.
pub proof fn lemma_connection_resets_pause(backoff: u64, ev: LinkEvent)
    requires
        ev matches LinkEvent::ConnectFailed || ev matches LinkEvent::Closed,
    ensures
        link_action(backoff, LinkEvent::Connected) == LinkAction::Subscribe,
        link_action(next_backoff(backoff, LinkEvent::Connected), ev) == LinkAction::Sleep(1),
{
}

} // verus!
