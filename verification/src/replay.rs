//! Replay: a run is determined by its feed, its time range and tick, its
//! broker, the slippage pool among the rest, and its strategy, where the
//! strategy itself is determined by what it is given.
use vstd::prelude::*;
use crate::broker::{portfolio_worth, BrokerView};
use crate::data::OHLCVData;
use crate::engine::{is_run, sample_at, stepped, stopped, tick_count, ticked};
use crate::strategy::Strategy;
use crate::tracker::TrackerView;

verus! {

/// Whether what a strategy does is determined by what it is given: from
/// states that are alike, `init` leads to states that are alike, and `tick`
/// at one instant, with one sample and one broker, leads to states that are
/// alike and to one broker.
pub open spec fn determined<S: Strategy>() -> bool {
    &&& forall|before: S, one: S, again: S, other: S|
        S::alike(before, again) && #[trigger] S::initialised(before, one)
            && #[trigger] S::initialised(again, other) ==> S::alike(one, other)
    &&& forall|
        before: S,
        again: S,
        time: i64,
        data: Option<OHLCVData>,
        broker: BrokerView,
        one: S,
        served: BrokerView,
        other: S,
        left: BrokerView,
    |
        S::alike(before, again) && #[trigger] S::reacts(before, time, data, broker, one, served)
            && #[trigger] S::reacts(again, time, data, broker, other, left) ==> S::alike(
            one,
            other,
        ) && served == left
}

/// Two runs of a determined strategy on one feed, from one instant, at one
/// tick, from one broker and from states of the strategy that are alike are
/// the same tick after tick, for as long as both last.
pub proof fn lemma_runs_agree<S: Strategy>(
    feed: Seq<OHLCVData>,
    start: i64,
    tick: i64,
    first: BrokerView,
    one: (Seq<S>, Seq<BrokerView>, Seq<TrackerView>),
    other: (Seq<S>, Seq<BrokerView>, Seq<TrackerView>),
    j: int,
)
    requires
        determined::<S>(),
        is_run(feed, start, tick, first, one.0, one.1, one.2),
        is_run(feed, start, tick, first, other.0, other.1, other.2),
        S::alike(one.0[0], other.0[0]),
        0 <= j < one.1.len(),
        j < other.1.len(),
    ensures
        S::alike(one.0[j], other.0[j]),
        one.1[j] == other.1[j],
        one.2[j] == other.2[j],
    decreases j,
{
    if j > 0 {
        lemma_runs_agree(feed, start, tick, first, one, other, j - 1);
        assert(ticked(feed, start, tick, one.0, one.1, one.2, j - 1));
        assert(ticked(feed, start, tick, other.0, other.1, other.2, j - 1));
    }
}

/// Replay: two runs as above that both go through all their ticks end with
/// the same strategy, the same broker and the same ledger, and so with the
/// same round trips and the same figures.
pub proof fn lemma_replay<S: Strategy>(
    feed: Seq<OHLCVData>,
    start: i64,
    tick: i64,
    first: BrokerView,
    one: (Seq<S>, Seq<BrokerView>, Seq<TrackerView>),
    other: (Seq<S>, Seq<BrokerView>, Seq<TrackerView>),
)
    requires
        determined::<S>(),
        is_run(feed, start, tick, first, one.0, one.1, one.2),
        is_run(feed, start, tick, first, other.0, other.1, other.2),
        S::alike(one.0[0], other.0[0]),
        one.1.len() == other.1.len(),
    ensures
        S::alike(one.0.last(), other.0.last()),
        one.1.last() == other.1.last(),
        one.2.last() == other.2.last(),
{
    lemma_runs_agree(feed, start, tick, first, one, other, one.1.len() - 1);
}

/// Replay: of two runs as above, one does not go through all its ticks to
/// holdings whose worth can be stored while the other stops for an amount
/// that cannot be stored. So two equal runs both succeed or both fail.
pub proof fn lemma_replay_ends_alike<S: Strategy>(
    feed: Seq<OHLCVData>,
    start: i64,
    end: i64,
    tick: i64,
    first: BrokerView,
    one: (Seq<S>, Seq<BrokerView>, Seq<TrackerView>),
    other: (Seq<S>, Seq<BrokerView>, Seq<TrackerView>),
)
    requires
        determined::<S>(),
        is_run(feed, start, tick, first, one.0, one.1, one.2),
        is_run(feed, start, tick, first, other.0, other.1, other.2),
        S::alike(one.0[0], other.0[0]),
        one.1.len() == 1 + tick_count(start, end, tick, feed.last().timestamp),
        stopped(feed, start, end, tick, other.1, other.2),
    ensures
        portfolio_worth(one.1.last().portfolio, feed.last().close).is_none(),
{
    let ticks: int = tick_count(start, end, tick, feed.last().timestamp);
    let reached: int = other.1.len() - 1;
    lemma_runs_agree(feed, start, tick, first, one, other, reached);
    if other.1.len() <= ticks {
        assert(ticked(feed, start, tick, one.0, one.1, one.2, reached));
        assert(stepped(
            other.1.last(),
            other.2.last(),
            (start + reached * tick) as i64,
            feed[sample_at(feed, start, tick, reached)],
        ).is_err());
        assert(false);
    }
}

} // verus!
