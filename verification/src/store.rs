//! The series store: a mapping from provider name to that provider's
//! series, with first-arrival time anchoring and a monotone relative-time
//! axis. Applying a quote either inserts a fully anchored new series or
//! appends one point; a reader never observes a half-applied quote.

use vstd::prelude::*;
use crate::numbers::u64_from_chars;
use crate::parser::{parse_error_spec, parse_ok, parse_quote, AppError, Quote};
use crate::text::{split_chars, trim_chars};
use crate::time::{derive_start_clock, hour_of_ns, minute_of_ns};

verus! {

/// One plotted point: whole seconds since the series' zero-time reference,
/// and the price text captured with it.
#[derive(Debug, Clone, PartialEq, Eq)]
pub struct BuyPoint {
    pub x_seconds: u64,
    pub price: String,
}

/// One liquidity provider's series: the provider's name, the plotted
/// points in arrival order, and the write-once anchor captured from the
/// first accepted quote — its timestamp and the wall-clock hour and minute
/// that timestamp fell on.
#[derive(Debug, Clone, PartialEq, Eq)]
pub struct LpBuyPoints {
    pub name: String,
    pub buy_points: Vec<BuyPoint>,
    pub zero_time_ref: u64,
    pub global_start_hour: u64,
    pub global_start_minute: u64,
}

/// Whole seconds elapsed from `zero` to `ts`, by floor division.
pub open spec fn elapsed_of(ts: u64, zero: u64) -> u64
    recommends
        ts >= zero,
{
    (((ts - zero) as int) / 1_000_000_000) as u64
}

/// A well-formed series: non-empty, anchored at relative time zero, with a
/// non-decreasing time axis, a non-empty trimmed name, and the start-of-day
/// clock reading agreeing with the zero-time reference.
pub open spec fn lp_wf(lp: LpBuyPoints) -> bool {
    &&& lp.buy_points@.len() >= 1
    &&& lp.buy_points@[0].x_seconds == 0
    &&& forall|i: int, j: int|
        #![trigger lp.buy_points@[i], lp.buy_points@[j]]
        0 <= i <= j < lp.buy_points@.len() ==> lp.buy_points@[i].x_seconds
            <= lp.buy_points@[j].x_seconds
    &&& lp.name@.len() > 0
    &&& lp.name@ == trim_chars(lp.name@)
    &&& lp.global_start_hour == hour_of_ns(lp.zero_time_ref)
    &&& lp.global_start_minute == minute_of_ns(lp.zero_time_ref)
}

/// The process-wide series state: one series per distinct provider name,
/// in order of discovery.
#[derive(Debug, PartialEq, Eq)]
pub struct MarketData {
    pub liquidity_providers: Vec<LpBuyPoints>,
}

/// A well-formed store: every series well-formed, and provider names
/// distinct.
pub open spec fn md_wf(md: MarketData) -> bool {
    &&& forall|i: int|
        0 <= i < md.liquidity_providers@.len() ==> lp_wf(#[trigger] md.liquidity_providers@[i])
    &&& forall|i: int, j: int|
        #![trigger md.liquidity_providers@[i], md.liquidity_providers@[j]]
        0 <= i < j < md.liquidity_providers@.len() ==> md.liquidity_providers@[i].name@
            != md.liquidity_providers@[j].name@
}

/// Whether some series carries `name`.
pub open spec fn has_lp(lps: Seq<LpBuyPoints>, name: Seq<char>) -> bool {
    exists|i: int| 0 <= i < lps.len() && (#[trigger] lps[i]).name@ == name
}

/// The index of the series carrying `name`; unique in a well-formed store.
pub open spec fn lp_index(lps: Seq<LpBuyPoints>, name: Seq<char>) -> int {
    choose|i: int| 0 <= i < lps.len() && (#[trigger] lps[i]).name@ == name
}

/// Whether a quote at `ts` may extend `lp` without moving its time axis
/// backwards: the timestamp must not precede the zero reference, and the
/// elapsed-second offset must not fall below the latest point's.
pub open spec fn should_append(lp: LpBuyPoints, ts: u64) -> bool {
    ts >= lp.zero_time_ref && elapsed_of(ts, lp.zero_time_ref) >= lp.buy_points@.last().x_seconds
}

/// A series freshly anchored by its first quote: one point at relative
/// time zero, and the anchor fields derived from the quote's timestamp.
pub open spec fn fresh_series(lp: LpBuyPoints, provider: Seq<char>, price: Seq<char>, ts: u64) -> bool {
    &&& lp.name@ == provider
    &&& lp.buy_points@.len() == 1
    &&& lp.buy_points@[0].x_seconds == 0
    &&& lp.buy_points@[0].price@ == price
    &&& lp.zero_time_ref == ts
    &&& lp.global_start_hour == hour_of_ns(ts)
    &&& lp.global_start_minute == minute_of_ns(ts)
}

/// `new_lp` is `old_lp` with one point appended for a quote at `ts`; all
/// anchor fields are untouched.
pub open spec fn appended_series(
    old_lp: LpBuyPoints,
    new_lp: LpBuyPoints,
    price: Seq<char>,
    ts: u64,
) -> bool {
    &&& new_lp.name == old_lp.name
    &&& new_lp.zero_time_ref == old_lp.zero_time_ref
    &&& new_lp.global_start_hour == old_lp.global_start_hour
    &&& new_lp.global_start_minute == old_lp.global_start_minute
    &&& new_lp.buy_points@.len() == old_lp.buy_points@.len() + 1
    &&& new_lp.buy_points@.take(old_lp.buy_points@.len() as int) == old_lp.buy_points@
    &&& new_lp.buy_points@.last().x_seconds == elapsed_of(ts, old_lp.zero_time_ref)
    &&& new_lp.buy_points@.last().price@ == price
}

/// How one applied quote changes the store. An unknown provider gains a
/// freshly anchored series at the end, in order of discovery; a known
/// provider gains one appended point when the quote keeps the time axis
/// monotone, and is left unchanged otherwise. Series of other providers
/// are never touched.
pub open spec fn store_transition(
    old_lps: Seq<LpBuyPoints>,
    new_lps: Seq<LpBuyPoints>,
    provider: Seq<char>,
    price: Seq<char>,
    ts: u64,
) -> bool {
    if !has_lp(old_lps, provider) {
        &&& new_lps.len() == old_lps.len() + 1
        &&& new_lps.take(old_lps.len() as int) == old_lps
        &&& fresh_series(new_lps.last(), provider, price, ts)
    } else {
        let i = lp_index(old_lps, provider);
        if should_append(old_lps[i], ts) {
            &&& new_lps.len() == old_lps.len()
            &&& forall|j: int| 0 <= j < old_lps.len() && j != i ==> new_lps[j] == old_lps[j]
            &&& appended_series(old_lps[i], new_lps[i], price, ts)
        } else {
            new_lps == old_lps
        }
    }
}

/// The provider field a well-formed message carries.
pub open spec fn msg_provider(s: Seq<char>) -> Seq<char> {
    trim_chars(split_chars(s)[0])
}

/// The one-million-unit buy price field a well-formed message carries.
pub open spec fn msg_buy_1m(s: Seq<char>) -> Seq<char> {
    trim_chars(split_chars(s)[2])
}

/// The timestamp a well-formed message carries.
pub open spec fn msg_timestamp(s: Seq<char>) -> u64 {
    u64_from_chars(trim_chars(split_chars(s)[8]))->Some_0
}

impl MarketData {
    /// An empty store.
    pub fn new() -> (r: Self)
        ensures
            r.liquidity_providers@.len() == 0,
            md_wf(r),
    {
        Self { liquidity_providers: Vec::new() }
    }

    /// The read-only snapshot of all current series.
    pub fn snapshot(&self) -> (r: &Vec<LpBuyPoints>)
        ensures
            r@ == self.liquidity_providers@,
    {
        &self.liquidity_providers
    }

    /// Applies one validated quote: pure state transition, never fails.
    pub fn apply(&mut self, quote: &Quote)
        requires
            md_wf(*old(self)),
            quote.provider@.len() > 0,
            quote.provider@ == trim_chars(quote.provider@),
        ensures
            md_wf(*final(self)),
            store_transition(
                old(self).liquidity_providers@,
                final(self).liquidity_providers@,
                quote.provider@,
                quote.buy_1m@,
                quote.timestamp_ns,
            ),
    {
        let ghost old_lps = self.liquidity_providers@;
        let n = self.liquidity_providers.len();
        let mut idx: Option<usize> = None;
        let mut j: usize = 0;
        loop
            invariant_except_break
                idx is None,
            invariant
                n == self.liquidity_providers@.len(),
                j <= n,
                self.liquidity_providers@ == old_lps,
                forall|k: int|
                    0 <= k < j ==> (#[trigger] self.liquidity_providers@[k]).name@
                        != quote.provider@,
            ensures
                n == self.liquidity_providers@.len(),
                self.liquidity_providers@ == old_lps,
                match idx {
                    Some(i) => i < n && self.liquidity_providers@[i as int].name@
                        == quote.provider@,
                    None => forall|k: int|
                        0 <= k < n ==> (#[trigger] self.liquidity_providers@[k]).name@
                            != quote.provider@,
                },
            decreases n - j,
        {
            if j < n {
                if self.liquidity_providers[j].name == quote.provider {
                    idx = Some(j);
                    break;
                }
                j = j + 1;
            } else {
                break;
            }
        }
        match idx {
            None => {
                proof {
                    assert(!has_lp(old_lps, quote.provider@));
                }
                let clock = derive_start_clock(quote.timestamp_ns);
                let mut pts: Vec<BuyPoint> = Vec::new();
                pts.push(BuyPoint { x_seconds: 0, price: quote.buy_1m.clone() });
                let lp = LpBuyPoints {
                    name: quote.provider.clone(),
                    buy_points: pts,
                    zero_time_ref: quote.timestamp_ns,
                    global_start_hour: clock.0,
                    global_start_minute: clock.1,
                };
                self.liquidity_providers.push(lp);
                proof {
                    assert(self.liquidity_providers@.take(old_lps.len() as int) =~= old_lps);
                    assert(lp_wf(self.liquidity_providers@.last()));
                    assert(md_wf(*self));
                }
            },
            Some(i) => {
                proof {
                    assert(has_lp(old_lps, quote.provider@));
                    let k = lp_index(old_lps, quote.provider@);
                    if k != i {
                        assert(old_lps[k].name@ == old_lps[i as int].name@);
                        assert(false);
                    }
                    assert(lp_wf(old_lps[i as int]));
                }
                let zero = self.liquidity_providers[i].zero_time_ref;
                let plen = self.liquidity_providers[i].buy_points.len();
                let last_x = self.liquidity_providers[i].buy_points[plen - 1].x_seconds;
                proof {
                    assert(old_lps[i as int].buy_points@.last().x_seconds == last_x);
                }
                if quote.timestamp_ns >= zero {
                    let elapsed = (quote.timestamp_ns - zero) / 1_000_000_000;
                    if elapsed >= last_x {
                        let mut lp = self.liquidity_providers.remove(i);
                        let ghost old_pts = lp.buy_points@;
                        lp.buy_points.push(
                            BuyPoint { x_seconds: elapsed, price: quote.buy_1m.clone() },
                        );
                        proof {
                            assert(lp.buy_points@.take(old_pts.len() as int) =~= old_pts);
                        }
                        self.liquidity_providers.insert(i, lp);
                        proof {
                            let new_lps = self.liquidity_providers@;
                            assert(forall|q: int|
                                0 <= q < old_lps.len() && q != i ==> new_lps[q] == old_lps[q])
                                by {
                                assert(forall|q: int|
                                    0 <= q < old_lps.len() && q != i
                                        ==> old_lps.remove(i as int).insert(i as int, lp)[q]
                                        == old_lps[q]);
                            }
                            assert(appended_series(
                                old_lps[i as int],
                                new_lps[i as int],
                                quote.buy_1m@,
                                quote.timestamp_ns,
                            ));
                            assert(lp_wf(new_lps[i as int])) by {
                                let op = old_lps[i as int].buy_points@;
                                let np = new_lps[i as int].buy_points@;
                                assert(forall|a: int|
                                    0 <= a < op.len() ==> np[a] == #[trigger] op[a]);
                                assert(forall|a: int, b: int|
                                    #![trigger np[a], np[b]]
                                    0 <= a <= b < np.len() ==> np[a].x_seconds
                                        <= np[b].x_seconds) by {
                                    assert(forall|a: int|
                                        0 <= a < op.len() ==> (#[trigger] op[a]).x_seconds
                                            <= op[op.len() - 1].x_seconds);
                                }
                            }
                            assert(md_wf(*self));
                        }
                    }
                }
            },
        }
    }

    /// Parses one raw message and applies it: a failed parse reports the
    /// error and leaves the store exactly as it was; a successful parse is
    /// fully reflected.
    pub fn update(&mut self, market_data: &str) -> (r: Result<(), AppError>)
        requires
            md_wf(*old(self)),
        ensures
            md_wf(*final(self)),
            r is Ok <==> parse_ok(market_data@),
            r matches Err(e) ==> parse_error_spec(market_data@, e) && *final(self) == *old(self),
            r is Ok ==> store_transition(
                old(self).liquidity_providers@,
                final(self).liquidity_providers@,
                msg_provider(market_data@),
                msg_buy_1m(market_data@),
                msg_timestamp(market_data@),
            ),
    {
        match parse_quote(market_data) {
            Ok(q) => {
                proof {
                    crate::text::lemma_trim_idempotent(split_chars(market_data@)[0]);
                }
                self.apply(&q);
                Ok(())
            },
            Err(e) => Err(e),
        }
    }
}

/// Reading the snapshot is a pure function of the store's state: two reads
/// of the same state, with no apply between them, observe equal values.
pub proof fn lemma_snapshot_idempotent(
    md: MarketData,
    r1: Seq<LpBuyPoints>,
    r2: Seq<LpBuyPoints>,
)
    requires
        r1 == md.liquidity_providers@,
        r2 == md.liquidity_providers@,
    ensures
        r1 == r2,
{
}

} // verus!
