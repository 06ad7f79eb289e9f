//! When Router Advertisements go out (RFC 4861 §6.2.4 – §6.2.6): the bounds
//! on the advertisement interval, the spacing of unsolicited multicasts, the
//! initial burst, and the random delay of solicited answers. Times are in
//! milliseconds on a monotonic clock.

use vstd::prelude::*;
use rand::rngs::SmallRng;
use rand::Rng;

verus! {

/// Unsolicited advertisements after a configuration change whose interval is
/// capped.
pub const MAX_INITIAL_RTR_ADVERTISEMENTS: u8 = 3;

/// The cap on the interval during the initial burst.
pub const MAX_INITIAL_RTR_ADVERT_INTERVAL_MS: u64 = 16_000;

/// Advertisements sent when the router stops.
pub const MAX_FINAL_RTR_ADVERTISEMENTS: u8 = 3;

/// The longest random delay before answering a solicitation, exclusive.
pub const MAX_RA_DELAY_TIME_MS: u64 = 500;

/// The shortest spacing of two multicast advertisements.
pub const MIN_DELAY_BETWEEN_RAS_MS: u64 = 3_000;

/// The longest spacing of two multicast advertisements.
pub const MAX_DELAY_BETWEEN_RAS_MS: u64 = 1_800_000;

/// The lifetime of the advertised DNS servers, in seconds.
pub const DNS_LIFETIME_SECS: u32 = 3600;

/// The bounds of the random interval between unsolicited advertisements.
#[derive(Clone, Copy, Debug, PartialEq, Eq, Structural)]
pub struct RtrAdvIntervals {
    pub min_ms: u64,
    pub max_ms: u64,
}

/// MaxRtrAdvInterval in seconds, clamped to [4, 1800].
pub open spec fn clamped_max_secs(max_cfg: u64) -> u64 {
    if max_cfg < 4 {
        4
    } else if max_cfg > 1800 {
        1800
    } else {
        max_cfg
    }
}

/// MinRtrAdvInterval in milliseconds: zero selects the default, a third of
/// the maximum where the maximum is at least 9 s and the maximum itself
/// otherwise; any other value is clamped to [3 s, 0.75 × maximum].
pub open spec fn clamped_min_ms(min_cfg: u64, max_ms: u64) -> int {
    if min_cfg == 0 {
        if max_ms >= 9000 {
            max_ms as int / 3
        } else {
            max_ms as int
        }
    } else if min_cfg < 3 {
        3000
    } else if min_cfg * 1000 > max_ms * 3 / 4 {
        max_ms * 3 / 4
    } else {
        min_cfg * 1000
    }
}

impl RtrAdvIntervals {
    /// Both bounds lie within what RFC 4861 §6.2.1 allows.
    pub open spec fn wf(&self) -> bool {
        &&& MIN_DELAY_BETWEEN_RAS_MS <= self.min_ms <= self.max_ms
        &&& self.max_ms <= MAX_DELAY_BETWEEN_RAS_MS
    }

    /// The interval bounds for configured values in seconds.
    pub open spec fn spec_from_config(min_cfg: u64, max_cfg: u64) -> RtrAdvIntervals {
        let max_ms = (clamped_max_secs(max_cfg) * 1000) as u64;
        RtrAdvIntervals { min_ms: clamped_min_ms(min_cfg, max_ms) as u64, max_ms }
    }

    /// The interval bounds for configured values in seconds.
    pub fn from_config(min_cfg: u64, max_cfg: u64) -> (r: RtrAdvIntervals)
        ensures
            r.max_ms == clamped_max_secs(max_cfg) * 1000,
            r.min_ms == clamped_min_ms(min_cfg, r.max_ms),
            r == Self::spec_from_config(min_cfg, max_cfg),
            r.wf(),
    {
        let max_secs: u64 = if max_cfg < 4 {
            4
        } else if max_cfg > 1800 {
            1800
        } else {
            max_cfg
        };
        let max_ms = max_secs * 1000;
        let bound = max_ms * 3 / 4;
        let min_ms = if min_cfg == 0 {
            if max_ms >= 9000 {
                max_ms / 3
            } else {
                max_ms
            }
        } else if min_cfg < 3 {
            3000
        } else if min_cfg > 1800 || min_cfg * 1000 > bound {
            bound
        } else {
            min_cfg * 1000
        };
        RtrAdvIntervals { min_ms, max_ms }
    }

    /// The router lifetime to advertise, in seconds: three times the
    /// maximum interval, at most 65535.
    pub open spec fn spec_router_lifetime(&self) -> u16 {
        if 3 * (self.max_ms / 1000) > 65535 {
            65535
        } else {
            (3 * (self.max_ms / 1000)) as u16
        }
    }

    /// The router lifetime to advertise, in seconds: three times the
    /// maximum interval, at most 65535.
    pub fn router_lifetime(&self) -> (r: u16)
        ensures
            r == self.spec_router_lifetime(),
    {
        let secs = self.max_ms / 1000;
        if secs > 21845 {
            65535
        } else {
            (3 * secs) as u16
        }
    }
}

/// After clamping, 3 s ≤ MinRtrAdvInterval ≤ 0.75 × MaxRtrAdvInterval ≤
/// MaxRtrAdvInterval ≤ 1800 s, except where a zero minimum selects the
/// maximum itself, for a maximum under 9 s.
pub proof fn lemma_interval_bounds(min_cfg: u64, max_cfg: u64)
    requires
        !(min_cfg == 0 && clamped_max_secs(max_cfg) < 9),
    ensures
        ({
            let max_ms = clamped_max_secs(max_cfg) * 1000;
            let min_ms = clamped_min_ms(min_cfg, max_ms as u64);
            &&& 3000 <= min_ms
            &&& min_ms * 4 <= max_ms * 3
            &&& max_ms <= 1_800_000
        }),
{
}

/// What to do with a Router Solicitation.
#[derive(Clone, Copy, Debug, PartialEq, Eq, Structural)]
pub enum SolicitAction {
    /// Nothing: the next multicast advertisement comes first.
    Discard,
    /// Nothing now: the next multicast advertisement was moved to answer it.
    Deferred,
    /// Answer with a unicast advertisement at the given time.
    Unicast(u64),
}

/// The state of the advertisement schedule: when the last multicast went
/// out, when the next is due, and how many of the initial burst were sent.
#[derive(Clone, Copy, Debug, PartialEq, Eq, Structural)]
pub struct RaScheduler {
    pub last_multicast_ms: u64,
    pub next_multicast_ms: u64,
    pub initial_ras_sent: u8,
    pub intervals: RtrAdvIntervals,
}

pub open spec fn sat_add(a: u64, b: u64) -> u64 {
    if a + b > u64::MAX {
        u64::MAX
    } else {
        (a + b) as u64
    }
}

pub open spec fn sat_sub(a: u64, b: u64) -> u64 {
    if a > b {
        (a - b) as u64
    } else {
        0
    }
}

/// The interval to the next multicast for a drawn value: capped during the
/// initial burst.
pub open spec fn interval_for(s: RaScheduler, drawn: u64) -> u64 {
    if s.initial_ras_sent < MAX_INITIAL_RTR_ADVERTISEMENTS && drawn
        > MAX_INITIAL_RTR_ADVERT_INTERVAL_MS {
        MAX_INITIAL_RTR_ADVERT_INTERVAL_MS
    } else {
        drawn
    }
}

/// The schedule after a multicast advertisement went out at its due time.
pub open spec fn after_multicast(s: RaScheduler, drawn: u64) -> RaScheduler {
    RaScheduler {
        last_multicast_ms: s.next_multicast_ms,
        next_multicast_ms: sat_add(s.next_multicast_ms, interval_for(s, drawn)),
        initial_ras_sent: if s.initial_ras_sent < MAX_INITIAL_RTR_ADVERTISEMENTS {
            (s.initial_ras_sent + 1) as u8
        } else {
            s.initial_ras_sent
        },
        intervals: s.intervals,
    }
}

/// The schedule and the action for a solicitation received at `now`, with a
/// drawn delay; `unspecified` tells whether its source address is `::`.
pub open spec fn on_solicit(s: RaScheduler, now: u64, delay: u64, unspecified: bool) -> (
    RaScheduler,
    SolicitAction,
) {
    let fire = sat_add(now, delay);
    if fire > s.next_multicast_ms {
        (s, SolicitAction::Discard)
    } else if unspecified {
        let wait = sat_sub(MIN_DELAY_BETWEEN_RAS_MS, sat_sub(now, s.last_multicast_ms));
        (
            RaScheduler {
                next_multicast_ms: sat_add(s.next_multicast_ms, sat_add(wait, delay)),
                ..s
            },
            SolicitAction::Deferred,
        )
    } else {
        (s, SolicitAction::Unicast(fire))
    }
}

/// The schedule after the configuration changed at `now`: a multicast is
/// due at once and the initial burst starts again.
pub open spec fn on_new_config(s: RaScheduler, now: u64) -> RaScheduler {
    RaScheduler { next_multicast_ms: now, initial_ras_sent: 0, ..s }
}

/// rand's small fast generator, carried through to `draw_between`.
#[verifier::external_type_specification]
#[verifier::external_body]
pub struct ExSmallRng(SmallRng);

/// Relies on rand's `Rng::gen_range` over an inclusive range: a value
/// within the range, which must not be empty.
#[verifier::external_body]
fn draw_between(rng: &mut SmallRng, low: u64, high: u64) -> (r: u64)
    requires
        low <= high,
    ensures
        low <= r <= high,
{
    rng.gen_range(low..=high)
}

impl RaScheduler {
    pub open spec fn wf(&self) -> bool {
        self.intervals.wf()
    }

    /// A schedule whose first multicast is due at `now`.
    pub fn new(intervals: RtrAdvIntervals, now: u64) -> (r: RaScheduler)
        ensures
            r == (RaScheduler {
                last_multicast_ms: now,
                next_multicast_ms: now,
                initial_ras_sent: 0,
                intervals,
            }),
    {
        RaScheduler { last_multicast_ms: now, next_multicast_ms: now, initial_ras_sent: 0, intervals }
    }

    /// Records that the due multicast went out, with `drawn` as the random
    /// interval to the next.
    pub fn multicast_sent(&mut self, drawn: u64)
        ensures
            *final(self) == after_multicast(*old(self), drawn),
    {
        let interval = if self.initial_ras_sent < MAX_INITIAL_RTR_ADVERTISEMENTS && drawn
            > MAX_INITIAL_RTR_ADVERT_INTERVAL_MS {
            MAX_INITIAL_RTR_ADVERT_INTERVAL_MS
        } else {
            drawn
        };
        if self.initial_ras_sent < MAX_INITIAL_RTR_ADVERTISEMENTS {
            self.initial_ras_sent = self.initial_ras_sent + 1;
        }
        self.last_multicast_ms = self.next_multicast_ms;
        self.next_multicast_ms = self.next_multicast_ms.saturating_add(interval);
    }

    /// Records that the due multicast went out, drawing the interval to the
    /// next uniformly from the configured bounds.
    pub fn schedule_next(&mut self, rng: &mut SmallRng)
        requires
            old(self).wf(),
        ensures
            exists|drawn: u64|
                old(self).intervals.min_ms <= drawn <= old(self).intervals.max_ms && *final(self)
                    == after_multicast(*old(self), drawn),
    {
        let drawn = draw_between(rng, self.intervals.min_ms, self.intervals.max_ms);
        self.multicast_sent(drawn);
    }

    /// Handles a solicitation received at `now` with the drawn `delay`.
    pub fn solicited(&mut self, now: u64, delay: u64, unspecified: bool) -> (r: SolicitAction)
        ensures
            (*final(self), r) == on_solicit(*old(self), now, delay, unspecified),
    {
        let fire = now.saturating_add(delay);
        if fire > self.next_multicast_ms {
            SolicitAction::Discard
        } else if unspecified {
            let wait = MIN_DELAY_BETWEEN_RAS_MS.saturating_sub(now.saturating_sub(self.last_multicast_ms));
            self.next_multicast_ms = self.next_multicast_ms.saturating_add(wait.saturating_add(delay));
            SolicitAction::Deferred
        } else {
            SolicitAction::Unicast(fire)
        }
    }

    /// Handles a solicitation received at `now`, drawing its delay
    /// uniformly below `MAX_RA_DELAY_TIME_MS`.
    pub fn solicit(&mut self, rng: &mut SmallRng, now: u64, unspecified: bool) -> (r: SolicitAction)
        ensures
            exists|delay: u64|
                delay < MAX_RA_DELAY_TIME_MS && (*final(self), r) == on_solicit(
                    *old(self),
                    now,
                    delay,
                    unspecified,
                ),
    {
        let delay = draw_between(rng, 0, MAX_RA_DELAY_TIME_MS - 1);
        self.solicited(now, delay, unspecified)
    }

    /// Handles a change of the configuration at `now`.
    pub fn new_config(&mut self, now: u64)
        ensures
            *final(self) == on_new_config(*old(self), now),
    {
        self.next_multicast_ms = now;
        self.initial_ras_sent = 0;
    }
}

/// The schedule after a run of solicitations, each given as the time it was
/// received, its drawn delay and whether its source was `::`.
pub open spec fn after_solicits(s: RaScheduler, events: Seq<(u64, u64, bool)>) -> RaScheduler
    decreases events.len(),
{
    if events.len() == 0 {
        s
    } else {
        let e = events.last();
        on_solicit(after_solicits(s, events.drop_last()), e.0, e.1, e.2).0
    }
}

proof fn lemma_solicits_monotone(s: RaScheduler, events: Seq<(u64, u64, bool)>)
    ensures
        after_solicits(s, events).last_multicast_ms == s.last_multicast_ms,
        after_solicits(s, events).next_multicast_ms >= s.next_multicast_ms,
        after_solicits(s, events).intervals == s.intervals,
        (forall|i: int| 0 <= i < events.len() ==> !(#[trigger] events[i]).2) ==> after_solicits(
            s,
            events,
        ).next_multicast_ms == s.next_multicast_ms,
    decreases events.len(),
{
    if events.len() > 0 {
        let init = events.drop_last();
        assert forall|i: int| 0 <= i < init.len() implies init[i] == events[i] by {}
        lemma_solicits_monotone(s, init);
    }
}

/// Two consecutive multicast advertisements, the second due after a run of
/// solicitations with no change of configuration in between, are at least
/// `MIN_DELAY_BETWEEN_RAS_MS` apart; and at most `MAX_DELAY_BETWEEN_RAS_MS`
/// where no solicitation from `::` moved the second one.
pub proof fn lemma_rate_limit(s: RaScheduler, drawn: u64, events: Seq<(u64, u64, bool)>)
    requires
        s.wf(),
        s.intervals.min_ms <= drawn <= s.intervals.max_ms,
        s.next_multicast_ms + MAX_DELAY_BETWEEN_RAS_MS <= u64::MAX,
    ensures
        ({
            let t1 = after_multicast(s, drawn).last_multicast_ms;
            let t2 = after_solicits(after_multicast(s, drawn), events).next_multicast_ms;
            &&& t1 == s.next_multicast_ms
            &&& t2 - t1 >= MIN_DELAY_BETWEEN_RAS_MS
            &&& (forall|i: int| 0 <= i < events.len() ==> !(#[trigger] events[i]).2) ==> t2 - t1
                <= MAX_DELAY_BETWEEN_RAS_MS
        }),
{
    lemma_solicits_monotone(after_multicast(s, drawn), events);
}

/// After a change of configuration, the first `MAX_INITIAL_RTR_ADVERTISEMENTS`
/// multicasts are each followed by the next within
/// `MAX_INITIAL_RTR_ADVERT_INTERVAL_MS`.
pub proof fn lemma_initial_burst(s: RaScheduler, now: u64, d1: u64, d2: u64, d3: u64)
    requires
        now + 3 * MAX_INITIAL_RTR_ADVERT_INTERVAL_MS <= u64::MAX,
    ensures
        ({
            let s0 = on_new_config(s, now);
            let s1 = after_multicast(s0, d1);
            let s2 = after_multicast(s1, d2);
            let s3 = after_multicast(s2, d3);
            &&& s1.last_multicast_ms == now
            &&& s1.next_multicast_ms - s1.last_multicast_ms <= MAX_INITIAL_RTR_ADVERT_INTERVAL_MS
            &&& s2.next_multicast_ms - s2.last_multicast_ms <= MAX_INITIAL_RTR_ADVERT_INTERVAL_MS
            &&& s3.next_multicast_ms - s3.last_multicast_ms <= MAX_INITIAL_RTR_ADVERT_INTERVAL_MS
        }),
{
}

/// An answer to a solicitation from a source other than `::` goes out
/// within `MAX_RA_DELAY_TIME_MS` of its reception, or not at all because a
/// multicast comes first.
pub proof fn lemma_solicited_delay_bound(s: RaScheduler, now: u64, delay: u64)
    requires
        delay < MAX_RA_DELAY_TIME_MS,
        now + MAX_RA_DELAY_TIME_MS <= u64::MAX,
    ensures
        ({
            let (s2, action) = on_solicit(s, now, delay, false);
            &&& s2 == s
            &&& action matches SolicitAction::Unicast(at) ==> now <= at < now
                + MAX_RA_DELAY_TIME_MS
            &&& action is Unicast || (action is Discard && now + delay > s.next_multicast_ms)
        }),
{
}

/// With a maximum interval of 1800 s and a zero minimum, which selects 600 s,
/// each multicast after the initial burst is followed by the next between
/// 600 s and 1800 s later.
pub proof fn lemma_default_interval_gaps(s: RaScheduler, drawn: u64)
    requires
        s.intervals == RtrAdvIntervals::spec_from_config(0, 1800),
        s.initial_ras_sent >= MAX_INITIAL_RTR_ADVERTISEMENTS,
        s.intervals.min_ms <= drawn <= s.intervals.max_ms,
        s.next_multicast_ms + MAX_DELAY_BETWEEN_RAS_MS <= u64::MAX,
    ensures
        s.intervals.min_ms == 600_000,
        s.intervals.max_ms == 1_800_000,
        ({
            let s1 = after_multicast(s, drawn);
            &&& s1.last_multicast_ms == s.next_multicast_ms
            &&& 600_000 <= s1.next_multicast_ms - s1.last_multicast_ms <= 1_800_000
        }),
{
}

} // verus!
