//! Per-caller rate limiting of command-emitting requests: a token bucket that
//! refills ten times a second and holds thirty.

use vstd::prelude::*;

verus! {

/// Requests a second that a caller may make in the long run.
pub const RATE_LIMIT_PER_SEC: u64 = 10;

/// Requests that a caller may make at once.
pub const RATE_LIMIT_BURST: u64 = 30;

/// Time in which one token comes back, in nanoseconds.
pub const TOKEN_NS: u64 = 100_000_000;

/// Time in which an empty bucket is full again, in nanoseconds.
pub const FULL_NS: u64 = 3_000_000_000;

/// Callers above which idle buckets are dropped.
pub const MAX_BUCKETS: usize = 4096;

/// A caller's bucket. Credit is measured in the time it takes to come back, so
/// that refilling is exact.
#[derive(Debug, Clone, Copy, PartialEq, Eq, Structural)]
pub struct TokenBucket {
    pub credit_ns: u64,
    pub last_refill_ns: u64,
}

/// Credit at a time: what there was and what came back since, a full bucket at
/// most.
pub open spec fn credit_at(b: TokenBucket, now_ns: u64) -> int {
    let since = if now_ns >= b.last_refill_ns {
        now_ns - b.last_refill_ns
    } else {
        0
    };
    if b.credit_ns + since > FULL_NS {
        FULL_NS as int
    } else {
        b.credit_ns + since
    }
}

/// The bucket after a request.
pub open spec fn spent(b: TokenBucket, now_ns: u64) -> TokenBucket {
    let credit = credit_at(b, now_ns);
    TokenBucket {
        credit_ns: (if credit >= TOKEN_NS {
            credit - TOKEN_NS
        } else {
            credit
        }) as u64,
        last_refill_ns: now_ns,
    }
}

impl TokenBucket {
    /// A full bucket.
    pub fn full(now_ns: u64) -> (b: TokenBucket)
        ensures
            b == (TokenBucket { credit_ns: FULL_NS, last_refill_ns: now_ns }),
    {
        TokenBucket { credit_ns: FULL_NS, last_refill_ns: now_ns }
    }

    /// Takes a token for a request, if there is one.
    pub fn check(&mut self, now_ns: u64) -> (allowed: bool)
        ensures
            allowed == (credit_at(*old(self), now_ns) >= TOKEN_NS),
            *final(self) == spent(*old(self), now_ns),
    {
        let since: u64 = now_ns.saturating_sub(self.last_refill_ns);
        let sum: u64 = self.credit_ns.saturating_add(since);
        let credit: u64 = if sum > FULL_NS {
            FULL_NS
        } else {
            sum
        };
        self.last_refill_ns = now_ns;
        if credit >= TOKEN_NS {
            self.credit_ns = credit - TOKEN_NS;
            true
        } else {
            self.credit_ns = credit;
            false
        }
    }

    /// Whether the bucket has been idle long enough to be full again, so that a
    /// new one would do as well.
    pub fn is_idle(&self, now_ns: u64) -> (r: bool)
        ensures
            r == (now_ns - self.last_refill_ns >= FULL_NS),
    {
        now_ns.saturating_sub(self.last_refill_ns) >= FULL_NS
    }
}

/// Requests that a bucket lets through, of those made at the given times.
pub open spec fn allowed_at(b: TokenBucket, times: Seq<u64>) -> nat
    decreases times.len(),
{
    if times.len() == 0 {
        0
    } else {
        (if credit_at(b, times[0]) >= TOKEN_NS {
            1nat
        } else {
            0
        }) + allowed_at(spent(b, times[0]), times.skip(1))
    }
}

/// Whether times do not go back, from a first one on.
pub open spec fn in_order(from: u64, times: Seq<u64>) -> bool {
    forall|i: int|
        0 <= i < times.len() ==> #[trigger] times[i] >= if i == 0 {
            from
        } else {
            times[i - 1]
        }
}

/// Dropping an idle bucket changes nothing: it decides the next request as a new
/// one would, and is left the same.
pub proof fn idle_buckets_are_full(b: TokenBucket, now_ns: u64)
    requires
        now_ns - b.last_refill_ns >= FULL_NS,
    ensures
        credit_at(b, now_ns) == credit_at(
            TokenBucket { credit_ns: FULL_NS, last_refill_ns: now_ns },
            now_ns,
        ),
        spent(b, now_ns) == spent(
            TokenBucket { credit_ns: FULL_NS, last_refill_ns: now_ns },
            now_ns,
        ),
{
}

/// However requests are timed, no more get through than the bucket held and time
/// gave back: each costs a token's worth of one or the other.
pub proof fn rate_is_bounded(b: TokenBucket, times: Seq<u64>)
    requires
        in_order(b.last_refill_ns, times),
        times.len() > 0,
    ensures
        allowed_at(b, times) * TOKEN_NS <= b.credit_ns + (times.last() - b.last_refill_ns),
    decreases times.len(),
{
    let next = spent(b, times[0]);
    let rest = times.skip(1);
    assert(times[0] >= b.last_refill_ns);
    if rest.len() > 0 {
        assert forall|i: int| 0 <= i < rest.len() implies #[trigger] rest[i] >= if i == 0 {
            next.last_refill_ns
        } else {
            rest[i - 1]
        } by {
            assert(times[i + 1] >= times[i]);
        }
        rate_is_bounded(next, rest);
        assert(rest.last() == times.last());
    } else {
        assert(allowed_at(next, rest) == 0);
    }
}

/// Credit never exceeds thirty requests' worth, comes back by a tenth of a second a
/// request, and never shrinks by waiting.
pub proof fn credit_comes_back_with_time(b: TokenBucket, now_ns: u64, later_ns: u64)
    requires
        b.last_refill_ns <= now_ns <= later_ns,
        b.credit_ns <= 30 * 100_000_000,
    ensures
        credit_at(b, now_ns) <= credit_at(b, later_ns) <= 30 * 100_000_000,
        credit_at(b, later_ns) == 30 * 100_000_000 || credit_at(b, later_ns) == credit_at(b, now_ns)
            + (later_ns - now_ns),
        credit_at(b, b.last_refill_ns) == b.credit_ns,
{
}

/// A request is let through if and only if a tenth of a second of credit is there, which
/// it then costs; a refused one costs nothing.
pub proof fn requests_cost_a_tenth_of_a_second(b: TokenBucket, now_ns: u64)
    requires
        b.credit_ns <= 3_000_000_000,
    ensures
        allowed_at(b, seq![now_ns]) == (if credit_at(b, now_ns) >= 100_000_000 {
            1nat
        } else {
            0
        }),
        spent(b, now_ns).credit_ns == credit_at(b, now_ns) - 100_000_000 * allowed_at(
            b,
            seq![now_ns],
        ),
        spent(b, now_ns).last_refill_ns == now_ns,
{
    reveal_with_fuel(allowed_at, 2);
    assert(seq![now_ns].skip(1) =~= Seq::empty());
}

/// A burst of thirty gets through: a bucket lets through at once as many requests as it
/// has tenths of a second of credit.
pub proof fn bursts_get_through(b: TokenBucket, times: Seq<u64>)
    requires
        in_order(b.last_refill_ns, times),
        b.credit_ns <= 3_000_000_000,
        times.len() * 100_000_000 <= b.credit_ns,
    ensures
        allowed_at(b, times) == times.len(),
    decreases times.len(),
{
    if times.len() > 0 {
        let next = spent(b, times[0]);
        let rest = times.skip(1);
        assert(times[0] >= b.last_refill_ns);
        later_times_are_in_order(b, times);
        bursts_get_through(next, rest);
    }
}

/// Ten requests a second get through for ever: once a request is let through, so is every
/// later one that comes at least a tenth of a second after the one before it.
pub proof fn steady_callers_get_through(b: TokenBucket, times: Seq<u64>)
    requires
        in_order(b.last_refill_ns, times),
        b.credit_ns <= 3_000_000_000,
        times.len() > 0 ==> credit_at(b, times[0]) >= 100_000_000,
        forall|i: int| 0 < i < times.len() ==> #[trigger] times[i] >= times[i - 1] + 100_000_000,
    ensures
        allowed_at(b, times) == times.len(),
    decreases times.len(),
{
    if times.len() > 0 {
        let next = spent(b, times[0]);
        let rest = times.skip(1);
        assert(times[0] >= b.last_refill_ns);
        later_times_are_in_order(b, times);
        assert forall|i: int| 0 < i < rest.len() implies #[trigger] rest[i] >= rest[i - 1]
            + 100_000_000 by {
            assert(times[i + 1] >= times[i + 1 - 1] + 100_000_000);
        }
        if rest.len() > 0 {
            assert(times[1] >= times[1 - 1] + 100_000_000);
        }
        steady_callers_get_through(next, rest);
    }
}

proof fn later_times_are_in_order(b: TokenBucket, times: Seq<u64>)
    requires
        in_order(b.last_refill_ns, times),
        times.len() > 0,
    ensures
        in_order(spent(b, times[0]).last_refill_ns, times.skip(1)),
{
    let next = spent(b, times[0]);
    let rest = times.skip(1);
    assert forall|i: int| 0 <= i < rest.len() implies #[trigger] rest[i] >= if i == 0 {
        next.last_refill_ns
    } else {
        rest[i - 1]
    } by {
        assert(times[i + 1] >= times[i]);
    }
}

/// From a full bucket, no more than thirty and ten for every second get through.
pub proof fn thirty_and_ten_a_second_at_most(start_ns: u64, times: Seq<u64>)
    requires
        in_order(start_ns, times),
        times.len() > 0,
    ensures
        allowed_at(TokenBucket { credit_ns: FULL_NS, last_refill_ns: start_ns }, times)
            * 100_000_000 <= 3_000_000_000 + (times.last() - start_ns),
{
    rate_is_bounded(TokenBucket { credit_ns: FULL_NS, last_refill_ns: start_ns }, times);
}

} // verus!
