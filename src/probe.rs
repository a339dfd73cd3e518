//! The decisions of a probe run. The caller owns the clock, the sockets and
//! the stop flag: it asks the run for its next step, performs the attempt,
//! reports the outcome, and at the end asks for the summary.
use vstd::prelude::*;
use crate::stats::{loss_tenths_of, max_of, min_of, spread_of, sum_of, sum_sq_of};

verus! {

/// Largest attempt number; once every number is used the run ends.
pub const MAX_ATTEMPTS: u32 = 0xffff_ffff;

/// What the caller does next.
#[derive(Clone, Copy, Debug, PartialEq, Eq, Structural)]
pub enum Step {
    /// Make the attempt with this sequence number.
    Attempt(u32),
    /// The run is over.
    Finish,
}

/// How one connection attempt went.
#[derive(Clone, Copy, Debug, PartialEq, Eq, Structural)]
pub enum Outcome {
    /// Connected after this many microseconds.
    Connected(u32),
    /// The connection could not be made.
    Failed,
}

/// Counters and samples of one run.
pub struct ProbeRun {
    pub packets_sent: u32,
    pub packets_received: u32,
    /// Latencies of the successful attempts in microseconds, in attempt order.
    pub latencies: Vec<u32>,
}

/// What is reported once a run with at least one success is over.
#[derive(Clone, Copy, Debug, PartialEq, Eq, Structural)]
pub struct Summary {
    pub packets_sent: u32,
    pub packets_received: u32,
    /// Packet loss in tenths of a percent, rounded to nearest, ties to even.
    pub loss_tenths: u32,
    pub min_us: u32,
    pub max_us: u32,
    /// Sum of all latencies; the mean is `total_us / packets_received`.
    pub total_us: u64,
    /// `n * sum(x^2) - sum(x)^2` over the latencies; the population standard
    /// deviation is `sqrt(spread) / packets_received`.
    pub spread: u128,
}

/// The step a run takes given how many attempts it made, the attempt limit
/// and whether a stop was requested.
pub open spec fn step_for(sent: u32, count: Option<u32>, stop_requested: bool) -> Step {
    if stop_requested {
        Step::Finish
    } else if count matches Some(c) && sent >= c {
        Step::Finish
    } else if sent == MAX_ATTEMPTS {
        Step::Finish
    } else {
        Step::Attempt(sent)
    }
}

/// Latencies of the successful outcomes, in attempt order.
pub open spec fn successes(outs: Seq<Outcome>) -> Seq<u32>
    decreases outs.len(),
{
    if outs.len() == 0 {
        Seq::empty()
    } else {
        let earlier = successes(outs.drop_last());
        match outs.last() {
            Outcome::Connected(us) => earlier.push(us),
            Outcome::Failed => earlier,
        }
    }
}

/// Never more successes than attempts.
pub proof fn lemma_successes_at_most_attempts(outs: Seq<Outcome>)
    ensures
        successes(outs).len() <= outs.len(),
    decreases outs.len(),
{
    if outs.len() > 0 {
        lemma_successes_at_most_attempts(outs.drop_last());
    }
}

/// Loss rate in tenths of a percent.
pub fn loss_tenths(sent: u32, received: u32) -> (r: u32)
    requires
        0 < sent,
        received <= sent,
    ensures
        r == loss_tenths_of(sent as nat, received as nat),
        r <= 1000,
{
    let scaled: u64 = ((sent - received) as u64) * 1000;
    let q: u64 = scaled / (sent as u64);
    let rem: u64 = scaled % (sent as u64);
    assert(q <= 1000 && (q == 1000 ==> rem == 0)) by (nonlinear_arith)
        requires
            q as int == scaled as int / sent as int,
            rem as int == scaled as int % sent as int,
            scaled <= sent as int * 1000,
            sent > 0,
    ;
    if 2 * rem > sent as u64 || (2 * rem == sent as u64 && q % 2 == 1) {
        (q + 1) as u32
    } else {
        q as u32
    }
}

impl ProbeRun {
    /// Received attempts are exactly the recorded samples, and never exceed
    /// the attempts made.
    pub open spec fn wf(&self) -> bool {
        &&& self.packets_received as nat == self.latencies@.len()
        &&& self.packets_received <= self.packets_sent
    }

    pub fn new() -> (r: ProbeRun)
        ensures
            r.wf(),
            r.packets_sent == 0,
            r.packets_received == 0,
            r.latencies@ == Seq::<u32>::empty(),
    {
        ProbeRun { packets_sent: 0, packets_received: 0, latencies: Vec::new() }
    }

    /// Decides whether to make another attempt, and with which number.
    pub fn next_step(&self, count: Option<u32>, stop_requested: bool) -> (r: Step)
        ensures
            r == step_for(self.packets_sent, count, stop_requested),
    {
        if stop_requested {
            return Step::Finish;
        }
        if let Some(c) = count {
            if self.packets_sent >= c {
                return Step::Finish;
            }
        }
        if self.packets_sent == MAX_ATTEMPTS {
            Step::Finish
        } else {
            Step::Attempt(self.packets_sent)
        }
    }

    /// Records the outcome of the attempt that `next_step` asked for, and
    /// returns its sequence number.
    pub fn record(&mut self, outcome: Outcome) -> (seq: u32)
        requires
            old(self).wf(),
            old(self).packets_sent < MAX_ATTEMPTS,
        ensures
            final(self).wf(),
            seq == old(self).packets_sent,
            final(self).packets_sent == old(self).packets_sent + 1,
            match outcome {
                Outcome::Connected(us) => {
                    &&& final(self).packets_received == old(self).packets_received + 1
                    &&& final(self).latencies@ == old(self).latencies@.push(us)
                },
                Outcome::Failed => {
                    &&& final(self).packets_received == old(self).packets_received
                    &&& final(self).latencies@ == old(self).latencies@
                },
            },
    {
        let seq = self.packets_sent;
        self.packets_sent = seq + 1;
        if let Outcome::Connected(us) = outcome {
            self.packets_received = self.packets_received + 1;
            self.latencies.push(us);
        }
        seq
    }

    /// Records the outcomes of consecutive attempts, in order. Whatever the
    /// outcomes, one attempt is counted for each, the received count is the
    /// number of samples, and the samples grow by exactly the latencies of
    /// the successes, in order.
    pub fn record_all(&mut self, outcomes: &Vec<Outcome>)
        requires
            old(self).wf(),
            old(self).packets_sent + outcomes.len() <= MAX_ATTEMPTS,
        ensures
            final(self).wf(),
            final(self).packets_sent == old(self).packets_sent + outcomes.len(),
            final(self).latencies@ == old(self).latencies@ + successes(outcomes@),
            final(self).packets_received == old(self).packets_received + successes(
                outcomes@,
            ).len(),
            final(self).packets_received <= final(self).packets_sent,
    {
        let n = outcomes.len();
        let mut i: usize = 0;
        assert(outcomes@.subrange(0, 0) =~= Seq::<Outcome>::empty());
        assert(old(self).latencies@ + Seq::<u32>::empty() =~= old(self).latencies@);
        while i < n
            invariant
                self.wf(),
                i <= n,
                n == outcomes.len(),
                old(self).packets_sent + n <= MAX_ATTEMPTS,
                self.packets_sent == old(self).packets_sent + i,
                self.latencies@ == old(self).latencies@ + successes(outcomes@.subrange(0, i as int)),
                self.packets_received == old(self).packets_received + successes(
                    outcomes@.subrange(0, i as int),
                ).len(),
            decreases n - i,
        {
            let ghost done = outcomes@.subrange(0, i as int);
            let ghost next = outcomes@.subrange(0, i as int + 1);
            let o = outcomes[i];
            self.record(o);
            proof {
                assert(next.drop_last() =~= done);
                assert(next.last() == o);
                if let Outcome::Connected(us) = o {
                    assert(old(self).latencies@ + successes(done).push(us) =~= (
                    old(self).latencies@ + successes(done)).push(us));
                }
            }
            i = i + 1;
        }
        assert(outcomes@.subrange(0, n as int) =~= outcomes@);
    }

    /// The statistics of the run, or `None` when no attempt succeeded.
    pub fn summarize(&self) -> (r: Option<Summary>)
        requires
            self.wf(),
        ensures
            r is None <==> self.latencies@.len() == 0,
            r matches Some(s) ==> {
                &&& s.packets_sent == self.packets_sent
                &&& s.packets_received == self.packets_received
                &&& s.loss_tenths == loss_tenths_of(
                    self.packets_sent as nat,
                    self.packets_received as nat,
                )
                &&& s.min_us == min_of(self.latencies@)
                &&& s.max_us == max_of(self.latencies@)
                &&& s.total_us == sum_of(self.latencies@)
                &&& s.spread == spread_of(self.latencies@)
            },
    {
        let n = self.latencies.len();
        if n == 0 {
            return None;
        }
        let ghost lat = self.latencies@;
        let first = self.latencies[0];
        let mut lo: u32 = first;
        let mut hi: u32 = first;
        let mut total: u64 = first as u64;
        assert((first as int) * (first as int) <= 0xffff_ffffu128 * 0xffff_ffffu128) by (nonlinear_arith)
            requires
                0 <= first <= 0xffff_ffffu32,
        ;
        let mut squares: u128 = (first as u128) * (first as u128);
        let mut i: usize = 1;
        proof {
            let p = lat.subrange(0, 1);
            assert(p.drop_last() =~= Seq::<u32>::empty());
            assert(sum_of(p.drop_last()) == 0 && sum_sq_of(p.drop_last()) == 0);
        }
        while i < n
            invariant
                1 <= i <= n,
                n == lat.len(),
                lat == self.latencies@,
                n <= MAX_ATTEMPTS,
                lo == min_of(lat.subrange(0, i as int)),
                hi == max_of(lat.subrange(0, i as int)),
                total == sum_of(lat.subrange(0, i as int)),
                squares == sum_sq_of(lat.subrange(0, i as int)),
                total <= i * 0xffff_ffffu64,
                squares <= i * (0xffff_ffffu128 * 0xffff_ffffu128),
            decreases n - i,
        {
            let x = self.latencies[i];
            let ghost p = lat.subrange(0, i as int + 1);
            assert(p.drop_last() =~= lat.subrange(0, i as int));
            assert(p.last() == x);
            assert((x as int) * (x as int) <= 0xffff_ffffu128 * 0xffff_ffffu128) by (nonlinear_arith)
                requires
                    0 <= x <= 0xffff_ffffu32,
            ;
            if x < lo {
                lo = x;
            }
            if x > hi {
                hi = x;
            }
            total = total + x as u64;
            squares = squares + (x as u128) * (x as u128);
            i = i + 1;
        }
        assert(lat.subrange(0, n as int) =~= lat);
        let nn: u128 = n as u128;
        let m: u128 = total as u128;
        proof {
            crate::stats::lemma_spread_zero_iff_constant(lat);
            assert(nn * squares <= 0xffff_ffffu128 * (0xffff_ffffu128 * (0xffff_ffffu128
                * 0xffff_ffffu128))) by (nonlinear_arith)
                requires
                    nn <= 0xffff_ffffu128,
                    squares <= nn * (0xffff_ffffu128 * 0xffff_ffffu128),
            ;
            assert(m * m <= nn * squares) by {
                assert(spread_of(lat) == nn * squares - m * m);
            }
        }
        let spread: u128 = nn * squares - m * m;
        Some(
            Summary {
                packets_sent: self.packets_sent,
                packets_received: self.packets_received,
                loss_tenths: loss_tenths(self.packets_sent, self.packets_received),
                min_us: lo,
                max_us: hi,
                total_us: total,
                spread,
            },
        )
    }
}

} // verus!
