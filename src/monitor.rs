//! The stall/completion monitor: decides after every tick whether the
//! acquisition goes on, waits out a stall, is complete, or must abort.
use vstd::prelude::*;

verus! {

/// How many consecutive empty reads are tolerated before target is reached.
#[derive(Clone, Copy, Debug, PartialEq, Eq, Structural)]
pub enum StallPolicy {
    /// Any empty read before target is reached is fatal.
    Strict,
    /// Up to the given number of consecutive empty reads are waited out.
    Tolerant(u32),
}

/// Why an acquisition was aborted.
#[derive(Clone, Copy, Debug, PartialEq, Eq, Structural)]
pub enum AbortReason {
    /// More consecutive empty reads than the policy tolerates.
    StallExceeded,
    /// The device ended its stream before the target row count was reached.
    PrematureCompletion,
}

/// The monitor's state after a tick.
#[derive(Clone, Copy, Debug, PartialEq, Eq, Structural)]
pub enum Verdict {
    Running,
    StallWait,
    Complete,
    Fatal(AbortReason),
}

/// Consecutive empty reads that `policy` waits out.
pub open spec fn stall_budget(policy: StallPolicy) -> nat {
    match policy {
        StallPolicy::Strict => 0,
        StallPolicy::Tolerant(k) => k as nat,
    }
}

/// The verdict on a tick that read `codes_read` codes, with `stalls`
/// consecutive empty reads before it and `total` of `target` rows emitted
/// after it.
pub open spec fn next_verdict(
    policy: StallPolicy,
    stalls: nat,
    codes_read: nat,
    total: nat,
    target: nat,
    stream_ended: bool,
) -> Verdict {
    if total >= target {
        Verdict::Complete
    } else if stream_ended {
        Verdict::Fatal(AbortReason::PrematureCompletion)
    } else if codes_read > 0 {
        Verdict::Running
    } else if stalls >= stall_budget(policy) {
        Verdict::Fatal(AbortReason::StallExceeded)
    } else {
        Verdict::StallWait
    }
}

/// The count of consecutive empty reads after such a tick.
pub open spec fn next_stalls(
    policy: StallPolicy,
    stalls: nat,
    codes_read: nat,
    total: nat,
    target: nat,
    stream_ended: bool,
) -> nat {
    if total >= target || codes_read > 0 {
        0
    } else if stream_ended || stalls >= stall_budget(policy) {
        stalls
    } else {
        stalls + 1
    }
}

/// Verdict and stall count after `n` empty ticks, none of which reaches the
/// target, starting from `stalls`; a fatal verdict is final.
pub open spec fn after_empty_reads(
    policy: StallPolicy,
    stalls: nat,
    n: nat,
    total: nat,
    target: nat,
) -> (Verdict, nat)
    decreases n,
{
    if n == 0 {
        (Verdict::Running, stalls)
    } else {
        let prev = after_empty_reads(policy, stalls, (n - 1) as nat, total, target);
        if n > 1 && prev.0 is Fatal {
            prev
        } else {
            (
                next_verdict(policy, prev.1, 0, total, target, false),
                next_stalls(policy, prev.1, 0, total, target, false),
            )
        }
    }
}

/// Tracks consecutive empty reads under a stall policy.
pub struct StallMonitor {
    pub policy: StallPolicy,
    pub stalls: u32,
}

impl StallMonitor {
    /// The stall count never exceeds the policy's budget.
    pub open spec fn wf(&self) -> bool {
        self.stalls as nat <= stall_budget(self.policy)
    }

    /// A monitor that has seen no empty read yet.
    pub fn new(policy: StallPolicy) -> (r: StallMonitor)
        ensures
            r.wf(),
            r.policy == policy,
            r.stalls == 0,
    {
        StallMonitor { policy, stalls: 0 }
    }

    /// Evaluates one tick: `codes_read` codes were read, `total` of `target`
    /// rows have been emitted, and `stream_ended` tells whether the device
    /// reported the end of its stream.
    pub fn observe(&mut self, codes_read: usize, total: u64, target: u64, stream_ended: bool) -> (v:
        Verdict)
        requires
            old(self).wf(),
        ensures
            final(self).wf(),
            final(self).policy == old(self).policy,
            v == next_verdict(
                old(self).policy,
                old(self).stalls as nat,
                codes_read as nat,
                total as nat,
                target as nat,
                stream_ended,
            ),
            final(self).stalls as nat == next_stalls(
                old(self).policy,
                old(self).stalls as nat,
                codes_read as nat,
                total as nat,
                target as nat,
                stream_ended,
            ),
    {
        let budget: u32 = match self.policy {
            StallPolicy::Strict => 0,
            StallPolicy::Tolerant(k) => k,
        };
        if total >= target {
            self.stalls = 0;
            Verdict::Complete
        } else if stream_ended {
            if codes_read > 0 {
                self.stalls = 0;
            }
            Verdict::Fatal(AbortReason::PrematureCompletion)
        } else if codes_read > 0 {
            self.stalls = 0;
            Verdict::Running
        } else if self.stalls >= budget {
            Verdict::Fatal(AbortReason::StallExceeded)
        } else {
            self.stalls = self.stalls + 1;
            Verdict::StallWait
        }
    }
}

/// Under the strict policy one empty read before target is reached is fatal.
pub proof fn lemma_strict_first_empty_read_fatal(
    stalls: nat,
    total: nat,
    target: nat,
    stream_ended: bool,
)
    requires
        total < target,
    ensures
        next_verdict(StallPolicy::Strict, stalls, 0, total, target, stream_ended) is Fatal,
        after_empty_reads(StallPolicy::Strict, 0, 1, total, target).0 == Verdict::Fatal(
            AbortReason::StallExceeded,
        ),
{
    assert(after_empty_reads(StallPolicy::Strict, 0, 0, total, target).1 == 0);
}

/// Under a policy tolerating `k` stalls, the first `k` consecutive empty
/// reads before target is reached leave the monitor waiting with that many
/// stalls counted.
pub proof fn lemma_tolerant_waits(k: u32, n: nat, total: nat, target: nat)
    requires
        total < target,
        1 <= n <= k,
    ensures
        after_empty_reads(StallPolicy::Tolerant(k), 0, n, total, target) == (Verdict::StallWait, n),
    decreases n,
{
    if n > 1 {
        lemma_tolerant_waits(k, (n - 1) as nat, total, target);
    } else {
        assert(after_empty_reads(StallPolicy::Tolerant(k), 0, 0, total, target).1 == 0);
    }
}

/// Under a policy tolerating `k` stalls, the empty read after `k`
/// consecutive ones before target is reached is fatal.
pub proof fn lemma_tolerant_fatal(k: u32, total: nat, target: nat)
    requires
        total < target,
    ensures
        after_empty_reads(StallPolicy::Tolerant(k), 0, k as nat + 1, total, target).0
            == Verdict::Fatal(AbortReason::StallExceeded),
{
    if k >= 1 {
        lemma_tolerant_waits(k, k as nat, total, target);
    } else {
        assert(after_empty_reads(StallPolicy::Tolerant(k), 0, 0, total, target).1 == 0);
    }
}

/// A read that brings codes before target is reached, with the stream still
/// open, keeps the acquisition running and resets the stall count.
pub proof fn lemma_read_resets_stalls(policy: StallPolicy, stalls: nat, codes_read: nat, total: nat, target: nat)
    requires
        codes_read > 0,
        total < target,
    ensures
        next_verdict(policy, stalls, codes_read, total, target, false) == Verdict::Running,
        next_stalls(policy, stalls, codes_read, total, target, false) == 0,
{
}

} // verus!
