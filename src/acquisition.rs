//! The acquisition state: the working buffer with its carry-over, the rows
//! emitted so far and the stall monitor. The surrounding loop asks how many
//! codes to read, reads them, and hands them to `step`, which says which
//! rows to append and whether to go on.
use vstd::prelude::*;
use crate::monitor::{next_stalls, next_verdict, StallMonitor, StallPolicy, Verdict};
use crate::grid::{array_cells, code_at, grid_holds, put_code_at, zeros, ScanGrid};
use crate::reassembly::{carried_codes, emitted_codes, reassemble};

verus! {

/// Why an acquisition could not be set up.
#[derive(Clone, Copy, Debug, PartialEq, Eq, Structural)]
pub enum SetupError {
    /// The channel list is empty.
    EmptyChannelList,
    /// The working buffer was asked to hold no scan.
    ZeroBufferDepth,
    /// The working buffer's size does not fit in memory addresses.
    BufferTooLarge,
}

/// What one tick produced: rows to append at `first_row`, and the verdict.
pub struct Tick {
    /// Index in the output table of the first emitted row.
    pub first_row: u64,
    /// The emitted rows, concatenated, `row_count` times the scan width codes.
    pub rows: Vec<u32>,
    /// How many complete rows were emitted.
    pub row_count: usize,
    /// The monitor's verdict after this tick.
    pub verdict: Verdict,
}

/// Rows that a sequence of ticks emitted, in all.
pub open spec fn rows_written(ticks: Seq<Tick>) -> nat
    decreases ticks.len(),
{
    if ticks.len() == 0 {
        0
    } else {
        rows_written(ticks.drop_last()) + ticks.last().row_count as nat
    }
}

/// A tick appends its rows right after the rows emitted before it, towards
/// the same target.
pub open spec fn appends(before: Acquisition, t: Tick, after: Acquisition) -> bool {
    &&& t.first_row == before.total
    &&& after.total == before.total + t.row_count
    &&& after.target == before.target
}

/// Tick by tick, the emitted row count equals the rows written so far.
proof fn lemma_total_is_sum(states: Seq<Acquisition>, ticks: Seq<Tick>, k: int)
    requires
        states.len() == ticks.len() + 1,
        forall|i: int| 0 <= i < ticks.len() ==> appends(states[i], #[trigger] ticks[i], states[i + 1]),
        0 <= k < states.len(),
    ensures
        states[k].total == states[0].total + rows_written(ticks.take(k)),
    decreases k,
{
    if k > 0 {
        lemma_total_is_sum(states, ticks, k - 1);
        assert(ticks.take(k).drop_last() =~= ticks.take(k - 1));
        assert(appends(states[k - 1], ticks[k - 1], states[k]));
    } else {
        assert(ticks.take(0).len() == 0);
    }
}

/// The emitted row count never decreases from one tick to a later one.
proof fn lemma_total_grows(states: Seq<Acquisition>, ticks: Seq<Tick>, i: int, j: int)
    requires
        states.len() == ticks.len() + 1,
        forall|x: int| 0 <= x < ticks.len() ==> appends(states[x], #[trigger] ticks[x], states[x + 1]),
        0 <= i <= j < states.len(),
    ensures
        states[i].total <= states[j].total,
    decreases j - i,
{
    if i < j {
        lemma_total_grows(states, ticks, i, j - 1);
        assert(appends(states[j - 1], ticks[j - 1], states[j]));
    }
}

/// Every state of a run of ticks aims at the first state's target.
proof fn lemma_same_target(states: Seq<Acquisition>, ticks: Seq<Tick>, k: int)
    requires
        states.len() == ticks.len() + 1,
        forall|i: int| 0 <= i < ticks.len() ==> appends(states[i], #[trigger] ticks[i], states[i + 1]),
        0 <= k < states.len(),
    ensures
        states[k].target == states[0].target,
    decreases k,
{
    if k > 0 {
        lemma_same_target(states, ticks, k - 1);
        assert(appends(states[k - 1], ticks[k - 1], states[k]));
    }
}

/// Over any run of ticks of a well-formed acquisition, such as the states
/// and ticks of successive calls of `step`: the first tick writes from the
/// initial row count on, each tick writes the rows right after the previous
/// tick's, so no row index is written twice; the emitted row count never
/// decreases, never exceeds the target, and equals the rows written so far.
pub proof fn lemma_monotonic_append(states: Seq<Acquisition>, ticks: Seq<Tick>)
    requires
        states.len() == ticks.len() + 1,
        forall|i: int| 0 <= i < states.len() ==> (#[trigger] states[i]).wf(),
        forall|i: int| 0 <= i < ticks.len() ==> appends(states[i], #[trigger] ticks[i], states[i + 1]),
    ensures
        ticks.len() > 0 ==> ticks[0].first_row == states[0].total,
        forall|i: int|
            0 <= i < ticks.len() - 1 ==> #[trigger] ticks[i + 1].first_row == ticks[i].first_row
                + ticks[i].row_count,
        forall|i: int| 0 <= i < states.len() ==> #[trigger] states[i].total <= states[0].target,
        forall|i: int, j: int|
            0 <= i <= j < states.len() ==> #[trigger] states[i].total <= #[trigger] states[j].total,
        forall|i: int|
            0 <= i < states.len() ==> #[trigger] states[i].total == states[0].total + rows_written(
                ticks.take(i),
            ),
        forall|i: int, j: int|
            0 <= i < j < ticks.len() ==> #[trigger] ticks[i].first_row + ticks[i].row_count
                <= #[trigger] ticks[j].first_row,
{
    assert forall|i: int, j: int| 0 <= i <= j < states.len() implies #[trigger] states[i].total
        <= #[trigger] states[j].total by {
        lemma_total_grows(states, ticks, i, j);
    }
    assert forall|i: int| 0 <= i < ticks.len() - 1 implies #[trigger] ticks[i + 1].first_row
        == ticks[i].first_row + ticks[i].row_count by {
        assert(appends(states[i], ticks[i], states[i + 1]));
        assert(appends(states[i + 1], ticks[i + 1], states[i + 2]));
    }
    assert forall|i: int| 0 <= i < states.len() implies #[trigger] states[i].total
        <= states[0].target by {
        lemma_same_target(states, ticks, i);
        assert(states[i].wf());
    }
    if ticks.len() > 0 {
        assert(appends(states[0], ticks[0], states[1]));
    }
    assert forall|i: int| 0 <= i < states.len() implies #[trigger] states[i].total
        == states[0].total + rows_written(ticks.take(i)) by {
        lemma_total_is_sum(states, ticks, i);
    }
    assert forall|i: int, j: int| 0 <= i < j < ticks.len() implies #[trigger] ticks[i].first_row
        + ticks[i].row_count <= #[trigger] ticks[j].first_row by {
        lemma_total_grows(states, ticks, i + 1, j);
        assert(appends(states[i], ticks[i], states[i + 1]));
        assert(appends(states[j], ticks[j], states[j + 1]));
    }
}

/// State of one acquisition.
pub struct Acquisition {
    /// Scan width: the number of channels in the channel list.
    pub width: usize,
    /// Working buffer capacity, in whole scans.
    pub depth: usize,
    /// Rows to collect.
    pub target: u64,
    /// The working buffer, `depth` rows of `width` codes; its first
    /// `leftover` codes in row-major order are the carry-over.
    pub buffer: ScanGrid,
    /// Codes of the incomplete scan held at the buffer's front.
    pub leftover: usize,
    /// Rows emitted so far.
    pub total: u64,
    pub monitor: StallMonitor,
    /// The verdict of the last tick.
    pub verdict: Verdict,
}

impl Acquisition {
    pub open spec fn wf(&self) -> bool {
        &&& self.width >= 1
        &&& self.depth >= 1
        &&& grid_holds(self.buffer, self.depth as nat, self.width as nat)
        &&& self.leftover < self.width
        &&& self.total <= self.target
        &&& self.total * self.width + self.leftover <= self.target * self.width
        &&& self.monitor.wf()
    }

    /// The carry-over fits in the buffer with room for one more code at least.
    proof fn lemma_carry_fits(&self)
        requires
            self.wf(),
        ensures
            self.leftover < self.width <= array_cells(self.buffer).len(),
            array_cells(self.buffer).len() == self.depth * self.width,
            array_cells(self.buffer).len() == self.width * self.depth,
    {
        assert(self.width <= self.width * self.depth) by (nonlinear_arith)
            requires
                self.depth >= 1,
        ;
        assert(self.width * self.depth == self.depth * self.width) by (nonlinear_arith);
    }

    /// The carried-over codes of the incomplete scan.
    pub open spec fn carry(&self) -> Seq<u32> {
        array_cells(self.buffer).subrange(0, self.leftover as int)
    }

    /// Codes to read on the next tick: what the buffer has room for, and no
    /// more than the rows still missing take.
    pub open spec fn request_len(&self) -> nat {
        if self.total >= self.target {
            0
        } else {
            let room = self.width * self.depth - self.leftover;
            let missing = (self.target - self.total) * self.width - self.leftover;
            if room <= missing {
                room as nat
            } else {
                missing as nat
            }
        }
    }

    /// Sets up an acquisition of `target` rows over `width` channels, with a
    /// working buffer of `depth` scans.
    pub fn new(width: usize, depth: usize, target: u64, policy: StallPolicy) -> (r: Result<
        Acquisition,
        SetupError,
    >)
        ensures
            width == 0 ==> r == Err::<Acquisition, SetupError>(SetupError::EmptyChannelList),
            width > 0 && depth == 0 ==> r == Err::<Acquisition, SetupError>(
                SetupError::ZeroBufferDepth,
            ),
            width > 0 && depth > 0 && width * depth * 4 > isize::MAX ==> r == Err::<
                Acquisition,
                SetupError,
            >(SetupError::BufferTooLarge),
            width > 0 && depth > 0 && width * depth * 4 <= isize::MAX ==> r is Ok,
            r matches Ok(a) ==> {
                &&& a.wf()
                &&& a.width == width
                &&& a.depth == depth
                &&& a.target == target
                &&& a.leftover == 0
                &&& a.total == 0
                &&& a.monitor.policy == policy
                &&& a.monitor.stalls == 0
                &&& a.verdict == Verdict::Running
            },
    {
        if width == 0 {
            return Err(SetupError::EmptyChannelList);
        }
        if depth == 0 {
            return Err(SetupError::ZeroBufferDepth);
        }
        let cap: usize = match width.checked_mul(depth) {
            Some(c) => c,
            None => {
                return Err(SetupError::BufferTooLarge);
            },
        };
        if cap > (isize::MAX as usize) / 4 {
            return Err(SetupError::BufferTooLarge);
        }
        proof {
            assert(depth * width == width * depth) by (nonlinear_arith);
        }
        let buffer = zeros(depth, width);
        proof {
            assert(0 * width <= target * width) by (nonlinear_arith);
        }
        Ok(
            Acquisition {
                width,
                depth,
                target,
                buffer,
                leftover: 0,
                total: 0,
                monitor: StallMonitor::new(policy),
                verdict: Verdict::Running,
            },
        )
    }

    /// The carried-over codes of the incomplete scan.
    pub fn carry_codes(&self) -> (r: Vec<u32>)
        requires
            self.wf(),
        ensures
            r@ == self.carry(),
    {
        proof {
            self.lemma_carry_fits();
        }
        let mut r: Vec<u32> = Vec::new();
        let mut i: usize = 0;
        while i < self.leftover
            invariant
                self.wf(),
                i <= self.leftover < array_cells(self.buffer).len(),
                r@ == self.carry().subrange(0, i as int),
            decreases self.leftover - i,
        {
            r.push(code_at(&self.buffer, self.width, i));
            i = i + 1;
            assert(r@ =~= self.carry().subrange(0, i as int));
        }
        assert(r@ =~= self.carry());
        r
    }

    /// How many codes the next read may bring at most.
    pub fn read_request(&self) -> (r: usize)
        requires
            self.wf(),
        ensures
            r == self.request_len(),
            r + self.leftover <= array_cells(self.buffer).len(),
    {
        proof {
            self.lemma_carry_fits();
        }
        if self.total >= self.target {
            return 0;
        }
        let remaining: u64 = self.target - self.total;
        if remaining >= self.depth as u64 {
            proof {
                assert(self.depth * self.width <= remaining * self.width) by (nonlinear_arith)
                    requires
                        self.depth <= remaining,
                ;
                assert(remaining * self.width == self.target * self.width - self.total
                    * self.width) by (nonlinear_arith)
                    requires
                        remaining == self.target - self.total,
                ;
            }
            self.width * self.depth - self.leftover
        } else {
            proof {
                assert(remaining * self.width < self.depth * self.width) by (nonlinear_arith)
                    requires
                        remaining < self.depth,
                        self.width >= 1,
                ;
                assert(remaining * self.width == self.target * self.width - self.total
                    * self.width) by (nonlinear_arith)
                    requires
                        remaining == self.target - self.total,
                ;
                assert(remaining * self.width >= self.width) by (nonlinear_arith)
                    requires
                        remaining >= 1,
                ;
            }
            let rows_left: usize = remaining as usize;
            proof {
                assert(self.depth * self.width == self.width * self.depth) by (nonlinear_arith);
            }
            rows_left * self.width - self.leftover
        }
    }

    /// Runs one tick on the `fresh` codes just read: reassembles complete
    /// scans after the carry-over, advances the emitted row count and
    /// evaluates the stall monitor. `stream_ended` tells whether the device
    /// reported the end of its stream. A fatal verdict is final: no tick
    /// follows it.
    pub fn step(&mut self, fresh: &Vec<u32>, stream_ended: bool) -> (t: Tick)
        requires
            old(self).wf(),
            !(old(self).verdict is Fatal),
            fresh.len() <= old(self).request_len(),
        ensures
            final(self).wf(),
            final(self).width == old(self).width,
            final(self).depth == old(self).depth,
            final(self).target == old(self).target,
            final(self).monitor.policy == old(self).monitor.policy,
            appends(*old(self), t, *final(self)),
            t.first_row == old(self).total,
            t.row_count == (old(self).leftover + fresh.len()) / (old(self).width as int),
            t.rows@ == emitted_codes(old(self).carry(), fresh@, old(self).width as nat),
            t.rows@.len() == t.row_count * old(self).width,
            final(self).total == old(self).total + t.row_count,
            final(self).leftover == (old(self).leftover + fresh.len()) % (old(self).width as int),
            final(self).carry() == carried_codes(old(self).carry(), fresh@, old(self).width as nat),
            t.verdict == next_verdict(
                old(self).monitor.policy,
                old(self).monitor.stalls as nat,
                fresh.len() as nat,
                final(self).total as nat,
                old(self).target as nat,
                stream_ended,
            ),
            final(self).monitor.stalls as nat == next_stalls(
                old(self).monitor.policy,
                old(self).monitor.stalls as nat,
                fresh.len() as nat,
                final(self).total as nat,
                old(self).target as nat,
                stream_ended,
            ),
            final(self).verdict == t.verdict,
    {
        let ghost carry0 = self.carry();
        let ghost b0 = array_cells(self.buffer);
        let ghost s0 = *self;
        let l: usize = self.leftover;
        let w: usize = self.width;
        let n_fresh: usize = fresh.len();
        proof {
            if self.total < self.target {
                assert((self.target - self.total) * self.width == self.target * self.width
                    - self.total * self.width) by (nonlinear_arith);
            }
        }
        proof {
            self.lemma_carry_fits();
        }
        assert(n_fresh <= array_cells(self.buffer).len() - l);
        let mut k: usize = 0;
        while k < n_fresh
            invariant
                n_fresh == fresh.len(),
                self.width == s0.width,
                self.depth == s0.depth,
                self.target == s0.target,
                self.leftover == s0.leftover,
                self.total == s0.total,
                self.monitor == s0.monitor,
                self.verdict == s0.verdict,
                w == self.width,
                w >= 1,
                grid_holds(self.buffer, self.depth as nat, self.width as nat),
                l + n_fresh <= array_cells(self.buffer).len(),
                array_cells(self.buffer).len() == b0.len(),
                k <= n_fresh,
                forall|x: int| 0 <= x < l ==> array_cells(self.buffer)[x] == b0[x],
                forall|x: int| 0 <= x < k ==> array_cells(self.buffer)[l + x] == fresh@[x],
            decreases n_fresh - k,
        {
            put_code_at(&mut self.buffer, w, l + k, fresh[k]);
            k = k + 1;
        }
        let ghost b1 = array_cells(self.buffer);
        assert(b1.subrange(0, (l + n_fresh) as int) =~= carry0 + fresh@);
        let re = reassemble(&mut self.buffer, l, n_fresh, w);
        let ghost n = (l + n_fresh) as nat;
        let ghost cut = re.complete_scans * w;
        proof {
            vstd::arithmetic::div_mod::lemma_fundamental_div_mod(n as int, w as int);
            assert(re.complete_scans * w == w * re.complete_scans) by (nonlinear_arith);
            assert(re.rows@ =~= emitted_codes(carry0, fresh@, w as nat));
            assert(array_cells(self.buffer).subrange(0, re.leftover as int) =~= carried_codes(
                carry0,
                fresh@,
                w as nat,
            ));
            assert(self.total * w + n <= self.target * w);
            assert((self.total + re.complete_scans) * w == self.total * w + re.complete_scans * w)
                by (nonlinear_arith);
            assert(self.total + re.complete_scans <= self.target) by (nonlinear_arith)
                requires
                    (self.total + re.complete_scans) * w <= self.target * w,
                    w >= 1,
            ;
        }
        self.leftover = re.leftover;
        self.total = self.total + re.complete_scans as u64;
        let verdict = self.monitor.observe(n_fresh, self.total, self.target, stream_ended);
        self.verdict = verdict;
        Tick { first_row: self.total - re.complete_scans as u64, rows: re.rows, row_count: re.complete_scans, verdict }
    }
}

} // verus!
