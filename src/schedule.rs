use vstd::prelude::*;
use crate::layout::ConfigError;

verus! {

/// What a training run asks its driver to do next.
#[derive(Debug, Clone, Copy, PartialEq, Eq, Structural)]
pub enum Step {
    /// One gradient step over the samples `start..end`.
    Batch { start: usize, end: usize },
    /// The end of epoch `epoch`; `report` says whether the cost is to be reported.
    EndEpoch { epoch: usize, report: bool },
    /// All epochs are done.
    Finished,
}

/// The state of a run: how many epochs, over how many samples, in batches of
/// what size, and where it stands (the current epoch, the first sample of the
/// next batch).
pub struct RunState {
    pub epochs: nat,
    pub len: nat,
    pub batch_size: nat,
    pub epoch: nat,
    pub point: nat,
}

impl RunState {
    pub open spec fn wf(self) -> bool {
        &&& self.batch_size > 0
        &&& self.point <= self.len
        &&& self.epoch <= self.epochs
    }

    /// A run before its first step.
    pub open spec fn start(epochs: nat, len: nat, batch_size: nat) -> RunState {
        RunState { epochs, len, batch_size, epoch: 0, point: 0 }
    }
}

/// The cost is reported every `epochs / 10` epochs.
pub open spec fn report_interval(epochs: nat) -> nat {
    epochs / 10
}

/// Whether the end of `epoch` is reported: never when the interval is zero,
/// else at each multiple of the interval.
pub open spec fn reports_at(epochs: nat, epoch: nat) -> bool {
    report_interval(epochs) > 0 && epoch % report_interval(epochs) == 0
}

/// The end of the batch that starts at `point`: `batch_size` samples on, or
/// the end of the data, whichever comes first.
pub open spec fn window_end(len: nat, batch_size: nat, point: nat) -> nat {
    if point + batch_size <= len {
        point + batch_size
    } else {
        len
    }
}

/// One transition of a run. Within an epoch the data is cut into consecutive
/// batches of `batch_size` samples, the last one possibly shorter; no empty
/// batch is ever handed out, even when the data length is a multiple of the
/// batch size. After the last batch the epoch ends, and after the last epoch the
/// run stays finished.
pub open spec fn advance(s: RunState) -> (RunState, Step) {
    if s.epoch >= s.epochs {
        (s, Step::Finished)
    } else if s.point < s.len {
        let end = window_end(s.len, s.batch_size, s.point);
        (
            RunState { point: end, ..s },
            Step::Batch { start: s.point as usize, end: end as usize },
        )
    } else {
        (
            RunState { epoch: s.epoch + 1, point: 0, ..s },
            Step::EndEpoch { epoch: s.epoch as usize, report: reports_at(s.epochs, s.epoch) },
        )
    }
}

/// The training loop's decisions: which samples go into each gradient step,
/// and when an epoch ends and is reported.
pub struct TrainingRun {
    epochs: usize,
    len: usize,
    batch_size: usize,
    epoch: usize,
    point: usize,
}

impl View for TrainingRun {
    type V = RunState;

    closed spec fn view(&self) -> RunState {
        RunState {
            epochs: self.epochs as nat,
            len: self.len as nat,
            batch_size: self.batch_size as nat,
            epoch: self.epoch as nat,
            point: self.point as nat,
        }
    }
}

/// Whether the end of `epoch` in a run of `epochs` epochs is reported.
pub fn reports_after(epochs: usize, epoch: usize) -> (r: bool)
    ensures
        r == reports_at(epochs as nat, epoch as nat),
{
    let interval: usize = epochs / 10;
    interval > 0 && epoch % interval == 0
}

impl TrainingRun {
    /// A run of `epochs` epochs over `len` samples in batches of `batch_size`;
    /// refused when the batch size is zero.
    pub fn new(epochs: usize, len: usize, batch_size: usize) -> (r: Result<TrainingRun, ConfigError>)
        ensures
            batch_size == 0 ==> r == Err::<TrainingRun, ConfigError>(ConfigError::NoBatchSize),
            batch_size > 0 ==> r is Ok && r->Ok_0@ == RunState::start(
                epochs as nat,
                len as nat,
                batch_size as nat,
            ) && r->Ok_0@.wf(),
    {
        if batch_size == 0 {
            Err(ConfigError::NoBatchSize)
        } else {
            Ok(TrainingRun { epochs, len, batch_size, epoch: 0, point: 0 })
        }
    }

    /// The next thing to do, and the run moved past it.
    pub fn next(&mut self) -> (r: Step)
        requires
            old(self)@.wf(),
        ensures
            final(self)@.wf(),
            (final(self)@, r) == advance(old(self)@),
    {
        if self.epoch >= self.epochs {
            Step::Finished
        } else if self.point < self.len {
            let start = self.point;
            let end = if self.batch_size <= self.len - self.point {
                self.point + self.batch_size
            } else {
                self.len
            };
            self.point = end;
            Step::Batch { start, end }
        } else {
            let epoch = self.epoch;
            let report = reports_after(self.epochs, epoch);
            self.epoch = epoch + 1;
            self.point = 0;
            Step::EndEpoch { epoch, report }
        }
    }
}

/// A run of zero epochs is finished from its first step, asks for no update,
/// and stepping it leaves it as it was.
pub proof fn lemma_zero_epochs_no_update(len: nat, batch_size: nat)
    ensures
        advance(RunState::start(0, len, batch_size)) == (
            RunState::start(0, len, batch_size),
            Step::Finished,
        ),
{
}

/// When the batch size is at least the number of samples and there is at least
/// one sample, each epoch makes exactly one gradient step, over all the data,
/// and then ends.
pub proof fn lemma_large_batch_single_update(s: RunState)
    requires
        s.wf(),
        s.epoch < s.epochs,
        s.point == 0,
        0 < s.len <= s.batch_size,
    ensures
        advance(s).1 == (Step::Batch { start: 0, end: s.len as usize }),
        advance(advance(s).0).1 == (Step::EndEpoch {
            epoch: s.epoch as usize,
            report: reports_at(s.epochs, s.epoch),
        }),
        advance(advance(s).0).0 == (RunState { epoch: s.epoch + 1, ..s }),
{
}

/// The steps of `k` transitions from `s`, in order.
pub open spec fn steps(s: RunState, k: nat) -> Seq<Step>
    decreases k,
{
    if k == 0 {
        Seq::empty()
    } else {
        seq![advance(s).1] + steps(advance(s).0, (k - 1) as nat)
    }
}

/// The state after `k` transitions from `s`.
pub open spec fn state_after(s: RunState, k: nat) -> RunState
    decreases k,
{
    if k == 0 {
        s
    } else {
        state_after(advance(s).0, (k - 1) as nat)
    }
}

/// The number of batches in one epoch: `len / batch_size`, rounded up.
pub open spec fn batch_count(len: nat, batch_size: nat) -> nat {
    ((len + batch_size - 1) as nat) / batch_size
}

/// Batch `j` of an epoch: from `j * batch_size` to the end of its window.
pub open spec fn batch_step(len: nat, batch_size: nat, j: nat) -> Step {
    Step::Batch {
        start: (j * batch_size) as usize,
        end: window_end(len, batch_size, j * batch_size) as usize,
    }
}

/// Where a run stands after `j` batches of an epoch.
pub open spec fn point_after(len: nat, batch_size: nat, j: nat) -> nat {
    if j * batch_size < len {
        j * batch_size
    } else {
        len
    }
}

proof fn lemma_batch_count(len: nat, batch_size: nat, j: nat)
    requires
        batch_size > 0,
    ensures
        (j * batch_size < len) == (j < batch_count(len, batch_size)),
{
    let x = (len + batch_size - 1) as int;
    let c = batch_count(len, batch_size) as int;
    let b = batch_size as int;
    vstd::arithmetic::div_mod::lemma_fundamental_div_mod(x, b);
    vstd::arithmetic::div_mod::lemma_mod_pos_bound(x, b);
    assert(c == x / b);
    let r = x % b;
    assert(x == b * c + r);
    let ji = j as int;
    if ji < c {
        assert(ji * b + b <= c * b) by (nonlinear_arith)
            requires
                ji + 1 <= c,
                b > 0,
        ;
        assert(j * batch_size < len) by (nonlinear_arith)
            requires
                ji * b + b <= c * b,
                x == b * c + r,
                0 <= r,
                x == len + b - 1,
                ji == j,
                b == batch_size,
        ;
    } else {
        assert(ji * b >= c * b) by (nonlinear_arith)
            requires
                ji >= c,
                b > 0,
        ;
        assert(j * batch_size >= len) by (nonlinear_arith)
            requires
                ji * b >= c * b,
                x == b * c + r,
                r < b,
                x == len + b - 1,
                ji == j,
                b == batch_size,
        ;
    }
}

proof fn lemma_epoch_from(s: RunState, j: nat)
    requires
        s.wf(),
        s.epoch < s.epochs,
        j <= batch_count(s.len, s.batch_size),
        s.point == point_after(s.len, s.batch_size, j),
    ensures
        ({
            let c = batch_count(s.len, s.batch_size);
            let m = (c - j + 1) as nat;
            &&& steps(s, m).len() == m
            &&& forall|k: nat|
                k < c - j ==> #[trigger] steps(s, m)[k as int] == batch_step(
                    s.len,
                    s.batch_size,
                    j + k,
                )
            &&& steps(s, m)[c - j] == (Step::EndEpoch {
                epoch: s.epoch as usize,
                report: reports_at(s.epochs, s.epoch),
            })
            &&& state_after(s, m) == (RunState { epoch: s.epoch + 1, point: 0, ..s })
        }),
    decreases batch_count(s.len, s.batch_size) - j,
{
    let c = batch_count(s.len, s.batch_size);
    let bs = s.batch_size;
    lemma_batch_count(s.len, bs, j);
    if j == c {
        assert(s.point == s.len);
        assert(steps(advance(s).0, 0) =~= Seq::<Step>::empty());
        assert(steps(s, 1) =~= seq![advance(s).1]);
        assert(state_after(s, 1) == state_after(advance(s).0, 0));
    } else {
        let m = (c - j + 1) as nat;
        let n = advance(s).0;
        assert((j + 1) * bs == j * bs + bs) by (nonlinear_arith);
        lemma_batch_count(s.len, bs, j + 1);
        assert(n.point == point_after(s.len, bs, j + 1));
        lemma_epoch_from(n, j + 1);
        assert(advance(s).1 == batch_step(s.len, bs, j));
        assert(steps(s, m) == seq![advance(s).1] + steps(n, (m - 1) as nat));
        assert forall|k: nat| k < c - j implies #[trigger] steps(s, m)[k as int] == batch_step(
            s.len,
            bs,
            j + k,
        ) by {
            if k > 0 {
                assert(steps(s, m)[k as int] == steps(n, (m - 1) as nat)[(k - 1) as int]);
                assert(j + 1 + (k - 1) as nat == j + k);
            }
        }
        assert(steps(s, m)[c - j] == steps(n, (m - 1) as nat)[c - (j + 1)]);
        assert(state_after(s, m) == state_after(n, (m - 1) as nat));
    }
}

/// Every epoch hands out `batch_count(len, batch_size)` batches and then ends:
/// batch `j` covers the samples from `j * batch_size` to the end of its window,
/// so the batches are consecutive, none of them is empty, each holds at most
/// `batch_size` samples, and together they cover the data exactly once.
pub proof fn lemma_epoch_batches(s: RunState)
    requires
        s.wf(),
        s.epoch < s.epochs,
        s.point == 0,
    ensures
        ({
            let c = batch_count(s.len, s.batch_size);
            &&& steps(s, c + 1).len() == c + 1
            &&& forall|j: nat|
                j < c ==> #[trigger] steps(s, c + 1)[j as int] == batch_step(
                    s.len,
                    s.batch_size,
                    j,
                )
            &&& forall|j: nat| j < c ==> #[trigger] (j * s.batch_size) < s.len
            &&& c > 0 ==> window_end(s.len, s.batch_size, ((c - 1) as nat) * s.batch_size) == s.len
            &&& steps(s, c + 1)[c as int] == (Step::EndEpoch {
                epoch: s.epoch as usize,
                report: reports_at(s.epochs, s.epoch),
            })
            &&& state_after(s, c + 1) == (RunState { epoch: s.epoch + 1, point: 0, ..s })
        }),
{
    let c = batch_count(s.len, s.batch_size);
    let bs = s.batch_size;
    assert(0 * bs == 0);
    lemma_epoch_from(s, 0);
    assert forall|j: nat| j < c implies #[trigger] (j * s.batch_size) < s.len by {
        lemma_batch_count(s.len, bs, j);
    }
    if c > 0 {
        let l = (c - 1) as nat;
        lemma_batch_count(s.len, bs, c);
        assert(l * bs + bs == c * bs) by (nonlinear_arith)
            requires
                l + 1 == c,
        ;
    }
}

} // verus!
