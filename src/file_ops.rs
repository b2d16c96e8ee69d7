//! The copy executor. The caller performs each copy and hands back its
//! outcome; the run decides whether to go on, and aggregates the result.
use vstd::prelude::*;
use crate::error::{recoverable_error, CpdError};
use crate::text::{decimal, push_decimal, push_str, string_of};

verus! {

/// Settings shared by the file operations of one run.
pub struct FileOperations {
    pub verbose: bool,
}

impl FileOperations {
    pub fn new(verbose: bool) -> (r: FileOperations)
        ensures
            r.verbose == verbose,
    {
        FileOperations { verbose }
    }
}

/// The aggregate of a run: what was copied, and every failure with its path.
#[derive(Debug)]
pub struct CopyResult {
    pub files_copied: usize,
    pub files_failed: usize,
    pub bytes_copied: u64,
    pub failed_files: Vec<(String, CpdError)>,
}

/// The counts of a run so far.
pub struct Tally {
    /// Files attempted.
    pub attempted: nat,
    pub copied: nat,
    pub failed: nat,
    pub bytes: nat,
    /// A fatal failure ended the run.
    pub stopped: bool,
}

pub open spec fn empty_tally() -> Tally {
    Tally { attempted: 0, copied: 0, failed: 0, bytes: 0, stopped: false }
}

/// The bytes of a successful copy are added, saturating at `u64::MAX`.
pub open spec fn add_bytes(total: nat, more: u64) -> nat {
    if total + more > u64::MAX {
        u64::MAX as nat
    } else {
        (total + more) as nat
    }
}

/// Whether a failure ends the run: always in a backup (`strict`), else when
/// it is not recoverable.
pub open spec fn ends_run(strict: bool, e: CpdError) -> bool {
    strict || !recoverable_error(e)
}

/// One file's outcome, the number of bytes copied or the error, applied to
/// the counts.
pub open spec fn step(t: Tally, strict: bool, outcome: Result<u64, CpdError>) -> Tally {
    match outcome {
        Ok(n) => Tally {
            attempted: t.attempted + 1,
            copied: t.copied + 1,
            bytes: add_bytes(t.bytes, n),
            ..t
        },
        Err(e) => Tally {
            attempted: t.attempted + 1,
            failed: t.failed + 1,
            stopped: ends_run(strict, e),
            ..t
        },
    }
}

/// The counts after the outcomes of a run, in order; those after a fatal
/// failure are never attempted.
pub open spec fn tally(strict: bool, outcomes: Seq<Result<u64, CpdError>>) -> Tally
    decreases outcomes.len(),
{
    if outcomes.len() == 0 {
        empty_tally()
    } else {
        let t = tally(strict, outcomes.drop_last());
        if t.stopped {
            t
        } else {
            step(t, strict, outcomes.last())
        }
    }
}

/// What the caller does next.
#[derive(Debug, Clone, Copy, PartialEq, Eq, Structural)]
pub enum Step {
    /// Copy the planned file at this index, then `record` the outcome.
    Copy(usize),
    /// Dry run: touch nothing, then `preview` the planned file at this index.
    Preview(usize),
    /// The run is over: every file was handled, or a failure ended it.
    Done,
}

/// A run over a plan of `total` files.
pub struct CopyRun {
    dry_run: bool,
    strict: bool,
    total: usize,
    result: CopyResult,
    stopped: bool,
    cancelled: bool,
}

pub struct RunView {
    pub dry_run: bool,
    pub strict: bool,
    pub total: nat,
    pub tally: Tally,
    pub failures: Seq<(Seq<char>, CpdError)>,
    /// The caller cancelled the run between two files.
    pub cancelled: bool,
}

impl View for CopyRun {
    type V = RunView;

    closed spec fn view(&self) -> RunView {
        RunView {
            dry_run: self.dry_run,
            strict: self.strict,
            total: self.total as nat,
            tally: Tally {
                attempted: (self.result.files_copied + self.result.files_failed) as nat,
                copied: self.result.files_copied as nat,
                failed: self.result.files_failed as nat,
                bytes: self.result.bytes_copied as nat,
                stopped: self.stopped,
            },
            failures: self.result.failed_files@.map_values(|f: (String, CpdError)| (f.0@, f.1)),
            cancelled: self.cancelled,
        }
    }
}

impl CopyRun {
    pub closed spec fn wf(&self) -> bool {
        &&& self.result.files_copied + self.result.files_failed <= self.total
        &&& self.result.failed_files@.len() == self.result.files_failed
        &&& self.stopped ==> self.result.files_failed > 0
        &&& self.dry_run ==> !self.strict
    }

    /// A deployment run: a recoverable failure is recorded and the run goes
    /// on; any other failure ends it. A dry run copies nothing.
    pub fn new(total: usize, dry_run: bool) -> (r: CopyRun)
        ensures
            r.wf(),
            r@ == (RunView {
                dry_run,
                strict: false,
                total: total as nat,
                tally: empty_tally(),
                failures: Seq::empty(),
                cancelled: false,
            }),
    {
        let r = CopyRun {
            dry_run,
            strict: false,
            total,
            result: CopyResult {
                files_copied: 0,
                files_failed: 0,
                bytes_copied: 0,
                failed_files: Vec::new(),
            },
            stopped: false,
            cancelled: false,
        };
        assert(r@.failures =~= Seq::empty());
        r
    }

    /// A backup run: any failure at all ends it.
    pub fn backup(total: usize) -> (r: CopyRun)
        ensures
            r.wf(),
            r@ == (RunView {
                dry_run: false,
                strict: true,
                total: total as nat,
                tally: empty_tally(),
                failures: Seq::empty(),
                cancelled: false,
            }),
    {
        let r = CopyRun {
            dry_run: false,
            strict: true,
            total,
            result: CopyResult {
                files_copied: 0,
                files_failed: 0,
                bytes_copied: 0,
                failed_files: Vec::new(),
            },
            stopped: false,
            cancelled: false,
        };
        assert(r@.failures =~= Seq::empty());
        r
    }

    /// The next thing to do: nothing once every file was handled or a
    /// failure ended the run; in a dry run never a copy.
    pub fn next_step(&self) -> (s: Step)
        requires
            self.wf(),
        ensures
            s == (if self@.tally.stopped || self@.cancelled || self@.tally.attempted == self@.total {
                Step::Done
            } else if self@.dry_run {
                Step::Preview(self@.tally.attempted as usize)
            } else {
                Step::Copy(self@.tally.attempted as usize)
            }),
    {
        let attempted = self.result.files_copied + self.result.files_failed;
        if self.stopped || self.cancelled || attempted == self.total {
            Step::Done
        } else if self.dry_run {
            Step::Preview(attempted)
        } else {
            Step::Copy(attempted)
        }
    }

    /// Records the outcome of copying the planned file at `path`: the bytes
    /// copied, or the error.
    pub fn record(&mut self, path: String, outcome: Result<u64, CpdError>)
        requires
            old(self).wf(),
            !old(self)@.tally.stopped,
            !old(self)@.cancelled,
            old(self)@.tally.attempted < old(self)@.total,
            !old(self)@.dry_run,
        ensures
            final(self).wf(),
            final(self)@.dry_run == old(self)@.dry_run,
            final(self)@.strict == old(self)@.strict,
            final(self)@.total == old(self)@.total,
            !final(self)@.cancelled,
            final(self)@.tally == step(old(self)@.tally, old(self)@.strict, outcome),
            final(self)@.failures == match outcome {
                Ok(_) => old(self)@.failures,
                Err(e) => old(self)@.failures.push((path@, e)),
            },
    {
        let ghost before = self.result.failed_files@;
        match outcome {
            Ok(n) => {
                self.result.files_copied = self.result.files_copied + 1;
                self.result.bytes_copied = self.result.bytes_copied.saturating_add(n);
            },
            Err(e) => {
                let fatal = self.strict || !e.is_recoverable();
                self.result.files_failed = self.result.files_failed + 1;
                self.result.failed_files.push((path, e));
                self.stopped = fatal;
                assert(self.result.failed_files@.map_values(|f: (String, CpdError)| (f.0@, f.1))
                    =~= before.map_values(|f: (String, CpdError)| (f.0@, f.1)).push((path@, e)));
            },
        }
    }

    /// Dry run: counts the planned file as copied, touching nothing.
    pub fn preview(&mut self)
        requires
            old(self).wf(),
            !old(self)@.tally.stopped,
            !old(self)@.cancelled,
            old(self)@.tally.attempted < old(self)@.total,
            old(self)@.dry_run,
        ensures
            final(self).wf(),
            final(self)@.dry_run == old(self)@.dry_run,
            final(self)@.strict == old(self)@.strict,
            final(self)@.total == old(self)@.total,
            !final(self)@.cancelled,
            final(self)@.tally == step(old(self)@.tally, old(self)@.strict, Ok(0)),
            final(self)@.failures == old(self)@.failures,
    {
        self.result.files_copied = self.result.files_copied + 1;
    }

    /// Cancels the run before its next file; what was copied stays.
    pub fn cancel(&mut self)
        ensures
            final(self)@ == (RunView { cancelled: true, ..old(self)@ }),
            final(self).wf() == old(self).wf(),
    {
        self.cancelled = true;
    }

    /// The counts so far.
    pub fn result(&self) -> (r: &CopyResult)
        ensures
            r.files_copied == self@.tally.copied,
            r.files_failed == self@.tally.failed,
            r.bytes_copied == self@.tally.bytes,
            r.failed_files@.map_values(|f: (String, CpdError)| (f.0@, f.1)) == self@.failures,
    {
        &self.result
    }

    /// The outcome of the run: its result, or the failure that ended it.
    /// A backup that failed ends in `BackupFailed`, carrying the cause.
    pub fn finish(self) -> (r: Result<CopyResult, CpdError>)
        requires
            self.wf(),
        ensures
            r is Ok <==> !self@.tally.stopped && !self@.cancelled,
            r matches Ok(res) ==> res.files_copied == self@.tally.copied && res.files_failed
                == self@.tally.failed && res.bytes_copied == self@.tally.bytes
                && res.failed_files@.map_values(|f: (String, CpdError)| (f.0@, f.1))
                == self@.failures,
            self@.tally.stopped ==> (r matches Err(e) ==> if self@.strict {
                e matches CpdError::BackupFailed { path, cause } && path@ == self@.failures.last().0
                    && *cause == self@.failures.last().1
            } else {
                e == self@.failures.last().1
            }),
            r is Err && !self@.tally.stopped ==> r == Err::<CopyResult, CpdError>(CpdError::Cancelled),
    {
        if !self.stopped {
            if self.cancelled {
                return Err(CpdError::Cancelled);
            }
            return Ok(self.result);
        }
        let strict = self.strict;
        let mut result = self.result;
        let last = result.failed_files.pop();
        match last {
            Some((path, e)) => {
                if strict {
                    Err(CpdError::BackupFailed { path, cause: Box::new(e) })
                } else {
                    Err(e)
                }
            },
            None => Err(CpdError::Cancelled),
        }
    }
}

impl CopyResult {
    pub fn is_success(&self) -> (r: bool)
        ensures
            r == (self.files_failed == 0),
    {
        self.files_failed == 0
    }
}

proof fn lemma_all_succeed(strict: bool, outcomes: Seq<Result<u64, CpdError>>)
    requires
        forall|k: int| 0 <= k < outcomes.len() ==> #[trigger] outcomes[k] is Ok,
    ensures
        tally(strict, outcomes).copied == outcomes.len(),
        tally(strict, outcomes).attempted == outcomes.len(),
        tally(strict, outcomes).failed == 0,
        !tally(strict, outcomes).stopped,
    decreases outcomes.len(),
{
    if outcomes.len() > 0 {
        let init = outcomes.drop_last();
        assert forall|k: int| 0 <= k < init.len() implies #[trigger] init[k] is Ok by {
            assert(init[k] == outcomes[k]);
        }
        lemma_all_succeed(strict, init);
        assert(outcomes[outcomes.len() - 1] is Ok);
    }
}

/// A dry run over a plan counts every file as copied, as a real run over
/// the same plan in which every copy succeeds does.
pub proof fn lemma_dry_run_counts_as_real(outcomes: Seq<Result<u64, CpdError>>)
    requires
        forall|k: int| 0 <= k < outcomes.len() ==> #[trigger] outcomes[k] is Ok,
    ensures
        tally(false, Seq::new(outcomes.len(), |k: int| Ok::<u64, CpdError>(0))).copied == tally(
            false,
            outcomes,
        ).copied == outcomes.len(),
        !tally(false, Seq::new(outcomes.len(), |k: int| Ok::<u64, CpdError>(0))).stopped,
{
    lemma_all_succeed(false, outcomes);
    lemma_all_succeed(false, Seq::new(outcomes.len(), |k: int| Ok::<u64, CpdError>(0)));
}

proof fn lemma_one_recoverable_prefix(outcomes: Seq<Result<u64, CpdError>>, j: int, m: int)
    requires
        0 <= j < outcomes.len(),
        0 <= m <= outcomes.len(),
        outcomes[j] matches Err(e) && recoverable_error(e),
        forall|k: int| 0 <= k < outcomes.len() && k != j ==> #[trigger] outcomes[k] is Ok,
    ensures
        tally(false, outcomes.take(m)).attempted == m,
        tally(false, outcomes.take(m)).failed == (if m > j {
            1int
        } else {
            0int
        }),
        tally(false, outcomes.take(m)).copied == (if m > j {
            m - 1
        } else {
            m
        }),
        !tally(false, outcomes.take(m)).stopped,
    decreases m,
{
    if m > 0 {
        lemma_one_recoverable_prefix(outcomes, j, m - 1);
        assert(outcomes.take(m).drop_last() =~= outcomes.take(m - 1));
        assert(outcomes.take(m).last() == outcomes[m - 1]);
    }
}

/// Failure containment: when exactly one of the planned files fails, with
/// a recoverable error, and the others succeed, the run attempts every
/// file, counts one failure and the rest as copied, and is not ended.
pub proof fn lemma_one_recoverable_failure(outcomes: Seq<Result<u64, CpdError>>, j: int)
    requires
        0 <= j < outcomes.len(),
        outcomes[j] matches Err(e) && recoverable_error(e),
        forall|k: int| 0 <= k < outcomes.len() && k != j ==> #[trigger] outcomes[k] is Ok,
    ensures
        tally(false, outcomes).attempted == outcomes.len(),
        tally(false, outcomes).failed == 1,
        tally(false, outcomes).copied == outcomes.len() - 1,
        !tally(false, outcomes).stopped,
{
    lemma_one_recoverable_prefix(outcomes, j, outcomes.len() as int);
    assert(outcomes.take(outcomes.len() as int) =~= outcomes);
}

/// The least integer that needs 54 bits: above it a `u64` does not fit an
/// `f64` mantissa.
pub const MANTISSA_LIMIT: u128 = 0x20000000000000;

/// The weight of the last mantissa bit of `c * unit` as an `f64`: the unit
/// doubles while the scaled value still needs more than 53 bits.
pub open spec fn mantissa_unit(c: nat, unit: nat) -> nat
    decreases c,
{
    if c < MANTISSA_LIMIT || c < 2 {
        unit
    } else {
        mantissa_unit(c / 2, unit * 2)
    }
}

/// The exact value of `b as f64`: `b` rounded to a multiple of its
/// mantissa unit, ties to the even multiple.
pub open spec fn as_f64(b: nat) -> nat {
    let unit = mantissa_unit(b, 1);
    if unit == 1 {
        b
    } else {
        let q = b / unit;
        let r = b % unit;
        let q2 = if r > unit / 2 || (r == unit / 2 && q % 2 == 1) {
            q + 1
        } else {
            q
        };
        q2 * unit
    }
}

/// Which unit a size is shown in: B, KB, MB or GB.
pub open spec fn unit_index(x: nat) -> nat {
    if x >= 1073741824 {
        3
    } else if x >= 1048576 {
        2
    } else if x >= 1024 {
        1
    } else {
        0
    }
}

pub open spec fn unit_size(i: nat) -> nat {
    if i == 3 {
        1073741824
    } else if i == 2 {
        1048576
    } else {
        1024
    }
}

pub open spec fn unit_name(i: nat) -> Seq<char> {
    if i == 3 {
        "GB"@
    } else if i == 2 {
        "MB"@
    } else {
        "KB"@
    }
}

/// `v / d` in tenths, rounded half to even.
pub open spec fn tenths(v: nat, d: nat) -> nat {
    let t = (10 * v) / d;
    let r = (10 * v) % d;
    if 2 * r > d || (2 * r == d && t % 2 == 1) {
        t + 1
    } else {
        t
    }
}

/// A byte count for people: exact below a KiB, else with one decimal in
/// the largest of KB, MB, GB that it reaches, computed as `f64` would.
pub open spec fn bytes_text(b: nat) -> Seq<char> {
    let x = as_f64(b);
    let i = unit_index(x);
    if i == 0 {
        decimal(b) + " B"@
    } else {
        let t = tenths(x, unit_size(i));
        decimal(t / 10) + "."@ + decimal(t % 10) + " "@ + unit_name(i)
    }
}

fn f64_value(b: u64) -> (x: u128)
    ensures
        x == as_f64(b as nat),
        x <= 0x20000000000000000,
{
    let bb = b as u128;
    let mut c: u128 = bb;
    let mut unit: u128 = 1;
    while c >= MANTISSA_LIMIT && c >= 2
        invariant
            mantissa_unit(c as nat, unit as nat) == mantissa_unit(bb as nat, 1),
            1 <= unit,
            unit > 1 ==> c >= 1,
            c * unit <= bb,
            bb < 0x10000000000000000,
        decreases c,
    {
        assert(2 * unit <= c * unit) by (nonlinear_arith)
            requires
                c >= 2,
                unit >= 1,
        ;
        assert((c / 2) * (unit * 2) <= c * unit) by (nonlinear_arith)
            requires
                c >= 2,
                unit >= 1,
        ;
        c = c / 2;
        unit = unit * 2;
    }
    if unit == 1 {
        return bb;
    }
    let q = bb / unit;
    let r = bb % unit;
    let half = unit / 2;
    let q2 = if r > half || (r == half && q % 2 == 1) {
        q + 1
    } else {
        q
    };
    proof {
        vstd::arithmetic::div_mod::lemma_fundamental_div_mod(bb as int, unit as int);
        assert(q * unit <= bb) by (nonlinear_arith)
            requires
                bb == unit * q + r,
                r >= 0,
        ;
        assert(q2 * unit <= bb + unit) by (nonlinear_arith)
            requires
                q2 <= q + 1,
                q * unit <= bb,
        ;
        assert(unit <= bb) by (nonlinear_arith)
            requires
                c * unit <= bb,
                c >= 1,
                unit >= 1,
        ;
    }
    q2 * unit
}

/// A byte count for people: `512 B`, `1.5 KB`, `1.0 MB`, `2.3 GB`.
pub fn format_bytes(bytes: u64) -> (r: String)
    ensures
        r@ == bytes_text(bytes as nat),
{
    let x = f64_value(bytes);
    let mut out: Vec<char> = Vec::new();
    if x < 1024 {
        push_decimal(bytes as u128, &mut out);
        push_str(&mut out, " B");
        return string_of(out.as_slice());
    }
    let d: u128 = if x >= 1073741824 {
        1073741824
    } else if x >= 1048576 {
        1048576
    } else {
        1024
    };
    let v = 10 * x;
    let t0 = v / d;
    let rem = v % d;
    let t = if 2 * rem > d || (2 * rem == d && t0 % 2 == 1) {
        t0 + 1
    } else {
        t0
    };
    push_decimal(t / 10, &mut out);
    push_str(&mut out, ".");
    push_decimal(t % 10, &mut out);
    push_str(&mut out, " ");
    if x >= 1073741824 {
        push_str(&mut out, "GB");
    } else if x >= 1048576 {
        push_str(&mut out, "MB");
    } else {
        push_str(&mut out, "KB");
    }
    string_of(out.as_slice())
}

/// The one-line account of a result.
pub open spec fn summary_text(copied: nat, failed: nat, bytes: nat) -> Seq<char> {
    if failed == 0 {
        "Successfully copied "@ + decimal(copied) + " files ("@ + bytes_text(bytes) + ")"@
    } else {
        "Copied "@ + decimal(copied) + " files, "@ + decimal(failed) + " failed ("@ + bytes_text(
            bytes,
        ) + ")"@
    }
}

impl CopyResult {
    pub fn summary(&self) -> (r: String)
        ensures
            r@ == summary_text(
                self.files_copied as nat,
                self.files_failed as nat,
                self.bytes_copied as nat,
            ),
    {
        let size = format_bytes(self.bytes_copied);
        let mut out: Vec<char> = Vec::new();
        if self.files_failed == 0 {
            push_str(&mut out, "Successfully copied ");
            push_decimal(self.files_copied as u128, &mut out);
            push_str(&mut out, " files (");
        } else {
            push_str(&mut out, "Copied ");
            push_decimal(self.files_copied as u128, &mut out);
            push_str(&mut out, " files, ");
            push_decimal(self.files_failed as u128, &mut out);
            push_str(&mut out, " failed (");
        }
        push_str(&mut out, size.as_str());
        push_str(&mut out, ")");
        string_of(out.as_slice())
    }
}

} // verus!
