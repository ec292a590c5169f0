//! The timed benchmark: a number of identical scans of one code buffer.
use crate::scan::{attempts, decoded_from, lemma_counts_split, scan_with, skipped_from};
use std::time::{Duration, Instant};
use vstd::prelude::*;
use yaxpeax_x86::long_mode::Instruction;

verus! {

#[verifier::external_type_specification]
#[verifier::external_body]
pub struct ExInstant(std::time::Instant);

/// Relies on std's `Instant::now`: a reading of the monotonic clock, of which
/// nothing is known here.
pub assume_specification[ std::time::Instant::now ]() -> std::time::Instant;

/// Relies on std's `Instant::elapsed`: the time since the reading, of which
/// nothing is known here.
pub assume_specification[ std::time::Instant::elapsed ](
    this: &std::time::Instant,
) -> std::time::Duration;

/// The attempt offsets of each of `n` repetitions over `code`, in order.
pub open spec fn repetition_log(code: Seq<u8>, n: nat) -> Seq<Seq<nat>>
    decreases n,
{
    if n == 0 {
        seq![]
    } else {
        repetition_log(code, (n - 1) as nat).push(attempts(code))
    }
}

/// The number of decode attempts recorded in `log`.
pub open spec fn total_attempts(log: Seq<Seq<nat>>) -> nat
    decreases log.len(),
{
    if log.len() == 0 {
        0
    } else {
        total_attempts(log.drop_last()) + log.last().len()
    }
}

/// Repetitions are independent and identical: `n` repetitions make `n` scans,
/// each starting at offset zero with the same sequence of attempts, so the run
/// makes exactly `n` times the attempts of one scan.
pub proof fn lemma_repetitions_identical(code: Seq<u8>, n: nat)
    ensures
        repetition_log(code, n).len() == n,
        forall|i: int| 0 <= i < n ==> #[trigger] repetition_log(code, n)[i] == attempts(code),
        forall|i: int, j: int|
            0 <= i < n && 0 <= j < n ==> #[trigger] repetition_log(code, n)[i]
                == #[trigger] repetition_log(code, n)[j],
        code.len() > 0 ==> forall|i: int|
            0 <= i < n ==> #[trigger] repetition_log(code, n)[i][0] == 0,
        total_attempts(repetition_log(code, n)) == n * attempts(code).len(),
    decreases n,
{
    if n > 0 {
        lemma_repetitions_identical(code, (n - 1) as nat);
        let log = repetition_log(code, n);
        assert(log.drop_last() == repetition_log(code, (n - 1) as nat));
        assert(n * attempts(code).len() == (n - 1) * attempts(code).len() + attempts(code).len())
            by (nonlinear_arith);
    }
}

/// The outcome of a benchmark run.
#[derive(Clone, Copy, Debug)]
pub struct BenchReport {
    /// Time spent in the repetitions, from just before the first one to just
    /// after the last one.
    pub elapsed: Duration,
    /// Decoded instructions over all repetitions.
    pub decoded: u128,
    /// One-byte skips over all repetitions.
    pub skipped: u128,
}

/// Scans `code` `repetitions` times from offset zero each time, and measures
/// the time that the repetitions take. With `render`, every decoded
/// instruction is also formatted as text into one reused buffer, inside the
/// timed region; a formatting failure aborts the run with `None`.
pub fn run_with(code: &[u8], repetitions: usize, render: bool) -> (r: Option<BenchReport>)
    ensures
        !render ==> r is Some,
        r matches Some(rep) ==> {
            &&& rep.decoded == repetitions * decoded_from(code@, 0)
            &&& rep.skipped == repetitions * skipped_from(code@, 0)
            &&& rep.decoded + rep.skipped == total_attempts(
                repetition_log(code@, repetitions as nat),
            )
        },
{
    proof {
        lemma_counts_split(code@, 0);
        lemma_repetitions_identical(code@, repetitions as nat);
    }
    let ghost d = decoded_from(code@, 0);
    let ghost s = skipped_from(code@, 0);
    let len = code.len();
    let mut inst = Instruction::invalid();
    let mut text = String::new();
    let start = Instant::now();
    let mut decoded: u128 = 0;
    let mut skipped: u128 = 0;
    let mut i: usize = 0;
    while i < repetitions
        invariant
            i <= repetitions,
            d == decoded_from(code@, 0),
            s == skipped_from(code@, 0),
            d + s <= code@.len(),
            code@.len() == len,
            decoded == i * d,
            skipped == i * s,
        decreases repetitions - i,
    {
        let counts = match scan_with(code, &mut inst, &mut text, render) {
            Some(c) => c,
            None => {
                return None;
            },
        };
        proof {
            assert(i * d + d <= usize::MAX as int * usize::MAX as int) by (nonlinear_arith)
                requires
                    i < repetitions <= usize::MAX,
                    d <= code@.len() <= usize::MAX,
            ;
            assert(i * s + s <= usize::MAX as int * usize::MAX as int) by (nonlinear_arith)
                requires
                    i < repetitions <= usize::MAX,
                    s <= code@.len() <= usize::MAX,
            ;
            assert(usize::MAX as int * usize::MAX as int <= u128::MAX) by (nonlinear_arith)
                requires
                    usize::MAX <= u64::MAX,
            ;
            assert((i + 1) * d == i * d + d) by (nonlinear_arith);
            assert((i + 1) * s == i * s + s) by (nonlinear_arith);
        }
        decoded = decoded + counts.decoded as u128;
        skipped = skipped + counts.skipped as u128;
        i = i + 1;
    }
    let elapsed = start.elapsed();
    proof {
        assert(repetitions * d + repetitions * s == repetitions * (d + s)) by (nonlinear_arith);
    }
    Some(BenchReport { elapsed, decoded, skipped })
}

/// Scans `code` `repetitions` times from offset zero each time, and measures
/// the time that the repetitions take.
pub fn run(code: &[u8], repetitions: usize) -> (r: BenchReport)
    ensures
        r.decoded == repetitions * decoded_from(code@, 0),
        r.skipped == repetitions * skipped_from(code@, 0),
        r.decoded + r.skipped == total_attempts(repetition_log(code@, repetitions as nat)),
        repetitions == 0 ==> r.decoded + r.skipped == 0,
        code@.len() == 0 ==> r.decoded + r.skipped == 0,
{
    proof {
        lemma_counts_split(code@, 0);
    }
    let r = run_with(code, repetitions, false).unwrap();
    proof {
        if code@.len() == 0 {
            assert(decoded_from(code@, 0) == 0 && skipped_from(code@, 0) == 0);
            assert(repetitions * 0 == 0) by (nonlinear_arith);
        }
    }
    r
}

} // verus!
