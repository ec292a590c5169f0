//! One left-to-right scan of a code buffer, and its mathematical model.
use vstd::prelude::*;
use vstd::slice::slice_subrange;
use yaxpeax_arch::{Decoder, LengthedInstruction, U8Reader};
use yaxpeax_x86::long_mode::{InstDecoder, Instruction};

verus! {

#[verifier::external_type_specification]
#[verifier::external_body]
pub struct ExInstruction(yaxpeax_x86::long_mode::Instruction);

/// Relies on yaxpeax_x86's `Instruction::invalid`: a fresh instruction slot,
/// of which nothing is known here.
pub assume_specification[ yaxpeax_x86::long_mode::Instruction::invalid ]() -> yaxpeax_x86::long_mode::Instruction;

/// Relies on std's `String::clear`: the string is left empty.
pub assume_specification[ String::clear ](s: &mut String)
    ensures
        final(s)@ == Seq::<char>::empty(),
;

/// What the default x86-64 decoder reports for an instruction starting at the
/// first byte of `bytes`: its length in bytes, or `None` when it cannot decode one.
pub uninterp spec fn x86_length(bytes: Seq<u8>) -> Option<usize>;

/// Relies on yaxpeax_x86's `InstDecoder::decode_into` on the default decoder
/// (every extension enabled), reading from the start of `bytes`, and on
/// `Instruction::len`: the outcome of one decode attempt, which depends on the
/// bytes alone. The slot `inst` is overwritten.
#[verifier::external_body]
fn decode_into(inst: &mut Instruction, bytes: &[u8]) -> (r: Option<usize>)
    ensures
        r == x86_length(bytes@),
{
    let mut reader = U8Reader::new(bytes);
    match InstDecoder::default().decode_into(inst, &mut reader) {
        Ok(()) => Some(inst.len().to_const() as usize),
        Err(_) => None,
    }
}

/// Relies on yaxpeax_x86's `Instruction::write_to`: appends the instruction's
/// text to `text`, and reports whether formatting succeeded.
#[verifier::external_body]
fn write_text(inst: &Instruction, text: &mut String) -> (ok: bool) {
    inst.write_to(text).is_ok()
}

/// Whether an attempt whose engine outcome is `outcome` counts as a decoded
/// instruction. A reported length of zero is treated like a failure, so the
/// cursor always moves forward.
pub open spec fn is_decoded(outcome: Option<usize>) -> bool {
    match outcome {
        Some(l) => l >= 1,
        None => false,
    }
}

/// The cursor after an attempt at `p` with the given outcome: `p + L` after a
/// decoded instruction of length `L`, `p + 1` otherwise.
pub open spec fn advance(p: nat, outcome: Option<usize>) -> nat {
    match outcome {
        Some(l) => if l >= 1 { p + (l as nat) } else { p + 1 },
        None => p + 1,
    }
}

/// The engine's outcome for an attempt at offset `p` of `code`.
pub open spec fn outcome_at(code: Seq<u8>, p: nat) -> Option<usize> {
    x86_length(code.subrange(p as int, code.len() as int))
}

/// Bytes left to scan from offset `p`.
pub open spec fn remaining(code: Seq<u8>, p: nat) -> nat {
    if p >= code.len() {
        0
    } else {
        (code.len() - p) as nat
    }
}

/// The offsets at which decode attempts are made when scanning `code` from `p`.
pub open spec fn attempts_from(code: Seq<u8>, p: nat) -> Seq<nat>
    decreases remaining(code, p),
{
    if p >= code.len() {
        seq![]
    } else {
        seq![p] + attempts_from(code, advance(p, outcome_at(code, p)))
    }
}

/// The number of decoded instructions when scanning `code` from `p`.
pub open spec fn decoded_from(code: Seq<u8>, p: nat) -> nat
    decreases remaining(code, p),
{
    if p >= code.len() {
        0
    } else {
        (if is_decoded(outcome_at(code, p)) { 1nat } else { 0nat })
            + decoded_from(code, advance(p, outcome_at(code, p)))
    }
}

/// The number of one-byte skips when scanning `code` from `p`.
pub open spec fn skipped_from(code: Seq<u8>, p: nat) -> nat
    decreases remaining(code, p),
{
    if p >= code.len() {
        0
    } else {
        (if is_decoded(outcome_at(code, p)) { 0nat } else { 1nat })
            + skipped_from(code, advance(p, outcome_at(code, p)))
    }
}

/// The offsets of the decode attempts of one full scan of `code`.
pub open spec fn attempts(code: Seq<u8>) -> Seq<nat> {
    attempts_from(code, 0)
}

/// Counts of one scan over a code buffer.
#[derive(Clone, Copy, Debug, PartialEq, Eq)]
pub struct ScanCounts {
    /// Attempts that decoded an instruction.
    pub decoded: usize,
    /// Attempts that failed, each followed by a one-byte skip.
    pub skipped: usize,
}

/// Every attempt is either a decode or a skip, and there are at most as many
/// attempts as bytes left to scan.
pub proof fn lemma_counts_split(code: Seq<u8>, p: nat)
    ensures
        decoded_from(code, p) + skipped_from(code, p) == attempts_from(code, p).len(),
        p <= code.len() ==> attempts_from(code, p).len() <= code.len() - p,
        p >= code.len() ==> attempts_from(code, p).len() == 0,
    decreases remaining(code, p),
{
    if p < code.len() {
        lemma_counts_split(code, advance(p, outcome_at(code, p)));
    }
}

/// After an attempt at `p` that decodes nothing, the next attempt is at
/// exactly `p + 1`: one byte is skipped, never more or fewer.
pub proof fn lemma_failure_skips_one_byte(code: Seq<u8>, p: nat)
    requires
        p < code.len(),
        !is_decoded(outcome_at(code, p)),
    ensures
        attempts_from(code, p) == seq![p] + attempts_from(code, p + 1),
        p + 1 < code.len() ==> attempts_from(code, p)[1] == p + 1,
        p + 1 == code.len() ==> attempts_from(code, p) == seq![p],
{
}

/// After an attempt at `p` that decodes an instruction of length `l`, the next
/// attempt is at exactly `p + l`.
pub proof fn lemma_success_advances_by_length(code: Seq<u8>, p: nat, l: usize)
    requires
        p < code.len(),
        outcome_at(code, p) == Some(l),
        l >= 1,
    ensures
        attempts_from(code, p) == seq![p] + attempts_from(code, p + (l as nat)),
        p + l < code.len() ==> attempts_from(code, p)[1] == p + (l as nat),
        p + l >= code.len() ==> attempts_from(code, p) == seq![p],
{
}

/// Two cursors that both lie at or past the end of `code` leave the same
/// (empty) rest of the scan.
proof fn lemma_past_end(code: Seq<u8>, q: nat, c: nat)
    requires
        q == c || (q >= code.len() && c >= code.len()),
    ensures
        decoded_from(code, q) == decoded_from(code, c),
        skipped_from(code, q) == skipped_from(code, c),
        attempts_from(code, q) == attempts_from(code, c),
{
}

/// The cursor after one decode attempt at `cursor` whose outcome is `outcome`:
/// forward by the instruction's length on success, by one byte on failure.
/// A result past `usize::MAX` is held at `usize::MAX`, which lies past any buffer.
pub fn next_cursor(cursor: usize, outcome: Option<usize>) -> (r: usize)
    requires
        cursor < usize::MAX,
    ensures
        r == if advance(cursor as nat, outcome) > usize::MAX {
            usize::MAX as nat
        } else {
            advance(cursor as nat, outcome)
        },
        r > cursor,
{
    match outcome {
        Some(l) => {
            if l >= 1 {
                cursor.saturating_add(l)
            } else {
                cursor + 1
            }
        },
        None => cursor + 1,
    }
}

/// Scans `code` once from offset zero, counting decoded instructions and
/// one-byte skips. Each attempt decodes into the slot `inst`. With `render`,
/// each decoded instruction is also written as text into `text`, which is
/// cleared first; a formatting failure ends the scan with `None`.
pub fn scan_with(code: &[u8], inst: &mut Instruction, text: &mut String, render: bool) -> (r:
    Option<ScanCounts>)
    ensures
        !render ==> r is Some,
        r matches Some(c) ==> {
            &&& c.decoded == decoded_from(code@, 0)
            &&& c.skipped == skipped_from(code@, 0)
            &&& c.decoded + c.skipped == attempts(code@).len()
            &&& c.decoded + c.skipped <= code@.len()
        },
{
    let mut cursor: usize = 0;
    let mut decoded: usize = 0;
    let mut skipped: usize = 0;
    proof {
        lemma_counts_split(code@, 0);
    }
    while cursor < code.len()
        invariant
            decoded + decoded_from(code@, cursor as nat) == decoded_from(code@, 0),
            skipped + skipped_from(code@, cursor as nat) == skipped_from(code@, 0),
            decoded + skipped <= cursor,
            decoded_from(code@, 0) + skipped_from(code@, 0) == attempts(code@).len(),
            attempts(code@).len() <= code@.len(),
        decreases usize::MAX - cursor,
    {
        let outcome = decode_into(inst, slice_subrange(code, cursor, code.len()));
        let ghost p = cursor as nat;
        let ghost q = advance(p, outcome);
        assert(outcome == outcome_at(code@, p));
        if is_decoded_exec(outcome) {
            if render {
                text.clear();
                if !write_text(inst, text) {
                    return None;
                }
            }
            decoded = decoded + 1;
        } else {
            skipped = skipped + 1;
        }
        cursor = next_cursor(cursor, outcome);
        proof {
            lemma_past_end(code@, q, cursor as nat);
        }
    }
    Some(ScanCounts { decoded, skipped })
}

/// Scans `code` once from offset zero, counting decoded instructions and
/// one-byte skips.
pub fn scan(code: &[u8]) -> (r: ScanCounts)
    ensures
        r.decoded == decoded_from(code@, 0),
        r.skipped == skipped_from(code@, 0),
        r.decoded + r.skipped == attempts(code@).len(),
        r.decoded + r.skipped <= code@.len(),
{
    let mut inst = Instruction::invalid();
    let mut text = String::new();
    scan_with(code, &mut inst, &mut text, false).unwrap()
}

fn is_decoded_exec(outcome: Option<usize>) -> (r: bool)
    ensures
        r == is_decoded(outcome),
{
    match outcome {
        Some(l) => l >= 1,
        None => false,
    }
}

} // verus!
