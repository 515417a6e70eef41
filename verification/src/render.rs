//! Output records for closed runs.
//!
//! Without counts, the record for a run is exactly its representative
//! line. With counts, the record is the repetition count in decimal,
//! right-aligned in a field of minimum width four, one space, then the
//! representative line.

use vstd::prelude::*;

use crate::line::key_of;
use crate::runs::no_adjacent_duplicates;
use crate::runs::runs_of;

verus! {

/// Space byte.
pub const SPACE: u8 = 32;

/// ASCII `0`.
pub const DIGIT_ZERO: u8 = 48;

/// Width of the count field.
pub const COUNT_WIDTH: usize = 4;

/// The decimal digits of `n`, most significant first, no leading zeros
/// (the single digit `0` for zero).
pub open spec fn decimal_of(n: nat) -> Seq<u8>
    decreases n,
{
    if n < 10 {
        seq![(DIGIT_ZERO + n) as u8]
    } else {
        decimal_of(n / 10).push((DIGIT_ZERO + n % 10) as u8)
    }
}

/// `k` spaces.
pub open spec fn spaces(k: nat) -> Seq<u8> {
    Seq::new(k, |i: int| SPACE)
}

/// The count field: the decimal digits of `n`, right-aligned in a field
/// of minimum width four. Counts of five or more digits widen the field.
pub open spec fn count_field(n: nat) -> Seq<u8> {
    let d = decimal_of(n);
    if d.len() >= COUNT_WIDTH {
        d
    } else {
        spaces((COUNT_WIDTH - d.len()) as nat) + d
    }
}

/// The record emitted for one closed run.
pub open spec fn record_of(show_counts: bool, rep: Seq<u8>, count: nat) -> Seq<u8> {
    if show_counts {
        count_field(count) + seq![SPACE] + rep
    } else {
        rep
    }
}

/// The whole output of the filter: one record per run, in input order.
pub open spec fn output_of(lines: Seq<Seq<u8>>, show_counts: bool) -> Seq<Seq<u8>> {
    runs_of(lines).map_values(|r: (Seq<u8>, nat)| record_of(show_counts, r.0, r.1))
}

/// How one more line extends the output: the first line yields a record
/// of count one; a line whose key matches the last run replaces the last
/// record with one of the incremented count; any other line appends a
/// record of count one.
pub proof fn lemma_output_push(lines: Seq<Seq<u8>>, line: Seq<u8>, show_counts: bool)
    ensures
        output_of(lines, show_counts).len() == runs_of(lines).len(),
        lines.len() == 0 ==> output_of(lines.push(line), show_counts) == seq![
            record_of(show_counts, line, 1nat),
        ],
        lines.len() > 0 && key_of(runs_of(lines).last().0) == key_of(line) ==> output_of(
            lines.push(line),
            show_counts,
        ) == output_of(lines, show_counts).update(
            output_of(lines, show_counts).len() - 1,
            record_of(show_counts, runs_of(lines).last().0, (runs_of(lines).last().1 + 1) as nat),
        ),
        lines.len() > 0 && key_of(runs_of(lines).last().0) != key_of(line) ==> output_of(
            lines.push(line),
            show_counts,
        ) == output_of(lines, show_counts).push(record_of(show_counts, line, 1nat)),
{
    crate::runs::lemma_runs_push(lines, line);
    crate::runs::lemma_runs_last_key(lines);
    if lines.len() == 0 {
        assert(output_of(lines.push(line), show_counts) =~= seq![
            record_of(show_counts, line, 1nat),
        ]);
    } else if key_of(runs_of(lines).last().0) == key_of(line) {
        assert(output_of(lines.push(line), show_counts) =~= output_of(
            lines,
            show_counts,
        ).update(
            output_of(lines, show_counts).len() - 1,
            record_of(show_counts, runs_of(lines).last().0, (runs_of(lines).last().1 + 1) as nat),
        ));
    } else {
        assert(output_of(lines.push(line), show_counts) =~= output_of(lines, show_counts).push(
            record_of(show_counts, line, 1nat),
        ));
    }
}

/// Empty input: no lines yield no records, in either mode.
pub proof fn lemma_empty_input(show_counts: bool)
    ensures
        output_of(Seq::empty(), show_counts) == Seq::<Seq<u8>>::empty(),
{
    assert(output_of(Seq::empty(), show_counts) =~= Seq::<Seq<u8>>::empty());
}

/// Collapsed output has no adjacent duplicates: consecutive records of
/// the count-free output never share a key.
pub proof fn lemma_output_no_adjacent_duplicates(lines: Seq<Seq<u8>>)
    ensures
        no_adjacent_duplicates(output_of(lines, false)),
{
    crate::runs::lemma_runs_wf(lines);
    let out = output_of(lines, false);
    assert forall|i: int| 0 <= i < out.len() - 1 implies key_of(#[trigger] out[i]) != key_of(
        out[i + 1],
    ) by {
        assert(out[i] == runs_of(lines)[i].0);
        assert(out[i + 1] == runs_of(lines)[i + 1].0);
    }
}

/// Idempotence: running the filter on its own count-free output changes
/// nothing — collapsed output is a fixed point.
pub proof fn lemma_idempotent(lines: Seq<Seq<u8>>)
    ensures
        output_of(output_of(lines, false), false) == output_of(lines, false),
{
    let out = output_of(lines, false);
    lemma_output_no_adjacent_duplicates(lines);
    crate::runs::lemma_no_adjacent_keeps_lines(out);
    assert(output_of(out, false) =~= out);
}

/// All-duplicate input, rendered: when every line shares the first
/// line's key, the output is a single record; in count mode it carries
/// the full input length as its count.
pub proof fn lemma_all_duplicates_output(lines: Seq<Seq<u8>>, show_counts: bool)
    requires
        lines.len() >= 1,
        forall|i: int| 0 <= i < lines.len() ==> key_of(#[trigger] lines[i]) == key_of(lines[0]),
    ensures
        output_of(lines, show_counts) == seq![
            record_of(show_counts, lines[0], lines.len() as nat),
        ],
{
    crate::runs::lemma_all_duplicates(lines);
    assert(output_of(lines, show_counts) =~= seq![
        record_of(show_counts, lines[0], lines.len() as nat),
    ]);
}

/// The decimal digits of `n`, most significant first.
pub fn decimal_digits(n: usize) -> (d: Vec<u8>)
    ensures
        d@ == decimal_of(n as nat),
        d@.len() >= 1,
    decreases n,
{
    if n < 10 {
        let mut d: Vec<u8> = Vec::new();
        d.push(DIGIT_ZERO + n as u8);
        proof {
            assert(d@ =~= decimal_of(n as nat));
        }
        d
    } else {
        let mut d = decimal_digits(n / 10);
        d.push(DIGIT_ZERO + (n % 10) as u8);
        proof {
            assert(d@ =~= decimal_of(n as nat));
        }
        d
    }
}

/// Build the record for one closed run: the representative line as is,
/// or, in count mode, prefixed by the right-aligned count and a space.
pub fn format_record(show_counts: bool, rep: &Vec<u8>, count: usize) -> (out: Vec<u8>)
    ensures
        out@ == record_of(show_counts, rep@, count as nat),
{
    let mut out: Vec<u8> = Vec::new();
    if show_counts {
        let d = decimal_digits(count);
        let dlen = d.len();
        let mut i: usize = dlen;
        while i < COUNT_WIDTH
            invariant
                dlen <= i,
                dlen >= 1,
                i <= COUNT_WIDTH || i == dlen,
                out@ =~= spaces((i - dlen) as nat),
            decreases COUNT_WIDTH - i,
        {
            out.push(SPACE);
            proof {
                assert(out@ =~= spaces((i + 1 - dlen) as nat));
            }
            i += 1;
        }
        proof {
            assert(out@ + d@ =~= count_field(count as nat));
        }
        let mut j: usize = 0;
        while j < d.len()
            invariant
                j <= d.len(),
                d@ == decimal_of(count as nat),
                out@ =~= count_field(count as nat).take(count_field(count as nat).len() - d@.len() + j),
            decreases d.len() - j,
        {
            out.push(d[j]);
            proof {
                assert(out@ =~= count_field(count as nat).take(
                    count_field(count as nat).len() - d@.len() + j + 1,
                ));
            }
            j += 1;
        }
        proof {
            assert(out@ =~= count_field(count as nat));
        }
        out.push(SPACE);
        proof {
            assert(out@ =~= count_field(count as nat) + seq![SPACE]);
        }
    }
    let base = Ghost(out@);
    let mut k: usize = 0;
    while k < rep.len()
        invariant
            k <= rep.len(),
            out@ =~= base@ + rep@.take(k as int),
        decreases rep.len() - k,
    {
        out.push(rep[k]);
        proof {
            assert(out@ =~= base@ + rep@.take(k + 1 as int));
        }
        k += 1;
    }
    proof {
        assert(rep@.take(rep@.len() as int) =~= rep@);
        assert(out@ =~= record_of(show_counts, rep@, count as nat));
    }
    out
}

} // verus!
