//! The mathematical model of run aggregation.
//!
//! `runs_of` maps a sequence of input lines to the sequence of runs the
//! aggregator closes, in input order. A run is a pair of the text of the
//! line that opened it (its representative, terminator and all) and the
//! number of consecutive lines whose keys matched it.

use vstd::prelude::*;

use crate::line::key_of;

verus! {

/// The runs of a line sequence: each maximal block of consecutive lines
/// with equal keys becomes one `(representative, count)` pair, where the
/// representative is the exact text of the first line of the block.
pub open spec fn runs_of(lines: Seq<Seq<u8>>) -> Seq<(Seq<u8>, nat)>
    decreases lines.len(),
{
    if lines.len() == 0 {
        Seq::empty()
    } else {
        let prev = runs_of(lines.drop_last());
        let line = lines.last();
        if prev.len() > 0 && key_of(prev.last().0) == key_of(line) {
            prev.update(prev.len() - 1, (prev.last().0, (prev.last().1 + 1) as nat))
        } else {
            prev.push((line, 1nat))
        }
    }
}

/// Total number of input lines accounted for by a run sequence.
pub open spec fn total_count(runs: Seq<(Seq<u8>, nat)>) -> nat
    decreases runs.len(),
{
    if runs.len() == 0 {
        0
    } else {
        total_count(runs.drop_last()) + runs.last().1
    }
}

/// No two consecutive lines of the sequence share a key.
pub open spec fn no_adjacent_duplicates(lines: Seq<Seq<u8>>) -> bool {
    forall|i: int| 0 <= i < lines.len() - 1 ==> key_of(#[trigger] lines[i]) != key_of(lines[i + 1])
}

/// Well-formedness of a run sequence: every run counted at least one
/// line, and consecutive runs have distinct keys.
pub open spec fn runs_wf(runs: Seq<(Seq<u8>, nat)>) -> bool {
    &&& forall|i: int| 0 <= i < runs.len() ==> (#[trigger] runs[i]).1 >= 1
    &&& forall|i: int|
        0 <= i < runs.len() - 1 ==> key_of((#[trigger] runs[i]).0) != key_of(runs[i + 1].0)
}

/// There are runs exactly when there are lines, and the last run's key is
/// the key of the last line.
pub proof fn lemma_runs_last_key(lines: Seq<Seq<u8>>)
    ensures
        runs_of(lines).len() == 0 <==> lines.len() == 0,
        lines.len() > 0 ==> key_of(runs_of(lines).last().0) == key_of(lines.last()),
    decreases lines.len(),
{
    if lines.len() > 0 {
        lemma_runs_last_key(lines.drop_last());
    }
}

/// How one more line extends the runs: the first line opens the first
/// run; a line whose key matches the last run extends its count; any
/// other line closes the last run and opens a new one.
pub proof fn lemma_runs_push(lines: Seq<Seq<u8>>, line: Seq<u8>)
    ensures
        lines.len() == 0 ==> runs_of(lines.push(line)) == seq![(line, 1nat)],
        lines.len() > 0 && key_of(runs_of(lines).last().0) == key_of(line) ==> runs_of(
            lines.push(line),
        ) == runs_of(lines).update(
            runs_of(lines).len() - 1,
            (runs_of(lines).last().0, (runs_of(lines).last().1 + 1) as nat),
        ),
        lines.len() > 0 && key_of(runs_of(lines).last().0) != key_of(line) ==> runs_of(
            lines.push(line),
        ) == runs_of(lines).push((line, 1nat)),
{
    let ext = lines.push(line);
    assert(ext.drop_last() =~= lines);
    assert(ext.last() == line);
    lemma_runs_last_key(lines);
    if lines.len() == 0 {
        assert(runs_of(ext) =~= seq![(line, 1nat)]);
    }
}

/// The runs of any input are well-formed.
pub proof fn lemma_runs_wf(lines: Seq<Seq<u8>>)
    ensures
        runs_wf(runs_of(lines)),
    decreases lines.len(),
{
    if lines.len() > 0 {
        lemma_runs_wf(lines.drop_last());
        lemma_runs_last_key(lines.drop_last());
        assert(lines.drop_last().push(lines.last()) =~= lines);
        lemma_runs_push(lines.drop_last(), lines.last());
    }
}

/// Run-count conservation: the counts of the runs of any input add up to
/// the number of input lines.
pub proof fn lemma_run_count_conservation(lines: Seq<Seq<u8>>)
    ensures
        total_count(runs_of(lines)) == lines.len(),
    decreases lines.len(),
{
    if lines.len() > 0 {
        lemma_run_count_conservation(lines.drop_last());
        let prev = runs_of(lines.drop_last());
        let line = lines.last();
        if prev.len() > 0 && key_of(prev.last().0) == key_of(line) {
            let updated = prev.update(prev.len() - 1, (prev.last().0, (prev.last().1 + 1) as nat));
            assert(updated.drop_last() =~= prev.drop_last());
            assert(updated.last() == (prev.last().0, (prev.last().1 + 1) as nat));
        } else {
            let extended = prev.push((line, 1nat));
            assert(extended.drop_last() =~= prev);
        }
    }
}

/// Emission bound: an input never yields more runs than lines, and it
/// yields exactly as many iff no two adjacent lines share a key.
pub proof fn lemma_emission_bound(lines: Seq<Seq<u8>>)
    ensures
        runs_of(lines).len() <= lines.len(),
        runs_of(lines).len() == lines.len() <==> no_adjacent_duplicates(lines),
    decreases lines.len(),
{
    let n = lines.len() as int;
    if n == 0 {
        assert(no_adjacent_duplicates(lines));
    } else {
        let prev_lines = lines.drop_last();
        lemma_emission_bound(prev_lines);
        lemma_runs_last_key(prev_lines);
        let prev = runs_of(prev_lines);
        let line = lines.last();
        if prev.len() > 0 && key_of(prev.last().0) == key_of(line) {
            assert(key_of(lines[n - 2]) == key_of(lines[n - 1])) by {
                assert(prev_lines.last() == lines[n - 2]);
            }
            assert(!no_adjacent_duplicates(lines));
            assert(runs_of(lines).len() == prev.len() < n);
        } else {
            assert(runs_of(lines).len() == prev.len() + 1);
            if no_adjacent_duplicates(lines) {
                assert(no_adjacent_duplicates(prev_lines)) by {
                    assert forall|i: int|
                        0 <= i < prev_lines.len() - 1 implies key_of(
                        #[trigger] prev_lines[i],
                    ) != key_of(prev_lines[i + 1]) by {
                        assert(prev_lines[i] == lines[i]);
                        assert(prev_lines[i + 1] == lines[i + 1]);
                    }
                }
            }
            if runs_of(lines).len() == n {
                assert(prev.len() == n - 1);
                assert(no_adjacent_duplicates(prev_lines));
                assert(no_adjacent_duplicates(lines)) by {
                    assert forall|i: int| 0 <= i < n - 1 implies key_of(#[trigger] lines[i])
                        != key_of(lines[i + 1]) by {
                        if i < n - 2 {
                            assert(lines[i] == prev_lines[i]);
                            assert(lines[i + 1] == prev_lines[i + 1]);
                        } else {
                            assert(prev.len() > 0);
                            assert(key_of(prev.last().0) == key_of(prev_lines.last()));
                            assert(prev_lines.last() == lines[n - 2]);
                        }
                    }
                }
            }
        }
    }
}

/// All-duplicate input: when every line shares the first line's key, the
/// whole input is a single run, counted in full and represented by the
/// exact text of the first line.
pub proof fn lemma_all_duplicates(lines: Seq<Seq<u8>>)
    requires
        lines.len() >= 1,
        forall|i: int| 0 <= i < lines.len() ==> key_of(#[trigger] lines[i]) == key_of(lines[0]),
    ensures
        runs_of(lines) == seq![(lines[0], lines.len() as nat)],
    decreases lines.len(),
{
    if lines.len() == 1 {
        assert(runs_of(lines.drop_last()) =~= Seq::<(Seq<u8>, nat)>::empty());
        assert(runs_of(lines) =~= seq![(lines[0], 1nat)]);
    } else {
        let prev_lines = lines.drop_last();
        assert forall|i: int| 0 <= i < prev_lines.len() implies key_of(#[trigger] prev_lines[i])
            == key_of(prev_lines[0]) by {
            assert(prev_lines[i] == lines[i]);
            assert(prev_lines[0] == lines[0]);
        }
        lemma_all_duplicates(prev_lines);
        assert(key_of(runs_of(prev_lines).last().0) == key_of(lines.last()));
        assert(runs_of(lines) =~= seq![(lines[0], lines.len() as nat)]);
    }
}

/// Adjacency-only deduplication: when no two adjacent lines share a key,
/// every line is its own run of one — repeats that are not adjacent are
/// never merged.
pub proof fn lemma_no_adjacent_keeps_lines(lines: Seq<Seq<u8>>)
    requires
        no_adjacent_duplicates(lines),
    ensures
        runs_of(lines) == lines.map_values(|l: Seq<u8>| (l, 1nat)),
    decreases lines.len(),
{
    let n = lines.len() as int;
    if n == 0 {
        assert(runs_of(lines) =~= lines.map_values(|l: Seq<u8>| (l, 1nat)));
    } else {
        let prev_lines = lines.drop_last();
        assert forall|i: int|
            0 <= i < prev_lines.len() - 1 implies key_of(#[trigger] prev_lines[i]) != key_of(
            prev_lines[i + 1],
        ) by {
            assert(prev_lines[i] == lines[i]);
            assert(prev_lines[i + 1] == lines[i + 1]);
        }
        lemma_no_adjacent_keeps_lines(prev_lines);
        if n >= 2 {
            assert(runs_of(prev_lines).last() == (prev_lines[n - 2], 1nat));
            assert(key_of(lines[n - 2]) != key_of(lines[n - 1]));
        }
        assert(runs_of(lines) =~= lines.map_values(|l: Seq<u8>| (l, 1nat)));
    }
}

/// Every representative is the exact text of one of the input lines: the
/// aggregator never invents bytes, terminators included.
pub proof fn lemma_reps_from_input(lines: Seq<Seq<u8>>)
    ensures
        forall|j: int|
            0 <= j < runs_of(lines).len() ==> exists|i: int|
                0 <= i < lines.len() && (#[trigger] runs_of(lines)[j]).0 == lines[i],
    decreases lines.len(),
{
    let n = lines.len() as int;
    if n > 0 {
        let prev_lines = lines.drop_last();
        lemma_reps_from_input(prev_lines);
        let prev = runs_of(prev_lines);
        let runs = runs_of(lines);
        assert forall|j: int| 0 <= j < runs.len() implies exists|i: int|
            0 <= i < lines.len() && (#[trigger] runs[j]).0 == lines[i] by {
            if j < prev.len() && runs[j].0 == prev[j].0 {
                let i0 = choose|i: int| 0 <= i < prev_lines.len() && prev[j].0 == prev_lines[i];
                assert(prev_lines[i0] == lines[i0]);
                assert(0 <= i0 < lines.len() && runs[j].0 == lines[i0]);
            } else {
                assert(runs[j].0 == lines[n - 1]);
                assert(0 <= n - 1 < lines.len() && runs[j].0 == lines[n - 1]);
            }
        }
    }
}

} // verus!
