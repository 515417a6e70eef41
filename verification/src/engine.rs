//! The run aggregator: a single pass over the line stream that keeps one
//! live run (representative text plus repetition count), closes it when a
//! line with a different key arrives or the stream ends, and hands each
//! closed run out as a formatted record.

use vstd::prelude::*;

use crate::line::copy_bytes;
use crate::line::key_of;
use crate::line::keys_equal;
use crate::render::format_record;
use crate::render::output_of;
use crate::render::record_of;
use crate::runs::runs_of;

verus! {

/// The views of a sequence of owned lines.
pub open spec fn line_views(lines: Seq<Vec<u8>>) -> Seq<Seq<u8>> {
    lines.map_values(|l: Vec<u8>| l@)
}

/// The streaming aggregation state. Exactly one run is live at a time; a
/// count of zero means no line has been observed yet and nothing may be
/// emitted.
pub struct Aggregator {
    /// Whether records carry the count prefix.
    pub show_counts: bool,
    /// The exact text of the line that opened the live run.
    pub rep: Vec<u8>,
    /// How many consecutive lines the live run has counted.
    pub count: usize,
    /// Every line observed so far.
    pub lines: Ghost<Seq<Seq<u8>>>,
}

impl Aggregator {
    /// The live run is the last run of the lines observed so far, and it
    /// is empty exactly as long as no line has been observed.
    pub open spec fn wf(self) -> bool {
        &&& (self.count == 0 <==> self.lines@.len() == 0)
        &&& (self.count >= 1 ==> runs_of(self.lines@).len() >= 1 && runs_of(self.lines@).last()
            == (self.rep@, self.count as nat))
        &&& self.count <= self.lines@.len()
    }

    /// An aggregator with no run yet.
    pub fn new(show_counts: bool) -> (agg: Aggregator)
        ensures
            agg.wf(),
            agg.show_counts == show_counts,
            agg.count == 0,
            agg.lines@ == Seq::<Seq<u8>>::empty(),
    {
        Aggregator { show_counts, rep: Vec::new(), count: 0, lines: Ghost(Seq::empty()) }
    }

    /// Feed the next input line. Returns the record of the run this line
    /// closes: `Some` exactly when a run was live and the line's key
    /// differs from its representative's key; the line then opens a new
    /// run of one. Otherwise the line joins the live run (or opens the
    /// first one) and nothing is emitted.
    pub fn observe(&mut self, line: Vec<u8>) -> (emitted: Option<Vec<u8>>)
        requires
            old(self).wf(),
            old(self).count < usize::MAX,
        ensures
            final(self).wf(),
            final(self).show_counts == old(self).show_counts,
            final(self).lines@ == old(self).lines@.push(line@),
            match emitted {
                Some(r) => {
                    &&& old(self).count >= 1
                    &&& key_of(line@) != key_of(old(self).rep@)
                    &&& r@ == record_of(
                        old(self).show_counts,
                        old(self).rep@,
                        old(self).count as nat,
                    )
                    &&& final(self).rep@ == line@
                    &&& final(self).count == 1
                    &&& runs_of(final(self).lines@) == runs_of(old(self).lines@).push(
                        (line@, 1nat),
                    )
                },
                None => {
                    &&& (old(self).count == 0 || key_of(line@) == key_of(old(self).rep@))
                    &&& final(self).rep@ == if old(self).count == 0 {
                        line@
                    } else {
                        old(self).rep@
                    }
                    &&& final(self).count == old(self).count + 1
                    &&& runs_of(final(self).lines@) == if old(self).count == 0 {
                        seq![(line@, 1nat)]
                    } else {
                        runs_of(old(self).lines@).update(
                            runs_of(old(self).lines@).len() - 1,
                            (old(self).rep@, (old(self).count + 1) as nat),
                        )
                    }
                },
            },
    {
        let ghost prev_lines = self.lines@;
        proof {
            self.lines@ = prev_lines.push(line@);
            crate::runs::lemma_runs_push(prev_lines, line@);
        }
        if self.count >= 1 && keys_equal(&line, &self.rep) {
            self.count = self.count + 1;
            None
        } else if self.count >= 1 {
            let record = format_record(self.show_counts, &self.rep, self.count);
            self.rep = line;
            self.count = 1;
            Some(record)
        } else {
            self.rep = line;
            self.count = 1;
            None
        }
    }

    /// End of the stream: flush the live run, if any. Returns its record
    /// exactly when at least one line was observed.
    pub fn finish(self) -> (emitted: Option<Vec<u8>>)
        requires
            self.wf(),
        ensures
            match emitted {
                Some(r) => {
                    &&& self.lines@.len() > 0
                    &&& r@ == record_of(self.show_counts, self.rep@, self.count as nat)
                    &&& output_of(self.lines@, self.show_counts).last() == r@
                },
                None => self.lines@.len() == 0,
            },
    {
        if self.count >= 1 {
            let record = format_record(self.show_counts, &self.rep, self.count);
            proof {
                crate::runs::lemma_runs_last_key(self.lines@);
                assert(output_of(self.lines@, self.show_counts).last() == record_of(
                    self.show_counts,
                    self.rep@,
                    self.count as nat,
                ));
            }
            Some(record)
        } else {
            None
        }
    }
}

/// Collapse a whole input: the records of `lines`'s runs, in input order,
/// formatted with or without counts.
pub fn process_lines(lines: &Vec<Vec<u8>>, show_counts: bool) -> (out: Vec<Vec<u8>>)
    ensures
        line_views(out@) == output_of(line_views(lines@), show_counts),
        out@.len() <= lines@.len(),
{
    proof {
        crate::runs::lemma_emission_bound(line_views(lines@));
    }
    let mut agg = Aggregator::new(show_counts);
    let mut out: Vec<Vec<u8>> = Vec::new();
    let mut i: usize = 0;
    while i < lines.len()
        invariant
            agg.wf(),
            agg.show_counts == show_counts,
            i <= lines.len(),
            agg.count <= i,
            agg.lines@ =~= line_views(lines@).take(i as int),
            if i == 0 {
                out@.len() == 0
            } else {
                line_views(out@).push(record_of(show_counts, agg.rep@, agg.count as nat))
                    =~= output_of(line_views(lines@).take(i as int), show_counts)
            },
        decreases lines.len() - i,
    {
        let ghost all = line_views(lines@);
        let ghost seen = all.take(i as int);
        let ghost prev_out = out@;
        let ghost prev_agg = agg;
        let line = copy_bytes(&lines[i]);
        proof {
            assert(line@ == all[i as int]);
            assert(seen.push(all[i as int]) =~= all.take(i + 1));
            crate::render::lemma_output_push(seen, line@, show_counts);
        }
        let emitted = agg.observe(line);
        proof {
            assert(agg.lines@ =~= all.take(i + 1));
        }
        match emitted {
            Some(r) => {
                out.push(r);
                proof {
                    assert(line_views(out@) =~= line_views(prev_out).push(r@));
                    assert(output_of(all.take(i + 1), show_counts) =~= output_of(
                        seen,
                        show_counts,
                    ).push(record_of(show_counts, agg.rep@, agg.count as nat)));
                    assert(line_views(out@).push(
                        record_of(show_counts, agg.rep@, agg.count as nat),
                    ) =~= output_of(all.take(i + 1), show_counts));
                }
            },
            None => {
                proof {
                    if prev_agg.count == 0 {
                        assert(line_views(out@) =~= Seq::<Seq<u8>>::empty());
                        assert(output_of(all.take(i + 1), show_counts) =~= seq![
                            record_of(show_counts, agg.rep@, agg.count as nat),
                        ]);
                    } else {
                        let k = output_of(seen, show_counts).len() - 1;
                        assert(output_of(all.take(i + 1), show_counts) =~= output_of(
                            seen,
                            show_counts,
                        ).update(k, record_of(show_counts, agg.rep@, agg.count as nat)));
                        assert(output_of(seen, show_counts) =~= line_views(out@).push(
                            record_of(show_counts, prev_agg.rep@, prev_agg.count as nat),
                        ));
                    }
                    assert(line_views(out@).push(
                        record_of(show_counts, agg.rep@, agg.count as nat),
                    ) =~= output_of(all.take(i + 1), show_counts));
                }
            },
        }
        i += 1;
    }
    proof {
        assert(line_views(lines@).take(lines@.len() as int) =~= line_views(lines@));
    }
    match agg.finish() {
        Some(r) => {
            let ghost prev_out = out@;
            out.push(r);
            proof {
                assert(line_views(out@) =~= line_views(prev_out).push(r@));
                assert(line_views(out@) =~= output_of(line_views(lines@), show_counts));
            }
        },
        None => {
            proof {
                assert(line_views(out@) =~= output_of(line_views(lines@), show_counts));
            }
        },
    }
    out
}

} // verus!
