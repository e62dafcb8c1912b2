//! Deduplication in one pass: a line at a time, or a whole sequence of lines.
use vstd::prelude::*;

use crate::config::Config;
use crate::count::count_prefix_bytes;
use crate::lines::lines_match;
use crate::model::{deduplicated, emitted, lemma_runs_shape, render, runs};

verus! {

/// The lines that an optional line stands for: none or one.
pub open spec fn optional_line(r: Option<Vec<u8>>) -> Seq<Seq<u8>> {
    match r {
        Some(v) => seq![v@],
        None => Seq::empty(),
    }
}

/// The byte contents of a sequence of lines.
pub open spec fn line_views(lines: Seq<Vec<u8>>) -> Seq<Seq<u8>> {
    lines.map_values(|l: Vec<u8>| l@)
}

/// Writes the line for a run of `k` lines whose first line is `line`.
pub fn render_line(line: &Vec<u8>, k: u64, show_count: bool) -> (r: Vec<u8>)
    ensures
        r@ == render(line@, k as nat, show_count),
{
    let mut out: Vec<u8> = if show_count {
        count_prefix_bytes(k)
    } else {
        Vec::new()
    };
    let ghost start = out@;
    let mut i: usize = 0;
    while i < line.len()
        invariant
            i <= line@.len(),
            out@ == start + line@.subrange(0, i as int),
        decreases line@.len() - i,
    {
        out.push(line[i]);
        i = i + 1;
        assert(out@ =~= start + line@.subrange(0, i as int));
    }
    assert(line@.subrange(0, line@.len() as int) =~= line@);
    if !show_count {
        assert(out@ =~= line@);
    }
    out
}

/// The state of one pass: the first line of the pending run and its length.
pub struct Deduplicator {
    show_count: bool,
    previous: Vec<u8>,
    run_length: u64,
    seen: Ghost<Seq<Seq<u8>>>,
}

impl Deduplicator {
    /// The lines fed so far.
    pub closed spec fn lines(&self) -> Seq<Seq<u8>> {
        self.seen@
    }

    /// Whether written lines carry their run's length.
    pub closed spec fn shows_count(&self) -> bool {
        self.show_count
    }

    /// The length of the pending run; zero before the first line.
    pub closed spec fn pending_length(&self) -> nat {
        self.run_length as nat
    }

    /// The pending run is the last run of the lines fed so far.
    pub closed spec fn wf(&self) -> bool {
        &&& self.run_length <= self.seen@.len()
        &&& (self.seen@.len() == 0 <==> self.run_length == 0)
        &&& self.seen@.len() > 0 ==> runs(self.seen@).last() == (
            self.previous@,
            self.run_length as nat,
        )
    }

    /// A pass that has read nothing yet.
    pub fn new(show_count: bool) -> (r: Deduplicator)
        ensures
            r.wf(),
            r.lines() == Seq::<Seq<u8>>::empty(),
            r.shows_count() == show_count,
            r.pending_length() == 0,
    {
        Deduplicator { show_count, previous: Vec::new(), run_length: 0, seen: Ghost(Seq::empty()) }
    }

    /// The length of the pending run; zero before the first line.
    pub fn run_length(&self) -> (r: u64)
        ensures
            r == self.pending_length(),
    {
        self.run_length
    }

    /// Takes the next line. Returns the line written for the run that it
    /// closes, if it closes one: the lines returned so far are always the
    /// deduplicated lines of every run but the pending one.
    pub fn feed(&mut self, line: Vec<u8>) -> (r: Option<Vec<u8>>)
        requires
            old(self).wf(),
            old(self).pending_length() < u64::MAX,
        ensures
            final(self).wf(),
            final(self).lines() == old(self).lines().push(line@),
            final(self).shows_count() == old(self).shows_count(),
            emitted(final(self).lines(), final(self).shows_count()) == emitted(
                old(self).lines(),
                old(self).shows_count(),
            ) + optional_line(r),
    {
        let ghost old_lines = self.seen@;
        let ghost show = self.show_count;
        let ghost new_lines = old_lines.push(line@);
        proof {
            assert(new_lines.drop_last() =~= old_lines);
            lemma_runs_shape(old_lines);
        }
        if self.run_length > 0 && lines_match(&self.previous, &line) {
            self.run_length = self.run_length + 1;
            self.seen = Ghost(new_lines);
            proof {
                assert(runs(new_lines).drop_last() =~= runs(old_lines).drop_last());
                assert(deduplicated(new_lines, show).drop_last() =~= deduplicated(
                    old_lines,
                    show,
                ).drop_last());
                assert(emitted(new_lines, show) =~= emitted(old_lines, show) + optional_line(
                    None,
                ));
            }
            None
        } else {
            let closed = if self.run_length > 0 {
                Some(render_line(&self.previous, self.run_length, self.show_count))
            } else {
                None
            };
            self.previous = line;
            self.run_length = 1;
            self.seen = Ghost(new_lines);
            proof {
                assert(runs(new_lines) == runs(old_lines).push((line@, 1nat)));
                assert(deduplicated(new_lines, show) =~= deduplicated(old_lines, show).push(
                    render(line@, 1, show),
                ));
                if old_lines.len() == 0 {
                    assert(emitted(new_lines, show) =~= emitted(old_lines, show) + optional_line(
                        closed,
                    ));
                } else {
                    assert(deduplicated(old_lines, show).last() == render(
                        runs(old_lines).last().0,
                        runs(old_lines).last().1,
                        show,
                    ));
                    assert(emitted(new_lines, show) =~= emitted(old_lines, show) + optional_line(
                        closed,
                    ));
                }
            }
            closed
        }
    }

    /// Ends the pass. Returns the line written for the pending run, if any:
    /// with the lines that `feed` returned it makes the deduplicated lines.
    pub fn finish(self) -> (r: Option<Vec<u8>>)
        requires
            self.wf(),
        ensures
            deduplicated(self.lines(), self.shows_count()) == emitted(
                self.lines(),
                self.shows_count(),
            ) + optional_line(r),
            self.lines().len() == 0 <==> r is None,
    {
        let ghost lines = self.seen@;
        let ghost show = self.show_count;
        proof {
            lemma_runs_shape(lines);
        }
        if self.run_length == 0 {
            assert(deduplicated(lines, show) =~= emitted(lines, show) + optional_line(None));
            None
        } else {
            let r = render_line(&self.previous, self.run_length, self.show_count);
            assert(deduplicated(lines, show) =~= emitted(lines, show) + optional_line(Some(r)));
            Some(r)
        }
    }
}

/// Deduplicates `lines`, showing counts when `config.count` is set: one
/// line per run of matching adjacent lines, its first, after the run's
/// length when counting.
pub fn run(config: &Config, lines: &Vec<Vec<u8>>) -> (out: Vec<Vec<u8>>)
    ensures
        line_views(out@) == deduplicated(line_views(lines@), config.count),
        lines@.len() == 0 ==> out@.len() == 0,
{
    let mut pass = Deduplicator::new(config.count);
    let mut out: Vec<Vec<u8>> = Vec::new();
    let mut i: usize = 0;
    while i < lines.len()
        invariant
            i <= lines@.len(),
            pass.wf(),
            pass.shows_count() == config.count,
            pass.lines() == line_views(lines@.subrange(0, i as int)),
            line_views(out@) == emitted(pass.lines(), config.count),
        decreases lines@.len() - i,
    {
        let line = lines[i].clone();
        assert(line@ =~= lines@[i as int]@);
        let closed = pass.feed(line);
        let ghost before = out@;
        match closed {
            Some(l) => {
                out.push(l);
            },
            None => {},
        }
        i = i + 1;
        assert(line_views(lines@.subrange(0, i as int)) =~= line_views(
            lines@.subrange(0, i - 1),
        ).push(lines@[i - 1]@));
        assert(line_views(out@) =~= line_views(before) + optional_line(closed));
    }
    let last = pass.finish();
    let ghost before = out@;
    match last {
        Some(l) => {
            out.push(l);
        },
        None => {},
    }
    assert(lines@.subrange(0, lines@.len() as int) =~= lines@);
    assert(line_views(out@) =~= line_views(before) + optional_line(last));
    out
}

} // verus!
