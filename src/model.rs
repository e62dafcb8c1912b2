//! The mathematical meaning of deduplication: the runs of a sequence of lines
//! and the lines written for them, with the laws they obey.
use vstd::prelude::*;

use crate::count::count_prefix;
use crate::lines::same_line;

verus! {

/// The runs of `lines`, in order: each is its first line and the number of
/// adjacent lines that match it.
pub open spec fn runs(lines: Seq<Seq<u8>>) -> Seq<(Seq<u8>, nat)>
    decreases lines.len(),
{
    if lines.len() == 0 {
        Seq::empty()
    } else {
        let r = runs(lines.drop_last());
        let x = lines.last();
        if r.len() > 0 && same_line(r.last().0, x) {
            r.update(r.len() - 1, (r.last().0, r.last().1 + 1))
        } else {
            r.push((x, 1))
        }
    }
}

/// The line written for a run of `k` lines whose first line is `line`.
pub open spec fn render(line: Seq<u8>, k: nat, show_count: bool) -> Seq<u8> {
    if show_count {
        count_prefix(k) + line
    } else {
        line
    }
}

/// The lines written for `lines`: one per run.
pub open spec fn deduplicated(lines: Seq<Seq<u8>>, show_count: bool) -> Seq<Seq<u8>> {
    runs(lines).map_values(|r: (Seq<u8>, nat)| render(r.0, r.1, show_count))
}

/// The lines written for the runs of `lines` that are closed: all but the last.
pub open spec fn emitted(lines: Seq<Seq<u8>>, show_count: bool) -> Seq<Seq<u8>> {
    let d = deduplicated(lines, show_count);
    if d.len() == 0 {
        d
    } else {
        d.drop_last()
    }
}

/// No two adjacent lines of `lines` match.
pub open spec fn no_adjacent_matches(lines: Seq<Seq<u8>>) -> bool {
    forall|i: int| 0 <= i < lines.len() - 1 ==> !same_line(#[trigger] lines[i], lines[i + 1])
}

/// Every line of `lines` matches its first.
pub open spec fn all_match_first(lines: Seq<Seq<u8>>) -> bool {
    forall|i: int| 0 <= i < lines.len() ==> same_line(#[trigger] lines[i], lines[0])
}

/// There is a run exactly when there is a line; the last run matches the last
/// line; no run is empty or longer than the input.
pub proof fn lemma_runs_shape(lines: Seq<Seq<u8>>)
    ensures
        runs(lines).len() <= lines.len(),
        runs(lines).len() == 0 <==> lines.len() == 0,
        lines.len() > 0 ==> same_line(runs(lines).last().0, lines.last()),
        forall|i: int|
            0 <= i < runs(lines).len() ==> 1 <= (#[trigger] runs(lines)[i]).1 <= lines.len(),
    decreases lines.len(),
{
    if lines.len() > 0 {
        lemma_runs_shape(lines.drop_last());
    }
}

/// Adjacent runs never match.
pub proof fn lemma_runs_no_adjacent_matches(lines: Seq<Seq<u8>>)
    ensures
        forall|i: int|
            0 <= i < runs(lines).len() - 1 ==> !same_line(
                (#[trigger] runs(lines)[i]).0,
                runs(lines)[i + 1].0,
            ),
    decreases lines.len(),
{
    if lines.len() > 0 {
        lemma_runs_no_adjacent_matches(lines.drop_last());
        lemma_runs_shape(lines.drop_last());
    }
}

/// Lines that share no run boundary split into the runs of each part.
pub proof fn lemma_runs_split(a: Seq<Seq<u8>>, b: Seq<Seq<u8>>)
    requires
        a.len() == 0 || b.len() == 0 || !same_line(a.last(), b[0]),
    ensures
        runs(a + b) == runs(a) + runs(b),
    decreases b.len(),
{
    if b.len() == 0 {
        assert(a + b =~= a);
        assert(runs(a) + runs(b) =~= runs(a));
    } else {
        let b1 = b.drop_last();
        assert((a + b).drop_last() =~= a + b1);
        assert((a + b).last() == b.last());
        lemma_runs_split(a, b1);
        lemma_runs_shape(a);
        lemma_runs_shape(b1);
        if b1.len() == 0 {
            assert(b1 =~= Seq::<Seq<u8>>::empty());
            assert(a + b1 =~= a);
            assert(runs(a) + runs(b1) =~= runs(a));
            assert(runs(a) + runs(b) =~= runs(a).push((b.last(), 1)));
        } else {
            let r = runs(a) + runs(b1);
            assert(r.last() == runs(b1).last());
            if same_line(runs(b1).last().0, b.last()) {
                assert(r.update(r.len() - 1, (r.last().0, r.last().1 + 1)) =~= runs(a) + runs(
                    b,
                ));
            } else {
                assert(r.push((b.last(), 1)) =~= runs(a) + runs(b));
            }
        }
    }
}

/// Lines that all match the first form a single run, kept as the first line.
pub proof fn lemma_runs_single(lines: Seq<Seq<u8>>)
    requires
        lines.len() > 0,
        all_match_first(lines),
    ensures
        runs(lines) == seq![(lines[0], lines.len())],
    decreases lines.len(),
{
    let l1 = lines.drop_last();
    if l1.len() == 0 {
        assert(runs(l1) =~= Seq::<(Seq<u8>, nat)>::empty());
        assert(runs(lines) =~= seq![(lines[0], lines.len())]);
    } else {
        assert forall|i: int| 0 <= i < l1.len() implies same_line(#[trigger] l1[i], l1[0]) by {
            assert(same_line(lines[i], lines[0]));
        }
        lemma_runs_single(l1);
        assert(same_line(lines[lines.len() - 1], lines[0]));
        assert(runs(lines) =~= seq![(lines[0], lines.len())]);
    }
}

/// Without adjacent matches every line is a run of its own.
pub proof fn lemma_runs_all_single(lines: Seq<Seq<u8>>)
    requires
        no_adjacent_matches(lines),
    ensures
        runs(lines) == lines.map_values(|l: Seq<u8>| (l, 1nat)),
    decreases lines.len(),
{
    if lines.len() > 0 {
        let l1 = lines.drop_last();
        assert forall|i: int| 0 <= i < l1.len() - 1 implies !same_line(
            #[trigger] l1[i],
            l1[i + 1],
        ) by {
            assert(!same_line(lines[i], lines[i + 1]));
        }
        lemma_runs_all_single(l1);
        lemma_runs_shape(l1);
        if l1.len() > 0 {
            assert(!same_line(lines[l1.len() - 1], lines[l1.len() as int]));
        }
        assert(runs(lines) =~= lines.map_values(|l: Seq<u8>| (l, 1nat)));
    }
}

/// Lines of which no two adjacent ones match are written back unchanged when
/// counting is off, and each after a count of one when it is on.
pub proof fn law_distinct_lines_kept(lines: Seq<Seq<u8>>)
    requires
        no_adjacent_matches(lines),
    ensures
        deduplicated(lines, false) == lines,
        deduplicated(lines, true) == lines.map_values(|l: Seq<u8>| count_prefix(1) + l),
{
    lemma_runs_all_single(lines);
    assert(deduplicated(lines, false) =~= lines);
    assert(deduplicated(lines, true) =~= lines.map_values(|l: Seq<u8>| count_prefix(1) + l));
}

/// A maximal run of `k` matching lines, between lines that do not match it,
/// is written as exactly one line: its first line, after the count `k` when
/// counting is on. What stands before and after it is written as on its own.
pub proof fn law_run_written_once(
    before: Seq<Seq<u8>>,
    run: Seq<Seq<u8>>,
    after: Seq<Seq<u8>>,
    show_count: bool,
)
    requires
        run.len() > 0,
        all_match_first(run),
        before.len() == 0 || !same_line(before.last(), run[0]),
        after.len() == 0 || !same_line(run.last(), after[0]),
    ensures
        deduplicated(before + run + after, show_count) == deduplicated(before, show_count).push(
            render(run[0], run.len(), show_count),
        ) + deduplicated(after, show_count),
{
    assert(same_line(run[run.len() - 1], run[0]));
    lemma_runs_split(before, run);
    let br = before + run;
    assert(br.last() == run.last());
    lemma_runs_split(br, after);
    lemma_runs_single(run);
    let f = |r: (Seq<u8>, nat)| render(r.0, r.1, show_count);
    assert(runs(br + after) == runs(before) + seq![(run[0], run.len())] + runs(after));
    assert((runs(before) + seq![(run[0], run.len())] + runs(after)).map_values(f) =~= runs(
        before,
    ).map_values(f).push(render(run[0], run.len(), show_count)) + runs(after).map_values(f));
}

/// Deduplicating the written lines again, with counting off, changes nothing.
pub proof fn law_idempotent(lines: Seq<Seq<u8>>)
    ensures
        deduplicated(deduplicated(lines, false), false) == deduplicated(lines, false),
{
    let d = deduplicated(lines, false);
    lemma_runs_no_adjacent_matches(lines);
    assert forall|i: int| 0 <= i < d.len() - 1 implies !same_line(#[trigger] d[i], d[i + 1]) by {
        assert(!same_line(runs(lines)[i].0, runs(lines)[i + 1].0));
    }
    law_distinct_lines_kept(d);
}

/// Nothing is written for no lines.
pub proof fn law_empty(show_count: bool)
    ensures
        deduplicated(Seq::empty(), show_count) == Seq::<Seq<u8>>::empty(),
{
    assert(deduplicated(Seq::empty(), show_count) =~= Seq::<Seq<u8>>::empty());
}

} // verus!
