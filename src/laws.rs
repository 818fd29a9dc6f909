//! Properties that hold of every report.
use vstd::prelude::*;

use crate::entry::{classify, parse_lines, parse_text, EntryModel, LineKind};
use crate::report::{
    dead_of, entry_minutes, find_project, forward_entries, overlap_warnings, projects_of,
    report_of, saturate, saturate_projects, total_of, ProjectModel, Report,
};
use crate::text::{split_lines, trim, trim_end, trim_start};

verus! {

/// The sum of the projects' totals.
pub open spec fn projects_total(ps: Seq<ProjectModel>) -> nat
    decreases ps.len(),
{
    if ps.len() == 0 {
        0
    } else {
        projects_total(ps.drop_last()) + ps.last().total
    }
}

/// The sum of the signed gaps from the end of each entry to the start of the next.
pub open spec fn signed_gap_sum(vs: Seq<EntryModel>) -> int
    decreases vs.len(),
{
    if vs.len() < 2 {
        0
    } else {
        signed_gap_sum(vs.drop_last()) + (vs.last().start - vs[vs.len() - 2].end)
    }
}

proof fn lemma_projects_total_update(ps: Seq<ProjectModel>, j: int, p: ProjectModel)
    requires
        0 <= j < ps.len(),
    ensures
        projects_total(ps.update(j, p)) + ps[j].total == projects_total(ps) + p.total,
    decreases ps.len(),
{
    let q = ps.update(j, p);
    if j == ps.len() - 1 {
        assert(q.drop_last() == ps.drop_last());
    } else {
        assert(q.drop_last() == ps.drop_last().update(j, p));
        lemma_projects_total_update(ps.drop_last(), j, p);
    }
}

proof fn lemma_project_le_total(ps: Seq<ProjectModel>, j: int)
    requires
        0 <= j < ps.len(),
    ensures
        ps[j].total <= projects_total(ps),
    decreases ps.len(),
{
    if j < ps.len() - 1 {
        lemma_project_le_total(ps.drop_last(), j);
    }
}

proof fn lemma_projects_total_of(es: Seq<EntryModel>)
    ensures
        projects_total(projects_of(es)) == total_of(es),
    decreases es.len(),
{
    if es.len() > 0 {
        lemma_projects_total_of(es.drop_last());
        let ps = projects_of(es.drop_last());
        let e = es.last();
        let j = find_project(ps, e.label);
        if j < ps.len() {
            lemma_projects_total_update(
                ps,
                j as int,
                ProjectModel {
                    total: ps[j as int].total + entry_minutes(e),
                    notes: ps[j as int].notes + e.notes,
                    ..ps[j as int]
                },
            );
        } else {
            let q = ps.push(ProjectModel { name: e.label, total: entry_minutes(e), notes: e.notes });
            assert(q.drop_last() == ps);
        }
    }
}

proof fn lemma_saturate_small(ps: Seq<ProjectModel>)
    requires
        projects_total(ps) <= u32::MAX,
    ensures
        projects_total(saturate_projects(ps)) == projects_total(ps),
    decreases ps.len(),
{
    if ps.len() > 0 {
        assert(saturate_projects(ps).drop_last() =~= saturate_projects(ps.drop_last()));
        lemma_saturate_small(ps.drop_last());
    }
}

/// The time worked equals the sum of the projects' totals, for every text
/// whose time worked fits in a `u32` (beyond that, each total is capped on
/// its own).
pub proof fn law_total_is_sum_of_projects(text: Seq<char>)
    requires
        total_of(parse_text(text).entries) <= u32::MAX,
    ensures
        report_of(text).total_minutes == projects_total(report_of(text).projects),
{
    let es = parse_text(text).entries;
    lemma_projects_total_of(es);
    lemma_saturate_small(projects_of(es));
}

proof fn lemma_dead_without_overlaps(vs: Seq<EntryModel>)
    requires
        overlap_warnings(vs).len() == 0,
    ensures
        dead_of(vs) == signed_gap_sum(vs),
        forall|i: int| 0 < i < vs.len() ==> #[trigger] vs[i].start >= vs[i - 1].end,
    decreases vs.len(),
{
    if vs.len() >= 2 {
        lemma_dead_without_overlaps(vs.drop_last());
        assert forall|i: int| 0 < i < vs.len() implies #[trigger] vs[i].start >= vs[i - 1].end by {
            if i < vs.len() - 1 {
                assert(vs.drop_last()[i] == vs[i]);
                assert(vs.drop_last()[i - 1] == vs[i - 1]);
            }
        }
    }
}

/// Where no two consecutive entries that run forward overlap, no gap between
/// them is negative, and the time between entries is the sum of the gaps.
pub proof fn law_dead_time_is_sum_of_gaps(text: Seq<char>)
    requires
        overlap_warnings(forward_entries(parse_text(text).entries)).len() == 0,
    ensures
        ({
            let vs = forward_entries(parse_text(text).entries);
            &&& forall|i: int| 0 < i < vs.len() ==> #[trigger] vs[i].start >= vs[i - 1].end
            &&& signed_gap_sum(vs) >= 0
            &&& report_of(text).dead_time_minutes == saturate(signed_gap_sum(vs) as nat)
        }),
{
    lemma_dead_without_overlaps(forward_entries(parse_text(text).entries));
}

/// An entry that does not run forward adds no time between entries and no
/// overlap, wherever it stands.
pub proof fn law_backward_entry_adds_no_gap(es: Seq<EntryModel>, e: EntryModel)
    requires
        e.end <= e.start,
    ensures
        forward_entries(es.push(e)) == forward_entries(es),
        dead_of(forward_entries(es.push(e))) == dead_of(forward_entries(es)),
        overlap_warnings(forward_entries(es.push(e))) == overlap_warnings(forward_entries(es)),
{
    assert(es.push(e).drop_last() == es);
}

/// Text that is empty gives no entries, no projects, no warnings and zero totals.
pub proof fn law_empty_text(text: Seq<char>)
    requires
        text.len() == 0,
    ensures
        report_of(text).entries.len() == 0,
        report_of(text).projects.len() == 0,
        report_of(text).total_minutes == 0,
        report_of(text).dead_time_minutes == 0,
        report_of(text).warnings.len() == 0,
{
    let lines = split_lines(text);
    assert(lines == seq![Seq::<char>::empty()]);
    assert(lines.drop_last().len() == 0);
    assert(trim_start(Seq::<char>::empty()) == Seq::<char>::empty());
    assert(trim_end(Seq::<char>::empty()) == Seq::<char>::empty());
    assert(trim(lines.last()).len() == 0);
    assert(classify(lines.last()) == LineKind::Blank);
    let first = parse_lines(lines.drop_last());
    assert(first.entries.len() == 0 && first.warnings.len() == 0);
    assert(parse_lines(lines) == first);
    let es = parse_lines(lines).entries;
    assert(es.len() == 0);
    assert(text == Seq::<char>::empty());
    assert(parse_text(text).warnings.len() == 0);
    assert(forward_entries(es).len() == 0);
    assert(saturate_projects(projects_of(es)).len() == 0);
}

/// Reading the same text twice gives the same report.
pub proof fn law_same_text_same_report(r1: Report, r2: Report, t1: Seq<char>, t2: Seq<char>)
    requires
        r1@ == report_of(t1),
        r2@ == report_of(t2),
        t1 == t2,
    ensures
        r1@ == r2@,
{
}

} // verus!
