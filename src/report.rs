//! Summing up the entries: overall start and end, time worked, time between
//! entries, totals and notes per project, and warnings about overlaps.
use vstd::prelude::*;

use crate::entry::{
    entry_seq, parse_entries, parse_text, span_minutes, string_seq, Entry, EntryModel,
};
use crate::time::{clock_str, decimal_hours_str, duration_str, Time};

verus! {

/// The time worked on one project and the notes written for it.
#[derive(Clone, Debug, PartialEq, Eq)]
pub struct ProjectSummary {
    pub name: String,
    pub total_minutes: u32,
    pub notes: Vec<String>,
}

/// What a project summary holds, as plain values.
pub struct ProjectModel {
    pub name: Seq<char>,
    pub total: nat,
    pub notes: Seq<Seq<char>>,
}

impl View for ProjectSummary {
    type V = ProjectModel;

    open spec fn view(&self) -> ProjectModel {
        ProjectModel {
            name: self.name@,
            total: self.total_minutes as nat,
            notes: string_seq(self.notes@),
        }
    }
}

pub open spec fn project_seq(v: Seq<ProjectSummary>) -> Seq<ProjectModel> {
    v.map_values(|p: ProjectSummary| p@)
}

/// `n`, or the largest `u32` where `n` exceeds it.
pub open spec fn saturate(n: nat) -> u32 {
    if n > u32::MAX {
        u32::MAX
    } else {
        n as u32
    }
}

/// The projects with each total saturated to a `u32`.
pub open spec fn saturate_projects(ps: Seq<ProjectModel>) -> Seq<ProjectModel> {
    ps.map_values(|p: ProjectModel| ProjectModel { total: saturate(p.total) as nat, ..p })
}

pub open spec fn entry_minutes(e: EntryModel) -> nat {
    span_minutes(e.start, e.end)
}

/// The minutes worked over all entries.
pub open spec fn total_of(es: Seq<EntryModel>) -> nat
    decreases es.len(),
{
    if es.len() == 0 {
        0
    } else {
        total_of(es.drop_last()) + entry_minutes(es.last())
    }
}

/// The entries that run forward in time, in order.
pub open spec fn forward_entries(es: Seq<EntryModel>) -> Seq<EntryModel>
    decreases es.len(),
{
    if es.len() == 0 {
        Seq::empty()
    } else if es.last().end > es.last().start {
        forward_entries(es.drop_last()).push(es.last())
    } else {
        forward_entries(es.drop_last())
    }
}

/// The minutes from the end of `a` to the start of `b`; zero where they overlap.
pub open spec fn gap_minutes(a: EntryModel, b: EntryModel) -> nat {
    span_minutes(a.end, b.start)
}

/// The sum of the gaps between each entry and the next.
pub open spec fn dead_of(vs: Seq<EntryModel>) -> nat
    decreases vs.len(),
{
    if vs.len() < 2 {
        0
    } else {
        dead_of(vs.drop_last()) + gap_minutes(vs[vs.len() - 2], vs.last())
    }
}

/// `label (h:mm-h:mm)`.
pub open spec fn entry_str(e: EntryModel) -> Seq<char> {
    e.label + " ("@ + clock_str(e.start) + "-"@ + clock_str(e.end) + ")"@
}

pub open spec fn overlap_warning(a: EntryModel, b: EntryModel) -> Seq<char> {
    "overlapping entries between "@ + entry_str(a) + " and "@ + entry_str(b)
}

/// A warning for each entry that starts before the one before it ends.
pub open spec fn overlap_warnings(vs: Seq<EntryModel>) -> Seq<Seq<char>>
    decreases vs.len(),
{
    if vs.len() < 2 {
        Seq::empty()
    } else if vs.last().start < vs[vs.len() - 2].end {
        overlap_warnings(vs.drop_last()).push(overlap_warning(vs[vs.len() - 2], vs.last()))
    } else {
        overlap_warnings(vs.drop_last())
    }
}

/// The index of the first project named `name`, or the number of projects.
pub open spec fn find_project(ps: Seq<ProjectModel>, name: Seq<char>) -> nat
    decreases ps.len(),
{
    if ps.len() == 0 || ps[0].name == name {
        0
    } else {
        1 + find_project(ps.drop_first(), name)
    }
}

/// The projects of the entries, in order of first appearance: each with the
/// minutes of its entries and their notes, in order.
pub open spec fn projects_of(es: Seq<EntryModel>) -> Seq<ProjectModel>
    decreases es.len(),
{
    if es.len() == 0 {
        Seq::empty()
    } else {
        let ps = projects_of(es.drop_last());
        let e = es.last();
        let j = find_project(ps, e.label);
        if j < ps.len() {
            ps.update(
                j as int,
                ProjectModel {
                    total: ps[j as int].total + entry_minutes(e),
                    notes: ps[j as int].notes + e.notes,
                    ..ps[j as int]
                },
            )
        } else {
            ps.push(ProjectModel { name: e.label, total: entry_minutes(e), notes: e.notes })
        }
    }
}

proof fn lemma_find_project(ps: Seq<ProjectModel>, name: Seq<char>, i: int)
    requires
        0 <= i <= ps.len(),
        forall|j: int| 0 <= j < i ==> (#[trigger] ps[j]).name != name,
        i == ps.len() || ps[i].name == name,
    ensures
        find_project(ps, name) == i,
    decreases i,
{
    if i > 0 {
        lemma_find_project(ps.drop_first(), name, i - 1);
    }
}

fn append_notes(dst: &mut Vec<String>, src: &Vec<String>)
    ensures
        string_seq(final(dst)@) == string_seq(old(dst)@) + string_seq(src@),
{
    let ghost start = string_seq(dst@);
    let mut i: usize = 0;
    while i < src.len()
        invariant
            i <= src.len(),
            string_seq(dst@) == start + string_seq(src@).take(i as int),
        decreases src.len() - i,
    {
        let note: String = src[i].clone();
        assert(note@ == src@[i as int]@);
        let ghost before = dst@;
        dst.push(note);
        assert(string_seq(dst@) =~= string_seq(before).push(src@[i as int]@));
        i = i + 1;
        assert(string_seq(dst@) =~= start + string_seq(src@).take(i as int));
    }
    assert(string_seq(src@).take(i as int) == string_seq(src@));
}

fn entry_string(e: &Entry) -> (r: String)
    ensures
        r@ == entry_str(e@),
{
    let mut r = e.interval.label.clone();
    assert(r@ == e.interval.label@);
    r.append(" (");
    r.append(e.interval.start.format().as_str());
    r.append("-");
    r.append(e.interval.end.format().as_str());
    r.append(")");
    assert(r@ =~= entry_str(e@));
    r
}

/// The summary of a text: its entries, the projects they belong to, the
/// minutes worked and the minutes between entries, and the warnings.
#[derive(Clone, Debug, PartialEq, Eq)]
pub struct Report {
    pub entries: Vec<Entry>,
    pub projects: Vec<ProjectSummary>,
    pub total_minutes: u32,
    pub dead_time_minutes: u32,
    pub warnings: Vec<String>,
}

/// Sums up `entries`: the minutes worked, the minutes between consecutive
/// entries that run forward, the projects, and `warnings` followed by one
/// warning for each pair of such entries that overlap. Totals stop at the
/// largest `u32`.
pub fn summarize(entries: Vec<Entry>, warnings: Vec<String>) -> (r: Report)
    requires
        forall|i: int| 0 <= i < entries.len() ==> (#[trigger] entries[i]).wf(),
    ensures
        r.entries@ == entries@,
        r.total_minutes == saturate(total_of(entry_seq(entries@))),
        r.dead_time_minutes == saturate(dead_of(forward_entries(entry_seq(entries@)))),
        project_seq(r.projects@) == saturate_projects(projects_of(entry_seq(entries@))),
        string_seq(r.warnings@) == string_seq(warnings@) + overlap_warnings(
            forward_entries(entry_seq(entries@)),
        ),
{
    let ghost es = entry_seq(entries@);
    let mut total: u32 = 0;
    let mut dead: u32 = 0;
    let mut prev: Option<usize> = None;
    let mut projects: Vec<ProjectSummary> = Vec::new();
    let mut all_warnings = warnings;
    let ghost first_warnings = string_seq(all_warnings@);
    let mut i: usize = 0;
    while i < entries.len()
        invariant
            es == entry_seq(entries@),
            forall|k: int| 0 <= k < entries.len() ==> (#[trigger] entries[k]).wf(),
            i <= entries.len(),
            total == saturate(total_of(es.take(i as int))),
            dead == saturate(dead_of(forward_entries(es.take(i as int)))),
            prev is None <==> forward_entries(es.take(i as int)).len() == 0,
            prev is Some ==> prev->0 < i && es[prev->0 as int] == forward_entries(
                es.take(i as int),
            ).last(),
            string_seq(all_warnings@) == first_warnings + overlap_warnings(
                forward_entries(es.take(i as int)),
            ),
            project_seq(projects@) == saturate_projects(projects_of(es.take(i as int))),
        decreases entries.len() - i,
    {
        let ghost pre = es.take(i as int);
        let ghost post = es.take(i + 1);
        proof {
            assert(post.drop_last() == pre);
            assert(post.last() == es[i as int]);
            assert(es[i as int] == entries@[i as int]@);
        }
        let e = &entries[i];
        let d = e.interval.duration_minutes();
        total = total.saturating_add(d);
        if d > 0 {
            match prev {
                Some(p) => {
                    let a = &entries[p];
                    proof {
                        assert(es[p as int] == entries@[p as int]@);
                        assert(forward_entries(post) == forward_entries(pre).push(es[i as int]));
                        let fw = forward_entries(post);
                        assert(fw[fw.len() - 2] == es[p as int]);
                        assert(fw.drop_last() == forward_entries(pre));
                    }
                    if e.interval.start.minutes < a.interval.end.minutes {
                        let mut w = String::new();
                        w.append("overlapping entries between ");
                        w.append(entry_string(a).as_str());
                        w.append(" and ");
                        w.append(entry_string(e).as_str());
                        assert(w@ =~= overlap_warning(es[p as int], es[i as int]));
                        let ghost before = all_warnings@;
                        all_warnings.push(w);
                        assert(string_seq(all_warnings@) =~= string_seq(before).push(
                            overlap_warning(es[p as int], es[i as int]),
                        ));
                        assert(string_seq(all_warnings@) =~= first_warnings + overlap_warnings(
                            forward_entries(post),
                        ));
                    } else {
                        dead = dead.saturating_add(e.interval.start.minutes - a.interval.end.minutes);
                    }
                },
                None => {},
            }
            prev = Some(i);
        }
        // Add the entry to its project, or open a project for it.
        let mut j: usize = 0;
        while j < projects.len() && projects[j].name != e.interval.label
            invariant
                j <= projects.len(),
                forall|k: int| 0 <= k < j ==> (#[trigger] projects@[k]).name@ != e.interval.label@,
            decreases projects.len() - j,
        {
            j = j + 1;
        }
        let ghost ps = projects_of(pre);
        proof {
            let sp = saturate_projects(ps);
            assert(sp.len() == ps.len());
            assert forall|k: int| 0 <= k < j implies (#[trigger] ps[k]).name != e.interval.label@ by {
                assert(sp[k] == project_seq(projects@)[k]);
            }
            if j < projects.len() {
                assert(sp[j as int] == project_seq(projects@)[j as int]);
            }
            lemma_find_project(ps, e.interval.label@, j as int);
        }
        if j < projects.len() {
            let ghost before = projects@;
            let t = projects[j].total_minutes.saturating_add(d);
            projects[j].total_minutes = t;
            append_notes(&mut projects[j].notes, &e.notes);
            proof {
                let em = es[i as int];
                assert(em == e@);
                let target = saturate_projects(projects_of(post));
                assert(projects_of(post) == ps.update(
                    j as int,
                    ProjectModel {
                        total: ps[j as int].total + entry_minutes(em),
                        notes: ps[j as int].notes + em.notes,
                        ..ps[j as int]
                    },
                ));
                assert(before[j as int]@ == saturate_projects(ps)[j as int]);
                assert forall|k: int| 0 <= k < projects.len() implies #[trigger] project_seq(
                    projects@,
                )[k] == target[k] by {
                    if k != j {
                        assert(projects@[k] == before[k]);
                        assert(project_seq(before)[k] == saturate_projects(ps)[k]);
                    }
                }
                assert(project_seq(projects@) =~= target);
            }
        } else {
            let mut notes: Vec<String> = Vec::new();
            append_notes(&mut notes, &e.notes);
            let name = e.interval.label.clone();
            assert(name@ == e.interval.label@);
            let ghost before = projects@;
            projects.push(ProjectSummary { name, total_minutes: d, notes });
            proof {
                let em = es[i as int];
                assert(em == e@);
                let target = saturate_projects(projects_of(post));
                assert(projects_of(post) == ps.push(
                    ProjectModel { name: em.label, total: entry_minutes(em), notes: em.notes },
                ));
                assert forall|k: int| 0 <= k < projects.len() implies #[trigger] project_seq(
                    projects@,
                )[k] == target[k] by {
                    if k < before.len() {
                        assert(projects@[k] == before[k]);
                        assert(project_seq(before)[k] == saturate_projects(ps)[k]);
                    }
                }
                assert(project_seq(projects@) =~= target);
            }
        }
        i = i + 1;
    }
    assert(es.take(i as int) == es);
    Report {
        entries,
        projects,
        total_minutes: total,
        dead_time_minutes: dead,
        warnings: all_warnings,
    }
}

/// What a report holds, as plain values.
pub struct ReportModel {
    pub entries: Seq<EntryModel>,
    pub projects: Seq<ProjectModel>,
    pub total_minutes: nat,
    pub dead_time_minutes: nat,
    pub warnings: Seq<Seq<char>>,
}

impl View for Report {
    type V = ReportModel;

    open spec fn view(&self) -> ReportModel {
        ReportModel {
            entries: entry_seq(self.entries@),
            projects: project_seq(self.projects@),
            total_minutes: self.total_minutes as nat,
            dead_time_minutes: self.dead_time_minutes as nat,
            warnings: string_seq(self.warnings@),
        }
    }
}

/// The report on the text `s`: its entries and the line warnings, then the
/// sums over the entries and a warning for each overlap between
/// consecutive entries that run forward.
pub open spec fn report_of(s: Seq<char>) -> ReportModel {
    let st = parse_text(s);
    let fw = forward_entries(st.entries);
    ReportModel {
        entries: st.entries,
        projects: saturate_projects(projects_of(st.entries)),
        total_minutes: saturate(total_of(st.entries)) as nat,
        dead_time_minutes: saturate(dead_of(fw)) as nat,
        warnings: st.warnings + overlap_warnings(fw),
    }
}

/// Reads the time-tracking notes in `text` and sums them up. Never fails:
/// whatever cannot be read is reported among the warnings.
pub fn parse_time_tracking_data(text: &str) -> (r: Report)
    ensures
        r@ == report_of(text@),
        r.wf(),
{
    let (entries, warnings) = parse_entries(text);
    summarize(entries, warnings)
}

impl Report {
    pub open spec fn wf(&self) -> bool {
        forall|i: int| 0 <= i < self.entries.len() ==> (#[trigger] self.entries[i]).wf()
    }

    /// The start of the first entry as `h:mm`, or `--:--` without entries.
    pub fn formatted_start_time(&self) -> (r: String)
        ensures
            self.entries.len() == 0 ==> r@ == "--:--"@,
            self.entries.len() > 0 ==> r@ == clock_str(self@.entries[0].start),
    {
        if self.entries.len() == 0 {
            "--:--".to_owned()
        } else {
            assert(self@.entries[0] == self.entries@[0]@);
            self.entries[0].interval.start.format()
        }
    }

    /// The end of the last entry as `h:mm`, or `--:--` without entries.
    pub fn formatted_end_time(&self) -> (r: String)
        ensures
            self.entries.len() == 0 ==> r@ == "--:--"@,
            self.entries.len() > 0 ==> r@ == clock_str(self@.entries.last().end),
    {
        if self.entries.len() == 0 {
            "--:--".to_owned()
        } else {
            let last = self.entries.len() - 1;
            assert(self@.entries.last() == self.entries@[last as int]@);
            self.entries[last].interval.end.format()
        }
    }

    /// The minutes worked, in words.
    pub fn formatted_total_minutes(&self) -> (r: String)
        ensures
            r@ == duration_str(self.total_minutes as nat),
    {
        Time::format_duration_minutes(self.total_minutes)
    }

    /// The hours worked, with two decimals.
    pub fn formatted_total_decimal(&self) -> (r: String)
        ensures
            r@ == decimal_hours_str(self.total_minutes as nat),
    {
        Time::format_duration_decimal(self.total_minutes)
    }

    /// The minutes between entries, in words.
    pub fn formatted_dead_time_minutes(&self) -> (r: String)
        ensures
            r@ == duration_str(self.dead_time_minutes as nat),
    {
        Time::format_duration_minutes(self.dead_time_minutes)
    }

    /// The hours between entries, with two decimals.
    pub fn formatted_dead_decimal(&self) -> (r: String)
        ensures
            r@ == decimal_hours_str(self.dead_time_minutes as nat),
    {
        Time::format_duration_decimal(self.dead_time_minutes)
    }
}

/// The notes as a list: each on a line of its own after `- `.
pub open spec fn notes_list(notes: Seq<Seq<char>>) -> Seq<char>
    decreases notes.len(),
{
    if notes.len() == 0 {
        Seq::empty()
    } else if notes.len() == 1 {
        "- "@ + notes[0]
    } else {
        notes_list(notes.drop_last()) + "\n- "@ + notes.last()
    }
}

impl ProjectSummary {
    /// The project's notes as a list to paste elsewhere: `- ` before each
    /// note, one note per line.
    pub fn notes_text(&self) -> (r: String)
        ensures
            r@ == notes_list(self@.notes),
    {
        let ghost ns = self@.notes;
        let mut r = String::new();
        let mut i: usize = 0;
        while i < self.notes.len()
            invariant
                ns == string_seq(self.notes@),
                i <= self.notes.len(),
                r@ == notes_list(ns.take(i as int)),
            decreases self.notes.len() - i,
        {
            proof {
                assert(ns.take(i + 1).drop_last() == ns.take(i as int));
                assert(ns.take(i + 1).last() == self.notes@[i as int]@);
            }
            if i == 0 {
                r.append("- ");
            } else {
                r.append("\n- ");
            }
            r.append(self.notes[i].as_str());
            i = i + 1;
            proof {
                if i == 1 {
                    assert(ns.take(0).len() == 0);
                    assert(r@ =~= notes_list(ns.take(1)));
                }
            }
        }
        assert(ns.take(i as int) == ns);
        r
    }
}

} // verus!
