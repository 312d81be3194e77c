//! The compliance gap report: the control matrix rendered as Markdown.
//!
//! Controls are grouped by domain, then by category, both in string order;
//! each control lists its status, gap, owner, evidence and fact references.
//! Titles and the grouping come from the framework index, since the matrix
//! holds identifiers only.

use vstd::prelude::*;

use crate::compliance::control::{ControlIndex, ControlIndexEntry};
use crate::model::{status_text, ControlStatus};
use crate::project::matrix::{Matrix, MatrixEntry};
use crate::sorted::{insert_sorted, lemma_is_sorted_set, lemma_push_to_set, lemma_sorted_set_values, sorted_set, strictly_sorted};
use crate::text::{
    append_dec, append_joined, append_str, contains_seq, dec, join, lemma_contains_part, lemma_contains_self,
    lemma_contains_halves, lemma_contains_trans, lemma_contains_within, string_of, texts,
};

verus! {

/// One matrix row found in the index: domain, category, control number,
/// title and the matrix entry.
pub type ReportRow = (Seq<char>, Seq<char>, Seq<char>, Seq<char>, MatrixEntry);

/// The last index entry with exactly this identifier, or -1 (a lookup table
/// built from the index keeps the last one).
pub open spec fn last_entry(controls: Seq<ControlIndexEntry>, id: (Seq<char>, Seq<char>)) -> int
    decreases controls.len(),
{
    if controls.len() == 0 {
        -1
    } else if controls.last().id@ == id {
        controls.len() - 1
    } else {
        last_entry(controls.drop_last(), id)
    }
}

/// The report row of matrix row `i`, described by index entry `j`.
pub open spec fn row_at(rows: Seq<(crate::model::ControlId, MatrixEntry)>, controls: Seq<ControlIndexEntry>, i: int, j: int) -> ReportRow {
    (controls[j].domain@, controls[j].category@, rows[i].0.control_id@, controls[j].title@, rows[i].1)
}

/// The matrix rows found in the index, in matrix order.
pub open spec fn report_rows(rows: Seq<(crate::model::ControlId, MatrixEntry)>, controls: Seq<ControlIndexEntry>) -> Seq<ReportRow>
    decreases rows.len(),
{
    if rows.len() == 0 {
        Seq::empty()
    } else {
        let i = rows.len() - 1;
        let j = last_entry(controls, rows[i].0@);
        report_rows(rows.drop_last(), controls) + if j >= 0 {
            seq![row_at(rows, controls, i, j)]
        } else {
            Seq::empty()
        }
    }
}

/// How many matrix rows the index lacks.
pub open spec fn missing_count(rows: Seq<(crate::model::ControlId, MatrixEntry)>, controls: Seq<ControlIndexEntry>) -> nat
    decreases rows.len(),
{
    if rows.len() == 0 {
        0
    } else {
        missing_count(rows.drop_last(), controls) + if last_entry(controls, rows.last().0@) < 0 {
            1nat
        } else {
            0nat
        }
    }
}

/// How many rows have the given status.
pub open spec fn status_count(rows: Seq<(crate::model::ControlId, MatrixEntry)>, st: ControlStatus) -> nat
    decreases rows.len(),
{
    if rows.len() == 0 {
        0
    } else {
        status_count(rows.drop_last(), st) + if rows.last().1.status == st {
            1nat
        } else {
            0nat
        }
    }
}

/// The domains of report rows, in row order.
pub open spec fn row_domains(rs: Seq<ReportRow>) -> Seq<Seq<char>> {
    Seq::new(rs.len(), |i: int| rs[i].0)
}

/// The categories of the rows of domain `d`, in row order.
pub open spec fn row_categories(rs: Seq<ReportRow>, d: Seq<char>) -> Seq<Seq<char>>
    decreases rs.len(),
{
    if rs.len() == 0 {
        Seq::empty()
    } else {
        row_categories(rs.drop_last(), d) + if rs.last().0 == d {
            seq![rs.last().1]
        } else {
            Seq::empty()
        }
    }
}

/// The rows of domain `d` and category `c`, in row order.
pub open spec fn group_rows(rs: Seq<ReportRow>, d: Seq<char>, c: Seq<char>) -> Seq<ReportRow>
    decreases rs.len(),
{
    if rs.len() == 0 {
        Seq::empty()
    } else {
        group_rows(rs.drop_last(), d, c) + if rs.last().0 == d && rs.last().1 == c {
            seq![rs.last()]
        } else {
            Seq::empty()
        }
    }
}

/// `label value\n` when the value is non-empty.
pub open spec fn note_line(label: Seq<char>, value: Seq<char>) -> Seq<char> {
    if value.len() > 0 {
        label + value + "\n"@
    } else {
        Seq::empty()
    }
}

/// `label a, b, c\n` when the list is non-empty.
pub open spec fn list_line(label: Seq<char>, values: Seq<Seq<char>>) -> Seq<char> {
    if values.len() > 0 {
        label + join(values, ", "@) + "\n"@
    } else {
        Seq::empty()
    }
}

/// The first line of one control: number, title, status and owner.
pub open spec fn entry_head(control_id: Seq<char>, title: Seq<char>, e: MatrixEntry) -> Seq<char> {
    "- **"@ + control_id + " "@ + title + "** ["@ + status_text(e.status) + "]"@ + (if e.owner@.len() > 0 {
        " · owner="@ + e.owner@
    } else {
        Seq::empty()
    }) + "\n"@
}

/// The note lines of one control: gap, remediation and references.
pub open spec fn entry_notes(e: MatrixEntry) -> Seq<char> {
    note_line("  - 缺口: "@, e.gap@) + note_line("  - 整改: "@, e.remediation@) + list_line(
        "  - 证据: "@,
        texts(e.evidence@),
    ) + list_line("  - 系统事实: "@, texts(e.facts@)) + list_line("  - 项目事实: "@, texts(e.project_facts@))
}

/// The lines of one control in the report.
pub open spec fn entry_text(r: ReportRow) -> Seq<char> {
    entry_head(r.2, r.3, r.4) + entry_notes(r.4)
}

/// The lines of a list of controls.
pub open spec fn entries_text(rs: Seq<ReportRow>) -> Seq<char>
    decreases rs.len(),
{
    if rs.len() == 0 {
        Seq::empty()
    } else {
        entries_text(rs.drop_last()) + entry_text(rs.last())
    }
}

/// The sections of the given categories of domain `d`.
pub open spec fn categories_text(rs: Seq<ReportRow>, d: Seq<char>, cs: Seq<Seq<char>>) -> Seq<char>
    decreases cs.len(),
{
    if cs.len() == 0 {
        Seq::empty()
    } else {
        categories_text(rs, d, cs.drop_last()) + "### "@ + cs.last() + "\n\n"@ + entries_text(
            group_rows(rs, d, cs.last()),
        ) + "\n"@
    }
}

/// The section of domain `d`: its categories in string order.
pub open spec fn domain_text(rs: Seq<ReportRow>, d: Seq<char>) -> Seq<char> {
    "## "@ + d + "\n\n"@ + categories_text(rs, d, sorted_set(row_categories(rs, d)))
}

/// The sections of the given domains.
pub open spec fn domains_text(rs: Seq<ReportRow>, ds: Seq<Seq<char>>) -> Seq<char>
    decreases ds.len(),
{
    if ds.len() == 0 {
        Seq::empty()
    } else {
        domains_text(rs, ds.drop_last()) + domain_text(rs, ds.last())
    }
}

/// The title, framework, level and scope lines.
pub open spec fn header_intro(m: Matrix) -> Seq<char> {
    "# 合规差距报告\n\n"@ + "- 框架: "@ + m.framework.0@ + "\n"@ + (match m.level {
        Some(l) => "- 等级: "@ + dec(l as nat) + "\n"@,
        None => Seq::empty(),
    }) + "- 范围: "@ + join(texts(m.scope.systems@), ", "@) + "\n"@
}

/// The line with the total and the count of each status.
pub open spec fn stats_line(rows: Seq<(crate::model::ControlId, MatrixEntry)>) -> Seq<char> {
    "- 统计: 共 "@ + dec(rows.len()) + " 项 | 未评估 "@ + dec(status_count(rows, ControlStatus::Unassessed))
        + " | 满足 "@ + dec(status_count(rows, ControlStatus::Met)) + " | 部分满足 "@ + dec(
        status_count(rows, ControlStatus::Partial),
    ) + " | 缺口 "@ + dec(status_count(rows, ControlStatus::Gap)) + " | 不适用 "@ + dec(
        status_count(rows, ControlStatus::Na),
    ) + "\n"@
}

/// The warning line about matrix rows missing from the index, if any.
pub open spec fn missing_line(n: nat) -> Seq<char> {
    if n > 0 {
        "- ⚠ "@ + dec(n) + " 个矩阵控制项在知识库索引中缺失\n"@
    } else {
        Seq::empty()
    }
}

/// The header of the report: framework, level, scope and the status counts.
pub open spec fn header_text(m: Matrix, controls: Seq<ControlIndexEntry>) -> Seq<char> {
    header_intro(m) + stats_line(m.entries@) + missing_line(missing_count(m.entries@, controls)) + "\n"@
}

/// The whole report.
pub open spec fn report_text(m: Matrix, controls: Seq<ControlIndexEntry>) -> Seq<char> {
    let rs = report_rows(m.entries@, controls);
    header_text(m, controls) + domains_text(rs, sorted_set(row_domains(rs)))
}

/// A rendered report with the figures of its closing message.
pub struct Report {
    pub text: String,
    /// Number of controls in the matrix.
    pub total: usize,
    /// Number of controls with status `gap`.
    pub gaps: usize,
}

/// The matrix rows found in the index, as positions: `(row, index entry)`.
pub open spec fn found_ok(found: Seq<(usize, usize)>, rows: Seq<(crate::model::ControlId, MatrixEntry)>, controls: Seq<ControlIndexEntry>, rs: Seq<ReportRow>) -> bool {
    &&& found.len() == rs.len()
    &&& forall|k: int| 0 <= k < found.len() ==> {
        &&& (#[trigger] found[k]).0 < rows.len()
        &&& found[k].1 < controls.len()
        &&& rs[k] == row_at(rows, controls, found[k].0 as int, found[k].1 as int)
    }
}

fn find_last_control(controls: &Vec<ControlIndexEntry>, id: &crate::model::ControlId) -> (r: Option<usize>)
    ensures
        r matches Some(j) ==> j < controls@.len() && j as int == last_entry(controls@, id@),
        r is None ==> last_entry(controls@, id@) < 0,
{
    let mut i: usize = controls.len();
    assert(controls@.take(i as int) == controls@);
    while i > 0
        invariant
            i <= controls@.len(),
            last_entry(controls@, id@) == last_entry(controls@.take(i as int), id@),
        decreases i,
    {
        let ghost pre = controls@.take(i as int);
        assert(pre.drop_last() == controls@.take(i - 1));
        assert(pre.last() == controls@[i - 1]);
        if controls[i - 1].id.same(id) {
            return Some(i - 1);
        }
        i -= 1;
    }
    None
}

fn collect_found(rows: &Vec<(crate::model::ControlId, MatrixEntry)>, controls: &Vec<ControlIndexEntry>) -> (r: (Vec<(usize, usize)>, usize))
    ensures
        found_ok(r.0@, rows@, controls@, report_rows(rows@, controls@)),
        r.1 == missing_count(rows@, controls@),
{
    let mut found: Vec<(usize, usize)> = Vec::new();
    let mut missing: usize = 0;
    let mut i: usize = 0;
    while i < rows.len()
        invariant
            i <= rows@.len(),
            found_ok(found@, rows@, controls@, report_rows(rows@.take(i as int), controls@)),
            missing == missing_count(rows@.take(i as int), controls@),
            missing <= i,
        decreases rows.len() - i,
    {
        let ghost pre = rows@.take(i as int);
        let ghost cur = rows@.take(i + 1);
        assert(cur.drop_last() == pre);
        assert(cur[i as int] == rows@[i as int]);
        match find_last_control(controls, &rows[i].0) {
            Some(j) => {
                found.push((i, j));
                proof {
                    assert(row_at(cur, controls@, i as int, j as int) == row_at(rows@, controls@, i as int, j as int));
                    let rs = report_rows(cur, controls@);
                    assert(rs == report_rows(pre, controls@).push(row_at(rows@, controls@, i as int, j as int)));
                    assert forall|k: int| 0 <= k < found@.len() implies {
                        &&& (#[trigger] found@[k]).0 < rows@.len()
                        &&& found@[k].1 < controls@.len()
                        &&& rs[k] == row_at(rows@, controls@, found@[k].0 as int, found@[k].1 as int)
                    } by {
                        if k < found@.len() - 1 {
                            assert(rs[k] == report_rows(pre, controls@)[k]);
                        }
                    }
                }
            },
            None => {
                missing += 1;
                proof {
                    assert(report_rows(cur, controls@) == report_rows(pre, controls@));
                }
            },
        }
        i += 1;
    }
    assert(rows@.take(rows@.len() as int) == rows@);
    (found, missing)
}

fn count_status(rows: &Vec<(crate::model::ControlId, MatrixEntry)>, st: ControlStatus) -> (n: usize)
    ensures
        n == status_count(rows@, st),
{
    let mut n: usize = 0;
    let mut i: usize = 0;
    while i < rows.len()
        invariant
            i <= rows@.len(),
            n == status_count(rows@.take(i as int), st),
            n <= i,
        decreases rows.len() - i,
    {
        assert(rows@.take(i + 1).drop_last() == rows@.take(i as int));
        assert(rows@.take(i + 1).last() == rows@[i as int]);
        if rows[i].1.status == st {
            n += 1;
        }
        i += 1;
    }
    assert(rows@.take(rows@.len() as int) == rows@);
    n
}

fn domains_of(found: &Vec<(usize, usize)>, rows: &Vec<(crate::model::ControlId, MatrixEntry)>, controls: &Vec<ControlIndexEntry>, Ghost(rs): Ghost<Seq<ReportRow>>) -> (ds: Vec<String>)
    requires
        found_ok(found@, rows@, controls@, rs),
    ensures
        texts(ds@) == sorted_set(row_domains(rs)),
{
    let mut ds: Vec<String> = Vec::new();
    let mut k: usize = 0;
    while k < found.len()
        invariant
            k <= found@.len(),
            found_ok(found@, rows@, controls@, rs),
            strictly_sorted(texts(ds@)),
            texts(ds@).to_set() == row_domains(rs.take(k as int)).to_set(),
        decreases found.len() - k,
    {
        let j = found[k].1;
        assert(rs[k as int] == row_at(rows@, controls@, found@[k as int].0 as int, j as int));
        insert_sorted(&mut ds, controls[j].domain.as_str());
        assert(row_domains(rs.take(k + 1)) == row_domains(rs.take(k as int)).push(rs[k as int].0));
        proof {
            lemma_push_to_set(row_domains(rs.take(k as int)), rs[k as int].0);
        }
        k += 1;
    }
    assert(rs.take(found@.len() as int) == rs);
    proof {
        lemma_is_sorted_set(texts(ds@), row_domains(rs));
    }
    ds
}

fn categories_of(found: &Vec<(usize, usize)>, rows: &Vec<(crate::model::ControlId, MatrixEntry)>, controls: &Vec<ControlIndexEntry>, Ghost(rs): Ghost<Seq<ReportRow>>, d: &str) -> (cs: Vec<String>)
    requires
        found_ok(found@, rows@, controls@, rs),
    ensures
        texts(cs@) == sorted_set(row_categories(rs, d@)),
{
    let mut cs: Vec<String> = Vec::new();
    let mut k: usize = 0;
    while k < found.len()
        invariant
            k <= found@.len(),
            found_ok(found@, rows@, controls@, rs),
            strictly_sorted(texts(cs@)),
            texts(cs@).to_set() == row_categories(rs.take(k as int), d@).to_set(),
        decreases found.len() - k,
    {
        let j = found[k].1;
        assert(rs[k as int] == row_at(rows@, controls@, found@[k as int].0 as int, j as int));
        assert(rs.take(k + 1).drop_last() == rs.take(k as int));
        assert(rs.take(k + 1).last() == rs[k as int]);
        if crate::text::str_eq(controls[j].domain.as_str(), d) {
            insert_sorted(&mut cs, controls[j].category.as_str());
            assert(row_categories(rs.take(k + 1), d@) == row_categories(rs.take(k as int), d@).push(rs[k as int].1));
            proof {
                lemma_push_to_set(row_categories(rs.take(k as int), d@), rs[k as int].1);
            }
        } else {
            assert(row_categories(rs.take(k + 1), d@) == row_categories(rs.take(k as int), d@));
        }
        k += 1;
    }
    assert(rs.take(found@.len() as int) == rs);
    proof {
        lemma_is_sorted_set(texts(cs@), row_categories(rs, d@));
    }
    cs
}

fn push_note(v: &mut Vec<char>, label: &str, value: &String)
    ensures
        final(v)@ == old(v)@ + note_line(label@, value@),
{
    if !value.as_str().is_empty() {
        append_str(v, label);
        append_str(v, value.as_str());
        append_str(v, "\n");
    }
}

fn push_list(v: &mut Vec<char>, label: &str, values: &Vec<String>)
    ensures
        final(v)@ == old(v)@ + list_line(label@, texts(values@)),
{
    if values.len() > 0 {
        append_str(v, label);
        append_joined(v, values, ", ");
        append_str(v, "\n");
    }
}

fn push_entry_head(v: &mut Vec<char>, control_id: &String, title: &String, e: &MatrixEntry)
    ensures
        final(v)@ == old(v)@ + entry_head(control_id@, title@, *e),
{
    let ghost start = v@;
    append_str(v, "- **");
    append_str(v, control_id.as_str());
    append_str(v, " ");
    append_str(v, title.as_str());
    append_str(v, "** [");
    append_str(v, e.status.as_str());
    append_str(v, "]");
    let ghost mid = v@;
    if !e.owner.as_str().is_empty() {
        append_str(v, " · owner=");
        append_str(v, e.owner.as_str());
    }
    append_str(v, "\n");
    assert(v@ =~= start + entry_head(control_id@, title@, *e));
}

fn push_entry_notes(v: &mut Vec<char>, e: &MatrixEntry)
    ensures
        final(v)@ == old(v)@ + entry_notes(*e),
{
    let ghost start = v@;
    push_note(v, "  - 缺口: ", &e.gap);
    push_note(v, "  - 整改: ", &e.remediation);
    push_list(v, "  - 证据: ", &e.evidence);
    push_list(v, "  - 系统事实: ", &e.facts);
    push_list(v, "  - 项目事实: ", &e.project_facts);
    assert(v@ =~= start + entry_notes(*e));
}

fn push_entry(v: &mut Vec<char>, control_id: &String, title: &String, e: &MatrixEntry, Ghost(d): Ghost<Seq<char>>, Ghost(c): Ghost<Seq<char>>)
    ensures
        final(v)@ == old(v)@ + entry_text((d, c, control_id@, title@, *e)),
{
    let ghost start = v@;
    push_entry_head(v, control_id, title, e);
    push_entry_notes(v, e);
    assert(v@ =~= start + entry_text((d, c, control_id@, title@, *e)));
}

fn push_group(v: &mut Vec<char>, found: &Vec<(usize, usize)>, rows: &Vec<(crate::model::ControlId, MatrixEntry)>, controls: &Vec<ControlIndexEntry>, Ghost(rs): Ghost<Seq<ReportRow>>, d: &str, c: &str)
    requires
        found_ok(found@, rows@, controls@, rs),
    ensures
        final(v)@ == old(v)@ + entries_text(group_rows(rs, d@, c@)),
{
    let ghost start = v@;
    let mut k: usize = 0;
    while k < found.len()
        invariant
            k <= found@.len(),
            found_ok(found@, rows@, controls@, rs),
            v@ == start + entries_text(group_rows(rs.take(k as int), d@, c@)),
        decreases found.len() - k,
    {
        let (i, j) = found[k];
        assert(rs[k as int] == row_at(rows@, controls@, i as int, j as int));
        assert(rs.take(k + 1).drop_last() == rs.take(k as int));
        assert(rs.take(k + 1).last() == rs[k as int]);
        let ghost g = group_rows(rs.take(k as int), d@, c@);
        if crate::text::str_eq(controls[j].domain.as_str(), d) && crate::text::str_eq(controls[j].category.as_str(), c) {
            push_entry(v, &rows[i].0.control_id, &controls[j].title, &rows[i].1, Ghost(d@), Ghost(c@));
            assert(group_rows(rs.take(k + 1), d@, c@) == g.push(rs[k as int]));
            assert(g.push(rs[k as int]).drop_last() == g);
        } else {
            assert(group_rows(rs.take(k + 1), d@, c@) == g);
        }
        k += 1;
    }
    assert(rs.take(found@.len() as int) == rs);
}

fn push_domain(v: &mut Vec<char>, found: &Vec<(usize, usize)>, rows: &Vec<(crate::model::ControlId, MatrixEntry)>, controls: &Vec<ControlIndexEntry>, Ghost(rs): Ghost<Seq<ReportRow>>, d: &str)
    requires
        found_ok(found@, rows@, controls@, rs),
    ensures
        final(v)@ == old(v)@ + domain_text(rs, d@),
{
    append_str(v, "## ");
    append_str(v, d);
    append_str(v, "\n\n");
    let ghost start = v@;
    let cs = categories_of(found, rows, controls, Ghost(rs), d);
    let ghost ct = texts(cs@);
    let mut k: usize = 0;
    while k < cs.len()
        invariant
            k <= cs@.len(),
            ct == texts(cs@),
            found_ok(found@, rows@, controls@, rs),
            v@ == start + categories_text(rs, d@, ct.take(k as int)),
        decreases cs.len() - k,
    {
        assert(ct.take(k + 1).drop_last() == ct.take(k as int));
        assert(ct.take(k + 1).last() == cs@[k as int]@);
        append_str(v, "### ");
        append_str(v, cs[k].as_str());
        append_str(v, "\n\n");
        push_group(v, found, rows, controls, Ghost(rs), d, cs[k].as_str());
        append_str(v, "\n");
        k += 1;
    }
    assert(ct.take(cs@.len() as int) == ct);
}

fn push_intro(v: &mut Vec<char>, m: &Matrix)
    ensures
        final(v)@ == old(v)@ + header_intro(*m),
{
    let ghost start = v@;
    append_str(v, "# 合规差距报告\n\n");
    append_str(v, "- 框架: ");
    append_str(v, m.framework.0.as_str());
    append_str(v, "\n");
    match m.level {
        Some(l) => {
            append_str(v, "- 等级: ");
            append_dec(v, l as usize);
            append_str(v, "\n");
        },
        None => {},
    }
    append_str(v, "- 范围: ");
    append_joined(v, &m.scope.systems, ", ");
    append_str(v, "\n");
    assert(v@ =~= start + header_intro(*m));
}

fn push_stats(v: &mut Vec<char>, rows: &Vec<(crate::model::ControlId, MatrixEntry)>)
    ensures
        final(v)@ == old(v)@ + stats_line(rows@),
{
    let ghost start = v@;
    append_str(v, "- 统计: 共 ");
    append_dec(v, rows.len());
    append_str(v, " 项 | 未评估 ");
    append_dec(v, count_status(rows, ControlStatus::Unassessed));
    append_str(v, " | 满足 ");
    append_dec(v, count_status(rows, ControlStatus::Met));
    append_str(v, " | 部分满足 ");
    append_dec(v, count_status(rows, ControlStatus::Partial));
    append_str(v, " | 缺口 ");
    append_dec(v, count_status(rows, ControlStatus::Gap));
    append_str(v, " | 不适用 ");
    append_dec(v, count_status(rows, ControlStatus::Na));
    append_str(v, "\n");
    assert(v@ =~= start + stats_line(rows@));
}

fn push_header(v: &mut Vec<char>, m: &Matrix, controls: &Vec<ControlIndexEntry>, missing: usize)
    requires
        missing == missing_count(m.entries@, controls@),
    ensures
        final(v)@ == old(v)@ + header_text(*m, controls@),
{
    let ghost start = v@;
    push_intro(v, m);
    push_stats(v, &m.entries);
    if missing > 0 {
        append_str(v, "- ⚠ ");
        append_dec(v, missing);
        append_str(v, " 个矩阵控制项在知识库索引中缺失\n");
    }
    append_str(v, "\n");
    assert(v@ =~= start + header_text(*m, controls@));
}

/// Renders the gap report of a matrix against its framework index.
pub fn render(m: &Matrix, index: &ControlIndex) -> (r: Report)
    ensures
        r.text@ == report_text(*m, index.controls@),
        r.total == m.entries@.len(),
        r.gaps == status_count(m.entries@, ControlStatus::Gap),
{
    let controls = &index.controls;
    let rows = &m.entries;
    let (found, missing) = collect_found(rows, controls);
    let ghost rs = report_rows(rows@, controls@);
    let mut v: Vec<char> = Vec::new();
    push_header(&mut v, m, controls, missing);
    let ghost start = v@;
    let ds = domains_of(&found, rows, controls, Ghost(rs));
    let ghost dt = texts(ds@);
    let mut k: usize = 0;
    while k < ds.len()
        invariant
            k <= ds@.len(),
            dt == texts(ds@),
            found_ok(found@, rows@, controls@, rs),
            v@ == start + domains_text(rs, dt.take(k as int)),
        decreases ds.len() - k,
    {
        assert(dt.take(k + 1).drop_last() == dt.take(k as int));
        assert(dt.take(k + 1).last() == ds@[k as int]@);
        push_domain(&mut v, &found, rows, controls, Ghost(rs), ds[k].as_str());
        k += 1;
    }
    assert(dt.take(ds@.len() as int) == dt);
    let gaps = count_status(rows, ControlStatus::Gap);
    Report { text: string_of(&v), total: rows.len(), gaps }
}

/// The status counts of the report add up to its total: every control is
/// counted under exactly one status.
pub proof fn lemma_status_counts_add_up(rows: Seq<(crate::model::ControlId, MatrixEntry)>)
    ensures
        status_count(rows, ControlStatus::Unassessed) + status_count(rows, ControlStatus::Met) + status_count(
            rows,
            ControlStatus::Partial,
        ) + status_count(rows, ControlStatus::Gap) + status_count(rows, ControlStatus::Na) == rows.len(),
    decreases rows.len(),
{
    if rows.len() > 0 {
        lemma_status_counts_add_up(rows.drop_last());
    }
}

/// Every matrix row is either shown in a domain section or counted as
/// missing from the index.
pub proof fn lemma_rows_shown_or_missing(rows: Seq<(crate::model::ControlId, MatrixEntry)>, controls: Seq<ControlIndexEntry>)
    ensures
        report_rows(rows, controls).len() + missing_count(rows, controls) == rows.len(),
    decreases rows.len(),
{
    if rows.len() > 0 {
        lemma_rows_shown_or_missing(rows.drop_last(), controls);
    }
}

/// The entries of a list of controls hold the entry of each of them.
proof fn lemma_entries_hold_group_row(rs: Seq<ReportRow>, k: int)
    requires
        0 <= k < rs.len(),
    ensures
        contains_seq(entries_text(group_rows(rs, rs[k].0, rs[k].1)), entry_text(rs[k])),
    decreases rs.len(),
{
    let d = rs[k].0;
    let c = rs[k].1;
    let init = rs.drop_last();
    let g0 = group_rows(init, d, c);
    if k == rs.len() - 1 {
        let g = g0.push(rs.last());
        assert(group_rows(rs, d, c) =~= g);
        assert(g.drop_last() =~= g0);
        lemma_contains_part(entries_text(g0), entry_text(rs[k]), Seq::empty());
        assert(entries_text(g0) + entry_text(rs[k]) + Seq::<char>::empty() =~= entries_text(g));
    } else {
        assert(init[k] == rs[k]);
        lemma_entries_hold_group_row(init, k);
        if rs.last().0 == d && rs.last().1 == c {
            let g = g0.push(rs.last());
            assert(group_rows(rs, d, c) =~= g);
            assert(g.drop_last() =~= g0);
            lemma_contains_within(Seq::empty(), entries_text(g0), entry_text(rs.last()), entry_text(rs[k]));
            assert(Seq::<char>::empty() + entries_text(g0) + entry_text(rs.last()) =~= entries_text(g));
        } else {
            assert(group_rows(rs, d, c) =~= g0);
        }
    }
}

/// A row's category is among the categories of its domain.
proof fn lemma_row_category_listed(rs: Seq<ReportRow>, k: int)
    requires
        0 <= k < rs.len(),
    ensures
        row_categories(rs, rs[k].0).contains(rs[k].1),
    decreases rs.len(),
{
    let init = rs.drop_last();
    let d = rs[k].0;
    if k == rs.len() - 1 {
        let cs = row_categories(init, d) + seq![rs.last().1];
        assert(row_categories(rs, d) =~= cs);
        assert(cs[cs.len() - 1] == rs[k].1);
    } else {
        assert(init[k] == rs[k]);
        lemma_row_category_listed(init, k);
        let c0 = row_categories(init, d);
        let i = choose|i: int| 0 <= i < c0.len() && c0[i] == rs[k].1;
        let cs = row_categories(rs, d);
        assert(cs[i] == c0[i]);
    }
}

/// The sections of the listed categories hold the entries of each of them.
proof fn lemma_categories_hold(rs: Seq<ReportRow>, d: Seq<char>, cs: Seq<Seq<char>>, c: Seq<char>)
    requires
        cs.contains(c),
    ensures
        contains_seq(categories_text(rs, d, cs), entries_text(group_rows(rs, d, c))),
    decreases cs.len(),
{
    let prev = categories_text(rs, d, cs.drop_last());
    let e = entries_text(group_rows(rs, d, cs.last()));
    let head = prev + "### "@ + cs.last() + "\n\n"@;
    assert(categories_text(rs, d, cs) =~= head + e + "\n"@);
    if cs.last() == c {
        lemma_contains_part(head, e, "\n"@);
    } else {
        let i = choose|i: int| 0 <= i < cs.len() && cs[i] == c;
        assert(cs.drop_last()[i] == c);
        lemma_categories_hold(rs, d, cs.drop_last(), c);
        let tail = "### "@ + cs.last() + "\n\n"@ + e + "\n"@;
        assert(categories_text(rs, d, cs) =~= Seq::<char>::empty() + prev + tail);
        lemma_contains_within(Seq::empty(), prev, tail, entries_text(group_rows(rs, d, c)));
    }
}

/// The sections of the listed domains hold the section of each of them.
proof fn lemma_domains_hold(rs: Seq<ReportRow>, ds: Seq<Seq<char>>, d: Seq<char>)
    requires
        ds.contains(d),
    ensures
        contains_seq(domains_text(rs, ds), domain_text(rs, d)),
    decreases ds.len(),
{
    let prev = domains_text(rs, ds.drop_last());
    if ds.last() == d {
        lemma_contains_part(prev, domain_text(rs, d), Seq::empty());
        assert(prev + domain_text(rs, d) + Seq::<char>::empty() =~= domains_text(rs, ds));
    } else {
        let i = choose|i: int| 0 <= i < ds.len() && ds[i] == d;
        assert(ds.drop_last()[i] == d);
        lemma_domains_hold(rs, ds.drop_last(), d);
        lemma_contains_within(Seq::empty(), prev, domain_text(rs, ds.last()), domain_text(rs, d));
        assert(Seq::<char>::empty() + prev + domain_text(rs, ds.last()) =~= domains_text(rs, ds));
    }
}

/// Where matrix row `i`, found in the index, stands among the report rows.
proof fn report_row_of(rows: Seq<(crate::model::ControlId, MatrixEntry)>, controls: Seq<ControlIndexEntry>, i: int) -> (k: int)
    requires
        0 <= i < rows.len(),
        last_entry(controls, rows[i].0@) >= 0,
    ensures
        0 <= k < report_rows(rows, controls).len(),
        report_rows(rows, controls)[k] == row_at(rows, controls, i, last_entry(controls, rows[i].0@)),
    decreases rows.len(),
{
    let init = rows.drop_last();
    let prev = report_rows(init, controls);
    if i == rows.len() - 1 {
        prev.len() as int
    } else {
        assert(init[i] == rows[i]);
        let k = report_row_of(init, controls, i);
        assert(row_at(init, controls, i, last_entry(controls, rows[i].0@)) == row_at(
            rows,
            controls,
            i,
            last_entry(controls, rows[i].0@),
        ));
        k
    }
}

/// The report shows every matrix control that the index lists: its entry,
/// with its title and notes, stands in the report under its domain and
/// category.
#[verifier::spinoff_prover]
pub proof fn lemma_report_shows_listed_controls(m: Matrix, controls: Seq<ControlIndexEntry>, i: int)
    requires
        0 <= i < m.entries@.len(),
        last_entry(controls, m.entries@[i].0@) >= 0,
    ensures
        contains_seq(
            report_text(m, controls),
            entry_text(row_at(m.entries@, controls, i, last_entry(controls, m.entries@[i].0@))),
        ),
{
    let rows = m.entries@;
    let rs = report_rows(rows, controls);
    let k = report_row_of(rows, controls, i);
    let r = rs[k];
    let d = r.0;
    let c = r.1;
    lemma_entries_hold_group_row(rs, k);
    lemma_row_category_listed(rs, k);
    let cs = sorted_set(row_categories(rs, d));
    lemma_sorted_set_values(row_categories(rs, d));
    assert(row_categories(rs, d).to_set().contains(c));
    assert(cs.to_set().contains(c));
    lemma_categories_hold(rs, d, cs, c);
    let ct = categories_text(rs, d, cs);
    lemma_contains_within("## "@ + d + "\n\n"@, ct, Seq::empty(), entries_text(group_rows(rs, d, c)));
    assert(("## "@ + d + "\n\n"@) + ct + Seq::<char>::empty() =~= domain_text(rs, d));
    lemma_contains_trans(domain_text(rs, d), entries_text(group_rows(rs, d, c)), entry_text(r));
    let ds = sorted_set(row_domains(rs));
    lemma_sorted_set_values(row_domains(rs));
    assert(row_domains(rs)[k] == d);
    assert(row_domains(rs).to_set().contains(d));
    assert(ds.to_set().contains(d));
    lemma_domains_hold(rs, ds, d);
    lemma_contains_trans(domains_text(rs, ds), domain_text(rs, d), entry_text(r));
    lemma_contains_within(header_text(m, controls), domains_text(rs, ds), Seq::empty(), entry_text(r));
    assert(header_text(m, controls) + domains_text(rs, ds) + Seq::<char>::empty() =~= report_text(m, controls));
}

/// The entry of a control shows each note it has under its label: the gap,
/// the remediation, and the evidence, system fact and project fact lists.
#[verifier::spinoff_prover]
pub proof fn lemma_entry_shows_notes(r: ReportRow)
    ensures
        contains_seq(entry_text(r), "- **"@ + r.2 + " "@ + r.3 + "** ["@ + status_text(r.4.status) + "]"@),
        r.4.owner@.len() > 0 ==> contains_seq(entry_text(r), " · owner="@ + r.4.owner@),
        r.4.gap@.len() > 0 ==> contains_seq(entry_text(r), "  - 缺口: "@ + r.4.gap@ + "\n"@),
        r.4.remediation@.len() > 0 ==> contains_seq(entry_text(r), "  - 整改: "@ + r.4.remediation@ + "\n"@),
        r.4.evidence@.len() > 0 ==> contains_seq(entry_text(r), "  - 证据: "@ + join(texts(r.4.evidence@), ", "@) + "\n"@),
        r.4.facts@.len() > 0 ==> contains_seq(entry_text(r), "  - 系统事实: "@ + join(texts(r.4.facts@), ", "@) + "\n"@),
        r.4.project_facts@.len() > 0 ==> contains_seq(
            entry_text(r),
            "  - 项目事实: "@ + join(texts(r.4.project_facts@), ", "@) + "\n"@,
        ),
{
    let e = r.4;
    let h = entry_head(r.2, r.3, e);
    let n1 = note_line("  - 缺口: "@, e.gap@);
    let n2 = note_line("  - 整改: "@, e.remediation@);
    let n3 = list_line("  - 证据: "@, texts(e.evidence@));
    let n4 = list_line("  - 系统事实: "@, texts(e.facts@));
    let n5 = list_line("  - 项目事实: "@, texts(e.project_facts@));
    let t = entry_text(r);
    let p = "- **"@ + r.2 + " "@ + r.3 + "** ["@ + status_text(e.status) + "]"@;
    let o = if e.owner@.len() > 0 { " · owner="@ + e.owner@ } else { Seq::<char>::empty() };
    lemma_contains_halves(p + o, "\n"@);
    lemma_contains_halves(p, o);
    lemma_contains_trans(h, p + o, p);
    lemma_contains_trans(h, p + o, o);
    lemma_contains_halves(h, entry_notes(e));
    lemma_contains_trans(t, h, p);
    lemma_contains_trans(t, h, o);
    let a4 = n1 + n2 + n3 + n4;
    let a3 = n1 + n2 + n3;
    let a2 = n1 + n2;
    lemma_contains_halves(h, entry_notes(e));
    lemma_contains_halves(a4, n5);
    lemma_contains_halves(a3, n4);
    lemma_contains_halves(a2, n3);
    lemma_contains_halves(n1, n2);
    lemma_contains_trans(t, entry_notes(e), a4);
    lemma_contains_trans(t, entry_notes(e), n5);
    lemma_contains_trans(t, a4, a3);
    lemma_contains_trans(t, a4, n4);
    lemma_contains_trans(t, a3, a2);
    lemma_contains_trans(t, a3, n3);
    lemma_contains_trans(t, a2, n1);
    lemma_contains_trans(t, a2, n2);
}

/// The report shows every note of every control the index lists: a
/// control's gap and remediation appear under their labels whenever the
/// matrix holds them.
#[verifier::spinoff_prover]
pub proof fn lemma_report_shows_notes(m: Matrix, controls: Seq<ControlIndexEntry>, i: int)
    requires
        0 <= i < m.entries@.len(),
        last_entry(controls, m.entries@[i].0@) >= 0,
    ensures
        m.entries@[i].1.gap@.len() > 0 ==> contains_seq(report_text(m, controls), "  - 缺口: "@ + m.entries@[i].1.gap@ + "\n"@),
        m.entries@[i].1.remediation@.len() > 0 ==> contains_seq(
            report_text(m, controls),
            "  - 整改: "@ + m.entries@[i].1.remediation@ + "\n"@,
        ),
        m.entries@[i].1.evidence@.len() > 0 ==> contains_seq(
            report_text(m, controls),
            "  - 证据: "@ + join(texts(m.entries@[i].1.evidence@), ", "@) + "\n"@,
        ),
{
    let r = row_at(m.entries@, controls, i, last_entry(controls, m.entries@[i].0@));
    lemma_report_shows_listed_controls(m, controls, i);
    lemma_entry_shows_notes(r);
    let t = report_text(m, controls);
    let e = m.entries@[i].1;
    if e.gap@.len() > 0 {
        lemma_contains_trans(t, entry_text(r), "  - 缺口: "@ + e.gap@ + "\n"@);
    }
    if e.remediation@.len() > 0 {
        lemma_contains_trans(t, entry_text(r), "  - 整改: "@ + e.remediation@ + "\n"@);
    }
    if e.evidence@.len() > 0 {
        lemma_contains_trans(t, entry_text(r), "  - 证据: "@ + join(texts(e.evidence@), ", "@) + "\n"@);
    }
}

} // verus!
