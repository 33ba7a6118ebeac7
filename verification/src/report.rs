//! What the commands show: the lines for people, the columns and rows for a
//! window. Paths come in already shortened for display; the structured
//! payload that goes with a report is added by the caller.
use vstd::prelude::*;
use crate::criterion::{CriterionV, executor_spec, text_spec_of};
use crate::help::pad_spec;
use crate::order::{OrderV, RecordV, WorkOrder, records_view};
use crate::progress::{done_steps_spec, pending_spec, state_line_spec};
use crate::text::{decimal_spec, views};
use crate::workflow::{StepV, Workflow, WorkflowV, criteria_view, of_kind_spec};
use crate::task::{Task, TaskV, artifact_spec, bar_spec, file_spec, mapping_items, task_done_spec, task_state_spec};
use crate::locate::short_spec;
use crate::yaml::{Yaml, YamlV, get_spec, list_view, seq_spec, str_spec, text_spec};

verus! {

/// A report: whether all went well, lines, and a table.
pub struct Report {
    pub ok: bool,
    pub lines: Vec<String>,
    pub columns: Vec<String>,
    pub rows: Vec<Vec<String>>,
}

/// The views of table rows.
pub open spec fn table_view(rows: Seq<Vec<String>>) -> Seq<Seq<Seq<char>>> {
    rows.map_values(|r: Vec<String>| views(r@))
}

/// A report of one line and no table.
pub fn lines_only(ok: bool, line: String) -> (r: Report)
    ensures
        r.ok == ok,
        views(r.lines@) == seq![line@],
        r.columns@.len() == 0,
        r.rows@.len() == 0,
{
    let lines = vec![line];
    assert(views(lines@) =~= seq![lines@[0]@]);
    Report { ok, lines, columns: Vec::new(), rows: Vec::new() }
}

/// `s` padded on the left with spaces to `width` characters (`{:>width}`).
pub open spec fn pad_left_spec(s: Seq<char>, width: nat) -> Seq<char> {
    if s.len() >= width {
        s
    } else {
        Seq::new((width - s.len()) as nat, |i: int| ' ') + s
    }
}

/// `s` padded on the left with spaces to `width` characters.
fn pad_left(s: &str, width: usize) -> (r: String)
    ensures
        r@ == pad_left_spec(s@, width as nat),
{
    let n = s.unicode_len();
    if n >= width {
        return String::from_str(s);
    }
    let mut r = String::new();
    let mut k: usize = n;
    while k < width
        invariant
            n <= k <= width,
            r@ == Seq::new((k - n) as nat, |i: int| ' '),
        decreases width - k,
    {
        crate::text::push_char(&mut r, ' ');
        assert(r@ =~= Seq::new((k + 1 - n) as nat, |i: int| ' '));
        k = k + 1;
    }
    r.append(s);
    r
}

/// The count of each kind of criterion of a step, as a table cell.
pub open spec fn counts_spec(cs: Seq<CriterionV>) -> Seq<char> {
    decimal_spec(of_kind_spec(cs, "rule"@).len()) + " rule / "@ + decimal_spec(of_kind_spec(cs, "agent"@).len())
        + " agent / "@ + decimal_spec(of_kind_spec(cs, "human"@).len()) + " human"@
}

/// The lines of a step in a workflow's report: the step, then its criteria.
pub open spec fn step_lines(s: StepV) -> Seq<Seq<char>> {
    seq!["  "@ + s.name + "（"@ + s.executor + "）："@ + s.description] + s.criteria.map_values(
        |c: CriterionV| "      "@ + executor_spec(c) + "："@ + text_spec_of(c),
    )
}

/// The lines of steps, in order.
pub open spec fn steps_lines(steps: Seq<StepV>) -> Seq<Seq<char>>
    decreases steps.len(),
{
    if steps.len() == 0 {
        Seq::empty()
    } else {
        step_lines(steps[0]) + steps_lines(steps.drop_first())
    }
}

/// The report on a workflow: its file, id, description, and each step with
/// who does it and its criteria.
pub open spec fn workflow_lines_spec(name: Seq<char>, file: Seq<char>, w: WorkflowV, description: Seq<char>) -> Seq<Seq<char>> {
    seq!["工作流："@ + name + "（"@ + file + "）"@, "  id："@ + w.id] + (if description.len() > 0 {
        seq!["  描述："@ + description]
    } else {
        Seq::empty()
    }) + steps_lines(w.steps)
}

/// The table of a workflow: each step, who does it, how many criteria of each kind.
pub open spec fn workflow_rows_spec(w: WorkflowV) -> Seq<Seq<Seq<char>>> {
    w.steps.map_values(|s: StepV| seq![s.name, s.executor, counts_spec(s.criteria)])
}

/// Appends strings.
fn extend(out: &mut Vec<String>, more: &Vec<String>)
    ensures
        views(final(out)@) == views(old(out)@) + views(more@),
{
    let ghost start = views(out@);
    let mut i: usize = 0;
    while i < more.len()
        invariant
            i <= more@.len(),
            views(out@) =~= start + views(more@).take(i as int),
        decreases more@.len() - i,
    {
        let ghost pre = out@;
        out.push(more[i].clone());
        proof {
            assert(views(out@) =~= views(pre).push(more@[i as int]@));
            assert(views(more@).take(i + 1) =~= views(more@).take(i as int).push(more@[i as int]@));
        }
        i = i + 1;
    }
    assert(views(more@).take(i as int) =~= views(more@));
}

/// The report on a workflow: `file` is where its file lies,
/// shown; `workflow` has its ids filled in.
pub fn workflow_show(name: &str, file: &str, workflow: &Workflow, description: &str) -> (r: Report)
    ensures
        r.ok,
        views(r.columns@) == seq!["步骤"@, "谁做"@, "判据"@],
        views(r.lines@) == workflow_lines_spec(name@, file@, workflow@, description@),
        table_view(r.rows@) == workflow_rows_spec(workflow@),
{
    let columns = vec![String::from_str("步骤"), String::from_str("谁做"), String::from_str("判据")];
    assert(views(columns@) =~= seq!["步骤"@, "谁做"@, "判据"@]);
    let mut lines: Vec<String> = Vec::new();
    let mut head = crate::text::cat("工作流：", name);
    head.append("（");
    head.append(file);
    head.append("）");
    lines.push(head);
    lines.push(crate::text::cat("  id：", workflow.id.as_str()));
    if description.unicode_len() > 0 {
        lines.push(crate::text::cat("  描述：", description));
    }
    let ghost start = views(lines@);
    assert(start =~= seq!["工作流："@ + name@ + "（"@ + file@ + "）"@, "  id："@ + workflow@.id] + (if description@.len() > 0 {
        seq!["  描述："@ + description@]
    } else {
        Seq::empty()
    }));
    let ghost all = workflow@.steps;
    let mut rows: Vec<Vec<String>> = Vec::new();
    let mut i: usize = 0;
    assert(all.subrange(0, all.len() as int) =~= all);
    assert(start + steps_lines(all) =~= views(lines@) + steps_lines(all.subrange(0, all.len() as int)));
    while i < workflow.steps.len()
        invariant
            i <= workflow.steps@.len(),
            all == workflow@.steps,
            start + steps_lines(all) == views(lines@) + steps_lines(all.subrange(i as int, all.len() as int)),
            table_view(rows@) =~= all.take(i as int).map_values(|s: StepV| seq![s.name, s.executor, counts_spec(s.criteria)]),
        decreases workflow.steps@.len() - i,
    {
        let ghost here = all.subrange(i as int, all.len() as int);
        let ghost before = views(lines@);
        let step = &workflow.steps[i];
        proof {
            assert(here.drop_first() =~= all.subrange(i + 1, all.len() as int));
            assert(here[0] == step@);
        }
        let mut counts = crate::text::decimal(step.rules().len());
        counts.append(" rule / ");
        counts.append(crate::text::decimal(step.agents().len()).as_str());
        counts.append(" agent / ");
        counts.append(crate::text::decimal(step.gates().len()).as_str());
        counts.append(" human");
        let row = vec![step.name.clone(), step.executor.clone(), counts];
        let ghost rowv = views(row@);
        assert(rowv =~= seq![step@.name, step@.executor, counts_spec(step@.criteria)]);
        let ghost rows_before = rows@;
        rows.push(row);
        proof {
            assert(table_view(rows@) =~= table_view(rows_before).push(rowv));
            assert(all.take(i + 1) =~= all.take(i as int).push(all[i as int]));
        }
        let mut head = crate::text::cat("  ", step.name.as_str());
        head.append("（");
        head.append(step.executor.as_str());
        head.append("）：");
        head.append(step.description.as_str());
        let mut mine: Vec<String> = Vec::new();
        mine.push(head);
        let ghost cv = criteria_view(step.criteria@);
        let mut k: usize = 0;
        while k < step.criteria.len()
            invariant
                k <= step.criteria@.len(),
                cv == criteria_view(step.criteria@),
                views(mine@) =~= seq![head@] + cv.take(k as int).map_values(
                    |c: CriterionV| "      "@ + executor_spec(c) + "："@ + text_spec_of(c),
                ),
            decreases step.criteria@.len() - k,
        {
            let ghost pre = mine@;
            let mut line = crate::text::cat("      ", step.criteria[k].executor());
            line.append("：");
            line.append(step.criteria[k].text().as_str());
            mine.push(line);
            proof {
                assert(views(mine@) =~= views(pre).push(line@));
                assert(cv.take(k + 1) =~= cv.take(k as int).push(cv[k as int]));
            }
            k = k + 1;
        }
        assert(cv.take(k as int) =~= cv);
        assert(views(mine@) == step_lines(step@));
        extend(&mut lines, &mine);
        proof {
            assert(before + (step_lines(here[0]) + steps_lines(here.drop_first())) =~= views(lines@) + steps_lines(here.drop_first()));
        }
        i = i + 1;
    }
    assert(all.subrange(i as int, all.len() as int) =~= Seq::<StepV>::empty());
    assert(views(lines@) + Seq::<Seq<char>>::empty() =~= views(lines@));
    assert(all.take(i as int) =~= all);
    Report { ok: true, lines, columns, rows }
}

/// The mark of a step in an order's report: `✓` once done, else `—`.
pub open spec fn mark_spec(done: Seq<Seq<char>>, name: Seq<char>) -> Seq<char> {
    if done.contains(name) { "✓"@ } else { "—"@ }
}

/// The line of a record in an order's report.
pub open spec fn ledger_line(r: RecordV) -> Seq<char> {
    "  "@ + pad_left_spec(decimal_spec(r.seq as nat), 3) + "  "@ + r.created_at + "  "@ + (if r.is_succeeded {
        "✓"@
    } else {
        "✗"@
    }) + " "@ + r.step + "　"@ + r.description
}

/// The report on a work order: its cover, each step with its mark, the state
/// line, the gates waiting, every record, and where its report goes.
pub open spec fn order_lines_spec(o: OrderV, w: WorkflowV, file: Seq<char>, report: Seq<char>) -> Seq<Seq<char>> {
    let done = done_steps_spec(o, w);
    seq![
        "工单："@ + o.name + "（"@ + file + "）"@,
        "  id："@ + o.id,
        "  工作流："@ + w.name + "（"@ + o.workflow_id + "）"@,
        "  开工："@ + o.created_at,
    ] + (if o.description.len() > 0 {
        seq!["  描述："@ + o.description]
    } else {
        Seq::empty()
    }) + w.steps.map_values(|s: StepV| "  "@ + mark_spec(done, s.name) + " "@ + s.name) + seq![state_line_spec(o, w)]
        + pending_spec(o.records, w.steps).map_values(|n: Seq<char>| "  闸门："@ + n) + o.records.map_values(
        |r: RecordV| ledger_line(r),
    ) + seq!["产物："@ + report]
}

/// The table of a work order: each step and its mark.
pub open spec fn order_rows_spec(o: OrderV, w: WorkflowV) -> Seq<Seq<Seq<char>>> {
    let done = done_steps_spec(o, w);
    w.steps.map_values(|s: StepV| seq![s.name, mark_spec(done, s.name)])
}

/// The report on a work order: `file` and `report` are where
/// the order's file and its report lie, shown.
pub fn order_show(order: &WorkOrder, workflow: &Workflow, file: &str, report: &str) -> (r: Report)
    ensures
        r.ok,
        views(r.columns@) == seq!["步骤"@, "状态"@],
        views(r.lines@) == order_lines_spec(order@, workflow@, file@, report@),
        table_view(r.rows@) == order_rows_spec(order@, workflow@),
{
    let done = crate::progress::done_steps(order, workflow);
    let columns = vec![String::from_str("步骤"), String::from_str("状态")];
    assert(views(columns@) =~= seq!["步骤"@, "状态"@]);
    let mut lines: Vec<String> = Vec::new();
    let mut head = crate::text::cat("工单：", order.name.as_str());
    head.append("（");
    head.append(file);
    head.append("）");
    lines.push(head);
    lines.push(crate::text::cat("  id：", order.id.as_str()));
    let mut flow = crate::text::cat("  工作流：", workflow.name.as_str());
    flow.append("（");
    flow.append(order.workflow_id.as_str());
    flow.append("）");
    lines.push(flow);
    lines.push(crate::text::cat("  开工：", order.created_at.as_str()));
    if order.description.unicode_len() > 0 {
        lines.push(crate::text::cat("  描述：", order.description.as_str()));
    }
    let ghost l0 = views(lines@);
    assert(l0 =~= seq![
        "工单："@ + order@.name + "（"@ + file@ + "）"@,
        "  id："@ + order@.id,
        "  工作流："@ + workflow@.name + "（"@ + order@.workflow_id + "）"@,
        "  开工："@ + order@.created_at,
    ] + (if order@.description.len() > 0 {
        seq!["  描述："@ + order@.description]
    } else {
        Seq::empty()
    }));
    let ghost dv = views(done@);
    let ghost steps = workflow@.steps;
    let mut rows: Vec<Vec<String>> = Vec::new();
    let mut i: usize = 0;
    while i < workflow.steps.len()
        invariant
            i <= workflow.steps@.len(),
            steps == workflow@.steps,
            dv == views(done@),
            dv == done_steps_spec(order@, workflow@),
            views(lines@) =~= l0 + steps.take(i as int).map_values(|s: StepV| "  "@ + mark_spec(dv, s.name) + " "@ + s.name),
            table_view(rows@) =~= steps.take(i as int).map_values(|s: StepV| seq![s.name, mark_spec(dv, s.name)]),
        decreases workflow.steps@.len() - i,
    {
        let ghost lb = lines@;
        let ghost rb = rows@;
        let name = &workflow.steps[i].name;
        let mark = if crate::schema::listed(&done, name.as_str()) { "✓" } else { "—" };
        let row = vec![name.clone(), String::from_str(mark)];
        let ghost rowv = views(row@);
        assert(rowv =~= seq![name@, mark_spec(dv, name@)]);
        rows.push(row);
        let mut line = crate::text::cat("  ", mark);
        line.append(" ");
        line.append(name.as_str());
        lines.push(line);
        proof {
            assert(steps[i as int].name == name@);
            assert(steps.take(i + 1) =~= steps.take(i as int).push(steps[i as int]));
            assert(views(lines@) =~= views(lb).push(line@));
            assert(table_view(rows@) =~= table_view(rb).push(rowv));
        }
        i = i + 1;
    }
    assert(steps.take(i as int) =~= steps);
    let ghost l1 = views(lines@);
    let st = crate::progress::state_line(order, workflow);
    lines.push(st);
    assert(views(lines@) =~= l1.push(st@));
    let gates = crate::progress::pending_gates(order, workflow);
    let ghost gv = views(gates@);
    let ghost l2 = views(lines@);
    let mut g: usize = 0;
    while g < gates.len()
        invariant
            g <= gates@.len(),
            gv == views(gates@),
            views(lines@) =~= l2 + gv.take(g as int).map_values(|n: Seq<char>| "  闸门："@ + n),
        decreases gates@.len() - g,
    {
        let ghost lb = lines@;
        let line = crate::text::cat("  闸门：", gates[g].as_str());
        lines.push(line);
        proof {
            assert(gv.take(g + 1) =~= gv.take(g as int).push(gv[g as int]));
            assert(views(lines@) =~= views(lb).push(line@));
        }
        g = g + 1;
    }
    assert(gv.take(g as int) =~= gv);
    let ghost l3 = views(lines@);
    let ghost rv = records_view(order.records@);
    let mut k: usize = 0;
    while k < order.records.len()
        invariant
            k <= order.records@.len(),
            rv == records_view(order.records@),
            views(lines@) =~= l3 + rv.take(k as int).map_values(|r: RecordV| ledger_line(r)),
        decreases order.records@.len() - k,
    {
        let ghost lb = lines@;
        let record = &order.records[k];
        let mut line = String::from_str("  ");
        line.append(pad_left(crate::text::decimal(record.seq).as_str(), 3).as_str());
        line.append("  ");
        line.append(record.created_at.as_str());
        line.append("  ");
        line.append(if record.is_succeeded { "✓" } else { "✗" });
        line.append(" ");
        line.append(record.step.as_str());
        line.append("　");
        line.append(record.description.as_str());
        lines.push(line);
        proof {
            assert(rv[k as int] == record@);
            assert(rv.take(k + 1) =~= rv.take(k as int).push(rv[k as int]));
            assert(views(lines@) =~= views(lb).push(line@));
        }
        k = k + 1;
    }
    assert(rv.take(k as int) =~= rv);
    let ghost l4 = views(lines@);
    let last = crate::text::cat("产物：", report);
    lines.push(last);
    assert(views(lines@) =~= l4.push(last@));
    assert(views(lines@) =~= order_lines_spec(order@, workflow@, file@, report@));
    Report { ok: true, lines, columns, rows }
}


/// The string under a key as written, empty when there is none.
pub open spec fn raw_spec(v: YamlV, key: Seq<char>) -> Seq<char> {
    match str_spec(get_spec(v, key)) {
        Some(s) => s,
        None => Seq::empty(),
    }
}

/// The journal entries of a task file that are mappings.
pub open spec fn log_items(payload: YamlV) -> Seq<YamlV> {
    match seq_spec(payload, "log"@) {
        Some(items) => mapping_items(items),
        None => Seq::empty(),
    }
}

/// The line of a journal entry in a task's report.
pub open spec fn event_line(e: YamlV) -> Seq<char> {
    "  "@ + raw_spec(e, "at"@) + "　"@ + raw_spec(e, "step"@) + "　"@ + raw_spec(e, "detail"@)
}

/// The last five journal entries, oldest first, under a heading; nothing
/// when the journal is empty.
pub open spec fn recent_spec(items: Seq<YamlV>) -> Seq<Seq<char>> {
    if items.len() == 0 {
        Seq::empty()
    } else {
        let start = if items.len() > 5 { items.len() - 5 } else { 0 };
        seq!["流水（最近五条）："@] + items.subrange(start as int, items.len() as int).map_values(|e: YamlV| event_line(e))
    }
}

/// The report on a task: its start, workflow, progress, each step with its
/// mark, the state line, where its files lie, and its last journal entries.
pub open spec fn task_lines_spec(t: TaskV, w: WorkflowV, data: Seq<char>) -> Seq<Seq<char>> {
    let done = task_done_spec(t, w);
    let start = text_spec(t.payload, "start"@);
    seq![
        "任务："@ + t.name,
        "  开工："@ + (if start.len() == 0 { "（没记）"@ } else { start }),
        "  工作流："@ + text_spec(t.payload, "workflow"@) + "——"@ + w.description,
        "  进度："@ + bar_spec(done.len(), w.steps.len()),
    ] + w.steps.map_values(|s: StepV| "  "@ + mark_spec(done, s.name) + " "@ + s.name) + seq![
        task_state_spec(t, w),
        "指令："@ + short_spec(data, file_spec(t)),
        "产物："@ + short_spec(data, artifact_spec(t, "report"@)) + "、"@ + short_spec(data, artifact_spec(t, "journal"@))
            + "　流水："@ + short_spec(data, artifact_spec(t, "log"@)),
    ] + recent_spec(log_items(t.payload))
}

/// The table of a task: each step and its mark.
pub open spec fn task_rows_spec(t: TaskV, w: WorkflowV) -> Seq<Seq<Seq<char>>> {
    let done = task_done_spec(t, w);
    w.steps.map_values(|s: StepV| seq![s.name, mark_spec(done, s.name)])
}

/// The string under a key as written.
pub(crate) fn raw_of(v: &Yaml, key: &str) -> (r: String)
    ensures
        r@ == raw_spec(v@, key@),
{
    match v.get(key) {
        Some(x) => match x.as_str() {
            Some(s) => s.clone(),
            None => String::new(),
        },
        None => String::new(),
    }
}

/// The journal entries of a task file that are mappings.
fn log_of(payload: &Yaml) -> (r: Vec<Yaml>)
    ensures
        list_view(r@) == log_items(payload@),
{
    let mut out: Vec<Yaml> = Vec::new();
    assert(list_view(out@) =~= Seq::<YamlV>::empty());
    match payload.get("log") {
        Some(v) => match v.as_sequence() {
            Some(items) => {
                let ghost all = list_view(items@);
                proof {
                    crate::yaml::lemma_list_view(items@);
                }
                let mut i: usize = 0;
                assert(all.subrange(0, all.len() as int) =~= all);
                while i < items.len()
                    invariant
                        i <= items@.len(),
                        all == list_view(items@),
                        all.len() == items@.len(),
                        forall|k: int| 0 <= k < items@.len() ==> #[trigger] all[k] == items@[k]@,
                        mapping_items(all) == list_view(out@) + mapping_items(all.subrange(i as int, all.len() as int)),
                    decreases items@.len() - i,
                {
                    let ghost here = all.subrange(i as int, all.len() as int);
                    let ghost before = out@;
                    proof {
                        assert(here.drop_first() =~= all.subrange(i + 1, all.len() as int));
                        assert(here[0] == items@[i as int]@);
                    }
                    if items[i].as_mapping().is_some() {
                        let e = items[i].copy();
                        out.push(e);
                        proof {
                            crate::yaml::lemma_list_view(before);
                            crate::yaml::lemma_list_view(out@);
                            assert(list_view(out@) =~= list_view(before).push(e@));
                            assert(list_view(before) + (seq![here[0]] + mapping_items(here.drop_first())) =~= list_view(out@) + mapping_items(here.drop_first()));
                        }
                    }
                    i = i + 1;
                }
                assert(all.subrange(i as int, all.len() as int) =~= Seq::<YamlV>::empty());
                assert(list_view(out@) + Seq::<YamlV>::empty() =~= list_view(out@));
            },
            None => {},
        },
        None => {},
    }
    out
}

/// The report on a task: `workflow` is the workflow it runs,
/// `data` the ledger paths are shown relative to.
pub fn task_status(task: &Task, workflow: &Workflow, data: &str) -> (r: Report)
    requires
        workflow@.steps.len() * 10 <= usize::MAX,
    ensures
        r.ok,
        views(r.columns@) == seq!["步骤"@, "状态"@],
        views(r.lines@) == task_lines_spec(task@, workflow@, data@),
        table_view(r.rows@) == task_rows_spec(task@, workflow@),
{
    let done = task.done(workflow);
    proof {
        crate::task::lemma_done_within_steps(task@, workflow@);
    }
    let columns = vec![String::from_str("步骤"), String::from_str("状态")];
    assert(views(columns@) =~= seq!["步骤"@, "状态"@]);
    let mut lines: Vec<String> = Vec::new();
    lines.push(crate::text::cat("任务：", task.name.as_str()));
    let start = task.start();
    if start.unicode_len() == 0 {
        lines.push(crate::text::cat("  开工：", "（没记）"));
    } else {
        lines.push(crate::text::cat("  开工：", start.as_str()));
    }
    let mut flow = crate::text::cat("  工作流：", task.workflow_name().as_str());
    flow.append("——");
    flow.append(workflow.description.as_str());
    lines.push(flow);
    lines.push(crate::text::cat("  进度：", crate::task::bar(done.len(), workflow.steps.len()).as_str()));
    let ghost l0 = views(lines@);
    assert(l0 =~= seq![
        "任务："@ + task@.name,
        "  开工："@ + (if start@.len() == 0 { "（没记）"@ } else { start@ }),
        "  工作流："@ + text_spec(task@.payload, "workflow"@) + "——"@ + workflow@.description,
        "  进度："@ + bar_spec(task_done_spec(task@, workflow@).len(), workflow@.steps.len()),
    ]);
    let ghost dv = views(done@);
    let ghost steps = workflow@.steps;
    let mut rows: Vec<Vec<String>> = Vec::new();
    let mut i: usize = 0;
    while i < workflow.steps.len()
        invariant
            i <= workflow.steps@.len(),
            steps == workflow@.steps,
            dv == views(done@),
            dv == task_done_spec(task@, workflow@),
            views(lines@) =~= l0 + steps.take(i as int).map_values(|s: StepV| "  "@ + mark_spec(dv, s.name) + " "@ + s.name),
            table_view(rows@) =~= steps.take(i as int).map_values(|s: StepV| seq![s.name, mark_spec(dv, s.name)]),
        decreases workflow.steps@.len() - i,
    {
        let ghost lb = lines@;
        let ghost rb = rows@;
        let name = &workflow.steps[i].name;
        let mark = if crate::schema::listed(&done, name.as_str()) { "✓" } else { "—" };
        let row = vec![name.clone(), String::from_str(mark)];
        let ghost rowv = views(row@);
        assert(rowv =~= seq![name@, mark_spec(dv, name@)]);
        rows.push(row);
        let mut line = crate::text::cat("  ", mark);
        line.append(" ");
        line.append(name.as_str());
        lines.push(line);
        proof {
            assert(steps[i as int].name == name@);
            assert(steps.take(i + 1) =~= steps.take(i as int).push(steps[i as int]));
            assert(views(lines@) =~= views(lb).push(line@));
            assert(table_view(rows@) =~= table_view(rb).push(rowv));
        }
        i = i + 1;
    }
    assert(steps.take(i as int) =~= steps);
    let ghost l1 = views(lines@);
    let st = crate::task::state_line(task, workflow);
    lines.push(st);
    let order_line = crate::text::cat("指令：", crate::locate::short(data, task.file().as_str()).as_str());
    lines.push(order_line);
    let mut files = crate::text::cat("产物：", crate::locate::short(data, task.artifact(crate::task::REPORT).as_str()).as_str());
    files.append("、");
    files.append(crate::locate::short(data, task.artifact(crate::task::JOURNAL).as_str()).as_str());
    files.append("　流水：");
    files.append(crate::locate::short(data, task.artifact(crate::task::LOG).as_str()).as_str());
    lines.push(files);
    proof {
        reveal_strlit("report");
        reveal_strlit("journal");
        reveal_strlit("log");
    }
    assert(views(lines@) =~= l1 + seq![st@, order_line@, files@]);
    let ghost l2 = views(lines@);
    let log = log_of(&task.payload);
    let ghost lv = list_view(log@);
    proof {
        crate::yaml::lemma_list_view(log@);
    }
    if log.len() > 0 {
        lines.push(String::from_str("流水（最近五条）："));
        let first: usize = if log.len() > 5 { log.len() - 5 } else { 0 };
        let ghost part = lv.subrange(first as int, lv.len() as int);
        let ghost l3 = views(lines@);
        let mut k: usize = first;
        while k < log.len()
            invariant
                first <= k <= log@.len(),
                lv == list_view(log@),
                lv.len() == log@.len(),
                forall|j: int| 0 <= j < log@.len() ==> #[trigger] lv[j] == log@[j]@,
                part == lv.subrange(first as int, lv.len() as int),
                views(lines@) =~= l3 + part.take(k - first).map_values(|e: YamlV| event_line(e)),
            decreases log@.len() - k,
        {
            let ghost lb = lines@;
            let mut line = crate::text::cat("  ", raw_of(&log[k], "at").as_str());
            line.append("　");
            line.append(raw_of(&log[k], "step").as_str());
            line.append("　");
            line.append(raw_of(&log[k], "detail").as_str());
            lines.push(line);
            proof {
                assert(part[k - first] == log@[k as int]@);
                assert(part.take(k + 1 - first) =~= part.take(k - first).push(part[k - first]));
                assert(views(lines@) =~= views(lb).push(line@));
            }
            k = k + 1;
        }
        assert(part.take(k - first) =~= part);
        assert(views(lines@) =~= l2 + recent_spec(lv));
    } else {
        assert(recent_spec(lv) =~= Seq::<Seq<char>>::empty());
        assert(views(lines@) =~= l2 + recent_spec(lv));
    }
    assert(views(lines@) =~= task_lines_spec(task@, workflow@, data@));
    Report { ok: true, lines, columns, rows }
}


/// The report on checking a definition: a verdict line,
/// the findings described, and one row per finding.
pub open spec fn check_lines_spec(name: Seq<char>, found: Seq<crate::check::FindingV>) -> Seq<Seq<char>> {
    let ok = forall|k: int| 0 <= k < found.len() ==> (#[trigger] found[k]).ok;
    seq![
        "定义核对："@ + name + "——"@ + (if ok {
            "判据路径都在区内，描述点到的小节都有判据覆盖。"@
        } else {
            "有要改的地方。"@
        }),
    ] + crate::check::describe_spec(found)
}

/// The rows of a check: where, and the mark with what was checked.
pub open spec fn check_rows_spec(found: Seq<crate::check::FindingV>) -> Seq<Seq<Seq<char>>> {
    found.map_values(|f: crate::check::FindingV| seq![f.where_, (if f.ok { "✓"@ } else { "✗"@ }) + " "@ + f.what])
}

/// The report on checking a definition.
pub fn check_report(name: &str, found: &Vec<crate::check::Finding>) -> (r: Report)
    ensures
        r.ok == forall|k: int| 0 <= k < found@.len() ==> (#[trigger] found@[k]).ok,
        views(r.columns@) == seq!["核对"@, "结论"@],
        views(r.lines@) == check_lines_spec(name@, crate::check::findings_view(found@)),
        table_view(r.rows@) == check_rows_spec(crate::check::findings_view(found@)),
{
    let ok = crate::check::all_ok(found);
    let ghost fv = crate::check::findings_view(found@);
    assert((forall|k: int| 0 <= k < found@.len() ==> (#[trigger] found@[k]).ok) == (forall|k: int| 0 <= k < fv.len() ==> (#[trigger] fv[k]).ok)) by {
        if forall|k: int| 0 <= k < fv.len() ==> (#[trigger] fv[k]).ok {
            assert forall|k: int| 0 <= k < found@.len() implies (#[trigger] found@[k]).ok by {
                assert(fv[k].ok);
            }
        }
    }
    let columns = vec![String::from_str("核对"), String::from_str("结论")];
    assert(views(columns@) =~= seq!["核对"@, "结论"@]);
    let mut head = crate::text::cat("定义核对：", name);
    head.append("——");
    head.append(if ok { "判据路径都在区内，描述点到的小节都有判据覆盖。" } else { "有要改的地方。" });
    let mut lines: Vec<String> = Vec::new();
    lines.push(head);
    let described = crate::check::describe(found);
    extend(&mut lines, &described);
    let mut rows: Vec<Vec<String>> = Vec::new();
    let mut i: usize = 0;
    while i < found.len()
        invariant
            i <= found@.len(),
            fv == crate::check::findings_view(found@),
            table_view(rows@) =~= check_rows_spec(fv.take(i as int)),
        decreases found@.len() - i,
    {
        let ghost rb = rows@;
        let mut cell = String::from_str(if found[i].ok { "✓" } else { "✗" });
        cell.append(" ");
        cell.append(found[i].what.as_str());
        let row = vec![found[i].where_.clone(), cell];
        let ghost rowv = views(row@);
        rows.push(row);
        proof {
            assert(rowv =~= seq![fv[i as int].where_, (if fv[i as int].ok { "✓"@ } else { "✗"@ }) + " "@ + fv[i as int].what]);
            assert(table_view(rows@) =~= table_view(rb).push(rowv));
            assert(fv.take(i + 1) =~= fv.take(i as int).push(fv[i as int]));
        }
        i = i + 1;
    }
    assert(fv.take(i as int) =~= fv);
    assert(views(lines@) =~= check_lines_spec(name@, fv));
    Report { ok, lines, columns, rows }
}

/// The steps an order has done are among the workflow's steps.
pub proof fn lemma_done_among_len(records: Seq<RecordV>, names: Seq<Seq<char>>)
    ensures
        crate::progress::done_among(records, names).len() <= names.len(),
    decreases names.len(),
{
    if names.len() > 0 {
        lemma_done_among_len(records, names.drop_first());
    }
}

/// The line and row of an order in a listing: its progress and next step.
pub open spec fn order_entry_spec(o: OrderV, w: WorkflowV) -> (Seq<Seq<char>>, Seq<char>) {
    let done = done_steps_spec(o, w).len();
    let total = w.steps.len();
    let next = match crate::progress::first_undone(o.records, w.steps) {
        Some(s) => s.name,
        None => "走完"@,
    };
    (
        seq![o.name, w.name, decimal_spec(done) + "/"@ + decimal_spec(total), next],
        pad_spec(o.name, 24) + " 工作流 "@ + w.name + "　"@ + bar_spec(done, total) + "　下一步："@ + next,
    )
}

/// The row and line of an order in a listing.
pub fn order_entry(order: &WorkOrder, workflow: &Workflow) -> (r: (Vec<String>, String))
    requires
        workflow@.steps.len() * 10 <= usize::MAX,
    ensures
        views(r.0@) == order_entry_spec(order@, workflow@).0,
        r.1@ == order_entry_spec(order@, workflow@).1,
{
    let total = workflow.steps.len();
    let done = crate::progress::done_steps(order, workflow).len();
    proof {
        lemma_done_among_len(order@.records, crate::workflow::names_spec(workflow@.steps));
    }
    let next = match crate::progress::next_step(order, workflow) {
        Some(s) => s.name,
        None => String::from_str("走完"),
    };
    let mut progress = crate::text::decimal(done);
    progress.append("/");
    progress.append(crate::text::decimal(total).as_str());
    let row = vec![order.name.clone(), workflow.name.clone(), progress, next.clone()];
    assert(views(row@) =~= order_entry_spec(order@, workflow@).0);
    let mut line = crate::help::pad(order.name.as_str(), 24);
    line.append(" 工作流 ");
    line.append(workflow.name.as_str());
    line.append("　");
    line.append(crate::task::bar(done, total).as_str());
    line.append("　下一步：");
    line.append(next.as_str());
    (row, line)
}

/// The line a listing shows when there are no orders.
pub fn no_orders() -> (r: String)
    ensures
        r@ == "还没有工单：qtcloud-work order create <名字> --workflow <工作流>"@,
{
    String::from_str("还没有工单：qtcloud-work order create <名字> --workflow <工作流>")
}

/// The line and row of a workflow in a listing: its steps, and where its file lies.
pub open spec fn workflow_entry_spec(name: Seq<char>, w: WorkflowV, file: Seq<char>) -> (Seq<Seq<char>>, Seq<char>) {
    let names = crate::text::join_spec(crate::workflow::names_spec(w.steps), "、"@);
    (seq![name, names, file], pad_spec(name, 24) + " 步骤："@ + names)
}

/// The row and line of a workflow in a listing.
pub fn workflow_entry(name: &str, workflow: &Workflow, file: &str) -> (r: (Vec<String>, String))
    ensures
        views(r.0@) == workflow_entry_spec(name@, workflow@, file@).0,
        r.1@ == workflow_entry_spec(name@, workflow@, file@).1,
{
    let names = crate::text::join(&workflow.step_names(), "、");
    let row = vec![String::from_str(name), names.clone(), String::from_str(file)];
    assert(views(row@) =~= workflow_entry_spec(name@, workflow@, file@).0);
    let mut line = crate::help::pad(name, 24);
    line.append(" 步骤：");
    line.append(names.as_str());
    (row, line)
}

/// The line a listing shows when there are no workflows.
pub fn no_workflows() -> (r: String)
    ensures
        r@ == "还没有工作流：qtcloud-work workflow create <名字> --steps 甲,乙"@,
{
    String::from_str("还没有工作流：qtcloud-work workflow create <名字> --steps 甲,乙")
}

/// The line and row of a task in a listing: its workflow, progress and next step.
pub open spec fn task_entry_spec(t: TaskV, w: WorkflowV) -> (Seq<Seq<char>>, Seq<char>) {
    let done = task_done_spec(t, w);
    let next = match crate::task::first_not_in(w.steps, done) {
        Some(s) => s.name,
        None => "走完"@,
    };
    let flow = text_spec(t.payload, "workflow"@);
    (
        seq![t.name, flow, next],
        pad_spec(t.name, 24) + " 工作流 "@ + flow + "　"@ + bar_spec(done.len(), w.steps.len()) + "　下一步："@ + next,
    )
}

/// The row and line of a task in a listing.
pub fn task_entry(task: &Task, workflow: &Workflow) -> (r: (Vec<String>, String))
    requires
        workflow@.steps.len() * 10 <= usize::MAX,
    ensures
        views(r.0@) == task_entry_spec(task@, workflow@).0,
        r.1@ == task_entry_spec(task@, workflow@).1,
{
    let done = task.done(workflow).len();
    proof {
        crate::task::lemma_done_within_steps(task@, workflow@);
    }
    let next = match task.next_step(workflow) {
        Some(s) => s.name,
        None => String::from_str("走完"),
    };
    let flow = task.workflow_name();
    let row = vec![task.name.clone(), flow.clone(), next.clone()];
    assert(views(row@) =~= task_entry_spec(task@, workflow@).0);
    let mut line = crate::help::pad(task.name.as_str(), 24);
    line.append(" 工作流 ");
    line.append(flow.as_str());
    line.append("　");
    line.append(crate::task::bar(done, workflow.steps.len()).as_str());
    line.append("　下一步：");
    line.append(next.as_str());
    (row, line)
}

/// The line a listing shows when there are no tasks.
pub fn no_tasks() -> (r: String)
    ensures
        r@ == "还没有任务：qtcloud-work task --new <名字> --workflow <工作流>"@,
{
    String::from_str("还没有任务：qtcloud-work task --new <名字> --workflow <工作流>")
}


/// The row of an asset the workspace lacks.
pub open spec fn asset_row(a: crate::artifact::AssetV) -> Seq<Seq<char>> {
    seq!["缺资产"@, a.category + "（"@ + a.name + "）"@]
}

/// The row of a directory no asset claims, shown relative to the root.
pub open spec fn stray_row(root: Seq<char>, p: Seq<char>) -> Seq<Seq<char>> {
    seq!["未登记"@, crate::paths::relative_spec(p, root)]
}

/// The table of an audit: the missing assets, then the unregistered directories.
pub open spec fn audit_rows_spec(root: Seq<char>, missing: Seq<crate::artifact::AssetV>, unregistered: Seq<Seq<char>>) -> Seq<Seq<Seq<char>>> {
    missing.map_values(|a: crate::artifact::AssetV| asset_row(a)) + unregistered.map_values(|p: Seq<char>| stray_row(root, p))
}

/// The closing line of an audit: passed when nothing is missing or stray; a
/// hint when only stray directories were found; else none.
pub open spec fn audit_close(missing: nat, unregistered: nat) -> Seq<Seq<char>> {
    if missing == 0 && unregistered == 0 {
        seq!["审计通过：二十格齐备，无未登记目录。"@]
    } else if unregistered > 0 && missing == 0 {
        seq!["未登记的目录要么属于某一格（改资产表），要么不该在这儿。"@]
    } else {
        Seq::empty()
    }
}

/// The lines of an audit: what was made, each row as `问题：说明`, the close.
pub open spec fn audit_lines_spec(root: Seq<char>, missing: Seq<crate::artifact::AssetV>, unregistered: Seq<Seq<char>>, made: Seq<Seq<char>>) -> Seq<Seq<char>> {
    made.map_values(|p: Seq<char>| "补建："@ + crate::paths::relative_spec(p, root))
        + audit_rows_spec(root, missing, unregistered).map_values(|row: Seq<Seq<char>>| row[0] + "："@ + row[1])
        + audit_close(missing.len(), unregistered.len())
}

/// The report of an audit: it passes when no asset is missing and no
/// directory is unregistered; `made` are the directories just made.
pub fn audit_report(root: &str, missing: &Vec<crate::artifact::Asset>, unregistered: &Vec<String>, made: &Vec<String>) -> (r: Report)
    ensures
        r.ok == (missing@.len() == 0 && unregistered@.len() == 0),
        views(r.columns@) == seq!["问题"@, "说明"@],
        table_view(r.rows@) == audit_rows_spec(root@, crate::artifact::assets_view(missing@), views(unregistered@)),
        views(r.lines@) == audit_lines_spec(root@, crate::artifact::assets_view(missing@), views(unregistered@), views(made@)),
{
    let ghost mv = crate::artifact::assets_view(missing@);
    let ghost uv = views(unregistered@);
    let ghost dv = views(made@);
    let columns = vec![String::from_str("问题"), String::from_str("说明")];
    assert(views(columns@) =~= seq!["问题"@, "说明"@]);
    let mut rows: Vec<Vec<String>> = Vec::new();
    let mut i: usize = 0;
    while i < missing.len()
        invariant
            i <= missing@.len(),
            mv == crate::artifact::assets_view(missing@),
            table_view(rows@) =~= mv.take(i as int).map_values(|a: crate::artifact::AssetV| asset_row(a)),
        decreases missing@.len() - i,
    {
        let a = &missing[i];
        let mut cell = crate::text::cat(a.category.as_str(), "（");
        cell.append(a.name.as_str());
        cell.append("）");
        let row = vec![String::from_str("缺资产"), cell];
        let ghost before = rows@;
        rows.push(row);
        proof {
            assert(views(row@) =~= asset_row(mv[i as int]));
            assert(table_view(rows@) =~= table_view(before).push(views(row@)));
            assert(mv.take(i + 1) =~= mv.take(i as int).push(mv[i as int]));
        }
        i = i + 1;
    }
    assert(mv.take(i as int) =~= mv);
    let ghost head = table_view(rows@);
    let mut j: usize = 0;
    while j < unregistered.len()
        invariant
            j <= unregistered@.len(),
            uv == views(unregistered@),
            head == mv.map_values(|a: crate::artifact::AssetV| asset_row(a)),
            table_view(rows@) =~= head + uv.take(j as int).map_values(|p: Seq<char>| stray_row(root@, p)),
        decreases unregistered@.len() - j,
    {
        let row = vec![String::from_str("未登记"), crate::catalog::short(root, unregistered[j].as_str())];
        let ghost before = rows@;
        rows.push(row);
        proof {
            assert(views(row@) =~= stray_row(root@, uv[j as int]));
            assert(table_view(rows@) =~= table_view(before).push(views(row@)));
            assert(uv.take(j + 1) =~= uv.take(j as int).push(uv[j as int]));
        }
        j = j + 1;
    }
    assert(uv.take(j as int) =~= uv);
    let ghost all = audit_rows_spec(root@, mv, uv);
    assert(table_view(rows@) =~= all);
    let mut lines: Vec<String> = Vec::new();
    let mut k: usize = 0;
    while k < made.len()
        invariant
            k <= made@.len(),
            dv == views(made@),
            views(lines@) =~= dv.take(k as int).map_values(|p: Seq<char>| "补建："@ + crate::paths::relative_spec(p, root@)),
        decreases made@.len() - k,
    {
        let line = crate::text::cat("补建：", crate::catalog::short(root, made[k].as_str()).as_str());
        let ghost before = lines@;
        lines.push(line);
        proof {
            crate::text::lemma_views_push(before, line);
            assert(dv.take(k + 1) =~= dv.take(k as int).push(dv[k as int]));
        }
        k = k + 1;
    }
    assert(dv.take(k as int) =~= dv);
    let ghost made_lines = views(lines@);
    assert forall|x: int| 0 <= x < rows@.len() implies (#[trigger] rows@[x])@.len() == 2 by {
        assert(table_view(rows@)[x] == views(rows@[x]@));
        if x < mv.len() {
            assert(all[x] == asset_row(mv[x]));
        } else {
            assert(all[x] == stray_row(root@, uv[x - mv.len()]));
        }
    }
    let mut n: usize = 0;
    while n < rows.len()
        invariant
            n <= rows@.len(),
            table_view(rows@) == all,
            forall|x: int| 0 <= x < rows@.len() ==> (#[trigger] rows@[x])@.len() == 2,
            views(lines@) =~= made_lines + all.take(n as int).map_values(|row: Seq<Seq<char>>| row[0] + "："@ + row[1]),
        decreases rows@.len() - n,
    {
        assert(table_view(rows@)[n as int] == views(rows@[n as int]@));
        let mut line = rows[n][0].clone();
        line.append("：");
        line.append(rows[n][1].as_str());
        let ghost before = lines@;
        lines.push(line);
        proof {
            crate::text::lemma_views_push(before, line);
            assert(all.take(n + 1) =~= all.take(n as int).push(all[n as int]));
        }
        n = n + 1;
    }
    assert(all.take(n as int) =~= all);
    let ok = missing.len() == 0 && unregistered.len() == 0;
    let ghost body = views(lines@);
    if ok {
        lines.push(String::from_str("审计通过：二十格齐备，无未登记目录。"));
    } else if unregistered.len() > 0 && missing.len() == 0 {
        lines.push(String::from_str("未登记的目录要么属于某一格（改资产表），要么不该在这儿。"));
    }
    assert(views(lines@) =~= body + audit_close(mv.len(), uv.len()));
    Report { ok, lines, columns, rows }
}


/// A material's time, or `（缺）` when it has none.
pub open spec fn created_cell(m: crate::material::MaterialV) -> Seq<char> {
    if m.created_at.len() == 0 { "（缺）"@ } else { m.created_at }
}

/// The row of a material: where, its type, stage, time and source.
pub open spec fn material_row(rel: Seq<char>, m: crate::material::MaterialV) -> Seq<Seq<char>> {
    seq![rel, m.kind, m.stage, created_cell(m), m.source]
}

/// The line of a material, in padded columns.
pub open spec fn material_line(rel: Seq<char>, m: crate::material::MaterialV) -> Seq<char> {
    pad_spec(rel, 52) + " "@ + pad_spec(m.kind, 5) + " "@ + pad_spec(m.stage, 5) + " "@ + pad_spec(created_cell(m), 11)
        + " "@ + m.source
}

/// The lines of one material: its line, then the fields it lacks, if any.
pub open spec fn material_item_lines(rel: Seq<char>, m: crate::material::MaterialV) -> Seq<Seq<char>> {
    let lacking = crate::material::missing_spec(m);
    seq![material_line(rel, m)] + if lacking.len() > 0 {
        seq!["缺字段："@ + rel + "——"@ + crate::text::join_spec(lacking, "、"@)]
    } else {
        Seq::empty()
    }
}

/// The views of materials read.
pub open spec fn found_view(v: Seq<(String, crate::material::Material)>) -> Seq<(Seq<char>, crate::material::MaterialV)> {
    v.map_values(|x: (String, crate::material::Material)| (x.0@, x.1@))
}

/// The lines of the materials, in order.
pub open spec fn materials_lines(found: Seq<(Seq<char>, crate::material::MaterialV)>) -> Seq<Seq<char>>
    decreases found.len(),
{
    if found.len() == 0 {
        Seq::empty()
    } else {
        materials_lines(found.drop_last()) + material_item_lines(found.last().0, found.last().1)
    }
}

/// Every material has all its fields.
pub open spec fn materials_complete(found: Seq<(Seq<char>, crate::material::MaterialV)>) -> bool {
    forall|k: int| 0 <= k < found.len() ==> crate::material::missing_spec((#[trigger] found[k]).1).len() == 0
}

/// The report on materials: a row and a line each, the fields each lacks;
/// it passes when none lacks one, and then closes with where the stage comes from.
pub fn material_report(found: &Vec<(String, crate::material::Material)>) -> (r: Report)
    ensures
        r.ok == materials_complete(found_view(found@)),
        views(r.columns@) == seq!["材料"@, "类型"@, "阶段"@, "时间"@, "来源"@],
        table_view(r.rows@) == found_view(found@).map_values(
            |x: (Seq<char>, crate::material::MaterialV)| material_row(x.0, x.1),
        ),
        views(r.lines@) == materials_lines(found_view(found@)) + if materials_complete(found_view(found@)) {
            seq!["阶段由资产位置承担：日志是原始，其余是材料。"@]
        } else {
            Seq::<Seq<char>>::empty()
        },
{
    let ghost fv = found_view(found@);
    let columns = vec![
        String::from_str("材料"),
        String::from_str("类型"),
        String::from_str("阶段"),
        String::from_str("时间"),
        String::from_str("来源"),
    ];
    assert(views(columns@) =~= seq!["材料"@, "类型"@, "阶段"@, "时间"@, "来源"@]);
    let mut rows: Vec<Vec<String>> = Vec::new();
    let mut lines: Vec<String> = Vec::new();
    let mut ok = true;
    let mut i: usize = 0;
    while i < found.len()
        invariant
            i <= found@.len(),
            fv == found_view(found@),
            table_view(rows@) =~= fv.take(i as int).map_values(
                |x: (Seq<char>, crate::material::MaterialV)| material_row(x.0, x.1),
            ),
            views(lines@) == materials_lines(fv.take(i as int)),
            ok == materials_complete(fv.take(i as int)),
        decreases found@.len() - i,
    {
        let (rel, m) = &found[i];
        let ghost x = fv[i as int];
        assert(x == (rel@, m@));
        let created = if m.created_at.unicode_len() == 0 {
            String::from_str("（缺）")
        } else {
            m.created_at.clone()
        };
        let row = vec![rel.clone(), m.kind.clone(), m.stage.clone(), created.clone(), m.source.clone()];
        let ghost rb = rows@;
        rows.push(row);
        proof {
            assert(views(row@) =~= material_row(rel@, m@));
            assert(table_view(rows@) =~= table_view(rb).push(views(row@)));
            assert(fv.take(i + 1) =~= fv.take(i as int).push(x));
        }
        let mut line = crate::help::pad(rel.as_str(), 52);
        line.append(" ");
        line.append(crate::help::pad(m.kind.as_str(), 5).as_str());
        line.append(" ");
        line.append(crate::help::pad(m.stage.as_str(), 5).as_str());
        line.append(" ");
        line.append(crate::help::pad(created.as_str(), 11).as_str());
        line.append(" ");
        line.append(m.source.as_str());
        let ghost lb = views(lines@);
        lines.push(line);
        let lacking = m.missing();
        let mut names: Vec<String> = Vec::new();
        let mut k: usize = 0;
        while k < lacking.len()
            invariant
                k <= lacking@.len(),
                views(names@) =~= lacking@.map_values(|s: &'static str| s@).take(k as int),
            decreases lacking@.len() - k,
        {
            let ghost nb = names@;
            names.push(String::from_str(lacking[k]));
            proof {
                assert(views(names@) =~= views(nb).push(lacking@[k as int]@));
            }
            k = k + 1;
        }
        assert(lacking@.map_values(|s: &'static str| s@).take(k as int) =~= lacking@.map_values(|s: &'static str| s@));
        let ghost item = material_item_lines(rel@, m@);
        if lacking.len() > 0 {
            ok = false;
            let mut note = crate::text::cat("缺字段：", rel.as_str());
            note.append("——");
            note.append(crate::text::join(&names, "、").as_str());
            lines.push(note);
        }
        proof {
            assert(views(lines@) =~= lb + item);
            assert(fv.take(i + 1).drop_last() =~= fv.take(i as int));
            assert(fv.take(i + 1).last() == x);
            let t = fv.take(i + 1);
            if materials_complete(t) {
                assert(materials_complete(fv.take(i as int))) by {
                    assert forall|q: int| 0 <= q < i implies crate::material::missing_spec((#[trigger] fv.take(i as int)[q]).1).len() == 0 by {
                        assert(fv.take(i as int)[q] == t[q]);
                    }
                }
                assert(crate::material::missing_spec(t[i as int].1).len() == 0);
            }
            if ok {
                assert forall|q: int| 0 <= q < t.len() implies crate::material::missing_spec((#[trigger] t[q]).1).len() == 0 by {
                    if q < i {
                        assert(fv.take(i as int)[q] == t[q]);
                    }
                }
            }
        }
        i = i + 1;
    }
    assert(fv.take(i as int) =~= fv);
    if ok {
        lines.push(String::from_str("阶段由资产位置承担：日志是原始，其余是材料。"));
    }
    Report { ok, lines, columns, rows }
}

}
