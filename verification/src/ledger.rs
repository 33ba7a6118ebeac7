//! Writing the ledger: opening an order, appending a record, and the rule that
//! an order with records is never deleted. Where the order file lies and the
//! moment of writing come from the caller.
use vstd::prelude::*;
use crate::ids::is_id_spec;
use crate::order::{
    OrderV, RecordV, WorkOrder, WorkRecord, append_fault, order_fault, order_sound, record_sound,
    records_sound, records_view,
};
use crate::progress::{done_spec, finished_spec, first_undone};
use crate::text::{decimal_spec, text_less, trim_spec};
use crate::workflow::{StepV, Workflow, WorkflowV, find_step};

verus! {

/// Why a record may not be appended before it is written: its id, a step the
/// workflow lacks, or a moment earlier than the last record's.
pub open spec fn append_refusal(o: OrderV, w: WorkflowV, record_id: Seq<char>, step: Seq<char>, stamp: Seq<char>) -> Option<Seq<char>> {
    if append_fault(o, record_id) is Some {
        append_fault(o, record_id)
    } else if find_step(w.steps, step) is None {
        Some("所引工作流里没有这一步："@ + step + "（先看看定义）"@)
    } else if o.records.len() > 0 && o.records.last().created_at.len() > 0 && text_less(stamp, o.records.last().created_at) {
        Some("时间倒序：新记录（"@ + stamp + "）早于末条（"@ + o.records.last().created_at + "）"@)
    } else {
        None
    }
}

/// The record appended for step `s`: the next page number, the order's id, the
/// step's name and id, the description trimmed.
pub open spec fn new_record(o: OrderV, s: StepV, record_id: Seq<char>, description: Seq<char>, is_succeeded: bool, stamp: Seq<char>) -> RecordV {
    RecordV {
        id: record_id,
        seq: (o.records.len() + 1) as usize,
        created_at: stamp,
        order_id: o.id,
        step: s.name,
        step_id: s.id,
        description: trim_spec(description),
        is_succeeded,
    }
}

/// The order with one more record.
pub open spec fn with_record(o: OrderV, r: RecordV) -> OrderV {
    OrderV { records: o.records.push(r), ..o }
}

/// Appends a record to an order (without writing the file):
/// the record id is the appender's idempotency key; the page number, the step's
/// id and the order's id are filled in by the ledger; `stamp` is the moment of
/// writing. The order is then checked whole; when that check fails the record
/// stays appended in memory and the error is returned.
pub fn append(
    order: &mut WorkOrder,
    workflow: &Workflow,
    record_id: &str,
    step: &str,
    description: &str,
    is_succeeded: bool,
    stamp: &str,
) -> (r: Result<WorkRecord, String>)
    requires
        old(order).records@.len() < usize::MAX,
    ensures
        match append_refusal(old(order)@, workflow@, record_id@, step@, stamp@) {
            Some(m) => r is Err && r->Err_0@ == m && final(order)@ == old(order)@,
            None => {
                let rec = new_record(old(order)@, find_step(workflow@.steps, step@)->0, record_id@, description@, is_succeeded, stamp@);
                &&& final(order)@ == with_record(old(order)@, rec)
                &&& match order_fault(final(order)@, "工单"@) {
                    None => r is Ok && r->Ok_0@ == rec,
                    Some(m) => r is Err && r->Err_0@ == m,
                }
            },
        },
{
    match crate::order::append_check(order, record_id) {
        Err(m) => {
            return Err(m);
        },
        Ok(()) => {},
    }
    let found = match workflow.step(step) {
        Some(s) => s,
        None => {
            let mut m = String::from_str("所引工作流里没有这一步：");
            m.append(step);
            m.append("（先看看定义）");
            return Err(m);
        },
    };
    let n = order.records.len();
    if n > 0 {
        let last = &order.records[n - 1];
        if last.created_at.unicode_len() > 0 && crate::text::less(stamp, last.created_at.as_str()) {
            let mut m = String::from_str("时间倒序：新记录（");
            m.append(stamp);
            m.append("）早于末条（");
            m.append(last.created_at.as_str());
            m.append("）");
            return Err(m);
        }
    }
    let record = WorkRecord {
        id: String::from_str(record_id),
        seq: n + 1,
        created_at: String::from_str(stamp),
        order_id: order.id.clone(),
        step: found.name.clone(),
        step_id: found.id.clone(),
        description: crate::text::trim(description),
        is_succeeded,
    };
    let ghost before = order.records@;
    order.records.push(record.copy());
    proof {
        assert(records_view(order.records@) =~= records_view(before).push(record@));
    }
    match crate::order::validate(order, "工单") {
        Ok(()) => Ok(record),
        Err(m) => Err(m),
    }
}

/// Appending a record that passes the checks before writing keeps a sound
/// ledger sound, when the moment is given and the workflow's steps carry ids
/// and names: the check of the whole order after appending never fails then.
pub proof fn lemma_append_keeps_sound(
    o: OrderV,
    w: WorkflowV,
    record_id: Seq<char>,
    step: Seq<char>,
    description: Seq<char>,
    is_succeeded: bool,
    stamp: Seq<char>,
)
    requires
        order_sound(o),
        append_refusal(o, w, record_id, step, stamp) is None,
        stamp.len() > 0,
        step.len() > 0,
        forall|k: int| 0 <= k < w.steps.len() ==> is_id_spec(#[trigger] w.steps[k].id),
        o.records.len() + 1 <= usize::MAX,
    ensures
        order_sound(with_record(o, new_record(o, find_step(w.steps, step)->0, record_id, description, is_succeeded, stamp))),
{
    let s = find_step(w.steps, step)->0;
    lemma_find_step(w.steps, step);
    let rec = new_record(o, s, record_id, description, is_succeeded, stamp);
    let rs = o.records.push(rec);
    let n = o.records.len() as int;
    assert forall|k: int| 0 <= k < rs.len() implies #[trigger] record_sound(rs, k, o.id) by {
        if k < n {
            assert(record_sound(o.records, k, o.id));
            assert(rs[k] == o.records[k]);
            if k > 0 {
                assert(rs[k - 1] == o.records[k - 1]);
            }
            if crate::order::id_taken(rs, k) {
                let j = choose|j: int| 0 <= j < k && #[trigger] rs[j].id == rs[k].id;
                assert(o.records[j].id == o.records[k].id);
            }
        } else {
            assert(rs[k] == rec);
            if crate::order::id_taken(rs, k) {
                let j = choose|j: int| 0 <= j < k && #[trigger] rs[j].id == rs[k].id;
                assert(o.records[j].id == record_id);
            }
            if k > 0 {
                assert(rs[k - 1] == o.records.last());
                assert(record_sound(o.records, k - 1, o.id));
            }
        }
    }
    assert(with_record(o, rec).records == rs);
}

/// A record id is an idempotency key: once a record is on the ledger, an
/// append that brings its id again is refused as a replay, whatever the step
/// and the moment.
pub proof fn lemma_replay_refused(o: OrderV, w: WorkflowV, r: RecordV, step: Seq<char>, stamp: Seq<char>)
    requires
        is_id_spec(r.id),
    ensures
        append_refusal(with_record(o, r), w, r.id, step, stamp) == Some(
            "这条记录已经在账上了："@ + r.id + "（视作重放）"@,
        ),
{
    let rs = with_record(o, r).records;
    assert(rs[o.records.len() as int] == r);
}

/// The step found by name carries that name and is one of the workflow's steps.
pub proof fn lemma_find_step(steps: Seq<StepV>, name: Seq<char>)
    ensures
        find_step(steps, name) matches Some(s) ==> s.name == name && exists|k: int| 0 <= k < steps.len() && #[trigger] steps[k] == s,
    decreases steps.len(),
{
    if steps.len() > 0 && steps[0].name != name {
        lemma_find_step(steps.drop_first(), name);
        if find_step(steps, name) is Some {
            let s = find_step(steps, name)->0;
            let k = choose|k: int| 0 <= k < steps.drop_first().len() && #[trigger] steps.drop_first()[k] == s;
            assert(steps[k + 1] == s);
        }
    } else if steps.len() > 0 {
        assert(steps[0] == find_step(steps, name)->0);
    }
}

/// Appending never undoes a step: what was done stays done.
pub proof fn lemma_append_keeps_done(records: Seq<RecordV>, r: RecordV, step: Seq<char>)
    requires
        done_spec(records, step),
    ensures
        done_spec(records.push(r), step),
{
    let j = choose|j: int| 0 <= j < records.len() && (#[trigger] records[j]).step == step && records[j].is_succeeded;
    assert(records.push(r)[j] == records[j]);
}

/// A succeeded record marks its step done.
pub proof fn lemma_succeeded_marks_done(records: Seq<RecordV>, r: RecordV)
    requires
        r.is_succeeded,
    ensures
        done_spec(records.push(r), r.step),
{
    assert(records.push(r)[records.len() as int] == r);
}

/// An order is finished exactly when its workflow has steps and none is left
/// undone.
pub proof fn lemma_finished_iff_no_next(o: OrderV, w: WorkflowV)
    ensures
        finished_spec(o, w) <==> (w.steps.len() > 0 && first_undone(o.records, w.steps) is None),
{
    lemma_first_undone(o.records, w.steps);
}

/// The first step not done is the first of the steps that is not done.
proof fn lemma_first_undone(records: Seq<RecordV>, steps: Seq<StepV>)
    ensures
        first_undone(records, steps) is None <==> forall|k: int| 0 <= k < steps.len() ==> done_spec(records, #[trigger] steps[k].name),
    decreases steps.len(),
{
    if steps.len() > 0 {
        lemma_first_undone(records, steps.drop_first());
        if first_undone(records, steps) is None {
            assert forall|k: int| 0 <= k < steps.len() implies done_spec(records, #[trigger] steps[k].name) by {
                if k > 0 {
                    assert(steps.drop_first()[k - 1] == steps[k]);
                }
            }
        } else if done_spec(records, steps[0].name) {
            assert(!forall|k: int| 0 <= k < steps.drop_first().len() ==> done_spec(records, #[trigger] steps.drop_first()[k].name));
            let k = choose|k: int| 0 <= k < steps.drop_first().len() && !done_spec(records, #[trigger] steps.drop_first()[k].name);
            assert(steps[k + 1] == steps.drop_first()[k]);
        }
    }
}

/// Why an order may not be deleted: it has records, and a ledger is never closed.
pub open spec fn delete_refusal(o: OrderV) -> Option<Seq<char>> {
    if o.records.len() > 0 {
        Some("有账不销：这单已经有 "@ + decimal_spec(o.records.len()) + " 笔流水，删不得"@)
    } else {
        None
    }
}

/// Whether an order may be deleted: only a blank one may.
pub fn deletable(order: &WorkOrder) -> (r: Result<(), String>)
    ensures
        match delete_refusal(order@) {
            None => r is Ok,
            Some(m) => r is Err && r->Err_0@ == m,
        },
{
    if order.records.len() > 0 {
        let mut m = String::from_str("有账不销：这单已经有 ");
        m.append(crate::text::decimal(order.records.len()).as_str());
        m.append(" 笔流水，删不得");
        return Err(m);
    }
    Ok(())
}

/// The name of a new order, trimmed; refused when empty.
pub fn order_name(name: &str) -> (r: Result<String, String>)
    ensures
        trim_spec(name@).len() == 0 ==> r is Err && r->Err_0@ == "请先给这单起个名字"@,
        trim_spec(name@).len() > 0 ==> r is Ok && r->Ok_0@ == trim_spec(name@),
{
    let trimmed = crate::text::trim(name);
    if trimmed.unicode_len() == 0 {
        return Err(String::from_str("请先给这单起个名字"));
    }
    Ok(trimmed)
}

/// The cover of a new order with no records: its name and description trimmed.
pub open spec fn new_order_spec(id: Seq<char>, name: Seq<char>, workflow_id: Seq<char>, description: Seq<char>, stamp: Seq<char>) -> OrderV {
    OrderV {
        id,
        name: trim_spec(name),
        description: trim_spec(description),
        workflow_id,
        created_at: stamp,
        records: Seq::empty(),
    }
}

/// Opens a new order (without the file): `id` is a fresh id, `stamp`
/// the moment of opening, `workflow_id` the id of the workflow it follows. The
/// cover is checked before it is returned.
pub fn open_order(id: &str, name: &str, workflow_id: &str, description: &str, stamp: &str) -> (r: Result<WorkOrder, String>)
    ensures
        match order_fault(new_order_spec(id@, name@, workflow_id@, description@, stamp@), "工单"@) {
            None => r is Ok && r->Ok_0@ == new_order_spec(id@, name@, workflow_id@, description@, stamp@),
            Some(m) => r is Err && r->Err_0@ == m,
        },
{
    let order = WorkOrder {
        id: String::from_str(id),
        name: crate::text::trim(name),
        description: crate::text::trim(description),
        workflow_id: String::from_str(workflow_id),
        created_at: String::from_str(stamp),
        records: Vec::new(),
    };
    assert(order@.records =~= Seq::<RecordV>::empty());
    match crate::order::validate(&order, "工单") {
        Ok(()) => Ok(order),
        Err(m) => Err(m),
    }
}


/// The places an order's criteria refer to by placeholder, relative to the
/// root: its `report` and `journal`, and the `artifacts` directory.
pub open spec fn order_table_spec(l: crate::locate::LocateV, order_name: Seq<char>) -> Seq<(Seq<char>, Seq<char>)> {
    seq![
        ("report"@, crate::paths::relative_spec(crate::paths::path_join(l.artifacts, crate::locate::place_spec("report"@, order_name)), l.root)),
        ("journal"@, crate::paths::relative_spec(crate::paths::path_join(l.artifacts, crate::locate::place_spec("journal"@, order_name)), l.root)),
        ("artifacts"@, crate::paths::relative_spec(l.artifacts, l.root)),
    ]
}

/// The places an order's criteria refer to by placeholder.
pub fn order_table(locate: &crate::locate::Locate, order_name: &str) -> (r: Vec<(String, String)>)
    ensures
        crate::criterion::table_view(r@) == order_table_spec(locate@, order_name@),
{
    let report = locate.artifact_path("report", order_name);
    let journal = locate.artifact_path("journal", order_name);
    let table = vec![
        (String::from_str("report"), crate::paths::relative(report.as_str(), locate.root.as_str())),
        (String::from_str("journal"), crate::paths::relative(journal.as_str(), locate.root.as_str())),
        (String::from_str("artifacts"), crate::paths::relative(locate.artifacts.as_str(), locate.root.as_str())),
    ];
    assert(crate::criterion::table_view(table@) =~= order_table_spec(locate@, order_name@));
    table
}

/// Criteria with their placeholders replaced by an order's places.
pub fn expanded_criteria(criteria: &Vec<crate::criterion::Criterion>, table: &Vec<(String, String)>) -> (r: Vec<crate::criterion::Criterion>)
    ensures
        crate::workflow::criteria_view(r@) == crate::workflow::criteria_view(criteria@).map_values(
            |c: crate::criterion::CriterionV| crate::criterion::expanded_spec(c, crate::criterion::table_view(table@)),
        ),
{
    let ghost cv = crate::workflow::criteria_view(criteria@);
    let ghost tv = crate::criterion::table_view(table@);
    let mut out: Vec<crate::criterion::Criterion> = Vec::new();
    let mut i: usize = 0;
    while i < criteria.len()
        invariant
            i <= criteria@.len(),
            cv == crate::workflow::criteria_view(criteria@),
            tv == crate::criterion::table_view(table@),
            crate::workflow::criteria_view(out@) =~= cv.take(i as int).map_values(
                |c: crate::criterion::CriterionV| crate::criterion::expanded_spec(c, tv),
            ),
        decreases criteria@.len() - i,
    {
        let ghost before = out@;
        let e = criteria[i].expanded(table);
        out.push(e);
        proof {
            assert(crate::workflow::criteria_view(out@) =~= crate::workflow::criteria_view(before).push(e@));
            assert(cv.take(i + 1) =~= cv.take(i as int).push(cv[i as int]));
        }
        i = i + 1;
    }
    assert(cv.take(i as int) =~= cv);
    out
}

/// What is known of an order's step for the agent: the order, the workflow's
/// steps, the step, where the order's artifacts go (relative to the root) and
/// its last eight records.
pub fn order_facts(
    locate: &crate::locate::Locate,
    order: &WorkOrder,
    workflow: &Workflow,
    step: &crate::workflow::Step,
) -> (r: crate::prompts::Facts)
    ensures
        r.root@ == locate@.root,
        r.name@ == order@.name,
        r.description@ == order@.description,
        r.workflow_name@ == workflow@.name,
        r.steps@ == crate::text::join_spec(crate::workflow::names_spec(workflow@.steps), "、"@),
        r.step@ == step@.name,
        r.what@ == step@.description,
        r.report@ == order_table_spec(locate@, order@.name)[0].1,
        r.journal@ == order_table_spec(locate@, order@.name)[1].1,
        r.records@ == crate::prompts::previous_spec(order@.records, 8),
{
    let report = locate.artifact_path("report", order.name.as_str());
    let journal = locate.artifact_path("journal", order.name.as_str());
    crate::prompts::Facts {
        root: locate.root.clone(),
        name: order.name.clone(),
        description: order.description.clone(),
        workflow_name: workflow.name.clone(),
        steps: crate::text::join(&workflow.step_names(), "、"),
        step: step.name.clone(),
        what: step.description.clone(),
        report: crate::paths::relative(report.as_str(), locate.root.as_str()),
        journal: crate::paths::relative(journal.as_str(), locate.root.as_str()),
        records: crate::prompts::previous_records(&order.records, 8),
    }
}

/// What walking an order's next step starts with: nothing when every step
/// is done, a note when the step is a person's, else the walk.
pub enum Turn {
    /// Every step is done.
    Through(String),
    /// The step is a person's: these two lines.
    Persons(String, String),
    /// The agent walks this step.
    Walk(crate::workflow::Step),
}

/// What walking an order's next step starts with.
pub fn order_turn(order_name: &str, next: Option<crate::workflow::Step>) -> (r: Turn)
    ensures
        match next {
            None => r matches Turn::Through(line) && line@ == "所有步骤都走过了"@,
            Some(s) => if s@.executor == "human"@ {
                r matches Turn::Persons(a, b) && a@ == s@.name + "：这一步轮到你（人做的不替你做）"@
                    && b@ == "做完记一笔：qtcloud-work order done "@ + order_name@ + " "@ + s@.name
            } else {
                r matches Turn::Walk(step) && step@ == s@
            },
        },
{
    match next {
        None => Turn::Through(String::from_str("所有步骤都走过了")),
        Some(step) => {
            proof {
                reveal_strlit("human");
            }
            if crate::yaml::same(step.executor.as_str(), crate::schema::HUMAN) {
                let a = crate::text::cat(step.name.as_str(), "：这一步轮到你（人做的不替你做）");
                let mut b = crate::text::cat("做完记一笔：qtcloud-work order done ", order_name);
                b.append(" ");
                b.append(step.name.as_str());
                Turn::Persons(a, b)
            } else {
                Turn::Walk(step)
            }
        },
    }
}

}
