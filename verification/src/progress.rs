//! Progress of a work order, derived and never stored: a step is done once the
//! ledger holds a succeeded record for it; the next step is the first one not
//! done; the order is finished when every step is done. Gates (criteria only a
//! person may pass) of steps not yet done are listed for a decision.
use vstd::prelude::*;
use crate::criterion::{CriterionV, description_spec};
use crate::order::{OrderV, RecordV, WorkOrder};
use crate::text::{decimal_spec, trim_spec, views};
use crate::workflow::{StepV, Workflow, WorkflowV, names_spec, of_kind_spec};

verus! {

/// The ledger holds a succeeded record for `step`.
pub open spec fn done_spec(records: Seq<RecordV>, step: Seq<char>) -> bool {
    exists|j: int| 0 <= j < records.len() && (#[trigger] records[j]).step == step && records[j].is_succeeded
}

/// The names among `names` that are done, in order.
pub open spec fn done_among(records: Seq<RecordV>, names: Seq<Seq<char>>) -> Seq<Seq<char>>
    decreases names.len(),
{
    if names.len() == 0 {
        Seq::empty()
    } else {
        let rest = done_among(records, names.drop_first());
        if done_spec(records, names[0]) {
            seq![names[0]] + rest
        } else {
            rest
        }
    }
}

/// The steps of a workflow that an order has done, in the workflow's order.
pub open spec fn done_steps_spec(o: OrderV, w: WorkflowV) -> Seq<Seq<char>> {
    done_among(o.records, names_spec(w.steps))
}

/// The first step not done.
pub open spec fn first_undone(records: Seq<RecordV>, steps: Seq<StepV>) -> Option<StepV>
    decreases steps.len(),
{
    if steps.len() == 0 {
        None
    } else if !done_spec(records, steps[0].name) {
        Some(steps[0])
    } else {
        first_undone(records, steps.drop_first())
    }
}

/// Every step is done, and there is at least one.
pub open spec fn finished_spec(o: OrderV, w: WorkflowV) -> bool {
    w.steps.len() > 0 && forall|k: int| 0 <= k < w.steps.len() ==> done_spec(o.records, #[trigger] w.steps[k].name)
}

/// The notes for the gates of one step: `step：text` for each gate whose
/// description, trimmed, is not empty.
pub open spec fn gate_notes(step: Seq<char>, gates: Seq<CriterionV>) -> Seq<Seq<char>>
    decreases gates.len(),
{
    if gates.len() == 0 {
        Seq::empty()
    } else {
        let rest = gate_notes(step, gates.drop_first());
        let text = trim_spec(description_spec(gates[0]));
        if text.len() > 0 {
            seq![step + "："@ + text] + rest
        } else {
            rest
        }
    }
}

/// The gates waiting for a decision: those of the steps not yet done.
pub open spec fn pending_spec(records: Seq<RecordV>, steps: Seq<StepV>) -> Seq<Seq<char>>
    decreases steps.len(),
{
    if steps.len() == 0 {
        Seq::empty()
    } else {
        let rest = pending_spec(records, steps.drop_first());
        if done_spec(records, steps[0].name) {
            rest
        } else {
            gate_notes(steps[0].name, of_kind_spec(steps[0].criteria, "human"@)) + rest
        }
    }
}

/// `note` is the note of a person's gate of a step not done: some step of
/// `steps` that the ledger has not done carries a human criterion whose
/// trimmed description follows the step's name and `：`.
pub open spec fn human_gate_note(records: Seq<RecordV>, steps: Seq<StepV>, note: Seq<char>) -> bool {
    exists|k: int, j: int|
        #![trigger steps[k].criteria[j]]
        0 <= k < steps.len() && 0 <= j < steps[k].criteria.len() && !done_spec(records, steps[k].name)
            && steps[k].criteria[j] is Human && note == steps[k].name + "："@ + trim_spec(
            description_spec(steps[k].criteria[j]),
        )
}

/// Each note for gates comes from one of them.
proof fn lemma_gate_note_from(step: Seq<char>, gates: Seq<CriterionV>)
    ensures
        forall|i: int| 0 <= i < gate_notes(step, gates).len() ==> exists|j: int|
            0 <= j < gates.len() && #[trigger] gate_notes(step, gates)[i] == step + "："@ + trim_spec(
                description_spec(gates[j]),
            ),
    decreases gates.len(),
{
    if gates.len() > 0 {
        let rest = gates.drop_first();
        lemma_gate_note_from(step, rest);
        let g = gate_notes(step, gates);
        assert forall|i: int| 0 <= i < g.len() implies exists|j: int|
            0 <= j < gates.len() && #[trigger] g[i] == step + "："@ + trim_spec(description_spec(gates[j])) by {
            let text = trim_spec(description_spec(gates[0]));
            if text.len() > 0 {
                if i == 0 {
                    assert(g[0] == step + "："@ + trim_spec(description_spec(gates[0])));
                } else {
                    assert(g[i] == gate_notes(step, rest)[i - 1]);
                    let j = choose|j: int| 0 <= j < rest.len() && #[trigger] gate_notes(step, rest)[i - 1] == step + "："@ + trim_spec(description_spec(rest[j]));
                    assert(rest[j] == gates[j + 1]);
                }
            } else {
                assert(g[i] == gate_notes(step, rest)[i]);
                let j = choose|j: int| 0 <= j < rest.len() && #[trigger] gate_notes(step, rest)[i] == step + "："@ + trim_spec(description_spec(rest[j]));
                assert(rest[j] == gates[j + 1]);
            }
        }
    }
}

/// The criteria picked by kind are among the criteria and of that kind.
pub proof fn lemma_of_kind_from(cs: Seq<CriterionV>, kind: Seq<char>)
    ensures
        forall|i: int| 0 <= i < of_kind_spec(cs, kind).len() ==> exists|j: int|
            0 <= j < cs.len() && cs[j] == #[trigger] of_kind_spec(cs, kind)[i] && crate::criterion::executor_spec(cs[j]) == kind,
    decreases cs.len(),
{
    if cs.len() > 0 {
        let rest = cs.drop_first();
        lemma_of_kind_from(rest, kind);
        let o = of_kind_spec(cs, kind);
        assert forall|i: int| 0 <= i < o.len() implies exists|j: int|
            0 <= j < cs.len() && cs[j] == #[trigger] o[i] && crate::criterion::executor_spec(cs[j]) == kind by {
            if crate::criterion::executor_spec(cs[0]) == kind {
                if i == 0 {
                    assert(cs[0] == o[0]);
                } else {
                    assert(o[i] == of_kind_spec(rest, kind)[i - 1]);
                    let j = choose|j: int| 0 <= j < rest.len() && rest[j] == #[trigger] of_kind_spec(rest, kind)[i - 1] && crate::criterion::executor_spec(rest[j]) == kind;
                    assert(rest[j] == cs[j + 1]);
                }
            } else {
                assert(o[i] == of_kind_spec(rest, kind)[i]);
                let j = choose|j: int| 0 <= j < rest.len() && rest[j] == #[trigger] of_kind_spec(rest, kind)[i] && crate::criterion::executor_spec(rest[j]) == kind;
                assert(rest[j] == cs[j + 1]);
            }
        }
    }
}

/// Only a person's gates wait: every pending note is the note of a human
/// criterion of a step the ledger has not done; an agent's or a rule's
/// criterion is never listed.
pub proof fn lemma_pending_only_human(records: Seq<RecordV>, steps: Seq<StepV>)
    ensures
        forall|i: int| 0 <= i < pending_spec(records, steps).len() ==> human_gate_note(records, steps, #[trigger] pending_spec(records, steps)[i]),
    decreases steps.len(),
{
    if steps.len() > 0 {
        let rest = steps.drop_first();
        lemma_pending_only_human(records, rest);
        let p = pending_spec(records, steps);
        let pr = pending_spec(records, rest);
        assert forall|i: int| 0 <= i < p.len() implies human_gate_note(records, steps, #[trigger] p[i]) by {
            if done_spec(records, steps[0].name) {
                assert(p[i] == pr[i]);
                assert(human_gate_note(records, rest, pr[i]));
                let (k, j) = choose|k: int, j: int|
                    #![trigger rest[k].criteria[j]]
                    0 <= k < rest.len() && 0 <= j < rest[k].criteria.len() && !done_spec(records, rest[k].name)
                        && rest[k].criteria[j] is Human && pr[i] == rest[k].name + "："@ + trim_spec(description_spec(rest[k].criteria[j]));
                assert(rest[k] == steps[k + 1]);
                assert(steps[k + 1].criteria[j] == rest[k].criteria[j]);
            } else {
                let hs = of_kind_spec(steps[0].criteria, "human"@);
                let g = gate_notes(steps[0].name, hs);
                assert(p =~= g + pr);
                if i < g.len() {
                    lemma_gate_note_from(steps[0].name, hs);
                    lemma_of_kind_from(steps[0].criteria, "human"@);
                    let j = choose|j: int| 0 <= j < hs.len() && #[trigger] g[i] == steps[0].name + "："@ + trim_spec(description_spec(hs[j]));
                    let j2 = choose|j2: int| 0 <= j2 < steps[0].criteria.len() && steps[0].criteria[j2] == #[trigger] hs[j] && crate::criterion::executor_spec(steps[0].criteria[j2]) == "human"@;
                    reveal_strlit("human");
                    reveal_strlit("agent");
                    reveal_strlit("rule");
                    assert("agent"@[0] != "human"@[0]);
                    assert("rule"@.len() != "human"@.len());
                    assert(steps[0].criteria[j2] is Human);
                    assert(p[i] == g[i]);
                    assert(steps[0].criteria[j2] == hs[j]);
                } else {
                    assert(p[i] == pr[i - g.len()]);
                    let ii = i - g.len();
                    assert(human_gate_note(records, rest, pr[ii]));
                    let (k, j) = choose|k: int, j: int|
                        #![trigger rest[k].criteria[j]]
                        0 <= k < rest.len() && 0 <= j < rest[k].criteria.len() && !done_spec(records, rest[k].name)
                            && rest[k].criteria[j] is Human && pr[ii] == rest[k].name + "："@ + trim_spec(description_spec(rest[k].criteria[j]));
                    assert(rest[k] == steps[k + 1]);
                    assert(steps[k + 1].criteria[j] == rest[k].criteria[j]);
                }
            }
        }
    }
}

proof fn lemma_gate_note_has(step: Seq<char>, gates: Seq<CriterionV>, j: int)
    requires
        0 <= j < gates.len(),
        trim_spec(description_spec(gates[j])).len() > 0,
    ensures
        gate_notes(step, gates).contains(step + "："@ + trim_spec(description_spec(gates[j]))),
    decreases gates.len(),
{
    let g = gate_notes(step, gates);
    let t0 = trim_spec(description_spec(gates[0]));
    if j == 0 {
        assert(g[0] == step + "："@ + t0);
    } else {
        let rest = gates.drop_first();
        assert(rest[j - 1] == gates[j]);
        lemma_gate_note_has(step, rest, j - 1);
        let gr = gate_notes(step, rest);
        let i = choose|i: int| 0 <= i < gr.len() && gr[i] == step + "："@ + trim_spec(description_spec(gates[j]));
        if t0.len() > 0 {
            assert(g[i + 1] == gr[i]);
        } else {
            assert(g[i] == gr[i]);
        }
    }
}

proof fn lemma_human_picked(cs: Seq<CriterionV>, j: int)
    requires
        0 <= j < cs.len(),
        cs[j] is Human,
    ensures
        exists|i: int| 0 <= i < of_kind_spec(cs, "human"@).len() && #[trigger] of_kind_spec(cs, "human"@)[i] == cs[j],
    decreases cs.len(),
{
    let o = of_kind_spec(cs, "human"@);
    if j == 0 {
        assert(o[0] == cs[0]);
    } else {
        let rest = cs.drop_first();
        assert(rest[j - 1] == cs[j]);
        lemma_human_picked(rest, j - 1);
        let orr = of_kind_spec(rest, "human"@);
        let i = choose|i: int| 0 <= i < orr.len() && #[trigger] orr[i] == rest[j - 1];
        if crate::criterion::executor_spec(cs[0]) == "human"@ {
            assert(o[i + 1] == orr[i]);
        } else {
            assert(o[i] == orr[i]);
        }
    }
}

/// Every person's gate of a step not done waits: for each step the ledger has
/// not done and each human criterion of it with a description, its note is
/// among the pending gates.
pub proof fn lemma_pending_has_every_human_gate(records: Seq<RecordV>, steps: Seq<StepV>, k: int, j: int)
    requires
        0 <= k < steps.len(),
        0 <= j < steps[k].criteria.len(),
        !done_spec(records, steps[k].name),
        steps[k].criteria[j] is Human,
        trim_spec(description_spec(steps[k].criteria[j])).len() > 0,
    ensures
        pending_spec(records, steps).contains(steps[k].name + "："@ + trim_spec(description_spec(steps[k].criteria[j]))),
    decreases steps.len(),
{
    let note = steps[k].name + "："@ + trim_spec(description_spec(steps[k].criteria[j]));
    let p = pending_spec(records, steps);
    let rest = steps.drop_first();
    let pr = pending_spec(records, rest);
    if k == 0 {
        let cs = steps[0].criteria;
        lemma_human_picked(cs, j);
        let hs = of_kind_spec(cs, "human"@);
        let i = choose|i: int| 0 <= i < hs.len() && #[trigger] hs[i] == cs[j];
        lemma_gate_note_has(steps[0].name, hs, i);
        let g = gate_notes(steps[0].name, hs);
        let q = choose|q: int| 0 <= q < g.len() && g[q] == note;
        assert(p =~= g + pr);
        assert(p[q] == g[q]);
    } else {
        assert(rest[k - 1] == steps[k]);
        lemma_pending_has_every_human_gate(records, rest, k - 1, j);
        let q = choose|q: int| 0 <= q < pr.len() && pr[q] == note;
        if done_spec(records, steps[0].name) {
            assert(p[q] == pr[q]);
        } else {
            let g = gate_notes(steps[0].name, of_kind_spec(steps[0].criteria, "human"@));
            assert(p =~= g + pr);
            assert(p[g.len() + q] == pr[q]);
        }
    }
}

/// The state line of an order: its progress and next step, or that it is through.
pub open spec fn state_line_spec(o: OrderV, w: WorkflowV) -> Seq<char> {
    if w.steps.len() == 0 {
        "这条工作流没有步骤："@ + w.name
    } else {
        match first_undone(o.records, w.steps) {
            Some(s) => "进度："@ + decimal_spec(done_steps_spec(o, w).len()) + "/"@ + decimal_spec(w.steps.len())
                + "　下一步："@ + s.name,
            None => "走完了："@ + decimal_spec(w.steps.len()) + " 个步骤都过了"@,
        }
    }
}

/// Whether the ledger holds a succeeded record for `step`.
fn done(order: &WorkOrder, step: &str) -> (r: bool)
    ensures
        r == done_spec(order@.records, step@),
{
    let ghost rs = order@.records;
    let mut j: usize = 0;
    while j < order.records.len()
        invariant
            j <= order.records@.len(),
            rs == order@.records,
            forall|i: int| 0 <= i < j ==> !((#[trigger] rs[i]).step == step@ && rs[i].is_succeeded),
        decreases order.records@.len() - j,
    {
        if order.records[j].is_succeeded && crate::yaml::same(order.records[j].step.as_str(), step) {
            assert(rs[j as int].step == step@ && rs[j as int].is_succeeded);
            return true;
        }
        j = j + 1;
    }
    false
}

/// The steps of the workflow this order has done, in the workflow's order.
pub fn done_steps(order: &WorkOrder, workflow: &Workflow) -> (r: Vec<String>)
    ensures
        views(r@) == done_steps_spec(order@, workflow@),
{
    let names = workflow.step_names();
    let ghost all = views(names@);
    let mut out: Vec<String> = Vec::new();
    let mut i: usize = 0;
    assert(all.subrange(0, all.len() as int) =~= all);
    while i < names.len()
        invariant
            i <= names@.len(),
            all == views(names@),
            all.len() == names@.len(),
            done_among(order@.records, all) == views(out@) + done_among(order@.records, all.subrange(i as int, all.len() as int)),
        decreases names@.len() - i,
    {
        let ghost here = all.subrange(i as int, all.len() as int);
        let ghost before = out@;
        proof {
            assert(here.drop_first() =~= all.subrange(i + 1, all.len() as int));
            assert(here[0] == names@[i as int]@);
        }
        if done(order, names[i].as_str()) {
            out.push(names[i].clone());
            proof {
                assert(views(out@) =~= views(before).push(names@[i as int]@));
                assert(views(before) + (seq![names@[i as int]@] + done_among(order@.records, all.subrange(i + 1, all.len() as int))) =~= views(out@) + done_among(order@.records, all.subrange(i + 1, all.len() as int)));
            }
        }
        i = i + 1;
    }
    assert(all.subrange(i as int, all.len() as int) =~= Seq::<Seq<char>>::empty());
    assert(views(out@) + Seq::<Seq<char>>::empty() =~= views(out@));
    out
}

/// The first step not done; `None` once every step is done.
pub fn next_step(order: &WorkOrder, workflow: &Workflow) -> (r: Option<crate::workflow::Step>)
    ensures
        match first_undone(order@.records, workflow@.steps) {
            Some(s) => r is Some && r->0@ == s,
            None => r is None,
        },
{
    let ghost all = workflow@.steps;
    let mut i: usize = 0;
    assert(all.subrange(0, all.len() as int) =~= all);
    while i < workflow.steps.len()
        invariant
            i <= workflow.steps@.len(),
            all == workflow@.steps,
            first_undone(order@.records, all) == first_undone(order@.records, all.subrange(i as int, all.len() as int)),
        decreases workflow.steps@.len() - i,
    {
        proof {
            assert(all.subrange(i as int, all.len() as int).drop_first() =~= all.subrange(i + 1, all.len() as int));
        }
        if !done(order, workflow.steps[i].name.as_str()) {
            return Some(workflow.steps[i].copy());
        }
        i = i + 1;
    }
    None
}

/// Whether the order is through: the workflow has steps and every one is done.
pub fn finished(order: &WorkOrder, workflow: &Workflow) -> (r: bool)
    ensures
        r == finished_spec(order@, workflow@),
{
    if workflow.steps.len() == 0 {
        return false;
    }
    let mut i: usize = 0;
    while i < workflow.steps.len()
        invariant
            i <= workflow.steps@.len(),
            forall|k: int| 0 <= k < i ==> done_spec(order@.records, #[trigger] workflow@.steps[k].name),
        decreases workflow.steps@.len() - i,
    {
        if !done(order, workflow.steps[i].name.as_str()) {
            assert(!done_spec(order@.records, workflow@.steps[i as int].name));
            return false;
        }
        i = i + 1;
    }
    true
}

/// The notes of a step's gates.
fn notes_of(step: &str, gates: &Vec<crate::criterion::Criterion>) -> (r: Vec<String>)
    ensures
        views(r@) == gate_notes(step@, crate::workflow::criteria_view(gates@)),
{
    let ghost all = crate::workflow::criteria_view(gates@);
    let mut out: Vec<String> = Vec::new();
    let mut i: usize = 0;
    assert(all.subrange(0, all.len() as int) =~= all);
    while i < gates.len()
        invariant
            i <= gates@.len(),
            all == crate::workflow::criteria_view(gates@),
            gate_notes(step@, all) == views(out@) + gate_notes(step@, all.subrange(i as int, all.len() as int)),
        decreases gates@.len() - i,
    {
        let ghost here = all.subrange(i as int, all.len() as int);
        let ghost before = out@;
        proof {
            assert(here.drop_first() =~= all.subrange(i + 1, all.len() as int));
        }
        let text = crate::text::trim(gates[i].description().as_str());
        if text.unicode_len() > 0 {
            let mut note = String::from_str(step);
            note.append("：");
            note.append(text.as_str());
            out.push(note);
            proof {
                assert(views(out@) =~= views(before).push(note@));
                assert(views(before) + (seq![note@] + gate_notes(step@, all.subrange(i + 1, all.len() as int))) =~= views(out@) + gate_notes(step@, all.subrange(i + 1, all.len() as int)));
            }
        }
        i = i + 1;
    }
    assert(all.subrange(i as int, all.len() as int) =~= Seq::<CriterionV>::empty());
    assert(views(out@) + Seq::<Seq<char>>::empty() =~= views(out@));
    out
}

/// The gates waiting for a decision: for each step not yet done, `step：text`
/// for each of its gates with a description.
pub fn pending_gates(order: &WorkOrder, workflow: &Workflow) -> (r: Vec<String>)
    ensures
        views(r@) == pending_spec(order@.records, workflow@.steps),
        forall|i: int| 0 <= i < r@.len() ==> human_gate_note(order@.records, workflow@.steps, #[trigger] r@[i]@),
{
    proof {
        lemma_pending_only_human(order@.records, workflow@.steps);
    }
    let ghost all = workflow@.steps;
    let mut out: Vec<String> = Vec::new();
    let mut i: usize = 0;
    assert(all.subrange(0, all.len() as int) =~= all);
    while i < workflow.steps.len()
        invariant
            i <= workflow.steps@.len(),
            all == workflow@.steps,
            pending_spec(order@.records, all) == views(out@) + pending_spec(order@.records, all.subrange(i as int, all.len() as int)),
        decreases workflow.steps@.len() - i,
    {
        let ghost here = all.subrange(i as int, all.len() as int);
        let ghost before = out@;
        proof {
            assert(here.drop_first() =~= all.subrange(i + 1, all.len() as int));
        }
        let step = &workflow.steps[i];
        if !done(order, step.name.as_str()) {
            let notes = notes_of(step.name.as_str(), &step.gates());
            let mut k: usize = 0;
            while k < notes.len()
                invariant
                    k <= notes@.len(),
                    views(out@) == views(before) + views(notes@).take(k as int),
                decreases notes@.len() - k,
            {
                let ghost pre = out@;
                out.push(notes[k].clone());
                proof {
                    assert(views(out@) =~= views(pre).push(notes@[k as int]@));
                    assert(views(notes@).take(k + 1) =~= views(notes@).take(k as int).push(notes@[k as int]@));
                    assert(views(out@) =~= views(before) + views(notes@).take(k + 1));
                }
                k = k + 1;
            }
            proof {
                assert(views(notes@).take(k as int) =~= views(notes@));
                assert(views(before) + (views(notes@) + pending_spec(order@.records, all.subrange(i + 1, all.len() as int))) =~= views(out@) + pending_spec(order@.records, all.subrange(i + 1, all.len() as int)));
            }
        }
        i = i + 1;
    }
    assert(all.subrange(i as int, all.len() as int) =~= Seq::<StepV>::empty());
    assert(views(out@) + Seq::<Seq<char>>::empty() =~= views(out@));
    assert forall|i: int| 0 <= i < out@.len() implies human_gate_note(order@.records, workflow@.steps, #[trigger] out@[i]@) by {
        assert(views(out@)[i] == out@[i]@);
    }
    out
}

/// The state line of an order: progress and next step, or that it is through.
pub fn state_line(order: &WorkOrder, workflow: &Workflow) -> (r: String)
    ensures
        r@ == state_line_spec(order@, workflow@),
{
    if workflow.steps.len() == 0 {
        return crate::text::cat("这条工作流没有步骤：", workflow.name.as_str());
    }
    match next_step(order, workflow) {
        Some(step) => {
            let done = done_steps(order, workflow);
            let mut line = String::from_str("进度：");
            line.append(crate::text::decimal(done.len()).as_str());
            line.append("/");
            line.append(crate::text::decimal(workflow.steps.len()).as_str());
            line.append("　下一步：");
            line.append(step.name.as_str());
            line
        },
        None => {
            let mut line = String::from_str("走完了：");
            line.append(crate::text::decimal(workflow.steps.len()).as_str());
            line.append(" 个步骤都过了");
            line
        },
    }
}

}
