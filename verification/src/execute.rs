//! Walking one step, as decisions between outside work: first whether the
//! step exists and who does it; then, when an agent did it, how its run is
//! recorded; then, once the rules ran and the judging agent answered, whether the
//! step passed, what the journal records, which gates wait for a person, and
//! what is reported. The agent, the checks and the files are driven by the caller.
use vstd::prelude::*;
use crate::audit::{Item, ItemV, results_view};
use crate::criterion::{Criterion, CriterionV, text_spec_of};
use crate::prompts::one_line_spec;
use crate::verdicts::{
    detail_spec, gate_lines_spec, gate_rows_spec, judged_lines_spec, rows_view, rule_lines_spec,
    rule_rows_spec, rules_passed,
};
use crate::text::views;
use crate::workflow::{Step, StepV, criteria_view, of_kind_spec};

verus! {

/// A step is done by a person.
pub open spec fn human_spec(s: StepV) -> bool {
    s.executor == "human"@
}

/// The first move of walking a step.
pub enum Move {
    /// The workflow has no such step: the walk ends, failed, with this line.
    Missing(String),
    /// An agent does the step first; this line announces it.
    HandOver(String),
    /// A person does the step: the walk ends, passed, with this line.
    PersonsTurn(String),
    /// The checks run at once.
    Check,
}

/// The mathematical value of a first move.
pub enum MoveV {
    Missing(Seq<char>),
    HandOver(Seq<char>),
    PersonsTurn(Seq<char>),
    Check,
}

impl View for Move {
    type V = MoveV;

    open spec fn view(&self) -> MoveV {
        match self {
            Move::Missing(l) => MoveV::Missing(l@),
            Move::HandOver(l) => MoveV::HandOver(l@),
            Move::PersonsTurn(l) => MoveV::PersonsTurn(l@),
            Move::Check => MoveV::Check,
        }
    }
}

/// The first move: a missing step ends the walk; in an automatic walk an
/// agent takes a step not done by a person, and a person's step is left to
/// the person; otherwise the checks run at once.
pub open spec fn first_move_spec(step: Seq<char>, found: Option<StepV>, auto: bool) -> MoveV {
    match found {
        None => MoveV::Missing(missing_line(step)),
        Some(s) => if auto && !human_spec(s) {
            MoveV::HandOver(handover_line(s))
        } else if human_spec(s) && auto {
            MoveV::PersonsTurn(persons_line(s))
        } else {
            MoveV::Check
        },
    }
}

/// The line of a step the workflow lacks.
pub open spec fn missing_line(step: Seq<char>) -> Seq<char> {
    "工作流里没有这一步："@ + step
}

/// The line that hands a step to the agent.
pub open spec fn handover_line(s: StepV) -> Seq<char> {
    s.name + "：交给 AI（"@ + s.executor + "）跑"@
}

/// The line that leaves a person's step to the person.
pub open spec fn persons_line(s: StepV) -> Seq<char> {
    s.name + "：这一步的执行者是人（"@ + s.executor + "）——轮到你，做完用 qtcloud-work task <名字> --done "@ + s.name
}

/// The line that ends a step whose agent did not run.
pub open spec fn no_run_line() -> Seq<char> {
    "  （AI 没跑成，这一步不算过；修好再来）"@
}

/// The first move of walking a step.
pub fn first_move(step: &str, found: Option<&Step>, auto: bool) -> (r: Move)
    ensures
        r@ == first_move_spec(step@, match found {
            Some(s) => Some(s@),
            None => None::<StepV>,
        }, auto),
{
    match found {
        None => Move::Missing(crate::text::cat("工作流里没有这一步：", step)),
        Some(s) => {
            let human = crate::yaml::same(s.executor.as_str(), crate::schema::HUMAN);
            proof {
                reveal_strlit("human");
            }
            if auto && !human {
                let mut line = crate::text::cat(s.name.as_str(), "：交给 AI（");
                line.append(s.executor.as_str());
                line.append("）跑");
                Move::HandOver(line)
            } else if human && auto {
                let mut line = crate::text::cat(s.name.as_str(), "：这一步的执行者是人（");
                line.append(s.executor.as_str());
                line.append("）——轮到你，做完用 qtcloud-work task <名字> --done ");
                line.append(s.name.as_str());
                Move::PersonsTurn(line)
            } else {
                Move::Check
            }
        },
    }
}

/// What an agent said, in one line: its last line, or that it said nothing.
pub open spec fn said_spec(out: Seq<char>) -> Seq<char> {
    if out.len() == 0 {
        "（没输出）"@
    } else {
        one_line_spec(out, 80)
    }
}

/// The report line of an agent's run.
pub open spec fn run_line_spec(ran: bool, out: Seq<char>) -> Seq<char> {
    "  AI "@ + (if ran { "跑完了"@ } else { "跑不动"@ }) + "："@ + said_spec(out)
}

/// How an agent's run is reported and recorded: the report line, and the
/// journal line (the step passes in the journal exactly when the agent ran).
pub fn agent_ran(ran: bool, out: &str) -> (r: (String, String))
    ensures
        r.0@ == run_line_spec(ran, out@),
        r.1@ == "AI 执行："@ + said_spec(out@),
{
    let one = if out.unicode_len() == 0 {
        String::from_str("（没输出）")
    } else {
        crate::prompts::one_line(out, 80)
    };
    let mut line = String::from_str("  AI ");
    line.append(if ran { "跑完了" } else { "跑不动" });
    line.append("：");
    line.append(one.as_str());
    let detail = crate::text::cat("AI 执行：", one.as_str());
    (line, detail)
}

/// The rows of agent criteria left undecided because no judging agent ran.
pub open spec fn undecided_spec(agents: Seq<CriterionV>) -> Seq<(Seq<char>, Seq<char>, Seq<char>)> {
    agents.map_values(|c: CriterionV| (text_spec_of(c), "待判"@, "没跑智能体（人为地记一步）"@))
}

/// The rows of agent criteria left undecided because no judging agent ran.
pub fn undecided(agents: &Vec<Criterion>) -> (r: Vec<(String, String, String)>)
    ensures
        rows_view(r@) == undecided_spec(criteria_view(agents@)),
{
    let ghost cv = criteria_view(agents@);
    let mut rows: Vec<(String, String, String)> = Vec::new();
    let mut i: usize = 0;
    while i < agents.len()
        invariant
            i <= agents@.len(),
            cv == criteria_view(agents@),
            rows_view(rows@) =~= undecided_spec(cv.take(i as int)),
        decreases agents@.len() - i,
    {
        let ghost before = rows@;
        let row = (agents[i].text(), String::from_str("待判"), String::from_str("没跑智能体（人为地记一步）"));
        let ghost rv = (row.0@, row.1@, row.2@);
        rows.push(row);
        proof {
            assert(rows_view(rows@) =~= rows_view(before).push(rv));
            assert(cv.take(i + 1) =~= cv.take(i as int).push(cv[i as int]));
        }
        i = i + 1;
    }
    assert(cv.take(i as int) =~= cv);
    rows
}

/// The texts of criteria.
pub open spec fn texts_spec(cs: Seq<CriterionV>) -> Seq<Seq<char>> {
    cs.map_values(|c: CriterionV| text_spec_of(c))
}

/// The texts of criteria.
pub fn texts_of(cs: &Vec<Criterion>) -> (r: Vec<String>)
    ensures
        views(r@) == texts_spec(criteria_view(cs@)),
{
    let ghost cv = criteria_view(cs@);
    let mut out: Vec<String> = Vec::new();
    let mut i: usize = 0;
    while i < cs.len()
        invariant
            i <= cs@.len(),
            cv == criteria_view(cs@),
            views(out@) =~= texts_spec(cv.take(i as int)),
        decreases cs@.len() - i,
    {
        let ghost before = out@;
        let t = cs[i].text();
        out.push(t);
        proof {
            assert(views(out@) =~= views(before).push(t@));
            assert(cv.take(i + 1) =~= cv.take(i as int).push(cv[i as int]));
        }
        i = i + 1;
    }
    assert(cv.take(i as int) =~= cv);
    out
}

/// Every judged criterion passed or was left undecided.
pub open spec fn judged_passed(judged: Seq<(Seq<char>, Seq<char>, Seq<char>)>) -> bool {
    forall|k: int| 0 <= k < judged.len() ==> (#[trigger] judged[k]).1 == "✓"@ || judged[k].1 == "待判"@
}

/// The notes of judged criteria that did not pass, in order.
pub open spec fn unpassed_notes(judged: Seq<(Seq<char>, Seq<char>, Seq<char>)>) -> Seq<Seq<char>>
    decreases judged.len(),
{
    if judged.len() == 0 {
        Seq::empty()
    } else {
        let rest = unpassed_notes(judged.drop_first());
        if judged[0].1 != "✓"@ {
            seq![judged[0].0] + rest
        } else {
            rest
        }
    }
}

/// The end of walking a step.
pub struct Conclusion {
    /// Whether the step passed.
    pub ok: bool,
    /// The journal line of the step.
    pub detail: String,
    /// The journal event to record, if any: step, line, passed.
    pub record: Option<(String, String, bool)>,
    /// The gates to add to the task file.
    pub gate_notes: Vec<String>,
    /// The report lines.
    pub lines: Vec<String>,
    /// The report rows.
    pub rows: Vec<(String, String, String)>,
}

/// The journal event of a walk: the step itself, unless an agent walked it; then
/// only the rules' half, when the step has rules.
pub open spec fn record_spec(step: Seq<char>, s: StepV, auto: bool, detail: Seq<char>, ok: bool, rules_ok: bool) -> Option<(Seq<char>, Seq<char>, bool)> {
    if !(auto && !human_spec(s)) {
        Some((step, detail, ok))
    } else if of_kind_spec(s.criteria, "rule"@).len() > 0 {
        Some((s.name + "·判"@, detail, rules_ok))
    } else {
        None
    }
}

/// Concludes walking a step (once the checks ran): the step passes when every
/// rule passed and no judged criterion failed; the gates of the step and the
/// judged criteria that did not pass wait for a person.
pub fn execute(
    step: &str,
    found: &Step,
    auto: bool,
    note: &str,
    results: &Vec<(Item, bool, String)>,
    judged: &Vec<(String, String, String)>,
) -> (r: Conclusion)
    ensures
        ({
            let res = results_view(results@);
            let jv = rows_view(judged@);
            let gates = texts_spec(of_kind_spec(found@.criteria, "human"@));
            let ok = rules_passed(res) && judged_passed(jv);
            let d = detail_spec(note@, res, "做完"@);
            &&& r.ok == ok
            &&& r.detail@ == d
            &&& match record_spec(step@, found@, auto, d, ok, rules_passed(res)) {
                Some(e) => match r.record {
                    Some(x) => (x.0@, x.1@, x.2) == e,
                    None => false,
                },
                None => r.record is None,
            }
            &&& views(r.gate_notes@) == gates + unpassed_notes(jv)
            &&& views(r.lines@) == seq![(if ok { "✓"@ } else { "✗"@ }) + " "@ + step@ + "："@ + d] + rule_lines_spec(res)
                + judged_lines_spec(jv) + gate_lines_spec(gates)
            &&& rows_view(r.rows@) == rule_rows_spec(res) + jv + gate_rows_spec(gates)
        }),
{
    let gates = texts_of(&found.gates());
    let rules_ok = crate::verdicts::rules_pass(results);
    let ghost jv = rows_view(judged@);
    let mut judged_ok = true;
    let mut notes = copy_strings(&gates);
    let ghost g0 = views(notes@);
    let mut i: usize = 0;
    assert(jv.subrange(0, jv.len() as int) =~= jv);
    assert(views(notes@) =~= g0 + Seq::<Seq<char>>::empty());
    while i < judged.len()
        invariant
            i <= judged@.len(),
            jv == rows_view(judged@),
            judged_ok == forall|k: int| 0 <= k < i ==> (#[trigger] jv[k]).1 == "✓"@ || jv[k].1 == "待判"@,
            g0 + unpassed_notes(jv) == views(notes@) + unpassed_notes(jv.subrange(i as int, jv.len() as int)),
        decreases judged@.len() - i,
    {
        let ghost here = jv.subrange(i as int, jv.len() as int);
        proof {
            assert(here.drop_first() =~= jv.subrange(i + 1, jv.len() as int));
            assert(here[0] == jv[i as int]);
        }
        let passed = crate::yaml::same(judged[i].1.as_str(), "✓");
        if !passed && !crate::yaml::same(judged[i].1.as_str(), "待判") {
            judged_ok = false;
        }
        if !passed {
            let ghost before = notes@;
            notes.push(judged[i].0.clone());
            proof {
                assert(views(notes@) =~= views(before).push(judged@[i as int].0@));
                assert(views(before) + (seq![jv[i as int].0] + unpassed_notes(here.drop_first())) =~= views(notes@) + unpassed_notes(jv.subrange(i + 1, jv.len() as int)));
            }
        }
        i = i + 1;
    }
    assert(jv.subrange(i as int, jv.len() as int) =~= Seq::<(Seq<char>, Seq<char>, Seq<char>)>::empty());
    assert(views(notes@) + Seq::<Seq<char>>::empty() =~= views(notes@));
    let ok = rules_ok && judged_ok;
    let d = crate::verdicts::detail(note, results, "做完");
    let human = crate::yaml::same(found.executor.as_str(), crate::schema::HUMAN);
    proof {
        reveal_strlit("human");
    }
    let record = if !(auto && !human) {
        Some((String::from_str(step), d.clone(), ok))
    } else if found.rules().len() > 0 {
        Some((crate::text::cat(found.name.as_str(), "·判"), d.clone(), rules_ok))
    } else {
        None
    };
    let mut head = String::from_str(if ok { "✓" } else { "✗" });
    head.append(" ");
    head.append(step);
    head.append("：");
    head.append(d.as_str());
    let mut lines: Vec<String> = Vec::new();
    lines.push(head);
    let mut rows: Vec<(String, String, String)> = Vec::new();
    assert(rows_view(rows@) =~= Seq::<(Seq<char>, Seq<char>, Seq<char>)>::empty());
    crate::verdicts::report(results, judged, &gates, &mut lines, &mut rows);
    proof {
        let res = results_view(results@);
        assert(rows_view(rows@) =~= rule_rows_spec(res) + jv + gate_rows_spec(views(gates@)));
    }
    Conclusion { ok, detail: d, record, gate_notes: notes, lines, rows }
}

/// Copies a list of strings.
fn copy_strings(v: &Vec<String>) -> (r: Vec<String>)
    ensures
        views(r@) == views(v@),
{
    let mut out: Vec<String> = Vec::new();
    let mut i: usize = 0;
    while i < v.len()
        invariant
            i <= v@.len(),
            views(out@) =~= views(v@).take(i as int),
        decreases v@.len() - i,
    {
        out.push(v[i].clone());
        proof {
            assert(views(v@).take(i + 1) =~= views(v@).take(i as int).push(v@[i as int]@));
        }
        i = i + 1;
    }
    assert(views(v@).take(i as int) =~= views(v@));
    out
}

/// The end of walking a step of a work order.
pub struct Walk {
    /// Whether the step passed.
    pub ok: bool,
    /// The line the record carries.
    pub detail: String,
    /// The report lines.
    pub lines: Vec<String>,
    /// The report rows.
    pub rows: Vec<(String, String, String)>,
    /// Whether a record is appended now; a step with gates waits for a
    /// person to release it.
    pub append: bool,
}

/// Every judged criterion passed.
pub open spec fn approved_all(judged: Seq<(Seq<char>, Seq<char>, Seq<char>)>) -> bool {
    forall|k: int| 0 <= k < judged.len() ==> (#[trigger] judged[k]).1 == "✓"@
}

/// A walk is approved exactly when every judged row, wherever it stands, says
/// `✓`: one row saying anything else withholds approval.
pub proof fn lemma_approved_every_row(judged: Seq<(Seq<char>, Seq<char>, Seq<char>)>)
    ensures
        approved_all(judged) <==> forall|k: int| 0 <= k < judged.len() ==> (#[trigger] judged[k].1) == "✓"@,
        forall|k: int| 0 <= k < judged.len() && judged[k].1 != "✓"@ ==> !approved_all(judged),
{
}

/// Concludes a walk of an order's step, once the checks ran: the step passes
/// when every rule and every judged criterion passed. A step with gates is
/// never recorded here, passed or not: it waits for a person's record.
pub fn walk_conclusion(
    order_name: &str,
    found: &Step,
    note: &str,
    results: &Vec<(Item, bool, String)>,
    judged: &Vec<(String, String, String)>,
) -> (r: Walk)
    ensures
        ({
            let res = results_view(results@);
            let jv = rows_view(judged@);
            let gates = texts_spec(of_kind_spec(found@.criteria, "human"@));
            let ok = rules_passed(res) && approved_all(jv);
            let d = detail_spec(note@, res, "做完"@);
            let held = gates.len() > 0;
            let body = seq![(if ok { "✓"@ } else { "✗"@ }) + " "@ + found@.name + "："@ + d] + rule_lines_spec(res)
                + judged_lines_spec(jv) + gate_lines_spec(gates);
            &&& r.ok == ok
            &&& r.detail@ == d
            &&& r.append == !held
            &&& views(r.lines@) == if held {
                body.push("  这一步有闸门，等人放行：qtcloud-work order done "@ + order_name@ + " "@ + found@.name)
            } else {
                body
            }
            &&& rows_view(r.rows@) == rule_rows_spec(res) + jv + gate_rows_spec(gates)
        }),
        r.ok <==> ((forall|k: int| 0 <= k < results@.len() ==> (#[trigger] results@[k]).1)
            && forall|k: int| 0 <= k < judged@.len() ==> (#[trigger] judged@[k]).1@ == "✓"@),
{
    proof {
        lemma_approved_every_row(rows_view(judged@));
        assert forall|k: int| 0 <= k < judged@.len() implies (#[trigger] judged@[k]).1@ == rows_view(judged@)[k].1 by {}
        assert forall|k: int| 0 <= k < results@.len() implies (#[trigger] results@[k]).1 == results_view(results@)[k].1 by {}
    }
    let gates = texts_of(&found.gates());
    let rules_ok = crate::verdicts::rules_pass(results);
    let mut approved = true;
    let mut i: usize = 0;
    while i < judged.len()
        invariant
            i <= judged@.len(),
            approved == forall|k: int| 0 <= k < i ==> (#[trigger] rows_view(judged@)[k]).1 == "✓"@,
        decreases judged@.len() - i,
    {
        let passed = crate::yaml::same(judged[i].1.as_str(), "✓");
        assert(rows_view(judged@)[i as int].1 == judged@[i as int].1@);
        if !passed {
            approved = false;
        }
        i = i + 1;
    }
    let ok = rules_ok && approved;
    let d = crate::verdicts::detail(note, results, "做完");
    let mut head = String::from_str(if ok { "✓" } else { "✗" });
    head.append(" ");
    head.append(found.name.as_str());
    head.append("：");
    head.append(d.as_str());
    let mut lines: Vec<String> = Vec::new();
    lines.push(head);
    let mut rows: Vec<(String, String, String)> = Vec::new();
    assert(rows_view(rows@) =~= Seq::<(Seq<char>, Seq<char>, Seq<char>)>::empty());
    crate::verdicts::report(results, judged, &gates, &mut lines, &mut rows);
    proof {
        let res = results_view(results@);
        assert(rows_view(rows@) =~= rule_rows_spec(res) + rows_view(judged@) + gate_rows_spec(views(gates@)));
    }
    let held = gates.len() > 0;
    if held {
        let ghost before = lines@;
        let mut line = String::from_str("  这一步有闸门，等人放行：qtcloud-work order done ");
        line.append(order_name);
        line.append(" ");
        line.append(found.name.as_str());
        lines.push(line);
        assert(views(lines@) =~= views(before).push(line@));
    }
    Walk { ok, detail: d, lines, rows, append: !held }
}

/// What a person's record of a step says, once the checks ran: whether the rules passed, the line the record carries, and the
/// rows of the rules.
pub fn human_record(note: &str, results: &Vec<(Item, bool, String)>) -> (r: (bool, String, Vec<(String, String, String)>))
    ensures
        r.0 == rules_passed(results_view(results@)),
        r.1@ == detail_spec(note@, results_view(results@), "人记一笔"@),
        rows_view(r.2@) == rule_rows_spec(results_view(results@)),
{
    let ok = crate::verdicts::rules_pass(results);
    let d = crate::verdicts::detail(note, results, "人记一笔");
    let mut lines: Vec<String> = Vec::new();
    let mut rows: Vec<(String, String, String)> = Vec::new();
    let judged: Vec<(String, String, String)> = Vec::new();
    let gates: Vec<String> = Vec::new();
    assert(rows_view(rows@) =~= Seq::<(Seq<char>, Seq<char>, Seq<char>)>::empty());
    crate::verdicts::report(results, &judged, &gates, &mut lines, &mut rows);
    proof {
        let res = results_view(results@);
        assert(rows_view(judged@) =~= Seq::<(Seq<char>, Seq<char>, Seq<char>)>::empty());
        assert(views(gates@) =~= Seq::<Seq<char>>::empty());
        assert(rows_view(rows@) =~= rule_rows_spec(res));
    }
    (ok, d, rows)
}


/// The opening lines of a step an agent walks, once the agent ran: the
/// handover, how the run went, and, when it did not run, that the step does
/// not pass. The walk goes on to the checks exactly when the agent ran; a
/// step whose agent did not run is neither checked nor recorded.
pub fn agent_opening(found: &Step, ran: bool, out: &str) -> (r: (Vec<String>, bool))
    ensures
        r.1 == ran,
        views(r.0@) == seq![handover_line(found@), run_line_spec(ran, out@)] + if ran {
            Seq::<Seq<char>>::empty()
        } else {
            seq![no_run_line()]
        },
{
    let mut head = crate::text::cat(found.name.as_str(), "：交给 AI（");
    head.append(found.executor.as_str());
    head.append("）跑");
    let mut lines = vec![head, agent_ran(ran, out).0];
    if !ran {
        lines.push(String::from_str("  （AI 没跑成，这一步不算过；修好再来）"));
    }
    proof {
        reveal_strlit("  （AI 没跑成，这一步不算过；修好再来）");
    }
    assert(views(lines@) =~= seq![handover_line(found@), run_line_spec(ran, out@)] + if ran {
        Seq::<Seq<char>>::empty()
    } else {
        seq![no_run_line()]
    });
    (lines, ran)
}

/// The journal after a step concluded: its event, if the conclusion records one.
pub open spec fn with_record(p: crate::yaml::YamlV, at: Seq<char>, e: Option<(Seq<char>, Seq<char>, bool)>) -> crate::yaml::YamlV {
    match e {
        Some(x) => crate::task::with_event(p, crate::task::event_yaml(at, x.0, x.1, x.2)),
        None => p,
    }
}

/// The gates added to a task file.
pub open spec fn gates_added(p: crate::yaml::YamlV, more: Seq<Seq<char>>) -> crate::yaml::YamlV {
    crate::task::with_gates(p, crate::task::merge_notes(crate::task::gates_spec(p), more))
}

/// A task with only its file changed, to `p`.
pub open spec fn file_now(before: crate::task::TaskV, after: crate::task::TaskV, p: crate::yaml::YamlV) -> bool {
    &&& after.payload == p
    &&& after.root == before.root
    &&& after.data == before.data
    &&& after.name == before.name
    &&& after.workflows == before.workflows
    &&& after.present == before.present
}

/// The agent criteria of a step with the task's places put in.
pub open spec fn expanded_agents(s: StepV, table: Seq<(Seq<char>, Seq<char>)>) -> Seq<CriterionV> {
    of_kind_spec(s.criteria, "agent"@).map_values(|c: CriterionV| crate::criterion::expanded_spec(c, table))
}

/// The agent criteria are judged by an agent: an automatic walk of a step
/// that has some.
pub open spec fn judged_by_agent(s: StepV, auto: bool) -> bool {
    auto && of_kind_spec(s.criteria, "agent"@).len() > 0
}

/// The rows of the agent criteria: read from the judging agent's answer when
/// one judged them, else each left undecided.
pub open spec fn task_judged(s: StepV, auto: bool, table: Seq<(Seq<char>, Seq<char>)>, judge: (bool, Seq<char>)) -> Seq<(Seq<char>, Seq<char>, Seq<char>)> {
    if judged_by_agent(s, auto) {
        crate::verdicts::judged_rows_spec(texts_spec(expanded_agents(s, table)), judge.0, judge.1)
    } else {
        undecided_spec(of_kind_spec(s.criteria, "agent"@))
    }
}

/// The journal after the judging agent answered: its `<step>·审` event.
pub open spec fn with_judgment(p: crate::yaml::YamlV, at: Seq<char>, s: StepV, auto: bool, jv: Seq<(Seq<char>, Seq<char>, Seq<char>)>) -> crate::yaml::YamlV {
    if judged_by_agent(s, auto) {
        crate::task::with_event(
            p,
            crate::task::event_yaml(at, s.name + "·审"@, crate::verdicts::judged_detail_spec(jv), crate::verdicts::all_passed(jv)),
        )
    } else {
        p
    }
}

/// Walks one step of a task. `run` is what the agent did when the step is
/// handed to it (whether it ran, what it said); `judge` is what the judging
/// agent did when the agent criteria are judged by one; `results` are the
/// rules' verdicts, taken once the walk reaches the checks; `at` is the moment
/// events are recorded at.
///
/// A step the workflow lacks fails with one line and leaves the task alone.
/// In an automatic walk a person's step is left to the person, also leaving
/// the task alone. A step handed to the agent records the agent's run; when
/// the agent did not run, the step fails there, with no rows and no gates
/// added. Otherwise the agent criteria are judged, by the judging agent
/// (recording its `<step>·审` event) in an automatic walk, else each left
/// undecided; then the step concludes as `execute` concludes it: its event,
/// if any, is recorded and its gates added.
pub fn task_step(
    task: &mut crate::task::Task,
    workflow: &crate::workflow::Workflow,
    step: &str,
    note: &str,
    auto: bool,
    at: &str,
    run: &(bool, String),
    judge: &(bool, String),
    results: &Vec<(Item, bool, String)>,
) -> (r: (bool, Vec<String>, Vec<(String, String, String)>))
    requires
        old(task)@.payload is Mapping,
    ensures
        match crate::workflow::find_step(workflow@.steps, step@) {
            None => {
                &&& !r.0
                &&& views(r.1@) == seq![missing_line(step@)]
                &&& r.2@.len() == 0
                &&& final(task)@ == old(task)@
            },
            Some(s) => if auto && human_spec(s) {
                &&& r.0
                &&& views(r.1@) == seq![persons_line(s)]
                &&& r.2@.len() == 0
                &&& final(task)@ == old(task)@
            } else {
                let handed = auto && !human_spec(s);
                let opening = if handed {
                    seq![handover_line(s), run_line_spec(run.0, run.1@)]
                } else {
                    Seq::<Seq<char>>::empty()
                };
                let p0 = if handed {
                    crate::task::with_event(
                        old(task)@.payload,
                        crate::task::event_yaml(at@, s.name, "AI 执行："@ + said_spec(run.1@), run.0),
                    )
                } else {
                    old(task)@.payload
                };
                if handed && !run.0 {
                    &&& !r.0
                    &&& views(r.1@) == opening.push(no_run_line())
                    &&& r.2@.len() == 0
                    &&& file_now(old(task)@, final(task)@, gates_added(p0, Seq::empty()))
                } else {
                    let res = results_view(results@);
                    let jv = task_judged(s, auto, crate::task::task_table(old(task)@), (judge.0, judge.1@));
                    let gates = texts_spec(of_kind_spec(s.criteria, "human"@));
                    let ok = rules_passed(res) && judged_passed(jv);
                    let d = detail_spec(note@, res, "做完"@);
                    &&& r.0 == ok
                    &&& views(r.1@) == opening + seq![(if ok { "✓"@ } else { "✗"@ }) + " "@ + step@ + "："@ + d]
                        + rule_lines_spec(res) + judged_lines_spec(jv) + gate_lines_spec(gates)
                    &&& rows_view(r.2@) == rule_rows_spec(res) + jv + gate_rows_spec(gates)
                    &&& file_now(
                        old(task)@,
                        final(task)@,
                        gates_added(
                            with_record(
                                with_judgment(p0, at@, s, auto, jv),
                                at@,
                                record_spec(step@, s, auto, d, ok, rules_passed(res)),
                            ),
                            gates + unpassed_notes(jv),
                        ),
                    )
                }
            },
        },
{
    let places = crate::task::table(task);
    let found = match workflow.step(step) {
        None => {
            let lines = vec![crate::text::cat("工作流里没有这一步：", step)];
            assert(views(lines@) =~= seq![missing_line(step@)]);
            return (false, lines, Vec::new());
        },
        Some(s) => s,
    };
    proof {
        reveal_strlit("human");
    }
    let human = crate::yaml::same(found.executor.as_str(), crate::schema::HUMAN);
    let mut lines: Vec<String> = Vec::new();
    if auto && human {
        let mut line = crate::text::cat(found.name.as_str(), "：这一步的执行者是人（");
        line.append(found.executor.as_str());
        line.append("）——轮到你，做完用 qtcloud-work task <名字> --done ");
        line.append(found.name.as_str());
        lines.push(line);
        assert(views(lines@) =~= seq![persons_line(found@)]);
        return (true, lines, Vec::new());
    }
    if auto && !human {
        let (opening, went_on) = agent_opening(&found, run.0, run.1.as_str());
        let (_, detail) = agent_ran(run.0, run.1.as_str());
        task.record(found.name.as_str(), detail.as_str(), run.0, at);
        if !went_on {
            let none: Vec<String> = Vec::new();
            proof {
                assert(views(none@) =~= Seq::<Seq<char>>::empty());
            }
            crate::task::write_gates(task, &none);
            return (false, opening, Vec::new());
        }
        lines = opening;
        assert(views(lines@) =~= seq![handover_line(found@), run_line_spec(run.0, run.1@)]);
    } else {
        assert(views(lines@) =~= Seq::<Seq<char>>::empty());
    }
    let ghost opened = views(lines@);
    let agents = found.agents();
    let judged = if auto && agents.len() > 0 {
        let exp = crate::ledger::expanded_criteria(&agents, &places);
        let rows = crate::verdicts::judged_rows(&texts_of(&exp), judge.0, judge.1.as_str());
        let (all, detail) = crate::verdicts::judged_detail(&rows);
        let mut name = found.name.clone();
        name.append("·审");
        task.record(name.as_str(), detail.as_str(), all, at);
        rows
    } else {
        undecided(&agents)
    };
    let c = execute(step, &found, auto, note, results, &judged);
    match &c.record {
        Some(e) => task.record(e.0.as_str(), e.1.as_str(), e.2, at),
        None => {},
    }
    crate::task::write_gates(task, &c.gate_notes);
    let mut k: usize = 0;
    while k < c.lines.len()
        invariant
            k <= c.lines@.len(),
            views(lines@) =~= opened + views(c.lines@).take(k as int),
        decreases c.lines@.len() - k,
    {
        let ghost before = lines@;
        lines.push(c.lines[k].clone());
        proof {
            crate::text::lemma_views_push(before, c.lines@[k as int]);
            assert(views(c.lines@).take(k + 1) =~= views(c.lines@).take(k as int).push(c.lines@[k as int]@));
        }
        k = k + 1;
    }
    assert(views(c.lines@).take(k as int) =~= views(c.lines@));
    (c.ok, lines, c.rows)
}

}
