//! What the agents are told: the prompt for walking a step, the prompt for
//! judging it, and how an agent's judgment is read. What is said and what is
//! not is fixed here; both prompts carry the last records of the ledger, since
//! a person's release or ruling lives only there.
use vstd::prelude::*;
use crate::criterion::{Criterion, CriterionV, executor_spec, text_spec_of};
use crate::order::{RecordV, WorkRecord, records_view};
use crate::text::{decimal_spec, has_prefix, join_spec, lines_spec, trim_spec, views};
use crate::workflow::criteria_view;

verus! {

/// The line a criterion is listed by: `- who：what`.
pub open spec fn criterion_line(c: CriterionV) -> Seq<char> {
    "- "@ + executor_spec(c) + "："@ + text_spec_of(c)
}

/// The criteria of a step, one per line; a note when there are none.
pub open spec fn criteria_text_spec(cs: Seq<CriterionV>) -> Seq<char> {
    if cs.len() == 0 {
        "（这一步没有判据）"@
    } else {
        join_spec(cs.map_values(|c: CriterionV| criterion_line(c)), "\n"@)
    }
}

/// The criteria of a step, one per line.
pub fn criteria_text(criteria: &Vec<Criterion>) -> (r: String)
    ensures
        r@ == criteria_text_spec(criteria_view(criteria@)),
{
    if criteria.len() == 0 {
        return String::from_str("（这一步没有判据）");
    }
    let mut lines: Vec<String> = Vec::new();
    let mut i: usize = 0;
    while i < criteria.len()
        invariant
            i <= criteria@.len(),
            views(lines@) =~= criteria_view(criteria@).take(i as int).map_values(|c: CriterionV| criterion_line(c)),
        decreases criteria@.len() - i,
    {
        let ghost before = lines@;
        let mut line = crate::text::cat("- ", criteria[i].executor());
        line.append("：");
        line.append(criteria[i].text().as_str());
        assert(line@ == criterion_line(criteria@[i as int]@));
        lines.push(line);
        proof {
            assert(views(lines@) =~= views(before).push(line@));
            assert(criteria_view(criteria@).take(i + 1) =~= criteria_view(criteria@).take(i as int).push(criteria@[i as int]@));
        }
        i = i + 1;
    }
    assert(criteria_view(criteria@).take(i as int) =~= criteria_view(criteria@));
    crate::text::join(&lines, "\n")
}

/// What is known of the step being walked: the order and the step, with the
/// paths already worked out by the caller.
pub struct Facts {
    pub root: String,
    pub name: String,
    pub description: String,
    pub workflow_name: String,
    pub steps: String,
    pub step: String,
    pub what: String,
    pub report: String,
    pub journal: String,
    /// The last records of the ledger, releases and rulings included.
    pub records: String,
}

/// The prompt for walking a step.
pub open spec fn prompt_spec(
    root: Seq<char>,
    name: Seq<char>,
    description: Seq<char>,
    flow: Seq<char>,
    steps: Seq<char>,
    step: Seq<char>,
    what: Seq<char>,
    criteria: Seq<char>,
    records: Seq<char>,
    report: Seq<char>,
    journal: Seq<char>,
) -> Seq<char> {
    "你在按一条工作流走一步。只做这一步，做完就停。\n\n工作区："@ + root + "\n工单："@ + name + "（"@
        + (if description.len() == 0 { "（没写描述）"@ } else { description }) + "）\n工作流："@ + flow
        + "\n步骤："@ + steps + "\n这一步："@ + step + "\n做什么：\n"@ + what
        + "\n\n判据（程序随后自己核对，你不能改判据、也不许改判据文件）：\n"@ + criteria
        + "\n\n流水（前几笔，含人的放行与裁决——照它办）：\n"@ + records + "\n\n本单的两样产物：报告 "@ + report
        + "、日志 "@ + journal
        + "（工作流里用 {{report}} / {{journal}} 指它们；\n程序不碰产物内容，谁写谁定）。工作内容写进报告，别动程序写的节。\n规矩：只在工作区里动「做什么」点名的东西。最后用一句话说明你做了什么。\n"@
}

/// The prompt for walking a step.
pub fn prompt_for(facts: &Facts, criteria: &Vec<Criterion>) -> (r: String)
    ensures
        r@ == prompt_spec(
            facts.root@,
            facts.name@,
            facts.description@,
            facts.workflow_name@,
            facts.steps@,
            facts.step@,
            facts.what@,
            criteria_text_spec(criteria_view(criteria@)),
            facts.records@,
            facts.report@,
            facts.journal@,
        ),
{
    let mut r = String::from_str("你在按一条工作流走一步。只做这一步，做完就停。\n\n工作区：");
    r.append(facts.root.as_str());
    r.append("\n工单：");
    r.append(facts.name.as_str());
    r.append("（");
    if facts.description.unicode_len() == 0 {
        r.append("（没写描述）");
    } else {
        r.append(facts.description.as_str());
    }
    r.append("）\n工作流：");
    r.append(facts.workflow_name.as_str());
    r.append("\n步骤：");
    r.append(facts.steps.as_str());
    r.append("\n这一步：");
    r.append(facts.step.as_str());
    r.append("\n做什么：\n");
    r.append(facts.what.as_str());
    r.append("\n\n判据（程序随后自己核对，你不能改判据、也不许改判据文件）：\n");
    r.append(criteria_text(criteria).as_str());
    r.append("\n\n流水（前几笔，含人的放行与裁决——照它办）：\n");
    r.append(facts.records.as_str());
    r.append("\n\n本单的两样产物：报告 ");
    r.append(facts.report.as_str());
    r.append("、日志 ");
    r.append(facts.journal.as_str());
    r.append(
        "（工作流里用 {{report}} / {{journal}} 指它们；\n程序不碰产物内容，谁写谁定）。工作内容写进报告，别动程序写的节。\n规矩：只在工作区里动「做什么」点名的东西。最后用一句话说明你做了什么。\n",
    );
    r
}

/// The criteria to judge, numbered from 1.
pub open spec fn listed_spec(cs: Seq<CriterionV>) -> Seq<char> {
    join_spec(Seq::new(cs.len(), |i: int| decimal_spec((i + 1) as nat) + ". "@ + text_spec_of(cs[i])), "\n"@)
}

/// The prompt for judging a step.
pub open spec fn judge_spec(root: Seq<char>, what: Seq<char>, records: Seq<char>, listed: Seq<char>) -> Seq<char> {
    "你是审查者，不是执行者。别改产物、别改判据文件。\n\n工作区："@ + root
        + "\n要审的东西：这一步的产物与相关文件都在工作区内\n这一步做什么："@ + what
        + "\n\n流水（前几笔，含人的放行与裁决——照它判）：\n"@ + records + "\n\n判准（逐条判）：\n"@ + listed
        + "\n\n对每条输出一行，格式只能是「序号. 通过 — 一句话理由」或「序号. 不通过 — 一句话理由」，最后不要写别的。\n"@
}

/// The judging prompt shows the agent the records and every criterion,
/// numbered; what else it says depends only on the root and on what the step
/// does, never on the order's name, description or artifacts.
pub proof fn lemma_judging_shows(root: Seq<char>, what: Seq<char>, records: Seq<char>, cs: Seq<CriterionV>)
    ensures
        exists|i: int| crate::text::occurs_at(judge_spec(root, what, records, listed_spec(cs)), records, i),
        exists|i: int| crate::text::occurs_at(judge_spec(root, what, records, listed_spec(cs)), listed_spec(cs), i),
{
    let listed = listed_spec(cs);
    let whole = judge_spec(root, what, records, listed);
    let a = "你是审查者，不是执行者。别改产物、别改判据文件。\n\n工作区："@ + root
        + "\n要审的东西：这一步的产物与相关文件都在工作区内\n这一步做什么："@ + what
        + "\n\n流水（前几笔，含人的放行与裁决——照它判）：\n"@;
    let b = a + records + "\n\n判准（逐条判）：\n"@;
    let tail = "\n\n对每条输出一行，格式只能是「序号. 通过 — 一句话理由」或「序号. 不通过 — 一句话理由」，最后不要写别的。\n"@;
    assert(whole =~= b + listed + tail);
    assert(whole.subrange(a.len() as int, (a.len() + records.len()) as int) =~= records);
    assert(crate::text::occurs_at(whole, records, a.len() as int));
    assert(whole.subrange(b.len() as int, (b.len() + listed.len()) as int) =~= listed);
    assert(crate::text::occurs_at(whole, listed, b.len() as int));
}

/// The prompt for judging a step.
pub fn judge_prompt(facts: &Facts, criteria: &Vec<Criterion>) -> (r: String)
    ensures
        r@ == judge_spec(facts.root@, facts.what@, facts.records@, listed_spec(criteria_view(criteria@))),
{
    let ghost cv = criteria_view(criteria@);
    let ghost target = Seq::new(cv.len(), |i: int| decimal_spec((i + 1) as nat) + ". "@ + text_spec_of(cv[i]));
    let mut lines: Vec<String> = Vec::new();
    let mut i: usize = 0;
    while i < criteria.len()
        invariant
            i <= criteria@.len(),
            cv == criteria_view(criteria@),
            target == Seq::new(cv.len(), |i: int| decimal_spec((i + 1) as nat) + ". "@ + text_spec_of(cv[i])),
            views(lines@) =~= target.take(i as int),
        decreases criteria@.len() - i,
    {
        let mut line = crate::text::decimal(i + 1);
        line.append(". ");
        line.append(criteria[i].text().as_str());
        lines.push(line);
        proof {
            assert(target.take(i + 1) =~= target.take(i as int).push(target[i as int]));
        }
        i = i + 1;
    }
    assert(target.take(i as int) =~= target);
    let listed = crate::text::join(&lines, "\n");
    let mut r = String::from_str("你是审查者，不是执行者。别改产物、别改判据文件。\n\n工作区：");
    r.append(facts.root.as_str());
    r.append("\n要审的东西：这一步的产物与相关文件都在工作区内\n这一步做什么：");
    r.append(facts.what.as_str());
    r.append("\n\n流水（前几笔，含人的放行与裁决——照它判）：\n");
    r.append(facts.records.as_str());
    r.append("\n\n判准（逐条判）：\n");
    r.append(listed.as_str());
    r.append("\n\n对每条输出一行，格式只能是「序号. 通过 — 一句话理由」或「序号. 不通过 — 一句话理由」，最后不要写别的。\n");
    r
}

/// The line a record is shown by in a prompt.
pub open spec fn record_line(r: RecordV) -> Seq<char> {
    "- 第 "@ + decimal_spec(r.seq as nat) + " 笔（"@ + r.created_at + "）"@ + r.step + "："@
        + (if r.is_succeeded { "过"@ } else { "没过"@ }) + "——"@ + r.description
}

/// The last `limit` records, oldest first, one per line; a note when there are none.
pub open spec fn previous_spec(rs: Seq<RecordV>, limit: nat) -> Seq<char> {
    let start = if rs.len() > limit { rs.len() - limit } else { 0 };
    let recent = rs.subrange(start as int, rs.len() as int);
    if recent.len() == 0 {
        "（还没有流水）"@
    } else {
        join_spec(recent.map_values(|r: RecordV| record_line(r)), "\n"@)
    }
}

/// The last records of the ledger, for the agents to see what came before
///.
pub fn previous_records(records: &Vec<WorkRecord>, limit: usize) -> (r: String)
    ensures
        r@ == previous_spec(records_view(records@), limit as nat),
{
    let n = records.len();
    let start: usize = if n > limit { n - limit } else { 0 };
    if start == n {
        return String::from_str("（还没有流水）");
    }
    let ghost recent = records_view(records@).subrange(start as int, n as int);
    let mut lines: Vec<String> = Vec::new();
    let mut i: usize = start;
    while i < n
        invariant
            start <= i <= n,
            n == records@.len(),
            recent == records_view(records@).subrange(start as int, n as int),
            views(lines@) =~= recent.take(i - start).map_values(|r: RecordV| record_line(r)),
        decreases n - i,
    {
        let ghost before = lines@;
        let record = &records[i];
        let mut line = String::from_str("- 第 ");
        line.append(crate::text::decimal(record.seq).as_str());
        line.append(" 笔（");
        line.append(record.created_at.as_str());
        line.append("）");
        line.append(record.step.as_str());
        line.append("：");
        line.append(if record.is_succeeded { "过" } else { "没过" });
        line.append("——");
        line.append(record.description.as_str());
        assert(line@ == record_line(records@[i as int]@));
        lines.push(line);
        proof {
            assert(views(lines@) =~= views(before).push(line@));
            assert(recent.take(i + 1 - start) =~= recent.take(i - start).push(records@[i as int]@));
        }
        i = i + 1;
    }
    assert(recent.take(n - start) =~= recent);
    crate::text::join(&lines, "\n")
}

/// The last line of `lines` with something besides white space.
pub open spec fn last_filled(lines: Seq<Seq<char>>) -> Option<Seq<char>>
    decreases lines.len(),
{
    if lines.len() == 0 {
        None
    } else if trim_spec(lines.last()).len() > 0 {
        Some(lines.last())
    } else {
        last_filled(lines.drop_last())
    }
}

/// The last line of a text with something in it, trimmed and cut to `limit`
/// characters.
pub open spec fn one_line_spec(text: Seq<char>, limit: nat) -> Seq<char> {
    let line = trim_spec(
        match last_filled(lines_spec(text)) {
            Some(l) => l,
            None => Seq::empty(),
        },
    );
    if line.len() > limit {
        line.take(limit as int)
    } else {
        line
    }
}

/// The last line of a text with something in it, cut short.
pub fn one_line(text: &str, limit: usize) -> (r: String)
    ensures
        r@ == one_line_spec(text@, limit as nat),
{
    let lines = crate::text::lines(text);
    let ghost lv = views(lines@);
    let mut i: usize = lines.len();
    let mut found: Option<usize> = None;
    assert(lv.subrange(0, lv.len() as int) =~= lv);
    while i > 0 && found.is_none()
        invariant
            i <= lines@.len(),
            lv == views(lines@),
            found matches Some(k) ==> k < lines@.len() && last_filled(lv) == Some(lv[k as int]),
            found is None ==> last_filled(lv) == last_filled(lv.subrange(0, i as int)),
        decreases i,
    {
        proof {
            assert(lv.subrange(0, i as int).drop_last() =~= lv.subrange(0, i - 1));
        }
        let t = crate::text::trim(lines[i - 1].as_str());
        if t.unicode_len() > 0 {
            found = Some(i - 1);
        }
        i = i - 1;
    }
    let line = match found {
        Some(k) => crate::text::trim(lines[k].as_str()),
        None => String::new(),
    };
    proof {
        if found is None {
            assert(lv.subrange(0, 0) =~= Seq::<Seq<char>>::empty());
            assert(trim_spec(Seq::<char>::empty()) =~= Seq::<char>::empty());
        }
    }
    crate::text::take_chars(line.as_str(), limit)
}

}
