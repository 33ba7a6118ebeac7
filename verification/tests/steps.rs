use qtcloud_work::artifact::Asset;
use qtcloud_work::audit::{Item, Kind};
use qtcloud_work::catalog::insert_name;
use qtcloud_work::criterion::Criterion;
use qtcloud_work::execute::{agent_opening, task_step, walk_conclusion};
use qtcloud_work::ids::is_id;
use qtcloud_work::material::Material;
use qtcloud_work::report::{audit_report, material_report};
use qtcloud_work::task::{new_task_payload, JournalEvent, Task};
use qtcloud_work::workflow::{Step, Workflow};
use qtcloud_work::yaml::{text_of, Yaml};

fn s(text: &str) -> Yaml {
    Yaml::Str(text.to_string())
}

fn map(pairs: Vec<(&str, Yaml)>) -> Yaml {
    Yaml::Mapping(pairs.into_iter().map(|(k, v)| (s(k), v)).collect())
}

fn strs(v: &[&str]) -> Vec<String> {
    v.iter().map(|x| x.to_string()).collect()
}

fn step(name: &str, executor: &str, criteria: Vec<Criterion>) -> Step {
    Step {
        id: String::new(),
        name: name.to_string(),
        description: String::new(),
        executor: executor.to_string(),
        criteria,
    }
}

fn gated() -> Step {
    step(
        "写",
        "agent",
        vec![
            Criterion::PathExists { path: "a.md".to_string(), description: String::new() },
            Criterion::Human { description: "主编拍板".to_string() },
        ],
    )
}

fn passed(ok: bool) -> Vec<(Item, bool, String)> {
    let item = Item { description: "存在：a.md".to_string(), kind: Some(Kind::Path), args: strs(&["a.md"]) };
    vec![(item, ok, "a.md".to_string())]
}

fn flow() -> Workflow {
    Workflow {
        id: String::new(),
        name: "流".to_string(),
        description: String::new(),
        steps: vec![
            step("写", "agent", vec![Criterion::PathExists { path: "a.md".to_string(), description: String::new() }]),
            step("审", "human", vec![Criterion::Human { description: "拍板".to_string() }]),
        ],
    }
}

fn task() -> Task {
    let payload = map(vec![("name", s("甲")), ("log", Yaml::List(Vec::new())), ("gates", Yaml::List(Vec::new()))]);
    Task::new("/ws", "/ws/data", "甲", None, payload, true)
}

fn log_len(t: &Task) -> usize {
    t.payload.get("log").and_then(|l| l.as_sequence()).map(|v| v.len()).unwrap_or(0)
}

#[test]
fn a_gated_step_is_never_recorded_by_the_walk() {
    let failed = walk_conclusion("单", &gated(), "", &passed(false), &Vec::new());
    assert!(!failed.ok);
    assert!(!failed.append);
    assert_eq!(failed.lines.last().unwrap(), "  这一步有闸门，等人放行：qtcloud-work order done 单 写");
    let plain = step("写", "agent", vec![Criterion::PathExists { path: "a.md".to_string(), description: String::new() }]);
    let done = walk_conclusion("单", &plain, "", &passed(false), &Vec::new());
    assert!(!done.ok);
    assert!(done.append);
}

#[test]
fn the_opening_of_an_agents_step_says_how_the_run_went() {
    let (lines, go_on) = agent_opening(&gated(), false, "出错了");
    assert!(!go_on);
    assert_eq!(lines, strs(&["写：交给 AI（agent）跑", "  AI 跑不动：出错了", "  （AI 没跑成，这一步不算过；修好再来）"]));
    let (lines, go_on) = agent_opening(&gated(), true, "");
    assert!(go_on);
    assert_eq!(lines, strs(&["写：交给 AI（agent）跑", "  AI 跑完了：（没输出）"]));
}

#[test]
fn a_journal_step_is_compared_as_written() {
    let e = JournalEvent::of(&map(vec![("step", s(" 写 ")), ("ok", Yaml::Bool(true)), ("at", s(" t "))]));
    assert_eq!(e.step, " 写 ");
    assert_eq!(e.at, "t");
    let payload = map(vec![(
        "log",
        Yaml::List(vec![map(vec![("step", s(" 写 ")), ("ok", Yaml::Bool(true))])]),
    )]);
    let t = Task::new("/ws", "/ws/data", "甲", None, payload, true);
    assert!(t.done(&flow()).is_empty());
}

#[test]
fn a_task_step_that_is_missing_fails_and_changes_nothing() {
    let mut t = task();
    let (ok, lines, rows) = task_step(&mut t, &flow(), "飞", "", true, "t1", &(true, String::new()), &(true, String::new()), &Vec::new());
    assert!(!ok);
    assert_eq!(lines, strs(&["工作流里没有这一步：飞"]));
    assert!(rows.is_empty());
    assert_eq!(log_len(&t), 0);
}

#[test]
fn a_persons_step_is_left_to_the_person() {
    let mut t = task();
    let (ok, lines, rows) = task_step(&mut t, &flow(), "审", "", true, "t1", &(true, String::new()), &(true, String::new()), &Vec::new());
    assert!(ok);
    assert_eq!(lines, strs(&["审：这一步的执行者是人（human）——轮到你，做完用 qtcloud-work task <名字> --done 审"]));
    assert!(rows.is_empty());
    assert_eq!(log_len(&t), 0);
}

#[test]
fn an_agent_that_did_not_run_fails_the_step_with_one_event() {
    let mut t = task();
    let run = (false, "没找到 pi".to_string());
    let (ok, lines, rows) = task_step(&mut t, &flow(), "写", "", true, "t1", &run, &(true, String::new()), &passed(true));
    assert!(!ok);
    assert_eq!(lines.last().unwrap(), "  （AI 没跑成，这一步不算过；修好再来）");
    assert!(rows.is_empty());
    assert_eq!(log_len(&t), 1);
    let events = t.events();
    assert_eq!((events[0].step.as_str(), events[0].ok), ("写", false));
    assert!(t.gates().is_empty());
}

#[test]
fn an_agent_that_ran_leads_to_the_checks() {
    let mut t = task();
    let run = (true, "好了".to_string());
    let (ok, lines, rows) = task_step(&mut t, &flow(), "写", "", true, "t1", &run, &(true, String::new()), &passed(true));
    assert!(ok);
    assert_eq!(lines[0], "写：交给 AI（agent）跑");
    assert_eq!(lines[2], "✓ 写：存在：a.md");
    assert_eq!(rows.len(), 1);
    let events = t.events();
    assert_eq!(events.len(), 2);
    assert_eq!((events[1].step.as_str(), events[1].ok), ("写·判", true));
    assert_eq!(t.done(&flow()), strs(&["写"]));
}

#[test]
fn derived_ids_read_as_ids() {
    let a = qtcloud_work::ids::derive("workflow", &strs(&["ws-1", "课程档案比对"]));
    assert!(is_id(&a));
    assert!(!is_id("不是凭证"));
}

#[test]
fn an_audit_reports_what_is_missing_and_stray() {
    let missing = vec![Asset { category: "报告".to_string(), name: "report".to_string() }];
    let r = audit_report("/ws", &missing, &strs(&["/ws/data/misc"]), &strs(&["/ws/data/history"]));
    assert!(!r.ok);
    assert_eq!(r.columns, strs(&["问题", "说明"]));
    assert_eq!(r.rows, vec![strs(&["缺资产", "报告（report）"]), strs(&["未登记", "data/misc"])]);
    assert_eq!(r.lines, strs(&["补建：data/history", "缺资产：报告（report）", "未登记：data/misc"]));
    let stray = audit_report("/ws", &Vec::new(), &strs(&["/ws/data/misc"]), &Vec::new());
    assert_eq!(stray.lines.last().unwrap(), "未登记的目录要么属于某一格（改资产表），要么不该在这儿。");
    let clean = audit_report("/ws", &Vec::new(), &Vec::new(), &Vec::new());
    assert!(clean.ok);
    assert_eq!(clean.lines, strs(&["审计通过：二十格齐备，无未登记目录。"]));
}

#[test]
fn a_material_report_lists_fields_and_what_lacks() {
    let full = Material {
        kind: "md".to_string(),
        content: "正文".to_string(),
        source: "journal/a.md".to_string(),
        created_at: "2024-05-01".to_string(),
        stage: "原始".to_string(),
    };
    let r = material_report(&vec![("a.md".to_string(), full)]);
    assert!(r.ok);
    assert_eq!(r.rows, vec![strs(&["a.md", "md", "原始", "2024-05-01", "journal/a.md"])]);
    assert_eq!(r.lines[0], format!("a.md{} md    原始    2024-05-01  journal/a.md", " ".repeat(48)));
    assert_eq!(r.lines[1], "阶段由资产位置承担：日志是原始，其余是材料。");
    let lacking = Material {
        kind: "md".to_string(),
        content: String::new(),
        source: "journal/b.md".to_string(),
        created_at: String::new(),
        stage: "原始".to_string(),
    };
    let r = material_report(&vec![("b.md".to_string(), lacking)]);
    assert!(!r.ok);
    assert_eq!(r.rows[0][3], "（缺）");
    assert_eq!(r.lines.len(), 2);
    assert_eq!(r.lines[1], "缺字段：b.md——内容、时间");
}

#[test]
fn a_new_task_file_lists_its_sections_and_context() {
    let p = new_task_payload("甲", "流", "2024-05-01T09:00:00", "/ws", "/ws/data", Some("/flows"));
    assert_eq!(text_of(&p, "name"), "甲");
    assert_eq!(text_of(&p, "start"), "2024-05-01T09:00:00");
    assert_eq!(text_of(&p, "workflow"), "流");
    assert_eq!(text_of(&p, "root"), "/ws");
    assert_eq!(text_of(&p, "data"), "data");
    assert_eq!(text_of(&p, "workflows"), "/flows");
    assert_eq!(p.get("log").and_then(|v| v.as_sequence()).map(|v| v.len()), Some(0));
    assert_eq!(p.get("gates").and_then(|v| v.as_sequence()).map(|v| v.len()), Some(0));
    assert_eq!(p.get("artifacts").and_then(|v| v.as_mapping()).map(|v| v.len()), Some(0));
}

#[test]
fn names_are_kept_sorted_and_once() {
    let mut names: Vec<String> = Vec::new();
    insert_name(&mut names, "报告".to_string());
    insert_name(&mut names, "report".to_string());
    insert_name(&mut names, "报告".to_string());
    insert_name(&mut names, "history".to_string());
    assert_eq!(names, strs(&["history", "report", "报告"]));
}

fn judged_flow() -> Workflow {
    Workflow {
        id: String::new(),
        name: "流".to_string(),
        description: String::new(),
        steps: vec![step("a", "agent", vec![Criterion::Agent { description: "审".to_string() }])],
    }
}

#[test]
fn without_a_judging_agent_agent_criteria_wait_undecided() {
    let mut t = task();
    let (ok, lines, rows) =
        task_step(&mut t, &judged_flow(), "a", "", false, "t1", &(false, String::new()), &(false, String::new()), &Vec::new());
    assert!(ok);
    assert_eq!(lines, strs(&["✓ a：做完", "  待判 审（没跑智能体（人为地记一步））"]));
    assert_eq!(rows, vec![("审".to_string(), "待判".to_string(), "没跑智能体（人为地记一步）".to_string())]);
    let events = t.events();
    assert_eq!(events.len(), 1);
    assert_eq!((events[0].step.as_str(), events[0].detail.as_str(), events[0].ok), ("a", "做完", true));
    assert_eq!(t.gates(), strs(&["审"]));
}

#[test]
fn a_judging_agent_records_its_judgment() {
    let mut t = task();
    let run = (true, "做了".to_string());
    let judge = (true, "1. 不通过 — 没写".to_string());
    let (ok, _lines, rows) = task_step(&mut t, &judged_flow(), "a", "", true, "t1", &run, &judge, &Vec::new());
    assert!(!ok);
    assert_eq!(rows, vec![("审".to_string(), "✗".to_string(), "不通过 — 没写".to_string())]);
    let events = t.events();
    assert_eq!(events.len(), 2);
    assert_eq!((events[1].step.as_str(), events[1].detail.as_str(), events[1].ok), ("a·审", "AI 审查（同一模型）：审→✗", false));
    assert_eq!(t.gates(), strs(&["审"]));
}

#[test]
fn replacing_a_section_twice_changes_nothing_more() {
    let body = strs(&["- 写完", "- 审过"]);
    for text in ["# 报告：甲\n\n## 执行记录\n\n旧\n\n## 闸门项\n", "# 报告：甲\n", "## 执行记录\n旧"] {
        let once = qtcloud_work::records::replace_section(text, "执行记录", &body);
        let twice = qtcloud_work::records::replace_section(&once, "执行记录", &body);
        assert_eq!(once, twice);
    }
}
