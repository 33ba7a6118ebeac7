use qtcloud_work::audit::{items_of, run, verdict, Item, Kind, Probe};
use qtcloud_work::criterion::Criterion;
use qtcloud_work::execute::{agent_ran, execute, first_move, human_record, undecided, walk_conclusion, Move};
use qtcloud_work::order::WorkRecord;
use qtcloud_work::prompts::{criteria_text, judge_prompt, one_line, previous_records, prompt_for, Facts};
use qtcloud_work::verdicts::{judged_detail, judged_rows, verdict_of};
use qtcloud_work::workflow::Step;

fn rule_path(path: &str) -> Criterion {
    Criterion::PathExists { path: path.to_string(), description: String::new() }
}

fn agent(text: &str) -> Criterion {
    Criterion::Agent { description: text.to_string() }
}

fn gate(text: &str) -> Criterion {
    Criterion::Human { description: text.to_string() }
}

fn step(executor: &str, criteria: Vec<Criterion>) -> Step {
    Step {
        id: String::new(),
        name: "写".to_string(),
        description: "写报告".to_string(),
        executor: executor.to_string(),
        criteria,
    }
}

fn facts() -> Facts {
    Facts {
        root: "/ws".to_string(),
        name: "单".to_string(),
        description: String::new(),
        workflow_name: "流".to_string(),
        steps: "写、审".to_string(),
        step: "写".to_string(),
        what: "写报告".to_string(),
        report: "artifacts/report/单.md".to_string(),
        journal: "artifacts/journal/单.md".to_string(),
        records: "（还没有流水）".to_string(),
    }
}

#[test]
fn criteria_are_listed_with_their_judge() {
    let cs = vec![rule_path("docs/a.md"), agent(" 写清楚 ")];
    assert_eq!(criteria_text(&cs), "- rule：存在：docs/a.md\n- agent：写清楚");
    assert_eq!(criteria_text(&Vec::new()), "（这一步没有判据）");
}

#[test]
fn the_walking_prompt_is_fixed() {
    let text = prompt_for(&facts(), &vec![agent("写清楚")]);
    assert!(text.starts_with("你在按一条工作流走一步。只做这一步，做完就停。\n\n工作区：/ws\n工单：单（（没写描述））\n"));
    assert!(text.contains("判据（程序随后自己核对，你不能改判据、也不许改判据文件）：\n- agent：写清楚\n\n"));
    assert!(text.contains("（工作流里用 {{report}} / {{journal}} 指它们；"));
}

#[test]
fn the_judging_prompt_numbers_criteria() {
    let text = judge_prompt(&facts(), &vec![agent("一"), agent("二")]);
    assert!(text.contains("判准（逐条判）：\n1. 一\n2. 二\n\n"));
    assert!(text.starts_with("你是审查者，不是执行者。"));
}

#[test]
fn previous_records_shows_the_last_ones() {
    let r = |seq: usize, ok: bool| WorkRecord {
        id: String::new(),
        seq,
        created_at: format!("t{seq}"),
        order_id: String::new(),
        step: "写".to_string(),
        step_id: String::new(),
        description: "做了".to_string(),
        is_succeeded: ok,
    };
    let records = vec![r(1, true), r(2, false), r(3, true)];
    assert_eq!(previous_records(&records, 2), "- 第 2 笔（t2）写：没过——做了\n- 第 3 笔（t3）写：过——做了");
    assert_eq!(previous_records(&Vec::new(), 8), "（还没有流水）");
    assert_eq!(previous_records(&records, 0), "（还没有流水）");
}

#[test]
fn one_line_takes_the_last_filled_line() {
    assert_eq!(one_line("第一行\n  最后一行  \n\n  ", 80), "最后一行");
    assert_eq!(one_line("一二三四五", 3), "一二三");
    assert_eq!(one_line("", 80), "");
}

#[test]
fn verdicts_are_read_by_number_then_by_word() {
    let out = "1. 通过 — 写清楚了\n2. 不通过 — 缺图\n3. 再看看";
    assert_eq!(verdict_of(out, 1), ("✓".to_string(), "通过 — 写清楚了".to_string()));
    assert_eq!(verdict_of(out, 2), ("✗".to_string(), "不通过 — 缺图".to_string()));
    assert_eq!(verdict_of(out, 3), ("待判".to_string(), "再看看".to_string()));
    assert_eq!(verdict_of("整体 不 通过\n理由在此", 4), ("✗".to_string(), "理由在此".to_string()));
    assert_eq!(verdict_of("通过", 4), ("✓".to_string(), "通过".to_string()));
    assert_eq!(verdict_of("说不清", 4), ("待判".to_string(), "说不清".to_string()));
}

#[test]
fn judged_rows_and_detail() {
    let notes = vec!["一".to_string(), "二".to_string()];
    let rows = judged_rows(&notes, true, "1. 通过 — 好\n2. 不通过 — 差");
    assert_eq!(rows[1], ("二".to_string(), "✗".to_string(), "不通过 — 差".to_string()));
    assert_eq!(judged_detail(&rows), (false, "AI 审查（同一模型）：一→✓；二→✗".to_string()));
    let idle = judged_rows(&notes, false, "没找到 pi");
    assert_eq!(idle[0], ("一".to_string(), "待判".to_string(), "智能体没跑成：没找到 pi".to_string()));
}

#[test]
fn rules_run_from_probes() {
    let cs = vec![
        rule_path("docs/a.md"),
        Criterion::FileContains { file: "a.md".to_string(), contains: "方法".to_string(), description: String::new() },
        Criterion::CommandRun { run: "make".to_string(), description: String::new() },
        Criterion::PathAbsent { path: "old.md".to_string(), description: "旧的删了".to_string() },
        agent("写清楚"),
    ];
    let items = items_of(&cs);
    assert_eq!(items.len(), 5);
    assert!(items[4].kind.is_none());
    assert!(items[2].kind == Some(Kind::Run));
    let probes = vec![
        Probe::Exists(true),
        Probe::Body(Some("## 方法\n".to_string())),
        Probe::Ran { success: false, stdout: "a\nb\n".to_string(), stderr: "  ".to_string() },
        Probe::Exists(true),
    ];
    let (results, pending) = run(&items, &probes);
    assert_eq!(pending.len(), 1);
    let seen: Vec<(bool, String)> = results.iter().map(|(_, p, s)| (*p, s.clone())).collect();
    assert_eq!(
        seen,
        vec![
            (true, "docs/a.md".to_string()),
            (true, "a.md 含「方法」".to_string()),
            (false, "make——b".to_string()),
            (false, "old.md".to_string()),
        ]
    );
    assert_eq!(results[3].0.description, "旧的删了");
    let missing = Item { description: String::new(), kind: Some(Kind::Contains), args: vec!["x".to_string(), "y".to_string()] };
    assert_eq!(verdict(&missing, &Probe::Body(None)), (false, "x 不存在".to_string()));
    let silent = Item { description: String::new(), kind: Some(Kind::Run), args: vec!["go".to_string()] };
    assert_eq!(
        verdict(&silent, &Probe::Ran { success: false, stdout: String::new(), stderr: String::new() }),
        (false, "go——无输出".to_string())
    );
    assert_eq!(verdict(&silent, &Probe::Failed("没有 sh".to_string())), (false, "go——没有 sh".to_string()));
}

#[test]
fn the_first_move_depends_on_who_walks() {
    match first_move("飞", None, true) {
        Move::Missing(line) => assert_eq!(line, "工作流里没有这一步：飞"),
        _ => panic!("a missing step ends the walk"),
    }
    let by_agent = step("agent", Vec::new());
    match first_move("写", Some(&by_agent), true) {
        Move::HandOver(line) => assert_eq!(line, "写：交给 AI（agent）跑"),
        _ => panic!("an agent takes the step"),
    }
    assert!(matches!(first_move("写", Some(&by_agent), false), Move::Check));
    let by_person = step("human", Vec::new());
    match first_move("写", Some(&by_person), true) {
        Move::PersonsTurn(line) => {
            assert_eq!(line, "写：这一步的执行者是人（human）——轮到你，做完用 qtcloud-work task <名字> --done 写")
        },
        _ => panic!("a person takes the step"),
    }
    assert_eq!(agent_ran(true, ""), ("  AI 跑完了：（没输出）".to_string(), "AI 执行：（没输出）".to_string()));
    assert_eq!(agent_ran(false, "坏了\n"), ("  AI 跑不动：坏了".to_string(), "AI 执行：坏了".to_string()));
}

#[test]
fn a_walk_concludes_from_the_checks() {
    let found = step("agent", vec![rule_path("docs/a.md"), agent("写清楚"), gate("主编拍板")]);
    let items = items_of(&vec![rule_path("docs/a.md")]);
    let (results, _) = run(&items, &vec![Probe::Exists(true)]);
    let judged = undecided(&vec![agent("写清楚")]);
    assert_eq!(judged[0], ("写清楚".to_string(), "待判".to_string(), "没跑智能体（人为地记一步）".to_string()));

    let by_hand = execute("写", &found, false, "", &results, &judged);
    assert!(by_hand.ok);
    assert_eq!(by_hand.detail, "存在：docs/a.md");
    assert_eq!(by_hand.record, Some(("写".to_string(), "存在：docs/a.md".to_string(), true)));
    assert_eq!(by_hand.gate_notes, vec!["主编拍板", "写清楚"]);
    assert_eq!(
        by_hand.lines,
        vec![
            "✓ 写：存在：docs/a.md",
            "  ✓ 存在：docs/a.md（docs/a.md）",
            "  待判 写清楚（没跑智能体（人为地记一步））",
            "  ⧗ 主编拍板（留给人）",
        ]
    );
    assert_eq!(by_hand.rows[2], ("主编拍板".to_string(), "闸门".to_string(), "留给人拍板".to_string()));

    let failed = vec![("写清楚".to_string(), "✗".to_string(), "缺图".to_string())];
    let by_agent = execute("写", &found, true, " 自己说 ", &results, &failed);
    assert!(!by_agent.ok);
    assert_eq!(by_agent.record, Some(("写·判".to_string(), "自己说".to_string(), true)));

    let walked = walk_conclusion("单", &found, "", &results, &vec![("写清楚".to_string(), "✓".to_string(), "好".to_string())]);
    assert!(walked.ok);
    assert!(!walked.append);
    assert_eq!(walked.lines.last().unwrap(), "  这一步有闸门，等人放行：qtcloud-work order done 单 写");
    let (ok, detail, rows) = human_record("", &results);
    assert!(ok);
    assert_eq!(detail, "存在：docs/a.md");
    assert_eq!(rows.len(), 1);
    let (_, detail, _) = human_record("", &Vec::new());
    assert_eq!(detail, "人记一笔");
}
