use qtcloud_work::catalog::{is_document, skipped, Catalog, Entry};
use qtcloud_work::check::Finding;
use qtcloud_work::criterion::Criterion;
use qtcloud_work::health::resolve_base;
use qtcloud_work::ledger::{order_facts, order_table, order_turn, Turn};
use qtcloud_work::locate::{identity, Locate};
use qtcloud_work::order::{WorkOrder, WorkRecord};
use qtcloud_work::records::narrate;
use qtcloud_work::report::{
    check_report, lines_only, no_orders, no_workflows, order_entry, order_show, workflow_entry, workflow_show,
};
use qtcloud_work::schema::validate;
use qtcloud_work::search::entry_line;
use qtcloud_work::workflow::{create_check, import_name, skeleton, split_steps, Step, Workflow};
use qtcloud_work::yaml::{text_of, Yaml};

const ORDER: &str = "00000000-0000-0000-0000-00000000000a";
const FLOW: &str = "00000000-0000-0000-0000-00000000000f";

fn strs(v: &[&str]) -> Vec<String> {
    v.iter().map(|s| s.to_string()).collect()
}

fn flow() -> Workflow {
    Workflow {
        id: FLOW.to_string(),
        name: "流".to_string(),
        description: "两步".to_string(),
        steps: vec![
            Step {
                id: "s1".to_string(),
                name: "写".to_string(),
                description: "起草".to_string(),
                executor: "agent".to_string(),
                criteria: vec![Criterion::PathExists { path: "a.md".to_string(), description: String::new() }],
            },
            Step {
                id: "s2".to_string(),
                name: "审".to_string(),
                description: String::new(),
                executor: "human".to_string(),
                criteria: vec![Criterion::Human { description: "主编拍板".to_string() }],
            },
        ],
    }
}

fn order() -> WorkOrder {
    WorkOrder {
        id: ORDER.to_string(),
        name: "单".to_string(),
        description: "做一件事".to_string(),
        workflow_id: FLOW.to_string(),
        created_at: "2024-05-01T09:00:00".to_string(),
        records: vec![WorkRecord {
            id: "00000000-0000-0000-0000-000000000001".to_string(),
            seq: 1,
            created_at: "2024-05-01T10:00:00".to_string(),
            order_id: ORDER.to_string(),
            step: "写".to_string(),
            step_id: "s1".to_string(),
            description: "一句".to_string(),
            is_succeeded: true,
        }],
    }
}

fn load() -> Locate {
    Locate {
        root: "/ws".to_string(),
        data: "/ledger".to_string(),
        workflows: None,
        artifacts: "/ws/artifacts".to_string(),
    }
}

#[test]
fn a_workflow_report_lists_steps_and_criteria() {
    let r = workflow_show("流", "flows/流.yaml", &flow(), "两步");
    assert!(r.ok);
    assert_eq!(r.columns, strs(&["步骤", "谁做", "判据"]));
    assert_eq!(
        r.lines,
        strs(&[
            "工作流：流（flows/流.yaml）",
            "  id：00000000-0000-0000-0000-00000000000f",
            "  描述：两步",
            "  写（agent）：起草",
            "      rule：存在：a.md",
            "  审（human）：",
            "      human：主编拍板",
        ])
    );
    assert_eq!(
        r.rows,
        vec![
            strs(&["写", "agent", "1 rule / 0 agent / 0 human"]),
            strs(&["审", "human", "0 rule / 0 agent / 1 human"]),
        ]
    );
    let quiet = workflow_show("流", "flows/流.yaml", &flow(), "");
    assert_eq!(quiet.lines.len(), 6);
}

#[test]
fn an_order_report_shows_cover_steps_gates_and_records() {
    let r = order_show(&order(), &flow(), "workorders/单.yaml", "artifacts/report/单.md");
    assert!(r.ok);
    assert_eq!(r.columns, strs(&["步骤", "状态"]));
    assert_eq!(
        r.lines,
        strs(&[
            "工单：单（workorders/单.yaml）",
            "  id：00000000-0000-0000-0000-00000000000a",
            "  工作流：流（00000000-0000-0000-0000-00000000000f）",
            "  开工：2024-05-01T09:00:00",
            "  描述：做一件事",
            "  ✓ 写",
            "  — 审",
            "进度：1/2　下一步：审",
            "  闸门：审：主编拍板",
            "    1  2024-05-01T10:00:00  ✓ 写　一句",
            "产物：artifacts/report/单.md",
        ])
    );
    assert_eq!(r.rows, vec![strs(&["写", "✓"]), strs(&["审", "—"])]);
}

#[test]
fn listings_give_a_row_and_a_padded_line() {
    let (row, line) = order_entry(&order(), &flow());
    assert_eq!(row, strs(&["单", "流", "1/2", "审"]));
    assert_eq!(line, format!("单{} 工作流 流　[█████░░░░░] 1/2　下一步：审", " ".repeat(23)));
    let (row, line) = workflow_entry("流", &flow(), "flows/流.yaml");
    assert_eq!(row, strs(&["流", "写、审", "flows/流.yaml"]));
    assert_eq!(line, format!("流{} 步骤：写、审", " ".repeat(23)));
    assert_eq!(no_orders(), "还没有工单：qtcloud-work order create <名字> --workflow <工作流>");
    assert_eq!(no_workflows(), "还没有工作流：qtcloud-work workflow create <名字> --steps 甲,乙");
    let one = lines_only(false, "不行".to_string());
    assert!(!one.ok);
    assert_eq!(one.lines, strs(&["不行"]));
    assert!(one.columns.is_empty() && one.rows.is_empty());
}

#[test]
fn a_check_report_says_whether_all_is_well() {
    let found = vec![
        Finding { where_: "写".to_string(), what: "a.md 在区内".to_string(), ok: true },
        Finding { where_: "审".to_string(), what: "../x 出了工作区".to_string(), ok: false },
    ];
    let r = check_report("流", &found);
    assert!(!r.ok);
    assert_eq!(r.columns, strs(&["核对", "结论"]));
    assert_eq!(
        r.lines,
        strs(&["定义核对：流——有要改的地方。", "核对 2 件事", "  ✓ 写——a.md 在区内", "  ✗ 审——../x 出了工作区"])
    );
    assert_eq!(r.rows, vec![strs(&["写", "✓ a.md 在区内"]), strs(&["审", "✗ ../x 出了工作区"])]);
    let empty = check_report("流", &Vec::new());
    assert!(empty.ok);
    assert_eq!(
        empty.lines,
        strs(&[
            "定义核对：流——判据路径都在区内，描述点到的小节都有判据覆盖。",
            "核对 0 件事",
            "  （这条定义里没有可核对的路径与小节）",
        ])
    );
}

#[test]
fn search_prefers_exact_names_then_loose_ones() {
    let entries = vec![
        Entry { kind: "日志".to_string(), path: "/ws/data/journal".to_string(), names: strs(&["日志", "journal"]) },
        Entry { kind: "日志".to_string(), path: "/ws/data/journal/a.md".to_string(), names: strs(&["a", "Alpha Notes"]) },
    ];
    let exact = qtcloud_work::search::matches(&entries, " Journal/ ");
    assert_eq!(exact.len(), 1);
    assert_eq!(exact[0].path, "/ws/data/journal");
    let loose = qtcloud_work::search::matches(&entries, "notes");
    assert_eq!(loose.len(), 1);
    assert_eq!(loose[0].path, "/ws/data/journal/a.md");
    assert!(qtcloud_work::search::matches(&entries, "zzz").is_empty());
    assert_eq!(entry_line("日志", "data/journal"), "[日志] data/journal");
}

#[test]
fn unregistered_directories_are_those_no_asset_claims() {
    let known = strs(&["/ws/data/journal"]);
    let children = vec![
        ("/ws/data/journal".to_string(), "journal".to_string(), true),
        ("/ws/data/.cache".to_string(), ".cache".to_string(), true),
        ("/ws/data/misc".to_string(), "misc".to_string(), true),
        ("/ws/data/x.md".to_string(), "x.md".to_string(), false),
    ];
    assert_eq!(Catalog::unregistered(&known, &children), strs(&["/ws/data/misc"]));
    assert!(Catalog::unregistered(&known, &Vec::new()).is_empty());
}

#[test]
fn a_journal_gains_a_paragraph_and_loses_its_notes() {
    assert_eq!(narrate(None, "单", " 第一段 "), "# 日志：单\n\n第一段\n");
    let text = "# 日志：单\n\n（这个任务的来龙去脉，你写）\n";
    assert_eq!(narrate(Some(text), "单", "第二段"), "# 日志：单\n\n第二段\n");
    let kept = "# 日志：单\n\n第一段\n";
    assert_eq!(narrate(Some(kept), "单", "第二段"), "# 日志：单\n\n第一段\n\n第二段\n");
}

#[test]
fn a_new_workflow_is_a_skeleton_that_follows_the_schema() {
    let steps = split_steps(" 甲, ,乙,");
    assert_eq!(steps, strs(&["甲", "乙"]));
    let payload = skeleton("流", &steps, "");
    assert_eq!(text_of(&payload, "name"), "流");
    assert_eq!(text_of(&payload, "description"), "步骤串联：写清每步做什么、谁执行、怎么判。");
    let listed = payload.get("steps").and_then(|s| s.as_sequence()).map(|v| v.len());
    assert_eq!(listed, Some(2));
    let first = &payload.get("steps").unwrap().as_sequence().unwrap()[0];
    assert_eq!(text_of(first, "description"), "<甲这一步做什么>");
    assert_eq!(text_of(first, "executor"), "agent");
    assert!(validate("流.yaml", &payload).is_ok());
    assert_eq!(text_of(&skeleton("流", &steps, " 写报告 "), "description"), "写报告");
    let shaped = Workflow::of(&payload);
    assert_eq!(shaped.step_names(), strs(&["甲", "乙"]));
}

#[test]
fn creating_a_workflow_needs_a_name_and_a_step() {
    assert_eq!(create_check("  ", &strs(&["甲"])), Some("请先给工作流起个名字".to_string()));
    assert_eq!(create_check("流", &strs(&["  "])), Some("至少给一个步骤：--steps 甲,乙,丙".to_string()));
    assert_eq!(create_check("流", &Vec::new()), Some("至少给一个步骤：--steps 甲,乙,丙".to_string()));
    assert_eq!(create_check("流", &strs(&["", "甲"])), None);
}

#[test]
fn an_import_takes_the_asked_then_the_carried_then_the_file_name() {
    let named = Yaml::Mapping(vec![(Yaml::Str("name".to_string()), Yaml::Str(" 流 ".to_string()))]);
    let bare = Yaml::Mapping(Vec::new());
    assert_eq!(import_name(" 另一条 ", &named, "/tmp/x.yaml"), "另一条");
    assert_eq!(import_name(" ", &named, "/tmp/x.yaml"), "流");
    assert_eq!(import_name("", &bare, "/tmp/x.yaml"), "x");
}

#[test]
fn a_new_identity_names_the_workspace_after_its_root() {
    let id = identity("id-1", "ws", "2024-05-01T09:00:00");
    assert_eq!(text_of(&id, "id"), "id-1");
    assert_eq!(text_of(&id, "name"), "ws");
    assert_eq!(text_of(&id, "title"), "ws");
    assert_eq!(text_of(&id, "description"), "");
    assert_eq!(text_of(&id, "created_at"), "2024-05-01T09:00:00");
    assert_eq!(text_of(&id, "updated_at"), "2024-05-01T09:00:00");
}

#[test]
fn an_order_knows_its_places_and_its_turn() {
    let table = order_table(&load(), "单");
    assert_eq!(
        table,
        vec![
            ("report".to_string(), "artifacts/report/单.md".to_string()),
            ("journal".to_string(), "artifacts/journal/单.md".to_string()),
            ("artifacts".to_string(), "artifacts".to_string()),
        ]
    );
    let w = flow();
    let facts = order_facts(&load(), &order(), &w, &w.steps[0]);
    assert_eq!(facts.root, "/ws");
    assert_eq!(facts.steps, "写、审");
    assert_eq!(facts.step, "写");
    assert_eq!(facts.what, "起草");
    assert_eq!(facts.report, "artifacts/report/单.md");
    assert_eq!(facts.journal, "artifacts/journal/单.md");
    match order_turn("单", None) {
        Turn::Through(line) => assert_eq!(line, "所有步骤都走过了"),
        _ => panic!("a finished order has no turn"),
    }
    match order_turn("单", Some(w.steps[1].copy())) {
        Turn::Persons(a, b) => {
            assert_eq!(a, "审：这一步轮到你（人做的不替你做）");
            assert_eq!(b, "做完记一笔：qtcloud-work order done 单 审");
        }
        _ => panic!("a person's step is the person's"),
    }
    match order_turn("单", Some(w.steps[0].copy())) {
        Turn::Walk(step) => assert_eq!(step.name, "写"),
        _ => panic!("an agent's step is walked"),
    }
}

#[test]
fn the_base_address_comes_from_the_option_the_environment_or_the_gateway() {
    let given = Some("http://localhost:8080//".to_string());
    let env = Some("https://e.example/api/".to_string());
    assert_eq!(resolve_base(&given, &env), "http://localhost:8080");
    assert_eq!(resolve_base(&Some("   ".to_string()), &env), "https://e.example/api");
    assert_eq!(resolve_base(&None, &Some(" ".to_string())), "https://api.quanttide.com/qtcloud-work");
    assert_eq!(resolve_base(&None, &None), "https://api.quanttide.com/qtcloud-work");
}

#[test]
fn documents_are_markdown_outside_the_facade_and_build_output() {
    assert!(is_document("notes.md"));
    assert!(!is_document("README.md"));
    assert!(!is_document("CHANGELOG.md"));
    assert!(!is_document("notes.txt"));
    assert!(skipped(".git"));
    assert!(skipped("node_modules"));
    assert!(skipped("__pycache__"));
    assert!(!skipped("journal"));
}
