use qtcloud_work::locate::Artifact;
use qtcloud_work::task::{bar, context, done, expand, reopen, state_line, write_gates, JournalEvent, Task, Workspace};
use qtcloud_work::workflow::Workflow;
use qtcloud_work::yaml::Yaml;

fn s(text: &str) -> Yaml {
    Yaml::Str(text.to_string())
}

fn map(pairs: Vec<(&str, Yaml)>) -> Yaml {
    Yaml::Mapping(pairs.into_iter().map(|(k, v)| (s(k), v)).collect())
}

fn event(step: &str, ok: bool) -> Yaml {
    map(vec![("at", s("2024-05-01 10:00")), ("step", s(step)), ("detail", s("做了")), ("ok", Yaml::Bool(ok))])
}

fn payload() -> Yaml {
    map(vec![
        ("name", s("甲")),
        ("start", s(" 2024-05-01 09:00 ")),
        ("workflow", s("流")),
        ("gates", Yaml::List(vec![s("老闸门"), Yaml::Int(3)])),
        ("artifacts", map(vec![("report", s(" docs/r.md ")), ("journal", s("  "))])),
        ("products", map(vec![("report", s("out.md"))])),
        ("log", Yaml::List(vec![event("写", false), event("写", true), s("不是事件"), event("写", true), event("别的", true)])),
    ])
}

fn task() -> Task {
    Task::new("/ws", "/ws/data", "甲", None, payload(), true)
}

fn flow() -> Workflow {
    Workflow::of(&map(vec![
        ("name", s("流")),
        ("steps", Yaml::List(vec![map(vec![("name", s("写"))]), map(vec![("name", s("审"))])])),
    ]))
}

#[test]
fn a_task_knows_its_files() {
    let t = task();
    assert_eq!(t.file(), "/ws/data/tasks/甲.yaml");
    assert_eq!(t.artifacts_dir(), "/ws/data/artifacts");
    assert_eq!(t.start(), "2024-05-01 09:00");
    assert_eq!(t.workflow_name(), "流");
    assert_eq!(t.gates(), vec!["老闸门"]);
    assert!(t.has_file());
    assert_eq!(t.declared("report"), Some("docs/r.md".to_string()));
    assert_eq!(t.declared("journal"), None);
    assert_eq!(t.artifact("report"), "/ws/docs/r.md");
    assert_eq!(t.artifact("journal"), "/ws/data/artifacts/journal/甲.md");
    assert_eq!(t.artifact("log"), "/ws/data/tasks/甲.yaml");
    assert_eq!(t.products(), vec![("report".to_string(), "out.md".to_string())]);
    assert_eq!(t.artifacts().len(), 2);
    assert_eq!(t.relative("/ws/data/tasks/甲.yaml"), "tasks/甲.yaml");
    assert_eq!(t.relative("/elsewhere/x"), "/elsewhere/x");
    assert_eq!(Workspace {}.place(&t, &Artifact::named("report")), "docs/r.md");
    assert_eq!(Workspace {}.place(&t, &Artifact::named("journal")), "artifacts/journal/甲.md");
}

#[test]
fn a_payload_that_is_no_mapping_reads_as_empty() {
    let t = Task::new("/ws", "/ws/data", "乙", Some("/flows"), Yaml::Null, false);
    assert!(!t.has_file());
    assert!(t.gates().is_empty());
    assert_eq!(t.start(), "");
    assert_eq!(t.workflows, Some("/flows".to_string()));
}

#[test]
fn the_journal_says_what_was_done() {
    let t = task();
    let events = t.events();
    assert_eq!(events.len(), 4);
    let first: &JournalEvent = &events[0];
    assert_eq!((first.step.as_str(), first.ok), ("写", false));
    let f = flow();
    assert_eq!(t.done(&f), vec!["写"]);
    assert_eq!(done(&t, &f), vec!["写"]);
    assert_eq!(t.next_step(&f).map(|s| s.name), Some("审".to_string()));
    assert_eq!(state_line(&t, &f), "下一步：审");
    let empty = Workflow::of(&map(vec![("name", s("流"))]));
    assert_eq!(state_line(&t, &empty), "这条工作流没有步骤——在 workflows/流.yaml 的 steps 里写步骤");
}

#[test]
fn recording_appends_to_the_journal() {
    let mut t = Task::new("/ws", "/ws/data", "丙", None, map(vec![("name", s("丙"))]), true);
    t.record("写", "做完", true, "2024-05-01 10:00");
    t.record("审", "没过", false, "2024-05-01 11:00");
    let events = t.events();
    assert_eq!(events.len(), 2);
    assert_eq!(events[1].at, "2024-05-01 11:00");
    assert_eq!(events[1].detail, "没过");
    let f = flow();
    assert_eq!(t.done(&f), vec!["写"]);
    assert_eq!(state_line(&t, &f), "下一步：审");
    t.record("审", "过了", true, "2024-05-01 12:00");
    assert_eq!(state_line(&t, &f), "2 个步骤都走过了");
}

#[test]
fn gates_are_added_once() {
    let mut t = task();
    let new = vec!["新闸门".to_string(), "老闸门".to_string(), "新闸门".to_string()];
    write_gates(&mut t, &new);
    assert_eq!(t.gates(), vec!["老闸门", "新闸门"]);
    write_gates(&mut t, &new);
    assert_eq!(t.gates(), vec!["老闸门", "新闸门"]);
    write_gates(&mut t, &Vec::new());
    assert_eq!(t.gates(), vec!["老闸门", "新闸门"]);
}

#[test]
fn bars_have_ten_cells() {
    assert_eq!(bar(1, 3), "[███░░░░░░░] 1/3");
    assert_eq!(bar(0, 0), "[░░░░░░░░░░] 0/0");
    assert_eq!(bar(3, 3), "[██████████] 3/3");
    assert_eq!(bar(5, 3), "[██████████] 5/3");
}

#[test]
fn context_is_relative_where_it_can_be() {
    assert_eq!(
        context("/ws", "/ws/data", Some("/flows")),
        vec![
            ("root".to_string(), "/ws".to_string()),
            ("data".to_string(), "data".to_string()),
            ("workflows".to_string(), "/flows".to_string()),
        ]
    );
    assert_eq!(context("/ws", "/other", None)[2].1, "");
}

#[test]
fn reopening_prefers_the_command_line() {
    let recorded = map(vec![("root", s("~/ws")), ("workflows", s("flows"))]);
    let t = reopen("/d", "甲", None, None, recorded, true, Some("/home/me"), "/found");
    assert_eq!(t.root, "/home/me/ws");
    assert_eq!(t.workflows, Some("/home/me/ws/flows".to_string()));
    let recorded = map(vec![("workflows", s("/abs/flows"))]);
    let t = reopen("/d", "甲", Some("/given"), None, recorded, true, None, "/found");
    assert_eq!(t.root, "/given");
    assert_eq!(t.workflows, Some("/abs/flows".to_string()));
    let t = reopen("/d", "甲", None, Some("/cli"), Yaml::Null, false, None, "/found");
    assert_eq!(t.root, "/found");
    assert_eq!(t.workflows, Some("/cli".to_string()));
}

#[test]
fn placeholders_become_paths_relative_to_the_root() {
    let t = task();
    assert_eq!(
        expand(&t, "看 {{report}} 与 {{journal}}，记在 {{log}}，放 {{artifacts}}，{{未知}} 照写，{{没关"),
        "看 docs/r.md 与 data/artifacts/journal/甲.md，记在 data/tasks/甲.yaml，放 data/artifacts，{{未知}} 照写，{{没关"
    );
    assert_eq!(expand(&t, "没有占位"), "没有占位");
}
