use qtcloud_work::ledger::{append, deletable, open_order, order_name};
use qtcloud_work::order::{append_check, validate, validate_records, validate_yaml, WorkOrder, WorkRecord};
use qtcloud_work::progress::{done_steps, finished, next_step, pending_gates, state_line};
use qtcloud_work::workflow::Workflow;
use qtcloud_work::yaml::Yaml;

const ORDER: &str = "00000000-0000-0000-0000-00000000000a";
const FLOW: &str = "00000000-0000-0000-0000-00000000000f";

fn id(n: u32) -> String {
    format!("00000000-0000-0000-0000-{:012}", n)
}

fn s(text: &str) -> Yaml {
    Yaml::Str(text.to_string())
}

fn map(pairs: Vec<(&str, Yaml)>) -> Yaml {
    Yaml::Mapping(pairs.into_iter().map(|(k, v)| (s(k), v)).collect())
}

fn flow() -> Workflow {
    let payload = map(vec![
        ("name", s("流")),
        ("description", s("两步")),
        (
            "steps",
            Yaml::List(vec![
                map(vec![("name", s("写"))]),
                map(vec![
                    ("name", s("审")),
                    ("executor", s("human")),
                    (
                        "criteria",
                        Yaml::List(vec![map(vec![("executor", s("human")), ("description", s(" 主编拍板 "))])]),
                    ),
                ]),
            ]),
        ),
    ]);
    Workflow::of(&payload).credentials("ws-1")
}

fn blank() -> WorkOrder {
    WorkOrder {
        id: ORDER.to_string(),
        name: "单".to_string(),
        description: "做一件事".to_string(),
        workflow_id: FLOW.to_string(),
        created_at: "2024-05-01T09:00:00".to_string(),
        records: Vec::new(),
    }
}

fn record(n: u32, seq: usize, at: &str, step: &str, ok: bool) -> WorkRecord {
    WorkRecord {
        id: id(n),
        seq,
        created_at: at.to_string(),
        order_id: ORDER.to_string(),
        step: step.to_string(),
        step_id: id(100 + n),
        description: "一句".to_string(),
        is_succeeded: ok,
    }
}

#[test]
fn a_written_order_reads_back_the_same() {
    let mut order = blank();
    order.records.push(record(1, 1, "2024-05-01T10:00:00", "写", true));
    let again = WorkOrder::of(&order.to_yaml());
    assert_eq!(again.id, order.id);
    assert_eq!(again.name, order.name);
    assert_eq!(again.description, order.description);
    assert_eq!(again.workflow_id, order.workflow_id);
    assert_eq!(again.created_at, order.created_at);
    assert_eq!(again.records.len(), 1);
    let r = &again.records[0];
    assert_eq!((r.id.as_str(), r.seq, r.step.as_str(), r.is_succeeded), (id(1).as_str(), 1, "写", true));
    assert_eq!(r.step_id, id(101));
}

#[test]
fn reading_trims_and_fills_defaults() {
    let payload = map(vec![
        ("id", s(" x ")),
        ("records", Yaml::List(vec![map(vec![("step", s(" 写 "))])])),
    ]);
    let order = WorkOrder::of(&payload);
    assert_eq!(order.id, "x");
    assert_eq!(order.name, "");
    assert_eq!(order.records[0].step, "写");
    assert_eq!(order.records[0].seq, 0);
    assert!(!order.records[0].is_succeeded);
    assert!(WorkOrder::of(&Yaml::Null).records.is_empty());
}

#[test]
fn validate_names_the_first_fault_of_the_cover() {
    let mut order = blank();
    assert_eq!(validate(&order, "账"), Ok(()));
    order.created_at = String::new();
    assert_eq!(validate(&order, "账"), Err("账少了 created_at".to_string()));
    order.workflow_id = "x".to_string();
    assert_eq!(validate(&order, "账"), Err("账少了 workflow_id，或 workflow_id 不是 UUID".to_string()));
    order.name = String::new();
    assert_eq!(validate(&order, "账"), Err("账少了 name".to_string()));
    order.id = "x".to_string();
    assert_eq!(validate(&order, "账"), Err("账少了 id，或 id 不是 UUID".to_string()));
}

#[test]
fn validate_records_keeps_the_ledger_rules() {
    let good = vec![record(1, 1, "2024-05-01T10:00:00", "写", true), record(2, 2, "2024-05-01T11:00:00", "审", false)];
    assert_eq!(validate_records(&good, ORDER, "账"), Ok(()));

    let mut dup = good.clone_records();
    dup[1].id = id(1);
    assert_eq!(validate_records(&dup, ORDER, "账"), Err(format!("账第 2 笔的 id 撞号：{}（账被复制）", id(1))));

    let mut gap = good.clone_records();
    gap[1].seq = 3;
    assert_eq!(validate_records(&gap, ORDER, "账"), Err("账第 2 笔的 seq 应当是从 1 起不跳号的页码，实得 3".to_string()));

    let mut back = good.clone_records();
    back[1].created_at = "2024-05-01T09:59:59".to_string();
    assert_eq!(validate_records(&back, ORDER, "账"), Err("账第 2 笔的时刻早于上一笔（账本时间倒流）".to_string()));

    let mut other = good.clone_records();
    other[0].order_id = FLOW.to_string();
    assert_eq!(validate_records(&other, ORDER, "账"), Err("账第 1 笔的 order_id 与工单对不上".to_string()));

    let mut nameless = good.clone_records();
    nameless[0].step = String::new();
    assert_eq!(validate_records(&nameless, ORDER, "账"), Err("账第 1 笔少了 step（按名指认的一站）".to_string()));

    let mut no_step_id = good.clone_records();
    no_step_id[0].step_id = "x".to_string();
    assert_eq!(validate_records(&no_step_id, ORDER, "账"), Err("账第 1 笔少了 step_id，或 step_id 不是 UUID".to_string()));

    let mut no_id = good.clone_records();
    no_id[0].id = String::new();
    assert_eq!(validate_records(&no_id, ORDER, "账"), Err("账第 1 笔少了 id，或 id 不是 UUID".to_string()));

    let mut no_time = good.clone_records();
    no_time[0].created_at = String::new();
    assert_eq!(validate_records(&no_time, ORDER, "账"), Err("账第 1 笔少了 created_at".to_string()));
}

trait CloneRecords {
    fn clone_records(&self) -> Vec<WorkRecord>;
}

impl CloneRecords for Vec<WorkRecord> {
    fn clone_records(&self) -> Vec<WorkRecord> {
        self.iter().map(|r| r.copy()).collect()
    }
}

#[test]
fn validate_yaml_refuses_unknown_fields_and_non_mappings() {
    assert_eq!(validate_yaml(&Yaml::Null, "f.yaml").err(), Some("f.yaml的顶层不是映射".to_string()));
    let odd = map(vec![("id", s(ORDER)), ("color", s("红")), ("size", s("大"))]);
    assert_eq!(
        validate_yaml(&odd, "f.yaml").err(),
        Some("f.yaml有不认识的字段：color、size（只认 id、name、description、workflow_id、created_at、records）".to_string())
    );
    let fine = blank().to_yaml();
    assert_eq!(validate_yaml(&fine, "f.yaml").map(|o| o.name), Ok("单".to_string()));
}

#[test]
fn append_check_refuses_bad_and_replayed_ids() {
    let mut order = blank();
    order.records.push(record(1, 1, "2024-05-01T10:00:00", "写", true));
    assert_eq!(append_check(&order, "nope"), Err("记录的 id 得是 UUID（幂等键）".to_string()));
    assert_eq!(append_check(&order, &id(1)), Err(format!("这条记录已经在账上了：{}（视作重放）", id(1))));
    assert_eq!(append_check(&order, &id(2)), Ok(()));
}

#[test]
fn append_numbers_pages_and_fills_ids() {
    let flow = flow();
    let mut order = blank();
    let first = append(&mut order, &flow, &id(1), "写", "  写好了 ", true, "2024-05-01T10:00:00").unwrap();
    assert_eq!(first.seq, 1);
    assert_eq!(first.order_id, ORDER);
    assert_eq!(first.description, "写好了");
    assert_eq!(first.step_id, flow.steps[0].id);
    let second = append(&mut order, &flow, &id(2), "审", "", false, "2024-05-01T10:00:00").unwrap();
    assert_eq!(second.seq, 2);
    assert_eq!(order.records.len(), 2);
    assert_eq!(validate(&order, "工单"), Ok(()));
}

#[test]
fn append_refuses_and_leaves_the_ledger_alone() {
    let flow = flow();
    let mut order = blank();
    append(&mut order, &flow, &id(1), "写", "", true, "2024-05-01T10:00:00").unwrap();
    assert_eq!(
        append(&mut order, &flow, &id(1), "写", "", true, "2024-05-01T11:00:00").err(),
        Some(format!("这条记录已经在账上了：{}（视作重放）", id(1)))
    );
    assert_eq!(
        append(&mut order, &flow, &id(2), "飞", "", true, "2024-05-01T11:00:00").err(),
        Some("所引工作流里没有这一步：飞（先看看定义）".to_string())
    );
    assert_eq!(
        append(&mut order, &flow, &id(2), "审", "", true, "2024-05-01T09:00:00").err(),
        Some("时间倒序：新记录（2024-05-01T09:00:00）早于末条（2024-05-01T10:00:00）".to_string())
    );
    assert_eq!(order.records.len(), 1);
}

#[test]
fn append_with_an_empty_moment_fails_the_whole_check() {
    let flow = flow();
    let mut order = blank();
    assert_eq!(
        append(&mut order, &flow, &id(1), "写", "", true, "").err(),
        Some("工单第 1 笔少了 created_at".to_string())
    );
}

#[test]
fn only_blank_orders_may_be_deleted() {
    let mut order = blank();
    assert_eq!(deletable(&order), Ok(()));
    order.records.push(record(1, 1, "2024-05-01T10:00:00", "写", true));
    assert_eq!(deletable(&order), Err("有账不销：这单已经有 1 笔流水，删不得".to_string()));
}

#[test]
fn opening_an_order_trims_and_checks() {
    assert_eq!(order_name("  单 "), Ok("单".to_string()));
    assert_eq!(order_name("   "), Err("请先给这单起个名字".to_string()));
    let opened = open_order(ORDER, " 单 ", FLOW, " 描述 ", "2024-05-01T09:00:00").unwrap();
    assert_eq!((opened.name.as_str(), opened.description.as_str()), ("单", "描述"));
    assert!(opened.records.is_empty());
    assert_eq!(open_order("x", "单", FLOW, "", "t").err(), Some("工单少了 id，或 id 不是 UUID".to_string()));
}

#[test]
fn progress_is_derived_from_the_ledger() {
    let flow = flow();
    let mut order = blank();
    assert_eq!(state_line(&order, &flow), "进度：0/2　下一步：写");
    assert_eq!(pending_gates(&order, &flow), vec!["审：主编拍板"]);
    append(&mut order, &flow, &id(1), "写", "", false, "2024-05-01T10:00:00").unwrap();
    assert!(done_steps(&order, &flow).is_empty());
    append(&mut order, &flow, &id(2), "写", "", true, "2024-05-01T10:00:01").unwrap();
    assert_eq!(done_steps(&order, &flow), vec!["写"]);
    assert_eq!(next_step(&order, &flow).map(|s| s.name), Some("审".to_string()));
    assert!(!finished(&order, &flow));
    append(&mut order, &flow, &id(3), "审", "放行", true, "2024-05-01T10:00:02").unwrap();
    assert!(finished(&order, &flow));
    assert!(next_step(&order, &flow).is_none());
    assert!(pending_gates(&order, &flow).is_empty());
    assert_eq!(state_line(&order, &flow), "走完了：2 个步骤都过了");
    let empty = Workflow::of(&map(vec![("name", s("空"))]));
    assert!(!finished(&order, &empty));
    assert_eq!(state_line(&order, &empty), "这条工作流没有步骤：空");
}
