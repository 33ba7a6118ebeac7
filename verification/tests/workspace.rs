use qtcloud_work::artifact::{assets, candidates, locate_pattern, make_plan, missing, repo_matches, Asset};
use qtcloud_work::catalog::{build, cn_name, short as catalog_short, title_of, Catalog, Document, Located};
use qtcloud_work::criterion::{expand as expand_text, Criterion};
use qtcloud_work::help::{guide_lines, topic};
use qtcloud_work::locate::{place, root_name, short, workflows_dir, Artifact, Locate};
use qtcloud_work::material::{as_material, materials, stage_of, stem_date, Material, Source};
use qtcloud_work::order::WorkOrder;
use qtcloud_work::records::{journal_template, replace_section, report_template};
use qtcloud_work::schema::validate;
use qtcloud_work::yaml::Yaml;

fn s(text: &str) -> Yaml {
    Yaml::Str(text.to_string())
}

fn map(pairs: Vec<(&str, Yaml)>) -> Yaml {
    Yaml::Mapping(pairs.into_iter().map(|(k, v)| (s(k), v)).collect())
}

#[test]
fn templates_have_their_sections() {
    assert_eq!(report_template("甲"), "# 报告：甲\n\n## 执行记录\n\n## 闸门项\n");
    assert_eq!(report_template(""), "# 报告：<任务的名字>\n\n## 执行记录\n\n## 闸门项\n");
    assert_eq!(journal_template("甲"), "# 日志：甲\n\n（这个任务的来龙去脉，你写）\n");
}

#[test]
fn replacing_a_section_keeps_the_others() {
    let text = report_template("甲");
    let body = vec!["- 写 ✓".to_string(), "- 审 ✗".to_string()];
    assert_eq!(
        replace_section(&text, "执行记录", &body),
        "# 报告：甲\n\n## 执行记录\n\n- 写 ✓\n- 审 ✗\n\n## 闸门项\n"
    );
    assert_eq!(replace_section(&text, "闸门项", &vec!["等人".to_string()]), "# 报告：甲\n\n## 执行记录\n\n## 闸门项\n\n等人\n");
    assert_eq!(replace_section("# 空\n\n", "新节", &Vec::new()), "# 空\n\n## 新节\n\n\n");
}

#[test]
fn topics_give_a_point() {
    assert_eq!(
        topic(" task "),
        Some(vec![
            "task --list——有哪些任务、下一步（任务（执行侧））".to_string(),
            "细则看 `qtcloud-work task --help`，契约看 docs/api-references/task.md".to_string(),
        ])
    );
    assert_eq!(topic("nothing"), None);
    assert_eq!(topic(""), None);
    let lines = guide_lines();
    assert_eq!(lines[0], "量潮工作云命令行——把知识工作做成可执行的编排。");
    assert_eq!(lines[2], "工作区");
    assert_eq!(lines[3], format!("  {:42} {}", "find <名字> [--show]", "按名找文档"));
    assert_eq!(lines.len(), 2 + 6 + 8 + 8 + 4 + 2);
}

#[test]
fn assets_and_where_they_lie() {
    let all = assets();
    assert_eq!(all.len(), 20);
    assert_eq!((all[0].category.as_str(), all[0].name.as_str()), ("报告", "report"));
    assert_eq!(all[19].name, "example");
    assert_eq!(locate_pattern("toolkit"), Some(("packages", "-toolkit")));
    assert_eq!(locate_pattern("report"), None);
    assert_eq!(candidates("/ws", &all[0]), vec!["/ws/data/report", "/ws/docs/report"]);
    assert!(repo_matches("qtcloud-toolkit", "-toolkit"));
    assert!(!repo_matches(".hidden", ""));
    assert!(repo_matches("web", ""));
    let mut found = vec![true; 20];
    found[1] = false;
    found[13] = false;
    let gone = missing(&found);
    assert_eq!(gone.iter().map(|a| a.name.as_str()).collect::<Vec<_>>(), vec!["library", "toolkit"]);
    let plan = make_plan("/ws", &gone);
    assert_eq!(
        plan,
        vec![("/ws/data/library".to_string(), "/ws/data/library/README.md".to_string(), "# 量潮知识工作参考\n".to_string())]
    );
    let bylaw = Asset { category: "章程".to_string(), name: "bylaw".to_string() };
    assert_eq!(make_plan("/ws", &vec![bylaw])[0].0, "/ws/docs/bylaw");
}

#[test]
fn the_catalog_names_entries() {
    assert_eq!(title_of("正文\n# 标题 \n# 第二个"), Some("标题".to_string()));
    assert_eq!(title_of("## 二级"), None);
    assert_eq!(cn_name(Some("# 量潮课堂 \n")), Some("量潮课堂".to_string()));
    assert_eq!(cn_name(Some("说明：量潮知识工作第二大脑——一个仓库\n")), Some("量潮知识工作第二大脑".to_string()));
    assert_eq!(cn_name(Some("没有名字")), None);
    assert_eq!(cn_name(None), None);
    assert_eq!(catalog_short("/ws", "/ws/data/x.md"), "data/x.md");
    let found = vec![Located {
        asset: Asset { category: "报告".to_string(), name: "report".to_string() },
        path: "/ws/data/report".to_string(),
        readme: Some("# 量潮报告".to_string()),
        documents: vec![Document { path: "/ws/data/report/a.md".to_string(), text: Some("# 甲篇".to_string()) }],
    }];
    let catalog: Catalog = build(&found);
    assert_eq!(catalog.entries.len(), 2);
    let mut names = catalog.entries[0].names.clone();
    names.sort();
    assert_eq!(names, vec!["report", "报告", "量潮报告"]);
    let mut doc = catalog.entries[1].names.clone();
    doc.sort();
    assert_eq!(doc, vec!["a", "甲篇"]);
    assert_eq!(catalog.entries[1].kind, "报告");
}

#[test]
fn materials_fill_their_fields() {
    assert_eq!(stem_date("2024-05-01-会议"), "2024-05-01");
    assert_eq!(stem_date("会议-2024"), "");
    assert_eq!(stage_of("/ws", "/ws/data/journal/a.md"), "原始");
    assert_eq!(stage_of("/ws", "/ws/data/profile/a.md"), "材料");
    assert_eq!(stage_of("/ws", "/other/journal/a.md"), "材料");
    let m: Material = as_material("/ws", "/ws/data/journal/2024-05-01-x.md", Some("# 题\n正文\n第二行"), None);
    assert_eq!(m.kind, "md");
    assert_eq!(m.content, "正文 第二行");
    assert_eq!(m.source, "journal/2024-05-01-x.md");
    assert_eq!(m.created_at, "2024-05-01");
    assert_eq!(m.stage, "原始");
    assert!(m.missing().is_empty());
    let long = "字".repeat(41);
    let m = as_material("/ws", "/ws/a.md", Some(long.as_str()), Some("2023-01-02"));
    assert_eq!(m.content, format!("{}…", "字".repeat(40)));
    assert_eq!(m.created_at, "2023-01-02");
    let bare = as_material("/ws", "/ws/b.png", Some("x"), None);
    assert_eq!(bare.missing(), vec!["内容", "时间"]);
    let listed = materials(
        "/ws",
        &vec![Source { rel: "a.md".to_string(), path: "/ws/a.md".to_string(), text: None, first_commit: None }],
    );
    assert_eq!(listed[0].0, "a.md");
    assert_eq!(listed[0].1.missing(), vec!["内容", "时间"]);
}

#[test]
fn a_load_knows_its_places() {
    let l = Locate::resolve("/ws", "/ledger", None, None);
    assert_eq!(l.artifacts, "/ws/artifacts");
    assert_eq!(l.workflows_dir(), "/ledger/workflows");
    assert_eq!(l.workorders_dir(), "/ledger/workorders");
    assert_eq!(l.identity_file(), "/ledger/workspace.yaml");
    assert_eq!(l.events_file(), "/ledger/events.jsonl");
    let order = WorkOrder::of(&map(vec![("name", s("单"))]));
    assert_eq!(l.order_file(&order), "/ledger/workorders/单.yaml");
    assert_eq!(l.artifact_path("report", "单"), "/ws/artifacts/report/单.md");
    let l = Locate::resolve("/ws", "/ledger", Some("/flows"), Some("/out"));
    assert_eq!(l.workflows_dir(), "/flows");
    assert_eq!(l.artifacts, "/out");
    assert_eq!(place(&Artifact::named("journal"), "单"), "journal/单.md");
    assert_eq!(workflows_dir("/d", None), "/d/workflows");
    assert_eq!(short("/ws", "/ws/a/b.md"), "a/b.md");
    assert_eq!(short("/ws/", "/ws/a/b.md"), "a/b.md");
    assert_eq!(short("/ws", "/wsx/a.md"), "/wsx/a.md");
    assert_eq!(root_name("/home/me/brain"), "brain");
    assert_eq!(root_name("/"), "/");
}

#[test]
fn definitions_are_checked_against_the_schema() {
    let good = map(vec![
        ("name", s("流")),
        (
            "steps",
            Yaml::List(vec![map(vec![
                ("name", s("写")),
                ("criteria", Yaml::List(vec![map(vec![("executor", s("rule")), ("path", s("a.md"))])])),
            ])]),
        ),
    ]);
    assert!(validate("f.yaml", &good).is_ok());
    let odd = map(vec![("name", s("流")), ("steps", Yaml::List(Vec::new()))]);
    assert_eq!(validate("f.yaml", &odd).err().map(|e| e.0), Some("f.yaml 少了 steps（至少一个步骤）".to_string()));
}

#[test]
fn criteria_are_read_and_expanded() {
    let c = Criterion::of(&map(vec![("executor", s("rule")), ("file", s("a.md")), ("contains", s("方法"))])).unwrap();
    assert_eq!(c.text(), "含「方法」：a.md");
    assert_eq!(c.executor(), "rule");
    assert!(Criterion::of(&map(vec![("executor", s("rule"))])).is_none());
    assert!(Criterion::of(&map(vec![("executor", s("robot"))])).is_none());
    let table = vec![("report".to_string(), "r.md".to_string())];
    assert_eq!(expand_text("见 {{report}} 与 {{x}}", &table), "见 r.md 与 {{x}}");
    let e = c.expanded(&vec![("方法".to_string(), "m".to_string())]);
    assert_eq!(e.text(), "含「方法」：a.md");
}
