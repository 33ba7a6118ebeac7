use qtcloud_work::check::{all_ok, check, describe, inside, sections, Finding};
use qtcloud_work::yaml::Yaml;
use qtcloud_work::workflow::Workflow;

fn s(text: &str) -> Yaml {
    Yaml::Str(text.to_string())
}

fn map(pairs: Vec<(&str, Yaml)>) -> Yaml {
    Yaml::Mapping(pairs.into_iter().map(|(k, v)| (s(k), v)).collect())
}

#[test]
fn sections_only_takes_clean_names() {
    assert_eq!(sections("看「报告」与##方法 两节"), vec!["报告", "方法"]);
    assert!(sections("「这句话是很长的叙述，不当小节名」").is_empty());
    assert!(sections("版本号 ## [0.1.0] 不算").is_empty());
}

#[test]
fn inside_rejects_escaping_paths() {
    let root = "/repo";
    assert!(inside(root, "docs/index.md"));
    assert!(inside(root, "<相对工作区的路径>"));
    assert!(!inside(root, "../outside.md"));
    assert!(inside(root, "/repo/docs/index.md"));
    assert!(!inside(root, "/elsewhere/index.md"));
}

#[test]
fn sections_keep_order_of_appearance_and_each_once() {
    assert_eq!(sections("##甲 然后「乙」再 ##甲 与「丙」"), vec!["甲", "乙", "丙"]);
    assert_eq!(sections("「乙」在前 ##甲"), vec!["乙", "甲"]);
    assert!(sections("没有小节").is_empty());
    assert!(sections("「没关上").is_empty());
}

#[test]
fn check_reports_paths_and_sections() {
    let flow = Workflow::of(&map(vec![
        ("name", s("流")),
        (
            "steps",
            Yaml::List(vec![map(vec![
                ("name", s("写")),
                ("description", s("写好「方法」与「结论」")),
                (
                    "criteria",
                    Yaml::List(vec![
                        map(vec![("executor", s("rule")), ("file", s("docs/a.md")), ("contains", s("## 方法"))]),
                        map(vec![("executor", s("rule")), ("path", s("../x.md"))]),
                        map(vec![("executor", s("rule")), ("path", s("{{report}}"))]),
                    ]),
                ),
            ])]),
        ),
    ]));
    let found = check(&flow, "/repo");
    assert_eq!(found.len(), 4);
    assert_eq!(found[0].where_, "写·docs/a.md");
    assert_eq!(found[0].what, "判据里的路径在工作区内：docs/a.md");
    assert!(found[0].ok);
    assert_eq!(found[1].where_, "写·../x.md");
    assert!(!found[1].ok);
    assert_eq!(found[2].where_, "写·description");
    assert_eq!(found[2].what, "描述点到的小节有 contains 判据覆盖：方法");
    assert!(found[2].ok);
    assert_eq!(found[3].what, "描述点到的小节有 contains 判据覆盖：结论");
    assert!(!found[3].ok);
    assert!(!all_ok(&found));
}

#[test]
fn describe_counts_and_marks() {
    let found = vec![
        Finding { where_: "甲".to_string(), what: "核一".to_string(), ok: true },
        Finding { where_: "乙".to_string(), what: "核二".to_string(), ok: false },
    ];
    assert_eq!(describe(&found), vec!["核对 2 件事", "  ✓ 甲——核一", "  ✗ 乙——核二"]);
    assert_eq!(describe(&Vec::new()), vec!["核对 0 件事", "  （这条定义里没有可核对的路径与小节）"]);
    assert!(all_ok(&Vec::new()));
    assert!(all_ok(&found[..1].iter().map(|f| Finding { where_: f.where_.clone(), what: f.what.clone(), ok: f.ok }).collect()));
}
