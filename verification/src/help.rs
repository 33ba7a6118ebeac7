//! The guide: the commands grouped by what they are for, one sentence each,
//! and the one-line point of a single command.
use vstd::prelude::*;
use crate::check::take_word;
use crate::text::{trim_spec, trim_start_spec, views};

verus! {

/// A command in the guide: its group, its usage and what it does.
pub struct Command {
    pub group: String,
    pub usage: String,
    pub what: String,
}

/// The mathematical value of a command in the guide.
pub struct CommandV {
    pub group: Seq<char>,
    pub usage: Seq<char>,
    pub what: Seq<char>,
}

impl View for Command {
    type V = CommandV;

    open spec fn view(&self) -> CommandV {
        CommandV { group: self.group@, usage: self.usage@, what: self.what@ }
    }
}

/// A command of the guide.
pub open spec fn cmd(group: Seq<char>, usage: Seq<char>, what: Seq<char>) -> CommandV {
    CommandV { group, usage, what }
}

/// The commands of the guide, group by group.
pub open spec fn commands_spec() -> Seq<CommandV> {
    seq![
        cmd("工作区"@, "find <名字> [--show]"@, "按名找文档"@),
        cmd("工作区"@, "catalog"@, "按资产种类列条目"@),
        cmd("工作区"@, "audit [--make]"@, "审计资产表与工作区"@),
        cmd("工作区"@, "material [<路径>…]"@, "材料的四字段与阶段"@),
        cmd("工作流（定义侧）"@, "workflow --list"@, "有哪些工作流"@),
        cmd("工作流（定义侧）"@, "workflow --new <名字> --steps 甲,乙"@, "写一条工作流"@),
        cmd("工作流（定义侧）"@, "workflow <名字>"@, "看步骤、谁执行、几条判据"@),
        cmd("工作流（定义侧）"@, "workflow <名字> --check"@, "核对判据里的路径与描述里的小节"@),
        cmd("工作流（定义侧）"@, "workflow <名字> --export <文件>"@, "原样带走一份"@),
        cmd("工作流（定义侧）"@, "workflow --import <文件> [--as 名字]"@, "导进来一份"@),
        cmd("任务（执行侧）"@, "task --list"@, "有哪些任务、下一步"@),
        cmd("任务（执行侧）"@, "task --new <名字> --workflow <工作流>"@, "起一件任务"@),
        cmd("任务（执行侧）"@, "task <名字>"@, "步骤状态与流水"@),
        cmd("任务（执行侧）"@, "task <名字> --next"@, "走下一步"@),
        cmd("任务（执行侧）"@, "task <名字> --done <步骤> [--note 一句话]"@, "人为地记一步"@),
        cmd("任务（执行侧）"@, "task <名字> --journal <一段话>"@, "日志收叙事"@),
        cmd("其他"@, "health"@, "探活已部署的 provider"@),
        cmd("其他"@, "help"@, "这份导览"@),
    ]
}

/// A command of the guide.
fn command(group: &str, usage: &str, what: &str) -> (r: Command)
    ensures
        r@ == cmd(group@, usage@, what@),
{
    Command { group: String::from_str(group), usage: String::from_str(usage), what: String::from_str(what) }
}

/// The commands of the guide, group by group.
pub fn commands() -> (r: Vec<Command>)
    ensures
        r@.map_values(|c: Command| c@) == commands_spec(),
{
    let out = vec![
        command("工作区", "find <名字> [--show]", "按名找文档"),
        command("工作区", "catalog", "按资产种类列条目"),
        command("工作区", "audit [--make]", "审计资产表与工作区"),
        command("工作区", "material [<路径>…]", "材料的四字段与阶段"),
        command("工作流（定义侧）", "workflow --list", "有哪些工作流"),
        command("工作流（定义侧）", "workflow --new <名字> --steps 甲,乙", "写一条工作流"),
        command("工作流（定义侧）", "workflow <名字>", "看步骤、谁执行、几条判据"),
        command("工作流（定义侧）", "workflow <名字> --check", "核对判据里的路径与描述里的小节"),
        command("工作流（定义侧）", "workflow <名字> --export <文件>", "原样带走一份"),
        command("工作流（定义侧）", "workflow --import <文件> [--as 名字]", "导进来一份"),
        command("任务（执行侧）", "task --list", "有哪些任务、下一步"),
        command("任务（执行侧）", "task --new <名字> --workflow <工作流>", "起一件任务"),
        command("任务（执行侧）", "task <名字>", "步骤状态与流水"),
        command("任务（执行侧）", "task <名字> --next", "走下一步"),
        command("任务（执行侧）", "task <名字> --done <步骤> [--note 一句话]", "人为地记一步"),
        command("任务（执行侧）", "task <名字> --journal <一段话>", "日志收叙事"),
        command("其他", "health", "探活已部署的 provider"),
        command("其他", "help", "这份导览"),
    ];
    assert(out@.map_values(|c: Command| c@) =~= commands_spec());
    out
}

/// The first index from `k` of a command whose usage starts with the word `name`.
pub open spec fn topic_from(cs: Seq<CommandV>, name: Seq<char>, k: int) -> Option<int>
    decreases cs.len() - k,
{
    if k < 0 || k >= cs.len() {
        None
    } else if take_word(trim_start_spec(cs[k].usage)) == name {
        Some(k)
    } else {
        topic_from(cs, name, k + 1)
    }
}

/// The point of a command: its usage, what it does and its group, and where
/// to read more; `None` for a topic the guide does not have.
pub open spec fn topic_spec(name: Seq<char>) -> Option<Seq<Seq<char>>> {
    let n = trim_spec(name);
    match topic_from(commands_spec(), n, 0) {
        Some(k) => {
            let c = commands_spec()[k];
            Some(
                seq![
                    c.usage + "——"@ + c.what + "（"@ + c.group + "）"@,
                    "细则看 `qtcloud-work "@ + n + " --help`，契约看 docs/api-references/"@ + n + ".md"@,
                ],
            )
        },
        None => None,
    }
}

/// The point of a command.
pub fn topic(name: &str) -> (r: Option<Vec<String>>)
    ensures
        match topic_spec(name@) {
            Some(lines) => r is Some && views(r->0@) == lines,
            None => r is None,
        },
{
    let n = crate::text::trim(name);
    let cs = commands();
    let ghost cv = cs@.map_values(|c: Command| c@);
    let mut i: usize = 0;
    while i < cs.len()
        invariant
            i <= cs@.len(),
            cv == cs@.map_values(|c: Command| c@),
            cv == commands_spec(),
            n@ == trim_spec(name@),
            topic_from(cv, n@, 0) == topic_from(cv, n@, i as int),
        decreases cs@.len() - i,
    {
        let word = crate::check::first_word(crate::text::trim_start(cs[i].usage.as_str()).as_str());
        if crate::yaml::same(word.as_str(), n.as_str()) {
            let c = &cs[i];
            let mut first = c.usage.clone();
            first.append("——");
            first.append(c.what.as_str());
            first.append("（");
            first.append(c.group.as_str());
            first.append("）");
            let mut second = crate::text::cat("细则看 `qtcloud-work ", n.as_str());
            second.append(" --help`，契约看 docs/api-references/");
            second.append(n.as_str());
            second.append(".md");
            let lines = vec![first, second];
            proof {
                assert(cv[i as int] == cs@[i as int]@);
                assert(views(lines@) =~= topic_spec(name@)->0);
            }
            return Some(lines);
        }
        i = i + 1;
    }
    None
}

/// `s` padded with spaces to `width` characters.
pub open spec fn pad_spec(s: Seq<char>, width: nat) -> Seq<char> {
    if s.len() >= width {
        s
    } else {
        s + Seq::new((width - s.len()) as nat, |i: int| ' ')
    }
}

/// The guide line of a command: its usage padded to 42 characters, then what it does.
pub open spec fn item_line(c: CommandV) -> Seq<char> {
    "  "@ + pad_spec(c.usage, 42) + " "@ + c.what
}

/// The lines of one group: its name, its commands, a blank line.
pub open spec fn group_block(group: Seq<char>, items: Seq<CommandV>) -> Seq<Seq<char>> {
    seq![group] + items.map_values(|c: CommandV| item_line(c)) + seq![Seq::empty()]
}

/// The lines of the guide: a title, the groups, and where to read more.
pub open spec fn guide_lines_spec() -> Seq<Seq<char>> {
    let cs = commands_spec();
    seq!["量潮工作云命令行——把知识工作做成可执行的编排。"@, Seq::empty()] + group_block("工作区"@, cs.subrange(0, 4))
        + group_block("工作流（定义侧）"@, cs.subrange(4, 10)) + group_block("任务（执行侧）"@, cs.subrange(10, 16))
        + group_block("其他"@, cs.subrange(16, 18))
        + seq![
            "三处位置：--root 工作区 / --data 数据仓 / --workflows 工作流目录（缺省见 `--help`）。"@,
            "话题：`qtcloud-work help <命令>` 看它一句话要点；`qtcloud-work <命令> --help` 看全部选项。"@,
        ]
}

/// `s` padded with spaces to `width` characters (`{:width}`).
pub(crate) fn pad(s: &str, width: usize) -> (r: String)
    ensures
        r@ == pad_spec(s@, width as nat),
{
    let n = s.unicode_len();
    let mut r = String::from_str(s);
    if n >= width {
        return r;
    }
    let mut k: usize = n;
    while k < width
        invariant
            n <= k <= width,
            n == s@.len(),
            r@ == s@ + Seq::new((k - n) as nat, |i: int| ' '),
        decreases width - k,
    {
        crate::text::push_char(&mut r, ' ');
        assert(r@ =~= s@ + Seq::new((k + 1 - n) as nat, |i: int| ' '));
        k = k + 1;
    }
    r
}

/// Appends the lines of one group.
fn push_group(lines: &mut Vec<String>, group: &str, cs: &Vec<Command>, lo: usize, hi: usize)
    requires
        lo <= hi <= cs@.len(),
    ensures
        views(final(lines)@) == views(old(lines)@) + group_block(group@, cs@.map_values(|c: Command| c@).subrange(lo as int, hi as int)),
{
    let ghost start = views(lines@);
    let ghost items = cs@.map_values(|c: Command| c@).subrange(lo as int, hi as int);
    lines.push(String::from_str(group));
    assert(views(lines@) =~= start + seq![group@]);
    let mut k: usize = lo;
    while k < hi
        invariant
            lo <= k <= hi <= cs@.len(),
            items == cs@.map_values(|c: Command| c@).subrange(lo as int, hi as int),
            views(lines@) =~= start + seq![group@] + items.take(k - lo).map_values(|c: CommandV| item_line(c)),
        decreases hi - k,
    {
        let ghost before = lines@;
        let mut line = crate::text::cat("  ", pad(cs[k].usage.as_str(), 42).as_str());
        line.append(" ");
        line.append(cs[k].what.as_str());
        lines.push(line);
        proof {
            assert(items[k - lo] == cs@[k as int]@);
            assert(views(lines@) =~= views(before).push(line@));
            assert(items.take(k + 1 - lo) =~= items.take(k - lo).push(items[k - lo]));
        }
        k = k + 1;
    }
    assert(items.take(hi - lo) =~= items);
    let ghost before = lines@;
    lines.push(String::new());
    assert(views(lines@) =~= views(before).push(Seq::<char>::empty()));
}

/// The lines of the guide.
pub fn guide_lines() -> (r: Vec<String>)
    ensures
        views(r@) == guide_lines_spec(),
{
    let cs = commands();
    assert(cs@.map_values(|c: Command| c@).len() == cs@.len());
    assert(commands_spec().len() == 18);
    let mut lines: Vec<String> = Vec::new();
    lines.push(String::from_str("量潮工作云命令行——把知识工作做成可执行的编排。"));
    lines.push(String::new());
    assert(views(lines@) =~= seq!["量潮工作云命令行——把知识工作做成可执行的编排。"@, Seq::<char>::empty()]);
    push_group(&mut lines, "工作区", &cs, 0, 4);
    push_group(&mut lines, "工作流（定义侧）", &cs, 4, 10);
    push_group(&mut lines, "任务（执行侧）", &cs, 10, 16);
    push_group(&mut lines, "其他", &cs, 16, 18);
    let ghost before = lines@;
    lines.push(String::from_str("三处位置：--root 工作区 / --data 数据仓 / --workflows 工作流目录（缺省见 `--help`）。"));
    lines.push(String::from_str("话题：`qtcloud-work help <命令>` 看它一句话要点；`qtcloud-work <命令> --help` 看全部选项。"));
    assert(views(lines@) =~= guide_lines_spec());
    lines
}

}
