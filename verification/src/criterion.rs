//! Criteria: how a step counts as done. A rule is checked by the program
//! (a path exists, a path is absent, a file holds a text, a command runs
//! cleanly); an agent criterion is judged by an AI judge; a human one is a
//! gate that only a person may pass.
use vstd::prelude::*;
use crate::text::{find_spec, trim_spec};
use crate::yaml::{Yaml, YamlV, get_spec, str_spec, text_spec};

verus! {

/// One criterion of a step.
pub enum Criterion {
    PathExists { path: String, description: String },
    PathAbsent { path: String, description: String },
    FileContains { file: String, contains: String, description: String },
    CommandRun { run: String, description: String },
    Agent { description: String },
    Human { description: String },
}

/// The mathematical value of a criterion.
pub enum CriterionV {
    PathExists { path: Seq<char>, description: Seq<char> },
    PathAbsent { path: Seq<char>, description: Seq<char> },
    FileContains { file: Seq<char>, contains: Seq<char>, description: Seq<char> },
    CommandRun { run: Seq<char>, description: Seq<char> },
    Agent { description: Seq<char> },
    Human { description: Seq<char> },
}

impl View for Criterion {
    type V = CriterionV;

    open spec fn view(&self) -> CriterionV {
        match self {
            Criterion::PathExists { path, description } => CriterionV::PathExists {
                path: path@,
                description: description@,
            },
            Criterion::PathAbsent { path, description } => CriterionV::PathAbsent {
                path: path@,
                description: description@,
            },
            Criterion::FileContains { file, contains, description } => CriterionV::FileContains {
                file: file@,
                contains: contains@,
                description: description@,
            },
            Criterion::CommandRun { run, description } => CriterionV::CommandRun {
                run: run@,
                description: description@,
            },
            Criterion::Agent { description } => CriterionV::Agent { description: description@ },
            Criterion::Human { description } => CriterionV::Human { description: description@ },
        }
    }
}

/// The string written under `key`, as written.
pub open spec fn raw_spec(c: YamlV, key: Seq<char>) -> Option<Seq<char>> {
    str_spec(get_spec(c, key))
}

/// The string written under `key`, empty when there is none.
pub open spec fn written_spec(c: YamlV, key: Seq<char>) -> Seq<char> {
    match raw_spec(c, key) {
        Some(s) => s,
        None => Seq::empty(),
    }
}

/// The criterion a definition entry stands for: its executor says who judges,
/// a rule's field says how; `None` for an entry that says neither.
pub open spec fn criterion_of(c: YamlV) -> Option<CriterionV> {
    let kind = text_spec(c, "executor"@);
    let d = written_spec(c, "description"@);
    if kind == "rule"@ {
        if raw_spec(c, "path"@) is Some {
            Some(CriterionV::PathExists { path: raw_spec(c, "path"@)->0, description: d })
        } else if raw_spec(c, "absent"@) is Some {
            Some(CriterionV::PathAbsent { path: raw_spec(c, "absent"@)->0, description: d })
        } else if raw_spec(c, "file"@) is Some {
            Some(
                CriterionV::FileContains {
                    file: raw_spec(c, "file"@)->0,
                    contains: written_spec(c, "contains"@),
                    description: d,
                },
            )
        } else if raw_spec(c, "run"@) is Some {
            Some(CriterionV::CommandRun { run: raw_spec(c, "run"@)->0, description: d })
        } else {
            None
        }
    } else if kind == "agent"@ {
        Some(CriterionV::Agent { description: d })
    } else if kind == "human"@ {
        Some(CriterionV::Human { description: d })
    } else {
        None
    }
}

/// The description as written.
pub open spec fn description_spec(c: CriterionV) -> Seq<char> {
    match c {
        CriterionV::PathExists { description, .. } => description,
        CriterionV::PathAbsent { description, .. } => description,
        CriterionV::FileContains { description, .. } => description,
        CriterionV::CommandRun { description, .. } => description,
        CriterionV::Agent { description } => description,
        CriterionV::Human { description } => description,
    }
}

/// Who judges: `rule`, `agent` or `human`.
pub open spec fn executor_spec(c: CriterionV) -> Seq<char> {
    match c {
        CriterionV::Agent { .. } => "agent"@,
        CriterionV::Human { .. } => "human"@,
        _ => "rule"@,
    }
}

/// What a criterion says: the written description, trimmed; when none is
/// written, a sentence made from the rule's field.
pub open spec fn text_spec_of(c: CriterionV) -> Seq<char> {
    let d = trim_spec(description_spec(c));
    if d.len() > 0 {
        d
    } else {
        match c {
            CriterionV::PathExists { path, .. } => "存在："@ + path,
            CriterionV::PathAbsent { path, .. } => "不存在："@ + path,
            CriterionV::FileContains { file, contains, .. } => "含「"@ + contains + "」："@ + file,
            CriterionV::CommandRun { run, .. } => "跑通："@ + run,
            _ => d,
        }
    }
}

/// The replacement for placeholder `name`, if the table has one.
pub open spec fn place_of(table: Seq<(Seq<char>, Seq<char>)>, name: Seq<char>) -> Option<Seq<char>>
    decreases table.len(),
{
    if table.len() == 0 {
        None
    } else if table[0].0 == name {
        Some(table[0].1)
    } else {
        place_of(table.drop_first(), name)
    }
}

/// `s` with every `{{name}}` whose name the table knows replaced by its place;
/// unknown placeholders and an unclosed `{{` stay as written.
pub open spec fn expand_spec(s: Seq<char>, table: Seq<(Seq<char>, Seq<char>)>) -> Seq<char>
    decreases s.len(),
{
    match find_spec(s, "{{"@) {
        None => s,
        Some(at) => if 0 <= at && at + 2 <= s.len() {
            let after = s.subrange(at + 2, s.len() as int);
            let tail = match find_spec(after, "}}"@) {
                Some(end) => if 0 <= end && end + 2 <= after.len() {
                    let name = after.subrange(0, end);
                    let put = match place_of(table, name) {
                        Some(place) => place,
                        None => "{{"@ + name + "}}"@,
                    };
                    put + expand_spec(after.subrange(end + 2, after.len() as int), table)
                } else {
                    Seq::empty()
                },
                None => "{{"@ + expand_spec(after, table),
            };
            s.subrange(0, at) + tail
        } else {
            Seq::empty()
        },
    }
}

/// The views of a placeholder table.
pub open spec fn table_view(t: Seq<(String, String)>) -> Seq<(Seq<char>, Seq<char>)> {
    Seq::new(t.len(), |i: int| (t[i].0@, t[i].1@))
}

/// The replacement for placeholder `name`.
fn place_in(table: &Vec<(String, String)>, name: &str) -> (r: Option<String>)
    ensures
        crate::text::opt_view(r) == place_of(table_view(table@), name@),
{
    let ghost tv = table_view(table@);
    let mut i: usize = 0;
    assert(tv.subrange(0, tv.len() as int) =~= tv);
    while i < table.len()
        invariant
            i <= table@.len(),
            tv == table_view(table@),
            place_of(tv, name@) == place_of(tv.subrange(i as int, tv.len() as int), name@),
        decreases table@.len() - i,
    {
        proof {
            assert(tv.subrange(i as int, tv.len() as int).drop_first() =~= tv.subrange(i + 1, tv.len() as int));
        }
        if crate::yaml::same(table[i].0.as_str(), name) {
            return Some(table[i].1.clone());
        }
        i = i + 1;
    }
    None
}

/// Replaces the placeholders of `s` by the places in `table`.
pub fn expand(s: &str, table: &Vec<(String, String)>) -> (r: String)
    ensures
        r@ == expand_spec(s@, table_view(table@)),
    decreases s@.len(),
{
    proof {
        reveal_strlit("{{");
        reveal_strlit("}}");
        crate::text::lemma_find_bounds(s@, "{{"@, 0);
    }
    let n = s.unicode_len();
    match crate::text::find(s, "{{") {
        None => String::from_str(s),
        Some(at) => {
            let mut out = crate::text::substring(s, 0, at);
            let after = crate::text::substring(s, at + 2, n);
            proof {
                crate::text::lemma_find_bounds(after@, "}}"@, 0);
            }
            let an = after.unicode_len();
            match crate::text::find(after.as_str(), "}}") {
                Some(end) => {
                    let name = crate::text::substring(after.as_str(), 0, end);
                    match place_in(table, name.as_str()) {
                        Some(place) => out.append(place.as_str()),
                        None => {
                            out.append("{{");
                            out.append(name.as_str());
                            out.append("}}");
                        },
                    }
                    let tail = crate::text::substring(after.as_str(), end + 2, an);
                    let rest = expand(tail.as_str(), table);
                    out.append(rest.as_str());
                    out
                },
                None => {
                    out.append("{{");
                    let rest = expand(after.as_str(), table);
                    out.append(rest.as_str());
                    out
                },
            }
        },
    }
}

impl Criterion {
    /// Who judges: `rule`, `agent` or `human`.
    pub fn executor(&self) -> (r: &'static str)
        ensures
            r@ == executor_spec(self@),
    {
        match self {
            Criterion::Agent { .. } => crate::schema::AGENT,
            Criterion::Human { .. } => crate::schema::HUMAN,
            _ => crate::schema::RULE,
        }
    }

    /// The description as written.
    pub fn description(&self) -> (r: &String)
        ensures
            r@ == description_spec(self@),
    {
        match self {
            Criterion::PathExists { description, .. } => description,
            Criterion::PathAbsent { description, .. } => description,
            Criterion::FileContains { description, .. } => description,
            Criterion::CommandRun { description, .. } => description,
            Criterion::Agent { description } => description,
            Criterion::Human { description } => description,
        }
    }

    /// What the criterion says, for people and for prompts.
    pub fn text(&self) -> (r: String)
        ensures
            r@ == text_spec_of(self@),
    {
        let d = crate::text::trim(self.description().as_str());
        if d.unicode_len() > 0 {
            return d;
        }
        match self {
            Criterion::PathExists { path, .. } => crate::text::cat("存在：", path.as_str()),
            Criterion::PathAbsent { path, .. } => crate::text::cat("不存在：", path.as_str()),
            Criterion::FileContains { file, contains, .. } => {
                let mut r = crate::text::cat("含「", contains.as_str());
                r.append("」：");
                r.append(file.as_str());
                r
            },
            Criterion::CommandRun { run, .. } => crate::text::cat("跑通：", run.as_str()),
            _ => d,
        }
    }

    /// A copy of this criterion.
    pub fn copy(&self) -> (r: Criterion)
        ensures
            r@ == self@,
    {
        match self {
            Criterion::PathExists { path, description } => Criterion::PathExists {
                path: path.clone(),
                description: description.clone(),
            },
            Criterion::PathAbsent { path, description } => Criterion::PathAbsent {
                path: path.clone(),
                description: description.clone(),
            },
            Criterion::FileContains { file, contains, description } => Criterion::FileContains {
                file: file.clone(),
                contains: contains.clone(),
                description: description.clone(),
            },
            Criterion::CommandRun { run, description } => Criterion::CommandRun {
                run: run.clone(),
                description: description.clone(),
            },
            Criterion::Agent { description } => Criterion::Agent { description: description.clone() },
            Criterion::Human { description } => Criterion::Human { description: description.clone() },
        }
    }

    /// The criterion a definition entry stands for (`None` when it names no
    /// judge or, for a rule, no way to check).
    pub fn of(c: &Yaml) -> (r: Option<Criterion>)
        ensures
            match criterion_of(c@) {
                Some(v) => r is Some && r->0@ == v,
                None => r is None,
            },
    {
        let kind = crate::yaml::text_of(c, "executor");
        let d = raw_text(c, "description");
        let d = match d {
            Some(s) => s,
            None => String::new(),
        };
        if crate::yaml::same(kind.as_str(), crate::schema::RULE) {
            if let Some(path) = raw_text(c, "path") {
                Some(Criterion::PathExists { path, description: d })
            } else if let Some(path) = raw_text(c, "absent") {
                Some(Criterion::PathAbsent { path, description: d })
            } else if let Some(file) = raw_text(c, "file") {
                let contains = match raw_text(c, "contains") {
                    Some(s) => s,
                    None => String::new(),
                };
                Some(Criterion::FileContains { file, contains, description: d })
            } else if let Some(run) = raw_text(c, "run") {
                Some(Criterion::CommandRun { run, description: d })
            } else {
                None
            }
        } else if crate::yaml::same(kind.as_str(), crate::schema::AGENT) {
            Some(Criterion::Agent { description: d })
        } else if crate::yaml::same(kind.as_str(), crate::schema::HUMAN) {
            Some(Criterion::Human { description: d })
        } else {
            None
        }
    }

    /// This criterion with the placeholders of its texts replaced by the places
    /// in `table`.
    pub fn expanded(&self, table: &Vec<(String, String)>) -> (r: Criterion)
        ensures
            r@ == expanded_spec(self@, table_view(table@)),
    {
        match self {
            Criterion::PathExists { path, description } => Criterion::PathExists {
                path: expand(path.as_str(), table),
                description: expand(description.as_str(), table),
            },
            Criterion::PathAbsent { path, description } => Criterion::PathAbsent {
                path: expand(path.as_str(), table),
                description: expand(description.as_str(), table),
            },
            Criterion::FileContains { file, contains, description } => Criterion::FileContains {
                file: expand(file.as_str(), table),
                contains: expand(contains.as_str(), table),
                description: expand(description.as_str(), table),
            },
            Criterion::CommandRun { run, description } => Criterion::CommandRun {
                run: expand(run.as_str(), table),
                description: expand(description.as_str(), table),
            },
            Criterion::Agent { description } => Criterion::Agent {
                description: expand(description.as_str(), table),
            },
            Criterion::Human { description } => Criterion::Human {
                description: expand(description.as_str(), table),
            },
        }
    }
}

/// A criterion with its texts expanded.
pub open spec fn expanded_spec(c: CriterionV, t: Seq<(Seq<char>, Seq<char>)>) -> CriterionV {
    match c {
        CriterionV::PathExists { path, description } => CriterionV::PathExists {
            path: expand_spec(path, t),
            description: expand_spec(description, t),
        },
        CriterionV::PathAbsent { path, description } => CriterionV::PathAbsent {
            path: expand_spec(path, t),
            description: expand_spec(description, t),
        },
        CriterionV::FileContains { file, contains, description } => CriterionV::FileContains {
            file: expand_spec(file, t),
            contains: expand_spec(contains, t),
            description: expand_spec(description, t),
        },
        CriterionV::CommandRun { run, description } => CriterionV::CommandRun {
            run: expand_spec(run, t),
            description: expand_spec(description, t),
        },
        CriterionV::Agent { description } => CriterionV::Agent { description: expand_spec(description, t) },
        CriterionV::Human { description } => CriterionV::Human { description: expand_spec(description, t) },
    }
}

/// The string written under `key`, untrimmed.
fn raw_text(c: &Yaml, key: &str) -> (r: Option<String>)
    ensures
        crate::text::opt_view(r) == raw_spec(c@, key@),
{
    match c.get(key) {
        Some(v) => match v.as_str() {
            Some(s) => Some(s.clone()),
            None => None,
        },
        None => None,
    }
}


/// A text without `{{` comes out of expansion as it went in.
pub proof fn lemma_expand_plain(s: Seq<char>, table: Seq<(Seq<char>, Seq<char>)>)
    requires
        find_spec(s, "{{"@) is None,
    ensures
        expand_spec(s, table) == s,
{
}

}
