//! The schema of a workflow definition: which fields a document, a step and a
//! criterion may carry, which executors exist, and the one message that names
//! the first thing wrong with a document.
use vstd::prelude::*;
use crate::text::{decimal_spec, join_spec, views};
use crate::yaml::{Yaml, YamlV, get_spec, seq_spec, str_keys, text_spec, entries_view, list_view};

verus! {

/// The executor of a criterion checked by the program itself.
pub const RULE: &'static str = "rule";
/// The executor that is an AI agent.
pub const AGENT: &'static str = "agent";
/// The executor that is a person.
pub const HUMAN: &'static str = "human";

/// A document that is not a workflow, with the reason.
pub struct WorkflowError(pub String);

/// Fields of a document.
pub open spec fn top_fields() -> Seq<Seq<char>> {
    seq!["name"@, "description"@, "steps"@]
}

/// Fields of a step.
pub open spec fn step_fields() -> Seq<Seq<char>> {
    seq!["name"@, "description"@, "executor"@, "criteria"@]
}

/// Fields of a criterion.
pub open spec fn criterion_fields() -> Seq<Seq<char>> {
    seq!["executor"@, "description"@, "path"@, "absent"@, "file"@, "contains"@, "run"@]
}

/// The fields by which a rule says how it checks, in this order.
pub open spec fn rule_fields() -> Seq<Seq<char>> {
    seq!["path"@, "absent"@, "file"@, "contains"@, "run"@]
}

/// The keys not among `allowed`, in order.
pub open spec fn missing_keys(keys: Seq<Seq<char>>, allowed: Seq<Seq<char>>) -> Seq<Seq<char>>
    decreases keys.len(),
{
    if keys.len() == 0 {
        Seq::empty()
    } else {
        let rest = missing_keys(keys.drop_first(), allowed);
        if allowed.contains(keys[0]) {
            rest
        } else {
            seq![keys[0]] + rest
        }
    }
}

/// The string keys of a mapping value that are not among `allowed`.
pub open spec fn unknown_spec(v: YamlV, allowed: Seq<Seq<char>>) -> Seq<Seq<char>> {
    match v {
        YamlV::Mapping(entries) => missing_keys(str_keys(entries), allowed),
        _ => Seq::empty(),
    }
}

/// The names among `names` under which `c` holds a value, in order.
pub open spec fn given_in(c: YamlV, names: Seq<Seq<char>>) -> Seq<Seq<char>>
    decreases names.len(),
{
    if names.len() == 0 {
        Seq::empty()
    } else {
        let rest = given_in(c, names.drop_first());
        if get_spec(c, names[0]) is Some {
            seq![names[0]] + rest
        } else {
            rest
        }
    }
}

/// The rule fields a criterion carries.
pub open spec fn given_spec(c: YamlV) -> Seq<Seq<char>> {
    given_in(c, rule_fields())
}

/// The given fields other than `file` and `contains`.
pub open spec fn others_spec(given: Seq<Seq<char>>) -> Seq<Seq<char>>
    decreases given.len(),
{
    if given.len() == 0 {
        Seq::empty()
    } else {
        let rest = others_spec(given.drop_first());
        if given[0] == "file"@ || given[0] == "contains"@ {
            rest
        } else {
            seq![given[0]] + rest
        }
    }
}

/// How a criterion is named in a message.
pub open spec fn where_spec(index: nat, order: nat) -> Seq<char> {
    "第 "@ + decimal_spec(index) + " 个步骤第 "@ + decimal_spec(order) + " 条判据"@
}

/// What is wrong with a rule, judged by the fields it carries.
pub open spec fn rule_fault(given: Seq<Seq<char>>, where_: Seq<char>) -> Option<Seq<char>> {
    let others = others_spec(given);
    if given.len() == 0 {
        Some(where_ + "是 rule，得写一条判法（path / absent / file+contains / run）"@)
    } else if given.contains("contains"@) && !given.contains("file"@) {
        Some(where_ + "写了 contains，还得写 file"@)
    } else if given.contains("file"@) && !given.contains("contains"@) {
        Some(where_ + "写了 file，还得写 contains"@)
    } else if others.len() > 1 || (others.len() > 0 && given.contains("file"@)) {
        Some(where_ + "的判法只能一种：path / absent / file+contains / run"@)
    } else {
        None
    }
}

/// What is wrong with one criterion (`None` when nothing is).
pub open spec fn criterion_fault(c: YamlV, where_: Seq<char>) -> Option<Seq<char>> {
    let kind = text_spec(c, "executor"@);
    let unknown = unknown_spec(c, criterion_fields());
    let given = given_spec(c);
    if !(kind == "rule"@ || kind == "agent"@ || kind == "human"@) {
        Some(where_ + "的 executor 只能是 rule / agent / human（谁判：规则引擎 / 智能体 / 人）"@)
    } else if !(c is Mapping) {
        Some(where_ + "不是映射"@)
    } else if unknown.len() > 0 {
        Some(
            where_ + "有不认识的字段："@ + join_spec(unknown, "、"@)
                + "（只认 executor、description、path、absent、file、contains、run）"@,
        )
    } else if kind == "rule"@ {
        rule_fault(given, where_)
    } else if text_spec(c, "description"@).len() == 0 {
        Some(where_ + "是 "@ + kind + "，必须写 description（判准 / 要人拍板的事）"@)
    } else if given.len() > 0 {
        Some(where_ + "是 "@ + kind + "，不该带 "@ + join_spec(given, "、"@) + "（那是 rule 的字段）"@)
    } else {
        None
    }
}

/// The first fault among the criteria from position `k` on.
pub open spec fn criteria_fault(items: Seq<YamlV>, index: nat, k: int) -> Option<Seq<char>>
    decreases items.len() - k,
{
    if k < 0 || k >= items.len() {
        None
    } else {
        match criterion_fault(items[k], where_spec(index, (k + 1) as nat)) {
            Some(m) => Some(m),
            None => criteria_fault(items, index, k + 1),
        }
    }
}

/// The executor of a step: as written, `agent` when not written.
pub open spec fn executor_spec(step: YamlV) -> Seq<char> {
    let written = text_spec(step, "executor"@);
    if written.len() == 0 {
        "agent"@
    } else {
        written
    }
}

/// What is wrong with one step, numbered `index` from 1.
pub open spec fn step_fault(step: YamlV, index: nat) -> Option<Seq<char>> {
    let head = "第 "@ + decimal_spec(index);
    let unknown = unknown_spec(step, step_fields());
    let executor = executor_spec(step);
    if !(step is Mapping) || text_spec(step, "name"@).len() == 0 {
        Some(head + " 个步骤少了 name"@)
    } else if unknown.len() > 0 {
        Some(
            head + " 个步骤有不认识的字段："@ + join_spec(unknown, "、"@)
                + "（只认 name、description、executor、criteria）"@,
        )
    } else if !(executor == "agent"@ || executor == "human"@) {
        Some(head + " 个步骤的 executor 只能是 agent 或 human，实得 "@ + executor)
    } else {
        match get_spec(step, "criteria"@) {
            None => None,
            Some(YamlV::Null) => None,
            Some(YamlV::List(items)) => criteria_fault(items, index, 0),
            Some(_) => Some(head + " 个步骤的 criteria 应当是列表"@),
        }
    }
}

/// The first fault among the steps from position `k` on.
pub open spec fn steps_fault(steps: Seq<YamlV>, k: int) -> Option<Seq<char>>
    decreases steps.len() - k,
{
    if k < 0 || k >= steps.len() {
        None
    } else {
        match step_fault(steps[k], (k + 1) as nat) {
            Some(m) => Some(m),
            None => steps_fault(steps, k + 1),
        }
    }
}

/// The first thing wrong with a workflow document, if anything is.
pub open spec fn document_fault(doc: YamlV) -> Option<Seq<char>> {
    let unknown = unknown_spec(doc, top_fields());
    if !(doc is Mapping) {
        Some("的顶层不是映射（name / steps）"@)
    } else if text_spec(doc, "name"@).len() == 0 {
        Some("少了 name"@)
    } else {
        match seq_spec(doc, "steps"@) {
            Some(steps) => if steps.len() == 0 {
                Some("少了 steps（至少一个步骤）"@)
            } else if unknown.len() > 0 {
                Some(
                    "顶层有不认识的字段："@ + join_spec(unknown, "、"@)
                        + "（只认 name、description、steps）"@,
                )
            } else {
                steps_fault(steps, 0)
            },
            None => Some("少了 steps（至少一个步骤）"@),
        }
    }
}

/// A document that follows the schema.
pub open spec fn well_formed(doc: YamlV) -> bool {
    document_fault(doc) is None
}

/// Whether `names` holds `name`.
pub(crate) fn listed(names: &Vec<String>, name: &str) -> (r: bool)
    ensures
        r == views(names@).contains(name@),
{
    let mut i: usize = 0;
    while i < names.len()
        invariant
            i <= names@.len(),
            forall|k: int| 0 <= k < i ==> names@[k]@ != name@,
        decreases names@.len() - i,
    {
        if crate::yaml::same(names[i].as_str(), name) {
            assert(views(names@)[i as int] == name@);
            return true;
        }
        i = i + 1;
    }
    proof {
        if views(names@).contains(name@) {
            let k = choose|k: int| 0 <= k < views(names@).len() && views(names@)[k] == name@;
            assert(names@[k]@ == name@);
        }
    }
    false
}

/// A list of texts from literals.
pub(crate) fn texts(items: &[&str]) -> (r: Vec<String>)
    ensures
        r@.len() == items@.len(),
        forall|k: int| 0 <= k < items@.len() ==> #[trigger] r@[k]@ == items@[k]@,
{
    let mut out: Vec<String> = Vec::new();
    let mut i: usize = 0;
    while i < items.len()
        invariant
            i <= items@.len(),
            out@.len() == i,
            forall|k: int| 0 <= k < i ==> #[trigger] out@[k]@ == items@[k]@,
        decreases items@.len() - i,
    {
        out.push(String::from_str(items[i]));
        i = i + 1;
    }
    out
}

/// The string keys of a mapping value that are not in `allowed`.
pub(crate) fn unknown_fields(v: &Yaml, allowed: &Vec<String>) -> (r: Vec<String>)
    ensures
        views(r@) == unknown_spec(v@, views(allowed@)),
{
    match v.as_mapping() {
        None => {
            let out: Vec<String> = Vec::new();
            assert(views(out@) =~= Seq::<Seq<char>>::empty());
            out
        },
        Some(entries) => {
            let keys = crate::yaml::string_keys(entries);
            let ghost ks = views(keys@);
            let mut out: Vec<String> = Vec::new();
            let mut i: usize = keys.len();
            assert(ks.subrange(ks.len() as int, ks.len() as int) =~= Seq::<Seq<char>>::empty());
            // Walk from the back, collecting the unknown keys in reverse.
            let mut rev: Vec<String> = Vec::new();
            while i > 0
                invariant
                    i <= keys@.len(),
                    ks == views(keys@),
                    missing_keys(ks.subrange(i as int, ks.len() as int), views(allowed@)) == views(rev@).reverse(),
                decreases i,
            {
                i = i - 1;
                let ghost here = ks.subrange(i as int, ks.len() as int);
                proof {
                    assert(here.drop_first() =~= ks.subrange(i + 1, ks.len() as int));
                    assert(here[0] == keys@[i as int]@);
                }
                if !listed(allowed, keys[i].as_str()) {
                    let ghost before = rev@;
                    rev.push(keys[i].clone());
                    proof {
                        assert(views(rev@).reverse() =~= seq![keys@[i as int]@] + views(before).reverse());
                    }
                }
            }
            let mut j: usize = rev.len();
            while j > 0
                invariant
                    j <= rev@.len(),
                    views(out@) == views(rev@).reverse().take(rev@.len() - j),
                decreases j,
            {
                j = j - 1;
                let ghost before = out@;
                out.push(rev[j].clone());
                proof {
                    assert(views(out@) =~= views(before).push(rev@[j as int]@));
                    assert(views(rev@).reverse().take(rev@.len() - j) =~= views(rev@).reverse().take(rev@.len() - j - 1).push(rev@[j as int]@));
                }
            }
            assert(views(rev@).reverse().take(rev@.len() as int) =~= views(rev@).reverse());
            assert(ks.subrange(0, ks.len() as int) =~= ks);
            out
        },
    }
}


/// The names among `names` under which `c` holds a value, in order.
fn present_among(c: &Yaml, names: &Vec<String>) -> (r: Vec<String>)
    ensures
        views(r@) == given_in(c@, views(names@)),
{
    let ghost ns = views(names@);
    let mut out: Vec<String> = Vec::new();
    let mut i: usize = 0;
    assert(ns.subrange(0, ns.len() as int) =~= ns);
    assert(views(out@) =~= Seq::<Seq<char>>::empty());
    while i < names.len()
        invariant
            i <= names@.len(),
            ns == views(names@),
            given_in(c@, ns) == views(out@) + given_in(c@, ns.subrange(i as int, ns.len() as int)),
        decreases names@.len() - i,
    {
        let ghost here = ns.subrange(i as int, ns.len() as int);
        let ghost rest = ns.subrange(i + 1, ns.len() as int);
        let ghost before = out@;
        proof {
            assert(here.drop_first() =~= rest);
            assert(here[0] == names@[i as int]@);
        }
        if c.get(names[i].as_str()).is_some() {
            out.push(names[i].clone());
            proof {
                assert(views(out@) =~= views(before) + seq![names@[i as int]@]);
                assert(views(before) + (seq![names@[i as int]@] + given_in(c@, rest)) =~= views(out@) + given_in(c@, rest));
            }
        }
        i = i + 1;
    }
    assert(ns.subrange(ns.len() as int, ns.len() as int) =~= Seq::<Seq<char>>::empty());
    assert(views(out@) + Seq::<Seq<char>>::empty() =~= views(out@));
    out
}

/// The given fields other than `file` and `contains`.
fn others_of(given: &Vec<String>) -> (r: Vec<String>)
    ensures
        views(r@) == others_spec(views(given@)),
{
    let ghost gs = views(given@);
    let mut out: Vec<String> = Vec::new();
    let mut i: usize = 0;
    assert(gs.subrange(0, gs.len() as int) =~= gs);
    assert(views(out@) =~= Seq::<Seq<char>>::empty());
    while i < given.len()
        invariant
            i <= given@.len(),
            gs == views(given@),
            others_spec(gs) == views(out@) + others_spec(gs.subrange(i as int, gs.len() as int)),
        decreases given@.len() - i,
    {
        let ghost here = gs.subrange(i as int, gs.len() as int);
        let ghost rest = gs.subrange(i + 1, gs.len() as int);
        let ghost before = out@;
        proof {
            assert(here.drop_first() =~= rest);
            assert(here[0] == given@[i as int]@);
        }
        if !crate::yaml::same(given[i].as_str(), "file") && !crate::yaml::same(given[i].as_str(), "contains") {
            out.push(given[i].clone());
            proof {
                assert(views(out@) =~= views(before) + seq![given@[i as int]@]);
                assert(views(before) + (seq![given@[i as int]@] + others_spec(rest)) =~= views(out@) + others_spec(rest));
            }
        }
        i = i + 1;
    }
    assert(gs.subrange(gs.len() as int, gs.len() as int) =~= Seq::<Seq<char>>::empty());
    assert(views(out@) + Seq::<Seq<char>>::empty() =~= views(out@));
    out
}

/// `where_` followed by `tail`.
fn said(where_: &str, tail: &str) -> (r: Option<String>)
    ensures
        r is Some && r->0@ == where_@ + tail@,
{
    Some(crate::text::cat(where_, tail))
}

/// What is wrong with a rule that carries the fields `given`.
fn rule_check(given: &Vec<String>, where_: &str) -> (r: Option<String>)
    ensures
        crate::text::opt_view(r) == rule_fault(views(given@), where_@),
{
    let others = others_of(given);
    let has_contains = listed(given, "contains");
    let has_file = listed(given, "file");
    if given.len() == 0 {
        said(where_, "是 rule，得写一条判法（path / absent / file+contains / run）")
    } else if has_contains && !has_file {
        said(where_, "写了 contains，还得写 file")
    } else if has_file && !has_contains {
        said(where_, "写了 file，还得写 contains")
    } else if others.len() > 1 || (others.len() > 0 && has_file) {
        said(where_, "的判法只能一种：path / absent / file+contains / run")
    } else {
        None
    }
}

/// What is wrong with one criterion.
fn criterion_check(c: &Yaml, where_: &str) -> (r: Option<String>)
    ensures
        crate::text::opt_view(r) == criterion_fault(c@, where_@),
{
    let kind = crate::yaml::text_of(c, "executor");
    let is_rule = crate::yaml::same(kind.as_str(), RULE);
    let is_agent = crate::yaml::same(kind.as_str(), AGENT);
    let is_human = crate::yaml::same(kind.as_str(), HUMAN);
    if !(is_rule || is_agent || is_human) {
        return said(where_, "的 executor 只能是 rule / agent / human（谁判：规则引擎 / 智能体 / 人）");
    }
    if c.as_mapping().is_none() {
        return said(where_, "不是映射");
    }
    let allowed = texts(&["executor", "description", "path", "absent", "file", "contains", "run"]);
    proof {
        assert(views(allowed@) =~= criterion_fields());
    }
    let unknown = unknown_fields(c, &allowed);
    if unknown.len() > 0 {
        let mut m = crate::text::cat(where_, "有不认识的字段：");
        m.append(crate::text::join(&unknown, "、").as_str());
        m.append("（只认 executor、description、path、absent、file、contains、run）");
        return Some(m);
    }
    let names = texts(&["path", "absent", "file", "contains", "run"]);
    proof {
        assert(views(names@) =~= rule_fields());
    }
    let given = present_among(c, &names);
    if is_rule {
        return rule_check(&given, where_);
    }
    let description = crate::yaml::text_of(c, "description");
    if description.unicode_len() == 0 {
        let mut m = crate::text::cat(where_, "是 ");
        m.append(kind.as_str());
        m.append("，必须写 description（判准 / 要人拍板的事）");
        return Some(m);
    }
    if given.len() > 0 {
        let mut m = crate::text::cat(where_, "是 ");
        m.append(kind.as_str());
        m.append("，不该带 ");
        m.append(crate::text::join(&given, "、").as_str());
        m.append("（那是 rule 的字段）");
        return Some(m);
    }
    None
}

/// How a criterion is named in a message.
fn where_of(index: usize, order: usize) -> (r: String)
    ensures
        r@ == where_spec(index as nat, order as nat),
{
    let mut m = crate::text::cat("第 ", crate::text::decimal(index).as_str());
    m.append(" 个步骤第 ");
    m.append(crate::text::decimal(order).as_str());
    m.append(" 条判据");
    m
}

/// The first fault among the criteria of step `index`.
fn criteria_check(items: &Vec<Yaml>, index: usize) -> (r: Option<String>)
    ensures
        crate::text::opt_view(r) == criteria_fault(list_view(items@), index as nat, 0),
{
    let ghost vs = list_view(items@);
    proof {
        crate::yaml::lemma_list_view(items@);
    }
    let mut k: usize = 0;
    while k < items.len()
        invariant
            k <= items@.len(),
            vs == list_view(items@),
            vs.len() == items@.len(),
            forall|i: int| 0 <= i < items@.len() ==> #[trigger] vs[i] == items@[i]@,
            criteria_fault(vs, index as nat, 0) == criteria_fault(vs, index as nat, k as int),
        decreases items@.len() - k,
    {
        let where_ = where_of(index, k + 1);
        let found = criterion_check(&items[k], where_.as_str());
        assert(vs[k as int] == items@[k as int]@);
        if found.is_some() {
            return found;
        }
        k = k + 1;
    }
    None
}

/// What is wrong with step number `index`.
fn step_check(step: &Yaml, index: usize) -> (r: Option<String>)
    ensures
        crate::text::opt_view(r) == step_fault(step@, index as nat),
{
    let head = crate::text::cat("第 ", crate::text::decimal(index).as_str());
    let name = crate::yaml::text_of(step, "name");
    if step.as_mapping().is_none() || name.unicode_len() == 0 {
        return said(head.as_str(), " 个步骤少了 name");
    }
    let allowed = texts(&["name", "description", "executor", "criteria"]);
    proof {
        assert(views(allowed@) =~= step_fields());
    }
    let unknown = unknown_fields(step, &allowed);
    if unknown.len() > 0 {
        let mut m = crate::text::cat(head.as_str(), " 个步骤有不认识的字段：");
        m.append(crate::text::join(&unknown, "、").as_str());
        m.append("（只认 name、description、executor、criteria）");
        return Some(m);
    }
    let written = crate::yaml::text_of(step, "executor");
    let executor = if written.unicode_len() == 0 { String::from_str(AGENT) } else { written };
    if !(crate::yaml::same(executor.as_str(), AGENT) || crate::yaml::same(executor.as_str(), HUMAN)) {
        let mut m = crate::text::cat(head.as_str(), " 个步骤的 executor 只能是 agent 或 human，实得 ");
        m.append(executor.as_str());
        return Some(m);
    }
    match step.get("criteria") {
        None => None,
        Some(Yaml::Null) => None,
        Some(Yaml::List(items)) => {
            proof {
                crate::yaml::lemma_list_view(items@);
            }
            criteria_check(items, index)
        },
        Some(_) => said(head.as_str(), " 个步骤的 criteria 应当是列表"),
    }
}

/// Checks a workflow document against the schema: `Ok` when it
/// follows it, else the message naming the first thing wrong, led by the
/// file's name.
pub fn validate(file: &str, payload: &Yaml) -> (r: Result<(), WorkflowError>)
    ensures
        match document_fault(payload@) {
            None => r is Ok,
            Some(m) => r is Err && r->Err_0.0@ == file@ + " "@ + m,
        },
{
    match check_document(payload) {
        None => Ok(()),
        Some(m) => {
            let mut text = crate::text::cat(file, " ");
            text.append(m.as_str());
            Err(WorkflowError(text))
        },
    }
}

/// The first thing wrong with a document.
#[verifier::loop_isolation(false)]
fn check_document(payload: &Yaml) -> (r: Option<String>)
    ensures
        crate::text::opt_view(r) == document_fault(payload@),
{
    if payload.as_mapping().is_none() {
        return Some(String::from_str("的顶层不是映射（name / steps）"));
    }
    if crate::yaml::text_of(payload, "name").unicode_len() == 0 {
        return Some(String::from_str("少了 name"));
    }
    let steps = match payload.get("steps") {
        Some(Yaml::List(items)) => items,
        _ => {
            return Some(String::from_str("少了 steps（至少一个步骤）"));
        },
    };
    proof {
        crate::yaml::lemma_list_view(steps@);
    }
    if steps.len() == 0 {
        return Some(String::from_str("少了 steps（至少一个步骤）"));
    }
    let allowed = texts(&["name", "description", "steps"]);
    proof {
        assert(views(allowed@) =~= top_fields());
    }
    let unknown = unknown_fields(payload, &allowed);
    if unknown.len() > 0 {
        let mut m = String::from_str("顶层有不认识的字段：");
        m.append(crate::text::join(&unknown, "、").as_str());
        m.append("（只认 name、description、steps）");
        return Some(m);
    }
    let ghost vs = list_view(steps@);
    let mut k: usize = 0;
    while k < steps.len()
        invariant
            k <= steps@.len(),
            vs == list_view(steps@),
            vs.len() == steps@.len(),
            forall|i: int| 0 <= i < steps@.len() ==> #[trigger] vs[i] == steps@[i]@,
            steps_fault(vs, 0) == steps_fault(vs, k as int),
        decreases steps@.len() - k,
    {
        let found = step_check(&steps[k], k + 1);
        assert(vs[k as int] == steps@[k as int]@);
        if found.is_some() {
            return found;
        }
        k = k + 1;
    }
    None
}

}
