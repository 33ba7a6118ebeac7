//! A task: one run of a workflow, kept in `<data>/tasks/<name>.yaml`. The task
//! file holds which workflow runs, since when, the run's context, its journal
//! (append only), the gates waiting for a person, and where its artifacts go.
//! The file is read and written by the caller; a task here holds what was read.
use vstd::prelude::*;
use crate::paths::{absolute, path_join, path_strip, relative_spec};
use crate::text::{has_prefix, opt_view, trim_spec, views};
use crate::workflow::{Step, StepV, Workflow, WorkflowV, names_spec};
use crate::yaml::{Yaml, YamlV, bool_spec, entries_of, entries_view, get_spec, list_view, lookup, seq_spec, set_entry, text_spec};

verus! {

/// The journal: the task file itself.
pub const LOG: &'static str = "log";
/// The report artifact.
pub const REPORT: &'static str = "report";
/// The journal artifact.
pub const JOURNAL: &'static str = "journal";

/// One event of a task's journal: when, which step, one sentence, passed or not.
pub struct JournalEvent {
    pub at: String,
    pub step: String,
    pub detail: String,
    pub ok: bool,
}

/// The mathematical value of a journal event.
pub struct EventV {
    pub at: Seq<char>,
    pub step: Seq<char>,
    pub detail: Seq<char>,
    pub ok: bool,
}

impl View for JournalEvent {
    type V = EventV;

    open spec fn view(&self) -> EventV {
        EventV { at: self.at@, step: self.step@, detail: self.detail@, ok: self.ok }
    }
}

/// The event a journal entry is read as: its step exactly as written, the
/// moment and the detail trimmed.
pub open spec fn event_of(v: YamlV) -> EventV {
    EventV {
        at: text_spec(v, "at"@),
        step: crate::report::raw_spec(v, "step"@),
        detail: text_spec(v, "detail"@),
        ok: match bool_spec(v, "ok"@) {
            Some(b) => b,
            None => false,
        },
    }
}

impl JournalEvent {
    /// Reads an event from its journal entry.
    pub fn of(value: &Yaml) -> (r: JournalEvent)
        ensures
            r@ == event_of(value@),
    {
        let ok = match value.get("ok") {
            Some(v) => match v.as_bool() {
                Some(b) => b,
                None => false,
            },
            None => false,
        };
        JournalEvent {
            at: crate::yaml::text_of(value, "at"),
            step: crate::report::raw_of(value, "step"),
            detail: crate::yaml::text_of(value, "detail"),
            ok,
        }
    }
}

/// A task as loaded: where it runs, its name, and what its file holds.
pub struct Task {
    /// The workspace root.
    pub root: String,
    /// The ledger the task file lies in.
    pub data: String,
    pub name: String,
    /// The workflow directory, when one is given.
    pub workflows: Option<String>,
    /// What the task file holds: a mapping (empty when there is no readable file).
    pub payload: Yaml,
    /// Whether the task file exists.
    pub present: bool,
}

/// The mathematical value of a task.
pub struct TaskV {
    pub root: Seq<char>,
    pub data: Seq<char>,
    pub name: Seq<char>,
    pub workflows: Option<Seq<char>>,
    pub payload: YamlV,
    pub present: bool,
}

impl View for Task {
    type V = TaskV;

    open spec fn view(&self) -> TaskV {
        TaskV {
            root: self.root@,
            data: self.data@,
            name: self.name@,
            workflows: opt_view(self.workflows),
            payload: self.payload@,
            present: self.present,
        }
    }
}

/// The string pairs of a mapping, in written order (other entries skipped).
pub open spec fn str_pairs(entries: Seq<(YamlV, YamlV)>) -> Seq<(Seq<char>, Seq<char>)>
    decreases entries.len(),
{
    if entries.len() == 0 {
        Seq::empty()
    } else {
        let rest = str_pairs(entries.drop_first());
        match (entries[0].0, entries[0].1) {
            (YamlV::Str(k), YamlV::Str(v)) => seq![(k, v)] + rest,
            _ => rest,
        }
    }
}

/// The string pairs under `key` of a payload.
pub open spec fn pairs_under(payload: YamlV, key: Seq<char>) -> Seq<(Seq<char>, Seq<char>)> {
    match get_spec(payload, key) {
        Some(YamlV::Mapping(entries)) => str_pairs(entries),
        _ => Seq::empty(),
    }
}

/// The value paired with `key`; the last pair wins, as a map that takes the
/// pairs in order keeps it.
pub open spec fn pair_get(pairs: Seq<(Seq<char>, Seq<char>)>, key: Seq<char>) -> Option<Seq<char>>
    decreases pairs.len(),
{
    if pairs.len() == 0 {
        None
    } else if pairs.last().0 == key {
        Some(pairs.last().1)
    } else {
        pair_get(pairs.drop_last(), key)
    }
}

/// The strings of a sequence, in order (other items skipped).
pub open spec fn str_items(items: Seq<YamlV>) -> Seq<Seq<char>>
    decreases items.len(),
{
    if items.len() == 0 {
        Seq::empty()
    } else {
        let rest = str_items(items.drop_first());
        match items[0] {
            YamlV::Str(s) => seq![s] + rest,
            _ => rest,
        }
    }
}

/// The gates recorded in a payload.
pub open spec fn gates_spec(payload: YamlV) -> Seq<Seq<char>> {
    match seq_spec(payload, "gates"@) {
        Some(items) => str_items(items),
        None => Seq::empty(),
    }
}

/// The journal entries of a payload that are mappings.
pub open spec fn mapping_items(items: Seq<YamlV>) -> Seq<YamlV>
    decreases items.len(),
{
    if items.len() == 0 {
        Seq::empty()
    } else {
        let rest = mapping_items(items.drop_first());
        if items[0] is Mapping {
            seq![items[0]] + rest
        } else {
            rest
        }
    }
}

/// The journal of a payload: its `log` entries that are mappings.
pub open spec fn events_spec(payload: YamlV) -> Seq<EventV> {
    match seq_spec(payload, "log"@) {
        Some(items) => mapping_items(items).map_values(|v: YamlV| event_of(v)),
        None => Seq::empty(),
    }
}

/// The task file: `<data>/tasks/<name>.yaml`.
pub open spec fn file_spec(t: TaskV) -> Seq<char> {
    path_join(path_join(t.data, "tasks"@), t.name + ".yaml"@)
}

/// Where an artifact is declared to go, trimmed, when declared at all.
pub open spec fn declared_spec(t: TaskV, kind: Seq<char>) -> Option<Seq<char>> {
    match pair_get(pairs_under(t.payload, "artifacts"@), kind) {
        Some(written) => if trim_spec(written).len() > 0 {
            Some(trim_spec(written))
        } else {
            None
        },
        None => None,
    }
}

/// Where an artifact goes, relative to its base: as declared, else
/// `artifacts/<kind>/<task>.md`.
pub open spec fn place_spec(t: TaskV, kind: Seq<char>) -> Seq<char> {
    match declared_spec(t, kind) {
        Some(written) => written,
        None => "artifacts/"@ + kind + "/"@ + t.name + ".md"@,
    }
}

/// Where an artifact of this run goes: the journal is the task file itself; a
/// declared one lies under the workspace root, an undeclared one under the ledger.
pub open spec fn artifact_spec(t: TaskV, kind: Seq<char>) -> Seq<char> {
    if kind == "log"@ {
        file_spec(t)
    } else if declared_spec(t, kind) is Some {
        path_join(t.root, place_spec(t, kind))
    } else {
        path_join(t.data, place_spec(t, kind))
    }
}

/// A list of strings from the views of its items.
fn str_items_of(items: &Vec<Yaml>) -> (r: Vec<String>)
    ensures
        views(r@) == str_items(list_view(items@)),
{
    let ghost all = list_view(items@);
    proof {
        crate::yaml::lemma_list_view(items@);
    }
    let mut out: Vec<String> = Vec::new();
    let mut i: usize = 0;
    assert(all.subrange(0, all.len() as int) =~= all);
    assert(views(out@) =~= Seq::<Seq<char>>::empty());
    while i < items.len()
        invariant
            i <= items@.len(),
            all == list_view(items@),
            all.len() == items@.len(),
            forall|k: int| 0 <= k < items@.len() ==> #[trigger] all[k] == items@[k]@,
            str_items(all) == views(out@) + str_items(all.subrange(i as int, all.len() as int)),
        decreases items@.len() - i,
    {
        let ghost here = all.subrange(i as int, all.len() as int);
        let ghost before = out@;
        proof {
            assert(here.drop_first() =~= all.subrange(i + 1, all.len() as int));
            assert(here[0] == items@[i as int]@);
        }
        match items[i].as_str() {
            Some(s) => {
                out.push(s.clone());
                proof {
                    assert(views(out@) =~= views(before).push(s@));
                    assert(views(before) + (seq![s@] + str_items(all.subrange(i + 1, all.len() as int))) =~= views(out@) + str_items(all.subrange(i + 1, all.len() as int)));
                }
            },
            None => {},
        }
        i = i + 1;
    }
    assert(all.subrange(i as int, all.len() as int) =~= Seq::<YamlV>::empty());
    assert(views(out@) + Seq::<Seq<char>>::empty() =~= views(out@));
    out
}

/// The views of string pairs.
pub open spec fn pairs_view(v: Seq<(String, String)>) -> Seq<(Seq<char>, Seq<char>)> {
    v.map_values(|p: (String, String)| (p.0@, p.1@))
}

/// The string pairs under `key`.
fn pairs_of(payload: &Yaml, key: &str) -> (r: Vec<(String, String)>)
    ensures
        pairs_view(r@) == pairs_under(payload@, key@),
{
    let mut out: Vec<(String, String)> = Vec::new();
    assert(pairs_view(out@) =~= Seq::<(Seq<char>, Seq<char>)>::empty());
    match payload.get(key) {
        Some(v) => match v.as_mapping() {
            Some(entries) => {
                let ghost all = entries_view(entries@);
                proof {
                    crate::yaml::lemma_entries_view(entries@);
                }
                let mut i: usize = 0;
                assert(all.subrange(0, all.len() as int) =~= all);
                while i < entries.len()
                    invariant
                        i <= entries@.len(),
                        all == entries_view(entries@),
                        all.len() == entries@.len(),
                        forall|k: int| 0 <= k < entries@.len() ==> #[trigger] all[k] == (entries@[k].0@, entries@[k].1@),
                        str_pairs(all) == pairs_view(out@) + str_pairs(all.subrange(i as int, all.len() as int)),
                    decreases entries@.len() - i,
                {
                    let ghost here = all.subrange(i as int, all.len() as int);
                    let ghost before = out@;
                    proof {
                        assert(here.drop_first() =~= all.subrange(i + 1, all.len() as int));
                        assert(here[0] == (entries@[i as int].0@, entries@[i as int].1@));
                    }
                    match (entries[i].0.as_str(), entries[i].1.as_str()) {
                        (Some(k), Some(v)) => {
                            let pair = (k.clone(), v.clone());
                            out.push(pair);
                            proof {
                                assert(pairs_view(out@) =~= pairs_view(before).push((k@, v@)));
                                assert(pairs_view(before) + (seq![(k@, v@)] + str_pairs(all.subrange(i + 1, all.len() as int))) =~= pairs_view(out@) + str_pairs(all.subrange(i + 1, all.len() as int)));
                            }
                        },
                        _ => {},
                    }
                    i = i + 1;
                }
                assert(all.subrange(i as int, all.len() as int) =~= Seq::<(YamlV, YamlV)>::empty());
                assert(pairs_view(out@) + Seq::<(Seq<char>, Seq<char>)>::empty() =~= pairs_view(out@));
            },
            None => {},
        },
        None => {},
    }
    out
}

/// The value paired with `key`, the last pair winning.
fn get_pair(pairs: &Vec<(String, String)>, key: &str) -> (r: Option<String>)
    ensures
        opt_view(r) == pair_get(pairs_view(pairs@), key@),
{
    let ghost all = pairs_view(pairs@);
    let mut i: usize = pairs.len();
    assert(all.subrange(0, all.len() as int) =~= all);
    while i > 0
        invariant
            i <= pairs@.len(),
            all == pairs_view(pairs@),
            pair_get(all, key@) == pair_get(all.subrange(0, i as int), key@),
        decreases i,
    {
        proof {
            assert(all.subrange(0, i as int).drop_last() =~= all.subrange(0, i - 1));
        }
        if crate::yaml::same(pairs[i - 1].0.as_str(), key) {
            return Some(pairs[i - 1].1.clone());
        }
        i = i - 1;
    }
    None
}

impl Task {
    /// A task from what its file holds: a payload that is not a mapping counts
    /// as an empty one.
    pub fn new(root: &str, data: &str, name: &str, workflows: Option<&str>, payload: Yaml, present: bool) -> (r: Task)
        ensures
            r@.root == root@,
            r@.data == data@,
            r@.name == name@,
            r@.workflows == (match workflows {
                Some(w) => Some(w@),
                None => None::<Seq<char>>,
            }),
            r@.payload == (if payload@ is Mapping {
                payload@
            } else {
                YamlV::Mapping(Seq::empty())
            }),
            r@.present == present,
    {
        let payload = match payload {
            Yaml::Mapping(entries) => Yaml::Mapping(entries),
            _ => {
                let empty: Vec<(Yaml, Yaml)> = Vec::new();
                assert(entries_view(empty@) =~= Seq::<(YamlV, YamlV)>::empty());
                Yaml::Mapping(empty)
            },
        };
        Task {
            root: String::from_str(root),
            data: String::from_str(data),
            name: String::from_str(name),
            workflows: match workflows {
                Some(w) => Some(String::from_str(w)),
                None => None,
            },
            payload,
            present,
        }
    }

    /// The task file: `<data>/tasks/<name>.yaml`.
    pub fn file(&self) -> (r: String)
        ensures
            r@ == file_spec(self@),
    {
        let dir = crate::paths::join(self.data.as_str(), "tasks");
        let file = crate::text::cat(self.name.as_str(), ".yaml");
        crate::paths::join(dir.as_str(), file.as_str())
    }

    /// The draft directory of artifacts: `<data>/artifacts`.
    pub fn artifacts_dir(&self) -> (r: String)
        ensures
            r@ == path_join(self@.data, "artifacts"@),
    {
        crate::paths::join(self.data.as_str(), "artifacts")
    }

    /// Where artifacts are declared to go: the string pairs under
    /// `artifacts`, in written order.
    pub fn artifacts(&self) -> (r: Vec<(String, String)>)
        ensures
            pairs_view(r@) == pairs_under(self@.payload, "artifacts"@),
    {
        pairs_of(&self.payload, "artifacts")
    }

    /// The products the task names: the string pairs under
    /// `products`, in written order.
    pub fn products(&self) -> (r: Vec<(String, String)>)
        ensures
            pairs_view(r@) == pairs_under(self@.payload, "products"@),
    {
        pairs_of(&self.payload, "products")
    }

    /// The gates recorded in the task file.
    pub fn gates(&self) -> (r: Vec<String>)
        ensures
            views(r@) == gates_spec(self@.payload),
    {
        match self.payload.get("gates") {
            Some(v) => match v.as_sequence() {
                Some(items) => str_items_of(items),
                None => {
                    let out: Vec<String> = Vec::new();
                    assert(views(out@) =~= Seq::<Seq<char>>::empty());
                    out
                },
            },
            None => {
                let out: Vec<String> = Vec::new();
                assert(views(out@) =~= Seq::<Seq<char>>::empty());
                out
            },
        }
    }

    /// Where an artifact is declared to go, trimmed.
    pub fn declared(&self, kind: &str) -> (r: Option<String>)
        ensures
            opt_view(r) == declared_spec(self@, kind@),
    {
        let pairs = self.artifacts();
        match get_pair(&pairs, kind) {
            Some(written) => {
                let t = crate::text::trim(written.as_str());
                if t.unicode_len() > 0 {
                    Some(t)
                } else {
                    None
                }
            },
            None => None,
        }
    }

    /// Where an artifact of this run goes.
    pub fn artifact(&self, kind: &str) -> (r: String)
        ensures
            r@ == artifact_spec(self@, kind@),
    {
        if crate::yaml::same(kind, LOG) {
            return self.file();
        }
        match self.declared(kind) {
            Some(written) => crate::paths::join(self.root.as_str(), written.as_str()),
            None => {
                let mut place = crate::text::cat("artifacts/", kind);
                place.append("/");
                place.append(self.name.as_str());
                place.append(".md");
                crate::paths::join(self.data.as_str(), place.as_str())
            },
        }
    }

    /// Whether the task file exists.
    pub fn has_file(&self) -> (r: bool)
        ensures
            r == self@.present,
    {
        self.present
    }

    /// When the task started.
    pub fn start(&self) -> (r: String)
        ensures
            r@ == text_spec(self@.payload, "start"@),
    {
        crate::yaml::text_of(&self.payload, "start")
    }

    /// The workflow the task runs, by name.
    pub fn workflow_name(&self) -> (r: String)
        ensures
            r@ == text_spec(self@.payload, "workflow"@),
    {
        crate::yaml::text_of(&self.payload, "workflow")
    }

    /// A path relative to the ledger when it lies under it.
    pub fn relative(&self, path: &str) -> (r: String)
        ensures
            r@ == relative_spec(path@, self@.data),
    {
        crate::paths::relative(path, self.data.as_str())
    }

    /// The journal: the `log` entries that are mappings, in order.
    pub fn events(&self) -> (r: Vec<JournalEvent>)
        ensures
            r@.map_values(|e: JournalEvent| e@) == events_spec(self@.payload),
    {
        let mut out: Vec<JournalEvent> = Vec::new();
        assert(out@.map_values(|e: JournalEvent| e@) =~= Seq::<EventV>::empty());
        match self.payload.get("log") {
            Some(v) => match v.as_sequence() {
                Some(items) => {
                    let ghost all = list_view(items@);
                    proof {
                        crate::yaml::lemma_list_view(items@);
                    }
                    let mut i: usize = 0;
                    assert(all.subrange(0, all.len() as int) =~= all);
                    while i < items.len()
                        invariant
                            i <= items@.len(),
                            all == list_view(items@),
                            all.len() == items@.len(),
                            forall|k: int| 0 <= k < items@.len() ==> #[trigger] all[k] == items@[k]@,
                            mapping_items(all).map_values(|v: YamlV| event_of(v)) == out@.map_values(|e: JournalEvent| e@)
                                + mapping_items(all.subrange(i as int, all.len() as int)).map_values(|v: YamlV| event_of(v)),
                        decreases items@.len() - i,
                    {
                        let ghost here = all.subrange(i as int, all.len() as int);
                        let ghost before = out@;
                        let ghost tail = mapping_items(all.subrange(i + 1, all.len() as int)).map_values(|v: YamlV| event_of(v));
                        proof {
                            assert(here.drop_first() =~= all.subrange(i + 1, all.len() as int));
                            assert(here[0] == items@[i as int]@);
                        }
                        if items[i].as_mapping().is_some() {
                            let e = JournalEvent::of(&items[i]);
                            out.push(e);
                            proof {
                                assert(mapping_items(here) == seq![here[0]] + mapping_items(here.drop_first()));
                                assert(mapping_items(here).map_values(|v: YamlV| event_of(v)) =~= seq![e@] + tail);
                                assert(out@.map_values(|e: JournalEvent| e@) =~= before.map_values(|e: JournalEvent| e@).push(e@));
                                assert(before.map_values(|e: JournalEvent| e@) + (seq![e@] + tail) =~= out@.map_values(|e: JournalEvent| e@) + tail);
                            }
                        } else {
                            proof {
                                assert(mapping_items(here) == mapping_items(here.drop_first()));
                            }
                        }
                        i = i + 1;
                    }
                    assert(all.subrange(i as int, all.len() as int) =~= Seq::<YamlV>::empty());
                    assert(out@.map_values(|e: JournalEvent| e@) + Seq::<EventV>::empty() =~= out@.map_values(|e: JournalEvent| e@));
                },
                None => {},
            },
            None => {},
        }
        out
    }
}


/// A payload with its gates set to `notes`.
pub open spec fn with_gates(payload: YamlV, notes: Seq<Seq<char>>) -> YamlV {
    YamlV::Mapping(set_entry(entries_of(payload), "gates"@, YamlV::List(notes.map_values(|n: Seq<char>| YamlV::Str(n)))))
}

/// The journal entry of an event.
pub open spec fn event_yaml(at: Seq<char>, step: Seq<char>, detail: Seq<char>, ok: bool) -> YamlV {
    YamlV::Mapping(
        seq![
            (YamlV::Str("at"@), YamlV::Str(at)),
            (YamlV::Str("step"@), YamlV::Str(step)),
            (YamlV::Str("detail"@), YamlV::Str(detail)),
            (YamlV::Str("ok"@), YamlV::Bool(ok)),
        ],
    )
}

/// A payload with an entry appended to its journal: a missing `log` is
/// started empty first; a `log` that is not a sequence takes nothing.
pub open spec fn with_event(payload: YamlV, e: YamlV) -> YamlV {
    let entries = entries_of(payload);
    let with_log = if lookup(entries, "log"@) is None {
        set_entry(entries, "log"@, YamlV::List(Seq::empty()))
    } else {
        entries
    };
    match lookup(with_log, "log"@) {
        Some(YamlV::List(items)) => YamlV::Mapping(set_entry(with_log, "log"@, YamlV::List(items.push(e)))),
        _ => YamlV::Mapping(with_log),
    }
}

/// `notes` with each of `more` added in order, unless already there.
pub open spec fn merge_notes(notes: Seq<Seq<char>>, more: Seq<Seq<char>>) -> Seq<Seq<char>>
    decreases more.len(),
{
    if more.len() == 0 {
        notes
    } else {
        let next = if notes.contains(more[0]) {
            notes
        } else {
            notes.push(more[0])
        };
        merge_notes(next, more.drop_first())
    }
}

/// The steps done by a journal: in the order first recorded, each step of the
/// workflow with a successful event, once.
pub open spec fn done_fold(events: Seq<EventV>, names: Seq<Seq<char>>, acc: Seq<Seq<char>>) -> Seq<Seq<char>>
    decreases events.len(),
{
    if events.len() == 0 {
        acc
    } else {
        let e = events[0];
        let next = if e.ok && names.contains(e.step) && !acc.contains(e.step) {
            acc.push(e.step)
        } else {
            acc
        };
        done_fold(events.drop_first(), names, next)
    }
}

/// The steps a task has done.
pub open spec fn task_done_spec(t: TaskV, w: WorkflowV) -> Seq<Seq<char>> {
    done_fold(events_spec(t.payload), names_spec(w.steps), Seq::empty())
}

/// The first step whose name is not among `done`.
pub open spec fn first_not_in(steps: Seq<StepV>, done: Seq<Seq<char>>) -> Option<StepV>
    decreases steps.len(),
{
    if steps.len() == 0 {
        None
    } else if !done.contains(steps[0].name) {
        Some(steps[0])
    } else {
        first_not_in(steps.drop_first(), done)
    }
}

/// The state line of a task: its next step, or that every step was walked.
pub open spec fn task_state_spec(t: TaskV, w: WorkflowV) -> Seq<char> {
    if w.steps.len() == 0 {
        "这条工作流没有步骤——在 workflows/"@ + text_spec(t.payload, "workflow"@) + ".yaml 的 steps 里写步骤"@
    } else {
        match first_not_in(w.steps, task_done_spec(t, w)) {
            Some(s) => "下一步："@ + s.name,
            None => crate::text::decimal_spec(w.steps.len()) + " 个步骤都走过了"@,
        }
    }
}

impl Task {
    /// Sets the gates recorded in the task file.
    pub fn set_gates(&mut self, notes: &Vec<String>)
        requires
            old(self)@.payload is Mapping,
        ensures
            final(self)@.payload == with_gates(old(self)@.payload, views(notes@)),
            final(self)@.payload is Mapping,
            final(self)@.root == old(self)@.root,
            final(self)@.data == old(self)@.data,
            final(self)@.name == old(self)@.name,
            final(self)@.workflows == old(self)@.workflows,
            final(self)@.present == old(self)@.present,
    {
        let mut items: Vec<Yaml> = Vec::new();
        let mut i: usize = 0;
        while i < notes.len()
            invariant
                i <= notes@.len(),
                list_view(items@) =~= views(notes@).take(i as int).map_values(|n: Seq<char>| YamlV::Str(n)),
            decreases notes@.len() - i,
        {
            let ghost before = items@;
            let y = Yaml::Str(notes[i].clone());
            items.push(y);
            proof {
                crate::yaml::lemma_list_view(before);
                crate::yaml::lemma_list_view(items@);
                assert(list_view(items@) =~= list_view(before).push(y@));
                assert(views(notes@).take(i + 1) =~= views(notes@).take(i as int).push(notes@[i as int]@));
            }
            i = i + 1;
        }
        assert(views(notes@).take(i as int) =~= views(notes@));
        let mut payload = Yaml::Null;
        std::mem::swap(&mut payload, &mut self.payload);
        let entries = match payload {
            Yaml::Mapping(entries) => entries,
            _ => Vec::new(),
        };
        let updated = crate::yaml::insert_entry(&entries, "gates", Yaml::List(items));
        self.payload = Yaml::Mapping(updated);
    }

    /// Appends an event to the journal in the task file; `at` is
    /// the moment of the event.
    pub fn record(&mut self, step: &str, detail: &str, ok: bool, at: &str)
        requires
            old(self)@.payload is Mapping,
        ensures
            final(self)@.payload == with_event(old(self)@.payload, event_yaml(at@, step@, detail@, ok)),
            final(self)@.payload is Mapping,
            final(self)@.root == old(self)@.root,
            final(self)@.data == old(self)@.data,
            final(self)@.name == old(self)@.name,
            final(self)@.workflows == old(self)@.workflows,
            final(self)@.present == old(self)@.present,
    {
        let event_entries = vec![
            (Yaml::Str(String::from_str("at")), Yaml::Str(String::from_str(at))),
            (Yaml::Str(String::from_str("step")), Yaml::Str(String::from_str(step))),
            (Yaml::Str(String::from_str("detail")), Yaml::Str(String::from_str(detail))),
            (Yaml::Str(String::from_str("ok")), Yaml::Bool(ok)),
        ];
        proof {
            crate::yaml::lemma_entries_view(event_entries@);
            assert(entries_view(event_entries@) =~= entries_of(event_yaml(at@, step@, detail@, ok)));
        }
        let event = Yaml::Mapping(event_entries);
        let mut payload = Yaml::Null;
        std::mem::swap(&mut payload, &mut self.payload);
        let entries = match payload {
            Yaml::Mapping(entries) => entries,
            _ => Vec::new(),
        };
        let holder = Yaml::Mapping(entries);
        let missing = holder.get("log").is_none();
        let entries = match holder {
            Yaml::Mapping(e) => e,
            _ => Vec::new(),
        };
        let with_log = if missing {
            let empty: Vec<Yaml> = Vec::new();
            assert(list_view(empty@) =~= Seq::<YamlV>::empty());
            crate::yaml::insert_entry(&entries, "log", Yaml::List(empty))
        } else {
            entries
        };
        let holder = Yaml::Mapping(with_log);
        let list: Option<Vec<Yaml>> = match holder.get("log") {
            Some(v) => match v.copy() {
                Yaml::List(items) => Some(items),
                _ => None,
            },
            None => None,
        };
        let with_log = match holder {
            Yaml::Mapping(e) => e,
            _ => Vec::new(),
        };
        match list {
            Some(mut items) => {
                let ghost before = items@;
                items.push(event);
                proof {
                    crate::yaml::lemma_list_view(before);
                    crate::yaml::lemma_list_view(items@);
                    assert(list_view(items@) =~= list_view(before).push(event_yaml(at@, step@, detail@, ok)));
                }
                self.payload = Yaml::Mapping(crate::yaml::insert_entry(&with_log, "log", Yaml::List(items)));
            },
            None => {
                self.payload = Yaml::Mapping(with_log);
            },
        }
    }

    /// The steps of `workflow` the task has done: each step with a
    /// successful event in the journal, once, in the order first recorded.
    pub fn done(&self, workflow: &Workflow) -> (r: Vec<String>)
        ensures
            views(r@) == task_done_spec(self@, workflow@),
    {
        let names = workflow.step_names();
        let events = self.events();
        let ghost ev = events@.map_values(|e: JournalEvent| e@);
        let mut out: Vec<String> = Vec::new();
        let mut i: usize = 0;
        assert(ev.subrange(0, ev.len() as int) =~= ev);
        assert(views(out@) =~= Seq::<Seq<char>>::empty());
        while i < events.len()
            invariant
                i <= events@.len(),
                ev == events@.map_values(|e: JournalEvent| e@),
                views(names@) == names_spec(workflow@.steps),
                task_done_spec(self@, workflow@) == done_fold(ev.subrange(i as int, ev.len() as int), views(names@), views(out@)),
            decreases events@.len() - i,
        {
            proof {
                assert(ev.subrange(i as int, ev.len() as int).drop_first() =~= ev.subrange(i + 1, ev.len() as int));
            }
            let e = &events[i];
            if e.ok && crate::schema::listed(&names, e.step.as_str()) && !crate::schema::listed(&out, e.step.as_str()) {
                let ghost before = out@;
                out.push(e.step.clone());
                proof {
                    assert(views(out@) =~= views(before).push(e.step@));
                }
            }
            i = i + 1;
        }
        out
    }

    /// The first step of `workflow` the task has not done.
    pub fn next_step(&self, workflow: &Workflow) -> (r: Option<Step>)
        ensures
            match first_not_in(workflow@.steps, task_done_spec(self@, workflow@)) {
                Some(s) => r is Some && r->0@ == s,
                None => r is None,
            },
    {
        let done = self.done(workflow);
        let ghost all = workflow@.steps;
        let mut i: usize = 0;
        assert(all.subrange(0, all.len() as int) =~= all);
        while i < workflow.steps.len()
            invariant
                i <= workflow.steps@.len(),
                all == workflow@.steps,
                views(done@) == task_done_spec(self@, workflow@),
                first_not_in(all, views(done@)) == first_not_in(all.subrange(i as int, all.len() as int), views(done@)),
            decreases workflow.steps@.len() - i,
        {
            proof {
                assert(all.subrange(i as int, all.len() as int).drop_first() =~= all.subrange(i + 1, all.len() as int));
            }
            if !crate::schema::listed(&done, workflow.steps[i].name.as_str()) {
                return Some(workflow.steps[i].copy());
            }
            i = i + 1;
        }
        None
    }
}

/// The state line of a task.
pub fn state_line(task: &Task, workflow: &Workflow) -> (r: String)
    ensures
        r@ == task_state_spec(task@, workflow@),
{
    if workflow.steps.len() == 0 {
        let mut line = String::from_str("这条工作流没有步骤——在 workflows/");
        line.append(task.workflow_name().as_str());
        line.append(".yaml 的 steps 里写步骤");
        return line;
    }
    match task.next_step(workflow) {
        Some(step) => crate::text::cat("下一步：", step.name.as_str()),
        None => {
            let mut line = crate::text::decimal(workflow.steps.len());
            line.append(" 个步骤都走过了");
            line
        },
    }
}

/// Adds the gates not yet recorded to the task file.
pub fn write_gates(task: &mut Task, gates: &Vec<String>)
    requires
        old(task)@.payload is Mapping,
    ensures
        final(task)@.payload == with_gates(old(task)@.payload, merge_notes(gates_spec(old(task)@.payload), views(gates@))),
        final(task)@.payload is Mapping,
        final(task)@.root == old(task)@.root,
        final(task)@.data == old(task)@.data,
        final(task)@.name == old(task)@.name,
        final(task)@.workflows == old(task)@.workflows,
        final(task)@.present == old(task)@.present,
{
    let mut notes = task.gates();
    let ghost start = views(notes@);
    let ghost gv = views(gates@);
    let mut i: usize = 0;
    assert(gv.subrange(0, gv.len() as int) =~= gv);
    while i < gates.len()
        invariant
            i <= gates@.len(),
            gv == views(gates@),
            merge_notes(start, gv) == merge_notes(views(notes@), gv.subrange(i as int, gv.len() as int)),
        decreases gates@.len() - i,
    {
        proof {
            assert(gv.subrange(i as int, gv.len() as int).drop_first() =~= gv.subrange(i + 1, gv.len() as int));
        }
        if !crate::schema::listed(&notes, gates[i].as_str()) {
            let ghost before = notes@;
            notes.push(gates[i].clone());
            proof {
                assert(views(notes@) =~= views(before).push(gates@[i as int]@));
            }
        }
        i = i + 1;
    }
    assert(gv.subrange(i as int, gv.len() as int) =~= Seq::<Seq<char>>::empty());
    task.set_gates(&notes);
}


/// Merging keeps every note already recorded, in place.
pub proof fn lemma_merge_keeps(notes: Seq<Seq<char>>, more: Seq<Seq<char>>)
    ensures
        merge_notes(notes, more).len() >= notes.len(),
        merge_notes(notes, more).subrange(0, notes.len() as int) == notes,
    decreases more.len(),
{
    if more.len() > 0 {
        let next = if notes.contains(more[0]) {
            notes
        } else {
            notes.push(more[0])
        };
        lemma_merge_keeps(next, more.drop_first());
        assert(next.subrange(0, notes.len() as int) =~= notes);
        assert(merge_notes(notes, more).subrange(0, notes.len() as int) =~= merge_notes(next, more.drop_first()).subrange(0, next.len() as int).subrange(0, notes.len() as int));
    }
}

/// After merging, every new note is recorded, and nothing else was added.
pub proof fn lemma_merge_holds(notes: Seq<Seq<char>>, more: Seq<Seq<char>>)
    ensures
        forall|k: int| 0 <= k < more.len() ==> merge_notes(notes, more).contains(#[trigger] more[k]),
        forall|x: Seq<char>| #[trigger] merge_notes(notes, more).contains(x) ==> notes.contains(x) || more.contains(x),
    decreases more.len(),
{
    if more.len() > 0 {
        let next = if notes.contains(more[0]) {
            notes
        } else {
            notes.push(more[0])
        };
        lemma_merge_holds(next, more.drop_first());
        lemma_merge_keeps(next, more.drop_first());
        if !notes.contains(more[0]) {
            assert(next[notes.len() as int] == more[0]);
        }
        assert(next.contains(more[0]));
        let k0 = choose|k: int| 0 <= k < next.len() && next[k] == more[0];
        assert(merge_notes(next, more.drop_first())[k0] == more[0]);
        assert forall|k: int| 0 <= k < more.len() implies merge_notes(notes, more).contains(#[trigger] more[k]) by {
            if k > 0 {
                assert(more.drop_first()[k - 1] == more[k]);
            }
        }
        assert forall|x: Seq<char>| #[trigger] merge_notes(notes, more).contains(x) implies notes.contains(x) || more.contains(x) by {
            if next.contains(x) && !notes.contains(x) {
                assert(x == more[0]);
            }
            if more.drop_first().contains(x) {
                let j = choose|j: int| 0 <= j < more.drop_first().len() && more.drop_first()[j] == x;
                assert(more[j + 1] == x);
            }
        }
    }
}

/// Merging notes already recorded changes nothing.
proof fn lemma_merge_recorded(notes: Seq<Seq<char>>, more: Seq<Seq<char>>)
    requires
        forall|k: int| 0 <= k < more.len() ==> notes.contains(#[trigger] more[k]),
    ensures
        merge_notes(notes, more) == notes,
    decreases more.len(),
{
    if more.len() > 0 {
        assert(notes.contains(more[0]));
        assert forall|k: int| 0 <= k < more.drop_first().len() implies notes.contains(#[trigger] more.drop_first()[k]) by {
            assert(more.drop_first()[k] == more[k + 1]);
        }
        lemma_merge_recorded(notes, more.drop_first());
    }
}

/// Writing the same gates twice records what writing them once does.
pub proof fn lemma_write_gates_idempotent(notes: Seq<Seq<char>>, more: Seq<Seq<char>>)
    ensures
        merge_notes(merge_notes(notes, more), more) == merge_notes(notes, more),
{
    lemma_merge_holds(notes, more);
    lemma_merge_recorded(merge_notes(notes, more), more);
}

/// The number of filled cells of a ten-cell bar.
pub open spec fn filled_spec(done: nat, total: nat) -> nat {
    if total == 0 {
        0
    } else if done * 10 / total > 10 {
        10
    } else {
        done * 10 / total
    }
}

/// A ten-cell progress bar followed by `done/total`, as `[███░░░░░░░] 1/3`.
pub open spec fn bar_spec(done: nat, total: nat) -> Seq<char> {
    "["@ + Seq::new(10, |i: int| if i < filled_spec(done, total) { '█' } else { '░' }) + "] "@
        + crate::text::decimal_spec(done) + "/"@ + crate::text::decimal_spec(total)
}

/// A ten-cell progress bar: cells done `█`, cells left `░`.
pub fn bar(done: usize, total: usize) -> (r: String)
    requires
        done * 10 <= usize::MAX,
    ensures
        r@ == bar_spec(done as nat, total as nat),
{
    let filled: usize = if total == 0 {
        0
    } else if done * 10 / total > 10 {
        10
    } else {
        done * 10 / total
    };
    let mut r = String::from_str("[");
    let ghost start = r@;
    let mut i: usize = 0;
    while i < 10
        invariant
            i <= 10,
            filled == filled_spec(done as nat, total as nat),
            r@ == start + Seq::new(i as nat, |k: int| if k < filled_spec(done as nat, total as nat) { '█' } else { '░' }),
        decreases 10 - i,
    {
        let ghost before = r@;
        if i < filled {
            crate::text::push_char(&mut r, '█');
        } else {
            crate::text::push_char(&mut r, '░');
        }
        assert(r@ =~= start + Seq::new((i + 1) as nat, |k: int| if k < filled_spec(done as nat, total as nat) { '█' } else { '░' }));
        i = i + 1;
    }
    r.append("] ");
    r.append(crate::text::decimal(done).as_str());
    r.append("/");
    r.append(crate::text::decimal(total).as_str());
    r
}

/// A path as the run's context records it: relative to the root when under it.
pub open spec fn as_written(root: Seq<char>, path: Option<Seq<char>>) -> Seq<char> {
    match path {
        None => Seq::empty(),
        Some(p) => relative_spec(p, root),
    }
}

/// The run's context as recorded in a task file: the root as given, the
/// ledger and the workflow directory relative to the root where they can be.
pub open spec fn context_spec(root: Seq<char>, data: Seq<char>, workflows: Option<Seq<char>>) -> Seq<(Seq<char>, Seq<char>)> {
    seq![("root"@, root), ("data"@, as_written(root, Some(data))), ("workflows"@, as_written(root, workflows))]
}

/// The run's context.
pub fn context(root: &str, data: &str, workflows: Option<&str>) -> (r: Vec<(String, String)>)
    ensures
        pairs_view(r@) == context_spec(root@, data@, match workflows {
            Some(w) => Some(w@),
            None => None::<Seq<char>>,
        }),
{
    let flows = match workflows {
        None => String::new(),
        Some(path) => crate::paths::relative(path, root),
    };
    let out = vec![
        (String::from_str("root"), String::from_str(root)),
        (String::from_str("data"), crate::paths::relative(data, root)),
        (String::from_str("workflows"), flows),
    ];
    assert(pairs_view(out@) =~= context_spec(root@, data@, match workflows {
        Some(w) => Some(w@),
        None => None::<Seq<char>>,
    }));
    out
}

/// A path with a leading `~/` put under the home directory, when known.
pub open spec fn expand_home_spec(value: Seq<char>, home: Option<Seq<char>>) -> Seq<char> {
    match home {
        Some(h) => if has_prefix(value, "~/"@) {
            h + "/"@ + value.subrange(2, value.len() as int)
        } else {
            value
        },
        None => value,
    }
}

/// A path with a leading `~/` put under the home directory, when known.
fn expand_home(value: &str, home: Option<&str>) -> (r: String)
    ensures
        r@ == expand_home_spec(value@, match home {
            Some(h) => Some(h@),
            None => None::<Seq<char>>,
        }),
{
    proof {
        reveal_strlit("~/");
    }
    match home {
        Some(h) => match crate::text::strip_prefix(value, "~/") {
            Some(rest) => {
                let mut r = crate::text::cat(h, "/");
                r.append(rest.as_str());
                r
            },
            None => String::from_str(value),
        },
        None => String::from_str(value),
    }
}

/// The root a reopened task runs in: the one given, else the one its file
/// records (with `~/` under the home directory), else the one found.
pub open spec fn reopen_root(root: Option<Seq<char>>, recorded: YamlV, home: Option<Seq<char>>, found: Seq<char>) -> Seq<char> {
    match root {
        Some(r) => r,
        None => if text_spec(recorded, "root"@).len() == 0 {
            found
        } else {
            expand_home_spec(text_spec(recorded, "root"@), home)
        },
    }
}

/// The workflow directory of a reopened task: the one given, else the one its
/// file records (under the root when relative), else none.
pub open spec fn reopen_flows(workflows: Option<Seq<char>>, recorded: YamlV, root: Seq<char>) -> Option<Seq<char>> {
    match workflows {
        Some(w) => Some(w),
        None => if text_spec(recorded, "workflows"@).len() == 0 {
            None
        } else if absolute(text_spec(recorded, "workflows"@)) {
            Some(text_spec(recorded, "workflows"@))
        } else {
            Some(path_join(root, text_spec(recorded, "workflows"@)))
        },
    }
}

/// Opens a task again: what the command line gives wins over what
/// the task file records. `recorded` is what the task file holds, `present`
/// whether it exists, `home` the home directory and `found` the root found
/// from the working directory, for a file that records none.
pub fn reopen(
    data: &str,
    name: &str,
    root: Option<&str>,
    workflows: Option<&str>,
    recorded: Yaml,
    present: bool,
    home: Option<&str>,
    found: &str,
) -> (r: Task)
    ensures
        r@.root == reopen_root(match root {
            Some(x) => Some(x@),
            None => None::<Seq<char>>,
        }, recorded@, match home {
            Some(h) => Some(h@),
            None => None::<Seq<char>>,
        }, found@),
        r@.workflows == reopen_flows(match workflows {
            Some(x) => Some(x@),
            None => None::<Seq<char>>,
        }, recorded@, r@.root),
        r@.data == data@,
        r@.name == name@,
        r@.payload == (if recorded@ is Mapping {
            recorded@
        } else {
            YamlV::Mapping(Seq::empty())
        }),
        r@.present == present,
{
    let recorded_root = crate::yaml::text_of(&recorded, "root");
    let resolved_root = match root {
        Some(r) => String::from_str(r),
        None => if recorded_root.unicode_len() == 0 {
            String::from_str(found)
        } else {
            expand_home(recorded_root.as_str(), home)
        },
    };
    let resolved_flows: Option<String> = match workflows {
        Some(path) => Some(String::from_str(path)),
        None => {
            let written = crate::yaml::text_of(&recorded, "workflows");
            if written.unicode_len() == 0 {
                None
            } else if crate::paths::is_absolute(written.as_str()) {
                Some(written)
            } else {
                Some(crate::paths::join(resolved_root.as_str(), written.as_str()))
            }
        },
    };
    let flows: Option<&str> = match &resolved_flows {
        Some(f) => Some(f.as_str()),
        None => None,
    };
    Task::new(resolved_root.as_str(), data, name, flows, recorded, present)
}

/// The places a task's criteria refer to by placeholder, relative to the root:
/// `report`, `journal`, `log` and `artifacts`.
pub open spec fn task_table(t: TaskV) -> Seq<(Seq<char>, Seq<char>)> {
    seq![
        ("report"@, relative_spec(artifact_spec(t, "report"@), t.root)),
        ("journal"@, relative_spec(artifact_spec(t, "journal"@), t.root)),
        ("log"@, relative_spec(artifact_spec(t, "log"@), t.root)),
        ("artifacts"@, relative_spec(path_join(t.data, "artifacts"@), t.root)),
    ]
}

/// The places a task's criteria refer to by placeholder.
pub fn table(task: &Task) -> (r: Vec<(String, String)>)
    ensures
        crate::criterion::table_view(r@) == task_table(task@),
{
    let report = task.artifact(REPORT);
    let journal = task.artifact(JOURNAL);
    let log = task.artifact(LOG);
    let dir = task.artifacts_dir();
    let table = vec![
        (String::from_str("report"), crate::paths::relative(report.as_str(), task.root.as_str())),
        (String::from_str("journal"), crate::paths::relative(journal.as_str(), task.root.as_str())),
        (String::from_str("log"), crate::paths::relative(log.as_str(), task.root.as_str())),
        (String::from_str("artifacts"), crate::paths::relative(dir.as_str(), task.root.as_str())),
    ];
    assert(crate::criterion::table_view(table@) =~= task_table(task@));
    table
}

/// Replaces `{{report}}`, `{{journal}}`, `{{log}}` and `{{artifacts}}` in a
/// text by this run's places, relative to the root.
pub fn expand(task: &Task, value: &str) -> (r: String)
    ensures
        r@ == crate::criterion::expand_spec(value@, task_table(task@)),
{
    crate::criterion::expand(value, &table(task))
}


/// The bounds of one piece of work; where an artifact goes is computed from
/// names alone.
pub struct Workspace {}

impl Workspace {
    /// Where an artifact of a task goes, relative to its base: as
    /// declared, else `artifacts/<kind>/<task>.md`.
    pub fn place(&self, task: &Task, artifact: &crate::locate::Artifact) -> (r: String)
        ensures
            r@ == place_spec(task@, artifact.name@),
    {
        match task.declared(artifact.name.as_str()) {
            Some(written) => written,
            None => {
                let mut place = crate::text::cat("artifacts/", artifact.name.as_str());
                place.append("/");
                place.append(task.name.as_str());
                place.append(".md");
                place
            },
        }
    }
}


/// The steps of `workflow` a task has done.
pub fn done(task: &Task, workflow: &Workflow) -> (r: Vec<String>)
    ensures
        views(r@) == task_done_spec(task@, workflow@),
{
    task.done(workflow)
}


/// Folding the journal keeps the steps done distinct and among the names.
proof fn lemma_done_fold_within(events: Seq<EventV>, names: Seq<Seq<char>>, acc: Seq<Seq<char>>)
    requires
        acc.no_duplicates(),
        forall|k: int| 0 <= k < acc.len() ==> names.contains(#[trigger] acc[k]),
    ensures
        done_fold(events, names, acc).no_duplicates(),
        forall|k: int| 0 <= k < done_fold(events, names, acc).len() ==> names.contains(#[trigger] done_fold(events, names, acc)[k]),
    decreases events.len(),
{
    if events.len() > 0 {
        let e = events[0];
        if e.ok && names.contains(e.step) && !acc.contains(e.step) {
            let next = acc.push(e.step);
            assert forall|i: int, j: int| 0 <= i < next.len() && 0 <= j < next.len() && i != j implies next[i] != next[j] by {
                if i == acc.len() && j < acc.len() {
                    assert(next[j] == acc[j]);
                    if acc[j] == e.step {
                        assert(acc.contains(e.step));
                    }
                } else if j == acc.len() && i < acc.len() {
                    assert(next[i] == acc[i]);
                    if acc[i] == e.step {
                        assert(acc.contains(e.step));
                    }
                }
            }
            assert forall|k: int| 0 <= k < next.len() implies names.contains(#[trigger] next[k]) by {
                if k < acc.len() {
                    assert(next[k] == acc[k]);
                }
            }
            lemma_done_fold_within(events.drop_first(), names, next);
        } else {
            lemma_done_fold_within(events.drop_first(), names, acc);
        }
    }
}

/// A task has done at most as many steps as its workflow has.
pub proof fn lemma_done_within_steps(t: TaskV, w: WorkflowV)
    ensures
        task_done_spec(t, w).len() <= w.steps.len(),
{
    let names = names_spec(w.steps);
    let d = task_done_spec(t, w);
    lemma_done_fold_within(events_spec(t.payload), names, Seq::empty());
    d.unique_seq_to_set();
    names.lemma_cardinality_of_set();
    assert(d.to_set().subset_of(names.to_set()));
    vstd::seq_lib::seq_to_set_is_finite(names);
    vstd::set_lib::lemma_len_subset(d.to_set(), names.to_set());
}


/// The file of a new task: its name, when it started, the workflow it runs,
/// an empty journal, no gates, no artifacts declared, then its context.
pub open spec fn new_task_spec(name: Seq<char>, workflow_name: Seq<char>, start: Seq<char>, ctx: Seq<(Seq<char>, Seq<char>)>) -> YamlV {
    YamlV::Mapping(
        seq![
            (YamlV::Str("name"@), YamlV::Str(name)),
            (YamlV::Str("start"@), YamlV::Str(start)),
            (YamlV::Str("workflow"@), YamlV::Str(workflow_name)),
            (YamlV::Str("log"@), YamlV::List(Seq::empty())),
            (YamlV::Str("gates"@), YamlV::List(Seq::empty())),
            (YamlV::Str("artifacts"@), YamlV::Mapping(Seq::empty())),
        ] + ctx.map_values(|p: (Seq<char>, Seq<char>)| (YamlV::Str(p.0), YamlV::Str(p.1))),
    )
}

/// The file a new task starts with: `start` is the moment it starts, the
/// context where it runs.
pub fn new_task_payload(name: &str, workflow_name: &str, start: &str, root: &str, data: &str, workflows: Option<&str>) -> (r: Yaml)
    ensures
        r@ == new_task_spec(name@, workflow_name@, start@, context_spec(root@, data@, match workflows {
            Some(w) => Some(w@),
            None => None::<Seq<char>>,
        })),
{
    let ctx = context(root, data, workflows);
    let mut entries = vec![
        (Yaml::Str(String::from_str("name")), Yaml::Str(String::from_str(name))),
        (Yaml::Str(String::from_str("start")), Yaml::Str(String::from_str(start))),
        (Yaml::Str(String::from_str("workflow")), Yaml::Str(String::from_str(workflow_name))),
        (Yaml::Str(String::from_str("log")), Yaml::List(Vec::new())),
        (Yaml::Str(String::from_str("gates")), Yaml::List(Vec::new())),
        (Yaml::Str(String::from_str("artifacts")), Yaml::Mapping(Vec::new())),
    ];
    let ghost cv = pairs_view(ctx@);
    let mut i: usize = 0;
    proof {
        crate::yaml::lemma_entries_view(entries@);
        assert(crate::yaml::list_view(Seq::<Yaml>::empty()) =~= Seq::<YamlV>::empty());
        assert(crate::yaml::entries_view(Seq::<(Yaml, Yaml)>::empty()) =~= Seq::<(YamlV, YamlV)>::empty());
    }
    let ghost head = crate::yaml::entries_view(entries@);
    assert(head =~= seq![
        (YamlV::Str("name"@), YamlV::Str(name@)),
        (YamlV::Str("start"@), YamlV::Str(start@)),
        (YamlV::Str("workflow"@), YamlV::Str(workflow_name@)),
        (YamlV::Str("log"@), YamlV::List(Seq::empty())),
        (YamlV::Str("gates"@), YamlV::List(Seq::empty())),
        (YamlV::Str("artifacts"@), YamlV::Mapping(Seq::empty())),
    ]);
    while i < ctx.len()
        invariant
            i <= ctx@.len(),
            cv == pairs_view(ctx@),
            entries@.len() == 6 + i,
            crate::yaml::entries_view(entries@) =~= head + cv.take(i as int).map_values(
                |p: (Seq<char>, Seq<char>)| (YamlV::Str(p.0), YamlV::Str(p.1)),
            ),
        decreases ctx@.len() - i,
    {
        let ghost before = entries@;
        entries.push((Yaml::Str(ctx[i].0.clone()), Yaml::Str(ctx[i].1.clone())));
        proof {
            crate::yaml::lemma_entries_view(before);
            crate::yaml::lemma_entries_view(entries@);
            assert(crate::yaml::entries_view(entries@) =~= crate::yaml::entries_view(before).push(
                (YamlV::Str(cv[i as int].0), YamlV::Str(cv[i as int].1)),
            ));
            assert(cv.take(i + 1) =~= cv.take(i as int).push(cv[i as int]));
        }
        i = i + 1;
    }
    assert(cv.take(i as int) =~= cv);
    Yaml::Mapping(entries)
}

}
