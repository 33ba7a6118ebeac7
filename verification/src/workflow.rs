//! A workflow: an ordered chain of steps, each saying what to do, who does it
//! and how it counts as done. Definitions carry no ids: a workflow's id is
//! derived from the workspace id and its name, a step's from the workflow's id
//! and the step's name.
use vstd::prelude::*;
use crate::criterion::{Criterion, CriterionV, criterion_of, executor_spec};
use crate::ids::derive_spec;
use crate::text::views;
use crate::yaml::{Yaml, YamlV, list_view, seq_spec, text_spec};

verus! {

/// One step: its name, what it asks, who does it, and its criteria.
pub struct Step {
    /// Its id; empty until derived.
    pub id: String,
    pub name: String,
    pub description: String,
    pub executor: String,
    pub criteria: Vec<Criterion>,
}

/// The mathematical value of a step.
pub struct StepV {
    pub id: Seq<char>,
    pub name: Seq<char>,
    pub description: Seq<char>,
    pub executor: Seq<char>,
    pub criteria: Seq<CriterionV>,
}

/// The views of criteria.
pub open spec fn criteria_view(cs: Seq<Criterion>) -> Seq<CriterionV> {
    cs.map_values(|c: Criterion| c@)
}

impl View for Step {
    type V = StepV;

    open spec fn view(&self) -> StepV {
        StepV {
            id: self.id@,
            name: self.name@,
            description: self.description@,
            executor: self.executor@,
            criteria: criteria_view(self.criteria@),
        }
    }
}

/// A workflow: its id, name, description and steps in order.
pub struct Workflow {
    /// Its id; empty until derived.
    pub id: String,
    pub name: String,
    pub description: String,
    pub steps: Vec<Step>,
}

/// The mathematical value of a workflow.
pub struct WorkflowV {
    pub id: Seq<char>,
    pub name: Seq<char>,
    pub description: Seq<char>,
    pub steps: Seq<StepV>,
}

/// The views of steps.
pub open spec fn steps_view(ss: Seq<Step>) -> Seq<StepV> {
    ss.map_values(|s: Step| s@)
}

impl View for Workflow {
    type V = WorkflowV;

    open spec fn view(&self) -> WorkflowV {
        WorkflowV {
            id: self.id@,
            name: self.name@,
            description: self.description@,
            steps: steps_view(self.steps@),
        }
    }
}

/// The criteria that definition entries stand for, skipping entries that
/// name no judge or no way to check.
pub open spec fn criteria_of(items: Seq<YamlV>) -> Seq<CriterionV>
    decreases items.len(),
{
    if items.len() == 0 {
        Seq::empty()
    } else {
        let rest = criteria_of(items.drop_first());
        match criterion_of(items[0]) {
            Some(c) => seq![c] + rest,
            None => rest,
        }
    }
}

/// The step a definition entry stands for; a step that names no executor is
/// done by an agent.
pub open spec fn step_of(v: YamlV) -> StepV {
    StepV {
        id: Seq::empty(),
        name: text_spec(v, "name"@),
        description: text_spec(v, "description"@),
        executor: if text_spec(v, "executor"@).len() == 0 {
            "agent"@
        } else {
            text_spec(v, "executor"@)
        },
        criteria: match seq_spec(v, "criteria"@) {
            Some(items) => criteria_of(items),
            None => Seq::empty(),
        },
    }
}

/// The workflow a definition stands for, without ids.
pub open spec fn workflow_of(v: YamlV) -> WorkflowV {
    WorkflowV {
        id: Seq::empty(),
        name: text_spec(v, "name"@),
        description: text_spec(v, "description"@),
        steps: match seq_spec(v, "steps"@) {
            Some(items) => items.map_values(|i: YamlV| step_of(i)),
            None => Seq::empty(),
        },
    }
}

/// A step with its id derived from the workflow's id, when it has none.
pub open spec fn step_credentials(s: StepV, flow_id: Seq<char>) -> StepV {
    if s.id.len() == 0 {
        StepV { id: derive_spec("step"@, seq![flow_id, s.name]), ..s }
    } else {
        s
    }
}

/// The id a workflow carries once its credentials are filled in.
pub open spec fn flow_id(w: WorkflowV, workspace_id: Seq<char>) -> Seq<char> {
    if w.id.len() == 0 {
        derive_spec("workflow"@, seq![workspace_id, w.name])
    } else {
        w.id
    }
}

/// A workflow with the ids it lacks derived: its own from the workspace id and
/// its name, each step's from the workflow's id and the step's name.
pub open spec fn credentials_spec(w: WorkflowV, workspace_id: Seq<char>) -> WorkflowV {
    let id = flow_id(w, workspace_id);
    WorkflowV {
        id,
        steps: w.steps.map_values(|s: StepV| step_credentials(s, id)),
        ..w
    }
}

/// The names of steps, in order.
pub open spec fn names_spec(steps: Seq<StepV>) -> Seq<Seq<char>> {
    steps.map_values(|s: StepV| s.name)
}

/// The first step called `name`.
pub open spec fn find_step(steps: Seq<StepV>, name: Seq<char>) -> Option<StepV>
    decreases steps.len(),
{
    if steps.len() == 0 {
        None
    } else if steps[0].name == name {
        Some(steps[0])
    } else {
        find_step(steps.drop_first(), name)
    }
}

/// The criteria judged by `kind`, in order.
pub open spec fn of_kind_spec(cs: Seq<CriterionV>, kind: Seq<char>) -> Seq<CriterionV>
    decreases cs.len(),
{
    if cs.len() == 0 {
        Seq::empty()
    } else {
        let rest = of_kind_spec(cs.drop_first(), kind);
        if executor_spec(cs[0]) == kind {
            seq![cs[0]] + rest
        } else {
            rest
        }
    }
}

/// Copies criteria.
fn copy_criteria(cs: &Vec<Criterion>) -> (r: Vec<Criterion>)
    ensures
        criteria_view(r@) == criteria_view(cs@),
{
    let mut out: Vec<Criterion> = Vec::new();
    let mut i: usize = 0;
    while i < cs.len()
        invariant
            i <= cs@.len(),
            criteria_view(out@) =~= criteria_view(cs@).take(i as int),
        decreases cs@.len() - i,
    {
        let ghost before = out@;
        let c = cs[i].copy();
        out.push(c);
        proof {
            assert(criteria_view(out@) =~= criteria_view(before).push(c@));
            assert(criteria_view(cs@).take(i + 1) =~= criteria_view(cs@).take(i as int).push(cs@[i as int]@));
        }
        i = i + 1;
    }
    assert(criteria_view(cs@).take(i as int) =~= criteria_view(cs@));
    out
}

impl Step {
    /// Reads a step from its definition entry.
    pub fn of(v: &Yaml) -> (r: Step)
        ensures
            r@ == step_of(v@),
    {
        let executor = crate::yaml::text_of(v, "executor");
        let executor = if executor.unicode_len() == 0 {
            String::from_str(crate::schema::AGENT)
        } else {
            executor
        };
        let mut criteria: Vec<Criterion> = Vec::new();
        match v.get("criteria") {
            Some(list) => match list.as_sequence() {
                Some(items) => {
                    let ghost all = list_view(items@);
                    proof {
                        crate::yaml::lemma_list_view(items@);
                        assert(all.subrange(0, all.len() as int) =~= all);
                    }
                    let mut i: usize = 0;
                    while i < items.len()
                        invariant
                            i <= items@.len(),
                            all == list_view(items@),
                            all.len() == items@.len(),
                            forall|k: int| 0 <= k < items@.len() ==> #[trigger] all[k] == items@[k]@,
                            criteria_of(all) == criteria_view(criteria@) + criteria_of(all.subrange(i as int, all.len() as int)),
                        decreases items@.len() - i,
                    {
                        let ghost here = all.subrange(i as int, all.len() as int);
                        let ghost before = criteria@;
                        proof {
                            assert(here.drop_first() =~= all.subrange(i + 1, all.len() as int));
                            assert(here[0] == items@[i as int]@);
                        }
                        match Criterion::of(&items[i]) {
                            Some(c) => {
                                criteria.push(c);
                                proof {
                                    assert(criteria_view(criteria@) =~= criteria_view(before).push(c@));
                                    assert(criteria_view(before) + (seq![c@] + criteria_of(all.subrange(i + 1, all.len() as int))) =~= criteria_view(criteria@) + criteria_of(all.subrange(i + 1, all.len() as int)));
                                }
                            },
                            None => {},
                        }
                        i = i + 1;
                    }
                    assert(all.subrange(i as int, all.len() as int) =~= Seq::<YamlV>::empty());
                    assert(criteria_view(criteria@) + Seq::<CriterionV>::empty() =~= criteria_view(criteria@));
                },
                None => {},
            },
            None => {},
        }
        proof {
            reveal_strlit("agent");
            reveal_strlit("human");
        }
        assert(criteria_view(criteria@) =~= step_of(v@).criteria);
        Step {
            id: String::new(),
            name: crate::yaml::text_of(v, "name"),
            description: crate::yaml::text_of(v, "description"),
            executor,
            criteria,
        }
    }

    /// A copy of this step.
    pub fn copy(&self) -> (r: Step)
        ensures
            r@ == self@,
    {
        Step {
            id: self.id.clone(),
            name: self.name.clone(),
            description: self.description.clone(),
            executor: self.executor.clone(),
            criteria: copy_criteria(&self.criteria),
        }
    }

    /// The criteria of this step.
    pub fn criteria(&self) -> (r: Vec<Criterion>)
        ensures
            criteria_view(r@) == criteria_view(self.criteria@),
    {
        copy_criteria(&self.criteria)
    }

    /// The criteria judged by `kind`, in order.
    fn of_kind(&self, kind: &str) -> (r: Vec<Criterion>)
        ensures
            criteria_view(r@) == of_kind_spec(self@.criteria, kind@),
    {
        let ghost all = criteria_view(self.criteria@);
        let mut out: Vec<Criterion> = Vec::new();
        let mut i: usize = 0;
        assert(all.subrange(0, all.len() as int) =~= all);
        while i < self.criteria.len()
            invariant
                i <= self.criteria@.len(),
                all == criteria_view(self.criteria@),
                of_kind_spec(all, kind@) == criteria_view(out@) + of_kind_spec(all.subrange(i as int, all.len() as int), kind@),
            decreases self.criteria@.len() - i,
        {
            let ghost here = all.subrange(i as int, all.len() as int);
            let ghost before = out@;
            proof {
                assert(here.drop_first() =~= all.subrange(i + 1, all.len() as int));
            }
            if crate::yaml::same(self.criteria[i].executor(), kind) {
                let c = self.criteria[i].copy();
                out.push(c);
                proof {
                    assert(criteria_view(out@) =~= criteria_view(before).push(c@));
                    assert(criteria_view(before) + (seq![c@] + of_kind_spec(all.subrange(i + 1, all.len() as int), kind@)) =~= criteria_view(out@) + of_kind_spec(all.subrange(i + 1, all.len() as int), kind@));
                }
            }
            i = i + 1;
        }
        assert(all.subrange(i as int, all.len() as int) =~= Seq::<CriterionV>::empty());
        assert(criteria_view(out@) + Seq::<CriterionV>::empty() =~= criteria_view(out@));
        out
    }

    /// The criteria the program checks.
    pub fn rules(&self) -> (r: Vec<Criterion>)
        ensures
            criteria_view(r@) == of_kind_spec(self@.criteria, "rule"@),
    {
        self.of_kind(crate::schema::RULE)
    }

    /// The criteria an AI judge judges.
    pub fn agents(&self) -> (r: Vec<Criterion>)
        ensures
            criteria_view(r@) == of_kind_spec(self@.criteria, "agent"@),
    {
        self.of_kind(crate::schema::AGENT)
    }

    /// The gates: criteria only a person may pass.
    pub fn gates(&self) -> (r: Vec<Criterion>)
        ensures
            criteria_view(r@) == of_kind_spec(self@.criteria, "human"@),
    {
        self.of_kind(crate::schema::HUMAN)
    }
}

/// Copies steps.
fn copy_steps(ss: &Vec<Step>) -> (r: Vec<Step>)
    ensures
        steps_view(r@) == steps_view(ss@),
{
    let mut out: Vec<Step> = Vec::new();
    let mut i: usize = 0;
    while i < ss.len()
        invariant
            i <= ss@.len(),
            steps_view(out@) =~= steps_view(ss@).take(i as int),
        decreases ss@.len() - i,
    {
        let ghost before = out@;
        let s = ss[i].copy();
        out.push(s);
        proof {
            assert(steps_view(out@) =~= steps_view(before).push(s@));
            assert(steps_view(ss@).take(i + 1) =~= steps_view(ss@).take(i as int).push(ss@[i as int]@));
        }
        i = i + 1;
    }
    assert(steps_view(ss@).take(i as int) =~= steps_view(ss@));
    out
}

impl Workflow {
    /// Reads a workflow from its definition, without ids.
    pub fn of(payload: &Yaml) -> (r: Workflow)
        ensures
            r@ == workflow_of(payload@),
    {
        let mut steps: Vec<Step> = Vec::new();
        match payload.get("steps") {
            Some(v) => match v.as_sequence() {
                Some(items) => {
                    proof {
                        crate::yaml::lemma_list_view(items@);
                    }
                    let mut i: usize = 0;
                    while i < items.len()
                        invariant
                            i <= items@.len(),
                            list_view(items@).len() == items@.len(),
                            forall|k: int| 0 <= k < items@.len() ==> #[trigger] list_view(items@)[k] == items@[k]@,
                            steps_view(steps@) =~= list_view(items@).take(i as int).map_values(|x: YamlV| step_of(x)),
                        decreases items@.len() - i,
                    {
                        let ghost before = steps@;
                        let s = Step::of(&items[i]);
                        steps.push(s);
                        proof {
                            assert(steps_view(steps@) =~= steps_view(before).push(s@));
                            assert(list_view(items@).take(i + 1) =~= list_view(items@).take(i as int).push(items@[i as int]@));
                        }
                        i = i + 1;
                    }
                    assert(list_view(items@).take(i as int) =~= list_view(items@));
                },
                None => {},
            },
            None => {},
        }
        assert(steps_view(steps@) =~= workflow_of(payload@).steps);
        Workflow {
            id: String::new(),
            name: crate::yaml::text_of(payload, "name"),
            description: crate::yaml::text_of(payload, "description"),
            steps,
        }
    }

    /// Fills in the ids this workflow lacks: its own from the
    /// workspace id and its name, each step's from its own id and the step's name.
    pub fn credentials(self, workspace_id: &str) -> (r: Workflow)
        ensures
            r@ == credentials_spec(self@, workspace_id@),
    {
        let mut flow = self;
        let ghost w = flow@;
        if flow.id.unicode_len() == 0 {
            let mut parts: Vec<String> = Vec::new();
            parts.push(String::from_str(workspace_id));
            parts.push(flow.name.clone());
            assert(views(parts@) =~= seq![workspace_id@, w.name]);
            flow.id = crate::ids::derive("workflow", &parts);
        }
        let ghost id = flow.id@;
        assert(id == flow_id(w, workspace_id@));
        let mut steps: Vec<Step> = Vec::new();
        let mut i: usize = 0;
        while i < flow.steps.len()
            invariant
                i <= flow.steps@.len(),
                steps_view(flow.steps@) == w.steps,
                flow.id@ == id,
                steps_view(steps@) =~= w.steps.take(i as int).map_values(|s: StepV| step_credentials(s, id)),
            decreases flow.steps@.len() - i,
        {
            let ghost before = steps@;
            let mut s = flow.steps[i].copy();
            if s.id.unicode_len() == 0 {
                let mut parts: Vec<String> = Vec::new();
                parts.push(flow.id.clone());
                parts.push(s.name.clone());
                assert(views(parts@) =~= seq![id, s.name@]);
                s.id = crate::ids::derive("step", &parts);
            }
            steps.push(s);
            proof {
                assert(steps_view(steps@) =~= steps_view(before).push(s@));
                assert(w.steps.take(i + 1) =~= w.steps.take(i as int).push(w.steps[i as int]));
            }
            i = i + 1;
        }
        assert(w.steps.take(i as int) =~= w.steps);
        Workflow { id: flow.id, name: flow.name, description: flow.description, steps }
    }

    /// The description.
    pub fn description(&self) -> (r: String)
        ensures
            r@ == self@.description,
    {
        self.description.clone()
    }

    /// The steps, in order.
    pub fn steps(&self) -> (r: Vec<Step>)
        ensures
            steps_view(r@) == self@.steps,
    {
        copy_steps(&self.steps)
    }

    /// The names of the steps, in order.
    pub fn step_names(&self) -> (r: Vec<String>)
        ensures
            views(r@) == names_spec(self@.steps),
    {
        let mut out: Vec<String> = Vec::new();
        let mut i: usize = 0;
        while i < self.steps.len()
            invariant
                i <= self.steps@.len(),
                views(out@) =~= names_spec(self@.steps).take(i as int),
            decreases self.steps@.len() - i,
        {
            out.push(self.steps[i].name.clone());
            proof {
                assert(names_spec(self@.steps).take(i + 1) =~= names_spec(self@.steps).take(i as int).push(self.steps@[i as int].name@));
            }
            i = i + 1;
        }
        assert(names_spec(self@.steps).take(i as int) =~= names_spec(self@.steps));
        out
    }

    /// The first step called `name`.
    pub fn step(&self, name: &str) -> (r: Option<Step>)
        ensures
            match find_step(self@.steps, name@) {
                Some(s) => r is Some && r->0@ == s,
                None => r is None,
            },
    {
        let ghost all = self@.steps;
        let mut i: usize = 0;
        assert(all.subrange(0, all.len() as int) =~= all);
        while i < self.steps.len()
            invariant
                i <= self.steps@.len(),
                all == self@.steps,
                find_step(all, name@) == find_step(all.subrange(i as int, all.len() as int), name@),
            decreases self.steps@.len() - i,
        {
            proof {
                assert(all.subrange(i as int, all.len() as int).drop_first() =~= all.subrange(i + 1, all.len() as int));
            }
            if crate::yaml::same(self.steps[i].name.as_str(), name) {
                return Some(self.steps[i].copy());
            }
            i = i + 1;
        }
        None
    }
}


/// The description a new workflow gets: the note trimmed, or a standing one.
pub open spec fn note_spec(note: Seq<char>) -> Seq<char> {
    if crate::text::trim_spec(note).len() == 0 {
        "步骤串联：写清每步做什么、谁执行、怎么判。"@
    } else {
        crate::text::trim_spec(note)
    }
}

/// A string entry.
pub open spec fn pair(key: Seq<char>, value: Seq<char>) -> (YamlV, YamlV) {
    (YamlV::Str(key), YamlV::Str(value))
}

/// The skeleton of a new step: what to do, done by an agent, a rule and a gate
/// to fill in.
pub open spec fn step_skeleton(name: Seq<char>) -> YamlV {
    YamlV::Mapping(
        seq![
            pair("name"@, name),
            pair("description"@, "<"@ + name + "这一步做什么>"@),
            pair("executor"@, "agent"@),
            (
                YamlV::Str("criteria"@),
                YamlV::List(
                    seq![
                        YamlV::Mapping(seq![pair("executor"@, "rule"@), pair("path"@, "data/journal/README.md"@)]),
                        YamlV::Mapping(seq![pair("executor"@, "human"@), pair("description"@, "<只能人拍板的>"@)]),
                    ],
                ),
            ),
        ],
    )
}

/// The definition of a new workflow: its name, description and step skeletons.
pub open spec fn skeleton_spec(name: Seq<char>, steps: Seq<Seq<char>>, note: Seq<char>) -> YamlV {
    YamlV::Mapping(
        seq![
            pair("name"@, name),
            pair("description"@, note_spec(note)),
            (YamlV::Str("steps"@), YamlV::List(steps.map_values(|s: Seq<char>| step_skeleton(s)))),
        ],
    )
}

/// A string entry.
fn text_pair(key: &str, value: &str) -> (r: (Yaml, Yaml))
    ensures
        (r.0@, r.1@) == pair(key@, value@),
{
    (Yaml::Str(String::from_str(key)), Yaml::Str(String::from_str(value)))
}

/// A mapping from its entries.
fn mapping(entries: Vec<(Yaml, Yaml)>, target: Ghost<Seq<(YamlV, YamlV)>>) -> (r: Yaml)
    requires
        entries@.len() == target@.len(),
        forall|k: int| 0 <= k < entries@.len() ==> (#[trigger] entries@[k].0@, entries@[k].1@) == target@[k],
    ensures
        r@ == YamlV::Mapping(target@),
{
    proof {
        crate::yaml::lemma_entries_view(entries@);
        assert forall|k: int| 0 <= k < entries@.len() implies #[trigger] crate::yaml::entries_view(entries@)[k] == target@[k] by {
            assert((entries@[k].0@, entries@[k].1@) == target@[k]);
        }
        assert(crate::yaml::entries_view(entries@) =~= target@);
    }
    Yaml::Mapping(entries)
}

/// The skeleton of a new step.
fn skeleton_step(name: &str) -> (r: Yaml)
    ensures
        r@ == step_skeleton(name@),
{
    let ghost rt = seq![pair("executor"@, "rule"@), pair("path"@, "data/journal/README.md"@)];
    let rule = mapping(vec![text_pair("executor", "rule"), text_pair("path", "data/journal/README.md")], Ghost(rt));
    let ghost gt = seq![pair("executor"@, "human"@), pair("description"@, "<只能人拍板的>"@)];
    let gate = mapping(vec![text_pair("executor", "human"), text_pair("description", "<只能人拍板的>")], Ghost(gt));
    let criteria = vec![rule, gate];
    proof {
        crate::yaml::lemma_list_view(criteria@);
        assert(list_view(criteria@) =~= seq![rule@, gate@]);
    }
    let mut what = crate::text::cat("<", name);
    what.append("这一步做什么>");
    let list = Yaml::List(criteria);
    let ghost lv = list@;
    let ghost st = seq![
        pair("name"@, name@),
        pair("description"@, "<"@ + name@ + "这一步做什么>"@),
        pair("executor"@, "agent"@),
        (YamlV::Str("criteria"@), lv),
    ];
    mapping(
        vec![
            text_pair("name", name),
            text_pair("description", what.as_str()),
            text_pair("executor", "agent"),
            (Yaml::Str(String::from_str("criteria")), list),
        ],
        Ghost(st),
    )
}

/// The definition of a new workflow (without the file): every step
/// done by an agent, with a rule and a gate to fill in.
pub fn skeleton(name: &str, steps: &Vec<String>, note: &str) -> (r: Yaml)
    ensures
        r@ == skeleton_spec(name@, views(steps@), note@),
{
    let trimmed = crate::text::trim(note);
    let description = if trimmed.unicode_len() == 0 {
        String::from_str("步骤串联：写清每步做什么、谁执行、怎么判。")
    } else {
        trimmed
    };
    let mut items: Vec<Yaml> = Vec::new();
    let mut i: usize = 0;
    while i < steps.len()
        invariant
            i <= steps@.len(),
            list_view(items@) =~= views(steps@).take(i as int).map_values(|s: Seq<char>| step_skeleton(s)),
        decreases steps@.len() - i,
    {
        let ghost before = items@;
        let y = skeleton_step(steps[i].as_str());
        items.push(y);
        proof {
            crate::yaml::lemma_list_view(before);
            crate::yaml::lemma_list_view(items@);
            assert(list_view(items@) =~= list_view(before).push(y@));
            assert(views(steps@).take(i + 1) =~= views(steps@).take(i as int).push(steps@[i as int]@));
        }
        i = i + 1;
    }
    assert(views(steps@).take(i as int) =~= views(steps@));
    let list = Yaml::List(items);
    let ghost lv = list@;
    let ghost dt = seq![pair("name"@, name@), pair("description"@, note_spec(note@)), (YamlV::Str("steps"@), lv)];
    mapping(
        vec![text_pair("name", name), text_pair("description", description.as_str()), (Yaml::Str(String::from_str("steps")), list)],
        Ghost(dt),
    )
}

/// Why a workflow cannot be written: no name, or no step.
pub open spec fn create_refusal(name: Seq<char>, steps: Seq<Seq<char>>) -> Option<Seq<char>> {
    if crate::text::trim_spec(name).len() == 0 {
        Some("请先给工作流起个名字"@)
    } else if forall|k: int| 0 <= k < steps.len() ==> crate::text::trim_spec(#[trigger] steps[k]).len() == 0 {
        Some("至少给一个步骤：--steps 甲,乙,丙"@)
    } else {
        None
    }
}

/// Why a workflow cannot be written, if it cannot.
pub fn create_check(name: &str, steps: &Vec<String>) -> (r: Option<String>)
    ensures
        crate::text::opt_view(r) == create_refusal(name@, views(steps@)),
{
    if crate::text::trim(name).unicode_len() == 0 {
        return Some(String::from_str("请先给工作流起个名字"));
    }
    let mut i: usize = 0;
    while i < steps.len()
        invariant
            i <= steps@.len(),
            crate::text::trim_spec(name@).len() > 0,
            forall|k: int| 0 <= k < i ==> crate::text::trim_spec(#[trigger] views(steps@)[k]).len() == 0,
        decreases steps@.len() - i,
    {
        if crate::text::trim(steps[i].as_str()).unicode_len() > 0 {
            assert(crate::text::trim_spec(views(steps@)[i as int]).len() > 0);
            return None;
        }
        i = i + 1;
    }
    Some(String::from_str("至少给一个步骤：--steps 甲,乙,丙"))
}

/// The pieces of a comma list, trimmed, empty ones dropped.
pub open spec fn split_steps_spec(pieces: Seq<Seq<char>>) -> Seq<Seq<char>>
    decreases pieces.len(),
{
    if pieces.len() == 0 {
        Seq::empty()
    } else {
        let rest = split_steps_spec(pieces.drop_first());
        if crate::text::trim_spec(pieces[0]).len() > 0 {
            seq![crate::text::trim_spec(pieces[0])] + rest
        } else {
            rest
        }
    }
}

/// The steps a comma list names, trimmed, empty ones dropped.
pub fn split_steps(text: &str) -> (r: Vec<String>)
    ensures
        views(r@) == split_steps_spec(crate::text::split_spec(text@, ',')),
{
    let pieces = crate::text::split(text, ',');
    let ghost pv = views(pieces@);
    let mut out: Vec<String> = Vec::new();
    let mut i: usize = 0;
    assert(pv.subrange(0, pv.len() as int) =~= pv);
    assert(views(out@) =~= Seq::<Seq<char>>::empty());
    while i < pieces.len()
        invariant
            i <= pieces@.len(),
            pv == views(pieces@),
            split_steps_spec(pv) == views(out@) + split_steps_spec(pv.subrange(i as int, pv.len() as int)),
        decreases pieces@.len() - i,
    {
        let ghost here = pv.subrange(i as int, pv.len() as int);
        let ghost before = out@;
        proof {
            assert(here.drop_first() =~= pv.subrange(i + 1, pv.len() as int));
            assert(here[0] == pieces@[i as int]@);
        }
        let t = crate::text::trim(pieces[i].as_str());
        if t.unicode_len() > 0 {
            out.push(t);
            proof {
                assert(views(out@) =~= views(before).push(t@));
                assert(views(before) + (seq![t@] + split_steps_spec(here.drop_first())) =~= views(out@) + split_steps_spec(here.drop_first()));
            }
        }
        i = i + 1;
    }
    assert(pv.subrange(i as int, pv.len() as int) =~= Seq::<Seq<char>>::empty());
    assert(views(out@) + Seq::<Seq<char>>::empty() =~= views(out@));
    out
}

/// The name an imported workflow takes: the one asked for, else the one it
/// carries, else the stem of its file.
pub open spec fn import_name_spec(name: Seq<char>, payload: YamlV, source: Seq<char>) -> Seq<char> {
    if crate::text::trim_spec(name).len() > 0 {
        crate::text::trim_spec(name)
    } else if text_spec(payload, "name"@).len() > 0 {
        text_spec(payload, "name"@)
    } else {
        match crate::paths::path_file_stem(source) {
            Some(s) => s,
            None => Seq::empty(),
        }
    }
}

/// The name an imported workflow takes.
pub fn import_name(name: &str, payload: &Yaml, source: &str) -> (r: String)
    ensures
        r@ == import_name_spec(name@, payload@, source@),
{
    let asked = crate::text::trim(name);
    if asked.unicode_len() > 0 {
        return asked;
    }
    let carried = crate::yaml::text_of(payload, "name");
    if carried.unicode_len() > 0 {
        return carried;
    }
    match crate::paths::file_stem(source) {
        Some(s) => s,
        None => String::new(),
    }
}


/// A text that starts and ends with something other than white space is trimmed.
proof fn lemma_trim_plain(s: Seq<char>)
    requires
        s.len() > 0,
        !crate::text::is_ws(s[0]),
        !crate::text::is_ws(s.last()),
    ensures
        crate::text::trim_spec(s) == s,
{
}

/// Keys that are all allowed leave no unknown field.
proof fn lemma_keys_allowed(entries: Seq<(YamlV, YamlV)>, allowed: Seq<Seq<char>>)
    requires
        forall|k: int| 0 <= k < entries.len() ==> ((#[trigger] entries[k]).0 matches YamlV::Str(key) && allowed.contains(key)),
    ensures
        crate::schema::missing_keys(crate::yaml::str_keys(entries), allowed).len() == 0,
    decreases entries.len(),
{
    if entries.len() > 0 {
        assert forall|k: int| 0 <= k < entries.drop_first().len() implies ((#[trigger] entries.drop_first()[k]).0 matches YamlV::Str(key) && allowed.contains(key)) by {
            assert(entries.drop_first()[k] == entries[k + 1]);
        }
        lemma_keys_allowed(entries.drop_first(), allowed);
        let keys = crate::yaml::str_keys(entries);
        let rest = crate::yaml::str_keys(entries.drop_first());
        assert((entries[0].0 matches YamlV::Str(key) && allowed.contains(key)));
        if let YamlV::Str(key) = entries[0].0 {
            assert(keys == seq![key] + rest);
            assert(keys.drop_first() =~= rest);
        }
    }
}

/// Every step from `k` on is sound, so none has a fault.
proof fn lemma_steps_sound(steps: Seq<YamlV>, k: int)
    requires
        0 <= k <= steps.len(),
        forall|j: int| k <= j < steps.len() ==> crate::schema::step_fault(#[trigger] steps[j], (j + 1) as nat) is None,
    ensures
        crate::schema::steps_fault(steps, k) is None,
    decreases steps.len() - k,
{
    if k < steps.len() {
        lemma_steps_sound(steps, k + 1);
    }
}

/// The rule of a step skeleton has no fault.
proof fn lemma_rule_sound(where_: Seq<char>)
    ensures
        crate::schema::criterion_fault(
            YamlV::Mapping(seq![pair("executor"@, "rule"@), pair("path"@, "data/journal/README.md"@)]),
            where_,
        ) is None,
{
    reveal_strlit("executor");
    reveal_strlit("rule");
    reveal_strlit("path");
    reveal_strlit("absent");
    reveal_strlit("file");
    reveal_strlit("contains");
    reveal_strlit("run");
    reveal_strlit("description");
    reveal_strlit("agent");
    reveal_strlit("human");
    assert("executor"@.len() == 8 && "executor"@[0] == 'e');
    assert("path"@.len() == 4 && "path"@[0] == 'p');
    assert("absent"@.len() == 6);
    assert("file"@.len() == 4 && "file"@[0] == 'f');
    assert("contains"@.len() == 8 && "contains"@[0] == 'c');
    assert("run"@.len() == 3);
    assert("description"@.len() == 11);
    let m = seq![pair("executor"@, "rule"@), pair("path"@, "data/journal/README.md"@)];
    let c = YamlV::Mapping(m);
    crate::yaml::lemma_lookup_at(m, "executor"@, 0);
    lemma_trim_plain("rule"@);
    assert(crate::yaml::text_spec(c, "executor"@) == "rule"@);
    lemma_keys_allowed(m, crate::schema::criterion_fields());
    crate::yaml::lemma_lookup_at(m, "path"@, 1);
    assert(crate::yaml::lookup(m, "absent"@) is None) by {
        reveal_with_fuel(crate::yaml::lookup, 3);
    }
    assert(crate::yaml::lookup(m, "file"@) is None) by {
        reveal_with_fuel(crate::yaml::lookup, 3);
    }
    assert(crate::yaml::lookup(m, "contains"@) is None) by {
        reveal_with_fuel(crate::yaml::lookup, 3);
    }
    assert(crate::yaml::lookup(m, "run"@) is None) by {
        reveal_with_fuel(crate::yaml::lookup, 3);
    }
    let given = crate::schema::given_spec(c);
    assert(given =~= seq!["path"@]) by {
        reveal_with_fuel(crate::schema::given_in, 6);
    }
    assert(crate::schema::others_spec(given) =~= seq!["path"@]) by {
        reveal_with_fuel(crate::schema::others_spec, 2);
    }
    assert(!given.contains("contains"@));
    assert(!given.contains("file"@));
}

/// No fault is found in the human criterion of a fresh step.
proof fn lemma_gate_sound(where_: Seq<char>)
    ensures
        crate::schema::criterion_fault(
            YamlV::Mapping(seq![pair("executor"@, "human"@), pair("description"@, "<只能人拍板的>"@)]),
            where_,
        ) is None,
{
    reveal_strlit("executor");
    reveal_strlit("rule");
    reveal_strlit("path");
    reveal_strlit("absent");
    reveal_strlit("file");
    reveal_strlit("contains");
    reveal_strlit("run");
    reveal_strlit("description");
    reveal_strlit("agent");
    reveal_strlit("human");
    reveal_strlit("<只能人拍板的>");
    assert("executor"@.len() == 8 && "executor"@[0] == 'e');
    assert("path"@.len() == 4 && "path"@[0] == 'p');
    assert("absent"@.len() == 6);
    assert("file"@.len() == 4 && "file"@[0] == 'f');
    assert("contains"@.len() == 8 && "contains"@[0] == 'c');
    assert("run"@.len() == 3);
    assert("description"@.len() == 11);
    let m = seq![pair("executor"@, "human"@), pair("description"@, "<只能人拍板的>"@)];
    let c = YamlV::Mapping(m);
    crate::yaml::lemma_lookup_at(m, "executor"@, 0);
    lemma_trim_plain("human"@);
    assert(crate::yaml::text_spec(c, "executor"@) == "human"@);
    lemma_keys_allowed(m, crate::schema::criterion_fields());
    crate::yaml::lemma_lookup_at(m, "description"@, 1);
    lemma_trim_plain("<只能人拍板的>"@);
    assert(crate::yaml::text_spec(c, "description"@).len() > 0);
    assert(crate::yaml::lookup(m, "path"@) is None) by {
        reveal_with_fuel(crate::yaml::lookup, 3);
    }
    assert(crate::yaml::lookup(m, "absent"@) is None) by {
        reveal_with_fuel(crate::yaml::lookup, 3);
    }
    assert(crate::yaml::lookup(m, "file"@) is None) by {
        reveal_with_fuel(crate::yaml::lookup, 3);
    }
    assert(crate::yaml::lookup(m, "contains"@) is None) by {
        reveal_with_fuel(crate::yaml::lookup, 3);
    }
    assert(crate::yaml::lookup(m, "run"@) is None) by {
        reveal_with_fuel(crate::yaml::lookup, 3);
    }
    assert(crate::schema::given_spec(c) =~= Seq::<Seq<char>>::empty()) by {
        reveal_with_fuel(crate::schema::given_in, 6);
    }
}

/// A step skeleton has no fault, when its name is not blank.
proof fn lemma_step_skeleton_sound(name: Seq<char>, index: nat)
    requires
        crate::text::trim_spec(name).len() > 0,
    ensures
        crate::schema::step_fault(step_skeleton(name), index) is None,
{
    reveal_strlit("name");
    reveal_strlit("description");
    reveal_strlit("executor");
    reveal_strlit("criteria");
    reveal_strlit("agent");
    reveal_strlit("human");
    assert("name"@.len() == 4);
    assert("description"@.len() == 11);
    assert("executor"@.len() == 8 && "executor"@[0] == 'e');
    assert("criteria"@.len() == 8 && "criteria"@[0] == 'c');
    let rule = YamlV::Mapping(seq![pair("executor"@, "rule"@), pair("path"@, "data/journal/README.md"@)]);
    let gate = YamlV::Mapping(seq![pair("executor"@, "human"@), pair("description"@, "<只能人拍板的>"@)]);
    let items = seq![rule, gate];
    let m = seq![
        pair("name"@, name),
        pair("description"@, "<"@ + name + "这一步做什么>"@),
        pair("executor"@, "agent"@),
        (YamlV::Str("criteria"@), YamlV::List(items)),
    ];
    let step = step_skeleton(name);
    assert(step == YamlV::Mapping(m));
    crate::yaml::lemma_lookup_at(m, "name"@, 0);
    crate::yaml::lemma_lookup_at(m, "executor"@, 2);
    crate::yaml::lemma_lookup_at(m, "criteria"@, 3);
    lemma_trim_plain("agent"@);
    assert(crate::schema::executor_spec(step) == "agent"@);
    lemma_keys_allowed(m, crate::schema::step_fields());
    lemma_rule_sound(crate::schema::where_spec(index, 1));
    lemma_gate_sound(crate::schema::where_spec(index, 2));
    assert(crate::schema::criteria_fault(items, index, 0) is None) by {
        reveal_with_fuel(crate::schema::criteria_fault, 3);
    }
}

/// A new workflow's definition follows the schema, when its name and each of
/// its steps are not blank and it has a step: what is written can be read back.
pub proof fn lemma_skeleton_well_formed(name: Seq<char>, steps: Seq<Seq<char>>, note: Seq<char>)
    requires
        crate::text::trim_spec(name).len() > 0,
        steps.len() > 0,
        forall|k: int| 0 <= k < steps.len() ==> crate::text::trim_spec(#[trigger] steps[k]).len() > 0,
    ensures
        crate::schema::well_formed(skeleton_spec(name, steps, note)),
{
    reveal_strlit("name");
    reveal_strlit("description");
    reveal_strlit("steps");
    assert("name"@.len() == 4);
    assert("description"@.len() == 11);
    assert("steps"@.len() == 5);
    let list = steps.map_values(|s: Seq<char>| step_skeleton(s));
    let m = seq![pair("name"@, name), pair("description"@, note_spec(note)), (YamlV::Str("steps"@), YamlV::List(list))];
    let doc = skeleton_spec(name, steps, note);
    assert(doc == YamlV::Mapping(m));
    crate::yaml::lemma_lookup_at(m, "name"@, 0);
    crate::yaml::lemma_lookup_at(m, "steps"@, 2);
    lemma_keys_allowed(m, crate::schema::top_fields());
    assert forall|j: int| 0 <= j < list.len() implies crate::schema::step_fault(#[trigger] list[j], (j + 1) as nat) is None by {
        lemma_step_skeleton_sound(steps[j], (j + 1) as nat);
    }
    lemma_steps_sound(list, 0);
}

}
