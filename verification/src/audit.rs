//! Running the rules of a definition. A rule is made of fields: `path` (the
//! path exists), `absent` (it does not), `file` with `contains` (the file holds
//! the text), `run` (the command, run at the workspace root, exits with zero).
//! Paths are relative to the workspace root. What the file system and the
//! command answered comes in as a probe; the verdict is computed here.
use vstd::prelude::*;
use crate::criterion::{Criterion, CriterionV, text_spec_of};
use crate::text::{lines_spec, trim_spec, views};

verus! {

/// How a rule is checked.
#[derive(PartialEq, Eq, Structural)]
pub enum Kind {
    /// The path exists.
    Path,
    /// The path does not exist.
    Absent,
    /// The file holds a text.
    Contains,
    /// The command exits with zero.
    Run,
}

/// One criterion to run: its description and how it is checked; no kind
/// means it is not run here but left to an agent or a person.
pub struct Item {
    pub description: String,
    pub kind: Option<Kind>,
    pub args: Vec<String>,
}

/// The mathematical value of an item.
pub struct ItemV {
    pub description: Seq<char>,
    pub kind: Option<Kind>,
    pub args: Seq<Seq<char>>,
}

impl View for Item {
    type V = ItemV;

    open spec fn view(&self) -> ItemV {
        ItemV { description: self.description@, kind: self.kind, args: views(self.args@) }
    }
}

/// The views of items.
pub open spec fn items_view(v: Seq<Item>) -> Seq<ItemV> {
    v.map_values(|i: Item| i@)
}

/// The item a criterion is run as: a rule by its field, anything else not run.
pub open spec fn item_of(c: CriterionV) -> ItemV {
    let d = text_spec_of(c);
    match c {
        CriterionV::PathExists { path, .. } => ItemV { description: d, kind: Some(Kind::Path), args: seq![path] },
        CriterionV::PathAbsent { path, .. } => ItemV { description: d, kind: Some(Kind::Absent), args: seq![path] },
        CriterionV::FileContains { file, contains, .. } => ItemV {
            description: d,
            kind: Some(Kind::Contains),
            args: seq![file, contains],
        },
        CriterionV::CommandRun { run, .. } => ItemV { description: d, kind: Some(Kind::Run), args: seq![run] },
        _ => ItemV { description: d, kind: None, args: Seq::empty() },
    }
}

/// An item carries the arguments its kind needs.
pub open spec fn item_ready(i: ItemV) -> bool {
    match i.kind {
        Some(Kind::Contains) => i.args.len() >= 2,
        Some(_) => i.args.len() >= 1,
        None => true,
    }
}

impl Item {
    /// Whether the program runs this item.
    pub fn machine(&self) -> (r: bool)
        ensures
            r == self@.kind is Some,
    {
        self.kind.is_some()
    }

    /// A copy of this item.
    pub fn copy(&self) -> (r: Item)
        ensures
            r@ == self@,
    {
        let kind = match &self.kind {
            Some(Kind::Path) => Some(Kind::Path),
            Some(Kind::Absent) => Some(Kind::Absent),
            Some(Kind::Contains) => Some(Kind::Contains),
            Some(Kind::Run) => Some(Kind::Run),
            None => None,
        };
        let mut args: Vec<String> = Vec::new();
        let mut i: usize = 0;
        while i < self.args.len()
            invariant
                i <= self.args@.len(),
                views(args@) =~= views(self.args@).take(i as int),
            decreases self.args@.len() - i,
        {
            args.push(self.args[i].clone());
            proof {
                assert(views(self.args@).take(i + 1) =~= views(self.args@).take(i as int).push(self.args@[i as int]@));
            }
            i = i + 1;
        }
        assert(views(self.args@).take(i as int) =~= views(self.args@));
        Item { description: self.description.clone(), kind, args }
    }
}

/// The item a criterion is run as.
fn item_for(c: &Criterion) -> (r: Item)
    ensures
        r@ == item_of(c@),
{
    let description = c.text();
    match c {
        Criterion::PathExists { path, .. } => {
            let args = vec![path.clone()];
            assert(views(args@) =~= seq![path@]);
            Item { description, kind: Some(Kind::Path), args }
        },
        Criterion::PathAbsent { path, .. } => {
            let args = vec![path.clone()];
            assert(views(args@) =~= seq![path@]);
            Item { description, kind: Some(Kind::Absent), args }
        },
        Criterion::FileContains { file, contains, .. } => {
            let args = vec![file.clone(), contains.clone()];
            assert(views(args@) =~= seq![file@, contains@]);
            Item { description, kind: Some(Kind::Contains), args }
        },
        Criterion::CommandRun { run, .. } => {
            let args = vec![run.clone()];
            assert(views(args@) =~= seq![run@]);
            Item { description, kind: Some(Kind::Run), args }
        },
        _ => {
            let args: Vec<String> = Vec::new();
            assert(views(args@) =~= Seq::<Seq<char>>::empty());
            Item { description, kind: None, args }
        },
    }
}

/// The items criteria are run as: rules run, the rest are left.
pub fn items_of(criteria: &Vec<Criterion>) -> (r: Vec<Item>)
    ensures
        items_view(r@) == crate::workflow::criteria_view(criteria@).map_values(|c: CriterionV| item_of(c)),
{
    let mut out: Vec<Item> = Vec::new();
    let mut i: usize = 0;
    while i < criteria.len()
        invariant
            i <= criteria@.len(),
            items_view(out@) =~= crate::workflow::criteria_view(criteria@).take(i as int).map_values(|c: CriterionV| item_of(c)),
        decreases criteria@.len() - i,
    {
        let ghost before = out@;
        let item = item_for(&criteria[i]);
        out.push(item);
        proof {
            assert(items_view(out@) =~= items_view(before).push(item@));
            assert(crate::workflow::criteria_view(criteria@).take(i + 1) =~= crate::workflow::criteria_view(criteria@).take(i as int).push(criteria@[i as int]@));
        }
        i = i + 1;
    }
    assert(crate::workflow::criteria_view(criteria@).take(i as int) =~= crate::workflow::criteria_view(criteria@));
    out
}

/// What the file system or the shell answered for one item.
pub enum Probe {
    /// Whether the path exists.
    Exists(bool),
    /// The file's text; `None` when it is not a file.
    Body(Option<String>),
    /// The command ran: whether it exited with zero, and what it printed.
    Ran { success: bool, stdout: String, stderr: String },
    /// The command could not be started, with the reason.
    Failed(String),
}

/// The mathematical value of a probe.
pub enum ProbeV {
    Exists(bool),
    Body(Option<Seq<char>>),
    Ran { success: bool, stdout: Seq<char>, stderr: Seq<char> },
    Failed(Seq<char>),
}

impl View for Probe {
    type V = ProbeV;

    open spec fn view(&self) -> ProbeV {
        match self {
            Probe::Exists(b) => ProbeV::Exists(*b),
            Probe::Body(b) => ProbeV::Body(crate::text::opt_view(*b)),
            Probe::Ran { success, stdout, stderr } => ProbeV::Ran { success: *success, stdout: stdout@, stderr: stderr@ },
            Probe::Failed(e) => ProbeV::Failed(e@),
        }
    }
}

/// The last line of what a failed command printed (its errors first, else its
/// output), trimmed; `无输出` when it printed nothing.
pub open spec fn tail_spec(stdout: Seq<char>, stderr: Seq<char>) -> Seq<char> {
    let text = if trim_spec(stderr).len() == 0 {
        trim_spec(stdout)
    } else {
        trim_spec(stderr)
    };
    if lines_spec(text).len() == 0 {
        "无输出"@
    } else {
        trim_spec(lines_spec(text).last())
    }
}

/// The verdict on an item from its probe: whether it passed, and what was checked.
pub open spec fn verdict_spec(i: ItemV, p: ProbeV) -> (bool, Seq<char>) {
    match i.kind {
        Some(Kind::Path) => match p {
            ProbeV::Exists(b) => (b, i.args[0]),
            _ => (false, i.args[0]),
        },
        Some(Kind::Absent) => match p {
            ProbeV::Exists(b) => (!b, i.args[0]),
            _ => (false, i.args[0]),
        },
        Some(Kind::Contains) => match p {
            ProbeV::Body(Some(body)) => (
                crate::text::find_spec(body, i.args[1]) is Some,
                i.args[0] + " 含「"@ + i.args[1] + "」"@,
            ),
            _ => (false, i.args[0] + " 不存在"@),
        },
        Some(Kind::Run) => match p {
            ProbeV::Ran { success, stdout, stderr } => if success {
                (true, i.args[0])
            } else {
                (false, i.args[0] + "——"@ + tail_spec(stdout, stderr))
            },
            ProbeV::Failed(e) => (false, i.args[0] + "——"@ + e),
            _ => (false, i.args[0] + "——"@ + "无输出"@),
        },
        None => (false, "不认得的判据"@),
    }
}

/// The last line of what a failed command printed.
fn tail_of(stdout: &str, stderr: &str) -> (r: String)
    ensures
        r@ == tail_spec(stdout@, stderr@),
{
    let err = crate::text::trim(stderr);
    let text = if err.unicode_len() == 0 {
        crate::text::trim(stdout)
    } else {
        err
    };
    let lines = crate::text::lines(text.as_str());
    if lines.len() == 0 {
        String::from_str("无输出")
    } else {
        crate::text::trim(lines[lines.len() - 1].as_str())
    }
}

/// The verdict on an item from its probe: whether it passed, and
/// what was checked.
pub fn verdict(item: &Item, probe: &Probe) -> (r: (bool, String))
    requires
        item_ready(item@),
    ensures
        (r.0, r.1@) == verdict_spec(item@, probe@),
{
    match &item.kind {
        Some(Kind::Path) => {
            let target = item.args[0].clone();
            match probe {
                Probe::Exists(b) => (*b, target),
                _ => (false, target),
            }
        },
        Some(Kind::Absent) => {
            let target = item.args[0].clone();
            match probe {
                Probe::Exists(b) => (!*b, target),
                _ => (false, target),
            }
        },
        Some(Kind::Contains) => {
            let target = &item.args[0];
            let needle = &item.args[1];
            match probe {
                Probe::Body(Some(body)) => {
                    let mut spec = crate::text::cat(target.as_str(), " 含「");
                    spec.append(needle.as_str());
                    spec.append("」");
                    (crate::text::contains(body.as_str(), needle.as_str()), spec)
                },
                _ => (false, crate::text::cat(target.as_str(), " 不存在")),
            }
        },
        Some(Kind::Run) => {
            let command = &item.args[0];
            match probe {
                Probe::Ran { success, stdout, stderr } => if *success {
                    (true, command.clone())
                } else {
                    let mut spec = crate::text::cat(command.as_str(), "——");
                    spec.append(tail_of(stdout.as_str(), stderr.as_str()).as_str());
                    (false, spec)
                },
                Probe::Failed(e) => {
                    let mut spec = crate::text::cat(command.as_str(), "——");
                    spec.append(e.as_str());
                    (false, spec)
                },
                _ => {
                    let mut spec = crate::text::cat(command.as_str(), "——");
                    spec.append("无输出");
                    (false, spec)
                },
            }
        },
        None => (false, String::from_str("不认得的判据")),
    }
}

/// The items the program runs, in order.
pub open spec fn machine_items(items: Seq<ItemV>) -> Seq<ItemV>
    decreases items.len(),
{
    if items.len() == 0 {
        Seq::empty()
    } else if items[0].kind is Some {
        seq![items[0]] + machine_items(items.drop_first())
    } else {
        machine_items(items.drop_first())
    }
}

/// The items left to an agent or a person, in order.
pub open spec fn pending_items(items: Seq<ItemV>) -> Seq<ItemV>
    decreases items.len(),
{
    if items.len() == 0 {
        Seq::empty()
    } else if items[0].kind is None {
        seq![items[0]] + pending_items(items.drop_first())
    } else {
        pending_items(items.drop_first())
    }
}

/// The views of results: each run item, whether it passed, what was checked.
pub open spec fn results_view(v: Seq<(Item, bool, String)>) -> Seq<(ItemV, bool, Seq<char>)> {
    v.map_values(|x: (Item, bool, String)| (x.0@, x.1, x.2@))
}

/// Runs the items: the verdict on each item the program runs, from the
/// probes taken for those items in order, and the items left over.
pub fn run(items: &Vec<Item>, probes: &Vec<Probe>) -> (r: (Vec<(Item, bool, String)>, Vec<Item>))
    requires
        probes@.len() == machine_items(items_view(items@)).len(),
        forall|k: int| 0 <= k < items@.len() ==> item_ready(#[trigger] items@[k]@),
    ensures
        results_view(r.0@).len() == machine_items(items_view(items@)).len(),
        forall|k: int| 0 <= k < results_view(r.0@).len() ==> {
            let m = machine_items(items_view(items@))[k];
            let v = verdict_spec(m, probes@[k]@);
            #[trigger] results_view(r.0@)[k] == (m, v.0, v.1)
        },
        items_view(r.1@) == pending_items(items_view(items@)),
{
    let ghost all = items_view(items@);
    let np = probes.len();
    let mut results: Vec<(Item, bool, String)> = Vec::new();
    let mut pending: Vec<Item> = Vec::new();
    let mut i: usize = 0;
    let mut j: usize = 0;
    assert(all.subrange(0, all.len() as int) =~= all);
    assert(items_view(pending@) =~= Seq::<ItemV>::empty());
    while i < items.len()
        invariant
            i <= items@.len(),
            all == items_view(items@),
            forall|k: int| 0 <= k < items@.len() ==> item_ready(#[trigger] items@[k]@),
            probes@.len() == machine_items(all).len(),
            np == probes@.len(),
            machine_items(all) == machine_items(all.take(i as int)) + machine_items(all.subrange(i as int, all.len() as int)),
            j == machine_items(all.take(i as int)).len(),
            results@.len() == j,
            forall|k: int| 0 <= k < j ==> {
                let m = machine_items(all)[k];
                let v = verdict_spec(m, probes@[k]@);
                #[trigger] results_view(results@)[k] == (m, v.0, v.1)
            },
            pending_items(all) == items_view(pending@) + pending_items(all.subrange(i as int, all.len() as int)),
        decreases items@.len() - i,
    {
        let ghost here = all.subrange(i as int, all.len() as int);
        proof {
            assert(here.drop_first() =~= all.subrange(i + 1, all.len() as int));
            assert(here[0] == items@[i as int]@);
            lemma_machine_split(all, i as int);
        }
        if items[i].machine() {
            proof {
                assert(machine_items(all)[j as int] == items@[i as int]@);
            }
            assert(machine_items(all).len() >= j + 1);
            let (passed, spec) = verdict(&items[i], &probes[j]);
            let ghost before = results@;
            let ghost sv = spec@;
            let copied = items[i].copy();
            results.push((copied, passed, spec));
            proof {
                assert(results_view(results@)[j as int] == (items@[i as int]@, passed, sv));
                assert forall|k: int| 0 <= k < j + 1 implies {
                    let m = machine_items(all)[k];
                    let v = verdict_spec(m, probes@[k]@);
                    #[trigger] results_view(results@)[k] == (m, v.0, v.1)
                } by {
                    if k < j {
                        assert(results@[k] == before[k]);
                        assert(results_view(results@)[k] == results_view(before)[k]);
                    }
                }
            }
            j = j + 1;
        } else {
            let ghost before = pending@;
            let item = items[i].copy();
            pending.push(item);
            proof {
                assert(items_view(pending@) =~= items_view(before).push(item@));
                assert(items_view(before) + (seq![item@] + pending_items(here.drop_first())) =~= items_view(pending@) + pending_items(here.drop_first()));
            }
        }
        i = i + 1;
    }
    assert(all.subrange(i as int, all.len() as int) =~= Seq::<ItemV>::empty());
    assert(items_view(pending@) + Seq::<ItemV>::empty() =~= items_view(pending@));
    assert(all.take(i as int) =~= all);
    (results, pending)
}

/// Splitting the items at `i`: the run items before, then those after.
proof fn lemma_machine_split(all: Seq<ItemV>, i: int)
    requires
        0 <= i < all.len(),
    ensures
        machine_items(all.take(i + 1)) == machine_items(all.take(i)) + (if all[i].kind is Some {
            seq![all[i]]
        } else {
            Seq::empty()
        }),
        machine_items(all.subrange(i, all.len() as int)) == (if all[i].kind is Some {
            seq![all[i]]
        } else {
            Seq::empty()
        }) + machine_items(all.subrange(i + 1, all.len() as int)),
{
    assert(all.subrange(i, all.len() as int).drop_first() =~= all.subrange(i + 1, all.len() as int));
    lemma_machine_append(all.take(i), all[i]);
    assert(all.take(i).push(all[i]) =~= all.take(i + 1));
}

/// The run items of a list with one more item at the end.
proof fn lemma_machine_append(s: Seq<ItemV>, x: ItemV)
    ensures
        machine_items(s.push(x)) == machine_items(s) + (if x.kind is Some {
            seq![x]
        } else {
            Seq::empty()
        }),
    decreases s.len(),
{
    if s.len() == 0 {
        assert(s.push(x).drop_first() =~= Seq::<ItemV>::empty());
        assert(machine_items(Seq::<ItemV>::empty()) == Seq::<ItemV>::empty());
        assert(s.push(x)[0] == x);
        assert(machine_items(s.push(x)) =~= machine_items(s) + (if x.kind is Some {
            seq![x]
        } else {
            Seq::empty()
        }));
    } else {
        let t: Seq<ItemV> = if x.kind is Some {
            seq![x]
        } else {
            Seq::empty()
        };
        assert(s.push(x).drop_first() =~= s.drop_first().push(x));
        assert(s.push(x)[0] == s[0]);
        lemma_machine_append(s.drop_first(), x);
        if s[0].kind is Some {
            assert(machine_items(s.push(x)) == seq![s[0]] + machine_items(s.drop_first().push(x)));
            assert(seq![s[0]] + (machine_items(s.drop_first()) + t) =~= (seq![s[0]] + machine_items(s.drop_first())) + t);
        } else {
            assert(machine_items(s.push(x)) == machine_items(s.drop_first().push(x)));
        }
    }
}

}
