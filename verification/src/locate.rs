//! Where things lie: the workspace root (the base of criterion paths), the
//! ledger (workspace identity, work orders, events), the workflow directory
//! and the place artifacts go. Locations never enter the models.
use vstd::prelude::*;
use crate::order::WorkOrder;
use crate::paths::path_join;
use crate::text::has_suffix;

verus! {

/// The file of the workspace identity, in the ledger.
pub const IDENTITY: &'static str = "workspace.yaml";
/// The file of domain events, one JSON line each, in the ledger.
pub const EVENTS: &'static str = "events.jsonl";

/// A kind of artifact, by name.
pub struct Artifact {
    pub name: String,
}

impl Artifact {
    /// The artifact called `name`.
    pub fn named(name: &str) -> (r: Artifact)
        ensures
            r.name@ == name@,
    {
        Artifact { name: String::from_str(name) }
    }
}

/// Where an artifact of an order goes, relative to the artifacts directory:
/// `<kind>/<order>.md`.
pub open spec fn place_spec(kind: Seq<char>, order_name: Seq<char>) -> Seq<char> {
    kind + "/"@ + order_name + ".md"@
}

/// Where an artifact of an order goes, relative to the artifacts directory.
pub fn place(artifact: &Artifact, order_name: &str) -> (r: String)
    ensures
        r@ == place_spec(artifact.name@, order_name@),
{
    let mut r = crate::text::cat(artifact.name.as_str(), "/");
    r.append(order_name);
    r.append(".md");
    r
}

/// The places of one load: root, ledger, workflow directory and artifacts.
pub struct Locate {
    /// The workspace root: the base of criterion paths.
    pub root: String,
    /// The ledger: identity, work orders, events.
    pub data: String,
    /// The workflow directory; by default inside the ledger.
    pub workflows: Option<String>,
    /// Where artifacts go; by default `<root>/artifacts`.
    pub artifacts: String,
}

/// The mathematical value of a load.
pub struct LocateV {
    pub root: Seq<char>,
    pub data: Seq<char>,
    pub workflows: Option<Seq<char>>,
    pub artifacts: Seq<char>,
}

impl View for Locate {
    type V = LocateV;

    open spec fn view(&self) -> LocateV {
        LocateV {
            root: self.root@,
            data: self.data@,
            workflows: crate::text::opt_view(self.workflows),
            artifacts: self.artifacts@,
        }
    }
}

/// The workflow directory: the one given, else `<ledger>/workflows`.
pub open spec fn workflows_dir_spec(l: LocateV) -> Seq<char> {
    match l.workflows {
        Some(w) => w,
        None => path_join(l.data, "workflows"@),
    }
}

/// The directory of work orders: `<ledger>/workorders`.
pub open spec fn workorders_dir_spec(l: LocateV) -> Seq<char> {
    path_join(l.data, "workorders"@)
}

impl Locate {
    /// A load from its places: the root and the ledger as found by
    /// the caller, the workflow directory as given, and the artifacts where
    /// given or else under the root.
    pub fn resolve(root: &str, data: &str, workflows: Option<&str>, artifacts: Option<&str>) -> (r: Locate)
        ensures
            r@.root == root@,
            r@.data == data@,
            r@.workflows == (match workflows {
                Some(w) => Some(w@),
                None => None::<Seq<char>>,
            }),
            r@.artifacts == (match artifacts {
                Some(a) => a@,
                None => path_join(root@, "artifacts"@),
            }),
    {
        let artifacts = match artifacts {
            Some(path) => String::from_str(path),
            None => crate::paths::join(root, "artifacts"),
        };
        let workflows = match workflows {
            Some(path) => Some(String::from_str(path)),
            None => None,
        };
        Locate { root: String::from_str(root), data: String::from_str(data), workflows, artifacts }
    }

    /// The workflow directory.
    pub fn workflows_dir(&self) -> (r: String)
        ensures
            r@ == workflows_dir_spec(self@),
    {
        match &self.workflows {
            Some(w) => w.clone(),
            None => crate::paths::join(self.data.as_str(), "workflows"),
        }
    }

    /// The directory of work orders.
    pub fn workorders_dir(&self) -> (r: String)
        ensures
            r@ == workorders_dir_spec(self@),
    {
        crate::paths::join(self.data.as_str(), "workorders")
    }

    /// The workspace identity file.
    pub fn identity_file(&self) -> (r: String)
        ensures
            r@ == path_join(self@.data, IDENTITY@),
    {
        crate::paths::join(self.data.as_str(), IDENTITY)
    }

    /// The events file.
    pub fn events_file(&self) -> (r: String)
        ensures
            r@ == path_join(self@.data, EVENTS@),
    {
        crate::paths::join(self.data.as_str(), EVENTS)
    }

    /// The file of a work order: `<ledger>/workorders/<name>.yaml`.
    pub fn order_file(&self, order: &WorkOrder) -> (r: String)
        ensures
            r@ == path_join(workorders_dir_spec(self@), order.name@ + ".yaml"@),
    {
        let file = crate::text::cat(order.name.as_str(), ".yaml");
        crate::paths::join(self.workorders_dir().as_str(), file.as_str())
    }

    /// Where an artifact of an order goes: `<artifacts>/<kind>/<order>.md`
    ///.
    pub fn artifact_path(&self, category: &str, order_name: &str) -> (r: String)
        ensures
            r@ == path_join(self@.artifacts, place_spec(category@, order_name@)),
    {
        let placed = place(&Artifact::named(category), order_name);
        crate::paths::join(self.artifacts.as_str(), placed.as_str())
    }

    /// A copy of this load.
    pub fn copy(&self) -> (r: Locate)
        ensures
            r@ == self@,
    {
        Locate {
            root: self.root.clone(),
            data: self.data.clone(),
            workflows: match &self.workflows {
                Some(w) => Some(w.clone()),
                None => None,
            },
            artifacts: self.artifacts.clone(),
        }
    }
}

/// The workflow directory of a ledger: the one given, else `<data>/workflows`
///.
pub fn workflows_dir(data: &str, workflows: Option<&str>) -> (r: String)
    ensures
        r@ == (match workflows {
            Some(w) => w@,
            None => path_join(data@, "workflows"@),
        }),
{
    match workflows {
        Some(path) => String::from_str(path),
        None => crate::paths::join(data, "workflows"),
    }
}

/// `root` as a directory prefix: with a closing `/`.
pub open spec fn dir_prefix(root: Seq<char>) -> Seq<char> {
    if has_suffix(root, seq!['/']) {
        root
    } else {
        root + seq!['/']
    }
}

/// A path shown to people: relative to the root when it starts with the root
/// as a directory, else as it is.
pub open spec fn short_spec(root: Seq<char>, path: Seq<char>) -> Seq<char> {
    let prefix = dir_prefix(root);
    if crate::text::has_prefix(path, prefix) {
        path.subrange(prefix.len() as int, path.len() as int)
    } else {
        path
    }
}

/// A path shown to people: relative to the root when it lies
/// under it, else as it is.
pub fn short(root: &str, path: &str) -> (r: String)
    ensures
        r@ == short_spec(root@, path@),
{
    proof {
        reveal_strlit("/");
        assert("/"@ =~= seq!['/']);
    }
    let prefix = if crate::text::ends_with(root, "/") {
        String::from_str(root)
    } else {
        crate::text::cat(root, "/")
    };
    match crate::text::strip_prefix(path, prefix.as_str()) {
        Some(rest) => rest,
        None => String::from_str(path),
    }
}

/// The name of a workspace root: its last component, or the whole path when
/// it has none.
pub open spec fn root_name_spec(root: Seq<char>) -> Seq<char> {
    match crate::paths::path_file_name(root) {
        Some(name) => if name.len() > 0 {
            name
        } else {
            root
        },
        None => root,
    }
}

/// The name of a workspace root.
pub fn root_name(root: &str) -> (r: String)
    ensures
        r@ == root_name_spec(root@),
{
    match crate::paths::file_name(root) {
        Some(name) => if name.unicode_len() > 0 {
            name
        } else {
            String::from_str(root)
        },
        None => String::from_str(root),
    }
}


/// A new workspace identity: its id, its name and title (the root's name), an
/// empty description, and when it was made and last changed.
pub open spec fn identity_spec(id: Seq<char>, name: Seq<char>, stamp: Seq<char>) -> crate::yaml::YamlV {
    crate::yaml::YamlV::Mapping(
        seq![
            (crate::yaml::YamlV::Str("id"@), crate::yaml::YamlV::Str(id)),
            (crate::yaml::YamlV::Str("name"@), crate::yaml::YamlV::Str(name)),
            (crate::yaml::YamlV::Str("title"@), crate::yaml::YamlV::Str(name)),
            (crate::yaml::YamlV::Str("description"@), crate::yaml::YamlV::Str(Seq::empty())),
            (crate::yaml::YamlV::Str("created_at"@), crate::yaml::YamlV::Str(stamp)),
            (crate::yaml::YamlV::Str("updated_at"@), crate::yaml::YamlV::Str(stamp)),
        ],
    )
}

/// A new workspace identity: `id` is a fresh id, `stamp` the moment.
pub fn identity(id: &str, root_name: &str, stamp: &str) -> (r: crate::yaml::Yaml)
    ensures
        r@ == identity_spec(id@, root_name@, stamp@),
{
    let entries = vec![
        (str_value("id"), str_value(id)),
        (str_value("name"), str_value(root_name)),
        (str_value("title"), str_value(root_name)),
        (str_value("description"), crate::yaml::Yaml::Str(String::new())),
        (str_value("created_at"), str_value(stamp)),
        (str_value("updated_at"), str_value(stamp)),
    ];
    proof {
        crate::yaml::lemma_entries_view(entries@);
        assert(crate::yaml::entries_view(entries@) =~= crate::yaml::entries_of(identity_spec(id@, root_name@, stamp@)));
    }
    crate::yaml::Yaml::Mapping(entries)
}


/// A string value.
fn str_value(t: &str) -> (y: crate::yaml::Yaml)
    ensures
        y@ == crate::yaml::YamlV::Str(t@),
{
    crate::yaml::Yaml::Str(String::from_str(t))
}

}
