//! The catalog: what the workspace holds, asset by asset, with the names each
//! entry is found by. File names and titles are both kept, since English file
//! names and Chinese titles do not translate each other. The directories are
//! walked by the caller; what was found comes in here.
use vstd::prelude::*;
use crate::artifact::{Asset, AssetV};
use crate::paths::{path_file_name, path_file_stem, relative_spec};
use crate::text::{find_spec, has_prefix, lines_spec, trim_spec, views};

verus! {

/// One entry: its asset kind, its path, and the names it is found by, each
/// once, in the order `str` sorts them.
pub struct Entry {
    pub kind: String,
    pub path: String,
    pub names: Vec<String>,
}

/// The mathematical value of an entry.
pub struct EntryV {
    pub kind: Seq<char>,
    pub path: Seq<char>,
    pub names: Seq<Seq<char>>,
}

impl View for Entry {
    type V = EntryV;

    open spec fn view(&self) -> EntryV {
        EntryV { kind: self.kind@, path: self.path@, names: views(self.names@) }
    }
}

/// The catalog: its entries in the order they were found.
pub struct Catalog {
    pub entries: Vec<Entry>,
}

/// The views of entries.
pub open spec fn entries_view(v: Seq<Entry>) -> Seq<EntryV> {
    v.map_values(|e: Entry| e@)
}

impl Catalog {
    /// An empty catalog.
    pub fn new() -> (r: Catalog)
        ensures
            r.entries@.len() == 0,
    {
        Catalog { entries: Vec::new() }
    }

    /// Adds an entry.
    pub fn add(&mut self, kind: &str, path: &str, names: Vec<String>)
        ensures
            entries_view(final(self).entries@) == entries_view(old(self).entries@).push(
                EntryV { kind: kind@, path: path@, names: views(names@) },
            ),
    {
        let ghost before = self.entries@;
        let e = Entry { kind: String::from_str(kind), path: String::from_str(path), names };
        self.entries.push(e);
        assert(entries_view(self.entries@) =~= entries_view(before).push(e@));
    }

    /// The directories under the containers that belong to no asset
    ///: of the children found (path, file name, whether it is
    /// a directory), the directories not hidden and not among the located ones,
    /// in the order given.
    pub fn unregistered(known: &Vec<String>, children: &Vec<(String, String, bool)>) -> (r: Vec<String>)
        ensures
            views(r@) == unregistered_spec(views(known@), children_view(children@)),
    {
        let ghost kv = views(known@);
        let ghost cv = children_view(children@);
        let mut out: Vec<String> = Vec::new();
        let mut i: usize = 0;
        while i < children.len()
            invariant
                i <= children@.len(),
                kv == views(known@),
                cv == children_view(children@),
                views(out@) == unregistered_spec(kv, cv.take(i as int)),
            decreases children@.len() - i,
        {
            let (path, name, dir) = &children[i];
            let mut found = false;
            let mut k: usize = 0;
            while k < known.len()
                invariant
                    k <= known@.len(),
                    kv == views(known@),
                    found == kv.take(k as int).contains(path@),
                decreases known@.len() - k,
            {
                let hit = crate::yaml::same(known[k].as_str(), path.as_str());
                proof {
                    let a = kv.take(k as int);
                    let b = kv.take(k + 1);
                    assert(b =~= a.push(kv[k as int]));
                    assert(kv[k as int] == known@[k as int]@);
                    if hit {
                        assert(b[k as int] == path@);
                    } else {
                        assert forall|x: int| 0 <= x < b.len() && b[x] == path@ implies a.contains(path@) by {
                            assert(x < k);
                            assert(a[x] == b[x]);
                        }
                        assert forall|x: int| 0 <= x < a.len() && a[x] == path@ implies b.contains(path@) by {
                            assert(b[x] == a[x]);
                        }
                    }
                }
                if hit {
                    found = true;
                }
                k = k + 1;
            }
            assert(kv.take(k as int) =~= kv);
            let ghost before = out@;
            if *dir && !crate::text::starts_with(name.as_str(), ".") && !found {
                out.push(path.clone());
                proof {
                    crate::text::lemma_views_push(before, *path);
                }
            }
            proof {
                assert(cv.take(i + 1).drop_last() =~= cv.take(i as int));
            }
            i = i + 1;
        }
        assert(cv.take(i as int) =~= cv);
        out
    }
}

/// The views of the children of a container.
pub open spec fn children_view(v: Seq<(String, String, bool)>) -> Seq<(Seq<char>, Seq<char>, bool)> {
    v.map_values(|c: (String, String, bool)| (c.0@, c.1@, c.2))
}

/// The children that are unregistered directories, in order.
pub open spec fn unregistered_spec(known: Seq<Seq<char>>, children: Seq<(Seq<char>, Seq<char>, bool)>) -> Seq<Seq<char>>
    decreases children.len(),
{
    if children.len() == 0 {
        Seq::empty()
    } else {
        let c = children.last();
        let rest = unregistered_spec(known, children.drop_last());
        if c.2 && !has_prefix(c.1, "."@) && !known.contains(c.0) {
            rest.push(c.0)
        } else {
            rest
        }
    }
}

/// The directories no document is looked for in: version control, installed
/// packages, virtual environments and build output.
pub open spec fn skipped_spec(name: Seq<char>) -> bool {
    seq![".git"@, "node_modules"@, ".venv"@, "build"@, "dist"@, ".dart_tool"@, "__pycache__"@].contains(name)
}

/// A file that is one of an asset's documents: Markdown, and not part of the
/// repository's facade (`README.md`, `CHANGELOG.md`, `LICENSE`).
pub open spec fn document_spec(name: Seq<char>) -> bool {
    crate::text::has_suffix(name, ".md"@) && !seq!["README.md"@, "CHANGELOG.md"@, "LICENSE"@].contains(name)
}

/// Whether a directory of this name is passed over when documents are gathered.
pub fn skipped(name: &str) -> (r: bool)
    ensures
        r == skipped_spec(name@),
{
    let hit = crate::yaml::same(name, ".git") || crate::yaml::same(name, "node_modules")
        || crate::yaml::same(name, ".venv") || crate::yaml::same(name, "build")
        || crate::yaml::same(name, "dist") || crate::yaml::same(name, ".dart_tool")
        || crate::yaml::same(name, "__pycache__");
    let ghost listed = seq![".git"@, "node_modules"@, ".venv"@, "build"@, "dist"@, ".dart_tool"@, "__pycache__"@];
    assert(listed.contains(name@) == (name@ == listed[0] || name@ == listed[1] || name@ == listed[2]
        || name@ == listed[3] || name@ == listed[4] || name@ == listed[5] || name@ == listed[6]));
    hit
}

/// Whether a file of this name is one of an asset's documents.
pub fn is_document(name: &str) -> (r: bool)
    ensures
        r == document_spec(name@),
{
    let facade = crate::yaml::same(name, "README.md") || crate::yaml::same(name, "CHANGELOG.md")
        || crate::yaml::same(name, "LICENSE");
    let ghost listed = seq!["README.md"@, "CHANGELOG.md"@, "LICENSE"@];
    assert(listed.contains(name@) == (name@ == listed[0] || name@ == listed[1] || name@ == listed[2]));
    crate::text::ends_with(name, ".md") && !facade
}

/// A path shown relative to the root when it lies under it.
pub fn short(root: &str, path: &str) -> (r: String)
    ensures
        r@ == relative_spec(path@, root@),
{
    crate::paths::relative(path, root)
}

/// The first line of `lines` that starts with `# `.
pub open spec fn first_heading(lines: Seq<Seq<char>>) -> Option<Seq<char>>
    decreases lines.len(),
{
    if lines.len() == 0 {
        None
    } else if has_prefix(lines[0], "# "@) {
        Some(lines[0])
    } else {
        first_heading(lines.drop_first())
    }
}

/// The title of a document: its first level-one heading, trimmed.
pub open spec fn title_spec(text: Seq<char>) -> Option<Seq<char>> {
    match first_heading(lines_spec(text)) {
        Some(line) => Some(trim_spec(line.subrange(2, line.len() as int))),
        None => None,
    }
}

/// The title of a document.
pub fn title_of(text: &str) -> (r: Option<String>)
    ensures
        crate::text::opt_view(r) == title_spec(text@),
{
    let lines = crate::text::lines(text);
    let ghost lv = views(lines@);
    let mut i: usize = 0;
    proof {
        reveal_strlit("# ");
    }
    assert(lv.subrange(0, lv.len() as int) =~= lv);
    while i < lines.len()
        invariant
            i <= lines@.len(),
            lv == views(lines@),
            lv == lines_spec(text@),
            first_heading(lv) == first_heading(lv.subrange(i as int, lv.len() as int)),
        decreases lines@.len() - i,
    {
        proof {
            reveal_strlit("# ");
            assert(lv.subrange(i as int, lv.len() as int).drop_first() =~= lv.subrange(i + 1, lv.len() as int));
            assert(lv.subrange(i as int, lv.len() as int)[0] == lines@[i as int]@);
        }
        assert("# "@.len() == 2);
        match crate::text::strip_prefix(lines[i].as_str(), "# ") {
            Some(rest) => {
                return Some(crate::text::trim(rest.as_str()));
            },
            None => {},
        }
        i = i + 1;
    }
    assert(lv.subrange(i as int, lv.len() as int) =~= Seq::<Seq<char>>::empty());
    None
}

/// The brand name a heading line gives: `# 量潮…` read as `量潮…`, trimmed.
pub open spec fn heading_brand(lines: Seq<Seq<char>>) -> Option<Seq<char>>
    decreases lines.len(),
{
    if lines.len() == 0 {
        None
    } else if has_prefix(lines[0], "# 量潮"@) && trim_spec("量潮"@ + lines[0].subrange(4, lines[0].len() as int)).len() > 0 {
        Some(trim_spec("量潮"@ + lines[0].subrange(4, lines[0].len() as int)))
    } else {
        heading_brand(lines.drop_first())
    }
}

/// The name a mention gives: after `量潮知识工作`, up to `——`, at most eight characters.
pub open spec fn mention_of(line: Seq<char>) -> Option<Seq<char>> {
    match find_spec(line, "量潮知识工作"@) {
        Some(at) => {
            let tail = line.subrange(at + 6, line.len() as int);
            match find_spec(tail, "——"@) {
                Some(end) => {
                    let head = tail.subrange(0, end);
                    let value = if head.len() > 8 { head.take(8) } else { head };
                    if value.len() > 0 {
                        Some("量潮知识工作"@ + value)
                    } else {
                        None
                    }
                },
                None => None,
            }
        },
        None => None,
    }
}

/// The first name a mention in the lines gives.
pub open spec fn mentioned(lines: Seq<Seq<char>>) -> Option<Seq<char>>
    decreases lines.len(),
{
    if lines.len() == 0 {
        None
    } else if mention_of(lines[0]) is Some {
        mention_of(lines[0])
    } else {
        mentioned(lines.drop_first())
    }
}

/// The Chinese name of a repository from its README: a heading `# 量潮…`, else a
/// mention `量潮知识工作X——`; none without a README.
pub open spec fn cn_name_spec(readme: Option<Seq<char>>) -> Option<Seq<char>> {
    match readme {
        None => None,
        Some(text) => if heading_brand(lines_spec(text)) is Some {
            heading_brand(lines_spec(text))
        } else {
            mentioned(lines_spec(text))
        },
    }
}

/// The name a mention gives.
fn mention(line: &str) -> (r: Option<String>)
    ensures
        crate::text::opt_view(r) == mention_of(line@),
{
    proof {
        reveal_strlit("量潮知识工作");
        reveal_strlit("——");
        crate::text::lemma_find_bounds(line@, "量潮知识工作"@, 0);
    }
    let n = line.unicode_len();
    match crate::text::find(line, "量潮知识工作") {
        None => None,
        Some(at) => {
            let tail = crate::text::substring(line, at + 6, n);
            proof {
                crate::text::lemma_find_bounds(tail@, "——"@, 0);
            }
            match crate::text::find(tail.as_str(), "——") {
                None => None,
                Some(end) => {
                    let head = crate::text::substring(tail.as_str(), 0, end);
                    let value = crate::text::take_chars(head.as_str(), 8);
                    if value.unicode_len() > 0 {
                        Some(crate::text::cat("量潮知识工作", value.as_str()))
                    } else {
                        None
                    }
                },
            }
        },
    }
}

/// The Chinese name of a repository from its README; `readme` is
/// the README's text, `None` when there is none.
pub fn cn_name(readme: Option<&str>) -> (r: Option<String>)
    ensures
        crate::text::opt_view(r) == cn_name_spec(match readme {
            Some(t) => Some(t@),
            None => None::<Seq<char>>,
        }),
{
    match readme {
        None => None,
        Some(t) => cn_name_of(t),
    }
}

/// The Chinese name a README's text gives.
fn cn_name_of(text: &str) -> (r: Option<String>)
    ensures
        crate::text::opt_view(r) == cn_name_spec(Some(text@)),
{
    proof {
        reveal_strlit("# 量潮");
        reveal_strlit("量潮");
    }
    let lines = crate::text::lines(text);
    let ghost lv = views(lines@);
    let mut i: usize = 0;
    assert(lv.subrange(0, lv.len() as int) =~= lv);
    while i < lines.len()
        invariant
            i <= lines@.len(),
            lv == views(lines@),
            lv == lines_spec(text@),
            heading_brand(lv) == heading_brand(lv.subrange(i as int, lv.len() as int)),
        decreases lines@.len() - i,
    {
        proof {
            assert(lv.subrange(i as int, lv.len() as int).drop_first() =~= lv.subrange(i + 1, lv.len() as int));
            assert(lv.subrange(i as int, lv.len() as int)[0] == lines@[i as int]@);
        }
        proof {
            reveal_strlit("# 量潮");
            reveal_strlit("量潮");
        }
        assert("# 量潮"@.len() == 4);
        match crate::text::strip_prefix(lines[i].as_str(), "# 量潮") {
            Some(rest) => {
                assert(rest@ == lines@[i as int]@.subrange(4, lines@[i as int]@.len() as int));
                let value = crate::text::trim(crate::text::cat("量潮", rest.as_str()).as_str());
                if value.unicode_len() > 0 {
                    proof {
                        let here = lv.subrange(i as int, lv.len() as int);
                        assert(has_prefix(here[0], "# 量潮"@));
                        assert(value@ == trim_spec("量潮"@ + here[0].subrange(4, here[0].len() as int)));
                        assert(heading_brand(here) == Some(value@));
                    }
                    return Some(value);
                }
            },
            None => {},
        }
        i = i + 1;
    }
    assert(lv.subrange(i as int, lv.len() as int) =~= Seq::<Seq<char>>::empty());
    let mut j: usize = 0;
    assert(lv.subrange(0, lv.len() as int) =~= lv);
    while j < lines.len()
        invariant
            j <= lines@.len(),
            lv == views(lines@),
            lv == lines_spec(text@),
            heading_brand(lv) is None,
            mentioned(lv) == mentioned(lv.subrange(j as int, lv.len() as int)),
        decreases lines@.len() - j,
    {
        proof {
            assert(lv.subrange(j as int, lv.len() as int).drop_first() =~= lv.subrange(j + 1, lv.len() as int));
            assert(lv.subrange(j as int, lv.len() as int)[0] == lines@[j as int]@);
        }
        match mention(lines[j].as_str()) {
            Some(name) => {
                proof {
                    let here = lv.subrange(j as int, lv.len() as int);
                    assert(mentioned(here) == Some(name@));
                    assert(cn_name_spec(Some(text@)) == mentioned(lv));
                }
                return Some(name);
            },
            None => {},
        }
        j = j + 1;
    }
    assert(lv.subrange(j as int, lv.len() as int) =~= Seq::<Seq<char>>::empty());
    None
}

/// A document found under an asset's directory: its path and its text.
pub struct Document {
    pub path: String,
    pub text: Option<String>,
}

/// An asset directory found in the workspace, with its README and its
/// documents (Markdown files, build directories and facade files skipped), in
/// path order.
pub struct Located {
    pub asset: Asset,
    pub path: String,
    pub readme: Option<String>,
    pub documents: Vec<Document>,
}

/// `names` with `name` put in its sorted place: after the names that sort
/// before it, and not again when it is already there.
pub open spec fn insert_sorted(names: Seq<Seq<char>>, name: Seq<char>) -> Seq<Seq<char>>
    decreases names.len(),
{
    if names.len() == 0 {
        seq![name]
    } else if crate::text::text_less(names[0], name) {
        seq![names[0]] + insert_sorted(names.drop_first(), name)
    } else if names[0] == name {
        names
    } else {
        seq![name] + names
    }
}

/// Names in strictly increasing order, as `str` sorts them.
pub open spec fn sorted_names(names: Seq<Seq<char>>) -> bool {
    forall|i: int, j: int| 0 <= i < j < names.len() ==> crate::text::text_less(#[trigger] names[i], #[trigger] names[j])
}

/// What inserting a name holds: the names it had, and the name.
proof fn lemma_insert_holds(names: Seq<Seq<char>>, name: Seq<char>)
    ensures
        insert_sorted(names, name).contains(name),
        forall|n: Seq<char>| #[trigger] insert_sorted(names, name).contains(n) ==> names.contains(n) || n == name,
    decreases names.len(),
{
    if names.len() > 0 {
        lemma_insert_holds(names.drop_first(), name);
        let r = insert_sorted(names, name);
        if crate::text::text_less(names[0], name) {
            let t = insert_sorted(names.drop_first(), name);
            let k = choose|k: int| 0 <= k < t.len() && t[k] == name;
            assert(r[k + 1] == name);
            assert forall|n: Seq<char>| #[trigger] r.contains(n) implies names.contains(n) || n == name by {
                let j = choose|j: int| 0 <= j < r.len() && r[j] == n;
                if j == 0 {
                    assert(names[0] == n);
                } else {
                    assert(t[j - 1] == n);
                    assert(t.contains(n));
                    if names.drop_first().contains(n) {
                        let q = choose|q: int| 0 <= q < names.drop_first().len() && names.drop_first()[q] == n;
                        assert(names[q + 1] == n);
                    }
                }
            }
        } else if names[0] == name {
            assert(r[0] == name);
        } else {
            assert(r[0] == name);
            assert forall|n: Seq<char>| #[trigger] r.contains(n) implies names.contains(n) || n == name by {
                let j = choose|j: int| 0 <= j < r.len() && r[j] == n;
                if j > 0 {
                    assert(names[j - 1] == n);
                }
            }
        }
    } else {
        assert(insert_sorted(names, name)[0] == name);
        assert forall|n: Seq<char>| #[trigger] insert_sorted(names, name).contains(n) implies names.contains(n) || n == name by {
            let j = choose|j: int| 0 <= j < insert_sorted(names, name).len() && insert_sorted(names, name)[j] == n;
        }
    }
}

/// Inserting a name keeps names sorted, each once: the catalog's names of an
/// entry are always in the order `str` sorts them, without repeats.
pub proof fn lemma_insert_keeps_sorted(names: Seq<Seq<char>>, name: Seq<char>)
    requires
        sorted_names(names),
    ensures
        sorted_names(insert_sorted(names, name)),
        insert_sorted(names, name).contains(name),
    decreases names.len(),
{
    lemma_insert_holds(names, name);
    if names.len() > 0 {
        let r = insert_sorted(names, name);
        let rest = names.drop_first();
        assert(sorted_names(rest)) by {
            assert forall|i: int, j: int| 0 <= i < j < rest.len() implies crate::text::text_less(#[trigger] rest[i], #[trigger] rest[j]) by {
                assert(rest[i] == names[i + 1] && rest[j] == names[j + 1]);
            }
        }
        if crate::text::text_less(names[0], name) {
            lemma_insert_keeps_sorted(rest, name);
            lemma_insert_holds(rest, name);
            let t = insert_sorted(rest, name);
            assert forall|i: int, j: int| 0 <= i < j < r.len() implies crate::text::text_less(#[trigger] r[i], #[trigger] r[j]) by {
                if i == 0 {
                    assert(t.contains(r[j])) by {
                        assert(t[j - 1] == r[j]);
                    }
                    if r[j] != name {
                        assert(rest.contains(r[j]));
                        let q = choose|q: int| 0 <= q < rest.len() && rest[q] == r[j];
                        assert(names[q + 1] == r[j]);
                        assert(crate::text::text_less(names[0], names[q + 1]));
                    }
                } else {
                    assert(r[i] == t[i - 1] && r[j] == t[j - 1]);
                }
            }
        } else if names[0] != name {
            crate::text::lemma_less_total(names[0], name);
            assert forall|i: int, j: int| 0 <= i < j < r.len() implies crate::text::text_less(#[trigger] r[i], #[trigger] r[j]) by {
                if i == 0 {
                    assert(r[j] == names[j - 1]);
                    if j - 1 > 0 {
                        assert(crate::text::text_less(names[0], names[j - 1]));
                        crate::text::lemma_less_transitive(name, names[0], names[j - 1]);
                    }
                } else {
                    assert(r[i] == names[i - 1] && r[j] == names[j - 1]);
                }
            }
        }
    }
}

/// `names` with `name` in it once, in its sorted place.
pub fn insert_name(names: &mut Vec<String>, name: String)
    ensures
        views(final(names)@) == insert_sorted(views(old(names)@), name@),
{
    let ghost before = views(names@);
    let mut i: usize = 0;
    assert(before.subrange(0, before.len() as int) =~= before);
    while i < names.len() && crate::text::less(names[i].as_str(), name.as_str())
        invariant
            i <= names@.len(),
            before == views(names@),
            insert_sorted(before, name@) == before.take(i as int) + insert_sorted(before.subrange(i as int, before.len() as int), name@),
        decreases names@.len() - i,
    {
        proof {
            let rest = before.subrange(i as int, before.len() as int);
            assert(rest[0] == before[i as int]);
            assert(rest.drop_first() =~= before.subrange(i + 1, before.len() as int));
            assert(before.take(i + 1) =~= before.take(i as int).push(before[i as int]));
            assert(before.take(i as int) + (seq![rest[0]] + insert_sorted(rest.drop_first(), name@)) =~= before.take(i + 1) + insert_sorted(rest.drop_first(), name@));
        }
        i = i + 1;
    }
    let ghost rest = before.subrange(i as int, before.len() as int);
    if i < names.len() && crate::yaml::same(names[i].as_str(), name.as_str()) {
        assert(rest[0] == before[i as int]);
        assert(before.take(i as int) + rest =~= before);
    } else {
        let ghost nv = name@;
        names.insert(i, name);
        proof {
            if i < before.len() {
                assert(rest[0] == before[i as int]);
            }
            assert(views(names@) =~= before.take(i as int) + (seq![nv] + rest));
        }
    }
}

/// The names of an asset directory: its category, its asset name, its
/// directory name and its Chinese name.
pub open spec fn dir_names(a: AssetV, path: Seq<char>, readme: Option<Seq<char>>) -> Seq<Seq<char>> {
    let base = insert_sorted(insert_sorted(Seq::empty(), a.category), a.name);
    let with_file = match path_file_name(path) {
        Some(n) => insert_sorted(base, n),
        None => base,
    };
    match cn_name_spec(readme) {
        Some(alias) => insert_sorted(with_file, alias),
        None => with_file,
    }
}

/// The names of a document: its file stem and its title.
pub open spec fn doc_names(path: Seq<char>, text: Option<Seq<char>>) -> Seq<Seq<char>> {
    let with_stem = match path_file_stem(path) {
        Some(s) => seq![s],
        None => Seq::empty(),
    };
    match text {
        Some(t) => match title_spec(t) {
            Some(title) => insert_sorted(with_stem, title),
            None => with_stem,
        },
        None => with_stem,
    }
}

/// The entries of one asset directory: the directory, then its documents.
pub open spec fn located_entries(a: AssetV, path: Seq<char>, readme: Option<Seq<char>>, docs: Seq<(Seq<char>, Option<Seq<char>>)>) -> Seq<EntryV> {
    seq![EntryV { kind: a.category, path, names: dir_names(a, path, readme) }] + docs.map_values(
        |d: (Seq<char>, Option<Seq<char>>)| EntryV { kind: a.category, path: d.0, names: doc_names(d.0, d.1) },
    )
}

/// The views of documents.
pub open spec fn docs_view(v: Seq<Document>) -> Seq<(Seq<char>, Option<Seq<char>>)> {
    v.map_values(|d: Document| (d.path@, crate::text::opt_view(d.text)))
}

/// The entries of what was found, in order.
pub open spec fn catalog_spec(found: Seq<Located>) -> Seq<EntryV>
    decreases found.len(),
{
    if found.len() == 0 {
        Seq::empty()
    } else {
        located_entries(
            found[0].asset@,
            found[0].path@,
            crate::text::opt_view(found[0].readme),
            docs_view(found[0].documents@),
        ) + catalog_spec(found.drop_first())
    }
}

/// The names of an asset directory.
fn names_of_dir(l: &Located) -> (r: Vec<String>)
    ensures
        views(r@) == dir_names(l.asset@, l.path@, crate::text::opt_view(l.readme)),
{
    let mut names: Vec<String> = Vec::new();
    assert(views(names@) =~= Seq::<Seq<char>>::empty());
    insert_name(&mut names, l.asset.category.clone());
    insert_name(&mut names, l.asset.name.clone());
    match crate::paths::file_name(l.path.as_str()) {
        Some(n) => insert_name(&mut names, n),
        None => {},
    }
    let readme: Option<&str> = match &l.readme {
        Some(t) => Some(t.as_str()),
        None => None,
    };
    match cn_name(readme) {
        Some(alias) => insert_name(&mut names, alias),
        None => {},
    }
    names
}

/// The names of a document.
fn names_of_doc(d: &Document) -> (r: Vec<String>)
    ensures
        views(r@) == doc_names(d.path@, crate::text::opt_view(d.text)),
{
    let mut names: Vec<String> = Vec::new();
    assert(views(names@) =~= Seq::<Seq<char>>::empty());
    match crate::paths::file_stem(d.path.as_str()) {
        Some(s) => insert_name(&mut names, s),
        None => {},
    }
    match &d.text {
        Some(t) => match title_of(t.as_str()) {
            Some(title) => insert_name(&mut names, title),
            None => {},
        },
        None => {},
    }
    names
}

/// Builds the catalog from what was found: for each asset directory
/// an entry, then one entry per document under it.
pub fn build(found: &Vec<Located>) -> (r: Catalog)
    ensures
        entries_view(r.entries@) == catalog_spec(found@),
{
    let mut catalog = Catalog::new();
    let mut i: usize = 0;
    assert(found@.subrange(0, found@.len() as int) =~= found@);
    assert(entries_view(catalog.entries@) =~= Seq::<EntryV>::empty());
    while i < found.len()
        invariant
            i <= found@.len(),
            catalog_spec(found@) == entries_view(catalog.entries@) + catalog_spec(found@.subrange(i as int, found@.len() as int)),
        decreases found@.len() - i,
    {
        let ghost here = found@.subrange(i as int, found@.len() as int);
        let ghost start = entries_view(catalog.entries@);
        proof {
            assert(here.drop_first() =~= found@.subrange(i + 1, found@.len() as int));
        }
        let l = &found[i];
        let names = names_of_dir(l);
        catalog.add(l.asset.category.as_str(), l.path.as_str(), names);
        let ghost mid = entries_view(catalog.entries@);
        let ghost dv = docs_view(l.documents@);
        let mut k: usize = 0;
        while k < l.documents.len()
            invariant
                k <= l.documents@.len(),
                dv == docs_view(l.documents@),
                entries_view(catalog.entries@) =~= mid + dv.take(k as int).map_values(
                    |d: (Seq<char>, Option<Seq<char>>)| EntryV { kind: l.asset@.category, path: d.0, names: doc_names(d.0, d.1) },
                ),
            decreases l.documents@.len() - k,
        {
            let doc_names_v = names_of_doc(&l.documents[k]);
            catalog.add(l.asset.category.as_str(), l.documents[k].path.as_str(), doc_names_v);
            proof {
                assert(dv.take(k + 1) =~= dv.take(k as int).push(dv[k as int]));
            }
            k = k + 1;
        }
        proof {
            assert(dv.take(k as int) =~= dv);
            assert(start + (located_entries(l.asset@, l.path@, crate::text::opt_view(l.readme), dv) + catalog_spec(here.drop_first())) =~= entries_view(catalog.entries@) + catalog_spec(here.drop_first()));
        }
        i = i + 1;
    }
    assert(found@.subrange(i as int, found@.len() as int) =~= Seq::<Located>::empty());
    assert(entries_view(catalog.entries@) + Seq::<EntryV>::empty() =~= entries_view(catalog.entries@));
    catalog
}

}
