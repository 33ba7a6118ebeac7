//! Materials: inputs not yet made into products, with four fields that can
//! all be filled in from the file: its type (the extension), its content (the
//! start of its text), its source (its directory and name) and its time (the
//! day it first entered its repository, else a date in its name). Whether a
//! file is raw or material is said by where it lies: the journal is raw.
use vstd::prelude::*;
use crate::paths::{path_extension, path_file_name, path_file_stem, path_has_component, path_join, path_parent, path_strip};
use crate::text::{has_prefix, join_spec, split_spec, trim_spec, views};

verus! {

/// A material and its fields.
pub struct Material {
    /// Its type: the file's extension.
    pub kind: String,
    /// The start of its text.
    pub content: String,
    /// Its directory and its name.
    pub source: String,
    /// When it came to be.
    pub created_at: String,
    /// `原始` in the journal, else `材料`.
    pub stage: String,
}

/// The mathematical value of a material.
pub struct MaterialV {
    pub kind: Seq<char>,
    pub content: Seq<char>,
    pub source: Seq<char>,
    pub created_at: Seq<char>,
    pub stage: Seq<char>,
}

impl View for Material {
    type V = MaterialV;

    open spec fn view(&self) -> MaterialV {
        MaterialV {
            kind: self.kind@,
            content: self.content@,
            source: self.source@,
            created_at: self.created_at@,
            stage: self.stage@,
        }
    }
}

/// The names of the fields of a material that are empty, in order.
pub open spec fn missing_spec(m: MaterialV) -> Seq<Seq<char>> {
    (if m.kind.len() == 0 { seq!["类型"@] } else { Seq::empty() }) + (if m.content.len() == 0 {
        seq!["内容"@]
    } else {
        Seq::empty()
    }) + (if m.source.len() == 0 { seq!["来源"@] } else { Seq::empty() }) + (if m.created_at.len() == 0 {
        seq!["时间"@]
    } else {
        Seq::empty()
    })
}

impl Material {
    /// The fields left empty.
    pub fn missing(&self) -> (r: Vec<&'static str>)
        ensures
            r@.map_values(|s: &'static str| s@) == missing_spec(self@),
    {
        let mut out: Vec<&'static str> = Vec::new();
        if self.kind.unicode_len() == 0 {
            out.push("类型");
        }
        let ghost a = out@;
        if self.content.unicode_len() == 0 {
            out.push("内容");
        }
        let ghost b = out@;
        if self.source.unicode_len() == 0 {
            out.push("来源");
        }
        let ghost c = out@;
        if self.created_at.unicode_len() == 0 {
            out.push("时间");
        }
        assert(out@.map_values(|s: &'static str| s@) =~= missing_spec(self@));
        out
    }
}

/// Whether an extension is that of prose: `md`, `txt` or `rst`.
pub open spec fn prose_spec(ext: Seq<char>) -> bool {
    ext == "md"@ || ext == "txt"@ || ext == "rst"@
}

/// Whether an extension is that of prose, whose text is read.
pub fn is_prose(ext: &str) -> (r: bool)
    ensures
        r == prose_spec(ext@),
{
    crate::yaml::same(ext, "md") || crate::yaml::same(ext, "txt") || crate::yaml::same(ext, "rst")
}

/// The body of a text: after a leading `# ` heading line, the rest; trimmed.
pub open spec fn body_spec(text: Seq<char>) -> Seq<char> {
    if has_prefix(text, "# "@) {
        let rest = text.subrange(2, text.len() as int);
        match crate::text::find_spec(rest, seq!['\n']) {
            Some(i) => trim_spec(rest.subrange(i + 1, rest.len() as int)),
            None => Seq::empty(),
        }
    } else {
        trim_spec(text)
    }
}

/// A text with its line feeds made spaces.
pub open spec fn flat_spec(s: Seq<char>) -> Seq<char> {
    Seq::new(s.len(), |i: int| if s[i] == '\n' { ' ' } else { s[i] })
}

/// The content of a material: the first forty characters of its body on one
/// line, with `…` when there is more.
pub open spec fn content_spec(body: Seq<char>) -> Seq<char> {
    if body.len() > 40 {
        flat_spec(body.take(40)) + "…"@
    } else {
        flat_spec(body)
    }
}

/// The body of a text.
pub fn body_of(text: &str) -> (r: String)
    ensures
        r@ == body_spec(text@),
{
    proof {
        reveal_strlit("# ");
        reveal_strlit("\n");
        assert("\n"@ =~= seq!['\n']);
    }
    match crate::text::strip_prefix(text, "# ") {
        Some(rest) => {
            let n = rest.unicode_len();
            proof {
                crate::text::lemma_find_bounds(rest@, seq!['\n'], 0);
            }
            match crate::text::find(rest.as_str(), "\n") {
                Some(i) => crate::text::trim(crate::text::substring(rest.as_str(), i + 1, n).as_str()),
                None => String::new(),
            }
        },
        None => crate::text::trim(text),
    }
}

/// The content of a material from its body.
pub fn content_of(body: &str) -> (r: String)
    ensures
        r@ == content_spec(body@),
{
    let snippet = crate::text::take_chars(body, 40);
    let v = crate::text::chars_of(snippet.as_str());
    let mut out = String::new();
    let mut i: usize = 0;
    while i < v.len()
        invariant
            i <= v@.len(),
            v@ == snippet@,
            out@ == flat_spec(snippet@.take(i as int)),
        decreases v@.len() - i,
    {
        if v[i] == '\n' {
            crate::text::push_char(&mut out, ' ');
        } else {
            crate::text::push_char(&mut out, v[i]);
        }
        assert(out@ =~= flat_spec(snippet@.take(i + 1)));
        i = i + 1;
    }
    assert(snippet@.take(i as int) =~= snippet@);
    if body.unicode_len() > 40 {
        out.append("…");
    }
    out
}

/// Where a material comes from: its directory's name, `/`, its own name.
pub open spec fn source_spec(path: Seq<char>) -> Seq<char> {
    let dir = match path_parent(path) {
        Some(p) => match path_file_name(p) {
            Some(n) => n,
            None => Seq::empty(),
        },
        None => Seq::empty(),
    };
    let own = match path_file_name(path) {
        Some(n) => n,
        None => Seq::empty(),
    };
    dir + "/"@ + own
}

/// Where a material comes from.
pub fn source_of(path: &str) -> (r: String)
    ensures
        r@ == source_spec(path@),
{
    let dir = match crate::paths::parent(path) {
        Some(p) => match crate::paths::file_name(p.as_str()) {
            Some(n) => n,
            None => String::new(),
        },
        None => String::new(),
    };
    let own = match crate::paths::file_name(path) {
        Some(n) => n,
        None => String::new(),
    };
    let mut r = dir;
    r.append("/");
    r.append(own.as_str());
    r
}

/// All characters are ASCII digits.
pub open spec fn all_digits(s: Seq<char>) -> bool {
    forall|i: int| 0 <= i < s.len() ==> '0' <= #[trigger] s[i] <= '9'
}

/// The pieces that are runs of digits, in order.
pub open spec fn digit_parts(parts: Seq<Seq<char>>) -> Seq<Seq<char>>
    decreases parts.len(),
{
    if parts.len() == 0 {
        Seq::empty()
    } else {
        let rest = digit_parts(parts.drop_first());
        if parts[0].len() > 0 && all_digits(parts[0]) {
            seq![parts[0]] + rest
        } else {
            rest
        }
    }
}

/// The date in a file's stem: its first three runs of digits between dashes,
/// joined by dashes; empty when there are fewer.
pub open spec fn stem_date_spec(stem: Seq<char>) -> Seq<char> {
    let digits = digit_parts(split_spec(stem, '-'));
    if digits.len() >= 3 {
        join_spec(digits.take(3), "-"@)
    } else {
        Seq::empty()
    }
}

/// Whether a text is a run of ASCII digits.
fn digits_only(s: &str) -> (r: bool)
    ensures
        r == (s@.len() > 0 && all_digits(s@)),
{
    let v = crate::text::chars_of(s);
    if v.len() == 0 {
        return false;
    }
    let mut i: usize = 0;
    while i < v.len()
        invariant
            i <= v@.len(),
            v@ == s@,
            forall|k: int| 0 <= k < i ==> '0' <= #[trigger] s@[k] <= '9',
        decreases v@.len() - i,
    {
        if !('0' <= v[i] && v[i] <= '9') {
            return false;
        }
        i = i + 1;
    }
    true
}

/// The date in a file's stem.
pub fn stem_date(stem: &str) -> (r: String)
    ensures
        r@ == stem_date_spec(stem@),
{
    let parts = crate::text::split(stem, '-');
    let ghost pv = views(parts@);
    let mut digits: Vec<String> = Vec::new();
    let mut i: usize = 0;
    assert(pv.subrange(0, pv.len() as int) =~= pv);
    assert(views(digits@) =~= Seq::<Seq<char>>::empty());
    while i < parts.len()
        invariant
            i <= parts@.len(),
            pv == views(parts@),
            digit_parts(pv) == views(digits@) + digit_parts(pv.subrange(i as int, pv.len() as int)),
        decreases parts@.len() - i,
    {
        let ghost here = pv.subrange(i as int, pv.len() as int);
        let ghost before = digits@;
        proof {
            assert(here.drop_first() =~= pv.subrange(i + 1, pv.len() as int));
            assert(here[0] == parts@[i as int]@);
        }
        if digits_only(parts[i].as_str()) {
            digits.push(parts[i].clone());
            proof {
                assert(views(digits@) =~= views(before).push(parts@[i as int]@));
                assert(views(before) + (seq![here[0]] + digit_parts(here.drop_first())) =~= views(digits@) + digit_parts(here.drop_first()));
            }
        }
        i = i + 1;
    }
    assert(pv.subrange(i as int, pv.len() as int) =~= Seq::<Seq<char>>::empty());
    assert(views(digits@) + Seq::<Seq<char>>::empty() =~= views(digits@));
    if digits.len() >= 3 {
        let first = vec![digits[0].clone(), digits[1].clone(), digits[2].clone()];
        assert(views(first@) =~= views(digits@).take(3));
        crate::text::join(&first, "-")
    } else {
        String::new()
    }
}

/// The stage of a material: `原始` when it lies in the journal under the root, else `材料`.
pub open spec fn stage_spec(root: Seq<char>, path: Seq<char>) -> Seq<char> {
    match path_strip(path, root) {
        Some(rest) => if path_has_component(rest, "journal"@) {
            "原始"@
        } else {
            "材料"@
        },
        None => "材料"@,
    }
}

/// The stage of a material.
pub fn stage_of(root: &str, path: &str) -> (r: String)
    ensures
        r@ == stage_spec(root@, path@),
{
    match crate::paths::strip_base(path, root) {
        Some(rest) => if crate::paths::has_component(rest.as_str(), "journal") {
            String::from_str("原始")
        } else {
            String::from_str("材料")
        },
        None => String::from_str("材料"),
    }
}

/// The material a file is read as: `text` is the file's text when it could be
/// read, `first_commit` the day it first entered its repository when known.
pub open spec fn material_spec(root: Seq<char>, path: Seq<char>, text: Option<Seq<char>>, first_commit: Option<Seq<char>>) -> MaterialV {
    let ext = match path_extension(path) {
        Some(e) => e,
        None => Seq::empty(),
    };
    let read = if prose_spec(ext) {
        match text {
            Some(t) => t,
            None => Seq::empty(),
        }
    } else {
        Seq::empty()
    };
    let stem = match path_file_stem(path) {
        Some(s) => s,
        None => Seq::empty(),
    };
    MaterialV {
        kind: ext,
        content: content_spec(body_spec(read)),
        source: source_spec(path),
        created_at: match first_commit {
            Some(d) => if d.len() > 0 {
                d
            } else {
                stem_date_spec(stem)
            },
            None => stem_date_spec(stem),
        },
        stage: stage_spec(root, path),
    }
}

/// The material a file is read as.
pub fn as_material(root: &str, path: &str, text: Option<&str>, first_commit: Option<&str>) -> (r: Material)
    ensures
        r@ == material_spec(root@, path@, match text {
            Some(t) => Some(t@),
            None => None::<Seq<char>>,
        }, match first_commit {
            Some(d) => Some(d@),
            None => None::<Seq<char>>,
        }),
{
    let ext = match crate::paths::extension(path) {
        Some(e) => e,
        None => String::new(),
    };
    let read = if is_prose(ext.as_str()) {
        match text {
            Some(t) => String::from_str(t),
            None => String::new(),
        }
    } else {
        String::new()
    };
    let stem = match crate::paths::file_stem(path) {
        Some(s) => s,
        None => String::new(),
    };
    let created_at = match first_commit {
        Some(d) => if d.unicode_len() > 0 {
            String::from_str(d)
        } else {
            stem_date(stem.as_str())
        },
        None => stem_date(stem.as_str()),
    };
    let body = body_of(read.as_str());
    Material {
        kind: ext,
        content: content_of(body.as_str()),
        source: source_of(path),
        created_at,
        stage: stage_of(root, path),
    }
}

/// Where a material named relative to the root lies: an
/// absolute name as it is, else under the root.
pub fn material_path(root: &str, rel: &str) -> (r: String)
    ensures
        r@ == path_join(root@, rel@),
{
    crate::paths::join(root, rel)
}


/// A file read as a material: the name it is listed by, where it lies, its
/// text when it could be read, and the day it first entered its repository.
pub struct Source {
    pub rel: String,
    pub path: String,
    pub text: Option<String>,
    pub first_commit: Option<String>,
}

/// The materials of the files read, each with the name it is listed by.
pub fn materials(root: &str, sources: &Vec<Source>) -> (r: Vec<(String, Material)>)
    ensures
        r@.len() == sources@.len(),
        forall|k: int| 0 <= k < sources@.len() ==> #[trigger] r@[k].0@ == sources@[k].rel@ && r@[k].1@ == material_spec(
            root@,
            sources@[k].path@,
            crate::text::opt_view(sources@[k].text),
            crate::text::opt_view(sources@[k].first_commit),
        ),
{
    let mut out: Vec<(String, Material)> = Vec::new();
    let mut i: usize = 0;
    while i < sources.len()
        invariant
            i <= sources@.len(),
            out@.len() == i,
            forall|k: int| 0 <= k < i ==> #[trigger] out@[k].0@ == sources@[k].rel@ && out@[k].1@ == material_spec(
                root@,
                sources@[k].path@,
                crate::text::opt_view(sources@[k].text),
                crate::text::opt_view(sources@[k].first_commit),
            ),
        decreases sources@.len() - i,
    {
        let s = &sources[i];
        let text: Option<&str> = match &s.text {
            Some(t) => Some(t.as_str()),
            None => None,
        };
        let commit: Option<&str> = match &s.first_commit {
            Some(d) => Some(d.as_str()),
            None => None,
        };
        assert(match text {
            Some(t) => Some(t@),
            None => None::<Seq<char>>,
        } == crate::text::opt_view(s.text));
        assert(match commit {
            Some(t) => Some(t@),
            None => None::<Seq<char>>,
        } == crate::text::opt_view(s.first_commit));
        let m = as_material(root, s.path.as_str(), text, commit);
        let ghost before = out@;
        out.push((s.rel.clone(), m));
        assert(forall|k: int| 0 <= k < i ==> out@[k] == before[k]);
        i = i + 1;
    }
    out
}

}
