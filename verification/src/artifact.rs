//! The assets a second brain should have: what each is called and where it
//! lies. Documents live in a directory of their own name under `data/` (the
//! stated ones) or `docs/` (the procedural ones); three live in repositories
//! of their own, found by a naming pattern.
use vstd::prelude::*;
use crate::paths::path_join;
use crate::text::{has_prefix, has_suffix};

verus! {

/// One asset: its category (its name in the charter) and its directory name.
pub struct Asset {
    pub category: String,
    pub name: String,
}

/// The mathematical value of an asset.
pub struct AssetV {
    pub category: Seq<char>,
    pub name: Seq<char>,
}

impl View for Asset {
    type V = AssetV;

    open spec fn view(&self) -> AssetV {
        AssetV { category: self.category@, name: self.name@ }
    }
}

/// The views of assets.
pub open spec fn assets_view(v: Seq<Asset>) -> Seq<AssetV> {
    v.map_values(|a: Asset| a@)
}

/// An asset.
pub open spec fn asset(category: Seq<char>, name: Seq<char>) -> AssetV {
    AssetV { category, name }
}

/// The stated assets: the nine cells and those that take no cell.
pub open spec fn stated_spec() -> Seq<AssetV> {
    seq![
        asset("报告"@, "report"@),
        asset("参考"@, "library"@),
        asset("历史"@, "history"@),
        asset("日志"@, "journal"@),
        asset("档案"@, "profile"@),
        asset("宣传册"@, "brochure"@),
        asset("路线图"@, "roadmap"@),
        asset("洞察"@, "insight"@),
        asset("意图"@, "intention"@),
        asset("语境"@, "context"@),
        asset("归档"@, "archive"@),
    ]
}

/// The procedural assets: the nine cells.
pub open spec fn procedural_spec() -> Seq<AssetV> {
    seq![
        asset("章程"@, "bylaw"@),
        asset("规格"@, "specification"@),
        asset("工具箱"@, "toolkit"@),
        asset("手册"@, "handbook"@),
        asset("案例"@, "gallery"@),
        asset("平台"@, "platform"@),
        asset("教程"@, "tutorial"@),
        asset("札记"@, "essay"@),
        asset("实验室"@, "example"@),
    ]
}

/// An asset.
fn make(category: &str, name: &str) -> (r: Asset)
    ensures
        r@ == asset(category@, name@),
{
    Asset { category: String::from_str(category), name: String::from_str(name) }
}

/// Every asset, the stated ones first.
pub fn assets() -> (r: Vec<Asset>)
    ensures
        assets_view(r@) == stated_spec() + procedural_spec(),
{
    let out = vec![
        make("报告", "report"),
        make("参考", "library"),
        make("历史", "history"),
        make("日志", "journal"),
        make("档案", "profile"),
        make("宣传册", "brochure"),
        make("路线图", "roadmap"),
        make("洞察", "insight"),
        make("意图", "intention"),
        make("语境", "context"),
        make("归档", "archive"),
        make("章程", "bylaw"),
        make("规格", "specification"),
        make("工具箱", "toolkit"),
        make("手册", "handbook"),
        make("案例", "gallery"),
        make("平台", "platform"),
        make("教程", "tutorial"),
        make("札记", "essay"),
        make("实验室", "example"),
    ];
    assert(assets_view(out@) =~= stated_spec() + procedural_spec());
    out
}

/// Where an asset that lives in repositories of its own is looked for: the
/// container directory and the suffix of the repositories' names.
pub open spec fn pattern_spec(name: Seq<char>) -> Option<(Seq<char>, Seq<char>)> {
    if name == "toolkit"@ {
        Some(("packages"@, "-toolkit"@))
    } else if name == "platform"@ {
        Some(("apps"@, Seq::empty()))
    } else if name == "example"@ {
        Some(("examples"@, Seq::empty()))
    } else {
        None
    }
}

/// Where an asset that lives in repositories of its own is looked for.
pub fn locate_pattern(name: &str) -> (r: Option<(&'static str, &'static str)>)
    ensures
        match pattern_spec(name@) {
            Some(p) => match r {
                Some(x) => (x.0@, x.1@) == p,
                None => false,
            },
            None => r is None,
        },
{
    proof {
        reveal_strlit("");
    }
    if crate::yaml::same(name, "toolkit") {
        Some(("packages", "-toolkit"))
    } else if crate::yaml::same(name, "platform") {
        Some(("apps", ""))
    } else if crate::yaml::same(name, "example") {
        Some(("examples", ""))
    } else {
        None
    }
}

/// The directories a document asset may be, in the order they are tried:
/// `<root>/data/<name>`, then `<root>/docs/<name>`.
pub fn candidates(root: &str, asset: &Asset) -> (r: Vec<String>)
    ensures
        r@.len() == 2,
        r@[0]@ == path_join(path_join(root@, "data"@), asset@.name),
        r@[1]@ == path_join(path_join(root@, "docs"@), asset@.name),
{
    let data = crate::paths::join(root, "data");
    let docs = crate::paths::join(root, "docs");
    vec![crate::paths::join(data.as_str(), asset.name.as_str()), crate::paths::join(docs.as_str(), asset.name.as_str())]
}

/// Whether a directory in a container is one of an asset's repositories: with
/// no suffix, any directory not hidden; else one whose name ends with it.
pub open spec fn repo_matches_spec(name: Seq<char>, suffix: Seq<char>) -> bool {
    if suffix.len() == 0 {
        !has_prefix(name, seq!['.'])
    } else {
        has_suffix(name, suffix)
    }
}

/// Whether a directory in a container is one of an asset's repositories.
pub fn repo_matches(name: &str, suffix: &str) -> (r: bool)
    ensures
        r == repo_matches_spec(name@, suffix@),
{
    proof {
        reveal_strlit(".");
        assert("."@ =~= seq!['.']);
    }
    if suffix.unicode_len() == 0 {
        !crate::text::starts_with(name, ".")
    } else {
        crate::text::ends_with(name, suffix)
    }
}

/// The assets not found, in order.
pub open spec fn missing_spec(all: Seq<AssetV>, found: Seq<bool>) -> Seq<AssetV>
    decreases all.len(),
{
    if all.len() == 0 || found.len() == 0 {
        Seq::empty()
    } else {
        let rest = missing_spec(all.drop_first(), found.drop_first());
        if found[0] {
            rest
        } else {
            seq![all[0]] + rest
        }
    }
}

/// The assets the table has and the workspace lacks: `found`
/// says, asset by asset in the order of `assets`, whether it was located.
pub fn missing(found: &Vec<bool>) -> (r: Vec<Asset>)
    requires
        found@.len() == 20,
    ensures
        assets_view(r@) == missing_spec(stated_spec() + procedural_spec(), found@),
{
    let all = assets();
    let ghost av = assets_view(all@);
    let mut out: Vec<Asset> = Vec::new();
    let mut i: usize = 0;
    assert(av.subrange(0, av.len() as int) =~= av);
    assert(found@.subrange(0, found@.len() as int) =~= found@);
    assert(assets_view(out@) =~= Seq::<AssetV>::empty());
    while i < all.len()
        invariant
            i <= all@.len(),
            all@.len() == 20,
            found@.len() == 20,
            av == assets_view(all@),
            missing_spec(av, found@) == assets_view(out@) + missing_spec(
                av.subrange(i as int, av.len() as int),
                found@.subrange(i as int, found@.len() as int),
            ),
        decreases all@.len() - i,
    {
        let ghost a = av.subrange(i as int, av.len() as int);
        let ghost f = found@.subrange(i as int, found@.len() as int);
        let ghost before = out@;
        proof {
            assert(a.drop_first() =~= av.subrange(i + 1, av.len() as int));
            assert(f.drop_first() =~= found@.subrange(i + 1, found@.len() as int));
        }
        if !found[i] {
            let x = make(all[i].category.as_str(), all[i].name.as_str());
            out.push(x);
            proof {
                assert(assets_view(out@) =~= assets_view(before).push(x@));
                assert(assets_view(before) + (seq![a[0]] + missing_spec(a.drop_first(), f.drop_first())) =~= assets_view(out@) + missing_spec(a.drop_first(), f.drop_first()));
            }
        }
        i = i + 1;
    }
    assert(av.subrange(i as int, av.len() as int) =~= Seq::<AssetV>::empty());
    assert(assets_view(out@) + Seq::<AssetV>::empty() =~= assets_view(out@));
    out
}

/// Whether an asset is a stated one.
pub open spec fn is_stated(name: Seq<char>) -> bool {
    exists|k: int| 0 <= k < stated_spec().len() && #[trigger] stated_spec()[k].name == name
}

/// What making a missing asset writes: its directory, its README and the
/// README's text.
pub open spec fn made_spec(root: Seq<char>, a: AssetV) -> (Seq<char>, Seq<char>, Seq<char>) {
    let container = if is_stated(a.name) { "data"@ } else { "docs"@ };
    let dir = path_join(path_join(root, container), a.name);
    (dir, path_join(dir, "README.md"@), "# 量潮知识工作"@ + a.category + "\n"@)
}

/// What making the wanted assets writes, in order; assets that live in
/// repositories of their own are not made.
pub open spec fn plan_spec(root: Seq<char>, wanted: Seq<AssetV>) -> Seq<(Seq<char>, Seq<char>, Seq<char>)>
    decreases wanted.len(),
{
    if wanted.len() == 0 {
        Seq::empty()
    } else {
        let rest = plan_spec(root, wanted.drop_first());
        if pattern_spec(wanted[0].name) is Some {
            rest
        } else {
            seq![made_spec(root, wanted[0])] + rest
        }
    }
}

/// Whether an asset name is a stated one.
fn stated(name: &str) -> (r: bool)
    ensures
        r == is_stated(name@),
{
    let all = assets();
    assert(assets_view(all@).len() == all@.len());
    assert((stated_spec() + procedural_spec()).len() == 20);
    let mut k: usize = 0;
    while k < 11
        invariant
            k <= 11,
            all@.len() == 20,
            assets_view(all@) == stated_spec() + procedural_spec(),
            forall|j: int| 0 <= j < k ==> #[trigger] stated_spec()[j].name != name@,
        decreases 11 - k,
    {
        assert(assets_view(all@)[k as int] == stated_spec()[k as int]);
        if crate::yaml::same(all[k].name.as_str(), name) {
            assert(stated_spec()[k as int].name == name@);
            return true;
        }
        k = k + 1;
    }
    false
}

/// The views of what making assets writes.
pub open spec fn triples_view(v: Seq<(String, String, String)>) -> Seq<(Seq<char>, Seq<char>, Seq<char>)> {
    v.map_values(|x: (String, String, String)| (x.0@, x.1@, x.2@))
}

/// What making the wanted assets writes (without the writing): for
/// each document asset, its directory (under `data/` for a stated one, else
/// under `docs/`), its README and the README's text.
pub fn make_plan(root: &str, wanted: &Vec<Asset>) -> (r: Vec<(String, String, String)>)
    ensures
        triples_view(r@) == plan_spec(root@, assets_view(wanted@)),
{
    let ghost wv = assets_view(wanted@);
    let mut out: Vec<(String, String, String)> = Vec::new();
    let mut i: usize = 0;
    assert(wv.subrange(0, wv.len() as int) =~= wv);
    assert(triples_view(out@) =~= Seq::<(Seq<char>, Seq<char>, Seq<char>)>::empty());
    while i < wanted.len()
        invariant
            i <= wanted@.len(),
            wv == assets_view(wanted@),
            plan_spec(root@, wv) == triples_view(out@) + plan_spec(root@, wv.subrange(i as int, wv.len() as int)),
        decreases wanted@.len() - i,
    {
        let ghost here = wv.subrange(i as int, wv.len() as int);
        let ghost before = out@;
        proof {
            assert(here.drop_first() =~= wv.subrange(i + 1, wv.len() as int));
        }
        let a = &wanted[i];
        if locate_pattern(a.name.as_str()).is_none() {
            let container = if stated(a.name.as_str()) { "data" } else { "docs" };
            let base = crate::paths::join(root, container);
            let dir = crate::paths::join(base.as_str(), a.name.as_str());
            let readme = crate::paths::join(dir.as_str(), "README.md");
            let mut text = crate::text::cat("# 量潮知识工作", a.category.as_str());
            text.append("\n");
            let item = (dir, readme, text);
            let ghost iv = (item.0@, item.1@, item.2@);
            out.push(item);
            proof {
                assert(iv == made_spec(root@, wv[i as int]));
                assert(triples_view(out@) =~= triples_view(before).push(iv));
                assert(triples_view(before) + (seq![iv] + plan_spec(root@, here.drop_first())) =~= triples_view(out@) + plan_spec(root@, here.drop_first()));
            }
        }
        i = i + 1;
    }
    assert(wv.subrange(i as int, wv.len() as int) =~= Seq::<AssetV>::empty());
    assert(triples_view(out@) + Seq::<(Seq<char>, Seq<char>, Seq<char>)>::empty() =~= triples_view(out@));
    out
}

}
