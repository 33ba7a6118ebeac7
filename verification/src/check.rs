//! Checking a definition against what it declares, from what is written alone
//! (no file is looked at): the paths of its criteria must lie inside the
//! workspace, and every section its descriptions name must be covered by a
//! `contains` criterion. Section names are clean short names only: a heading
//! started by `##`, or a short name in 「」 quotes; long sentences in quotes are
//! narration.
use vstd::prelude::*;
use crate::criterion::CriterionV;
use crate::paths::{absolute, path_has_base, path_has_parent_dir};
use crate::text::{decimal_spec, find_spec, is_ws, trim_spec, trim_start_spec, views, alphanumeric};
use crate::workflow::{StepV, Workflow, of_kind_spec};

verus! {

/// A position in a text and the name found there.
pub open spec fn hits_view(v: Seq<(usize, String)>) -> Seq<(int, Seq<char>)> {
    v.map_values(|p: (usize, String)| (p.0 as int, p.1@))
}

/// The characters of `s` up to its first white space.
pub open spec fn take_word(s: Seq<char>) -> Seq<char>
    decreases s.len(),
{
    if s.len() == 0 || is_ws(s[0]) {
        Seq::empty()
    } else {
        seq![s[0]] + take_word(s.drop_first())
    }
}

/// The headings of `s`: after each `##`, the first word of what follows, with
/// the position of the `##` counted from `offset`.
pub open spec fn hash_hits(s: Seq<char>, offset: int) -> Seq<(int, Seq<char>)>
    decreases s.len(),
{
    match find_spec(s, "##"@) {
        None => Seq::empty(),
        Some(at) => if 0 <= at && at + 2 <= s.len() {
            let after = s.subrange(at + 2, s.len() as int);
            seq![(offset + at, take_word(trim_start_spec(after)))] + hash_hits(after, offset + at + 2)
        } else {
            Seq::empty()
        },
    }
}

/// The quoted names of `s`: what stands between each 「 and the next 」, with
/// the position of the 「 counted from `offset`; an unclosed 「 ends the scan.
pub open spec fn quote_hits(s: Seq<char>, offset: int) -> Seq<(int, Seq<char>)>
    decreases s.len(),
{
    match find_spec(s, "「"@) {
        None => Seq::empty(),
        Some(at) => if 0 <= at && at + 1 <= s.len() {
            let after = s.subrange(at + 1, s.len() as int);
            match find_spec(after, "」"@) {
                None => Seq::empty(),
                Some(end) => if 0 <= end && end + 1 <= after.len() {
                    seq![(offset + at, after.subrange(0, end))] + quote_hits(
                        after.subrange(end + 1, after.len() as int),
                        offset + at + 1 + end + 1,
                    )
                } else {
                    Seq::empty()
                },
            }
        } else {
            Seq::empty()
        },
    }
}

/// Two lists of hits, each in order of position, merged in order of position.
pub open spec fn merge_hits(a: Seq<(int, Seq<char>)>, b: Seq<(int, Seq<char>)>) -> Seq<(int, Seq<char>)>
    decreases a.len() + b.len(),
{
    if a.len() == 0 {
        b
    } else if b.len() == 0 {
        a
    } else if a[0].0 <= b[0].0 {
        seq![a[0]] + merge_hits(a.drop_first(), b)
    } else {
        seq![b[0]] + merge_hits(a, b.drop_first())
    }
}

/// A clean section name: not empty, at most ten characters, all letters or digits.
pub open spec fn looks_like_section_spec(name: Seq<char>) -> bool {
    &&& name.len() > 0
    &&& name.len() <= 10
    &&& forall|i: int| 0 <= i < name.len() ==> alphanumeric(#[trigger] name[i])
}

/// The clean names among the hits, trimmed, each once, after those in `found`.
pub open spec fn pick_sections(hits: Seq<(int, Seq<char>)>, found: Seq<Seq<char>>) -> Seq<Seq<char>>
    decreases hits.len(),
{
    if hits.len() == 0 {
        found
    } else {
        let name = trim_spec(hits[0].1);
        if looks_like_section_spec(name) && !found.contains(name) {
            pick_sections(hits.drop_first(), found.push(name))
        } else {
            pick_sections(hits.drop_first(), found)
        }
    }
}

/// The sections a description names, in the order they appear.
pub open spec fn sections_spec(text: Seq<char>) -> Seq<Seq<char>> {
    pick_sections(merge_hits(hash_hits(text, 0), quote_hits(text, 0)), Seq::empty())
}

/// The first word of `s`.
pub(crate) fn first_word(s: &str) -> (r: String)
    ensures
        r@ == take_word(s@),
{
    let v = crate::text::chars_of(s);
    let mut i: usize = 0;
    assert(s@.subrange(0, s@.len() as int) =~= s@);
    assert(s@.subrange(0, 0) + take_word(s@) =~= take_word(s@));
    while i < v.len() && !crate::text::is_white_space(v[i])
        invariant
            i <= v@.len(),
            v@ == s@,
            take_word(s@) == s@.subrange(0, i as int) + take_word(s@.subrange(i as int, s@.len() as int)),
        decreases v@.len() - i,
    {
        proof {
            let rest = s@.subrange(i as int, s@.len() as int);
            assert(rest.drop_first() =~= s@.subrange(i + 1, s@.len() as int));
            assert(s@.subrange(0, i as int) + seq![s@[i as int]] =~= s@.subrange(0, i + 1));
            assert(s@.subrange(0, i as int) + (seq![rest[0]] + take_word(rest.drop_first())) =~= s@.subrange(0, i + 1) + take_word(s@.subrange(i + 1, s@.len() as int)));
        }
        i = i + 1;
    }
    proof {
        let rest = s@.subrange(i as int, s@.len() as int);
        assert(take_word(rest) =~= Seq::<char>::empty());
        assert(s@.subrange(0, i as int) + Seq::<char>::empty() =~= s@.subrange(0, i as int));
    }
    crate::text::substring(s, 0, i)
}

/// The headings of `s`, positions counted from `offset`.
fn hash_scan(s: &str, offset: usize) -> (r: Vec<(usize, String)>)
    requires
        offset + s@.len() <= usize::MAX,
    ensures
        hits_view(r@) == hash_hits(s@, offset as int),
    decreases s@.len(),
{
    proof {
        reveal_strlit("##");
        crate::text::lemma_find_bounds(s@, "##"@, 0);
    }
    match crate::text::find(s, "##") {
        None => {
            let out: Vec<(usize, String)> = Vec::new();
            assert(hits_view(out@) =~= Seq::<(int, Seq<char>)>::empty());
            out
        },
        Some(at) => {
            let n = s.unicode_len();
            let after = crate::text::substring(s, at + 2, n);
            let name = first_word(crate::text::trim_start(after.as_str()).as_str());
            let mut out: Vec<(usize, String)> = Vec::new();
            out.push((offset + at, name));
            let mut rest = hash_scan(after.as_str(), offset + at + 2);
            let ghost head = out@;
            let ghost tail = rest@;
            out.append(&mut rest);
            assert(hits_view(out@) =~= hits_view(head) + hits_view(tail));
            out
        },
    }
}

/// The quoted names of `s`, positions counted from `offset`.
fn quote_scan(s: &str, offset: usize) -> (r: Vec<(usize, String)>)
    requires
        offset + s@.len() <= usize::MAX,
    ensures
        hits_view(r@) == quote_hits(s@, offset as int),
    decreases s@.len(),
{
    proof {
        reveal_strlit("「");
        reveal_strlit("」");
        crate::text::lemma_find_bounds(s@, "「"@, 0);
    }
    let none: Vec<(usize, String)> = Vec::new();
    assert(hits_view(none@) =~= Seq::<(int, Seq<char>)>::empty());
    match crate::text::find(s, "「") {
        None => none,
        Some(at) => {
            let n = s.unicode_len();
            let after = crate::text::substring(s, at + 1, n);
            proof {
                crate::text::lemma_find_bounds(after@, "」"@, 0);
            }
            match crate::text::find(after.as_str(), "」") {
                None => none,
                Some(end) => {
                    let an = after.unicode_len();
                    let name = crate::text::substring(after.as_str(), 0, end);
                    let tail_text = crate::text::substring(after.as_str(), end + 1, an);
                    let mut out: Vec<(usize, String)> = Vec::new();
                    out.push((offset + at, name));
                    let mut rest = quote_scan(tail_text.as_str(), offset + at + 1 + end + 1);
                    let ghost head = out@;
                    let ghost tail = rest@;
                    out.append(&mut rest);
                    assert(hits_view(out@) =~= hits_view(head) + hits_view(tail));
                    out
                },
            }
        },
    }
}

/// Two lists of hits merged in order of position, the first list first on a tie.
fn merge_scans(a: &Vec<(usize, String)>, b: &Vec<(usize, String)>) -> (r: Vec<(usize, String)>)
    ensures
        hits_view(r@) == merge_hits(hits_view(a@), hits_view(b@)),
{
    let ghost av = hits_view(a@);
    let ghost bv = hits_view(b@);
    let mut out: Vec<(usize, String)> = Vec::new();
    let mut i: usize = 0;
    let mut j: usize = 0;
    assert(av.subrange(0, av.len() as int) =~= av);
    assert(bv.subrange(0, bv.len() as int) =~= bv);
    assert(hits_view(out@) =~= Seq::<(int, Seq<char>)>::empty());
    while i < a.len() || j < b.len()
        invariant
            i <= a@.len(),
            j <= b@.len(),
            av == hits_view(a@),
            bv == hits_view(b@),
            merge_hits(av, bv) == hits_view(out@) + merge_hits(
                av.subrange(i as int, av.len() as int),
                bv.subrange(j as int, bv.len() as int),
            ),
        decreases (a@.len() - i) + (b@.len() - j),
    {
        let ghost ra = av.subrange(i as int, av.len() as int);
        let ghost rb = bv.subrange(j as int, bv.len() as int);
        let ghost before = out@;
        if j >= b.len() || (i < a.len() && a[i].0 <= b[j].0) {
            let item = (a[i].0, a[i].1.clone());
            out.push(item);
            proof {
                assert(ra.drop_first() =~= av.subrange(i + 1, av.len() as int));
                assert(ra[0] == (item.0 as int, item.1@));
                assert(hits_view(out@) =~= hits_view(before).push((item.0 as int, item.1@)));
                assert(hits_view(before) + (seq![ra[0]] + merge_hits(ra.drop_first(), rb)) =~= hits_view(out@) + merge_hits(ra.drop_first(), rb));
            }
            i = i + 1;
        } else {
            let item = (b[j].0, b[j].1.clone());
            out.push(item);
            proof {
                assert(rb.drop_first() =~= bv.subrange(j + 1, bv.len() as int));
                assert(rb[0] == (item.0 as int, item.1@));
                assert(hits_view(out@) =~= hits_view(before).push((item.0 as int, item.1@)));
                assert(hits_view(before) + (seq![rb[0]] + merge_hits(ra, rb.drop_first())) =~= hits_view(out@) + merge_hits(ra, rb.drop_first()));
            }
            j = j + 1;
        }
    }
    assert(av.subrange(i as int, av.len() as int) =~= Seq::<(int, Seq<char>)>::empty());
    assert(hits_view(out@) + Seq::<(int, Seq<char>)>::empty() =~= hits_view(out@));
    out
}

/// Whether a name is a clean section name.
fn looks_like_section(name: &str) -> (r: bool)
    ensures
        r == looks_like_section_spec(name@),
{
    let v = crate::text::chars_of(name);
    if v.len() == 0 || v.len() > 10 {
        return false;
    }
    let mut i: usize = 0;
    while i < v.len()
        invariant
            i <= v@.len(),
            v@ == name@,
            forall|k: int| 0 <= k < i ==> alphanumeric(#[trigger] name@[k]),
        decreases v@.len() - i,
    {
        if !crate::text::is_alphanumeric(v[i]) {
            return false;
        }
        i = i + 1;
    }
    true
}

/// The sections a description names: `##` headings and short
/// names in 「」 quotes, in the order they appear, trimmed, clean names only,
/// each once.
pub fn sections(text: &str) -> (r: Vec<String>)
    ensures
        views(r@) == sections_spec(text@),
{
    let _n = text.unicode_len();
    let hashes = hash_scan(text, 0);
    let quotes = quote_scan(text, 0);
    let hits = merge_scans(&hashes, &quotes);
    let ghost hv = hits_view(hits@);
    let mut found: Vec<String> = Vec::new();
    let mut i: usize = 0;
    assert(hv.subrange(0, hv.len() as int) =~= hv);
    assert(views(found@) =~= Seq::<Seq<char>>::empty());
    while i < hits.len()
        invariant
            i <= hits@.len(),
            hv == hits_view(hits@),
            sections_spec(text@) == pick_sections(hv.subrange(i as int, hv.len() as int), views(found@)),
        decreases hits@.len() - i,
    {
        let ghost here = hv.subrange(i as int, hv.len() as int);
        proof {
            assert(here.drop_first() =~= hv.subrange(i + 1, hv.len() as int));
            assert(here[0].1 == hits@[i as int].1@);
        }
        let name = crate::text::trim(hits[i].1.as_str());
        if looks_like_section(name.as_str()) && !crate::schema::listed(&found, name.as_str()) {
            let ghost before = found@;
            found.push(name);
            proof {
                assert(views(found@) =~= views(before).push(name@));
            }
        }
        i = i + 1;
    }
    assert(hv.subrange(i as int, hv.len() as int) =~= Seq::<(int, Seq<char>)>::empty());
    found
}


/// One thing a check looked at: where, what was checked, and whether it held.
pub struct Finding {
    pub where_: String,
    pub what: String,
    pub ok: bool,
}

/// The mathematical value of a finding.
pub struct FindingV {
    pub where_: Seq<char>,
    pub what: Seq<char>,
    pub ok: bool,
}

impl View for Finding {
    type V = FindingV;

    open spec fn view(&self) -> FindingV {
        FindingV { where_: self.where_@, what: self.what@, ok: self.ok }
    }
}

/// The views of findings.
pub open spec fn findings_view(f: Seq<Finding>) -> Seq<FindingV> {
    f.map_values(|x: Finding| x@)
}

/// A written path lies inside the workspace at `root`: an empty one or a
/// `<…>` stand-in does; an absolute one must lie under the root; a relative one
/// must not climb out with `..`.
pub open spec fn inside_spec(root: Seq<char>, written: Seq<char>) -> bool {
    let w = trim_spec(written);
    if w.len() == 0 || w[0] == '<' {
        true
    } else if absolute(w) {
        path_has_base(w, root)
    } else {
        !path_has_parent_dir(w)
    }
}

/// A text holds a placeholder: a `{{` closed by a later `}}`.
pub open spec fn has_placeholder_spec(s: Seq<char>) -> bool {
    match find_spec(s, "{{"@) {
        Some(at) => 0 <= at && at + 2 <= s.len() && find_spec(s.subrange(at + 2, s.len() as int), "}}"@) is Some,
        None => false,
    }
}

/// The written path a rule checks, for those that check a path.
pub open spec fn literal_of(c: CriterionV) -> Option<Seq<char>> {
    match c {
        CriterionV::PathExists { path, .. } => Some(path),
        CriterionV::FileContains { file, .. } => Some(file),
        _ => None,
    }
}

/// The findings on the paths of a step's rules; paths with placeholders are
/// filled in at run time and not checked.
pub open spec fn path_findings(step: Seq<char>, rules: Seq<CriterionV>, root: Seq<char>) -> Seq<FindingV>
    decreases rules.len(),
{
    if rules.len() == 0 {
        Seq::empty()
    } else {
        let rest = path_findings(step, rules.drop_first(), root);
        match literal_of(rules[0]) {
            Some(lit) => if has_placeholder_spec(lit) {
                rest
            } else {
                seq![FindingV {
                    where_: step + "·"@ + lit,
                    what: "判据里的路径在工作区内："@ + lit,
                    ok: inside_spec(root, lit),
                }] + rest
            },
            None => rest,
        }
    }
}

/// The texts the `contains` rules of a step look for.
pub open spec fn covered_spec(rules: Seq<CriterionV>) -> Seq<Seq<char>>
    decreases rules.len(),
{
    if rules.len() == 0 {
        Seq::empty()
    } else {
        let rest = covered_spec(rules.drop_first());
        match rules[0] {
            CriterionV::FileContains { contains, .. } => seq![contains] + rest,
            _ => rest,
        }
    }
}

/// One of the covered texts holds `name`.
pub open spec fn covers(covered: Seq<Seq<char>>, name: Seq<char>) -> bool {
    exists|i: int| 0 <= i < covered.len() && find_spec(#[trigger] covered[i], name) is Some
}

/// The findings on the sections a step's description names.
pub open spec fn section_findings(step: Seq<char>, names: Seq<Seq<char>>, covered: Seq<Seq<char>>) -> Seq<FindingV> {
    names.map_values(|n: Seq<char>| FindingV {
        where_: step + "·description"@,
        what: "描述点到的小节有 contains 判据覆盖："@ + n,
        ok: covers(covered, n),
    })
}

/// The findings on one step.
pub open spec fn step_findings(s: StepV, root: Seq<char>) -> Seq<FindingV> {
    let rules = of_kind_spec(s.criteria, "rule"@);
    path_findings(s.name, rules, root) + section_findings(s.name, sections_spec(s.description), covered_spec(rules))
}

/// The findings on every step, in order.
pub open spec fn check_spec(steps: Seq<StepV>, root: Seq<char>) -> Seq<FindingV>
    decreases steps.len(),
{
    if steps.len() == 0 {
        Seq::empty()
    } else {
        step_findings(steps[0], root) + check_spec(steps.drop_first(), root)
    }
}

/// The finding on a path a rule checks.
pub open spec fn path_finding(step: Seq<char>, lit: Seq<char>, root: Seq<char>) -> FindingV {
    FindingV { where_: step + "·"@ + lit, what: "判据里的路径在工作区内："@ + lit, ok: inside_spec(root, lit) }
}

proof fn lemma_path_findings_has(step: Seq<char>, rules: Seq<CriterionV>, root: Seq<char>, j: int, lit: Seq<char>)
    requires
        0 <= j < rules.len(),
        literal_of(rules[j]) == Some(lit),
        !has_placeholder_spec(lit),
    ensures
        path_findings(step, rules, root).contains(path_finding(step, lit, root)),
    decreases rules.len(),
{
    let p = path_findings(step, rules, root);
    if j == 0 {
        assert(p[0] == path_finding(step, lit, root));
    } else {
        let rest = rules.drop_first();
        assert(rest[j - 1] == rules[j]);
        lemma_path_findings_has(step, rest, root, j - 1, lit);
        let pr = path_findings(step, rest, root);
        let i = choose|i: int| 0 <= i < pr.len() && pr[i] == path_finding(step, lit, root);
        match literal_of(rules[0]) {
            Some(l0) => if has_placeholder_spec(l0) {
                assert(p[i] == pr[i]);
            } else {
                assert(p[i + 1] == pr[i]);
            },
            None => {
                assert(p[i] == pr[i]);
            },
        }
    }
}

proof fn lemma_of_kind_has(cs: Seq<CriterionV>, kind: Seq<char>, j: int)
    requires
        0 <= j < cs.len(),
        crate::criterion::executor_spec(cs[j]) == kind,
    ensures
        exists|i: int| 0 <= i < of_kind_spec(cs, kind).len() && #[trigger] of_kind_spec(cs, kind)[i] == cs[j],
    decreases cs.len(),
{
    let o = of_kind_spec(cs, kind);
    if j == 0 {
        assert(o[0] == cs[0]);
    } else {
        let rest = cs.drop_first();
        assert(rest[j - 1] == cs[j]);
        lemma_of_kind_has(rest, kind, j - 1);
        let orr = of_kind_spec(rest, kind);
        let i = choose|i: int| 0 <= i < orr.len() && #[trigger] orr[i] == rest[j - 1];
        if crate::criterion::executor_spec(cs[0]) == kind {
            assert(o[i + 1] == orr[i]);
        } else {
            assert(o[i] == orr[i]);
        }
    }
}

proof fn lemma_check_has(steps: Seq<StepV>, root: Seq<char>, k: int, f: FindingV)
    requires
        0 <= k < steps.len(),
        step_findings(steps[k], root).contains(f),
    ensures
        check_spec(steps, root).contains(f),
    decreases steps.len(),
{
    let c = check_spec(steps, root);
    let sf = step_findings(steps[0], root);
    if k == 0 {
        let i = choose|i: int| 0 <= i < sf.len() && sf[i] == f;
        assert(c[i] == sf[i]);
    } else {
        let rest = steps.drop_first();
        assert(rest[k - 1] == steps[k]);
        lemma_check_has(rest, root, k - 1, f);
        let cr = check_spec(rest, root);
        let i = choose|i: int| 0 <= i < cr.len() && cr[i] == f;
        assert(c[sf.len() + i] == cr[i]);
    }
}

/// Every step is checked: for each step of the workflow and each path one of
/// its rules checks (placeholders aside), the findings hold one for that path,
/// placed at the step, which holds exactly when the path lies inside the
/// workspace.
pub proof fn lemma_check_every_path(steps: Seq<StepV>, root: Seq<char>, k: int, j: int, lit: Seq<char>)
    requires
        0 <= k < steps.len(),
        0 <= j < steps[k].criteria.len(),
        literal_of(steps[k].criteria[j]) == Some(lit),
        !has_placeholder_spec(lit),
    ensures
        exists|i: int| 0 <= i < check_spec(steps, root).len() && #[trigger] check_spec(steps, root)[i] == (FindingV {
            where_: steps[k].name + "·"@ + lit,
            what: "判据里的路径在工作区内："@ + lit,
            ok: inside_spec(root, lit),
        }),
{
    let s = steps[k];
    let c = s.criteria[j];
    reveal_strlit("rule");
    assert(crate::criterion::executor_spec(c) == "rule"@);
    lemma_of_kind_has(s.criteria, "rule"@, j);
    let rules = of_kind_spec(s.criteria, "rule"@);
    let i = choose|i: int| 0 <= i < rules.len() && #[trigger] rules[i] == c;
    lemma_path_findings_has(s.name, rules, root, i, lit);
    let f = path_finding(s.name, lit, root);
    let pf = path_findings(s.name, rules, root);
    let q = choose|q: int| 0 <= q < pf.len() && pf[q] == f;
    assert(step_findings(s, root)[q] == f);
    lemma_check_has(steps, root, k, f);
    let all = check_spec(steps, root);
    let t = choose|t: int| 0 <= t < all.len() && all[t] == f;
    assert(all[t] == f);
}

/// The lines that report findings.
pub open spec fn describe_spec(found: Seq<FindingV>) -> Seq<Seq<char>> {
    seq!["核对 "@ + decimal_spec(found.len()) + " 件事"@]
        + found.map_values(|f: FindingV| "  "@ + (if f.ok { "✓"@ } else { "✗"@ }) + " "@ + f.where_ + "——"@ + f.what)
        + if found.len() == 0 {
            seq!["  （这条定义里没有可核对的路径与小节）"@]
        } else {
            Seq::empty()
        }
}

/// Whether a written path lies inside the workspace at `root`.
pub fn inside(root: &str, written: &str) -> (r: bool)
    ensures
        r == inside_spec(root@, written@),
{
    let w = crate::text::trim(written);
    let v = crate::text::chars_of(w.as_str());
    if v.len() == 0 {
        return true;
    }
    if v[0] == '<' {
        return true;
    }
    if crate::paths::is_absolute(w.as_str()) {
        return crate::paths::has_base(w.as_str(), root);
    }
    !crate::paths::has_parent_dir(w.as_str())
}

/// Whether a text holds a placeholder.
fn has_placeholder(s: &str) -> (r: bool)
    ensures
        r == has_placeholder_spec(s@),
{
    proof {
        reveal_strlit("{{");
        crate::text::lemma_find_bounds(s@, "{{"@, 0);
    }
    let n = s.unicode_len();
    match crate::text::find(s, "{{") {
        None => false,
        Some(at) => {
            let after = crate::text::substring(s, at + 2, n);
            crate::text::contains(after.as_str(), "}}")
        },
    }
}

/// Checks the paths of a step's rules.
fn check_paths(step: &str, rules: &Vec<crate::criterion::Criterion>, root: &str, out: &mut Vec<Finding>)
    ensures
        findings_view(final(out)@) == findings_view(old(out)@) + path_findings(step@, crate::workflow::criteria_view(rules@), root@),
{
    let ghost all = crate::workflow::criteria_view(rules@);
    let ghost start = findings_view(out@);
    let mut i: usize = 0;
    assert(all.subrange(0, all.len() as int) =~= all);
    assert(findings_view(out@) =~= start + Seq::<FindingV>::empty());
    while i < rules.len()
        invariant
            i <= rules@.len(),
            all == crate::workflow::criteria_view(rules@),
            start + path_findings(step@, all, root@) == findings_view(out@) + path_findings(step@, all.subrange(i as int, all.len() as int), root@),
        decreases rules@.len() - i,
    {
        let ghost here = all.subrange(i as int, all.len() as int);
        let ghost before = out@;
        proof {
            assert(here.drop_first() =~= all.subrange(i + 1, all.len() as int));
        }
        let literal = match &rules[i] {
            crate::criterion::Criterion::PathExists { path, .. } => Some(path),
            crate::criterion::Criterion::FileContains { file, .. } => Some(file),
            _ => None,
        };
        match literal {
            Some(lit) => {
                if !has_placeholder(lit.as_str()) {
                    let mut where_ = String::from_str(step);
                    where_.append("·");
                    where_.append(lit.as_str());
                    let what = crate::text::cat("判据里的路径在工作区内：", lit.as_str());
                    let f = Finding { where_, what, ok: inside(root, lit.as_str()) };
                    out.push(f);
                    proof {
                        assert(findings_view(out@) =~= findings_view(before).push(f@));
                        assert(findings_view(before) + (seq![f@] + path_findings(step@, all.subrange(i + 1, all.len() as int), root@)) =~= findings_view(out@) + path_findings(step@, all.subrange(i + 1, all.len() as int), root@));
                    }
                }
            },
            None => {},
        }
        i = i + 1;
    }
    assert(all.subrange(i as int, all.len() as int) =~= Seq::<CriterionV>::empty());
    assert(findings_view(out@) + Seq::<FindingV>::empty() =~= findings_view(out@));
}

/// The texts the `contains` rules look for.
fn covered_of(rules: &Vec<crate::criterion::Criterion>) -> (r: Vec<String>)
    ensures
        views(r@) == covered_spec(crate::workflow::criteria_view(rules@)),
{
    let ghost all = crate::workflow::criteria_view(rules@);
    let mut out: Vec<String> = Vec::new();
    let mut i: usize = 0;
    assert(all.subrange(0, all.len() as int) =~= all);
    assert(views(out@) =~= Seq::<Seq<char>>::empty());
    while i < rules.len()
        invariant
            i <= rules@.len(),
            all == crate::workflow::criteria_view(rules@),
            covered_spec(all) == views(out@) + covered_spec(all.subrange(i as int, all.len() as int)),
        decreases rules@.len() - i,
    {
        let ghost here = all.subrange(i as int, all.len() as int);
        let ghost before = out@;
        proof {
            assert(here.drop_first() =~= all.subrange(i + 1, all.len() as int));
        }
        match &rules[i] {
            crate::criterion::Criterion::FileContains { contains, .. } => {
                out.push(contains.clone());
                proof {
                    assert(views(out@) =~= views(before).push(contains@));
                    assert(views(before) + (seq![contains@] + covered_spec(all.subrange(i + 1, all.len() as int))) =~= views(out@) + covered_spec(all.subrange(i + 1, all.len() as int)));
                }
            },
            _ => {},
        }
        i = i + 1;
    }
    assert(all.subrange(i as int, all.len() as int) =~= Seq::<CriterionV>::empty());
    assert(views(out@) + Seq::<Seq<char>>::empty() =~= views(out@));
    out
}

/// Whether one of the covered texts holds `name`.
fn covered_by(covered: &Vec<String>, name: &str) -> (r: bool)
    ensures
        r == covers(views(covered@), name@),
{
    let mut i: usize = 0;
    while i < covered.len()
        invariant
            i <= covered@.len(),
            forall|k: int| 0 <= k < i ==> find_spec(#[trigger] views(covered@)[k], name@) is None,
        decreases covered@.len() - i,
    {
        if crate::text::contains(covered[i].as_str(), name) {
            assert(find_spec(views(covered@)[i as int], name@) is Some);
            return true;
        }
        i = i + 1;
    }
    false
}

/// Checks a definition against what it declares: the paths of its
/// rules must lie inside the workspace at `root`, and the sections its
/// descriptions name must be covered by a `contains` rule.
pub fn check(workflow: &Workflow, root: &str) -> (r: Vec<Finding>)
    ensures
        findings_view(r@) == check_spec(workflow@.steps, root@),
        forall|k: int, j: int|
            #![trigger workflow@.steps[k].criteria[j]]
            0 <= k < workflow@.steps.len() && 0 <= j < workflow@.steps[k].criteria.len()
                && literal_of(workflow@.steps[k].criteria[j]) is Some
                && !has_placeholder_spec(literal_of(workflow@.steps[k].criteria[j])->0) ==> exists|i: int|
                0 <= i < r@.len() && #[trigger] r@[i]@ == path_finding(
                    workflow@.steps[k].name,
                    literal_of(workflow@.steps[k].criteria[j])->0,
                    root@,
                ),
{
    let ghost all = workflow@.steps;
    let mut out: Vec<Finding> = Vec::new();
    let mut i: usize = 0;
    assert(all.subrange(0, all.len() as int) =~= all);
    assert(findings_view(out@) =~= Seq::<FindingV>::empty());
    while i < workflow.steps.len()
        invariant
            i <= workflow.steps@.len(),
            all == workflow@.steps,
            check_spec(all, root@) == findings_view(out@) + check_spec(all.subrange(i as int, all.len() as int), root@),
        decreases workflow.steps@.len() - i,
    {
        let ghost here = all.subrange(i as int, all.len() as int);
        let ghost before = findings_view(out@);
        proof {
            assert(here.drop_first() =~= all.subrange(i + 1, all.len() as int));
        }
        let step = &workflow.steps[i];
        let rules = step.rules();
        check_paths(step.name.as_str(), &rules, root, &mut out);
        let ghost mid = findings_view(out@);
        let covered = covered_of(&rules);
        let names = sections(step.description.as_str());
        let mut k: usize = 0;
        while k < names.len()
            invariant
                k <= names@.len(),
                findings_view(out@) == mid + section_findings(step.name@, views(names@).take(k as int), views(covered@)),
            decreases names@.len() - k,
        {
            let ghost pre = out@;
            let mut where_ = String::from_str(step.name.as_str());
            where_.append("·description");
            let what = crate::text::cat("描述点到的小节有 contains 判据覆盖：", names[k].as_str());
            let f = Finding { where_, what, ok: covered_by(&covered, names[k].as_str()) };
            out.push(f);
            proof {
                assert(views(names@).take(k + 1) =~= views(names@).take(k as int).push(names@[k as int]@));
                assert(findings_view(out@) =~= findings_view(pre).push(f@));
                assert(findings_view(out@) =~= mid + section_findings(step.name@, views(names@).take(k + 1), views(covered@)));
            }
            k = k + 1;
        }
        proof {
            assert(views(names@).take(k as int) =~= views(names@));
            assert(step_findings(here[0], root@) == path_findings(step.name@, crate::workflow::criteria_view(rules@), root@) + section_findings(step.name@, views(names@), views(covered@)));
            assert(before + (step_findings(here[0], root@) + check_spec(all.subrange(i + 1, all.len() as int), root@)) =~= findings_view(out@) + check_spec(all.subrange(i + 1, all.len() as int), root@));
        }
        i = i + 1;
    }
    assert(all.subrange(i as int, all.len() as int) =~= Seq::<StepV>::empty());
    assert(findings_view(out@) + Seq::<FindingV>::empty() =~= findings_view(out@));
    proof {
        let steps = workflow@.steps;
        assert forall|k: int, j: int|
            #![trigger workflow@.steps[k].criteria[j]]
            0 <= k < workflow@.steps.len() && 0 <= j < workflow@.steps[k].criteria.len()
                && literal_of(workflow@.steps[k].criteria[j]) is Some
                && !has_placeholder_spec(literal_of(workflow@.steps[k].criteria[j])->0) implies exists|i: int|
                0 <= i < out@.len() && #[trigger] out@[i]@ == path_finding(
                    workflow@.steps[k].name,
                    literal_of(workflow@.steps[k].criteria[j])->0,
                    root@,
                ) by {
            let lit = literal_of(steps[k].criteria[j])->0;
            lemma_check_every_path(steps, root@, k, j, lit);
            let c = check_spec(steps, root@);
            let i = choose|i: int| 0 <= i < c.len() && #[trigger] c[i] == (FindingV {
                where_: steps[k].name + "·"@ + lit,
                what: "判据里的路径在工作区内："@ + lit,
                ok: inside_spec(root@, lit),
            });
            assert(findings_view(out@)[i] == out@[i]@);
        }
    }
    out
}

/// The findings written out for people: a count, one line each,
/// and a note when there was nothing to check.
pub fn describe(found: &Vec<Finding>) -> (r: Vec<String>)
    ensures
        views(r@) == describe_spec(findings_view(found@)),
{
    let ghost fv = findings_view(found@);
    let mut lines: Vec<String> = Vec::new();
    let mut head = String::from_str("核对 ");
    head.append(crate::text::decimal(found.len()).as_str());
    head.append(" 件事");
    lines.push(head);
    let ghost first = views(lines@);
    let mut i: usize = 0;
    while i < found.len()
        invariant
            i <= found@.len(),
            fv == findings_view(found@),
            views(lines@) == first + fv.take(i as int).map_values(|f: FindingV| "  "@ + (if f.ok { "✓"@ } else { "✗"@ }) + " "@ + f.where_ + "——"@ + f.what),
        decreases found@.len() - i,
    {
        let ghost pre = lines@;
        let item = &found[i];
        let mut line = String::from_str("  ");
        line.append(if item.ok { "✓" } else { "✗" });
        line.append(" ");
        line.append(item.where_.as_str());
        line.append("——");
        line.append(item.what.as_str());
        lines.push(line);
        proof {
            assert(views(lines@) =~= views(pre).push(line@));
            assert(fv.take(i + 1) =~= fv.take(i as int).push(fv[i as int]));
        }
        i = i + 1;
    }
    assert(fv.take(i as int) =~= fv);
    if found.len() == 0 {
        let ghost pre = lines@;
        lines.push(String::from_str("  （这条定义里没有可核对的路径与小节）"));
        assert(views(lines@) =~= views(pre).push("  （这条定义里没有可核对的路径与小节）"@));
    }
    assert(views(lines@) =~= describe_spec(fv));
    lines
}

/// Whether every finding holds.
pub fn all_ok(found: &Vec<Finding>) -> (r: bool)
    ensures
        r == forall|k: int| 0 <= k < found@.len() ==> (#[trigger] found@[k]).ok,
{
    let mut i: usize = 0;
    while i < found.len()
        invariant
            i <= found@.len(),
            forall|k: int| 0 <= k < i ==> (#[trigger] found@[k]).ok,
        decreases found@.len() - i,
    {
        if !found[i].ok {
            return false;
        }
        i = i + 1;
    }
    true
}


/// Picking names keeps those found distinct: a name is added only once.
proof fn lemma_pick_distinct(hits: Seq<(int, Seq<char>)>, found: Seq<Seq<char>>)
    requires
        forall|i: int, j: int| 0 <= i < j < found.len() ==> found[i] != found[j],
    ensures
        ({
            let r = pick_sections(hits, found);
            forall|i: int, j: int| 0 <= i < j < r.len() ==> r[i] != r[j]
        }),
    decreases hits.len(),
{
    if hits.len() > 0 {
        let name = trim_spec(hits[0].1);
        if looks_like_section_spec(name) && !found.contains(name) {
            let next = found.push(name);
            assert forall|i: int, j: int| 0 <= i < j < next.len() implies next[i] != next[j] by {
                if j == found.len() {
                    assert(next[i] == found[i]);
                    if found[i] == name {
                        assert(found.contains(name));
                    }
                }
            }
            lemma_pick_distinct(hits.drop_first(), next);
            assert(pick_sections(hits, found) == pick_sections(hits.drop_first(), next));
        } else {
            lemma_pick_distinct(hits.drop_first(), found);
            assert(pick_sections(hits, found) == pick_sections(hits.drop_first(), found));
        }
    } else {
        assert(pick_sections(hits, found) == found);
    }
}

/// A description names each section once, and only clean names.
pub proof fn lemma_sections_clean(text: Seq<char>)
    ensures
        forall|i: int, j: int| 0 <= i < j < sections_spec(text).len() ==> sections_spec(text)[i] != sections_spec(text)[j],
        forall|i: int| 0 <= i < sections_spec(text).len() ==> looks_like_section_spec(#[trigger] sections_spec(text)[i]),
{
    let hits = merge_hits(hash_hits(text, 0), quote_hits(text, 0));
    lemma_pick_distinct(hits, Seq::empty());
    lemma_pick_clean(hits, Seq::empty());
}

/// Picking names adds only clean ones.
proof fn lemma_pick_clean(hits: Seq<(int, Seq<char>)>, found: Seq<Seq<char>>)
    requires
        forall|i: int| 0 <= i < found.len() ==> looks_like_section_spec(#[trigger] found[i]),
    ensures
        forall|i: int| 0 <= i < pick_sections(hits, found).len() ==> looks_like_section_spec(#[trigger] pick_sections(hits, found)[i]),
    decreases hits.len(),
{
    if hits.len() > 0 {
        let name = trim_spec(hits[0].1);
        if looks_like_section_spec(name) && !found.contains(name) {
            let next = found.push(name);
            assert forall|i: int| 0 <= i < next.len() implies looks_like_section_spec(#[trigger] next[i]) by {
                if i < found.len() {
                    assert(next[i] == found[i]);
                }
            }
            lemma_pick_clean(hits.drop_first(), next);
            assert(pick_sections(hits, found) == pick_sections(hits.drop_first(), next));
        } else {
            lemma_pick_clean(hits.drop_first(), found);
            assert(pick_sections(hits, found) == pick_sections(hits.drop_first(), found));
        }
    } else {
        assert(pick_sections(hits, found) == found);
    }
}

}
