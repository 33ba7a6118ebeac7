//! Reading an agent's judgment, and concluding a step from what the rules, the
//! judging agent and the gates said. The agent and the checks run outside; what
//! they answered comes in here, and the verdict, the journal line, the gates
//! left for a person and the report lines and rows come out.
use vstd::prelude::*;
use crate::audit::{Item, ItemV, results_view};
use crate::prompts::one_line_spec;
use crate::text::{decimal_spec, find_spec, has_prefix, join_spec, lines_spec, trim_spec, views};

verus! {

/// The word a judgment line gives: `✗` for 不通过, `✓` for 通过, else `待判`.
pub open spec fn verdict_word(tail: Seq<char>) -> Seq<char> {
    if has_prefix(tail, "不通过"@) {
        "✗"@
    } else if has_prefix(tail, "通过"@) {
        "✓"@
    } else {
        "待判"@
    }
}

/// The rest of the first line that starts, once trimmed, with `prefix`; trimmed.
pub open spec fn first_numbered(lines: Seq<Seq<char>>, prefix: Seq<char>) -> Option<Seq<char>>
    decreases lines.len(),
{
    if lines.len() == 0 {
        None
    } else {
        let st = trim_spec(lines[0]);
        if has_prefix(st, prefix) {
            Some(trim_spec(st.subrange(prefix.len() as int, st.len() as int)))
        } else {
            first_numbered(lines.drop_first(), prefix)
        }
    }
}

/// A text without its spaces.
pub open spec fn no_spaces(s: Seq<char>) -> Seq<char>
    decreases s.len(),
{
    if s.len() == 0 {
        Seq::empty()
    } else if s.last() == ' ' {
        no_spaces(s.drop_last())
    } else {
        no_spaces(s.drop_last()).push(s.last())
    }
}

/// The verdict on criterion `index` read from a judgment: its numbered line when
/// there is one, else the whole answer, with its last line as the reason.
pub open spec fn verdict_of_spec(out: Seq<char>, index: nat) -> (Seq<char>, Seq<char>) {
    match first_numbered(lines_spec(out), decimal_spec(index) + "."@) {
        Some(tail) => (verdict_word(tail), tail),
        None => {
            let flat = no_spaces(out);
            let reason = one_line_spec(out, 80);
            if find_spec(flat, "不通过"@) is Some {
                ("✗"@, reason)
            } else if find_spec(flat, "通过"@) is Some {
                ("✓"@, reason)
            } else {
                ("待判"@, reason)
            }
        },
    }
}

/// The word a judgment line gives.
fn word_of(tail: &str) -> (r: &'static str)
    ensures
        r@ == verdict_word(tail@),
{
    if crate::text::starts_with(tail, "不通过") {
        "✗"
    } else if crate::text::starts_with(tail, "通过") {
        "✓"
    } else {
        "待判"
    }
}

/// A text without its spaces (`str::replace(' ', "")`).
fn without_spaces(s: &str) -> (r: String)
    ensures
        r@ == no_spaces(s@),
{
    let v = crate::text::chars_of(s);
    let mut out = String::new();
    let mut i: usize = 0;
    while i < v.len()
        invariant
            i <= v@.len(),
            v@ == s@,
            out@ == no_spaces(s@.take(i as int)),
        decreases v@.len() - i,
    {
        proof {
            assert(s@.take(i + 1).drop_last() =~= s@.take(i as int));
        }
        if v[i] != ' ' {
            crate::text::push_char(&mut out, v[i]);
        }
        i = i + 1;
    }
    assert(s@.take(i as int) =~= s@);
    out
}

/// The verdict on criterion `index` read from a judgment.
pub fn verdict_of(out: &str, index: usize) -> (r: (String, String))
    ensures
        (r.0@, r.1@) == verdict_of_spec(out@, index as nat),
{
    let mut prefix = crate::text::decimal(index);
    prefix.append(".");
    let lines = crate::text::lines(out);
    let ghost lv = views(lines@);
    let mut i: usize = 0;
    assert(lv.subrange(0, lv.len() as int) =~= lv);
    while i < lines.len()
        invariant
            i <= lines@.len(),
            lv == views(lines@),
            lv == lines_spec(out@),
            prefix@ == decimal_spec(index as nat) + "."@,
            first_numbered(lv, prefix@) == first_numbered(lv.subrange(i as int, lv.len() as int), prefix@),
        decreases lines@.len() - i,
    {
        proof {
            assert(lv.subrange(i as int, lv.len() as int).drop_first() =~= lv.subrange(i + 1, lv.len() as int));
        }
        assert(lv.subrange(i as int, lv.len() as int)[0] == lines@[i as int]@);
        let stripped = crate::text::trim(lines[i].as_str());
        match crate::text::strip_prefix(stripped.as_str(), prefix.as_str()) {
            Some(rest) => {
                let tail = crate::text::trim(rest.as_str());
                let word = word_of(tail.as_str());
                proof {
                    let here = lv.subrange(i as int, lv.len() as int);
                    assert(trim_spec(here[0]) == stripped@);
                    assert(has_prefix(stripped@, prefix@));
                    assert(first_numbered(here, prefix@) == Some(tail@));
                    assert(prefix@ == decimal_spec(index as nat) + "."@);
                }
                return (String::from_str(word), tail);
            },
            None => {},
        }
        i = i + 1;
    }
    assert(lv.subrange(i as int, lv.len() as int) =~= Seq::<Seq<char>>::empty());
    let flat = without_spaces(out);
    let reason = crate::prompts::one_line(out, 80);
    if crate::text::contains(flat.as_str(), "不通过") {
        (String::from_str("✗"), reason)
    } else if crate::text::contains(flat.as_str(), "通过") {
        (String::from_str("✓"), reason)
    } else {
        (String::from_str("待判"), reason)
    }
}

/// The views of rows: a description, a verdict and a reason each.
pub open spec fn rows_view(v: Seq<(String, String, String)>) -> Seq<(Seq<char>, Seq<char>, Seq<char>)> {
    v.map_values(|x: (String, String, String)| (x.0@, x.1@, x.2@))
}

/// The rows a judgment gives: for each criterion, read from the answer, or
/// left undecided when the judging agent did not run.
pub open spec fn judged_rows_spec(notes: Seq<Seq<char>>, ran: bool, out: Seq<char>) -> Seq<(Seq<char>, Seq<char>, Seq<char>)> {
    Seq::new(notes.len(), |k: int| if ran {
        (notes[k], verdict_of_spec(out, (k + 1) as nat).0, verdict_of_spec(out, (k + 1) as nat).1)
    } else {
        (notes[k], "待判"@, "智能体没跑成："@ + one_line_spec(out, 80))
    })
}

/// The rows a judgment gives, one per criterion (after the run):
/// `notes` are the criteria's texts, `ran` and `out` what the judging agent did.
pub fn judged_rows(notes: &Vec<String>, ran: bool, out: &str) -> (r: Vec<(String, String, String)>)
    ensures
        rows_view(r@) == judged_rows_spec(views(notes@), ran, out@),
{
    let ghost target = judged_rows_spec(views(notes@), ran, out@);
    let mut rows: Vec<(String, String, String)> = Vec::new();
    let mut i: usize = 0;
    while i < notes.len()
        invariant
            i <= notes@.len(),
            target == judged_rows_spec(views(notes@), ran, out@),
            rows_view(rows@) =~= target.take(i as int),
        decreases notes@.len() - i,
    {
        let ghost before = rows@;
        let row = if !ran {
            let reason = crate::text::cat("智能体没跑成：", crate::prompts::one_line(out, 80).as_str());
            (notes[i].clone(), String::from_str("待判"), reason)
        } else {
            let (verdict, reason) = verdict_of(out, i + 1);
            (notes[i].clone(), verdict, reason)
        };
        let ghost rv = (row.0@, row.1@, row.2@);
        rows.push(row);
        proof {
            assert(rv == target[i as int]);
            assert(rows_view(rows@) =~= rows_view(before).push(rv));
            assert(target.take(i + 1) =~= target.take(i as int).push(target[i as int]));
        }
        i = i + 1;
    }
    assert(target.take(i as int) =~= target);
    rows
}

/// Every row passed.
pub open spec fn all_passed(rows: Seq<(Seq<char>, Seq<char>, Seq<char>)>) -> bool {
    forall|k: int| 0 <= k < rows.len() ==> (#[trigger] rows[k]).1 == "✓"@
}

/// A judgment passes exactly when every verdict is `✓`: a row left `待判`,
/// or any verdict but `✓`, fails it.
pub proof fn lemma_passed_means_every_tick(rows: Seq<(Seq<char>, Seq<char>, Seq<char>)>)
    ensures
        all_passed(rows) <==> forall|k: int| 0 <= k < rows.len() ==> (#[trigger] rows[k].1) == "✓"@,
        forall|k: int| 0 <= k < rows.len() && rows[k].1 != "✓"@ ==> !all_passed(rows),
{
}

/// The journal line of a judgment: each criterion with its verdict.
pub open spec fn judged_detail_spec(rows: Seq<(Seq<char>, Seq<char>, Seq<char>)>) -> Seq<char> {
    "AI 审查（同一模型）："@ + join_spec(rows.map_values(|x: (Seq<char>, Seq<char>, Seq<char>)| x.0 + "→"@ + x.1), "；"@)
}

/// What a judgment is recorded as (its journal line): whether
/// every criterion passed, and the line.
pub fn judged_detail(rows: &Vec<(String, String, String)>) -> (r: (bool, String))
    ensures
        r.0 == all_passed(rows_view(rows@)),
        r.1@ == judged_detail_spec(rows_view(rows@)),
        r.0 <==> forall|k: int| 0 <= k < rows@.len() ==> (#[trigger] rows@[k]).1@ == "✓"@,
{
    let ghost rv = rows_view(rows@);
    let mut parts: Vec<String> = Vec::new();
    let mut all = true;
    let mut i: usize = 0;
    while i < rows.len()
        invariant
            i <= rows@.len(),
            rv == rows_view(rows@),
            all == forall|k: int| 0 <= k < i ==> (#[trigger] rv[k]).1 == "✓"@,
            views(parts@) =~= rv.take(i as int).map_values(|x: (Seq<char>, Seq<char>, Seq<char>)| x.0 + "→"@ + x.1),
        decreases rows@.len() - i,
    {
        let ghost before = parts@;
        let mut part = rows[i].0.clone();
        part.append("→");
        part.append(rows[i].1.as_str());
        parts.push(part);
        if !crate::yaml::same(rows[i].1.as_str(), "✓") {
            all = false;
        }
        proof {
            assert(views(parts@) =~= views(before).push(part@));
            assert(rv.take(i + 1) =~= rv.take(i as int).push(rv[i as int]));
        }
        i = i + 1;
    }
    assert(rv.take(i as int) =~= rv);
    proof {
        lemma_passed_means_every_tick(rv);
        assert forall|k: int| 0 <= k < rows@.len() implies (#[trigger] rows@[k]).1@ == rv[k].1 by {}
    }
    let detail = crate::text::cat("AI 审查（同一模型）：", crate::text::join(&parts, "；").as_str());
    (all, detail)
}

/// The rows of the rules that ran: description, `✓` or `✗`, what was checked.
pub open spec fn rule_rows_spec(results: Seq<(ItemV, bool, Seq<char>)>) -> Seq<(Seq<char>, Seq<char>, Seq<char>)> {
    results.map_values(|x: (ItemV, bool, Seq<char>)| (x.0.description, if x.1 { "✓"@ } else { "✗"@ }, x.2))
}

/// The report lines of the rules that ran.
pub open spec fn rule_lines_spec(results: Seq<(ItemV, bool, Seq<char>)>) -> Seq<Seq<char>> {
    results.map_values(|x: (ItemV, bool, Seq<char>)| "  "@ + (if x.1 { "✓"@ } else { "✗"@ }) + " "@ + x.0.description + "（"@ + x.2 + "）"@)
}

/// The report lines of judged criteria.
pub open spec fn judged_lines_spec(judged: Seq<(Seq<char>, Seq<char>, Seq<char>)>) -> Seq<Seq<char>> {
    judged.map_values(|x: (Seq<char>, Seq<char>, Seq<char>)| "  "@ + x.1 + " "@ + x.0 + "（"@ + x.2 + "）"@)
}

/// The report lines of gates.
pub open spec fn gate_lines_spec(gates: Seq<Seq<char>>) -> Seq<Seq<char>> {
    gates.map_values(|g: Seq<char>| "  ⧗ "@ + g + "（留给人）"@)
}

/// The rows of gates.
pub open spec fn gate_rows_spec(gates: Seq<Seq<char>>) -> Seq<(Seq<char>, Seq<char>, Seq<char>)> {
    gates.map_values(|g: Seq<char>| (g, "闸门"@, "留给人拍板"@))
}

/// The journal line of a step: the note when given, else the rules'
/// descriptions, else `fallback`.
pub open spec fn detail_spec(note: Seq<char>, results: Seq<(ItemV, bool, Seq<char>)>, fallback: Seq<char>) -> Seq<char> {
    if trim_spec(note).len() > 0 {
        trim_spec(note)
    } else if results.len() > 0 {
        join_spec(results.map_values(|x: (ItemV, bool, Seq<char>)| x.0.description), "；"@)
    } else {
        fallback
    }
}

/// Every rule that ran passed.
pub open spec fn rules_passed(results: Seq<(ItemV, bool, Seq<char>)>) -> bool {
    forall|k: int| 0 <= k < results.len() ==> (#[trigger] results[k]).1
}

/// The journal line of a step.
pub fn detail(note: &str, results: &Vec<(Item, bool, String)>, fallback: &str) -> (r: String)
    ensures
        r@ == detail_spec(note@, results_view(results@), fallback@),
{
    let trimmed = crate::text::trim(note);
    if trimmed.unicode_len() > 0 {
        return trimmed;
    }
    if results.len() == 0 {
        return String::from_str(fallback);
    }
    let ghost rv = results_view(results@);
    let mut parts: Vec<String> = Vec::new();
    let mut i: usize = 0;
    while i < results.len()
        invariant
            i <= results@.len(),
            rv == results_view(results@),
            views(parts@) =~= rv.take(i as int).map_values(|x: (ItemV, bool, Seq<char>)| x.0.description),
        decreases results@.len() - i,
    {
        let ghost before = parts@;
        let d = results[i].0.description.clone();
        parts.push(d);
        proof {
            assert(views(parts@) =~= views(before).push(d@));
            assert(rv[i as int].0.description == d@);
            assert(rv.take(i + 1) =~= rv.take(i as int).push(rv[i as int]));
        }
        i = i + 1;
    }
    assert(rv.take(i as int) =~= rv);
    crate::text::join(&parts, "；")
}

/// Whether every rule that ran passed.
pub fn rules_pass(results: &Vec<(Item, bool, String)>) -> (r: bool)
    ensures
        r == rules_passed(results_view(results@)),
{
    let mut i: usize = 0;
    while i < results.len()
        invariant
            i <= results@.len(),
            forall|k: int| 0 <= k < i ==> (#[trigger] results_view(results@)[k]).1,
        decreases results@.len() - i,
    {
        if !results[i].1 {
            assert(!results_view(results@)[i as int].1);
            return false;
        }
        i = i + 1;
    }
    true
}

/// The report lines and rows of a step: the rules, the judged criteria and
/// the gates, in that order.
pub fn report(
    results: &Vec<(Item, bool, String)>,
    judged: &Vec<(String, String, String)>,
    gates: &Vec<String>,
    lines: &mut Vec<String>,
    rows: &mut Vec<(String, String, String)>,
)
    ensures
        views(final(lines)@) == views(old(lines)@) + rule_lines_spec(results_view(results@)) + judged_lines_spec(rows_view(judged@))
            + gate_lines_spec(views(gates@)),
        rows_view(final(rows)@) == rows_view(old(rows)@) + rule_rows_spec(results_view(results@)) + rows_view(judged@)
            + gate_rows_spec(views(gates@)),
{
    let ghost l0 = views(lines@);
    let ghost r0 = rows_view(rows@);
    let ghost res = results_view(results@);
    let ghost jv = rows_view(judged@);
    let ghost gv = views(gates@);
    let mut i: usize = 0;
    while i < results.len()
        invariant
            i <= results@.len(),
            res == results_view(results@),
            views(lines@) =~= l0 + rule_lines_spec(res.take(i as int)),
            rows_view(rows@) =~= r0 + rule_rows_spec(res.take(i as int)),
        decreases results@.len() - i,
    {
        let ghost lb = lines@;
        let ghost rb = rows@;
        let mark = if results[i].1 { "✓" } else { "✗" };
        let mut line = crate::text::cat("  ", mark);
        line.append(" ");
        line.append(results[i].0.description.as_str());
        line.append("（");
        line.append(results[i].2.as_str());
        line.append("）");
        lines.push(line);
        let row = (results[i].0.description.clone(), String::from_str(mark), results[i].2.clone());
        let ghost rowv = (row.0@, row.1@, row.2@);
        rows.push(row);
        proof {
            assert(res.take(i + 1) =~= res.take(i as int).push(res[i as int]));
            assert(views(lines@) =~= views(lb).push(line@));
            assert(rows_view(rows@) =~= rows_view(rb).push(rowv));
        }
        i = i + 1;
    }
    assert(res.take(i as int) =~= res);
    let ghost l1 = views(lines@);
    let ghost r1 = rows_view(rows@);
    let mut k: usize = 0;
    while k < judged.len()
        invariant
            k <= judged@.len(),
            jv == rows_view(judged@),
            views(lines@) =~= l1 + judged_lines_spec(jv.take(k as int)),
            rows_view(rows@) =~= r1 + jv.take(k as int),
        decreases judged@.len() - k,
    {
        let ghost lb = lines@;
        let ghost rb = rows@;
        let mut line = crate::text::cat("  ", judged[k].1.as_str());
        line.append(" ");
        line.append(judged[k].0.as_str());
        line.append("（");
        line.append(judged[k].2.as_str());
        line.append("）");
        lines.push(line);
        let row = (judged[k].0.clone(), judged[k].1.clone(), judged[k].2.clone());
        let ghost rowv = (row.0@, row.1@, row.2@);
        rows.push(row);
        proof {
            assert(jv.take(k + 1) =~= jv.take(k as int).push(jv[k as int]));
            assert(views(lines@) =~= views(lb).push(line@));
            assert(rows_view(rows@) =~= rows_view(rb).push(rowv));
        }
        k = k + 1;
    }
    assert(jv.take(k as int) =~= jv);
    let ghost l2 = views(lines@);
    let ghost r2 = rows_view(rows@);
    let mut g: usize = 0;
    while g < gates.len()
        invariant
            g <= gates@.len(),
            gv == views(gates@),
            views(lines@) =~= l2 + gate_lines_spec(gv.take(g as int)),
            rows_view(rows@) =~= r2 + gate_rows_spec(gv.take(g as int)),
        decreases gates@.len() - g,
    {
        let ghost lb = lines@;
        let ghost rb = rows@;
        let mut line = crate::text::cat("  ⧗ ", gates[g].as_str());
        line.append("（留给人）");
        lines.push(line);
        let row = (gates[g].clone(), String::from_str("闸门"), String::from_str("留给人拍板"));
        let ghost rowv = (row.0@, row.1@, row.2@);
        rows.push(row);
        proof {
            assert(gv.take(g + 1) =~= gv.take(g as int).push(gv[g as int]));
            assert(views(lines@) =~= views(lb).push(line@));
            assert(rows_view(rows@) =~= rows_view(rb).push(rowv));
        }
        g = g + 1;
    }
    assert(gv.take(g as int) =~= gv);
}

}
