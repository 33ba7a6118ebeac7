//! The sections of the records a run keeps: the two sections of a report, the
//! template of a journal, and replacing one section of a report.
use vstd::prelude::*;
use crate::text::{find_spec, has_prefix, has_suffix, join_spec, lines_spec, trim_end_spec, trim_spec, views};

verus! {

/// The placeholder line of a journal template, dropped when narration comes in.
pub const JOURNAL_PLACEHOLDER: &'static str = "（这个任务的来龙去脉，你写）";

/// The title, or a stand-in when it is empty.
pub open spec fn title_or(title: Seq<char>) -> Seq<char> {
    if title.len() == 0 {
        "<任务的名字>"@
    } else {
        title
    }
}

/// The skeleton of a report: its title and its two sections.
pub open spec fn report_spec(title: Seq<char>) -> Seq<char> {
    "# 报告："@ + title_or(title) + "\n\n## 执行记录\n\n## 闸门项\n"@
}

/// The skeleton of a report.
pub fn report_template(title: &str) -> (r: String)
    ensures
        r@ == report_spec(title@),
{
    let mut r = String::from_str("# 报告：");
    if title.unicode_len() == 0 {
        r.append("<任务的名字>");
    } else {
        r.append(title);
    }
    r.append("\n\n## 执行记录\n\n## 闸门项\n");
    r
}

/// The skeleton of a journal: its title and the placeholder line.
pub open spec fn journal_spec(title: Seq<char>) -> Seq<char> {
    "# 日志："@ + title_or(title) + "\n\n"@ + JOURNAL_PLACEHOLDER@ + "\n"@
}

/// The skeleton of a journal.
pub fn journal_template(title: &str) -> (r: String)
    ensures
        r@ == journal_spec(title@),
{
    let mut r = String::from_str("# 日志：");
    if title.unicode_len() == 0 {
        r.append("<任务的名字>");
    } else {
        r.append(title);
    }
    r.append("\n\n");
    r.append(JOURNAL_PLACEHOLDER);
    r.append("\n");
    r
}

/// A section written out: its heading, a blank line, its lines.
pub open spec fn block_spec(title: Seq<char>, body: Seq<Seq<char>>) -> Seq<char> {
    "## "@ + title + "\n\n"@ + join_spec(body, "\n"@) + "\n"@
}

/// `text` with the section `title` holding `body`: the text before the
/// section and every section after it stay as they are; a text without the
/// section gets it at the end, after a blank line.
pub open spec fn replace_spec(text: Seq<char>, title: Seq<char>, body: Seq<Seq<char>>) -> Seq<char> {
    let marker = "## "@ + title;
    let block = block_spec(title, body);
    match find_spec(text, marker) {
        None => trim_end_spec(text) + "\n\n"@ + block,
        Some(at) => {
            let head = text.subrange(0, at);
            let tail = text.subrange(at + marker.len(), text.len() as int);
            match find_spec(tail, "## "@) {
                None => head + block,
                Some(next) => head + block + "\n"@ + tail.subrange(next, tail.len() as int),
            }
        },
    }
}

/// Replaces the body of one section.
pub fn replace_section(text: &str, title: &str, body: &Vec<String>) -> (r: String)
    ensures
        r@ == replace_spec(text@, title@, views(body@)),
{
    let marker = crate::text::cat("## ", title);
    let mut block = crate::text::cat("## ", title);
    block.append("\n\n");
    block.append(crate::text::join(body, "\n").as_str());
    block.append("\n");
    proof {
        crate::text::lemma_find_bounds(text@, marker@, 0);
    }
    let n = text.unicode_len();
    match crate::text::find(text, marker.as_str()) {
        None => {
            let mut r = crate::text::trim_end(text);
            r.append("\n\n");
            r.append(block.as_str());
            r
        },
        Some(at) => {
            let mut r = crate::text::substring(text, 0, at);
            let tail = crate::text::substring(text, at + marker.unicode_len(), n);
            proof {
                reveal_strlit("## ");
                crate::text::lemma_find_bounds(tail@, "## "@, 0);
            }
            let tn = tail.unicode_len();
            match crate::text::find(tail.as_str(), "## ") {
                None => {
                    r.append(block.as_str());
                    r
                },
                Some(next) => {
                    r.append(block.as_str());
                    r.append("\n");
                    r.append(crate::text::substring(tail.as_str(), next, tn).as_str());
                    r
                },
            }
        },
    }
}


/// `## ` holds no line break.
proof fn lemma_hash_no_break()
    ensures
        forall|j: int| 0 <= j < "## "@.len() ==> "## "@[j] != '\n',
        "## "@.len() == 3,
        "## "@[0] == '#',
{
    reveal_strlit("## ");
}

/// What follows the heading of a written section holds no `## `, with or
/// without one more line break after it, when no line of the body holds one.
proof fn lemma_after_heading_free(body: Seq<Seq<char>>)
    requires
        forall|k: int| 0 <= k < body.len() ==> find_spec(#[trigger] body[k], "## "@) is None,
    ensures
        crate::text::free_of(seq!['\n', '\n'] + join_spec(body, seq!['\n']) + seq!['\n'], "## "@),
        crate::text::free_of(seq!['\n', '\n'] + join_spec(body, seq!['\n']) + seq!['\n', '\n'], "## "@),
{
    let p = "## "@;
    lemma_hash_no_break();
    assert forall|k: int| 0 <= k < body.len() implies crate::text::free_of(#[trigger] body[k], p) by {
        crate::text::lemma_not_found_free(body[k], p);
    }
    crate::text::lemma_free_join_all(body, '\n', p);
    let j = join_spec(body, seq!['\n']);
    let e = Seq::<char>::empty();
    assert(crate::text::free_of(e, p)) by {
        assert forall|i: int| !crate::text::occurs_at(e, p, i) by {}
    }
    crate::text::lemma_free_join(e, '\n', e, p);
    crate::text::lemma_free_join(e + seq!['\n'] + e, '\n', j, p);
    let front = e + seq!['\n'] + e + seq!['\n'] + j;
    crate::text::lemma_free_join(front, '\n', e, p);
    assert(front + seq!['\n'] + e =~= seq!['\n', '\n'] + j + seq!['\n']);
    crate::text::lemma_free_join(front + seq!['\n'] + e, '\n', e, p);
    assert(front + seq!['\n'] + e + seq!['\n'] + e =~= seq!['\n', '\n'] + j + seq!['\n', '\n']);
}

/// Replacing a section twice with the same body gives what replacing it once
/// gives, when no line of the body holds `## ` and the title holds no line
/// break.
pub proof fn lemma_replace_idempotent(text: Seq<char>, title: Seq<char>, body: Seq<Seq<char>>)
    requires
        forall|k: int| 0 <= k < body.len() ==> find_spec(#[trigger] body[k], "## "@) is None,
        forall|j: int| 0 <= j < title.len() ==> title[j] != '\n',
    ensures
        replace_spec(replace_spec(text, title, body), title, body) == replace_spec(text, title, body),
{
    reveal_strlit("## ");
    reveal_strlit("\n\n");
    reveal_strlit("\n");
    lemma_hash_no_break();
    lemma_after_heading_free(body);
    let h = "## "@;
    let marker = h + title;
    let m = marker.len() as int;
    let jn = join_spec(body, "\n"@);
    assert("\n"@ =~= seq!['\n']);
    assert("\n\n"@ =~= seq!['\n', '\n']);
    let x = seq!['\n', '\n'] + jn + seq!['\n'];
    let block = block_spec(title, body);
    assert(block =~= marker + x);
    let once = replace_spec(text, title, body);
    crate::text::lemma_find_bounds(text, marker, 0);
    match find_spec(text, marker) {
        None => {
            crate::text::lemma_not_found_free(text, marker);
            let te = trim_end_spec(text);
            crate::text::lemma_trim_end_prefix(text);
            let k = te.len() + 2int;
            assert(once =~= te + seq!['\n', '\n'] + block);
            assert(once.subrange(k, k + m) =~= marker);
            assert forall|i: int| 0 <= i < k implies !crate::text::occurs_at(once, marker, i) by {
                if crate::text::occurs_at(once, marker, i) {
                    if i + m <= te.len() {
                        assert(text.subrange(i, i + m) =~= once.subrange(i, i + m));
                        assert(crate::text::occurs_at(text, marker, i));
                    } else if i <= te.len() {
                        let j = te.len() - i;
                        crate::text::lemma_occurs_chars(once, marker, i, j);
                        assert(once[te.len() as int] == '\n');
                        if j >= 3 {
                            assert(marker[j] == title[j - 3]);
                        } else {
                            assert(marker[j] == h[j]);
                        }
                    } else {
                        crate::text::lemma_occurs_chars(once, marker, i, 0);
                        assert(once[i] == '\n');
                        assert(marker[0] == h[0]);
                    }
                }
            }
            crate::text::lemma_find_exact(once, marker, k);
            assert(once.subrange(0, k) =~= te + seq!['\n', '\n']);
            assert(once.subrange(k + m, once.len() as int) =~= x);
            crate::text::lemma_free_not_found(x, h, 0);
            assert(once.subrange(0, k) + block =~= once);
        },
        Some(at) => {
            crate::text::lemma_found_first(text, marker, at);
            let head = text.subrange(0, at);
            let tail = text.subrange(at + m, text.len() as int);
            let e: Seq<char> = match find_spec(tail, h) {
                None => Seq::empty(),
                Some(next) => seq!['\n'] + tail.subrange(next, tail.len() as int),
            };
            assert(once =~= head + block + e);
            assert(once.subrange(at, at + m) =~= marker);
            assert forall|i: int| 0 <= i < at implies !crate::text::occurs_at(once, marker, i) by {
                if crate::text::occurs_at(once, marker, i) {
                    assert forall|q: int| 0 <= q < m implies #[trigger] once.subrange(i, i + m)[q] == text.subrange(i, i + m)[q] by {
                        let idx = i + q;
                        if idx >= at {
                            crate::text::lemma_occurs_chars(text, marker, at, idx - at);
                            assert(once[idx] == block[idx - at]);
                        }
                    }
                    assert(once.subrange(i, i + m) =~= text.subrange(i, i + m));
                    assert(crate::text::occurs_at(text, marker, i));
                }
            }
            crate::text::lemma_find_exact(once, marker, at);
            assert(once.subrange(0, at) =~= head);
            let tail2 = once.subrange(at + m, once.len() as int);
            assert(tail2 =~= x + e);
            crate::text::lemma_find_bounds(tail, h, 0);
            match find_spec(tail, h) {
                None => {
                    assert(tail2 =~= x);
                    crate::text::lemma_free_not_found(x, h, 0);
                    assert(head + block =~= once);
                },
                Some(next) => {
                    let r = tail.subrange(next, tail.len() as int);
                    let y = seq!['\n', '\n'] + jn + seq!['\n', '\n'];
                    assert(tail2 =~= y + r);
                    let k2 = y.len() as int;
                    assert(r.subrange(0, 3) =~= tail.subrange(next, next + 3));
                    assert(tail2.subrange(k2, k2 + 3) =~= h);
                    assert forall|i: int| 0 <= i < k2 implies !crate::text::occurs_at(tail2, h, i) by {
                        if crate::text::occurs_at(tail2, h, i) {
                            if i + 3 <= k2 {
                                assert(y.subrange(i, i + 3) =~= tail2.subrange(i, i + 3));
                                assert(crate::text::occurs_at(y, h, i));
                            } else {
                                let j = k2 - 1 - i;
                                crate::text::lemma_occurs_chars(tail2, h, i, j);
                                assert(tail2[k2 - 1] == '\n');
                            }
                        }
                    }
                    crate::text::lemma_find_exact(tail2, h, k2);
                    assert(tail2.subrange(k2, tail2.len() as int) =~= r);
                    assert(head + block + seq!['\n'] + r =~= once);
                },
            }
        },
    }
}

/// A line that is a note in full-width brackets, once trimmed.
pub open spec fn bracketed(line: Seq<char>) -> bool {
    has_prefix(trim_spec(line), "（"@) && has_suffix(trim_spec(line), "）"@)
}

/// The lines that are not bracketed notes, in order.
pub open spec fn unbracketed(lines: Seq<Seq<char>>) -> Seq<Seq<char>>
    decreases lines.len(),
{
    if lines.len() == 0 {
        Seq::empty()
    } else if bracketed(lines[0]) {
        unbracketed(lines.drop_first())
    } else {
        seq![lines[0]] + unbracketed(lines.drop_first())
    }
}

/// A journal with a paragraph added: its text (or, with none, a title line)
/// without its bracketed notes and trailing white space, a blank line, the
/// words trimmed.
pub open spec fn narrate_spec(text: Option<Seq<char>>, name: Seq<char>, words: Seq<char>) -> Seq<char> {
    let body = match text {
        Some(t) => t,
        None => "# 日志："@ + name + "\n"@,
    };
    trim_end_spec(join_spec(unbracketed(lines_spec(body)), "\n"@)) + "\n\n"@ + trim_spec(words) + "\n"@
}

/// A journal with a paragraph added (without the file): `text`
/// is the journal as it stands, `None` when there is none yet.
pub fn narrate(text: Option<&str>, name: &str, words: &str) -> (r: String)
    ensures
        r@ == narrate_spec(match text {
            Some(t) => Some(t@),
            None => None::<Seq<char>>,
        }, name@, words@),
{
    let body = match text {
        Some(t) => String::from_str(t),
        None => {
            let mut b = crate::text::cat("# 日志：", name);
            b.append("\n");
            b
        },
    };
    let lines = crate::text::lines(body.as_str());
    let ghost lv = views(lines@);
    let mut kept: Vec<String> = Vec::new();
    let mut i: usize = 0;
    assert(lv.subrange(0, lv.len() as int) =~= lv);
    assert(views(kept@) =~= Seq::<Seq<char>>::empty());
    while i < lines.len()
        invariant
            i <= lines@.len(),
            lv == views(lines@),
            unbracketed(lv) == views(kept@) + unbracketed(lv.subrange(i as int, lv.len() as int)),
        decreases lines@.len() - i,
    {
        let ghost here = lv.subrange(i as int, lv.len() as int);
        let ghost before = kept@;
        proof {
            assert(here.drop_first() =~= lv.subrange(i + 1, lv.len() as int));
            assert(here[0] == lines@[i as int]@);
        }
        let stripped = crate::text::trim(lines[i].as_str());
        let note = crate::text::starts_with(stripped.as_str(), "（") && crate::text::ends_with(stripped.as_str(), "）");
        if !note {
            kept.push(lines[i].clone());
            proof {
                assert(views(kept@) =~= views(before).push(lines@[i as int]@));
                assert(views(before) + (seq![here[0]] + unbracketed(here.drop_first())) =~= views(kept@) + unbracketed(here.drop_first()));
            }
        }
        i = i + 1;
    }
    assert(lv.subrange(i as int, lv.len() as int) =~= Seq::<Seq<char>>::empty());
    assert(views(kept@) + Seq::<Seq<char>>::empty() =~= views(kept@));
    let joined = crate::text::join(&kept, "\n");
    let mut r = crate::text::trim_end(joined.as_str());
    r.append("\n\n");
    r.append(crate::text::trim(words).as_str());
    r.append("\n");
    r
}

}
