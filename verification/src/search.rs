//! Finding documents by name, through the names the catalog gathered: exact
//! matches first, and only when there are none, names that hold the query or
//! that the query holds. Case does not matter.
use vstd::prelude::*;
use crate::catalog::{Entry, EntryV, entries_view};
use crate::text::{find_spec, lowercase, trim_spec, views};

verus! {

/// No name of any entry is, in lower case, the query.
pub open spec fn no_exact_name(es: Seq<EntryV>, q: Seq<char>) -> bool {
    forall|k: int, j: int|
        #![trigger es[k].names[j]]
        0 <= k < es.len() && 0 <= j < es[k].names.len() ==> lowercase(es[k].names[j]) != q
}

/// The name, in lower case, and the query: one holds the other.
pub open spec fn related(name: Seq<char>, q: Seq<char>) -> bool {
    find_spec(q, lowercase(name)) is Some || find_spec(lowercase(name), q) is Some
}

proof fn lemma_exact_empty(es: Seq<EntryV>, q: Seq<char>)
    requires
        no_exact_name(es, q),
    ensures
        exact_spec(es, q).len() == 0,
    decreases es.len(),
{
    if es.len() > 0 {
        assert(!exact_hit(es[0], q)) by {
            if exact_hit(es[0], q) {
                let n = choose|n: Seq<char>| es[0].names.contains(n) && #[trigger] lowercase(n) == q;
                let j = choose|j: int| 0 <= j < es[0].names.len() && es[0].names[j] == n;
                assert(lowercase(es[0].names[j]) != q);
            }
        }
        let rest = es.drop_first();
        assert(no_exact_name(rest, q)) by {
            assert forall|k: int, j: int| 0 <= k < rest.len() && 0 <= j < rest[k].names.len() implies lowercase(#[trigger] rest[k].names[j]) != q by {
                assert(rest[k] == es[k + 1]);
                assert(lowercase(es[k + 1].names[j]) != q);
            }
        }
        lemma_exact_empty(rest, q);
    }
}

proof fn lemma_loose_has(es: Seq<EntryV>, q: Seq<char>, k: int)
    requires
        0 <= k < es.len(),
        loose_hit(es[k], q),
    ensures
        loose_spec(es, q).contains(es[k]),
    decreases es.len(),
{
    if k == 0 {
        assert(loose_spec(es, q)[0] == es[0]);
    } else {
        let rest = es.drop_first();
        assert(rest[k - 1] == es[k]);
        lemma_loose_has(rest, q, k - 1);
        let lr = loose_spec(rest, q);
        let i = choose|i: int| 0 <= i < lr.len() && lr[i] == es[k];
        if loose_hit(es[0], q) {
            assert(loose_spec(es, q)[i + 1] == lr[i]);
        } else {
            assert(loose_spec(es, q)[i] == lr[i]);
        }
    }
}

/// The entries that match, exactly or loosely.
pub open spec fn picked(es: Seq<EntryV>, q: Seq<char>, loose: bool) -> Seq<EntryV> {
    if loose { loose_spec(es, q) } else { exact_spec(es, q) }
}

proof fn lemma_picked_hit(es: Seq<EntryV>, q: Seq<char>, loose: bool)
    ensures
        forall|i: int| 0 <= i < picked(es, q, loose).len() ==> {
            let e = #[trigger] picked(es, q, loose)[i];
            es.contains(e) && if loose { loose_hit(e, q) } else { exact_hit(e, q) }
        },
    decreases es.len(),
{
    if es.len() > 0 {
        let rest = es.drop_first();
        lemma_picked_hit(rest, q, loose);
        let o = picked(es, q, loose);
        let orr = picked(rest, q, loose);
        let hit0 = if loose { loose_hit(es[0], q) } else { exact_hit(es[0], q) };
        assert forall|i: int| 0 <= i < o.len() implies {
            let e = #[trigger] o[i];
            es.contains(e) && if loose { loose_hit(e, q) } else { exact_hit(e, q) }
        } by {
            if hit0 {
                assert(o =~= seq![es[0]] + orr);
                if i == 0 {
                    assert(es[0] == o[0]);
                } else {
                    assert(o[i] == orr[i - 1]);
                    let t = choose|t: int| 0 <= t < rest.len() && rest[t] == orr[i - 1];
                    assert(es[t + 1] == rest[t]);
                }
            } else {
                assert(o =~= orr);
                assert(o[i] == orr[i]);
                let t = choose|t: int| 0 <= t < rest.len() && rest[t] == orr[i];
                assert(es[t + 1] == rest[t]);
            }
        }
    }
}

/// A search finds loosely when nothing matches exactly: when no name of any
/// entry is, in lower case, the query, every entry with a name that holds the
/// query, or that the query holds, is found.
pub proof fn lemma_search_finds_loosely(es: Seq<EntryV>, query: Seq<char>, k: int, j: int)
    requires
        no_exact_name(es, query_spec(query)),
        0 <= k < es.len(),
        0 <= j < es[k].names.len(),
        related(es[k].names[j], query_spec(query)),
    ensures
        matches_spec(es, query).contains(es[k]),
{
    let q = query_spec(query);
    lemma_exact_empty(es, q);
    let n = es[k].names[j];
    assert(es[k].names.contains(n));
    assert(find_spec(q, lowercase(n)) is Some || find_spec(lowercase(n), q) is Some);
    assert(loose_hit(es[k], q));
    lemma_loose_has(es, q, k);
}

/// What a search finds is found by name: every entry returned is one of the
/// entries; when some name is, in lower case, the query, each entry returned
/// has such a name; otherwise each has a name that holds the query or that the
/// query holds.
pub proof fn lemma_search_sound(es: Seq<EntryV>, query: Seq<char>)
    ensures
        forall|i: int| 0 <= i < matches_spec(es, query).len() ==> {
            let e = #[trigger] matches_spec(es, query)[i];
            &&& es.contains(e)
            &&& if no_exact_name(es, query_spec(query)) {
                exists|j: int| 0 <= j < e.names.len() && related(#[trigger] e.names[j], query_spec(query))
            } else {
                exists|j: int| 0 <= j < e.names.len() && lowercase(#[trigger] e.names[j]) == query_spec(query)
            }
        },
{
    let q = query_spec(query);
    lemma_picked_hit(es, q, false);
    lemma_picked_hit(es, q, true);
    let r = matches_spec(es, query);
    if no_exact_name(es, q) {
        lemma_exact_empty(es, q);
        assert forall|i: int| 0 <= i < r.len() implies {
            let e = #[trigger] r[i];
            &&& es.contains(e)
            &&& exists|j: int| 0 <= j < e.names.len() && related(#[trigger] e.names[j], q)
        } by {
            let e = r[i];
            assert(picked(es, q, true)[i] == e);
            assert(loose_hit(e, q));
            let n = choose|n: Seq<char>| e.names.contains(n) && (find_spec(q, #[trigger] lowercase(n)) is Some || find_spec(lowercase(n), q) is Some);
            let j = choose|j: int| 0 <= j < e.names.len() && e.names[j] == n;
            assert(related(e.names[j], q));
        }
    } else {
        let (k0, j0) = choose|k: int, j: int|
            #![trigger es[k].names[j]]
            0 <= k < es.len() && 0 <= j < es[k].names.len() && lowercase(es[k].names[j]) == q;
        assert(exact_spec(es, q).len() > 0) by {
            let n = es[k0].names[j0];
            assert(es[k0].names.contains(n));
            assert(exact_hit(es[k0], q));
            lemma_exact_has(es, q, k0);
        }
        assert forall|i: int| 0 <= i < r.len() implies {
            let e = #[trigger] r[i];
            &&& es.contains(e)
            &&& exists|j: int| 0 <= j < e.names.len() && lowercase(#[trigger] e.names[j]) == q
        } by {
            let e = r[i];
            assert(picked(es, q, false)[i] == e);
            assert(exact_hit(e, q));
            let n = choose|n: Seq<char>| e.names.contains(n) && #[trigger] lowercase(n) == q;
            let j = choose|j: int| 0 <= j < e.names.len() && e.names[j] == n;
            assert(lowercase(e.names[j]) == q);
        }
    }
}

proof fn lemma_exact_has(es: Seq<EntryV>, q: Seq<char>, k: int)
    requires
        0 <= k < es.len(),
        exact_hit(es[k], q),
    ensures
        exact_spec(es, q).contains(es[k]),
    decreases es.len(),
{
    if k == 0 {
        assert(exact_spec(es, q)[0] == es[0]);
    } else {
        let rest = es.drop_first();
        assert(rest[k - 1] == es[k]);
        lemma_exact_has(rest, q, k - 1);
        let lr = exact_spec(rest, q);
        let i = choose|i: int| 0 <= i < lr.len() && lr[i] == es[k];
        if exact_hit(es[0], q) {
            assert(exact_spec(es, q)[i + 1] == lr[i]);
        } else {
            assert(exact_spec(es, q)[i] == lr[i]);
        }
    }
}

/// A text without the slashes it ends with.
pub open spec fn strip_slashes(s: Seq<char>) -> Seq<char>
    decreases s.len(),
{
    if s.len() > 0 && s.last() == '/' {
        strip_slashes(s.drop_last())
    } else {
        s
    }
}

/// The query as names are compared with it: trimmed, without closing
/// slashes, in lower case.
pub open spec fn query_spec(query: Seq<char>) -> Seq<char> {
    lowercase(strip_slashes(trim_spec(query)))
}

/// One of an entry's names, in lower case, is the query.
pub open spec fn exact_hit(e: EntryV, q: Seq<char>) -> bool {
    exists|n: Seq<char>| e.names.contains(n) && #[trigger] lowercase(n) == q
}

/// One of an entry's names, in lower case, holds the query or is held by it.
pub open spec fn loose_hit(e: EntryV, q: Seq<char>) -> bool {
    exists|n: Seq<char>| e.names.contains(n) && (find_spec(q, #[trigger] lowercase(n)) is Some || find_spec(lowercase(n), q) is Some)
}

/// The entries whose names match exactly, in order.
pub open spec fn exact_spec(es: Seq<EntryV>, q: Seq<char>) -> Seq<EntryV>
    decreases es.len(),
{
    if es.len() == 0 {
        Seq::empty()
    } else if exact_hit(es[0], q) {
        seq![es[0]] + exact_spec(es.drop_first(), q)
    } else {
        exact_spec(es.drop_first(), q)
    }
}

/// The entries whose names match loosely, in order.
pub open spec fn loose_spec(es: Seq<EntryV>, q: Seq<char>) -> Seq<EntryV>
    decreases es.len(),
{
    if es.len() == 0 {
        Seq::empty()
    } else if loose_hit(es[0], q) {
        seq![es[0]] + loose_spec(es.drop_first(), q)
    } else {
        loose_spec(es.drop_first(), q)
    }
}

/// The entries a query finds: the exact matches, else the loose ones.
pub open spec fn matches_spec(es: Seq<EntryV>, query: Seq<char>) -> Seq<EntryV> {
    let q = query_spec(query);
    if exact_spec(es, q).len() > 0 {
        exact_spec(es, q)
    } else {
        loose_spec(es, q)
    }
}

/// A text without the slashes it ends with (`trim_end_matches('/')`).
pub(crate) fn without_slashes(s: &str) -> (r: String)
    ensures
        r@ == strip_slashes(s@),
{
    let v = crate::text::chars_of(s);
    let mut n: usize = v.len();
    assert(s@.subrange(0, s@.len() as int) =~= s@);
    while n > 0 && v[n - 1] == '/'
        invariant
            n <= v@.len(),
            v@ == s@,
            strip_slashes(s@) == strip_slashes(s@.subrange(0, n as int)),
        decreases n,
    {
        assert(s@.subrange(0, n as int).drop_last() =~= s@.subrange(0, n - 1));
        n = n - 1;
    }
    crate::text::substring(s, 0, n)
}

/// Whether a name of the entry, in lower case, is the query; or, when
/// `loose`, holds it or is held by it.
fn hits(e: &Entry, q: &str, loose: bool) -> (r: bool)
    ensures
        r == if loose { loose_hit(e@, q@) } else { exact_hit(e@, q@) },
{
    let mut i: usize = 0;
    while i < e.names.len()
        invariant
            i <= e.names@.len(),
            forall|k: int| 0 <= k < i ==> {
                let n = lowercase(#[trigger] views(e.names@)[k]);
                if loose {
                    !(find_spec(q@, n) is Some || find_spec(n, q@) is Some)
                } else {
                    n != q@
                }
            },
        decreases e.names@.len() - i,
    {
        let n = crate::text::to_lowercase(e.names[i].as_str());
        let hit = if loose {
            crate::text::contains(q, n.as_str()) || crate::text::contains(n.as_str(), q)
        } else {
            crate::yaml::same(n.as_str(), q)
        };
        if hit {
            proof {
                let name = views(e.names@)[i as int];
                assert(e@.names.contains(name));
            }
            return true;
        }
        i = i + 1;
    }
    proof {
        assert forall|n: Seq<char>| e@.names.contains(n) implies !(if loose {
            find_spec(q@, lowercase(n)) is Some || find_spec(lowercase(n), q@) is Some
        } else {
            lowercase(n) == q@
        }) by {
            let k = choose|k: int| 0 <= k < views(e.names@).len() && views(e.names@)[k] == n;
        }
    }
    false
}

/// A copy of an entry.
fn copy_entry(e: &Entry) -> (r: Entry)
    ensures
        r@ == e@,
{
    let mut names: Vec<String> = Vec::new();
    let mut i: usize = 0;
    while i < e.names.len()
        invariant
            i <= e.names@.len(),
            views(names@) =~= views(e.names@).take(i as int),
        decreases e.names@.len() - i,
    {
        names.push(e.names[i].clone());
        proof {
            assert(views(e.names@).take(i + 1) =~= views(e.names@).take(i as int).push(e.names@[i as int]@));
        }
        i = i + 1;
    }
    assert(views(e.names@).take(i as int) =~= views(e.names@));
    Entry { kind: e.kind.clone(), path: e.path.clone(), names }
}

/// The entries that match, exactly or loosely.
fn pick(entries: &Vec<Entry>, q: &str, loose: bool) -> (r: Vec<Entry>)
    ensures
        entries_view(r@) == if loose { loose_spec(entries_view(entries@), q@) } else { exact_spec(entries_view(entries@), q@) },
{
    let ghost all = entries_view(entries@);
    let ghost target = if loose { loose_spec(all, q@) } else { exact_spec(all, q@) };
    let mut out: Vec<Entry> = Vec::new();
    let mut i: usize = 0;
    assert(all.subrange(0, all.len() as int) =~= all);
    assert(entries_view(out@) =~= Seq::<EntryV>::empty());
    while i < entries.len()
        invariant
            i <= entries@.len(),
            all == entries_view(entries@),
            target == (if loose { loose_spec(all, q@) } else { exact_spec(all, q@) }),
            target == entries_view(out@) + (if loose {
                loose_spec(all.subrange(i as int, all.len() as int), q@)
            } else {
                exact_spec(all.subrange(i as int, all.len() as int), q@)
            }),
        decreases entries@.len() - i,
    {
        let ghost here = all.subrange(i as int, all.len() as int);
        let ghost before = out@;
        proof {
            assert(here.drop_first() =~= all.subrange(i + 1, all.len() as int));
            assert(here[0] == entries@[i as int]@);
        }
        if hits(&entries[i], q, loose) {
            let e = copy_entry(&entries[i]);
            out.push(e);
            proof {
                assert(entries_view(out@) =~= entries_view(before).push(e@));
                if loose {
                    assert(entries_view(before) + (seq![here[0]] + loose_spec(here.drop_first(), q@)) =~= entries_view(out@) + loose_spec(here.drop_first(), q@));
                } else {
                    assert(entries_view(before) + (seq![here[0]] + exact_spec(here.drop_first(), q@)) =~= entries_view(out@) + exact_spec(here.drop_first(), q@));
                }
            }
        }
        i = i + 1;
    }
    assert(all.subrange(i as int, all.len() as int) =~= Seq::<EntryV>::empty());
    assert(entries_view(out@) + Seq::<EntryV>::empty() =~= entries_view(out@));
    out
}

/// The entries a query finds: the exact matches, else the loose ones.
pub fn matches(entries: &Vec<Entry>, query: &str) -> (r: Vec<Entry>)
    ensures
        entries_view(r@) == matches_spec(entries_view(entries@), query@),
        forall|i: int| 0 <= i < r@.len() ==> {
            let e = #[trigger] r@[i]@;
            &&& entries_view(entries@).contains(e)
            &&& if no_exact_name(entries_view(entries@), query_spec(query@)) {
                exists|j: int| 0 <= j < e.names.len() && related(#[trigger] e.names[j], query_spec(query@))
            } else {
                exists|j: int| 0 <= j < e.names.len() && lowercase(#[trigger] e.names[j]) == query_spec(query@)
            }
        },
        forall|k: int, j: int|
            #![trigger entries@[k]@.names[j]]
            no_exact_name(entries_view(entries@), query_spec(query@)) && 0 <= k < entries@.len() && 0 <= j
                < entries@[k]@.names.len() && related(entries@[k]@.names[j], query_spec(query@)) ==> exists|i: int|
                0 <= i < r@.len() && #[trigger] r@[i]@ == entries@[k]@,
{
    proof {
        let es = entries_view(entries@);
        lemma_search_sound(es, query@);
        assert forall|k: int, j: int|
            #![trigger entries@[k]@.names[j]]
            no_exact_name(es, query_spec(query@)) && 0 <= k < entries@.len() && 0 <= j
                < entries@[k]@.names.len() && related(entries@[k]@.names[j], query_spec(query@)) implies
            matches_spec(es, query@).contains(entries@[k]@) by {
            assert(es[k] == entries@[k]@);
            lemma_search_finds_loosely(es, query@, k, j);
        }
    }
    let trimmed = crate::text::trim(query);
    let bare = without_slashes(trimmed.as_str());
    let q = crate::text::to_lowercase(bare.as_str());
    let exact = pick(entries, q.as_str(), false);
    let r = if exact.len() > 0 {
        exact
    } else {
        pick(entries, q.as_str(), true)
    };
    proof {
        let es = entries_view(entries@);
        let m = matches_spec(es, query@);
        assert forall|i: int| 0 <= i < r@.len() implies #[trigger] r@[i]@ == m[i] by {
            assert(entries_view(r@)[i] == r@[i]@);
        }
        assert forall|k: int, j: int|
            #![trigger entries@[k]@.names[j]]
            no_exact_name(es, query_spec(query@)) && 0 <= k < entries@.len() && 0 <= j
                < entries@[k]@.names.len() && related(entries@[k]@.names[j], query_spec(query@)) implies exists|i: int|
                0 <= i < r@.len() && #[trigger] r@[i]@ == entries@[k]@ by {
            let i = choose|i: int| 0 <= i < m.len() && m[i] == entries@[k]@;
            assert(r@[i]@ == m[i]);
        }
    }
    r
}

/// The line an entry found is shown by: `[kind] path`.
pub fn entry_line(kind: &str, rel: &str) -> (r: String)
    ensures
        r@ == "["@ + kind@ + "] "@ + rel@,
{
    let mut r = crate::text::cat("[", kind);
    r.append("] ");
    r.append(rel);
    r
}

}
