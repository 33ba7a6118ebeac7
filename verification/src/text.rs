//! Text primitives over the characters of a string: trimming, searching,
//! splitting into lines, joining and decimal rendering. Every function here
//! states its result over `Seq<char>`, the view Verus gives `String` and `str`.
use vstd::prelude::*;

verus! {

/// The characters that carry the Unicode `White_Space` property.
pub open spec fn is_ws(c: char) -> bool {
    ||| ('\u{9}' <= c && c <= '\u{d}')
    ||| c == ' '
    ||| c == '\u{85}'
    ||| c == '\u{a0}'
    ||| c == '\u{1680}'
    ||| ('\u{2000}' <= c && c <= '\u{200a}')
    ||| c == '\u{2028}'
    ||| c == '\u{2029}'
    ||| c == '\u{202f}'
    ||| c == '\u{205f}'
    ||| c == '\u{3000}'
}

/// `s` with its leading white space removed.
pub open spec fn trim_start_spec(s: Seq<char>) -> Seq<char>
    decreases s.len(),
{
    if s.len() > 0 && is_ws(s[0]) {
        trim_start_spec(s.drop_first())
    } else {
        s
    }
}

/// `s` with its trailing white space removed.
pub open spec fn trim_end_spec(s: Seq<char>) -> Seq<char>
    decreases s.len(),
{
    if s.len() > 0 && is_ws(s.last()) {
        trim_end_spec(s.drop_last())
    } else {
        s
    }
}

/// `s` with white space removed at both ends.
pub open spec fn trim_spec(s: Seq<char>) -> Seq<char> {
    trim_end_spec(trim_start_spec(s))
}

/// `p` stands at the very start of `s`.
pub open spec fn has_prefix(s: Seq<char>, p: Seq<char>) -> bool {
    p.len() <= s.len() && s.subrange(0, p.len() as int) == p
}

/// `p` stands at the very end of `s`.
pub open spec fn has_suffix(s: Seq<char>, p: Seq<char>) -> bool {
    p.len() <= s.len() && s.subrange(s.len() - p.len(), s.len() as int) == p
}

/// `p` occurs in `s` starting at index `i`.
pub open spec fn occurs_at(s: Seq<char>, p: Seq<char>, i: int) -> bool {
    0 <= i && i + p.len() <= s.len() && s.subrange(i, i + p.len()) == p
}

/// The first index at or after `i` where `p` occurs in `s`.
pub open spec fn find_from(s: Seq<char>, p: Seq<char>, i: int) -> Option<int>
    decreases s.len() + 1 - i,
{
    if i < 0 || i + p.len() > s.len() {
        None
    } else if occurs_at(s, p, i) {
        Some(i)
    } else {
        find_from(s, p, i + 1)
    }
}

/// The first index where `p` occurs in `s`.
pub open spec fn find_spec(s: Seq<char>, p: Seq<char>) -> Option<int> {
    find_from(s, p, 0)
}

/// A line without the carriage return that may close it.
pub open spec fn strip_cr(s: Seq<char>) -> Seq<char> {
    if s.len() > 0 && s.last() == '\r' {
        s.drop_last()
    } else {
        s
    }
}

/// The lines of `s`: pieces between line feeds, a final empty piece dropped.
pub open spec fn lines_spec(s: Seq<char>) -> Seq<Seq<char>>
    decreases s.len(),
{
    if s.len() == 0 {
        Seq::empty()
    } else {
        match find_spec(s, seq!['\n']) {
            Some(i) => if 0 <= i < s.len() {
                seq![strip_cr(s.subrange(0, i))] + lines_spec(s.subrange(i + 1, s.len() as int))
            } else {
                Seq::empty()
            },
            None => seq![strip_cr(s)],
        }
    }
}

/// The pieces of `s` between occurrences of `sep` (always at least one).
pub open spec fn split_spec(s: Seq<char>, sep: char) -> Seq<Seq<char>>
    decreases s.len(),
{
    match find_spec(s, seq![sep]) {
        Some(i) => if 0 <= i < s.len() {
            seq![s.subrange(0, i)] + split_spec(s.subrange(i + 1, s.len() as int), sep)
        } else {
            Seq::empty()
        },
        None => seq![s],
    }
}

/// `parts` joined with `sep` between neighbours.
pub open spec fn join_spec(parts: Seq<Seq<char>>, sep: Seq<char>) -> Seq<char>
    decreases parts.len(),
{
    if parts.len() == 0 {
        Seq::empty()
    } else if parts.len() == 1 {
        parts[0]
    } else {
        join_spec(parts.drop_last(), sep) + sep + parts.last()
    }
}

/// The decimal digit for `d`.
pub open spec fn digit_char(d: nat) -> char {
    if d == 0 { '0' } else if d == 1 { '1' } else if d == 2 { '2' } else if d == 3 { '3' }
    else if d == 4 { '4' } else if d == 5 { '5' } else if d == 6 { '6' } else if d == 7 { '7' }
    else if d == 8 { '8' } else { '9' }
}

/// The decimal rendering of `n`, without leading zeros.
pub open spec fn decimal_spec(n: nat) -> Seq<char>
    decreases n,
{
    if n < 10 {
        seq![digit_char(n)]
    } else {
        decimal_spec(n / 10).push(digit_char(n % 10))
    }
}

/// The view of an optional string.
pub open spec fn opt_view(o: Option<String>) -> Option<Seq<char>> {
    match o {
        Some(s) => Some(s@),
        None => None,
    }
}

/// Whether `a` sorts before `b` as `str`'s `<` sorts them: by the first
/// character that differs, by code point, and a proper prefix first.
pub open spec fn text_less(a: Seq<char>, b: Seq<char>) -> bool
    decreases a.len(),
{
    if b.len() == 0 {
        false
    } else if a.len() == 0 {
        true
    } else if a[0] != b[0] {
        a[0] < b[0]
    } else {
        text_less(a.drop_first(), b.drop_first())
    }
}

/// No text sorts before itself.
pub proof fn lemma_less_irreflexive(a: Seq<char>)
    ensures
        !text_less(a, a),
    decreases a.len(),
{
    if a.len() > 0 {
        lemma_less_irreflexive(a.drop_first());
    }
}

/// Sorting is transitive.
pub proof fn lemma_less_transitive(a: Seq<char>, b: Seq<char>, c: Seq<char>)
    requires
        text_less(a, b),
        text_less(b, c),
    ensures
        text_less(a, c),
    decreases a.len(),
{
    if a.len() > 0 && b.len() > 0 && c.len() > 0 && a[0] == b[0] && b[0] == c[0] {
        lemma_less_transitive(a.drop_first(), b.drop_first(), c.drop_first());
    }
}

/// Of two different texts one sorts before the other.
pub proof fn lemma_less_total(a: Seq<char>, b: Seq<char>)
    requires
        a != b,
    ensures
        text_less(a, b) || text_less(b, a),
    decreases a.len(),
{
    if a.len() > 0 && b.len() > 0 && a[0] == b[0] {
        if a.drop_first() == b.drop_first() {
            assert(a =~= seq![a[0]] + a.drop_first());
            assert(b =~= seq![b[0]] + b.drop_first());
        }
        lemma_less_total(a.drop_first(), b.drop_first());
    } else if a.len() == 0 && b.len() == 0 {
        assert(a =~= b);
    }
}

/// `p` occurs nowhere in `s`.
pub open spec fn free_of(s: Seq<char>, p: Seq<char>) -> bool {
    forall|i: int| !occurs_at(s, p, i)
}

/// Searching from `j` finds an occurrence at or after `j` when there is one.
proof fn lemma_find_from_some(s: Seq<char>, p: Seq<char>, j: int, i: int)
    requires
        0 <= j <= i,
        occurs_at(s, p, i),
    ensures
        find_from(s, p, j) is Some,
    decreases i - j,
{
    if j < i && !occurs_at(s, p, j) {
        lemma_find_from_some(s, p, j + 1, i);
    }
}

/// When `p` is not found in `s`, it occurs nowhere in it.
pub proof fn lemma_not_found_free(s: Seq<char>, p: Seq<char>)
    requires
        find_spec(s, p) is None,
    ensures
        free_of(s, p),
{
    assert forall|i: int| !occurs_at(s, p, i) by {
        if occurs_at(s, p, i) {
            lemma_find_from_some(s, p, 0, i);
        }
    }
}

/// When `p` occurs nowhere in `s`, it is not found.
pub proof fn lemma_free_not_found(s: Seq<char>, p: Seq<char>, j: int)
    requires
        free_of(s, p),
        0 <= j,
    ensures
        find_from(s, p, j) is None,
    decreases s.len() + 1 - j,
{
    if j + p.len() <= s.len() {
        assert(!occurs_at(s, p, j));
        lemma_free_not_found(s, p, j + 1);
    }
}

/// Searching from `j` finds `k` when `p` occurs at `k` and not between `j` and `k`.
proof fn lemma_find_from_exact(s: Seq<char>, p: Seq<char>, j: int, k: int)
    requires
        0 <= j <= k,
        occurs_at(s, p, k),
        forall|i: int| j <= i < k ==> !occurs_at(s, p, i),
    ensures
        find_from(s, p, j) == Some(k),
    decreases k - j,
{
    if j < k {
        assert(!occurs_at(s, p, j));
        lemma_find_from_exact(s, p, j + 1, k);
    }
}

/// `p` is found at `k` when it occurs there and nowhere before.
pub proof fn lemma_find_exact(s: Seq<char>, p: Seq<char>, k: int)
    requires
        0 <= k,
        occurs_at(s, p, k),
        forall|i: int| 0 <= i < k ==> !occurs_at(s, p, i),
    ensures
        find_spec(s, p) == Some(k),
{
    lemma_find_from_exact(s, p, 0, k);
}

/// Where `p` is found, it does not occur earlier.
proof fn lemma_found_first_from(s: Seq<char>, p: Seq<char>, j: int, k: int)
    requires
        0 <= j,
        find_from(s, p, j) == Some(k),
    ensures
        forall|i: int| j <= i < k ==> !occurs_at(s, p, i),
    decreases s.len() + 1 - j,
{
    if j + p.len() <= s.len() && !occurs_at(s, p, j) {
        lemma_found_first_from(s, p, j + 1, k);
    }
}

/// Where `p` is found, it does not occur earlier.
pub proof fn lemma_found_first(s: Seq<char>, p: Seq<char>, k: int)
    requires
        find_spec(s, p) == Some(k),
    ensures
        forall|i: int| 0 <= i < k ==> !occurs_at(s, p, i),
{
    lemma_found_first_from(s, p, 0, k);
}

/// An occurrence matches character by character.
pub proof fn lemma_occurs_chars(s: Seq<char>, p: Seq<char>, i: int, j: int)
    requires
        occurs_at(s, p, i),
        0 <= j < p.len(),
    ensures
        s[i + j] == p[j],
{
    assert(s.subrange(i, i + p.len())[j] == s[i + j]);
}

/// Joining texts free of `p` by a character `p` does not hold keeps it free.
pub proof fn lemma_free_join(a: Seq<char>, c: char, b: Seq<char>, p: Seq<char>)
    requires
        free_of(a, p),
        free_of(b, p),
        forall|j: int| 0 <= j < p.len() ==> p[j] != c,
    ensures
        free_of(a + seq![c] + b, p),
{
    let s = a + seq![c] + b;
    assert forall|i: int| !occurs_at(s, p, i) by {
        if occurs_at(s, p, i) {
            if i + p.len() <= a.len() {
                assert(a.subrange(i, i + p.len()) =~= s.subrange(i, i + p.len()));
                assert(occurs_at(a, p, i));
            } else if i > a.len() {
                let q = i - a.len() - 1;
                assert(b.subrange(q, q + p.len()) =~= s.subrange(i, i + p.len()));
                assert(occurs_at(b, p, q));
            } else {
                lemma_occurs_chars(s, p, i, a.len() - i);
                assert(s[a.len() as int] == c);
            }
        }
    }
}

/// Texts joined by a character `p` does not hold are free of `p` when each is.
pub proof fn lemma_free_join_all(parts: Seq<Seq<char>>, c: char, p: Seq<char>)
    requires
        forall|k: int| 0 <= k < parts.len() ==> free_of(#[trigger] parts[k], p),
        forall|j: int| 0 <= j < p.len() ==> p[j] != c,
        p.len() > 0,
    ensures
        free_of(join_spec(parts, seq![c]), p),
    decreases parts.len(),
{
    if parts.len() == 0 {
        assert forall|i: int| !occurs_at(join_spec(parts, seq![c]), p, i) by {}
    } else if parts.len() > 1 {
        lemma_free_join_all(parts.drop_last(), c, p);
        assert(free_of(parts.last(), p)) by {
            assert(parts.last() == parts[parts.len() - 1]);
        }
        lemma_free_join(join_spec(parts.drop_last(), seq![c]), c, parts.last(), p);
    } else {
        assert(free_of(parts[0], p));
    }
}

/// Trimming the end keeps a prefix.
pub proof fn lemma_trim_end_prefix(s: Seq<char>)
    ensures
        trim_end_spec(s).len() <= s.len(),
        trim_end_spec(s) =~= s.subrange(0, trim_end_spec(s).len() as int),
    decreases s.len(),
{
    if s.len() > 0 && is_ws(s.last()) {
        lemma_trim_end_prefix(s.drop_last());
    }
}

/// The views of a list of strings.
pub open spec fn views(v: Seq<String>) -> Seq<Seq<char>> {
    Seq::new(v.len(), |i: int| v[i]@)
}

/// The set of a sequence with one more item holds that item too.
pub proof fn lemma_push_to_set(s: Seq<Seq<char>>, x: Seq<char>)
    ensures
        s.push(x).to_set() == s.to_set().insert(x),
{
    assert forall|a: Seq<char>| #[trigger] s.push(x).contains(a) <==> s.contains(a) || a == x by {
        if s.contains(a) {
            let k = choose|k: int| 0 <= k < s.len() && s[k] == a;
            assert(s.push(x)[k] == a);
        }
        if a == x {
            assert(s.push(x)[s.len() as int] == a);
        }
        if s.push(x).contains(a) {
            let k = choose|k: int| 0 <= k < s.push(x).len() && s.push(x)[k] == a;
            if k < s.len() {
                assert(s[k] == a);
            }
        }
    }
    assert(s.push(x).to_set() =~= s.to_set().insert(x));
}

/// Pushing a string pushes its view.
pub proof fn lemma_views_push(v: Seq<String>, s: String)
    ensures
        views(v.push(s)) == views(v).push(s@),
{
    assert(views(v.push(s)) =~= views(v).push(s@));
}

/// Taking a prefix takes the prefix of the views.
pub proof fn lemma_views_take(v: Seq<String>, n: int)
    requires
        0 <= n <= v.len(),
    ensures
        views(v.take(n)) == views(v).take(n),
{
    assert(views(v.take(n)) =~= views(v).take(n));
}

/// Appends one character to a string (`String::push`).
#[verifier::external_body]
pub(crate) fn push_char(s: &mut String, c: char)
    ensures
        final(s)@ == old(s)@.push(c),
{
    s.push(c);
}

/// What `str::to_lowercase` gives for a text: the Unicode lowercase mapping.
pub uninterp spec fn lowercase(s: Seq<char>) -> Seq<char>;

/// Lower-cases a text by the Unicode rules (`str::to_lowercase`).
#[verifier::external_body]
pub(crate) fn to_lowercase(s: &str) -> (r: String)
    ensures
        r@ == lowercase(s@),
{
    s.to_lowercase()
}

/// What `char::is_alphanumeric` says of a character (Unicode Alphabetic or Numeric).
pub uninterp spec fn alphanumeric(c: char) -> bool;

/// Whether a character is Unicode alphanumeric (`char::is_alphanumeric`).
#[verifier::external_body]
pub(crate) fn is_alphanumeric(c: char) -> (r: bool)
    ensures
        r == alphanumeric(c),
{
    c.is_alphanumeric()
}

/// The characters of a string slice, in order.
pub fn chars_of(s: &str) -> (out: Vec<char>)
    ensures
        out@ == s@,
{
    let mut out: Vec<char> = Vec::new();
    for c in it: s.chars()
        invariant
            out@ == it.seq().take(it.index() as int),
    {
        out.push(c);
    }
    out
}

/// Whether `a` sorts before `b` (`a < b` on strings).
pub fn less(a: &str, b: &str) -> (r: bool)
    ensures
        r == text_less(a@, b@),
{
    let v = chars_of(a);
    let w = chars_of(b);
    let mut i: usize = 0;
    assert(a@.subrange(0, a@.len() as int) =~= a@);
    assert(b@.subrange(0, b@.len() as int) =~= b@);
    while i < v.len() && i < w.len()
        invariant
            i <= v@.len(),
            i <= w@.len(),
            v@ == a@,
            w@ == b@,
            text_less(a@, b@) == text_less(
                a@.subrange(i as int, a@.len() as int),
                b@.subrange(i as int, b@.len() as int),
            ),
        decreases v@.len() - i,
    {
        proof {
            assert(a@.subrange(i as int, a@.len() as int).drop_first() =~= a@.subrange(i + 1, a@.len() as int));
            assert(b@.subrange(i as int, b@.len() as int).drop_first() =~= b@.subrange(i + 1, b@.len() as int));
        }
        if v[i] != w[i] {
            return v[i] < w[i];
        }
        i = i + 1;
    }
    i < w.len()
}

/// A copy of the characters `from..to` of `s`.
pub fn substring(s: &str, from: usize, to: usize) -> (r: String)
    requires
        from <= to <= s@.len(),
    ensures
        r@ == s@.subrange(from as int, to as int),
{
    String::from_str(s.substring_char(from, to))
}

/// `a` followed by `b`.
pub fn cat(a: &str, b: &str) -> (r: String)
    ensures
        r@ == a@ + b@,
{
    let mut r = String::from_str(a);
    r.append(b);
    r
}

/// Whether `c` is white space.
pub fn is_white_space(c: char) -> (r: bool)
    ensures
        r == is_ws(c),
{
    ('\u{9}' <= c && c <= '\u{d}') || c == ' ' || c == '\u{85}' || c == '\u{a0}' || c == '\u{1680}'
        || ('\u{2000}' <= c && c <= '\u{200a}') || c == '\u{2028}' || c == '\u{2029}' || c
        == '\u{202f}' || c == '\u{205f}' || c == '\u{3000}'
}

proof fn lemma_trim_start_skip(s: Seq<char>, i: int)
    requires
        0 <= i < s.len(),
        is_ws(s[i]),
    ensures
        trim_start_spec(s.subrange(i, s.len() as int)) == trim_start_spec(
            s.subrange(i + 1, s.len() as int),
        ),
{
    assert(s.subrange(i, s.len() as int).drop_first() =~= s.subrange(i + 1, s.len() as int));
}

proof fn lemma_trim_end_skip(s: Seq<char>, j: int)
    requires
        0 < j <= s.len(),
        is_ws(s[j - 1]),
    ensures
        trim_end_spec(s.subrange(0, j)) == trim_end_spec(s.subrange(0, j - 1)),
{
    assert(s.subrange(0, j).drop_last() =~= s.subrange(0, j - 1));
}

/// Index of the first character of `s` that is not white space (or its length).
fn start_of_content(v: &Vec<char>) -> (i: usize)
    ensures
        i <= v@.len(),
        trim_start_spec(v@) == v@.subrange(i as int, v@.len() as int),
{
    let mut i: usize = 0;
    assert(v@.subrange(0, v@.len() as int) =~= v@);
    while i < v.len() && is_white_space(v[i])
        invariant
            i <= v@.len(),
            trim_start_spec(v@) == trim_start_spec(v@.subrange(i as int, v@.len() as int)),
        decreases v@.len() - i,
    {
        proof {
            lemma_trim_start_skip(v@, i as int);
        }
        i = i + 1;
    }
    assert(v@.subrange(0, v@.len() as int) =~= v@);
    i
}

/// Index just past the last character of `v[..upto]` that is not white space.
fn end_of_content(v: &Vec<char>, upto: usize) -> (j: usize)
    requires
        upto <= v@.len(),
    ensures
        j <= upto,
        trim_end_spec(v@.subrange(0, upto as int)) == v@.subrange(0, j as int),
{
    let mut j: usize = upto;
    while j > 0 && is_white_space(v[j - 1])
        invariant
            j <= upto <= v@.len(),
            trim_end_spec(v@.subrange(0, upto as int)) == trim_end_spec(v@.subrange(0, j as int)),
        decreases j,
    {
        proof {
            lemma_trim_end_skip(v@, j as int);
        }
        j = j - 1;
    }
    j
}

/// `s` without its leading white space (`str::trim_start`).
pub fn trim_start(s: &str) -> (r: String)
    ensures
        r@ == trim_start_spec(s@),
{
    let v = chars_of(s);
    let i = start_of_content(&v);
    substring(s, i, v.len())
}

/// `s` without white space at either end (`str::trim`).
pub fn trim(s: &str) -> (r: String)
    ensures
        r@ == trim_spec(s@),
{
    let v = chars_of(s);
    let i = start_of_content(&v);
    let n = v.len();
    // The trailing white space of the rest is that of the whole, measured from `i`.
    let ghost rest = v@.subrange(i as int, n as int);
    let j = end_of_content(&v, n);
    proof {
        assert(v@.subrange(0, n as int) =~= v@);
        lemma_trim_end_of_suffix(v@, i as int, j as int);
    }
    if j <= i {
        proof {
            lemma_trim_end_all_ws(rest);
        }
        String::new()
    } else {
        substring(s, i, j)
    }
}

proof fn lemma_trim_end_all_ws(s: Seq<char>)
    requires
        forall|k: int| 0 <= k < s.len() ==> is_ws(#[trigger] s[k]),
    ensures
        trim_end_spec(s) == Seq::<char>::empty(),
    decreases s.len(),
{
    if s.len() > 0 {
        lemma_trim_end_all_ws(s.drop_last());
    } else {
        assert(s =~= Seq::<char>::empty());
    }
}

/// Trimming the end of a suffix `s[i..]` agrees with trimming the end of `s`.
proof fn lemma_trim_end_of_suffix(s: Seq<char>, i: int, j: int)
    requires
        0 <= i <= s.len(),
        0 <= j <= s.len(),
        trim_end_spec(s) == s.subrange(0, j),
    ensures
        j > i ==> trim_end_spec(s.subrange(i, s.len() as int)) == s.subrange(i, j),
        j <= i ==> forall|k: int| 0 <= k < s.len() - i ==> is_ws(#[trigger] s.subrange(i, s.len() as int)[k]),
    decreases s.len(),
{
    lemma_trim_end_shape(s);
    let t = s.subrange(i, s.len() as int);
    if j > i {
        lemma_trim_end_is(t, j - i);
        assert(t.subrange(0, j - i) =~= s.subrange(i, j));
    } else {
        assert forall|k: int| 0 <= k < s.len() - i implies is_ws(#[trigger] t[k]) by {
            assert(t[k] == s[i + k]);
        }
    }
}

/// The shape of `trim_end_spec(s)`: a prefix whose tail is white space, ending in content.
proof fn lemma_trim_end_shape(s: Seq<char>)
    ensures
        trim_end_spec(s).len() <= s.len(),
        trim_end_spec(s) == s.subrange(0, trim_end_spec(s).len() as int),
        forall|k: int| trim_end_spec(s).len() <= k < s.len() ==> is_ws(#[trigger] s[k]),
        trim_end_spec(s).len() > 0 ==> !is_ws(s[trim_end_spec(s).len() - 1]),
    decreases s.len(),
{
    if s.len() > 0 && is_ws(s.last()) {
        lemma_trim_end_shape(s.drop_last());
        let t = trim_end_spec(s.drop_last());
        assert(s.drop_last().subrange(0, t.len() as int) =~= s.subrange(0, t.len() as int));
        assert forall|k: int| t.len() <= k < s.len() implies is_ws(#[trigger] s[k]) by {
            if k < s.len() - 1 {
                assert(s[k] == s.drop_last()[k]);
            }
        }
        if t.len() > 0 {
            assert(s[t.len() - 1] == s.drop_last()[t.len() - 1]);
        }
    } else {
        assert(s.subrange(0, s.len() as int) =~= s);
    }
}

/// A sequence whose tail from `m` is white space and whose `m - 1` is content
/// trims at the end to its first `m` characters.
proof fn lemma_trim_end_is(t: Seq<char>, m: int)
    requires
        0 < m <= t.len(),
        forall|k: int| m <= k < t.len() ==> is_ws(#[trigger] t[k]),
        !is_ws(t[m - 1]),
    ensures
        trim_end_spec(t) == t.subrange(0, m),
    decreases t.len(),
{
    if t.len() > m {
        assert(is_ws(t[t.len() - 1]));
        lemma_trim_end_is(t.drop_last(), m);
        assert(t.drop_last().subrange(0, m) =~= t.subrange(0, m));
    } else {
        assert(t.subrange(0, m) =~= t);
    }
}


/// `s` without white space at its end (`str::trim_end`).
pub fn trim_end(s: &str) -> (r: String)
    ensures
        r@ == trim_end_spec(s@),
{
    let v = chars_of(s);
    let n = v.len();
    let j = end_of_content(&v, n);
    proof {
        assert(v@.subrange(0, n as int) =~= v@);
    }
    substring(s, 0, j)
}

/// Whether `s` begins with `p` (`str::starts_with`).
pub fn starts_with(s: &str, p: &str) -> (r: bool)
    ensures
        r == has_prefix(s@, p@),
{
    let v = chars_of(s);
    let w = chars_of(p);
    if w.len() > v.len() {
        return false;
    }
    let mut i: usize = 0;
    while i < w.len()
        invariant
            w@.len() <= v@.len(),
            i <= w@.len(),
            v@ == s@,
            w@ == p@,
            forall|k: int| 0 <= k < i ==> v@[k] == w@[k],
        decreases w@.len() - i,
    {
        if v[i] != w[i] {
            assert(v@.subrange(0, w@.len() as int)[i as int] != w@[i as int]);
            return false;
        }
        i = i + 1;
    }
    assert(v@.subrange(0, w@.len() as int) =~= w@);
    true
}

/// Whether `p` occurs in `v` at index `i`.
fn matches_at(v: &Vec<char>, w: &Vec<char>, i: usize) -> (r: bool)
    ensures
        r == occurs_at(v@, w@, i as int),
{
    if i > v.len() || w.len() > v.len() - i {
        return false;
    }
    let n = v.len();
    let mut k: usize = 0;
    while k < w.len()
        invariant
            n == v@.len(),
            i + w@.len() <= v@.len(),
            k <= w@.len(),
            forall|m: int| 0 <= m < k ==> v@[i + m] == w@[m],
        decreases w@.len() - k,
    {
        if v[i + k] != w[k] {
            assert(v@.subrange(i as int, i + w@.len())[k as int] != w@[k as int]);
            return false;
        }
        k = k + 1;
    }
    assert(v@.subrange(i as int, i + w@.len()) =~= w@);
    true
}

/// Whether `s` ends with `p` (`str::ends_with`).
pub fn ends_with(s: &str, p: &str) -> (r: bool)
    ensures
        r == has_suffix(s@, p@),
{
    let v = chars_of(s);
    let w = chars_of(p);
    if w.len() > v.len() {
        return false;
    }
    matches_at(&v, &w, v.len() - w.len())
}

/// The first index of `w` in `v` at or after `from`.
fn find_in(v: &Vec<char>, w: &Vec<char>, from: usize) -> (r: Option<usize>)
    ensures
        match find_from(v@, w@, from as int) {
            Some(i) => r == Some(i as usize),
            None => r is None,
        },
{
    if w.len() == 0 {
        if from <= v.len() {
            assert(v@.subrange(from as int, from as int) =~= w@);
            return Some(from);
        }
        return None;
    }
    let mut i = from;
    while i <= v.len() && w.len() <= v.len() - i
        invariant
            find_from(v@, w@, from as int) == find_from(v@, w@, i as int),
            from <= i,
            w@.len() > 0,
        decreases v@.len() + 1 - i,
    {
        if matches_at(v, w, i) {
            return Some(i);
        }
        i = i + 1;
    }
    None
}

/// The first index where `p` occurs in `s` (`str::find`, counted in characters).
pub fn find(s: &str, p: &str) -> (r: Option<usize>)
    ensures
        match find_spec(s@, p@) {
            Some(i) => r == Some(i as usize),
            None => r is None,
        },
{
    let v = chars_of(s);
    let w = chars_of(p);
    find_in(&v, &w, 0)
}

/// Whether `p` occurs in `s` (`str::contains`).
pub fn contains(s: &str, p: &str) -> (r: bool)
    ensures
        r == (find_spec(s@, p@) is Some),
{
    find(s, p).is_some()
}

/// `s` without its prefix `p`, if it has that prefix (`str::strip_prefix`).
pub fn strip_prefix(s: &str, p: &str) -> (r: Option<String>)
    ensures
        r is Some <==> has_prefix(s@, p@),
        r is Some ==> r->0@ == s@.subrange(p@.len() as int, s@.len() as int),
{
    if starts_with(s, p) {
        let n = s.unicode_len();
        let m = p.unicode_len();
        Some(substring(s, m, n))
    } else {
        None
    }
}

/// The decimal rendering of `n`.
pub fn decimal(n: usize) -> (r: String)
    ensures
        r@ == decimal_spec(n as nat),
    decreases n,
{
    let d = n % 10;
    let c = if d == 0 { '0' } else if d == 1 { '1' } else if d == 2 { '2' } else if d == 3 { '3' }
        else if d == 4 { '4' } else if d == 5 { '5' } else if d == 6 { '6' } else if d == 7 { '7' }
        else if d == 8 { '8' } else { '9' };
    if n < 10 {
        let mut r = String::new();
        push_char(&mut r, c);
        assert(r@ =~= seq![digit_char(n as nat)]);
        r
    } else {
        let mut r = decimal(n / 10);
        push_char(&mut r, c);
        r
    }
}

/// `parts` joined with `sep` between neighbours (`[String]::join`).
pub fn join(parts: &Vec<String>, sep: &str) -> (r: String)
    ensures
        r@ == join_spec(views(parts@), sep@),
{
    let mut r = String::new();
    let mut i: usize = 0;
    while i < parts.len()
        invariant
            i <= parts@.len(),
            r@ == join_spec(views(parts@.take(i as int)), sep@),
        decreases parts@.len() - i,
    {
        proof {
            let a = views(parts@.take(i as int + 1));
            assert(a.drop_last() =~= views(parts@.take(i as int)));
            assert(a.last() == parts@[i as int]@);
            if i == 0 {
                assert(views(parts@.take(0)) =~= Seq::<Seq<char>>::empty());
            }
        }
        if i > 0 {
            r.append(sep);
        }
        r.append(parts[i].as_str());
        i = i + 1;
    }
    assert(parts@.take(parts@.len() as int) =~= parts@);
    r
}

/// The first `n` characters of `s` (`s.chars().take(n)`).
pub fn take_chars(s: &str, n: usize) -> (r: String)
    ensures
        r@ == s@.take(if n <= s@.len() { n as int } else { s@.len() as int }),
{
    let len = s.unicode_len();
    let m = if n <= len { n } else { len };
    substring(s, 0, m)
}


/// Searching from `start + k` in `s` is searching from `k` in `s[start..]`, shifted.
proof fn lemma_find_shift(s: Seq<char>, p: Seq<char>, start: int, k: int)
    requires
        0 <= start <= s.len(),
        0 <= k,
    ensures
        find_from(s, p, start + k) == match find_from(s.subrange(start, s.len() as int), p, k) {
            Some(i) => Some(i + start),
            None => None::<int>,
        },
    decreases s.len() + 1 - (start + k),
{
    let t = s.subrange(start, s.len() as int);
    if start + k + p.len() > s.len() {
    } else {
        assert(t.subrange(k, k + p.len()) =~= s.subrange(start + k, start + k + p.len()));
        if !occurs_at(s, p, start + k) {
            lemma_find_shift(s, p, start, k + 1);
        }
    }
}

/// A found index lies within the text.
pub proof fn lemma_find_bounds(s: Seq<char>, p: Seq<char>, k: int)
    ensures
        find_from(s, p, k) matches Some(i) ==> k <= i && i + p.len() <= s.len() && occurs_at(
            s,
            p,
            i,
        ),
    decreases s.len() + 1 - k,
{
    if k < 0 || k + p.len() > s.len() {
    } else if !occurs_at(s, p, k) {
        lemma_find_bounds(s, p, k + 1);
    }
}

/// `v[a..b]` without a closing carriage return.
fn piece_without_cr(s: &str, v: &Vec<char>, a: usize, b: usize) -> (r: String)
    requires
        v@ == s@,
        a <= b <= v@.len(),
    ensures
        r@ == strip_cr(s@.subrange(a as int, b as int)),
{
    if b > a && v[b - 1] == '\r' {
        assert(s@.subrange(a as int, b as int).drop_last() =~= s@.subrange(a as int, b - 1));
        substring(s, a, b - 1)
    } else {
        substring(s, a, b)
    }
}

/// The lines of `s` (`str::lines`).
pub fn lines(s: &str) -> (r: Vec<String>)
    ensures
        views(r@) == lines_spec(s@),
{
    let v = chars_of(s);
    let nl = vec!['\n'];
    let n = v.len();
    let mut out: Vec<String> = Vec::new();
    let mut start: usize = 0;
    assert(v@.subrange(0, n as int) =~= v@);
    while start < n
        invariant
            n == v@.len(),
            v@ == s@,
            nl@ == seq!['\n'],
            start <= n,
            lines_spec(s@) == views(out@) + lines_spec(s@.subrange(start as int, n as int)),
        decreases n - start,
    {
        let ghost rest = s@.subrange(start as int, n as int);
        proof {
            lemma_find_shift(s@, nl@, start as int, 0);
            lemma_find_bounds(s@, nl@, start as int);
        }
        let found = find_in(&v, &nl, start);
        let ghost old_out = out@;
        match found {
            Some(i) => {
                let line = piece_without_cr(s, &v, start, i);
                out.push(line);
                proof {
                    assert(rest.subrange(0, i - start) =~= s@.subrange(start as int, i as int));
                    assert(rest.subrange(i - start + 1, rest.len() as int) =~= s@.subrange(
                        i + 1,
                        n as int,
                    ));
                    assert(views(out@) =~= views(old_out).push(line@));
                }
                start = i + 1;
            },
            None => {
                let line = piece_without_cr(s, &v, start, n);
                out.push(line);
                proof {
                    assert(views(out@) =~= views(old_out).push(line@));
                    assert(s@.subrange(n as int, n as int) =~= Seq::<char>::empty());
                }
                start = n;
            },
        }
    }
    assert(s@.subrange(n as int, n as int) =~= Seq::<char>::empty());
    assert(views(out@) + Seq::<Seq<char>>::empty() =~= views(out@));
    out
}

/// The pieces of `s` between occurrences of `sep` (`str::split`).
pub fn split(s: &str, sep: char) -> (r: Vec<String>)
    ensures
        views(r@) == split_spec(s@, sep),
{
    let v = chars_of(s);
    let w = vec![sep];
    let n = v.len();
    let mut out: Vec<String> = Vec::new();
    let mut start: usize = 0;
    assert(v@.subrange(0, n as int) =~= v@);
    loop
        invariant
            n == v@.len(),
            v@ == s@,
            w@ == seq![sep],
            start <= n,
            split_spec(s@, sep) == views(out@) + split_spec(s@.subrange(start as int, n as int), sep),
        decreases n - start,
    {
        let ghost rest = s@.subrange(start as int, n as int);
        proof {
            lemma_find_shift(s@, w@, start as int, 0);
            lemma_find_bounds(s@, w@, start as int);
        }
        let found = find_in(&v, &w, start);
        let ghost old_out = out@;
        match found {
            Some(i) => {
                let piece = substring(s, start, i);
                out.push(piece);
                proof {
                    assert(rest.subrange(0, i - start) =~= s@.subrange(start as int, i as int));
                    assert(rest.subrange(i - start + 1, rest.len() as int) =~= s@.subrange(
                        i + 1,
                        n as int,
                    ));
                    assert(views(out@) =~= views(old_out).push(piece@));
                }
                start = i + 1;
            },
            None => {
                let piece = substring(s, start, n);
                out.push(piece);
                proof {
                    assert(views(out@) =~= views(old_out).push(piece@));
                }
                return out;
            },
        }
    }
}

}
