//! Credentials: UUIDs. Definitions written by people carry none; theirs are
//! derived from the workspace id and the name (UUID v5 under a fixed
//! namespace). Ledger entries written by the program carry fresh random ones.
use vstd::prelude::*;
use crate::text::{join_spec, trim_spec, views};

verus! {

/// The UUID v5 namespace, fixed so that every platform derives the same ids.
pub const NAMESPACE: u128 = 0x90cf5627_95f3_5e25_ba48_47d50dee6e09u128;

/// Whether `Uuid::parse_str` accepts a text.
pub uninterp spec fn uuid_parses(text: Seq<char>) -> bool;

/// ASCII, and of one of the lengths a UUID is written in.
pub open spec fn uuid_shaped(text: Seq<char>) -> bool {
    &&& forall|i: int| 0 <= i < text.len() ==> (#[trigger] text[i] as u32) < 128
    &&& (text.len() == 32 || text.len() == 36 || text.len() == 38 || text.len() == 45)
}

/// A character of a UUID's hyphenated text: a lowercase hex digit or `-`.
pub open spec fn hyphenated_char(c: char) -> bool {
    ('0' <= c && c <= '9') || ('a' <= c && c <= 'f') || c == '-'
}

/// The hyphenated text of `Uuid::new_v5(namespace, name)`, `name` taken as UTF-8.
pub uninterp spec fn uuid_v5_text(namespace: u128, name: Seq<char>) -> Seq<char>;

/// Whether `uuid::Uuid::parse_str` accepts `value` as it stands. Every form
/// it accepts (simple, hyphenated, braced, URN) is ASCII of 32, 36, 38 or 45
/// characters, so no other text parses.
#[verifier::external_body]
fn parses(value: &str) -> (r: bool)
    ensures
        r == uuid_parses(value@),
        r ==> uuid_shaped(value@),
{
    uuid::Uuid::parse_str(value).is_ok()
}

/// `uuid::Uuid::new_v5` under `namespace` on the UTF-8 bytes of `name`,
/// rendered by `Display`: the hyphenated form, 36 lowercase hex digits and
/// hyphens, which `Uuid::parse_str` reads back.
#[verifier::external_body]
fn v5(namespace: u128, name: &str) -> (r: String)
    ensures
        r@ == uuid_v5_text(namespace, name@),
        r@.len() == 36,
        forall|i: int| 0 <= i < r@.len() ==> hyphenated_char(#[trigger] r@[i]),
        uuid_parses(r@),
{
    uuid::Uuid::new_v5(&uuid::Uuid::from_u128(namespace), name.as_bytes()).to_string()
}

/// A fresh random id (`uuid::Uuid::new_v4`, hyphenated). Its value comes from
/// the system's randomness; what is promised is only that `Uuid::parse_str`
/// reads the hyphenated form back.
#[verifier::external_body]
pub fn new_id() -> (r: String)
    ensures
        uuid_parses(r@),
{
    uuid::Uuid::new_v4().to_string()
}

/// Whether a text, trimmed, is a UUID.
pub open spec fn is_id_spec(value: Seq<char>) -> bool {
    uuid_parses(trim_spec(value))
}

/// Whether a text, trimmed, is a UUID.
pub fn is_id(value: &str) -> (r: bool)
    ensures
        r == is_id_spec(value@),
        r ==> uuid_shaped(trim_spec(value@)),
{
    let trimmed = crate::text::trim(value);
    parses(trimmed.as_str())
}

/// The name an id is derived from: the parent's id, the kind, then the name,
/// joined by `/` (`<workspace id>/workflow/<name>`, `<workflow id>/step/<name>`).
pub open spec fn derive_name(kind: Seq<char>, parts: Seq<Seq<char>>) -> Seq<Seq<char>> {
    if parts.len() == 0 {
        seq![kind]
    } else {
        seq![parts[0], kind] + parts.drop_first()
    }
}

/// The id derived for `parts` of the given `kind`, under the fixed namespace.
pub open spec fn derive_spec(kind: Seq<char>, parts: Seq<Seq<char>>) -> Seq<char> {
    uuid_v5_text(NAMESPACE, join_spec(derive_name(kind, parts), "/"@))
}

/// A text whose first and last characters are not white space is its own trim.
proof fn lemma_trim_fixed(s: Seq<char>)
    requires
        s.len() > 0,
        !crate::text::is_ws(s[0]),
        !crate::text::is_ws(s.last()),
    ensures
        trim_spec(s) == s,
{
    assert(crate::text::trim_start_spec(s) == s);
}

/// Derives an id by name: the same fields always give the same id, and the
/// id reads as an id.
pub fn derive(kind: &str, parts: &Vec<String>) -> (r: String)
    ensures
        r@ == derive_spec(kind@, views(parts@)),
        is_id_spec(r@),
{
    let mut items: Vec<String> = Vec::new();
    let ghost want = derive_name(kind@, views(parts@));
    if parts.len() == 0 {
        items.push(String::from_str(kind));
        assert(views(items@) =~= want);
    } else {
        items.push(parts[0].clone());
        items.push(String::from_str(kind));
        assert(views(items@) =~= want.take(2));
        let mut i: usize = 1;
        while i < parts.len()
            invariant
                1 <= i <= parts@.len(),
                want == derive_name(kind@, views(parts@)),
                want.len() == parts@.len() + 1,
                views(items@) =~= want.take(i + 1),
            decreases parts@.len() - i,
        {
            let ghost before = items@;
            items.push(parts[i].clone());
            proof {
                crate::text::lemma_views_push(before, parts@[i as int]);
                assert(want[i + 1] == views(parts@)[i as int]);
                assert(want.take(i + 2) =~= want.take(i + 1).push(want[i + 1]));
            }
            i = i + 1;
        }
        assert(want.take(i + 1) =~= want);
    }
    let name = crate::text::join(&items, "/");
    let r = v5(NAMESPACE, name.as_str());
    proof {
        assert(!crate::text::is_ws(r@[0])) by {
            assert(hyphenated_char(r@[0]));
        }
        assert(!crate::text::is_ws(r@.last())) by {
            assert(hyphenated_char(r@[35]));
        }
        lemma_trim_fixed(r@);
    }
    r
}

}
