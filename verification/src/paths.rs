//! Paths as text: joining, absolute paths, and the few `std::path` queries
//! the library makes (component-wise prefix, file name, stem, extension,
//! parent). Paths are `/`-separated strings.
use vstd::prelude::*;
use crate::text::{has_prefix, has_suffix};

verus! {

/// A path that starts at the root.
pub open spec fn absolute(p: Seq<char>) -> bool {
    has_prefix(p, seq!['/'])
}

/// `a` joined with `b` (`Path::join` on Unix): an absolute `b` replaces `a`;
/// otherwise a separator goes between them unless `a` is empty or ends in one.
pub open spec fn path_join(a: Seq<char>, b: Seq<char>) -> Seq<char> {
    if absolute(b) {
        b
    } else if a.len() == 0 {
        b
    } else if has_suffix(a, seq!['/']) {
        a + b
    } else {
        a + seq!['/'] + b
    }
}

/// What `Path::strip_prefix` gives: the rest of `path` after the components
/// of `base`, or `None` when `base` is not a component-wise prefix.
pub uninterp spec fn path_strip(path: Seq<char>, base: Seq<char>) -> Option<Seq<char>>;

/// What `Path::starts_with` says: the components of `base` begin those of `path`.
pub uninterp spec fn path_has_base(path: Seq<char>, base: Seq<char>) -> bool;

/// The components of `path` (`Path::components`), each as its text: `/`
/// for the root, `.` for the current directory, `..` for the parent.
pub uninterp spec fn path_components(path: Seq<char>) -> Seq<Seq<char>>;

/// Whether one of the components of `path` is `..` (`Component::ParentDir`;
/// no other component reads `..`).
pub open spec fn path_has_parent_dir(path: Seq<char>) -> bool {
    path_components(path).contains(".."@)
}

/// What `Path::file_name` gives, as text.
pub uninterp spec fn path_file_name(path: Seq<char>) -> Option<Seq<char>>;

/// What `Path::file_stem` gives, as text.
pub uninterp spec fn path_file_stem(path: Seq<char>) -> Option<Seq<char>>;

/// What `Path::extension` gives, as text.
pub uninterp spec fn path_extension(path: Seq<char>) -> Option<Seq<char>>;

/// What `Path::parent` gives, as text.
pub uninterp spec fn path_parent(path: Seq<char>) -> Option<Seq<char>>;

/// Whether one of the components of `path` is `name`.
pub open spec fn path_has_component(path: Seq<char>, name: Seq<char>) -> bool {
    path_components(path).contains(name)
}

/// `Path::components`, each component's `as_os_str` rendered as text.
#[verifier::external_body]
fn components(path: &str) -> (r: Vec<String>)
    ensures
        crate::text::views(r@) == path_components(path@),
{
    std::path::Path::new(path).components().map(|part| part.as_os_str().to_string_lossy().to_string()).collect()
}

/// Whether one of the texts is `name`.
fn holds(parts: &Vec<String>, name: &str) -> (r: bool)
    ensures
        r == crate::text::views(parts@).contains(name@),
{
    let ghost v = crate::text::views(parts@);
    let mut i: usize = 0;
    while i < parts.len()
        invariant
            i <= parts@.len(),
            v == crate::text::views(parts@),
            forall|k: int| 0 <= k < i ==> v[k] != name@,
        decreases parts@.len() - i,
    {
        if crate::yaml::same(parts[i].as_str(), name) {
            assert(v[i as int] == name@);
            return true;
        }
        i = i + 1;
    }
    false
}

/// Whether one of the components of `path` is `name`.
pub(crate) fn has_component(path: &str, name: &str) -> (r: bool)
    ensures
        r == path_has_component(path@, name@),
{
    holds(&components(path), name)
}

/// `Path::strip_prefix`, the rest rendered as text.
#[verifier::external_body]
pub(crate) fn strip_base(path: &str, base: &str) -> (r: Option<String>)
    ensures
        match path_strip(path@, base@) {
            Some(rest) => r is Some && r->0@ == rest,
            None => r is None,
        },
{
    std::path::Path::new(path).strip_prefix(base).ok().map(|rest| rest.to_string_lossy().to_string())
}

/// `Path::starts_with`: component-wise prefix.
#[verifier::external_body]
pub(crate) fn has_base(path: &str, base: &str) -> (r: bool)
    ensures
        r == path_has_base(path@, base@),
{
    std::path::Path::new(path).starts_with(base)
}

/// Whether `Path::components` holds a `..`.
pub(crate) fn has_parent_dir(path: &str) -> (r: bool)
    ensures
        r == path_has_parent_dir(path@),
{
    holds(&components(path), "..")
}

/// `Path::file_name`, as text.
#[verifier::external_body]
pub(crate) fn file_name(path: &str) -> (r: Option<String>)
    ensures
        match path_file_name(path@) {
            Some(name) => r is Some && r->0@ == name,
            None => r is None,
        },
{
    std::path::Path::new(path).file_name().map(|name| name.to_string_lossy().to_string())
}

/// `Path::file_stem`, as text.
#[verifier::external_body]
pub(crate) fn file_stem(path: &str) -> (r: Option<String>)
    ensures
        match path_file_stem(path@) {
            Some(stem) => r is Some && r->0@ == stem,
            None => r is None,
        },
{
    std::path::Path::new(path).file_stem().map(|stem| stem.to_string_lossy().to_string())
}

/// `Path::extension`, as text.
#[verifier::external_body]
pub(crate) fn extension(path: &str) -> (r: Option<String>)
    ensures
        match path_extension(path@) {
            Some(ext) => r is Some && r->0@ == ext,
            None => r is None,
        },
{
    std::path::Path::new(path).extension().map(|ext| ext.to_string_lossy().to_string())
}

/// `Path::parent`, as text.
#[verifier::external_body]
pub(crate) fn parent(path: &str) -> (r: Option<String>)
    ensures
        match path_parent(path@) {
            Some(up) => r is Some && r->0@ == up,
            None => r is None,
        },
{
    std::path::Path::new(path).parent().map(|up| up.to_string_lossy().to_string())
}

/// Whether `p` is absolute (`Path::is_absolute` on Unix).
pub fn is_absolute(p: &str) -> (r: bool)
    ensures
        r == absolute(p@),
{
    proof {
        reveal_strlit("/");
        assert("/"@ =~= seq!['/']);
    }
    crate::text::starts_with(p, "/")
}

/// `a` joined with `b` (`Path::join`).
pub fn join(a: &str, b: &str) -> (r: String)
    ensures
        r@ == path_join(a@, b@),
{
    proof {
        reveal_strlit("/");
        assert("/"@ =~= seq!['/']);
    }
    if is_absolute(b) {
        String::from_str(b)
    } else if a.unicode_len() == 0 {
        String::from_str(b)
    } else if crate::text::ends_with(a, "/") {
        crate::text::cat(a, b)
    } else {
        let mut r = crate::text::cat(a, "/");
        r.append(b);
        r
    }
}

/// `path` relative to `base` when it lies under it, else `path` unchanged.
pub open spec fn relative_spec(path: Seq<char>, base: Seq<char>) -> Seq<char> {
    match path_strip(path, base) {
        Some(rest) => rest,
        None => path,
    }
}

/// `path` relative to `base` when it lies under it, else `path` unchanged.
pub fn relative(path: &str, base: &str) -> (r: String)
    ensures
        r@ == relative_spec(path@, base@),
{
    match strip_base(path, base) {
        Some(rest) => rest,
        None => String::from_str(path),
    }
}

}
