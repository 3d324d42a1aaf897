//! UTF-8 paths, held as `String`s: joining, comparing, and taking a prefix off.
use vstd::prelude::*;

verus! {

/// The path `camino::Utf8Path::join` makes of `base` and `rel`: `rel` appended to
/// `base` with the platform's separator, or `rel` alone when it is absolute.
pub uninterp spec fn utf8_join(base: Seq<char>, rel: Seq<char>) -> Seq<char>;

/// `camino::Utf8Path::join`. Claims only that the result is the named value.
#[verifier::external_body]
pub fn join(base: &str, rel: &str) -> (r: String)
    ensures
        r@ == utf8_join(base@, rel@),
{
    camino::Utf8Path::new(base).join(rel).into_string()
}

/// Whether `camino::Utf8Path`'s `==` holds between the two paths (it compares
/// them component by component).
pub uninterp spec fn utf8_paths_equal(a: Seq<char>, b: Seq<char>) -> bool;

/// `camino::Utf8Path`'s `==`. Claims: the result is the named comparison, and two
/// identical strings compare equal.
#[verifier::external_body]
pub fn paths_equal(a: &str, b: &str) -> (r: bool)
    ensures
        r == utf8_paths_equal(a@, b@),
        a@ == b@ ==> r,
{
    camino::Utf8Path::new(a) == camino::Utf8Path::new(b)
}

/// What `camino::Utf8Path::strip_prefix` leaves of `path` once `base` is taken off
/// (component by component); `None` when `base` is not a prefix of it.
pub uninterp spec fn utf8_strip_prefix(path: Seq<char>, base: Seq<char>) -> Option<Seq<char>>;

/// `camino::Utf8Path::strip_prefix`. Claims only that the result is the named value.
#[verifier::external_body]
pub fn strip_prefix(path: &str, base: &str) -> (r: Option<String>)
    ensures
        r.deep_view() == utf8_strip_prefix(path@, base@),
{
    camino::Utf8Path::new(path).strip_prefix(base).ok().map(|p| p.as_str().to_string())
}

} // verus!
