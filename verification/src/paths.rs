//! Path arithmetic, which is left to the rules of the platform that the
//! library is built for.
use vstd::prelude::*;

verus! {

/// Whether `path` is a relative path by the platform's rules.
pub uninterp spec fn relative(path: Seq<char>) -> bool;

/// The path that the platform's rules make of `base` extended by `part`.
pub uninterp spec fn joined(base: Seq<char>, part: Seq<char>) -> Seq<char>;

/// Calls `std::path::Path::is_relative` on the path that `path` spells. The
/// answer is taken on trust to depend on the text alone, by the rules of the
/// platform that the library is built for; `relative` stands for it, and
/// nothing else is claimed of it.
#[verifier::external_body]
pub(crate) fn is_relative(path: &str) -> (r: bool)
    ensures
        r == relative(path@),
{
    std::path::Path::new(path).is_relative()
}

/// Calls `std::path::Path::join` on the paths that the two texts spell, and
/// gives the result as text. It is taken on trust to depend on the two texts
/// alone, by the rules of the platform that the library is built for;
/// `joined` stands for it, and nothing else is claimed of it.
#[verifier::external_body]
pub(crate) fn join(base: &str, part: &str) -> (r: String)
    ensures
        r@ == joined(base@, part@),
{
    std::path::Path::new(base).join(part).to_string_lossy().into_owned()
}

} // verus!
