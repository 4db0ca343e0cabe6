//! Texts and paths as they are shown in messages.
use vstd::prelude::*;

verus! {

/// What the `Debug` format of std gives for a text.
pub uninterp spec fn debug_text(s: Seq<char>) -> Seq<char>;

/// What the `Debug` format of std gives for a path.
pub uninterp spec fn debug_path(path: Seq<char>) -> Seq<char>;

/// Calls the `Debug` format of `str` in std, which puts the text in quotes and escapes what
/// cannot be shown. The contract says only that the result depends on the text alone; which
/// characters are escaped, and how, is left unsaid.
#[verifier::external_body]
pub(crate) fn show_text(s: &str) -> (r: String)
    ensures
        r@ == debug_text(s@),
{
    format!("{:?}", s)
}

/// Calls the `Debug` format of `std::path::Path`, which puts the path in quotes and escapes
/// what cannot be shown. The contract says only that the result depends on the text of the path
/// alone; which characters are escaped, and how, is left unsaid.
#[verifier::external_body]
pub(crate) fn show_path(path: &str) -> (r: String)
    ensures
        r@ == debug_path(path@),
{
    format!("{:?}", std::path::Path::new(path))
}

/// The text for a torrent that lies outside of `path_prefix`.
pub open spec fn outside_prefix(path: Seq<char>, prefix: Seq<char>) -> Seq<char> {
    "Torrent path "@ + path + " does not start with configured path_prefix "@ + prefix
}

/// The text for a torrent that lies outside of `path_prefix`, given the two as they are shown.
pub fn outside_prefix_text(path: &str, prefix: &str) -> (r: String)
    ensures
        r@ == outside_prefix(path@, prefix@),
{
    "Torrent path ".to_owned().concat(path).concat(
        " does not start with configured path_prefix ",
    ).concat(prefix)
}

} // verus!
