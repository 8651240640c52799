//! Human-readable rendering of byte paths, for diagnostics and listings.

use vstd::prelude::*;

use crate::paths::{spec_strip_prefix, strip_prefix};

verus! {

/// The text that UTF-8 decoding with replacement gives for a byte sequence.
pub uninterp spec fn utf8_display(bytes: Seq<u8>) -> Seq<char>;

/// Relies on String::from_utf8_lossy: decodes the bytes as UTF-8, putting
/// the replacement character where they are not valid UTF-8; the result is a
/// function of the bytes alone.
#[verifier::external_body]
pub fn display_path(path: &Vec<u8>) -> (r: String)
    ensures
        r@ == utf8_display(path@),
{
    String::from_utf8_lossy(path).into_owned()
}

/// Renders `path` relative to the directory `root` where it lies under it,
/// and whole where it does not.
pub fn display_short_path(path: &Vec<u8>, root: &Vec<u8>) -> (r: String)
    ensures
        r@ == utf8_display(spec_strip_prefix(path@, root@)),
{
    let stripped = strip_prefix(path, root);
    display_path(&stripped)
}

} // verus!
