//! Everything this crate takes on trust: contracts for functions of the
//! standard library and of other crates, which Verus assumes and does not
//! prove. Nothing else in the crate is assumed.

use rand::Rng;
use vstd::prelude::*;
use vstd::utf8::{decode_utf8, valid_utf8};

verus! {

/// `String::push` appends the character to the end of the string.
pub assume_specification[ String::push ](s: &mut String, c: char)
    ensures
        final(s)@ == old(s)@.push(c),
;

/// Equality of string slices (`PartialEq::eq` on `str`) holds exactly when
/// the two slices hold the same characters.
pub assume_specification[ <str as PartialEq>::eq ](a: &str, b: &str) -> (same: bool)
    ensures
        same == (a@ == b@),
;

/// The text that `String::from_utf8_lossy` makes of `bytes`: their decoding
/// as UTF-8, with U+FFFD in place of each ill-formed sequence.
pub uninterp spec fn lossy_text(bytes: Seq<u8>) -> Seq<char>;

/// `String::from_utf8_lossy`, taken as an owned string. The result depends on
/// the bytes alone. On well-formed UTF-8 it is the plain decoding.
#[verifier::external_body]
pub(crate) fn decode_lossy(bytes: &[u8]) -> (text: String)
    ensures
        text@ == lossy_text(bytes@),
        valid_utf8(bytes@) ==> text@ == decode_utf8(bytes@),
{
    String::from_utf8_lossy(bytes).into_owned()
}

/// The first capture group of the leftmost match of the regular expression
/// `pattern` in `text`, as the `regex` crate finds it. There is none where
/// the pattern does not compile, where nothing in the text matches, and
/// where the match leaves the group out.
pub uninterp spec fn first_group(pattern: Seq<char>, text: Seq<char>) -> Option<Seq<char>>;

/// `Regex::new` on `pattern`, `Regex::captures` on `text`, and the text of
/// group 1 of what was captured. The result depends on the two texts alone.
#[verifier::external_body]
pub(crate) fn capture_first_group(pattern: &str, text: &str) -> (found: Option<String>)
    ensures
        match found {
            Some(group) => first_group(pattern@, text@) == Some(group@),
            None => first_group(pattern@, text@) is None,
        },
{
    let regex = regex::Regex::new(pattern).ok()?;
    let captures = regex.captures(text)?;
    captures.get(1).map(|group| group.as_str().to_owned())
}

/// The thread-local random number generator of the `rand` crate. Nothing
/// is known of its state.
#[verifier::external_type_specification]
#[verifier::external_body]
pub struct ExThreadRng(rand::rngs::ThreadRng);

/// `rand::rng` hands out the generator of the calling thread.
pub assume_specification[ rand::rng ]() -> rand::rngs::ThreadRng
;

/// `Rng::random_range` over `0..bound`: some number of that range,
/// whichever. The call panics on an empty range, so `bound` is positive.
#[verifier::external_body]
pub(crate) fn random_below(rng: &mut rand::rngs::ThreadRng, bound: usize) -> (index: usize)
    requires
        bound > 0,
    ensures
        index < bound,
{
    rng.random_range(0..bound)
}

} // verus!
