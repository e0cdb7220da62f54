use vstd::prelude::*;

pub mod chapters;
pub mod codec;
pub mod cost;
pub mod counter;
pub mod novels;
pub mod outline;
pub mod suggest;
pub mod text;
pub mod truncate;

verus! {

/// Returns the number of characters in a text, the unit the
/// project scanner counts chapter lengths in.
pub fn count_words(text: &str) -> (n: usize)
    ensures
        n == text@.len(),
{
    text.unicode_len()
}

} // verus!
