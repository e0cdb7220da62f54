//! The byte-pair-encoding codec behind the token counter.
//!
//! The codec itself comes from the `tiktoken-rs` crate and is opaque here:
//! every `Codec` value holds the `cl100k_base` table, built once by
//! [`build_cl100k`], so what `encode` and `decode` return is a function of
//! the text alone.  Those results are named by the uninterpreted functions
//! [`cl100k_tokens`] and [`cl100k_text`], and everything the library proves
//! about counting and truncation is stated over those names.

use vstd::prelude::*;

verus! {

#[verifier::external_type_specification]
#[verifier::external_body]
pub struct ExCoreBPE(tiktoken_rs::CoreBPE);

/// The token ids that the `cl100k_base` table assigns to a text.
pub uninterp spec fn cl100k_tokens(text: Seq<char>) -> Seq<u32>;

/// The text that the `cl100k_base` table decodes a token sequence to,
/// when those tokens decode to well-formed text at all.
pub uninterp spec fn cl100k_text(tokens: Seq<u32>) -> Seq<char>;

/// Whether the `cl100k_base` table decodes a token sequence at all: the
/// ids are known to the table and their bytes form well-formed text.
pub uninterp spec fn cl100k_decodes(tokens: Seq<u32>) -> bool;

/// One byte-pair-encoding codec.  The only constructor is [`build_cl100k`],
/// so every value of this type carries the `cl100k_base` table.
pub struct Codec {
    inner: tiktoken_rs::CoreBPE,
}

/// Relies on `tiktoken_rs::cl100k_base`: builds the `cl100k_base` table
/// from the asset bundled into the crate.  Its only failure path is a
/// parse error on that fixed, compiled-in data, so the build is a
/// deterministic function of nothing and always succeeds.
#[verifier::external_body]
pub(crate) fn build_cl100k() -> (r: Option<Codec>)
    ensures
        r is Some,
{
    tiktoken_rs::cl100k_base().ok().map(|bpe| Codec { inner: bpe })
}

/// Relies on `tiktoken_rs::CoreBPE`'s `Clone`: the copy holds the same
/// encoding table, so it encodes and decodes exactly as the original does.
#[verifier::external_body]
pub(crate) fn clone_codec(codec: &Codec) -> Codec {
    Codec { inner: codec.inner.clone() }
}

/// Relies on `tiktoken_rs::CoreBPE::encode_ordinary`: encodes the whole
/// text through the table, treating special-token-looking substrings as
/// ordinary text.  The result depends on the text alone (every `Codec`
/// holds the `cl100k_base` table).  An empty text yields no tokens, and a
/// non-empty text yields at least one: the splitting pattern covers every
/// character, and each matched piece encodes to one or more tokens.
#[verifier::external_body]
pub(crate) fn bpe_encode(codec: &Codec, text: &str) -> (tokens: Vec<u32>)
    ensures
        tokens@ == cl100k_tokens(text@),
        text@.len() == 0 ==> tokens@.len() == 0,
        text@.len() > 0 ==> tokens@.len() > 0,
{
    codec.inner.encode_ordinary(text)
}

/// Relies on `tiktoken_rs::CoreBPE::decode`: concatenates the byte runs of
/// the given tokens and validates them as text, failing when the bytes are
/// not well-formed or a token id is unknown to the table.  Success is a
/// function of the tokens alone, named `cl100k_decodes`; an empty token
/// sequence decodes to the empty text and never fails.
#[verifier::external_body]
pub(crate) fn bpe_decode(codec: &Codec, tokens: &[u32]) -> (r: Result<String, String>)
    ensures
        (r is Ok) == cl100k_decodes(tokens@),
        r matches Ok(s) ==> s@ == cl100k_text(tokens@) && (tokens@.len() == 0 ==> s@.len() == 0),
        tokens@.len() == 0 ==> r is Ok,
{
    match codec.inner.decode(tokens) {
        Ok(text) => Ok(text),
        Err(e) => Err(format!("{}", e)),
    }
}

/// The first `n` entries of a token vector, the slice that a token budget
/// keeps.
pub(crate) fn token_prefix(tokens: &Vec<u32>, n: usize) -> (r: Vec<u32>)
    requires
        n <= tokens@.len(),
    ensures
        r@ == tokens@.take(n as int),
{
    let mut r: Vec<u32> = Vec::new();
    let mut i: usize = 0;
    while i < n
        invariant
            i <= n <= tokens@.len(),
            r@ == tokens@.take(i as int),
        decreases n - i,
    {
        r.push(tokens[i]);
        i = i + 1;
        assert(r@ =~= tokens@.take(i as int));
    }
    r
}

} // verus!
