//! The tokenizer service: model-name resolution, the codec registry, and
//! exact token counting.
//!
//! The registry is built once and never changes afterwards.  Both supported
//! families share one `cl100k_base` table on purpose: the two model
//! generations are byte-identical for counting, so resolution only decides
//! which registry slot is consulted, and counting itself is always
//! `cl100k_tokens`.

use vstd::prelude::*;

use crate::codec::{bpe_encode, build_cl100k, cl100k_tokens, clone_codec, Codec};
use crate::text::{spec_is_prefix, str_has_prefix};

verus! {

/// The closed set of tokenizer families the registry can hold.
#[derive(PartialEq, Eq, Structural, Clone, Copy, Debug)]
pub enum Family {
    Gpt4,
    Gpt35Turbo,
}

/// An error the tokenizer service reports to its caller.
#[derive(Debug)]
pub enum TokenError {
    /// No codec is registered for the family the model name resolves to.
    /// Carries the model name as the caller supplied it.
    UnsupportedModel(String),
    /// Decoding a token prefix back to text failed; carries the decoder's
    /// description of the failure.
    DecodeFailed(String),
}

/// The family a model name resolves to: names starting with `gpt-4` or
/// `gpt-3.5` share the `gpt-4` registry slot, every other name falls back
/// to the `gpt-3.5-turbo` slot.
pub open spec fn spec_resolve_family(model: Seq<char>) -> Family {
    if spec_is_prefix("gpt-4"@, model) || spec_is_prefix("gpt-3.5"@, model) {
        Family::Gpt4
    } else {
        Family::Gpt35Turbo
    }
}

/// The codec registry and service handle: one optional codec per family,
/// populated once at construction.
pub struct TokenCounter {
    gpt4: Option<Codec>,
    gpt35_turbo: Option<Codec>,
}

impl TokenCounter {
    /// Whether a codec is registered for the given family.
    pub closed spec fn has_family(&self, family: Family) -> bool {
        match family {
            Family::Gpt4 => self.gpt4 is Some,
            Family::Gpt35Turbo => self.gpt35_turbo is Some,
        }
    }

    /// Builds the registry: the `cl100k_base` table is built once and
    /// registered under both families, so both resolve after construction.
    /// The registry type itself still tolerates an absent codec (the
    /// fields are optional and `empty` builds such a registry), which is
    /// what every counting call reports as `UnsupportedModel`.
    pub fn new() -> (r: TokenCounter)
        ensures
            r.has_family(Family::Gpt4),
            r.has_family(Family::Gpt35Turbo),
    {
        match build_cl100k() {
            Some(codec) => {
                let alias = clone_codec(&codec);
                TokenCounter { gpt4: Some(codec), gpt35_turbo: Some(alias) }
            },
            None => {
                proof {
                    assert(false);
                }
                TokenCounter { gpt4: None, gpt35_turbo: None }
            },
        }
    }

    /// A registry with no codec at all, as it stands after a failed table
    /// build: every counting call reports `UnsupportedModel`.
    pub fn empty() -> (r: TokenCounter)
        ensures
            forall|f: Family| !r.has_family(f),
    {
        TokenCounter { gpt4: None, gpt35_turbo: None }
    }

    /// Resolves the model name and looks the codec up.  Resolution itself
    /// always succeeds; only the registry slot may be empty.
    pub fn get_bpe_for_model(&self, model: &str) -> (r: Option<&Codec>)
        ensures
            (r is Some) == self.has_family(spec_resolve_family(model@)),
    {
        let gpt4_family = str_has_prefix(model, "gpt-4") || str_has_prefix(model, "gpt-3.5");
        if gpt4_family {
            self.gpt4.as_ref()
        } else {
            self.gpt35_turbo.as_ref()
        }
    }

    /// Counts the tokens the resolved codec assigns to `text`: exactly the
    /// length of `cl100k_tokens(text)`, zero for the empty text, positive
    /// for any other, and `UnsupportedModel` exactly when the resolved
    /// family has no codec.
    pub fn count_tokens(&self, text: &str, model: &str) -> (r: Result<usize, TokenError>)
        ensures
            (r is Ok) == self.has_family(spec_resolve_family(model@)),
            r matches Ok(n) ==> n == cl100k_tokens(text@).len(),
            text@.len() == 0 ==> (r matches Ok(n) ==> n == 0),
            text@.len() > 0 ==> (r matches Ok(n) ==> n > 0),
            r matches Err(e) ==> (e matches TokenError::UnsupportedModel(m) && m@ == model@),
    {
        match self.get_bpe_for_model(model) {
            Some(codec) => {
                let tokens = bpe_encode(codec, text);
                Ok(tokens.len())
            },
            None => Err(TokenError::UnsupportedModel(model.to_owned())),
        }
    }
}

/// Counts the tokens of one text under one model; the service entry point
/// for a single exact count.
pub fn count_tokens_exact(counter: &TokenCounter, text: &str, model: &str) -> (r: Result<
    usize,
    TokenError,
>)
    ensures
        (r is Ok) == counter.has_family(spec_resolve_family(model@)),
        r matches Ok(n) ==> n == cl100k_tokens(text@).len(),
        r matches Err(e) ==> (e matches TokenError::UnsupportedModel(m) && m@ == model@),
{
    counter.count_tokens(text, model)
}

/// Counts every text of a batch under one model, in order.  The whole
/// batch fails on the first unsupported model; an empty batch asks nothing
/// of the registry and yields an empty list.
pub fn count_tokens_batch(counter: &TokenCounter, texts: &Vec<String>, model: &str) -> (r: Result<
    Vec<usize>,
    TokenError,
>)
    ensures
        (r is Ok) == (texts@.len() == 0 || counter.has_family(spec_resolve_family(model@))),
        r matches Ok(counts) ==> counts@.len() == texts@.len() && (forall|i: int|
            0 <= i < texts@.len() ==> counts@[i] == cl100k_tokens(texts@[i]@).len()),
        r matches Err(e) ==> (e matches TokenError::UnsupportedModel(m) && m@ == model@),
{
    let mut counts: Vec<usize> = Vec::new();
    let n = texts.len();
    let mut i: usize = 0;
    while i < n
        invariant
            i <= n == texts@.len(),
            counts@.len() == i,
            i > 0 ==> counter.has_family(spec_resolve_family(model@)),
            forall|j: int| 0 <= j < i ==> counts@[j] == cl100k_tokens(texts@[j]@).len(),
        decreases n - i,
    {
        match counter.count_tokens(texts[i].as_str(), model) {
            Ok(c) => counts.push(c),
            Err(e) => {
                return Err(e);
            },
        }
        i = i + 1;
    }
    Ok(counts)
}

} // verus!
