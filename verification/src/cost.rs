//! Cost estimation: token counts priced through a static per-model table.
//!
//! Costs are exact integers in tenths of a microdollar (units of 10^-7
//! USD), so a price of 10 USD per million tokens is 100 units per token.
//! Callers that want a floating-point dollar amount divide by 10^7 at the
//! edge; the arithmetic here is exact and overflow-free.

use vstd::prelude::*;

use crate::codec::cl100k_tokens;
use crate::counter::{spec_resolve_family, TokenCounter, TokenError};
use crate::text::{spec_is_prefix, str_has_prefix};

verus! {

/// The price of one prompt token, in units of 10^-7 USD, by model-name
/// prefix, most specific prefix first; unknown models price as
/// `gpt-3.5-turbo`.
pub open spec fn spec_prompt_price(model: Seq<char>) -> int {
    if spec_is_prefix("gpt-4-turbo"@, model) {
        100
    } else if spec_is_prefix("gpt-4"@, model) {
        300
    } else {
        15
    }
}

/// The price of one completion token, in units of 10^-7 USD, under the
/// same prefix rules as `spec_prompt_price`.
pub open spec fn spec_completion_price(model: Seq<char>) -> int {
    if spec_is_prefix("gpt-4-turbo"@, model) {
        300
    } else if spec_is_prefix("gpt-4"@, model) {
        600
    } else {
        20
    }
}

/// The estimated cost of a call, in units of 10^-7 USD: each token count
/// times its per-token price.
pub open spec fn spec_cost_units(prompt_tokens: int, completion_tokens: int, model: Seq<char>) -> int {
    prompt_tokens * spec_prompt_price(model) + completion_tokens * spec_completion_price(model)
}

impl TokenCounter {
    /// Prices a prompt/completion token pair for a model.  Never fails:
    /// unknown models price at the default tier.  The result is in units
    /// of 10^-7 USD.
    pub fn estimate_cost(&self, prompt_tokens: u32, completion_tokens: u32, model: &str) -> (cost:
        u64)
        ensures
            cost == spec_cost_units(prompt_tokens as int, completion_tokens as int, model@),
    {
        let p = prompt_tokens as u64;
        let c = completion_tokens as u64;
        if str_has_prefix(model, "gpt-4-turbo") {
            p * 100 + c * 300
        } else if str_has_prefix(model, "gpt-4") {
            p * 300 + c * 600
        } else {
            p * 15 + c * 20
        }
    }
}

/// Estimates the cost of sending `prompt` to `model`, assuming the
/// completion runs to two fifths of the prompt's token count; fails
/// exactly when the model's family has no codec.  The result is in units
/// of 10^-7 USD.
pub fn estimate_api_cost(counter: &TokenCounter, prompt: &str, model: &str) -> (r: Result<
    u128,
    TokenError,
>)
    ensures
        (r is Ok) == counter.has_family(spec_resolve_family(model@)),
        r matches Ok(cost) ==> cost == spec_cost_units(
            cl100k_tokens(prompt@).len() as int,
            (2 * cl100k_tokens(prompt@).len() as int) / 5,
            model@,
        ),
        r matches Err(e) ==> (e matches TokenError::UnsupportedModel(m) && m@ == model@),
{
    let prompt_tokens = match counter.count_tokens(prompt, model) {
        Ok(n) => n,
        Err(e) => {
            return Err(e);
        },
    };
    let p = prompt_tokens as u128;
    let c = (2 * p) / 5;
    if str_has_prefix(model, "gpt-4-turbo") {
        Ok(p * 100 + c * 300)
    } else if str_has_prefix(model, "gpt-4") {
        Ok(p * 300 + c * 600)
    } else {
        Ok(p * 15 + c * 20)
    }
}

/// For equal token counts, a `gpt-4` call never costs less than a
/// `gpt-3.5-turbo` call.
pub proof fn lemma_cost_model_ordering(prompt_tokens: int, completion_tokens: int)
    ensures
        0 <= prompt_tokens && 0 <= completion_tokens ==> spec_cost_units(
            prompt_tokens,
            completion_tokens,
            "gpt-4"@,
        ) >= spec_cost_units(prompt_tokens, completion_tokens, "gpt-3.5-turbo"@),
{
    reveal_strlit("gpt-4");
    reveal_strlit("gpt-4-turbo");
    reveal_strlit("gpt-3.5-turbo");
    assert(!spec_is_prefix("gpt-4-turbo"@, "gpt-4"@));
    assert(spec_is_prefix("gpt-4"@, "gpt-4"@)) by {
        assert("gpt-4"@.take(5) =~= "gpt-4"@);
    }
    assert(!spec_is_prefix("gpt-4-turbo"@, "gpt-3.5-turbo"@)) by {
        assert("gpt-3.5-turbo"@.take(11)[4] == '3');
    }
    assert(!spec_is_prefix("gpt-4"@, "gpt-3.5-turbo"@)) by {
        assert("gpt-3.5-turbo"@.take(5)[4] == '3');
    }
}

} // verus!
