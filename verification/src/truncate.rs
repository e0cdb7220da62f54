//! Boundary-aware truncation: cut a text down to a token budget, preferring
//! to end on a sentence terminator, then on a blank line, and only then on
//! the raw token edge.
//!
//! The cut point is found on the text that the first `target` tokens decode
//! to, and is then applied to the original text as a character-count prefix,
//! clamped to the original's length, so the returned text is always a
//! well-formed prefix of the input.

use vstd::prelude::*;

use crate::codec::{bpe_decode, bpe_encode, cl100k_decodes, cl100k_text, cl100k_tokens, token_prefix};
use crate::counter::{spec_resolve_family, TokenCounter, TokenError};

verus! {

/// The six sentence terminators the boundary search recognises.
pub open spec fn is_sentence_end(c: char) -> bool {
    c == '.' || c == '!' || c == '?' || c == '。' || c == '！' || c == '？'
}

/// The position immediately after the last sentence terminator in `s`, if
/// any terminator occurs.
pub open spec fn spec_cut_after_terminator(s: Seq<char>) -> Option<int>
    decreases s.len(),
{
    if s.len() == 0 {
        None
    } else if is_sentence_end(s.last()) {
        Some(s.len() as int)
    } else {
        spec_cut_after_terminator(s.drop_last())
    }
}

/// The position of the last blank line (two consecutive newlines) in `s`,
/// if any.
pub open spec fn spec_last_blank_line(s: Seq<char>) -> Option<int>
    decreases s.len(),
{
    if s.len() < 2 {
        None
    } else if s[s.len() - 2] == '\n' && s[s.len() - 1] == '\n' {
        Some(s.len() - 2)
    } else {
        spec_last_blank_line(s.drop_last())
    }
}

/// The boundary the truncator cuts at: just after the last sentence
/// terminator; if that leaves the text whole, at the last blank line; and
/// failing both, at the end of the text.
pub open spec fn spec_boundary_cut(s: Seq<char>) -> int {
    let after_term = match spec_cut_after_terminator(s) {
        Some(p) => p,
        None => s.len() as int,
    };
    if after_term == s.len() {
        match spec_last_blank_line(s) {
            Some(p) => p,
            None => s.len() as int,
        }
    } else {
        after_term
    }
}

/// What `spec_cut_after_terminator` returns is one past the last
/// terminator.
pub proof fn lemma_cut_after_terminator(s: Seq<char>)
    ensures
        match spec_cut_after_terminator(s) {
            Some(p) => 1 <= p <= s.len() && is_sentence_end(s[p - 1]) && forall|j: int|
                p <= j < s.len() ==> !is_sentence_end(s[j]),
            None => forall|j: int| 0 <= j < s.len() ==> !is_sentence_end(s[j]),
        },
    decreases s.len(),
{
    if s.len() > 0 && !is_sentence_end(s.last()) {
        let t = s.drop_last();
        lemma_cut_after_terminator(t);
        assert(forall|j: int| 0 <= j < t.len() ==> t[j] == s[j]);
        match spec_cut_after_terminator(t) {
            Some(p) => {
                assert forall|j: int| p <= j < s.len() implies !is_sentence_end(s[j]) by {
                    if j < s.len() - 1 {
                        assert(!is_sentence_end(t[j]));
                    }
                }
            },
            None => {
                assert forall|j: int| 0 <= j < s.len() implies !is_sentence_end(s[j]) by {
                    if j < s.len() - 1 {
                        assert(!is_sentence_end(t[j]));
                    }
                }
            },
        }
    }
}

/// What `spec_last_blank_line` returns is the start of the last blank line.
pub proof fn lemma_last_blank_line(s: Seq<char>)
    ensures
        match spec_last_blank_line(s) {
            Some(p) => 0 <= p && p + 1 < s.len() && s[p] == '\n' && s[p + 1] == '\n'
                && forall|j: int| p < j && j + 1 < s.len() ==> !(#[trigger] s[j] == '\n' && s[j + 1] == '\n'),
            None => forall|j: int| 0 <= j && j + 1 < s.len() ==> !(#[trigger] s[j] == '\n' && s[j + 1] == '\n'),
        },
    decreases s.len(),
{
    if s.len() >= 2 && !(s[s.len() - 2] == '\n' && s[s.len() - 1] == '\n') {
        let t = s.drop_last();
        lemma_last_blank_line(t);
        assert(forall|j: int| 0 <= j < t.len() ==> t[j] == s[j]);
        match spec_last_blank_line(t) {
            Some(p) => {
                assert forall|j: int| p < j && j + 1 < s.len() implies !(#[trigger] s[j] == '\n' && s[j + 1]
                    == '\n') by {
                    if j + 1 < s.len() - 1 {
                        assert(!(t[j] == '\n' && t[j + 1] == '\n'));
                    }
                }
            },
            None => {
                assert forall|j: int| 0 <= j && j + 1 < s.len() implies !(#[trigger] s[j] == '\n' && s[j + 1]
                    == '\n') by {
                    if j + 1 < s.len() - 1 {
                        assert(!(t[j] == '\n' && t[j + 1] == '\n'));
                    }
                }
            },
        }
    } else if s.len() < 2 {
    }
}

/// Finds the boundary cut of a decoded working copy, scanning right to
/// left: first for a sentence terminator, then for a blank line.
pub fn boundary_cut(s: &str) -> (r: usize)
    ensures
        r == spec_boundary_cut(s@),
        r <= s@.len(),
{
    let n = s.unicode_len();
    let mut i: usize = n;
    let mut term_cut: usize = 0;
    let mut term_found = false;
    while i > 0 && !term_found
        invariant
            i <= n == s@.len(),
            !term_found ==> forall|j: int| i <= j < n ==> !is_sentence_end(s@[j]),
            term_found ==> 1 <= term_cut <= n && is_sentence_end(s@[term_cut - 1]) && forall|
                j: int,
            | term_cut <= j < n ==> !is_sentence_end(s@[j]),
        decreases i,
    {
        if is_sentence_end_exec(s.get_char(i - 1)) {
            term_cut = i;
            term_found = true;
        }
        i = i - 1;
    }
    proof {
        lemma_cut_after_terminator(s@);
    }
    let after_term = if term_found {
        term_cut
    } else {
        n
    };
    assert(after_term == match spec_cut_after_terminator(s@) {
        Some(p) => p,
        None => s@.len() as int,
    });
    if after_term < n {
        return after_term;
    }
    let mut k: usize = n;
    while k >= 2
        invariant
            k <= n == s@.len(),
            (match spec_cut_after_terminator(s@) {
                Some(p) => p,
                None => s@.len() as int,
            }) == s@.len() as int,
            forall|j: int| k - 1 <= j && j + 1 < n ==> !(#[trigger] s@[j] == '\n' && s@[j + 1] == '\n'),
        decreases k,
    {
        if s.get_char(k - 2) == '\n' && s.get_char(k - 1) == '\n' {
            proof {
                lemma_last_blank_line(s@);
                assert(s@[k as int - 2] == '\n' && s@[k as int - 1] == '\n');
                match spec_last_blank_line(s@) {
                    Some(p) => {
                        if p < k as int - 2 {
                            assert(!(s@[k as int - 2] == '\n' && s@[k as int - 2 + 1] == '\n'));
                        } else if p > k as int - 2 {
                            assert(!(s@[p] == '\n' && s@[p + 1] == '\n'));
                        }
                    },
                    None => {
                        assert(!(s@[k as int - 2] == '\n' && s@[k as int - 2 + 1] == '\n'));
                    },
                }
                assert(spec_last_blank_line(s@) == Some(k as int - 2));
                assert(spec_boundary_cut(s@) == k as int - 2);
            }
            return k - 2;
        }
        k = k - 1;
    }
    proof {
        lemma_last_blank_line(s@);
    }
    n
}

/// The six sentence terminators, decided in executable code.
fn is_sentence_end_exec(c: char) -> (r: bool)
    ensures
        r == is_sentence_end(c),
{
    c == '.' || c == '!' || c == '?' || c == '。' || c == '！' || c == '？'
}

/// The character position the truncator cuts the original text at when the
/// budget is exceeded: the boundary cut of the decoded token prefix,
/// clamped to the original text's length.
pub open spec fn spec_truncate_pos(text: Seq<char>, target: nat) -> int {
    let decoded = cl100k_text(cl100k_tokens(text).take(target as int));
    let cut = spec_boundary_cut(decoded);
    if cut <= text.len() {
        cut
    } else {
        text.len() as int
    }
}

/// What truncation to a budget returns: the text itself when it is within
/// budget, and otherwise its prefix up to `spec_truncate_pos`.
pub open spec fn spec_truncate(text: Seq<char>, target: nat) -> Seq<char> {
    if cl100k_tokens(text).len() <= target {
        text
    } else {
        text.take(spec_truncate_pos(text, target))
    }
}

impl TokenCounter {
    /// Finds the character position at which `smart_truncate_text` cuts
    /// `text`.  Within budget the position is the full length; over budget
    /// it is `spec_truncate_pos`.  With a codec the call succeeds exactly
    /// when the text is within budget or the token prefix decodes
    /// (`cl100k_decodes`): a decode failure is surfaced as `DecodeFailed`,
    /// never swallowed.
    pub fn find_smart_truncate_position(&self, text: &str, target_tokens: usize, model: &str) -> (r:
        Result<usize, TokenError>)
        ensures
            !self.has_family(spec_resolve_family(model@)) ==> (r matches Err(e)
                && e matches TokenError::UnsupportedModel(m) && m@ == model@),
            self.has_family(spec_resolve_family(model@)) ==> ((r is Ok) == (cl100k_tokens(
                text@,
            ).len() <= target_tokens || cl100k_decodes(
                cl100k_tokens(text@).take(target_tokens as int),
            ))),
            self.has_family(spec_resolve_family(model@)) ==> match r {
                Ok(p) => p <= text@.len() && (cl100k_tokens(text@).len() <= target_tokens ==> p
                    == text@.len()) && (cl100k_tokens(text@).len() > target_tokens ==> p
                    == spec_truncate_pos(text@, target_tokens as nat)),
                Err(e) => e matches TokenError::DecodeFailed(_) && cl100k_tokens(text@).len()
                    > target_tokens,
            },
            self.has_family(spec_resolve_family(model@)) && target_tokens == 0 ==> (r matches Ok(p)
                && (cl100k_tokens(text@).len() > 0 ==> p == 0)),
    {
        let codec = match self.get_bpe_for_model(model) {
            Some(c) => c,
            None => {
                return Err(TokenError::UnsupportedModel(model.to_owned()));
            },
        };
        let tokens = bpe_encode(codec, text);
        if tokens.len() <= target_tokens {
            return Ok(text.unicode_len());
        }
        let prefix = token_prefix(&tokens, target_tokens);
        let decoded = match bpe_decode(codec, prefix.as_slice()) {
            Ok(d) => d,
            Err(msg) => {
                return Err(TokenError::DecodeFailed(msg));
            },
        };
        let cut = boundary_cut(decoded.as_str());
        let text_len = text.unicode_len();
        if cut <= text_len {
            Ok(cut)
        } else {
            Ok(text_len)
        }
    }
}

/// Truncates `text` to at most `target_tokens` tokens, preferring a
/// sentence or blank-line boundary, and returns a prefix of the original
/// text, byte-identical to it when the text is already within budget.
/// With a codec the call succeeds exactly when the text is within budget
/// or the token prefix decodes; a budget of zero on a text with tokens
/// provably yields the empty text.
pub fn smart_truncate_text(counter: &TokenCounter, text: &str, target_tokens: usize, model: &str) -> (r:
    Result<String, TokenError>)
    ensures
        !counter.has_family(spec_resolve_family(model@)) ==> (r matches Err(e)
            && e matches TokenError::UnsupportedModel(m) && m@ == model@),
        counter.has_family(spec_resolve_family(model@)) ==> ((r is Ok) == (cl100k_tokens(
            text@,
        ).len() <= target_tokens || cl100k_decodes(
            cl100k_tokens(text@).take(target_tokens as int),
        ))),
        counter.has_family(spec_resolve_family(model@)) ==> match r {
            Ok(s) => s@ == spec_truncate(text@, target_tokens as nat),
            Err(e) => e matches TokenError::DecodeFailed(_) && cl100k_tokens(text@).len()
                > target_tokens,
        },
        counter.has_family(spec_resolve_family(model@)) && target_tokens == 0 ==> (r matches Ok(s)
            && (cl100k_tokens(text@).len() > 0 ==> s@.len() == 0)),
        r matches Ok(s) ==> s@.len() <= text@.len() && s@ == text@.take(s@.len() as int),
{
    match counter.find_smart_truncate_position(text, target_tokens, model) {
        Ok(p) => {
            let pref = text.substring_char(0, p);
            let owned = pref.to_owned();
            proof {
                assert(text@.take(text@.len() as int) =~= text@);
                assert(owned@ == text@.subrange(0, p as int));
                assert(text@.subrange(0, p as int) =~= text@.take(p as int));
            }
            Ok(owned)
        },
        Err(e) => Err(e),
    }
}

/// Truncating a text that is already within budget returns it unchanged.
pub proof fn lemma_truncate_noop(text: Seq<char>, target: nat)
    ensures
        cl100k_tokens(text).len() <= target ==> spec_truncate(text, target) == text,
{
}

/// Truncation applied to its own output is the identity, whenever that
/// output re-encodes to at most the budget (re-encoding a prefix is the
/// codec's affair, so that bound is a hypothesis here, not a theorem).
pub proof fn lemma_truncate_idempotent(text: Seq<char>, target: nat)
    ensures
        cl100k_tokens(spec_truncate(text, target)).len() <= target ==> spec_truncate(
            spec_truncate(text, target),
            target,
        ) == spec_truncate(text, target),
{
}

/// Truncation always returns a character-aligned prefix of the original
/// text: it never slices inside a character.
pub proof fn lemma_truncate_prefix(text: Seq<char>, target: nat)
    ensures
        exists|k: int|
            0 <= k <= text.len() && spec_truncate(text, target) == text.take(k),
{
    if cl100k_tokens(text).len() <= target {
        assert(text.take(text.len() as int) =~= text);
        assert(spec_truncate(text, target) == text.take(text.len() as int));
    } else {
        let decoded = cl100k_text(cl100k_tokens(text).take(target as int));
        lemma_cut_after_terminator(decoded);
        lemma_last_blank_line(decoded);
        let k = spec_truncate_pos(text, target);
        assert(0 <= k <= text.len());
        assert(spec_truncate(text, target) == text.take(k));
    }
}

} // verus!
