//! The tokenizer that turns a file's text into tokens.
//!
//! Tokenizing is done by the `tiktoken_rs` crate. Nothing of it is proved
//! here: the items marked as trusted below say what this crate takes for
//! granted about it.

use vstd::prelude::*;

verus! {

/// Trusted: makes `tiktoken_rs::CoreBPE` known as an opaque type.
#[verifier::external_type_specification]
#[verifier::external_body]
pub struct ExCoreBPE(tiktoken_rs::CoreBPE);

/// Trusted name for what `tiktoken_rs::CoreBPE::encode` yields for `text` when
/// every special token of the tokenizer `bpe` is allowed: the token ranks in
/// order, or `None` where it reports an error. A `CoreBPE` is never changed
/// after it is built, and the result depends on nothing but it and the text.
pub uninterp spec fn encoding_of(bpe: tiktoken_rs::CoreBPE, text: Seq<char>) -> Option<Seq<u32>>;

/// Trusted: `tiktoken_rs::cl100k_base`, which builds the tokenizer of the
/// `cl100k_base` vocabulary from data held in that crate. Its error, if it
/// reports one, is dropped. Nothing is claimed of the result.
#[verifier::external_body]
fn cl100k_base() -> Option<tiktoken_rs::CoreBPE> {
    tiktoken_rs::cl100k_base().ok()
}

/// Trusted: `tiktoken_rs::CoreBPE::encode`, called with the set that
/// `CoreBPE::special_tokens` returns, which is what
/// `CoreBPE::encode_with_special_tokens` computes before it unwraps. The
/// contract only gives the result its name. A tokenizer reaches this function
/// from `cl100k_base` alone; on that vocabulary every byte has a rank, so the
/// call returns, and a failure of the pattern matcher comes back as an error.
#[verifier::external_body]
fn encode_with_special_tokens(bpe: &tiktoken_rs::CoreBPE, text: &str) -> (tokens: Option<Vec<u32>>)
    ensures
        tokens is Some <==> encoding_of(*bpe, text@) is Some,
        tokens matches Some(t) ==> encoding_of(*bpe, text@) == Some(t@),
{
    match bpe.encode(text, &bpe.special_tokens()) {
        Ok((tokens, _)) => Some(tokens),
        Err(_) => None,
    }
}

/// A tokenizer. The only way to make one is [`Tokenizer::cl100k_base`].
pub struct Tokenizer {
    bpe: tiktoken_rs::CoreBPE,
}

impl Tokenizer {
    /// The tokens that this tokenizer assigns to `text`, or `None` where it
    /// fails on `text`.
    pub closed spec fn tokens(&self, text: Seq<char>) -> Option<Seq<u32>> {
        encoding_of(self.bpe, text)
    }

    /// The number of tokens of `text`, or `None` where the tokenizer fails.
    pub open spec fn token_count(&self, text: Seq<char>) -> Option<nat> {
        match self.tokens(text) {
            Some(tokens) => Some(tokens.len()),
            None => None,
        }
    }

    /// Builds the tokenizer of the `cl100k_base` vocabulary. `None` where the
    /// vocabulary could not be loaded.
    pub fn cl100k_base() -> Option<Tokenizer> {
        Tokenizer::of_loaded(cl100k_base())
    }

    /// Counts the tokens of `text`.
    pub fn count(&self, text: &str) -> (count: Option<usize>)
        ensures
            count is Some <==> self.token_count(text@) is Some,
            count matches Some(n) ==> self.token_count(text@) == Some(n as nat),
    {
        match encode_with_special_tokens(&self.bpe, text) {
            Some(tokens) => Some(tokens.len()),
            None => None,
        }
    }

    /// Makes a tokenizer of what loading a vocabulary came to: there is one
    /// exactly where the vocabulary was loaded, and it tokenizes as that
    /// vocabulary does. Kept private, so that no tokenizer is made of a
    /// vocabulary other than those this module loads.
    fn of_loaded(loaded: Option<tiktoken_rs::CoreBPE>) -> (made: Option<Tokenizer>)
        ensures
            made is Some <==> loaded is Some,
            made matches Some(tokenizer) ==> forall|text: Seq<char>|
                #[trigger] tokenizer.tokens(text) == encoding_of(loaded->0, text),
    {
        match loaded {
            Some(bpe) => Some(Tokenizer { bpe }),
            None => None,
        }
    }
}

} // verus!
