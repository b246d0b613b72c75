//! The token stream that `rustc_lexer` produces, as seen by verified code.
use vstd::prelude::*;
use vstd::string::StringSliceAdditionalSpecFns;

verus! {

#[verifier::external_type_specification]
pub struct ExBase(rustc_lexer::Base);

#[verifier::external_type_specification]
pub struct ExLiteralKind(rustc_lexer::LiteralKind);

#[verifier::external_type_specification]
pub struct ExTokenKind(rustc_lexer::TokenKind);

#[verifier::external_type_specification]
pub struct ExToken(rustc_lexer::Token);

/// The number of bytes covered by the first `n` tokens of `toks`.
pub open spec fn offset(toks: Seq<rustc_lexer::Token>, n: int) -> nat
    decreases n,
{
    if n <= 0 {
        0
    } else {
        (offset(toks, n - 1) + toks[n - 1].len) as nat
    }
}

/// The number of bytes covered by all of `toks`.
pub open spec fn total_len(toks: Seq<rustc_lexer::Token>) -> nat {
    offset(toks, toks.len() as int)
}

/// The tokens that `rustc_lexer` splits a source text into.
pub uninterp spec fn lexed(s: Seq<char>) -> Seq<rustc_lexer::Token>;

/// Relies on `rustc_lexer::tokenize`, which yields the tokens of the text in
/// order and cuts each one off the front of the remaining text by its length
/// until nothing is left: the lengths add up to the text's length in bytes.
#[verifier::external_body]
pub(crate) fn tokenize(s: &str) -> (r: Vec<rustc_lexer::Token>)
    ensures
        r@ == lexed(s@),
        total_len(r@) == s.spec_bytes().len(),
{
    rustc_lexer::tokenize(s).collect()
}

} // verus!
