//! The re-layout pass: a single forward walk over the tokens that keeps every
//! token that is not whitespace or a comment, and separates two identifier-like
//! tokens by one space.
use vstd::prelude::*;
use vstd::utf8::encode_utf8;
use rustc_lexer::{Token, TokenKind};
use crate::lexer::{lexed, offset, tokenize, total_len};

verus! {

/// The byte written between two identifier-like tokens: an ASCII space.
pub const SPACE: u8 = 32;

/// How the pass treats a token.
#[derive(Clone, Copy, Debug, PartialEq, Eq, Structural)]
pub enum TokenClass {
    /// Whitespace or a comment: left out of the output.
    Droppable,
    /// An identifier, raw identifier, literal or lifetime: two of these in a row
    /// would read as one token if nothing stood between them.
    IdentLike,
    /// Punctuation and anything the lexer did not recognise.
    Other,
}

pub open spec fn class_of(kind: TokenKind) -> TokenClass {
    match kind {
        TokenKind::Whitespace | TokenKind::LineComment | TokenKind::BlockComment { .. } => {
            TokenClass::Droppable
        },
        TokenKind::Ident | TokenKind::RawIdent | TokenKind::Literal { .. }
        | TokenKind::Lifetime { .. } => TokenClass::IdentLike,
        _ => TokenClass::Other,
    }
}

impl TokenClass {
    /// The class of a token kind.
    pub fn of(kind: &TokenKind) -> (c: TokenClass)
        ensures
            c == class_of(*kind),
    {
        match kind {
            TokenKind::Whitespace | TokenKind::LineComment | TokenKind::BlockComment { .. } => {
                TokenClass::Droppable
            },
            TokenKind::Ident | TokenKind::RawIdent | TokenKind::Literal { .. }
            | TokenKind::Lifetime { .. } => TokenClass::IdentLike,
            _ => TokenClass::Other,
        }
    }
}

/// The bytes of `s` that token `i` of `toks` covers.
pub open spec fn slice(toks: Seq<Token>, s: Seq<u8>, i: int) -> Seq<u8> {
    s.subrange(offset(toks, i) as int, offset(toks, i + 1) as int)
}

/// Whether the last token before token `i` that is kept is identifier-like.
pub open spec fn ident_like_before(toks: Seq<Token>, i: int) -> bool
    decreases i,
{
    if i <= 0 {
        false
    } else if class_of(toks[i - 1].kind) == TokenClass::Droppable {
        ident_like_before(toks, i - 1)
    } else {
        class_of(toks[i - 1].kind) == TokenClass::IdentLike
    }
}

/// What the pass writes for token `i`: nothing for whitespace and comments, a
/// space and the token's bytes for an identifier-like token that follows
/// another one, and the token's bytes otherwise.
pub open spec fn piece(toks: Seq<Token>, s: Seq<u8>, i: int) -> Seq<u8> {
    let c = class_of(toks[i].kind);
    if c == TokenClass::Droppable {
        Seq::empty()
    } else if c == TokenClass::IdentLike && ident_like_before(toks, i) {
        seq![SPACE] + slice(toks, s, i)
    } else {
        slice(toks, s, i)
    }
}

/// What the pass has written after the first `n` tokens.
pub open spec fn laid_out(toks: Seq<Token>, s: Seq<u8>, n: int) -> Seq<u8>
    decreases n,
{
    if n <= 0 {
        Seq::empty()
    } else {
        laid_out(toks, s, n - 1) + piece(toks, s, n - 1)
    }
}

/// The whole output of the pass over `toks` on the text `s`.
pub open spec fn layout_of(toks: Seq<Token>, s: Seq<u8>) -> Seq<u8> {
    laid_out(toks, s, toks.len() as int)
}

/// The bytes covered by the first `n` tokens end no later than those covered by
/// the first `m`.
pub proof fn lemma_offset_monotone(toks: Seq<Token>, n: int, m: int)
    requires
        0 <= n <= m <= toks.len(),
    ensures
        offset(toks, n) <= offset(toks, m),
    decreases m - n,
{
    if n < m {
        lemma_offset_monotone(toks, n, m - 1);
    }
}

/// Appends `src[start..end]` to `out`.
fn push_range(out: &mut Vec<u8>, src: &[u8], start: usize, end: usize)
    requires
        start <= end <= src@.len(),
    ensures
        final(out)@ == old(out)@ + src@.subrange(start as int, end as int),
{
    let mut k: usize = start;
    while k < end
        invariant
            start <= k <= end <= src@.len(),
            out@ == old(out)@ + src@.subrange(start as int, k as int),
        decreases end - k,
    {
        out.push(src[k]);
        k += 1;
        assert(out@ =~= old(out)@ + src@.subrange(start as int, k as int));
    }
}

/// Writes the tokens of `input` in order, leaving out whitespace and comments
/// and putting one space between two identifier-like tokens.
pub fn layout(tokens: &[Token], input: &[u8]) -> (out: Vec<u8>)
    requires
        total_len(tokens@) == input@.len(),
    ensures
        out@ == layout_of(tokens@, input@),
{
    let mut out: Vec<u8> = Vec::new();
    let mut last_ident_like = false;
    let mut i: usize = 0;
    let mut k: usize = 0;
    let input_len: usize = input.len();
    while k < tokens.len()
        invariant
            input_len == input@.len(),
            k <= tokens@.len(),
            total_len(tokens@) == input@.len(),
            i == offset(tokens@, k as int),
            last_ident_like == ident_like_before(tokens@, k as int),
            out@ == laid_out(tokens@, input@, k as int),
        decreases tokens@.len() - k,
    {
        let token = &tokens[k];
        let len: usize = token.len;
        proof {
            lemma_offset_monotone(tokens@, k + 1, tokens@.len() as int);
            assert(offset(tokens@, k + 1) == offset(tokens@, k as int) + tokens@[k as int].len);
        }
        match TokenClass::of(&token.kind) {
            TokenClass::Droppable => {},
            TokenClass::IdentLike => {
                if last_ident_like {
                    out.push(SPACE);
                }
                push_range(&mut out, input, i, i + len);
                last_ident_like = true;
            },
            TokenClass::Other => {
                push_range(&mut out, input, i, i + len);
                last_ident_like = false;
            },
        }
        i += len;
        k += 1;
        assert(out@ =~= laid_out(tokens@, input@, k as int));
    }
    out
}

/// Minifies a Rust source text: the layout pass over the tokens that
/// `rustc_lexer` finds in it.
pub fn shrink(input: String) -> (out: Vec<u8>)
    ensures
        out@ == layout_of(lexed(input@), encode_utf8(input@)),
{
    let tokens = tokenize(input.as_str());
    layout(tokens.as_slice(), input.as_str().as_bytes())
}

} // verus!
