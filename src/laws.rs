//! Properties of the layout pass, stated over its spec functions and proved.
use vstd::prelude::*;
use rustc_lexer::{Token, TokenKind};
use crate::lexer::{offset, total_len};
use crate::layout::{
    class_of, ident_like_before, laid_out, layout_of, lemma_offset_monotone, piece, slice,
    TokenClass, SPACE,
};

verus! {

/// The bytes covered by the first `n` tokens, one token after another.
pub open spec fn joined_slices(toks: Seq<Token>, s: Seq<u8>, n: int) -> Seq<u8>
    decreases n,
{
    if n <= 0 {
        Seq::empty()
    } else {
        joined_slices(toks, s, n - 1) + slice(toks, s, n - 1)
    }
}

proof fn lemma_joined_prefix(toks: Seq<Token>, s: Seq<u8>, n: int)
    requires
        0 <= n <= toks.len(),
        total_len(toks) == s.len(),
    ensures
        joined_slices(toks, s, n) == s.subrange(0, offset(toks, n) as int),
    decreases n,
{
    lemma_offset_monotone(toks, n, toks.len() as int);
    if n > 0 {
        lemma_joined_prefix(toks, s, n - 1);
        lemma_offset_monotone(toks, n - 1, n);
        assert(joined_slices(toks, s, n) =~= s.subrange(0, offset(toks, n) as int));
    } else {
        assert(s.subrange(0, 0) =~= Seq::<u8>::empty());
    }
}

/// When the token lengths add up to the length of the text, putting the bytes
/// of every token back together, whitespace and comments included, gives the
/// text again.
pub proof fn lemma_tokens_cover_text(toks: Seq<Token>, s: Seq<u8>)
    requires
        total_len(toks) == s.len(),
    ensures
        joined_slices(toks, s, toks.len() as int) == s,
{
    lemma_joined_prefix(toks, s, toks.len() as int);
    assert(s.subrange(0, s.len() as int) =~= s);
}

/// Whitespace and comments add nothing to the output; every other token adds
/// its own bytes, after at most one space that the pass puts in.
pub proof fn lemma_only_kept_bytes(toks: Seq<Token>, s: Seq<u8>, i: int)
    requires
        0 <= i < toks.len(),
    ensures
        class_of(toks[i].kind) == TokenClass::Droppable ==> laid_out(toks, s, i + 1) == laid_out(
            toks,
            s,
            i,
        ),
        class_of(toks[i].kind) != TokenClass::Droppable ==> (laid_out(toks, s, i + 1)
            == laid_out(toks, s, i) + slice(toks, s, i) || laid_out(toks, s, i + 1) == laid_out(
            toks,
            s,
            i,
        ) + seq![SPACE] + slice(toks, s, i)),
{
    assert(laid_out(toks, s, i + 1) == laid_out(toks, s, i) + piece(toks, s, i));
    if class_of(toks[i].kind) == TokenClass::Droppable {
        assert(laid_out(toks, s, i + 1) =~= laid_out(toks, s, i));
    } else if class_of(toks[i].kind) == TokenClass::IdentLike && ident_like_before(toks, i) {
        assert(laid_out(toks, s, i + 1) =~= laid_out(toks, s, i) + seq![SPACE] + slice(
            toks,
            s,
            i,
        ));
    }
}

/// What stands between the bytes of two kept tokens with only whitespace and
/// comments between them: one space if both are identifier-like, else nothing.
pub open spec fn gap(a: TokenKind, b: TokenKind) -> Seq<u8> {
    if class_of(a) == TokenClass::IdentLike && class_of(b) == TokenClass::IdentLike {
        seq![SPACE]
    } else {
        Seq::empty()
    }
}

proof fn lemma_skip_droppable(toks: Seq<Token>, s: Seq<u8>, i: int, j: int)
    requires
        0 <= i < j <= toks.len(),
        class_of(toks[i].kind) != TokenClass::Droppable,
        forall|m: int| i < m < j ==> class_of(#[trigger] toks[m].kind) == TokenClass::Droppable,
    ensures
        laid_out(toks, s, j) == laid_out(toks, s, i + 1),
        ident_like_before(toks, j) == (class_of(toks[i].kind) == TokenClass::IdentLike),
    decreases j - i,
{
    if j > i + 1 {
        lemma_skip_droppable(toks, s, i, j - 1);
        assert(laid_out(toks, s, j) =~= laid_out(toks, s, j - 1));
    }
}

/// Two kept tokens with only whitespace and comments between them come out
/// with their bytes one after the other: separated by a single space when both
/// are identifier-like, and by nothing otherwise.
pub proof fn lemma_no_gluing(toks: Seq<Token>, s: Seq<u8>, i: int, j: int)
    requires
        0 <= i < j < toks.len(),
        class_of(toks[i].kind) != TokenClass::Droppable,
        class_of(toks[j].kind) != TokenClass::Droppable,
        forall|m: int| i < m < j ==> class_of(#[trigger] toks[m].kind) == TokenClass::Droppable,
    ensures
        laid_out(toks, s, j + 1) == laid_out(toks, s, i + 1) + gap(toks[i].kind, toks[j].kind)
            + slice(toks, s, j),
        laid_out(toks, s, i + 1).len() >= slice(toks, s, i).len(),
        laid_out(toks, s, i + 1).subrange(
            laid_out(toks, s, i + 1).len() - slice(toks, s, i).len(),
            laid_out(toks, s, i + 1).len() as int,
        ) == slice(toks, s, i),
{
    lemma_skip_droppable(toks, s, i, j);
    let a = laid_out(toks, s, i + 1);
    let p = laid_out(toks, s, i);
    let sl = slice(toks, s, i);
    assert(a == p + piece(toks, s, i));
    if class_of(toks[i].kind) == TokenClass::IdentLike && ident_like_before(toks, i) {
        assert(a =~= p + (seq![SPACE] + sl));
        assert(a.subrange(a.len() - sl.len(), a.len() as int) =~= sl);
    } else {
        assert(a.subrange(a.len() - sl.len(), a.len() as int) =~= sl);
    }
    assert(laid_out(toks, s, j + 1) =~= a + gap(toks[i].kind, toks[j].kind) + slice(toks, s, j));
}

/// The tokens that the output of the pass over the first `n` tokens holds
/// when it is lexed again: each kept token, preceded by a one-byte whitespace
/// token wherever the pass put in a space.
pub open spec fn relexed(toks: Seq<Token>, n: int) -> Seq<Token>
    decreases n,
{
    if n <= 0 {
        Seq::empty()
    } else {
        let t = toks[n - 1];
        let c = class_of(t.kind);
        if c == TokenClass::Droppable {
            relexed(toks, n - 1)
        } else if c == TokenClass::IdentLike && ident_like_before(toks, n - 1) {
            relexed(toks, n - 1) + seq![Token { kind: TokenKind::Whitespace, len: 1 }, t]
        } else {
            relexed(toks, n - 1) + seq![t]
        }
    }
}

proof fn lemma_prefix_stable(t1: Seq<Token>, t2: Seq<Token>, s: Seq<u8>, m: int)
    requires
        0 <= m <= t1.len(),
        m <= t2.len(),
        forall|k: int| 0 <= k < m ==> t1[k] == t2[k],
    ensures
        offset(t1, m) == offset(t2, m),
        ident_like_before(t1, m) == ident_like_before(t2, m),
        laid_out(t1, s, m) == laid_out(t2, s, m),
    decreases m,
{
    if m > 0 {
        lemma_prefix_stable(t1, t2, s, m - 1);
        assert(offset(t1, m) == offset(t2, m));
        assert(piece(t1, s, m - 1) == piece(t2, s, m - 1));
    }
}

proof fn lemma_laid_out_grows(toks: Seq<Token>, s: Seq<u8>, n: int, m: int)
    requires
        0 <= n <= m,
    ensures
        laid_out(toks, s, n).len() <= laid_out(toks, s, m).len(),
        laid_out(toks, s, m).subrange(0, laid_out(toks, s, n).len() as int) == laid_out(
            toks,
            s,
            n,
        ),
    decreases m - n,
{
    if n < m {
        lemma_laid_out_grows(toks, s, n, m - 1);
        let a = laid_out(toks, s, n);
        let b = laid_out(toks, s, m - 1);
        assert(laid_out(toks, s, m) == b + piece(toks, s, m - 1));
        assert(laid_out(toks, s, m).subrange(0, a.len() as int) =~= b.subrange(
            0,
            a.len() as int,
        ));
    } else {
        assert(laid_out(toks, s, m).subrange(0, laid_out(toks, s, m).len() as int) =~= laid_out(
            toks,
            s,
            m,
        ));
    }
}

proof fn lemma_relexed_prefix(toks: Seq<Token>, s: Seq<u8>, n: int)
    requires
        0 <= n <= toks.len(),
        total_len(toks) == s.len(),
    ensures
        total_len(relexed(toks, n)) == laid_out(toks, s, n).len(),
        ident_like_before(relexed(toks, n), relexed(toks, n).len() as int) == ident_like_before(
            toks,
            n,
        ),
        laid_out(relexed(toks, n), layout_of(toks, s), relexed(toks, n).len() as int) == laid_out(
            toks,
            s,
            n,
        ),
    decreases n,
{
    if n > 0 {
        let i = n - 1;
        lemma_relexed_prefix(toks, s, i);
        let full = layout_of(toks, s);
        let r0 = relexed(toks, i);
        let r1 = relexed(toks, n);
        let o0 = laid_out(toks, s, i);
        let o1 = laid_out(toks, s, n);
        let t = toks[i];
        let m = r0.len() as int;
        let b = o0.len() as int;
        lemma_offset_monotone(toks, n, toks.len() as int);
        lemma_offset_monotone(toks, i, n);
        assert(slice(toks, s, i).len() == t.len);
        assert(o1 == o0 + piece(toks, s, i));
        lemma_laid_out_grows(toks, s, n, toks.len() as int);
        assert(full.subrange(0, o1.len() as int) == o1);
        lemma_prefix_stable(r0, r1, full, m);
        let c = class_of(t.kind);
        if c == TokenClass::Droppable {
            assert(o1 =~= o0);
        } else if c == TokenClass::IdentLike && ident_like_before(toks, i) {
            assert(r1[m].kind == TokenKind::Whitespace);
            assert(r1[m + 1] == t);
            assert(offset(r1, m + 1) == b + 1);
            assert(offset(r1, m + 2) == b + 1 + t.len);
            assert(ident_like_before(r1, m + 1) == ident_like_before(r0, m));
            assert(laid_out(r1, full, m + 1) =~= laid_out(r1, full, m));
            assert(o1 =~= o0 + seq![SPACE] + slice(toks, s, i));
            assert(slice(r1, full, m + 1) =~= full.subrange(
                b + 1,
                b + 1 + t.len,
            ));
            assert(full.subrange(b + 1, b + 1 + t.len) =~= o1.subrange(
                b + 1,
                o1.len() as int,
            ));
            assert(laid_out(r1, full, m + 2) =~= o1);
        } else {
            assert(r1[m] == t);
            assert(offset(r1, m + 1) == b + t.len);
            assert(o1 =~= o0 + slice(toks, s, i));
            assert(full.subrange(b, b + t.len) =~= o1.subrange(
                b,
                o1.len() as int,
            ));
            assert(laid_out(r1, full, m + 1) =~= o1);
        }
    }
}

/// The output is a fixed point of the pass: run again over the tokens that the
/// output holds when it is lexed again (see `relexed`), the pass gives the
/// output back byte for byte.
pub proof fn lemma_layout_fixed_point(toks: Seq<Token>, s: Seq<u8>)
    requires
        total_len(toks) == s.len(),
    ensures
        total_len(relexed(toks, toks.len() as int)) == layout_of(toks, s).len(),
        layout_of(relexed(toks, toks.len() as int), layout_of(toks, s)) == layout_of(toks, s),
{
    lemma_relexed_prefix(toks, s, toks.len() as int);
}

} // verus!
