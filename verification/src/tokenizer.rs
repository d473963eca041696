//! The tokenizer: reads the input token trees one by one and puts a space
//! token wherever two trees do not touch, then a space and the end.
use vstd::prelude::*;
use crate::literal::{LiteralClass, classify_literal};
use crate::token::{LineColumn, MettaError, SourceTree, SourceTreeView, Span, Token, TokenView, TreeKind, classify};

verus! {

/// The state of the tokenizer: the token it gives out next with its span
/// (none for the end of an empty input), and the trees not read yet.
pub struct Tokenizer {
    prev: (Token, Option<Span>),
    input: Vec<SourceTree>,
    pos: usize,
}

/// The value of the tokenizer's state.
pub struct TokenizerView {
    pub prev: TokenView,
    pub prev_span: Option<Span>,
    pub rest: Seq<SourceTreeView>,
}

/// The values of a sequence of token trees.
pub open spec fn tree_values(s: Seq<SourceTree>) -> Seq<SourceTreeView> {
    Seq::new(s.len(), |i: int| s[i]@)
}

/// Whether the span `a` ends where the span `b` starts.
pub open spec fn touches(a: Span, b: Span) -> bool {
    a.end == b.start
}

/// The tokenizer's state when it starts on `input`.
pub open spec fn spec_tokenizer_new(input: Seq<SourceTreeView>) -> Result<TokenizerView, MettaError> {
    if input.len() == 0 {
        Ok(TokenizerView { prev: TokenView::End, prev_span: None, rest: input })
    } else {
        match classify(input[0]) {
            Ok(t) => Ok(TokenizerView { prev: t, prev_span: Some(input[0].span), rest: input.drop_first() }),
            Err(e) => Err(e),
        }
    }
}

/// One step of the tokenizer: the token given out and the state after it.
/// When the input is used up, a space follows any token but a space, and the
/// end follows a space. Otherwise the next tree is read if it touches the
/// token before it, and a space with that tree's span comes first if not.
pub open spec fn spec_tokenizer_next(t: TokenizerView) -> Result<(TokenView, TokenizerView), MettaError> {
    if t.rest.len() == 0 {
        let next = if t.prev is Space { TokenView::End } else { TokenView::Space };
        Ok((t.prev, TokenizerView { prev: next, prev_span: t.prev_span, rest: t.rest }))
    } else if t.prev_span matches Some(sp) && touches(sp, t.rest[0].span) {
        match classify(t.rest[0]) {
            Ok(n) => Ok((t.prev, TokenizerView { prev: n, prev_span: Some(t.rest[0].span), rest: t.rest.drop_first() })),
            Err(e) => Err(e),
        }
    } else {
        Ok((t.prev, TokenizerView { prev: TokenView::Space, prev_span: Some(t.rest[0].span), rest: t.rest }))
    }
}

/// The first `k` tokens that the tokenizer gives out from state `t`, or the
/// reason it stops before.
pub open spec fn spec_tokens(t: TokenizerView, k: nat) -> Result<Seq<TokenView>, MettaError>
    decreases k,
{
    if k == 0 {
        Ok(Seq::empty())
    } else {
        match spec_tokenizer_next(t) {
            Err(e) => Err(e),
            Ok((tok, t2)) => match spec_tokens(t2, (k - 1) as nat) {
                Ok(ts) => Ok(seq![tok] + ts),
                Err(e) => Err(e),
            },
        }
    }
}

/// Whether every tree of `s` reads as a token.
pub open spec fn all_classified(s: Seq<SourceTreeView>) -> bool {
    forall|i: int| 0 <= i < s.len() ==> #[trigger] classify(s[i]) is Ok
}

/// The tokens that the trees of `s` read as.
pub open spec fn classified(s: Seq<SourceTreeView>) -> Seq<TokenView> {
    Seq::new(s.len(), |i: int| classify(s[i])->Ok_0)
}

/// Whether each tree of `s` touches the next one.
pub open spec fn gapless(s: Seq<SourceTreeView>) -> bool {
    forall|i: int, j: int| 0 <= i && j == i + 1 && j < s.len() ==> touches(#[trigger] s[i].span, #[trigger] s[j].span)
}

proof fn lemma_tokens_from(t: TokenizerView)
    requires
        all_classified(t.rest),
        gapless(t.rest),
        !(t.prev is Space),
        !(t.prev is End),
        t.rest.len() > 0 ==> (t.prev_span matches Some(sp) && touches(sp, t.rest[0].span)),
    ensures
        spec_tokens(t, t.rest.len() + 3) == Ok::<Seq<TokenView>, MettaError>(
            seq![t.prev] + classified(t.rest) + seq![TokenView::Space, TokenView::End],
        ),
    decreases t.rest.len(),
{
    if t.rest.len() == 0 {
        assert(classified(t.rest) =~= Seq::<TokenView>::empty());
        let t1 = TokenizerView { prev: TokenView::Space, prev_span: t.prev_span, rest: t.rest };
        let t2 = TokenizerView { prev: TokenView::End, prev_span: t.prev_span, rest: t.rest };
        let t3 = TokenizerView { prev: TokenView::Space, prev_span: t.prev_span, rest: t.rest };
        assert(spec_tokens(t3, 0) == Ok::<Seq<TokenView>, MettaError>(Seq::empty()));
        assert(spec_tokens(t2, 1) == Ok::<Seq<TokenView>, MettaError>(seq![TokenView::End])) by {
            assert(seq![TokenView::End] + Seq::<TokenView>::empty() =~= seq![TokenView::End]);
        }
        assert(spec_tokens(t1, 2) == Ok::<Seq<TokenView>, MettaError>(seq![TokenView::Space, TokenView::End])) by {
            assert(seq![TokenView::Space] + seq![TokenView::End] =~= seq![TokenView::Space, TokenView::End]);
        }
        assert(spec_tokens(t, 3) == Ok::<Seq<TokenView>, MettaError>(seq![t.prev, TokenView::Space, TokenView::End])) by {
            assert(seq![t.prev] + seq![TokenView::Space, TokenView::End] =~= seq![t.prev, TokenView::Space, TokenView::End]);
        }
        assert(seq![t.prev] + classified(t.rest) + seq![TokenView::Space, TokenView::End] =~= seq![t.prev, TokenView::Space, TokenView::End]);
    } else {
        assert(classify(t.rest[0]) is Ok);
        let c0 = classify(t.rest[0])->Ok_0;
        let t2 = TokenizerView { prev: c0, prev_span: Some(t.rest[0].span), rest: t.rest.drop_first() };
        assert(spec_tokenizer_next(t) == Ok::<(TokenView, TokenizerView), MettaError>((t.prev, t2)));
        assert(all_classified(t2.rest)) by {
            assert forall|i: int| 0 <= i < t2.rest.len() implies #[trigger] classify(t2.rest[i]) is Ok by {
                assert(t2.rest[i] == t.rest[i + 1]);
                assert(classify(t.rest[i + 1]) is Ok);
            }
        }
        assert(gapless(t2.rest)) by {
            assert forall|i: int, j: int| 0 <= i && j == i + 1 && j < t2.rest.len() implies touches(
                #[trigger] t2.rest[i].span,
                #[trigger] t2.rest[j].span,
            ) by {
                assert(touches(t.rest[i + 1].span, t.rest[j + 1].span));
            }
        }
        if t2.rest.len() > 0 {
            assert(touches(t.rest[0].span, t.rest[1].span));
        }
        match c0 {
            TokenView::Space => {},
            TokenView::End => {},
            _ => {},
        }
        lemma_tokens_from(t2);
        assert(classified(t.rest) =~= seq![c0] + classified(t2.rest));
        assert(seq![t.prev] + classified(t.rest) + seq![TokenView::Space, TokenView::End] =~= seq![t.prev] + (seq![c0]
            + classified(t2.rest) + seq![TokenView::Space, TokenView::End]));
    }
}

/// Input without gaps is given out tree by tree, each read as its token, then
/// a space and the end.
pub proof fn law_gapless_input(input: Seq<SourceTreeView>)
    requires
        input.len() > 0,
        gapless(input),
        all_classified(input),
    ensures
        spec_tokenizer_new(input) is Ok,
        spec_tokens(spec_tokenizer_new(input)->Ok_0, input.len() + 2) == Ok::<Seq<TokenView>, MettaError>(
            classified(input) + seq![TokenView::Space, TokenView::End],
        ),
{
    assert(classify(input[0]) is Ok);
    let t = spec_tokenizer_new(input)->Ok_0;
    let c0 = classify(input[0])->Ok_0;
    assert(t.rest =~= input.drop_first());
    assert(all_classified(t.rest)) by {
        assert forall|i: int| 0 <= i < t.rest.len() implies #[trigger] classify(t.rest[i]) is Ok by {
            assert(t.rest[i] == input[i + 1]);
            assert(classify(input[i + 1]) is Ok);
        }
    }
    assert(gapless(t.rest)) by {
        assert forall|i: int, j: int| 0 <= i && j == i + 1 && j < t.rest.len() implies touches(
            #[trigger] t.rest[i].span,
            #[trigger] t.rest[j].span,
        ) by {
            assert(touches(input[i + 1].span, input[j + 1].span));
        }
    }
    if t.rest.len() > 0 {
        assert(touches(input[0].span, input[1].span));
    }
    lemma_tokens_from(t);
    assert(classified(input) =~= seq![c0] + classified(t.rest));
    assert(seq![c0] + classified(t.rest) + seq![TokenView::Space, TokenView::End] =~= classified(input) + seq![
        TokenView::Space,
        TokenView::End,
    ]);
}

/// An empty input is given out as the end at once.
pub proof fn law_empty_input()
    ensures
        spec_tokenizer_new(Seq::empty()) is Ok,
        spec_tokenizer_next(spec_tokenizer_new(Seq::empty())->Ok_0) matches Ok((tok, _)) && tok is End,
{
}

/// Where a tree does not touch the one before it, the tokenizer gives out a
/// space, and then the same space again and again: it never reaches that tree.
pub proof fn law_gap_repeats(t: TokenizerView)
    requires
        t.rest.len() > 0,
        t.prev_span matches Some(sp) && !touches(sp, t.rest[0].span),
        t.rest[0].span.start != t.rest[0].span.end,
    ensures
        spec_tokenizer_next(t) matches Ok((_, t2)) && t2.prev is Space && t2.rest == t.rest
            && spec_tokenizer_next(t2) == Ok::<(TokenView, TokenizerView), MettaError>((TokenView::Space, t2)),
{
}

/// Whether a span covers no characters.
pub open spec fn empty_span(sp: Span) -> bool {
    sp.start == sp.end
}

/// Whether each tree of `s` touches the one before it or covers no
/// characters: the tokenizer then reads past every gap.
pub open spec fn no_endless_gap(s: Seq<SourceTreeView>) -> bool {
    forall|i: int, j: int|
        0 <= i && j == i + 1 && j < s.len() ==> touches(#[trigger] s[i].span, #[trigger] s[j].span) || empty_span(s[j].span)
}

/// The index of the first tree of `input` that covers characters and does not
/// touch the one before it: before it, the tokenizer gives out spaces without
/// end. `None` where there is no such tree.
pub fn first_endless_gap(input: &Vec<SourceTree>) -> (r: Option<usize>)
    ensures
        r is None <==> no_endless_gap(tree_values(input@)),
        r matches Some(i) ==> {
            &&& 0 < i < input@.len()
            &&& !touches(input@[i - 1].span, input@[i as int].span)
            &&& !empty_span(input@[i as int].span)
            &&& no_endless_gap(tree_values(input@).take(i as int))
        },
{
    let ghost iv = tree_values(input@);
    let n = input.len();
    let mut i: usize = 1;
    while i < n
        invariant
            n == input@.len(),
            iv == tree_values(input@),
            1 <= i,
            forall|k: int, j: int| 0 <= k && j == k + 1 && j < i && j < n ==> touches(#[trigger] iv[k].span, #[trigger] iv[j].span)
                || empty_span(iv[j].span),
        decreases n - i,
    {
        let a = input[i - 1].span;
        let b = input[i].span;
        let touching = a.end.line == b.start.line && a.end.column == b.start.column;
        let empty = b.start.line == b.end.line && b.start.column == b.end.column;
        proof {
            assert(iv[i - 1].span == a && iv[i as int].span == b);
        }
        if !touching && !empty {
            proof {
                let p = iv.take(i as int);
                assert forall|k: int, j: int| 0 <= k && j == k + 1 && j < p.len() implies touches(
                    #[trigger] p[k].span,
                    #[trigger] p[j].span,
                ) || empty_span(p[j].span) by {
                    assert(p[k] == iv[k] && p[j] == iv[j]);
                }
            }
            return Some(i);
        }
        i = i + 1;
    }
    None
}

/// Whether a token tree reads as a token: a literal must be one that `litrs`
/// reads.
pub fn readable(tt: &SourceTree) -> (r: bool)
    ensures
        r == (classify(tt@) is Ok),
{
    match tt.kind {
        TreeKind::Literal => classify_literal(tt.text.as_str()).is_some(),
        _ => true,
    }
}

impl Tokenizer {
    /// The value of the tokenizer's state.
    pub closed spec fn view_state(&self) -> TokenizerView {
        TokenizerView {
            prev: self.prev.0@,
            prev_span: self.prev.1,
            rest: tree_values(self.input@).subrange(self.pos as int, self.input@.len() as int),
        }
    }

    /// The tokenizer's own invariant.
    pub closed spec fn wf(&self) -> bool {
        &&& self.pos <= self.input@.len()
        &&& self.prev.1 is None ==> self.pos == self.input@.len()
    }

    /// Whether the tokenizer can start on `input`: its first tree, if any,
    /// reads as a token.
    pub fn first_readable(input: &Vec<SourceTree>) -> (r: bool)
        ensures
            r == (spec_tokenizer_new(tree_values(input@)) is Ok),
    {
        if input.len() == 0 {
            true
        } else {
            proof {
                assert(tree_values(input@)[0] == input@[0]@);
            }
            readable(&input[0])
        }
    }

    /// Starts reading `input`; the first tree is read at once.
    pub fn new(input: Vec<SourceTree>) -> (r: Tokenizer)
        requires
            spec_tokenizer_new(tree_values(input@)) is Ok,
        ensures
            r.wf(),
            spec_tokenizer_new(tree_values(input@)) == Ok::<TokenizerView, MettaError>(r.view_state()),
    {
        let ghost iv = tree_values(input@);
        if input.len() == 0 {
            let t = Tokenizer { prev: (Token::End, None), input, pos: 0 };
            assert(t.view_state().rest =~= iv);
            t
        } else {
            proof {
                assert(iv[0] == input@[0]@);
            }
            let first = input[0].copy();
            let (tok, span) = Self::to_token(first);
            let t = Tokenizer { prev: (tok, Some(span)), input, pos: 1 };
            assert(t.view_state().rest =~= iv.drop_first());
            t
        }
    }

    /// The token that the tokenizer gives out next.
    pub fn peek(&self) -> (r: &Token)
        ensures
            r@ == self.view_state().prev,
    {
        &self.prev.0
    }

    /// Whether the next tree is read in the next step: there is one, and it
    /// touches the token held.
    fn next_touches(&self) -> (r: bool)
        requires
            self.pos < self.input@.len(),
        ensures
            r == (self.prev.1 matches Some(sp) && touches(sp, self.input@[self.pos as int].span)),
    {
        let tt_span = self.input[self.pos].span;
        match self.prev.1 {
            Some(sp) => {
                let (line_a, column_a) = Self::range(sp.end);
                let (line_b, column_b) = Self::range(tt_span.start);
                line_a == line_b && column_a == column_b
            },
            None => false,
        }
    }

    /// Whether the next step goes through: any tree it reads reads as a token.
    pub fn step_readable(&self) -> (r: bool)
        requires
            self.wf(),
        ensures
            r == (spec_tokenizer_next(self.view_state()) is Ok),
    {
        if self.pos < self.input.len() {
            proof {
                assert(self.view_state().rest[0] == self.input@[self.pos as int]@);
            }
            if self.next_touches() {
                readable(&self.input[self.pos])
            } else {
                true
            }
        } else {
            true
        }
    }

    /// Gives out the next token.
    pub fn next(&mut self) -> (r: Token)
        requires
            old(self).wf(),
            spec_tokenizer_next(old(self).view_state()) is Ok,
        ensures
            final(self).wf(),
            spec_tokenizer_next(old(self).view_state()) == Ok::<(TokenView, TokenizerView), MettaError>(
                (r@, final(self).view_state()),
            ),
    {
        let ghost old_view = self.view_state();
        let mut next: (Token, Option<Span>);
        if self.pos >= self.input.len() {
            let span = self.prev.1;
            next = match self.prev.0 {
                Token::Space => (Token::End, span),
                _ => (Token::Space, span),
            };
            assert(self.view_state().rest =~= old_view.rest);
        } else {
            let tt_span = self.input[self.pos].span;
            proof {
                assert(old_view.rest[0] == self.input@[self.pos as int]@);
            }
            if self.next_touches() {
                let tt = self.input[self.pos].copy();
                let (tok, span) = Self::to_token(tt);
                next = (tok, Some(span));
                self.pos = self.pos + 1;
                assert(self.view_state().rest =~= old_view.rest.drop_first());
            } else {
                next = (Token::Space, Some(tt_span));
                assert(self.view_state().rest =~= old_view.rest);
            }
        }
        std::mem::swap(&mut next, &mut self.prev);
        next.0
    }

    /// The line and the column of a position.
    pub fn range(pos: LineColumn) -> (r: (usize, usize))
        ensures
            r == (pos.line, pos.column),
    {
        (pos.line, pos.column)
    }

    /// Reads a token tree as a token, together with its span.
    pub fn to_token(tt: SourceTree) -> (r: (Token, Span))
        requires
            classify(tt@) is Ok,
        ensures
            classify(tt@) == Ok::<TokenView, MettaError>(r.0@),
            r.1 == tt.span,
    {
        let span = tt.span;
        match tt.kind {
            TreeKind::Literal => match classify_literal(tt.text.as_str()) {
                Some(LiteralClass::Integer) => (Token::Int(tt.text), span),
                Some(LiteralClass::Float) => (Token::Float(tt.text), span),
                Some(LiteralClass::String) => (Token::Str(tt.text), span),
                _ => (Token::Other(tt), span),
            },
            TreeKind::Punct(c) => (Token::Punct(c), span),
            _ => (Token::Other(tt), span),
        }
    }
}

} // verus!
