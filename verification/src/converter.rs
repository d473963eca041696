//! The converter: a state machine that reads the tokens of MeTTa syntax and
//! writes the Rust code that builds the atoms they denote.
use vstd::prelude::*;
use crate::number::{is_digit, lemma_sign_prefix, parse_i64, parsed_i64};
use crate::literal::{LiteralClass, literal_class};
use crate::printer::{
    OutTree, OutTreeView, Printer, PrinterView, SpanPos, atom_call, bool_code, float_code, integer_code, law_expression,
    lemma_push_all_empty,
    spec_emit, spec_expr_end, spec_expr_start, str_code, symbol_code, variable_code,
};
use crate::token::{
    Delimiter, MettaError, SourceTree, SourceTreeView, Token, TokenView, TreeKind, classify, push_char, token_text,
};
use crate::tokenizer::{
    Tokenizer, TokenizerView, empty_span, no_endless_gap, spec_tokenizer_new, spec_tokenizer_next, touches, tree_values,
};

verus! {

/// The states of the converter.
#[derive(Debug, Clone, Copy, PartialEq, Eq, Structural)]
pub enum State {
    /// Between atoms.
    Start,
    /// After an atom, which a space must follow.
    ExpectSpace,
    /// After `$`: the name of a variable is being read.
    VariableName,
    /// After a sign: a number or a symbol follows.
    Sign,
    /// Inside the parentheses of an expression.
    Expression,
    /// The input is read.
    Final,
}

/// The code written for an identifier: a boolean for `True` and `False`,
/// a symbol for any other name.
pub open spec fn ident_code(first: SpanPos, text: Seq<char>) -> Seq<OutTreeView> {
    if text == "True"@ {
        bool_code(first, "true"@)
    } else if text == "False"@ {
        bool_code(first, "false"@)
    } else {
        symbol_code(first, text)
    }
}

/// Whether the first and the last character of a string literal's text can be
/// cut off: there are two of them at least, and both are ASCII.
pub open spec fn quotes_removable(s: Seq<char>) -> bool {
    s.len() >= 2 && (s[0] as u32) < 128 && (s[s.len() - 1] as u32) < 128
}

/// One transition of the converter: from its state, its buffer and its
/// output, on one token, to the next state, buffer and output, or the reason
/// it stops. The buffer is emptied whenever the converter is at the start.
pub open spec fn spec_transition(state: State, buffer: Seq<char>, out: PrinterView, tok: TokenView) -> Result<
    (State, Seq<char>, PrinterView),
    MettaError,
> {
    let b = if state == State::Start {
        Seq::<char>::empty()
    } else {
        buffer
    };
    match state {
        State::Start => match tok {
            TokenView::Space => Ok((State::Start, b, out)),
            TokenView::End => Ok((State::Final, b, out)),
            TokenView::Other(tt) => match tt.kind {
                TreeKind::Ident => Ok((State::ExpectSpace, b, spec_emit(out, ident_code(out.span, tt.text)))),
                TreeKind::Group(Delimiter::Parenthesis) => Ok((State::Expression, b, spec_expr_start(out))),
                _ => Err(MettaError::Unsupported),
            },
            TokenView::Punct(p) => if p == '$' {
                Ok((State::VariableName, b, out))
            } else if p == '-' || p == '+' {
                Ok((State::Sign, b.push(p), out))
            } else {
                Err(MettaError::Unsupported)
            },
            TokenView::Int(s) => match parsed_i64(s) {
                Some(n) => Ok((State::ExpectSpace, b, spec_emit(out, integer_code(out.span, n)))),
                None => Err(MettaError::IntegerParse),
            },
            TokenView::Float(s) => Ok((State::ExpectSpace, b, spec_emit(out, float_code(out.span, s)))),
            TokenView::Str(s) => if quotes_removable(s) {
                Ok((State::ExpectSpace, b, spec_emit(out, str_code(out.span, s.subrange(1, s.len() - 1)))))
            } else {
                Err(MettaError::StringSlice)
            },
        },
        State::ExpectSpace => match tok {
            TokenView::Space => Ok((State::Start, b, out)),
            _ => Err(MettaError::Unsupported),
        },
        State::VariableName => match tok {
            TokenView::Other(tt) => Ok((State::VariableName, b + tt.text, out)),
            TokenView::Space => Ok((State::Start, b, spec_emit(out, variable_code(out.span, b)))),
            TokenView::End => Err(MettaError::EndOfInput),
            _ => Ok((State::VariableName, b + token_text(tok), out)),
        },
        State::Sign => match tok {
            TokenView::Space => Ok((State::Start, b, spec_emit(out, symbol_code(out.span, b)))),
            TokenView::Int(s) => match parsed_i64(b + s) {
                Some(n) => Ok((State::Start, b + s, spec_emit(out, integer_code(out.span, n)))),
                None => Err(MettaError::IntegerParse),
            },
            TokenView::Float(s) => Ok((State::Start, b + s, spec_emit(out, float_code(out.span, b + s)))),
            _ => Err(MettaError::Unsupported),
        },
        State::Expression => match tok {
            TokenView::Space => Ok((State::Expression, b, out)),
            TokenView::End => Ok((State::Start, b, spec_expr_end(out))),
            _ => Err(MettaError::Unsupported),
        },
        State::Final => Err(MettaError::Unsupported),
    }
}

/// The whole state of a conversion.
pub struct ConverterView {
    pub state: State,
    pub buffer: Seq<char>,
    pub input: TokenizerView,
    pub output: PrinterView,
}

/// One step of a conversion: the tokenizer gives out a token, and the
/// converter makes its transition on it.
pub open spec fn spec_step(c: ConverterView) -> Result<ConverterView, MettaError> {
    match spec_tokenizer_next(c.input) {
        Err(e) => Err(e),
        Ok((tok, input)) => match spec_transition(c.state, c.buffer, c.output, tok) {
            Err(e) => Err(e),
            Ok((state, buffer, output)) => Ok(ConverterView { state, buffer, input, output }),
        },
    }
}

/// Whether the groups of the output are balanced for the state: only the
/// outermost group is open, but inside an expression, whose parenthesis and
/// bracket are open too.
pub open spec fn balanced(state: State, out: PrinterView) -> bool {
    if state == State::Expression {
        &&& out.levels.len() == 3
        &&& out.levels[1].0 == Delimiter::Parenthesis
        &&& out.levels[2].0 == Delimiter::Bracket
    } else {
        out.levels.len() == 1
    }
}

/// The state of a conversion at its start.
pub open spec fn spec_converter_start(input: TokenizerView) -> ConverterView {
    ConverterView {
        state: State::Start,
        buffer: Seq::empty(),
        input,
        output: PrinterView {
            span: SpanPos::CallSite,
            levels: seq![(Delimiter::Invisible, Seq::<OutTreeView>::empty())],
        },
    }
}

/// Whether the tokenizer reads the rest of its input to its end: while trees
/// are left, it holds a tree that the next one touches or that comes before a
/// tree covering no characters, or a space that the next tree touches; and no
/// gap later stops it.
pub open spec fn chained(t: TokenizerView) -> bool {
    t.rest.len() > 0 ==> {
        &&& !(t.prev is End)
        &&& t.prev_span matches Some(sp) && (touches(sp, t.rest[0].span) || (!(t.prev is Space) && empty_span(
            t.rest[0].span,
        )))
        &&& no_endless_gap(t.rest)
    }
}

/// The most steps that a converter in state `s` takes once the input is used
/// up and a space comes next.
pub open spec fn steps_after_space(s: State) -> nat {
    match s {
        State::Final => 0,
        State::Start => 2,
        State::Expression => 4,
        _ => 3,
    }
}

/// The most steps that a converter in state `s` takes once the input is used
/// up and the end comes next.
pub open spec fn steps_after_end(s: State) -> nat {
    match s {
        State::Final => 0,
        State::Start => 1,
        State::Expression => 3,
        _ => 1,
    }
}

/// A bound on the steps left in a conversion that reads its input to its end.
pub open spec fn steps_left(c: ConverterView) -> nat {
    if c.state == State::Final {
        0
    } else if c.input.rest.len() > 0 {
        2 * c.input.rest.len() + if c.input.prev is Space { 5nat } else { 6nat }
    } else if c.input.prev is Space {
        steps_after_space(c.state)
    } else if c.input.prev is End {
        steps_after_end(c.state)
    } else {
        6
    }
}

/// The outcome of a conversion within `fuel` steps: the trees written once
/// the converter reaches its final state, or the reason it stops; `None` if
/// `fuel` steps do not reach either.
pub open spec fn spec_run(c: ConverterView, fuel: nat) -> Option<Result<Seq<OutTreeView>, MettaError>>
    decreases fuel,
{
    if c.state == State::Final {
        Some(Ok(c.output.levels[0].1))
    } else if fuel == 0 {
        None
    } else {
        match spec_step(c) {
            Err(e) => Some(Err(e)),
            Ok(c2) => spec_run(c2, (fuel - 1) as nat),
        }
    }
}

/// The outcome of converting `input`, which takes at most twice as many steps
/// as the input has trees, and five more.
pub open spec fn spec_metta(input: Seq<SourceTreeView>) -> Option<Result<Seq<OutTreeView>, MettaError>> {
    match spec_tokenizer_new(input) {
        Err(e) => Some(Err(e)),
        Ok(t) => spec_run(spec_converter_start(t), 2 * input.len() + 5),
    }
}

/// The values of a conversion's result.
pub open spec fn result_values(r: Result<Vec<OutTree>, MettaError>) -> Result<Seq<OutTreeView>, MettaError> {
    match r {
        Ok(v) => Ok(OutTree::values(v@)),
        Err(e) => Err(e),
    }
}

/// A token tree never reads as a space or as the end.
proof fn lemma_classify_is_tree(tt: SourceTreeView)
    ensures
        classify(tt) matches Ok(t) ==> !(t is Space) && !(t is End),
{
}

/// A step of a conversion that reads its input to its end keeps it so and
/// brings it closer to its end.
pub proof fn law_step_progress(c: ConverterView)
    requires
        chained(c.input),
        c.state != State::Final,
        spec_step(c) is Ok,
    ensures
        chained(spec_step(c)->Ok_0.input),
        steps_left(spec_step(c)->Ok_0) < steps_left(c),
{
    let t = c.input;
    if t.rest.len() > 0 {
        lemma_classify_is_tree(t.rest[0]);
        let t2 = spec_tokenizer_next(t)->Ok_0.1;
        if t2.rest.len() > 0 && t2.rest.len() < t.rest.len() {
            assert(t2.rest[0] == t.rest[1]);
            assert(touches(t.rest[0].span, t.rest[1].span) || empty_span(t.rest[1].span));
            assert(no_endless_gap(t2.rest)) by {
                assert forall|i: int, j: int| 0 <= i && j == i + 1 && j < t2.rest.len() implies touches(
                    #[trigger] t2.rest[i].span,
                    #[trigger] t2.rest[j].span,
                ) || empty_span(t2.rest[j].span) by {
                    assert(t2.rest[i] == t.rest[i + 1]);
                    assert(t2.rest[j] == t.rest[j + 1]);
                    assert(touches(t.rest[i + 1].span, t.rest[j + 1].span) || empty_span(t.rest[j + 1].span));
                }
            }
        }
    }
}

/// A conversion that reads its input to its end finishes, or stops on an
/// error, within the bound on its steps.
pub proof fn law_run_terminates(c: ConverterView)
    requires
        chained(c.input),
    ensures
        spec_run(c, steps_left(c)) is Some,
    decreases steps_left(c),
{
    if c.state != State::Final {
        if let Ok(c2) = spec_step(c) {
            law_step_progress(c);
            law_run_terminates(c2);
            lemma_run_fuel(c2, steps_left(c2), (steps_left(c) - 1) as nat);
        }
    }
}

/// A run with enough fuel to finish gives the same outcome with more.
pub proof fn lemma_run_fuel(c: ConverterView, f: nat, g: nat)
    requires
        spec_run(c, f) is Some,
        f <= g,
    ensures
        spec_run(c, g) == spec_run(c, f),
    decreases f,
{
    if c.state != State::Final && f > 0 {
        if let Ok(c2) = spec_step(c) {
            lemma_run_fuel(c2, (f - 1) as nat, (g - 1) as nat);
        }
    }
}

/// An integer literal alone converts to the code that builds its value.
pub proof fn law_integer_literal(lit: SourceTreeView, v: i64)
    requires
        lit.kind == TreeKind::Literal,
        literal_class(lit.text) == Some(LiteralClass::Integer),
        parsed_i64(lit.text) == Some(v),
    ensures
        spec_metta(seq![lit]) == Some(Ok::<Seq<OutTreeView>, MettaError>(integer_code(SpanPos::CallSite, v))),
{
    reveal_with_fuel(spec_run, 4);
    let t = spec_tokenizer_new(seq![lit])->Ok_0;
    let c0 = spec_converter_start(t);
    let c1 = spec_step(c0)->Ok_0;
    let c2 = spec_step(c1)->Ok_0;
    let c3 = spec_step(c2)->Ok_0;
    assert(c3.state == State::Final);
    assert(Seq::<OutTreeView>::empty() + integer_code(SpanPos::CallSite, v) =~= integer_code(SpanPos::CallSite, v));
}

/// A sign that touches an integer literal is read with it: `+` keeps the
/// value and `-` negates it.
pub proof fn law_signed_integer(sign: SourceTreeView, lit: SourceTreeView, v: i64)
    requires
        sign.kind == TreeKind::Punct('+') || sign.kind == TreeKind::Punct('-'),
        touches(sign.span, lit.span),
        lit.kind == TreeKind::Literal,
        literal_class(lit.text) == Some(LiteralClass::Integer),
        parsed_i64(lit.text) == Some(v),
        lit.text.len() > 0,
        is_digit(lit.text[0]),
    ensures
        spec_metta(seq![sign, lit]) == Some(Ok::<Seq<OutTreeView>, MettaError>(integer_code(
            SpanPos::CallSite,
            if sign.kind == TreeKind::Punct('+') { v } else { (-v) as i64 },
        ))),
        sign.kind == TreeKind::Punct('+') ==> spec_metta(seq![sign, lit]) == spec_metta(seq![lit]),
{
    law_integer_literal(lit, v);
    reveal_with_fuel(spec_run, 5);
    lemma_sign_prefix(lit.text);
    let c = if sign.kind == TreeKind::Punct('+') { '+' } else { '-' };
    let input = seq![sign, lit];
    assert(input.drop_first() =~= seq![lit]);
    let t = spec_tokenizer_new(input)->Ok_0;
    let c0 = spec_converter_start(t);
    let c1 = spec_step(c0)->Ok_0;
    assert(c1.buffer =~= seq![c]);
    let c2 = spec_step(c1)->Ok_0;
    let c3 = spec_step(c2)->Ok_0;
    let c4 = spec_step(c3)->Ok_0;
    assert(c4.state == State::Final);
    let w = if sign.kind == TreeKind::Punct('+') { v } else { (-v) as i64 };
    assert(Seq::<OutTreeView>::empty() + integer_code(SpanPos::CallSite, w) =~= integer_code(SpanPos::CallSite, w));
}

/// An identifier alone converts to a boolean for `True` and `False`, and to
/// a symbol of its name otherwise.
pub proof fn law_identifier(id: SourceTreeView)
    requires
        id.kind == TreeKind::Ident,
    ensures
        spec_metta(seq![id]) == Some(Ok::<Seq<OutTreeView>, MettaError>(ident_code(SpanPos::CallSite, id.text))),
{
    reveal_with_fuel(spec_run, 4);
    let t = spec_tokenizer_new(seq![id])->Ok_0;
    let c0 = spec_converter_start(t);
    let c1 = spec_step(c0)->Ok_0;
    let c2 = spec_step(c1)->Ok_0;
    let c3 = spec_step(c2)->Ok_0;
    assert(c3.state == State::Final);
    assert(Seq::<OutTreeView>::empty() + ident_code(SpanPos::CallSite, id.text) =~= ident_code(SpanPos::CallSite, id.text));
}

/// An identifier other than `True` and `False`, alone, converts to the
/// symbol of its name; `True` and `False` convert to the booleans.
pub proof fn law_symbol_or_bool(id: SourceTreeView)
    requires
        id.kind == TreeKind::Ident,
    ensures
        id.text != "True"@ && id.text != "False"@ ==> spec_metta(seq![id]) == Some(
            Ok::<Seq<OutTreeView>, MettaError>(symbol_code(SpanPos::CallSite, id.text)),
        ),
        id.text == "True"@ ==> spec_metta(seq![id]) == Some(
            Ok::<Seq<OutTreeView>, MettaError>(bool_code(SpanPos::CallSite, "true"@)),
        ),
        id.text == "False"@ ==> spec_metta(seq![id]) == Some(
            Ok::<Seq<OutTreeView>, MettaError>(bool_code(SpanPos::CallSite, "false"@)),
        ),
{
    reveal_strlit("True");
    reveal_strlit("False");
    law_identifier(id);
}

/// A float literal alone converts to the code of the float written with its
/// whole text.
pub proof fn law_float_literal(lit: SourceTreeView)
    requires
        lit.kind == TreeKind::Literal,
        literal_class(lit.text) == Some(LiteralClass::Float),
    ensures
        spec_metta(seq![lit]) == Some(Ok::<Seq<OutTreeView>, MettaError>(float_code(SpanPos::CallSite, lit.text))),
{
    reveal_with_fuel(spec_run, 4);
    let t = spec_tokenizer_new(seq![lit])->Ok_0;
    let c0 = spec_converter_start(t);
    let c1 = spec_step(c0)->Ok_0;
    let c2 = spec_step(c1)->Ok_0;
    let c3 = spec_step(c2)->Ok_0;
    assert(c3.state == State::Final);
    assert(Seq::<OutTreeView>::empty() + float_code(SpanPos::CallSite, lit.text) =~= float_code(SpanPos::CallSite, lit.text));
}

/// A string literal alone converts to the code of the string between its
/// first and its last character, where both are ASCII; otherwise the
/// conversion stops, as the quotes cannot be cut off.
pub proof fn law_string_literal(lit: SourceTreeView)
    requires
        lit.kind == TreeKind::Literal,
        literal_class(lit.text) == Some(LiteralClass::String),
    ensures
        lit.text.len() >= 2 && (lit.text[0] as u32) < 128 && (lit.text[lit.text.len() - 1] as u32) < 128
            ==> spec_metta(seq![lit]) == Some(Ok::<Seq<OutTreeView>, MettaError>(str_code(
            SpanPos::CallSite,
            lit.text.subrange(1, lit.text.len() - 1),
        ))),
        !(lit.text.len() >= 2 && (lit.text[0] as u32) < 128 && (lit.text[lit.text.len() - 1] as u32) < 128)
            ==> spec_metta(seq![lit]) == Some(Err::<Seq<OutTreeView>, MettaError>(MettaError::StringSlice)),
{
    reveal_with_fuel(spec_run, 4);
    let t = spec_tokenizer_new(seq![lit])->Ok_0;
    let c0 = spec_converter_start(t);
    if quotes_removable(lit.text) {
        let c1 = spec_step(c0)->Ok_0;
        let c2 = spec_step(c1)->Ok_0;
        let c3 = spec_step(c2)->Ok_0;
        assert(c3.state == State::Final);
        let code = str_code(SpanPos::CallSite, lit.text.subrange(1, lit.text.len() - 1));
        assert(Seq::<OutTreeView>::empty() + code =~= code);
    }
}

/// A sign that touches a float literal is read with it: the float is written
/// with the sign before its text.
pub proof fn law_signed_float(sign: SourceTreeView, lit: SourceTreeView, c: char)
    requires
        sign.kind == TreeKind::Punct(c),
        c == '+' || c == '-',
        touches(sign.span, lit.span),
        lit.kind == TreeKind::Literal,
        literal_class(lit.text) == Some(LiteralClass::Float),
    ensures
        spec_metta(seq![sign, lit]) == Some(
            Ok::<Seq<OutTreeView>, MettaError>(float_code(SpanPos::CallSite, seq![c] + lit.text)),
        ),
{
    reveal_with_fuel(spec_run, 5);
    let input = seq![sign, lit];
    assert(input.drop_first() =~= seq![lit]);
    let t = spec_tokenizer_new(input)->Ok_0;
    let c0 = spec_converter_start(t);
    let c1 = spec_step(c0)->Ok_0;
    assert(c1.buffer =~= seq![c]);
    let c2 = spec_step(c1)->Ok_0;
    let c3 = spec_step(c2)->Ok_0;
    let c4 = spec_step(c3)->Ok_0;
    assert(c4.state == State::Final);
    let code = float_code(SpanPos::CallSite, seq![c] + lit.text);
    assert(Seq::<OutTreeView>::empty() + code =~= code);
}

/// A parenthesised group alone converts to the code of an expression:
/// `Atom::expr([])`.
pub proof fn law_parenthesis(g: SourceTreeView)
    requires
        g.kind == TreeKind::Group(Delimiter::Parenthesis),
    ensures
        spec_metta(seq![g]) == Some(Ok::<Seq<OutTreeView>, MettaError>(
            atom_call(SpanPos::CallSite, "expr"@, seq![OutTreeView::Group(Delimiter::Bracket, Seq::empty())]),
        )),
{
    reveal_with_fuel(spec_run, 6);
    let t = spec_tokenizer_new(seq![g])->Ok_0;
    let c0 = spec_converter_start(t);
    let c1 = spec_step(c0)->Ok_0;
    let c2 = spec_step(c1)->Ok_0;
    let c3 = spec_step(c2)->Ok_0;
    let c4 = spec_step(c3)->Ok_0;
    let c5 = spec_step(c4)->Ok_0;
    assert(c5.state == State::Final);
    law_expression(c0.output, Seq::empty());
    lemma_push_all_empty(spec_expr_start(c0.output));
    let code = atom_call(SpanPos::CallSite, "expr"@, seq![OutTreeView::Group(Delimiter::Bracket, Seq::empty())]);
    assert(Seq::<OutTreeView>::empty() + code =~= code);
}

/// A sign alone converts to the symbol of that sign.
pub proof fn law_lone_sign(sign: SourceTreeView, c: char)
    requires
        sign.kind == TreeKind::Punct(c),
        c == '+' || c == '-',
    ensures
        spec_metta(seq![sign]) == Some(Ok::<Seq<OutTreeView>, MettaError>(symbol_code(SpanPos::CallSite, seq![c]))),
{
    reveal_with_fuel(spec_run, 5);
    let t = spec_tokenizer_new(seq![sign])->Ok_0;
    let c0 = spec_converter_start(t);
    let c1 = spec_step(c0)->Ok_0;
    assert(c1.buffer =~= seq![c]);
    let c2 = spec_step(c1)->Ok_0;
    let c3 = spec_step(c2)->Ok_0;
    assert(c3.state == State::Final);
    let code = symbol_code(SpanPos::CallSite, seq![c]);
    assert(Seq::<OutTreeView>::empty() + code =~= code);
}

/// A `$` followed by touching trees converts to the variable whose name is
/// their texts in input order: for `$x-y`, the name `x-y`.
#[verifier::rlimit(50)]
pub proof fn law_variable_parts(dollar: SourceTreeView, a: SourceTreeView, p: SourceTreeView, b: SourceTreeView, c: char)
    requires
        dollar.kind == TreeKind::Punct('$'),
        a.kind == TreeKind::Ident,
        p.kind == TreeKind::Punct(c),
        b.kind == TreeKind::Ident,
        touches(dollar.span, a.span),
        touches(a.span, p.span),
        touches(p.span, b.span),
    ensures
        spec_metta(seq![dollar, a, p, b]) == Some(
            Ok::<Seq<OutTreeView>, MettaError>(variable_code(SpanPos::CallSite, a.text + seq![c] + b.text)),
        ),
{
    let input = seq![dollar, a, p, b];
    assert(input.drop_first() =~= seq![a, p, b]);
    assert(seq![a, p, b].drop_first() =~= seq![p, b]);
    assert(seq![p, b].drop_first() =~= seq![b]);
    let t = spec_tokenizer_new(input)->Ok_0;
    let c0 = spec_converter_start(t);
    let c1 = spec_step(c0)->Ok_0;
    assert(spec_run(c0, 13) == spec_run(c1, 12));
    let c2 = spec_step(c1)->Ok_0;
    assert(c2.buffer =~= a.text);
    assert(spec_run(c1, 12) == spec_run(c2, 11));
    let c3 = spec_step(c2)->Ok_0;
    assert(c3.buffer =~= a.text + seq![c]);
    assert(spec_run(c2, 11) == spec_run(c3, 10));
    let c4 = spec_step(c3)->Ok_0;
    assert(c4.buffer =~= a.text + seq![c] + b.text);
    assert(spec_run(c3, 10) == spec_run(c4, 9));
    let c5 = spec_step(c4)->Ok_0;
    assert(spec_run(c4, 9) == spec_run(c5, 8));
    let c6 = spec_step(c5)->Ok_0;
    assert(spec_run(c5, 8) == spec_run(c6, 7));
    assert(c6.state == State::Final);
    let code = variable_code(SpanPos::CallSite, a.text + seq![c] + b.text);
    assert(Seq::<OutTreeView>::empty() + code =~= code);
}

/// A `$` that touches an identifier converts to the variable of that name.
pub proof fn law_variable(dollar: SourceTreeView, id: SourceTreeView)
    requires
        dollar.kind == TreeKind::Punct('$'),
        id.kind == TreeKind::Ident,
        touches(dollar.span, id.span),
    ensures
        spec_metta(seq![dollar, id]) == Some(Ok::<Seq<OutTreeView>, MettaError>(variable_code(SpanPos::CallSite, id.text))),
{
    reveal_with_fuel(spec_run, 5);
    let input = seq![dollar, id];
    assert(input.drop_first() =~= seq![id]);
    let t = spec_tokenizer_new(input)->Ok_0;
    let c0 = spec_converter_start(t);
    let c1 = spec_step(c0)->Ok_0;
    let c2 = spec_step(c1)->Ok_0;
    assert(c2.buffer =~= id.text);
    let c3 = spec_step(c2)->Ok_0;
    let c4 = spec_step(c3)->Ok_0;
    assert(c4.state == State::Final);
    assert(Seq::<OutTreeView>::empty() + variable_code(SpanPos::CallSite, id.text) =~= variable_code(SpanPos::CallSite, id.text));
}

/// A step keeps the output balanced for the state: no group is closed that
/// was not opened, and a finished conversion has every group closed.
pub proof fn law_balance_kept(c: ConverterView)
    requires
        balanced(c.state, c.output),
        spec_step(c) is Ok,
    ensures
        balanced(spec_step(c)->Ok_0.state, spec_step(c)->Ok_0.output),
{
}

/// Whether the first and the last character of `s` can be cut off.
fn quotes_removable_at(s: &str) -> (r: bool)
    ensures
        r == quotes_removable(s@),
{
    let n = s.unicode_len();
    if n < 2 {
        return false;
    }
    let first = s.get_char(0);
    let last = s.get_char(n - 1);
    (first as u32) < 128 && (last as u32) < 128
}

/// The converter.
pub struct MettaConverter {
    state: State,
    buffer: String,
    input: Tokenizer,
    output: Printer,
}

impl MettaConverter {
    /// The whole state of the converter.
    pub closed spec fn view_state(&self) -> ConverterView {
        ConverterView {
            state: self.state,
            buffer: self.buffer@,
            input: self.input.view_state(),
            output: self.output@,
        }
    }

    /// The converter's invariant: the tokenizer's holds, and the output's
    /// groups are balanced for the state.
    pub closed spec fn wf(&self) -> bool {
        &&& self.input.wf()
        &&& balanced(self.state, self.output@)
    }

    /// A converter at the start of `input`; the first tree is read at once.
    pub fn new(input: Vec<SourceTree>) -> (r: MettaConverter)
        requires
            spec_tokenizer_new(tree_values(input@)) is Ok,
        ensures
            r.wf(),
            spec_tokenizer_new(tree_values(input@)) == Ok::<TokenizerView, MettaError>(r.view_state().input),
            r.view_state() == spec_converter_start(r.view_state().input),
    {
        let input = Tokenizer::new(input);
        MettaConverter { state: State::Start, buffer: String::new(), input, output: Printer::new() }
    }

    /// The reason the next step stops, if it does: the next tree does not
    /// read as a token, or the converter does not accept the token it holds
    /// in its state.
    pub fn step_error(&self) -> (r: Option<MettaError>)
        requires
            self.wf(),
        ensures
            r == match spec_step(self.view_state()) {
                Ok(_) => None::<MettaError>,
                Err(e) => Some(e),
            },
    {
        if !self.input.step_readable() {
            return Some(MettaError::LiteralParse);
        }
        let token = self.input.peek();
        match self.state {
            State::Start => match token {
                Token::Other(tt) => match tt.kind {
                    TreeKind::Ident => None,
                    TreeKind::Group(Delimiter::Parenthesis) => None,
                    _ => Some(MettaError::Unsupported),
                },
                Token::Punct(p) => {
                    if *p == '$' || *p == '-' || *p == '+' {
                        None
                    } else {
                        Some(MettaError::Unsupported)
                    }
                },
                Token::Int(s) => match parse_i64(s.as_str()) {
                    Some(_) => None,
                    None => Some(MettaError::IntegerParse),
                },
                Token::Str(s) => {
                    if quotes_removable_at(s.as_str()) {
                        None
                    } else {
                        Some(MettaError::StringSlice)
                    }
                },
                _ => None,
            },
            State::ExpectSpace => match token {
                Token::Space => None,
                _ => Some(MettaError::Unsupported),
            },
            State::VariableName => match token {
                Token::End => Some(MettaError::EndOfInput),
                _ => None,
            },
            State::Sign => match token {
                Token::Space => None,
                Token::Int(s) => {
                    let mut text = self.buffer.clone();
                    text.append(s.as_str());
                    match parse_i64(text.as_str()) {
                        Some(_) => None,
                        None => Some(MettaError::IntegerParse),
                    }
                },
                Token::Float(_) => None,
                _ => Some(MettaError::Unsupported),
            },
            State::Expression => match token {
                Token::Space => None,
                Token::End => None,
                _ => Some(MettaError::Unsupported),
            },
            State::Final => Some(MettaError::Unsupported),
        }
    }

    /// Reads one token and makes the transition on it.
    pub fn next_state(&mut self)
        requires
            old(self).wf(),
            spec_step(old(self).view_state()) is Ok,
        ensures
            final(self).wf(),
            spec_step(old(self).view_state()) == Ok::<ConverterView, MettaError>(final(self).view_state()),
    {
        let state = self.state;
        let token = self.input.next();
        if state == State::Start {
            self.buffer = String::new();
        }
        let next = match state {
            State::Start => match token {
                Token::Space => State::Start,
                Token::End => State::Final,
                Token::Other(tt) => match tt.kind {
                    TreeKind::Ident => {
                        let true_name = String::from_str("True");
                        let false_name = String::from_str("False");
                        proof {
                            reveal_strlit("true");
                            reveal_strlit("false");
                        }
                        if tt.text == true_name {
                            self.output.bool("true");
                        } else if tt.text == false_name {
                            self.output.bool("false");
                        } else {
                            self.output.symbol(tt.text.as_str());
                        }
                        State::ExpectSpace
                    },
                    _ => {
                        self.output.expr_start();
                        State::Expression
                    },
                },
                Token::Punct(p) => {
                    if p == '$' {
                        State::VariableName
                    } else {
                        push_char(&mut self.buffer, p);
                        State::Sign
                    }
                },
                Token::Int(s) => {
                    let n = match parse_i64(s.as_str()) {
                        Some(n) => n,
                        None => 0,
                    };
                    self.output.integer(n);
                    State::ExpectSpace
                },
                Token::Float(s) => {
                    self.output.float(s.as_str());
                    State::ExpectSpace
                },
                Token::Str(s) => {
                    let text = s.as_str();
                    let n = text.unicode_len();
                    let inner = text.substring_char(1, n - 1);
                    self.output.str(inner);
                    State::ExpectSpace
                },
            },
            State::ExpectSpace => State::Start,
            State::VariableName => match token {
                Token::Other(tt) => {
                    self.buffer.append(tt.text.as_str());
                    State::VariableName
                },
                Token::Space => {
                    self.output.variable(self.buffer.as_str());
                    State::Start
                },
                t => {
                    let text = t.to_string();
                    self.buffer.append(text.as_str());
                    State::VariableName
                },
            },
            State::Sign => match token {
                Token::Space => {
                    self.output.symbol(self.buffer.as_str());
                    State::Start
                },
                Token::Int(s) => {
                    self.buffer.append(s.as_str());
                    let n = match parse_i64(self.buffer.as_str()) {
                        Some(n) => n,
                        None => 0,
                    };
                    self.output.integer(n);
                    State::Start
                },
                Token::Float(s) => {
                    self.buffer.append(s.as_str());
                    self.output.float(self.buffer.as_str());
                    State::Start
                },
                _ => State::Final,
            },
            State::Expression => match token {
                Token::Space => State::Expression,
                _ => {
                    self.output.expr_end();
                    State::Start
                },
            },
            State::Final => State::Final,
        };
        self.state = next;
    }

    /// Runs a conversion that reads its input to its end and does not stop
    /// on an error; gives the trees written. A converter already in its final
    /// state reads nothing.
    pub fn run(&mut self) -> (r: Vec<OutTree>)
        requires
            old(self).wf(),
            chained(old(self).view_state().input),
            spec_run(old(self).view_state(), steps_left(old(self).view_state())) matches Some(Ok(_)),
        ensures
            spec_run(old(self).view_state(), steps_left(old(self).view_state())) == Some(
                Ok::<Seq<OutTreeView>, MettaError>(OutTree::values(r@)),
            ),
            final(self).view_state().state == State::Final,
            final(self).view_state().output.levels.len() == 0,
            old(self).view_state().state == State::Final ==> {
                &&& final(self).view_state().input == old(self).view_state().input
                &&& final(self).view_state().buffer == old(self).view_state().buffer
            },
    {
        let ghost c0 = self.view_state();
        let ghost mut fuel = steps_left(c0);
        loop
            invariant
                c0 == old(self).view_state(),
                self.wf(),
                chained(self.view_state().input),
                fuel >= steps_left(self.view_state()),
                spec_run(self.view_state(), fuel) == spec_run(c0, steps_left(c0)),
                spec_run(c0, steps_left(c0)) matches Some(Ok(_)),
                c0.state == State::Final ==> self.view_state() == c0,
            ensures
                self.wf(),
                self.view_state().state == State::Final,
                spec_run(self.view_state(), fuel) == spec_run(c0, steps_left(c0)),
                c0.state == State::Final ==> self.view_state() == c0,
            decreases steps_left(self.view_state()),
        {
            if self.state == State::Final {
                break;
            }
            let ghost c = self.view_state();
            proof {
                assert(fuel > 0);
            }
            self.next_state();
            proof {
                law_step_progress(c);
                fuel = (fuel - 1) as nat;
            }
        }
        self.output.get_token_stream()
    }
}

/// Why converting `input` would stop, or `None` where it reaches its end.
pub fn metta_error(input: &Vec<SourceTree>) -> (r: Option<MettaError>)
    requires
        no_endless_gap(tree_values(input@)),
    ensures
        r == match spec_metta(tree_values(input@)) {
            Some(Err(e)) => Some(e),
            _ => None::<MettaError>,
        },
        spec_metta(tree_values(input@)) is Some,
{
    let ghost iv = tree_values(input@);
    if !Tokenizer::first_readable(input) {
        return Some(MettaError::LiteralParse);
    }
    let mut copy: Vec<SourceTree> = Vec::new();
    let mut i: usize = 0;
    while i < input.len()
        invariant
            i <= input@.len(),
            copy@.len() == i,
            forall|j: int| 0 <= j < i ==> #[trigger] copy@[j]@ == input@[j]@,
        decreases input@.len() - i,
    {
        copy.push(input[i].copy());
        i = i + 1;
    }
    proof {
        assert(tree_values(copy@) =~= iv);
    }
    let mut converter = MettaConverter::new(copy);
    let ghost c0 = converter.view_state();
    proof {
        lemma_start_chained(iv, c0);
        law_run_terminates(c0);
        lemma_run_fuel(c0, steps_left(c0), 2 * iv.len() + 5);
    }
    let ghost mut fuel = steps_left(c0);
    loop
        invariant
            iv == tree_values(input@),
            converter.wf(),
            chained(converter.view_state().input),
            fuel >= steps_left(converter.view_state()),
            spec_run(converter.view_state(), fuel) == spec_run(c0, steps_left(c0)),
            spec_run(c0, steps_left(c0)) == spec_metta(iv),
        decreases steps_left(converter.view_state()),
    {
        if converter.state == State::Final {
            return None;
        }
        let ghost c = converter.view_state();
        proof {
            assert(fuel > 0);
        }
        match converter.step_error() {
            Some(e) => {
                return Some(e);
            },
            None => {},
        }
        converter.next_state();
        proof {
            law_step_progress(c);
            fuel = (fuel - 1) as nat;
        }
    }
}

/// The converter at the start of input that reads to its end holds a
/// tokenizer that does.
proof fn lemma_start_chained(iv: Seq<SourceTreeView>, c0: ConverterView)
    requires
        no_endless_gap(iv),
        spec_tokenizer_new(iv) == Ok::<TokenizerView, MettaError>(c0.input),
    ensures
        chained(c0.input),
{
    if iv.len() > 0 {
        lemma_classify_is_tree(iv[0]);
        let rest = c0.input.rest;
        assert(rest =~= iv.drop_first());
        if rest.len() > 0 {
            assert(touches(iv[0].span, iv[1].span) || empty_span(iv[1].span));
            assert(no_endless_gap(rest)) by {
                assert forall|i: int, j: int| 0 <= i && j == i + 1 && j < rest.len() implies touches(
                    #[trigger] rest[i].span,
                    #[trigger] rest[j].span,
                ) || empty_span(rest[j].span) by {
                    assert(touches(iv[i + 1].span, iv[j + 1].span) || empty_span(iv[j + 1].span));
                }
            }
        }
    }
}

/// Converts MeTTa syntax into the token trees of Rust code that builds the
/// atoms it denotes. The input must read to its end, each tree touching the
/// one before it or covering no characters, and the conversion must not stop
/// on an error.
pub fn metta(input: Vec<SourceTree>) -> (r: Vec<OutTree>)
    requires
        no_endless_gap(tree_values(input@)),
        spec_metta(tree_values(input@)) matches Some(Ok(_)),
    ensures
        spec_metta(tree_values(input@)) == Some(Ok::<Seq<OutTreeView>, MettaError>(OutTree::values(r@))),
{
    let ghost iv = tree_values(input@);
    let mut converter = MettaConverter::new(input);
    let ghost c0 = converter.view_state();
    proof {
        lemma_start_chained(iv, c0);
        law_run_terminates(c0);
        lemma_run_fuel(c0, steps_left(c0), 2 * iv.len() + 5);
    }
    converter.run()
}

/// Converts MeTTa syntax that reads to its end into the token trees of Rust
/// code that builds the atoms it denotes, or gives the reason the conversion
/// stops.
pub fn try_metta(input: Vec<SourceTree>) -> (r: Result<Vec<OutTree>, MettaError>)
    requires
        no_endless_gap(tree_values(input@)),
    ensures
        spec_metta(tree_values(input@)) == Some(result_values(r)),
{
    match metta_error(&input) {
        Some(e) => Err(e),
        None => Ok(metta(input)),
    }
}

} // verus!
